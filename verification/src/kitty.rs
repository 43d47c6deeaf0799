//! Kitty graphics protocol commands for showing formula images.
use base64::Engine;
use std::io::Write;
use vstd::prelude::*;

use crate::text::{self, chars_of, push_decimal, push_str, string_from_range};

verus! {

/// The largest base64 payload of one command.
pub const PAYLOAD_CHUNK_SIZE: usize = 4096;

/// Where and how an image is placed.
#[derive(Clone, Copy, Debug, PartialEq, Eq, Structural)]
pub struct Placement {
    pub image_id: u32,
    pub columns: u16,
    pub rows: u16,
    pub z_index: i32,
}

/// The base64 alphabet: `A`-`Z`, `a`-`z`, `0`-`9`, `+`, `/`.
pub open spec fn b64_char(i: int) -> char {
    if i < 26 {
        (65 + i) as char
    } else if i < 52 {
        (97 + i - 26) as char
    } else if i < 62 {
        (48 + i - 52) as char
    } else if i == 62 {
        '+'
    } else {
        '/'
    }
}

/// Padded standard base64 (what `base64::engine::general_purpose::STANDARD`
/// encodes): each group of three bytes as four characters, a last group of
/// one or two bytes padded with `=`.
pub open spec fn base64_standard(bytes: Seq<u8>) -> Seq<char>
    decreases bytes.len(),
{
    if bytes.len() == 0 {
        seq![]
    } else if bytes.len() == 1 {
        seq![b64_char((bytes[0] / 4) as int), b64_char((bytes[0] % 4) * 16), '=', '=']
    } else if bytes.len() == 2 {
        seq![
            b64_char((bytes[0] / 4) as int),
            b64_char((bytes[0] % 4) * 16 + bytes[1] / 16),
            b64_char((bytes[1] % 16) * 4),
            '=',
        ]
    } else {
        seq![
            b64_char((bytes[0] / 4) as int),
            b64_char((bytes[0] % 4) * 16 + bytes[1] / 16),
            b64_char((bytes[1] % 16) * 4 + bytes[2] / 64),
            b64_char((bytes[2] % 64) as int),
        ] + base64_standard(bytes.skip(3))
    }
}

/// `STANDARD.encode` from the `base64` crate: padded standard base64, four
/// output characters for every started group of three bytes.
#[verifier::external_body]
pub(crate) fn encode_base64(bytes: &[u8]) -> (r: String)
    ensures
        r@ == base64_standard(bytes@),
        r@.len() == 4 * ((bytes@.len() + 2) / 3),
{
    base64::engine::general_purpose::STANDARD.encode(bytes)
}

/// The zlib stream that `flate2`'s `ZlibEncoder` at `Compression::fast()`
/// writes for `bytes`.
pub uninterp spec fn zlib_fast(bytes: Seq<u8>) -> Seq<u8>;

/// Compresses RGBA pixels with `flate2::write::ZlibEncoder` at
/// `Compression::fast()` (`write_all`, then `finish`) and gives the zlib
/// stream. The encoder writes into a `Vec`, which takes every write, and
/// `finish` after `write_all` asks miniz_oxide for nothing it refuses, so
/// neither call fails.
#[verifier::external_body]
pub fn compress_rgba(rgba: &[u8]) -> (r: Vec<u8>)
    ensures
        r@ == zlib_fast(rgba@),
{
    let mut compressor = flate2::write::ZlibEncoder::new(Vec::new(), flate2::Compression::fast());
    compressor.write_all(rgba).expect("a Vec takes every write");
    compressor.finish().expect("a Vec takes every write")
}

/// Decimal digits of a signed number, with a leading `-` when negative.
pub open spec fn signed_decimal(n: int) -> Seq<char> {
    if n < 0 {
        seq!['-'] + text::decimal((-n) as nat)
    } else {
        text::decimal(n as nat)
    }
}

fn push_signed(s: &mut String, n: i32)
    ensures
        final(s)@ == old(s)@ + signed_decimal(n as int),
{
    if n < 0 {
        text::push_char(s, '-');
        let m: u64 = (-(n as i64)) as u64;
        push_decimal(s, m);
        assert(s@ =~= old(s)@ + signed_decimal(n as int));
    } else {
        push_decimal(s, n as u64);
    }
}

/// The command deleting image `image_id`.
pub open spec fn delete_command(image_id: u32) -> Seq<char> {
    "\x1b_Ga=d,d=I,i="@ + text::decimal(image_id as nat) + ",q=2\x1b\\"@
}

/// The command that deletes the image `image_id`.
pub fn delete_image(image_id: u32) -> (r: String)
    ensures
        r@ == delete_command(image_id),
{
    let mut r = "\x1b_Ga=d,d=I,i=".to_owned();
    push_decimal(&mut r, image_id as u64);
    push_str(&mut r, ",q=2\x1b\\");
    r
}

/// The command that deletes every image.
pub fn delete_all() -> (r: String)
    ensures
        r@ == "\x1b_Ga=d,d=A,q=2\x1b\\"@,
{
    "\x1b_Ga=d,d=A,q=2\x1b\\".to_owned()
}

/// The number of commands a payload of `len` characters takes.
pub open spec fn chunk_count(len: nat) -> nat {
    (len + PAYLOAD_CHUNK_SIZE - 1) as nat / PAYLOAD_CHUNK_SIZE as nat
}

/// The payload of command `k`.
pub open spec fn chunk(payload: Seq<char>, k: nat) -> Seq<char> {
    let start = k * PAYLOAD_CHUNK_SIZE;
    let end = if start + PAYLOAD_CHUNK_SIZE <= payload.len() {
        start + PAYLOAD_CHUNK_SIZE
    } else {
        payload.len() as int
    };
    payload.subrange(start as int, end)
}

/// The control data of command `k`: the first carries the image format and
/// placement (only the width in cells, so the image keeps its aspect ratio);
/// `m=1` marks that more commands follow.
pub open spec fn chunk_header(k: nat, count: nat, width: u32, height: u32, p: Placement) -> Seq<
    char,
> {
    let more = if k + 1 < count {
        "1"@
    } else {
        "0"@
    };
    if k == 0 {
        "\x1b_Ga=T,f=32,s="@ + text::decimal(width as nat) + ",v="@ + text::decimal(height as nat)
            + ",i="@ + text::decimal(p.image_id as nat) + ",p=1,o=z,c="@ + text::decimal(
            p.columns as nat,
        ) + ",z="@ + signed_decimal(p.z_index as int) + ",C=1,q=2,m="@ + more + ";"@
    } else {
        "\x1b_Gq=2,m="@ + more + ";"@
    }
}

/// The first `k` commands transmitting `payload`.
pub open spec fn commands(payload: Seq<char>, k: nat, width: u32, height: u32, p: Placement) -> Seq<
    char,
>
    decreases k,
{
    if k == 0 {
        seq![]
    } else {
        let j = (k - 1) as nat;
        commands(payload, j, width, height, p) + chunk_header(
            j,
            chunk_count(payload.len()),
            width,
            height,
            p,
        ) + chunk(payload, j) + "\x1b\\"@
    }
}

/// The whole transmission of an image.
pub open spec fn transmission(bytes: Seq<u8>, width: u32, height: u32, p: Placement) -> Seq<char> {
    let payload = base64_standard(bytes);
    commands(payload, chunk_count(payload.len()), width, height, p)
}

/// A formula image with a zero dimension.
#[derive(Clone, Copy, Debug, PartialEq, Eq, Structural)]
pub enum TransmitError {
    ZeroDimension,
}

/// The commands that transmit zlib-compressed RGBA pixels and place them:
/// the base64 payload is cut into chunks of at most `PAYLOAD_CHUNK_SIZE`.
pub fn transmit_compressed_rgba(
    compressed_rgba: &[u8],
    width: u32,
    height: u32,
    placement: Placement,
) -> (r: Result<String, TransmitError>)
    ensures
        width == 0 || height == 0 || placement.columns == 0 || placement.rows == 0 ==> r is Err,
        !(width == 0 || height == 0 || placement.columns == 0 || placement.rows == 0) ==> (r matches Ok(
            s,
        ) && s@ == transmission(compressed_rgba@, width, height, placement)),
{
    if width == 0 || height == 0 || placement.columns == 0 || placement.rows == 0 {
        return Err(TransmitError::ZeroDimension);
    }
    let encoded = encode_base64(compressed_rgba);
    let payload = chars_of(encoded.as_str());
    let len = payload.len();
    let count = len / PAYLOAD_CHUNK_SIZE + if len % PAYLOAD_CHUNK_SIZE == 0 {
        0
    } else {
        1
    };
    assert(count == chunk_count(len as nat));
    let mut out = String::new();
    let mut k: usize = 0;
    while k < count
        invariant
            payload@ == base64_standard(compressed_rgba@),
            len == payload@.len(),
            count == chunk_count(len as nat),
            k <= count,
            out@ == commands(payload@, k as nat, width, height, placement),
        decreases count - k,
    {
        let more = if k + 1 < count {
            "1"
        } else {
            "0"
        };
        let ghost before = out@;
        if k == 0 {
            push_str(&mut out, "\x1b_Ga=T,f=32,s=");
            push_decimal(&mut out, width as u64);
            push_str(&mut out, ",v=");
            push_decimal(&mut out, height as u64);
            push_str(&mut out, ",i=");
            push_decimal(&mut out, placement.image_id as u64);
            push_str(&mut out, ",p=1,o=z,c=");
            push_decimal(&mut out, placement.columns as u64);
            push_str(&mut out, ",z=");
            push_signed(&mut out, placement.z_index);
            push_str(&mut out, ",C=1,q=2,m=");
            push_str(&mut out, more);
            push_str(&mut out, ";");
        } else {
            push_str(&mut out, "\x1b_Gq=2,m=");
            push_str(&mut out, more);
            push_str(&mut out, ";");
        }
        assert(out@ =~= before + chunk_header(k as nat, count as nat, width, height, placement));
        let start = k * PAYLOAD_CHUNK_SIZE;
        let end = if len - start >= PAYLOAD_CHUNK_SIZE {
            start + PAYLOAD_CHUNK_SIZE
        } else {
            len
        };
        let piece = string_from_range(&payload, start, end);
        push_str(&mut out, piece.as_str());
        push_str(&mut out, "\x1b\\");
        assert(out@ =~= commands(payload@, (k + 1) as nat, width, height, placement));
        k += 1;
    }
    Ok(out)
}

/// Every command's payload is at most `PAYLOAD_CHUNK_SIZE` characters and,
/// base64 being written in groups of four, a multiple of four long.
pub proof fn lemma_chunks_are_bounded(bytes: Seq<u8>, k: nat)
    requires
        base64_standard(bytes).len() == 4 * ((bytes.len() + 2) / 3),
        k < chunk_count(base64_standard(bytes).len()),
    ensures
        chunk(base64_standard(bytes), k).len() <= PAYLOAD_CHUNK_SIZE,
        chunk(base64_standard(bytes), k).len() % 4 == 0,
{
    let payload = base64_standard(bytes);
    let start = k * PAYLOAD_CHUNK_SIZE;
    assert(start < payload.len()) by (nonlinear_arith)
        requires
            k < (payload.len() + PAYLOAD_CHUNK_SIZE - 1) as nat / PAYLOAD_CHUNK_SIZE as nat,
            start == k * PAYLOAD_CHUNK_SIZE,
    ;
    assert(start % 4 == 0) by (nonlinear_arith)
        requires
            start == k * 4096,
    ;
}

/// The commands that transmit RGBA pixels, compressed with zlib, and place
/// them.
pub fn transmit_rgba(rgba: &[u8], width: u32, height: u32, placement: Placement) -> (r: Result<
    String,
    TransmitError,
>)
    ensures
        width == 0 || height == 0 || placement.columns == 0 || placement.rows == 0 ==> r is Err,
        !(width == 0 || height == 0 || placement.columns == 0 || placement.rows == 0) ==> (r matches Ok(
            s,
        ) && s@ == transmission(zlib_fast(rgba@), width, height, placement)),
{
    let compressed = compress_rgba(rgba);
    transmit_compressed_rgba(&compressed, width, height, placement)
}

} // verus!
