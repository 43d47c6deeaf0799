//! The native-messaging bridge to the browser extensions: how messages are
//! framed (a little-endian `u32` length, then that many bytes of JSON) and
//! what an `add` request is answered.
use vstd::prelude::*;

use crate::cli::{join_path, joined};
use crate::text::{self, push_str, trim_str};

verus! {

/// The host name extensions connect to; the manifest is `<name>.json`.
pub const HOST_NAME: &'static str = "com.grimoire.host";

/// The largest message accepted from an extension (1 MiB), as browsers cap
/// them.
pub const MAX_MESSAGE_LEN: u32 = 1048576;

/// Why a message could not be read or written.
#[derive(Debug, Clone, Copy, PartialEq, Eq, Structural)]
pub enum FrameError {
    /// The announced length is over the limit.
    TooLong(u32),
    /// The stream ended inside the message body.
    Truncated,
    /// A response too long for a `u32` length.
    ResponseTooLong,
}

impl FrameError {
    pub fn message(&self) -> (m: String)
        ensures
            m@ == match self {
                FrameError::TooLong(n) => "Native message length "@ + text::decimal(*n as nat)
                    + " exceeds the 1048576-byte limit"@,
                FrameError::Truncated => "Failed to read native message body"@,
                FrameError::ResponseTooLong => "Response exceeds the maximum native message length"@,
            },
    {
        match self {
            FrameError::TooLong(n) => {
                let mut m = "Native message length ".to_string();
                text::push_decimal(&mut m, *n as u64);
                push_str(&mut m, " exceeds the 1048576-byte limit");
                m
            },
            FrameError::Truncated => "Failed to read native message body".to_string(),
            FrameError::ResponseTooLong => "Response exceeds the maximum native message length".to_string(),
        }
    }
}

/// The little-endian `u32` in four bytes.
pub open spec fn le_u32(b0: u8, b1: u8, b2: u8, b3: u8) -> nat {
    b0 as nat + b1 as nat * 256 + b2 as nat * 65536 + b3 as nat * 16777216
}

/// Reading a message at `pos` of `stream`: `None` at a clean end (fewer
/// than four bytes left), else the body announced by the length prefix, or
/// why there is none.
pub open spec fn framed_at(stream: Seq<u8>, pos: int) -> Option<Result<(Seq<u8>, int), FrameError>> {
    if pos + 4 > stream.len() {
        None
    } else {
        let n = le_u32(stream[pos], stream[pos + 1], stream[pos + 2], stream[pos + 3]);
        if n > MAX_MESSAGE_LEN {
            Some(Err(FrameError::TooLong(n as u32)))
        } else if pos + 4 + n > stream.len() {
            Some(Err(FrameError::Truncated))
        } else {
            Some(Ok((stream.subrange(pos + 4, pos + 4 + n), pos + 4 + n)))
        }
    }
}

/// Reads the message at `pos` of what the browser sent: the body and the
/// position after it, `None` at a clean end, or an error for an oversized
/// or cut-off message.
pub fn read_message(stream: &[u8], pos: usize) -> (r: Result<Option<(Vec<u8>, usize)>, FrameError>)
    requires
        pos <= stream@.len(),
    ensures
        match framed_at(stream@, pos as int) {
            None => r matches Ok(None),
            Some(Err(e)) => r == Err::<Option<(Vec<u8>, usize)>, FrameError>(e),
            Some(Ok((body, next))) => r matches Ok(Some((b, p))) && b@ == body && p == next,
        },
{
    if stream.len() - pos < 4 {
        return Ok(None);
    }
    let n: u32 = (stream[pos] as u32) + (stream[pos + 1] as u32) * 256 + (stream[pos + 2] as u32) * 65536
        + (stream[pos + 3] as u32) * 16777216;
    if n > MAX_MESSAGE_LEN {
        return Err(FrameError::TooLong(n));
    }
    let len = n as usize;
    if stream.len() - pos - 4 < len {
        return Err(FrameError::Truncated);
    }
    let mut body: Vec<u8> = Vec::new();
    let start = pos + 4;
    let mut i: usize = 0;
    while i < len
        invariant
            start == pos + 4,
            start + len <= stream.len(),
            i <= len,
            body@ == stream@.subrange(start as int, start + i),
        decreases len - i,
    {
        body.push(stream[start + i]);
        assert(body@ =~= stream@.subrange(start as int, start + i + 1));
        i += 1;
    }
    Ok(Some((body, start + len)))
}

/// `payload` framed for the browser: its length as a little-endian `u32`,
/// then the payload.
pub open spec fn framed(payload: Seq<u8>) -> Seq<u8> {
    let n = payload.len();
    seq![(n % 256) as u8, (n / 256 % 256) as u8, (n / 65536 % 256) as u8, (n / 16777216 % 256) as u8]
        + payload
}

/// Frames a response; one longer than a `u32` can count is refused.
pub fn encode_message(payload: &[u8]) -> (r: Result<Vec<u8>, FrameError>)
    ensures
        match r {
            Ok(bytes) => payload@.len() <= u32::MAX && bytes@ == framed(payload@),
            Err(e) => payload@.len() > u32::MAX && e == FrameError::ResponseTooLong,
        },
{
    if payload.len() > 4294967295 {
        return Err(FrameError::ResponseTooLong);
    }
    let n = payload.len();
    let mut out: Vec<u8> = Vec::new();
    out.push((n % 256) as u8);
    out.push((n / 256 % 256) as u8);
    out.push((n / 65536 % 256) as u8);
    out.push((n / 16777216 % 256) as u8);
    let mut i: usize = 0;
    while i < payload.len()
        invariant
            n == payload@.len(),
            i <= n,
            out@ == seq![(n % 256) as u8, (n / 256 % 256) as u8, (n / 65536 % 256) as u8, (n / 16777216 % 256) as u8]
                + payload@.take(i as int),
        decreases n - i,
    {
        out.push(payload[i]);
        assert(payload@.take(i + 1) =~= payload@.take(i as int).push(payload@[i as int]));
        i += 1;
    }
    assert(payload@.take(n as int) =~= payload@);
    Ok(out)
}

proof fn lemma_le_roundtrip(n: nat)
    requires
        n <= u32::MAX,
    ensures
        le_u32((n % 256) as u8, (n / 256 % 256) as u8, (n / 65536 % 256) as u8, (n / 16777216 % 256) as u8) == n,
{
    assert(n == n % 256 + (n / 256 % 256) * 256 + (n / 65536 % 256) * 65536 + (n / 16777216 % 256) * 16777216)
        by (nonlinear_arith)
        requires
            n <= u32::MAX,
    ;
}

/// A framed message reads back as what was framed, and the stream is then
/// at its end.
pub proof fn lemma_frame_roundtrip(payload: Seq<u8>)
    requires
        payload.len() <= MAX_MESSAGE_LEN,
    ensures
        framed_at(framed(payload), 0) == Some(Ok::<(Seq<u8>, int), FrameError>((payload, framed(payload).len() as int))),
        framed_at(framed(payload), framed(payload).len() as int) is None,
{
    let f = framed(payload);
    let n = payload.len();
    lemma_le_roundtrip(n);
    assert(f[0] == (n % 256) as u8);
    assert(f[1] == (n / 256 % 256) as u8);
    assert(f[2] == (n / 65536 % 256) as u8);
    assert(f[3] == (n / 16777216 % 256) as u8);
    assert(f.subrange(4, 4 + n as int) =~= payload);
}

/// The answer to a browser request.
#[derive(Debug, Clone, PartialEq)]
pub enum Response {
    /// The handshake answer, with the host's version.
    Ping { version: String },
    /// An import: the input as taken, `added` or `skipped`, and the new keys.
    Add { input: String, status: String, keys: Vec<String> },
    /// A refused or failed request.
    Error { error: String },
}

impl Response {
    pub fn error(message: &str) -> (r: Response)
        ensures
            r matches Response::Error { error } && error@ == message@,
    {
        Response::Error { error: message.to_string() }
    }
}

/// The input an `add` request imports: trimmed, and refused when blank.
pub fn add_input(input: &str) -> (r: Result<String, Response>)
    ensures
        match r {
            Ok(t) => t@ == text::trim(input@) && t@.len() > 0,
            Err(resp) => text::trim(input@).len() == 0 && (resp matches Response::Error { error } && error@
                == "No input provided"@),
        },
{
    let t = trim_str(input);
    if t.as_str().is_empty() {
        Err(Response::error("No input provided"))
    } else {
        Ok(t)
    }
}

/// The answer to an `add` of the (trimmed) input: the new keys, `added`
/// when there are any and `skipped` when not, or the failure's text.
pub fn add_response(input: String, outcome: Result<Vec<String>, String>) -> (r: Response)
    ensures
        match outcome {
            Ok(keys) => (r matches Response::Add { input: i, status, keys: k } && i == input && k == keys
                && status@ == (if keys@.len() == 0 {
                "skipped"@
            } else {
                "added"@
            })),
            Err(e) => r == Response::Error { error: e },
        },
{
    match outcome {
        Ok(keys) => {
            let status = if keys.len() == 0 {
                "skipped".to_string()
            } else {
                "added".to_string()
            };
            Response::Add { input, status, keys }
        },
        Err(error) => Response::Error { error },
    }
}

/// The error for a request that could not be understood, naming its action
/// when one could be read.
pub fn malformed_request(action: Option<String>, error: &str) -> (r: Response)
    ensures
        r matches Response::Error { error: m } && m@ == match action {
            Some(a) => "Unsupported or malformed request '"@ + a@ + "': "@ + error@,
            None => "Malformed request: "@ + error@,
        },
{
    let message = match action {
        Some(a) => {
            let mut m = "Unsupported or malformed request '".to_string();
            push_str(&mut m, a.as_str());
            push_str(&mut m, "': ");
            push_str(&mut m, error);
            m
        },
        None => {
            let mut m = "Malformed request: ".to_string();
            push_str(&mut m, error);
            m
        },
    };
    Response::Error { error: message }
}

// ---------------------------------------------------------------------------
// Where the manifests go
// ---------------------------------------------------------------------------
/// The native-messaging directories of one browser family: Chromium-based
/// browsers (which list allowed origins) or Firefox (which lists allowed
/// extensions).
#[derive(Debug, Clone, PartialEq)]
pub struct ManifestTarget {
    pub dirs: Vec<String>,
    pub chromium: bool,
}

/// The profile roots of the Chromium-based browsers, under the home
/// directory.
pub open spec fn chromium_roots(macos: bool) -> Seq<Seq<char>> {
    if macos {
        seq![
            "Library/Application Support/Google/Chrome"@,
            "Library/Application Support/Chromium"@,
            "Library/Application Support/Microsoft Edge"@,
            "Library/Application Support/BraveSoftware/Brave-Browser"@,
            "Library/Application Support/Vivaldi"@,
        ]
    } else {
        seq![
            ".config/google-chrome"@,
            ".config/chromium"@,
            ".config/microsoft-edge"@,
            ".config/BraveSoftware/Brave-Browser"@,
            ".config/vivaldi"@,
        ]
    }
}

pub open spec fn firefox_root(macos: bool) -> Seq<char> {
    if macos {
        "Library/Application Support/Mozilla"@
    } else {
        ".mozilla"@
    }
}

/// The manifest directories: `NativeMessagingHosts` in each Chromium-based
/// browser's profile root, and `native-messaging-hosts` in Firefox's.
pub fn manifest_targets(home: &str, macos: bool) -> (t: Vec<ManifestTarget>)
    ensures
        t@.len() == 2,
        t@[0].chromium,
        text::views(t@[0].dirs@) == chromium_roots(macos).map_values(
            |r: Seq<char>| joined(joined(home@, r), "NativeMessagingHosts"@),
        ),
        !t@[1].chromium,
        text::views(t@[1].dirs@) == seq![joined(joined(home@, firefox_root(macos)), "native-messaging-hosts"@)],
{
    let roots: [&'static str; 5] = if macos {
        [
            "Library/Application Support/Google/Chrome",
            "Library/Application Support/Chromium",
            "Library/Application Support/Microsoft Edge",
            "Library/Application Support/BraveSoftware/Brave-Browser",
            "Library/Application Support/Vivaldi",
        ]
    } else {
        [".config/google-chrome", ".config/chromium", ".config/microsoft-edge", ".config/BraveSoftware/Brave-Browser", ".config/vivaldi"]
    };
    let ghost cr = chromium_roots(macos);
    assert(roots@.len() == 5);
    assert(forall|k: int| 0 <= k < 5 ==> roots@[k]@ == cr[k]);
    let mut dirs: Vec<String> = Vec::new();
    let mut i: usize = 0;
    while i < 5
        invariant
            i <= 5,
            cr == chromium_roots(macos),
            roots@.len() == 5,
            forall|k: int| 0 <= k < 5 ==> roots@[k]@ == cr[k],
            text::views(dirs@) == cr.take(i as int).map_values(
                |r: Seq<char>| joined(joined(home@, r), "NativeMessagingHosts"@),
            ),
        decreases 5 - i,
    {
        let root = join_path(home, roots[i]);
        let d = join_path(root.as_str(), "NativeMessagingHosts");
        let ghost before = text::views(dirs@);
        assert(d@ == joined(joined(home@, cr[i as int]), "NativeMessagingHosts"@));
        dirs.push(d);
        assert(text::views(dirs@) =~= before.push(d@));
        assert(cr.take(i + 1) =~= cr.take(i as int).push(cr[i as int]));
        i += 1;
        assert(text::views(dirs@) =~= cr.take(i as int).map_values(
            |r: Seq<char>| joined(joined(home@, r), "NativeMessagingHosts"@),
        ));
    }
    assert(cr.take(5) =~= cr);
    let fx_root = if macos { "Library/Application Support/Mozilla" } else { ".mozilla" };
    let fx = join_path(join_path(home, fx_root).as_str(), "native-messaging-hosts");
    let mut fx_dirs: Vec<String> = Vec::new();
    fx_dirs.push(fx);
    assert(text::views(fx_dirs@) =~= seq![joined(joined(home@, firefox_root(macos)), "native-messaging-hosts"@)]);
    let mut t: Vec<ManifestTarget> = Vec::new();
    t.push(ManifestTarget { dirs, chromium: true });
    t.push(ManifestTarget { dirs: fx_dirs, chromium: false });
    t
}

/// The `allowed_origins` of a Chromium manifest: `chrome-extension://<id>/`
/// for each extension.
pub fn allowed_origins(ids: &Vec<String>) -> (r: Vec<String>)
    ensures
        text::views(r@) == text::views(ids@).map_values(|id: Seq<char>| "chrome-extension://"@ + id + "/"@),
{
    let mut r: Vec<String> = Vec::new();
    let mut i: usize = 0;
    while i < ids.len()
        invariant
            i <= ids@.len(),
            text::views(r@) == text::views(ids@).take(i as int).map_values(
                |id: Seq<char>| "chrome-extension://"@ + id + "/"@,
            ),
        decreases ids@.len() - i,
    {
        let mut o = "chrome-extension://".to_string();
        push_str(&mut o, ids[i].as_str());
        push_str(&mut o, "/");
        let ghost before = text::views(r@);
        assert(o@ == "chrome-extension://"@ + ids@[i as int]@ + "/"@);
        r.push(o);
        assert(text::views(r@) =~= before.push("chrome-extension://"@ + ids@[i as int]@ + "/"@));
        assert(text::views(ids@).take(i + 1) =~= text::views(ids@).take(i as int).push(ids@[i as int]@));
        i += 1;
        assert(text::views(r@) =~= text::views(ids@).take(i as int).map_values(
            |id: Seq<char>| "chrome-extension://"@ + id + "/"@,
        ));
    }
    assert(text::views(ids@).take(ids@.len() as int) =~= text::views(ids@));
    r
}

} // verus!
