//! The PubMed Central Open Access fallback: the package link in an NCBI
//! Open Access record, the address it is fetched from, and the PDF inside
//! the downloaded `.tar.gz` package.
use vstd::prelude::*;

use std::io::Read;

use crate::fetch;
use quick_xml::events::Event;
use quick_xml::Reader;

use crate::storage::str_eq;
use crate::text::{self, chars_of, eq_ascii_ci, opt_view, push_str};

verus! {

/// Why the Open Access fallback gave no PDF.
#[derive(Debug, Clone, PartialEq)]
pub enum PackageError {
    /// The Open Access record is not well-formed XML (the parser's message).
    Xml(String),
    /// The record offers no `tgz` package.
    NoPackage,
    /// The package could not be read as a gzipped tar archive (the reader's
    /// message).
    Archive(String),
    /// No entry of the package is named like a PDF.
    NoPdf,
    /// The entry named like a PDF does not hold one.
    NotPdf,
}

impl PackageError {
    pub fn message(&self) -> (m: String)
        ensures
            m@ == match self {
                PackageError::Xml(e) => "Invalid NCBI PMC Open Access XML: "@ + e@,
                PackageError::NoPackage => "NCBI did not provide a PMC Open Access package"@,
                PackageError::Archive(e) => "Invalid PMC Open Access package: "@ + e@,
                PackageError::NoPdf => "PMC Open Access package did not contain a PDF"@,
                PackageError::NotPdf => "PMC package entry is not a PDF"@,
            },
    {
        match self {
            PackageError::Xml(e) => {
                let mut m = "Invalid NCBI PMC Open Access XML: ".to_string();
                push_str(&mut m, e.as_str());
                m
            },
            PackageError::NoPackage => "NCBI did not provide a PMC Open Access package".to_string(),
            PackageError::Archive(e) => {
                let mut m = "Invalid PMC Open Access package: ".to_string();
                push_str(&mut m, e.as_str());
                m
            },
            PackageError::NoPdf => "PMC Open Access package did not contain a PDF".to_string(),
            PackageError::NotPdf => "PMC package entry is not a PDF".to_string(),
        }
    }
}

// ---------------------------------------------------------------------------
// The package link
// ---------------------------------------------------------------------------
/// A tag: its name and its attributes as (key, raw value) pairs.
pub type Tag = (Seq<char>, Seq<(Seq<char>, Seq<char>)>);

/// What `quick_xml`'s reader yields for a document, event by event, up to
/// the end of input or the first error (with its message): for a start or
/// empty-element tag its name and its well-formed attributes, for any other
/// event nothing.
pub uninterp spec fn xml_tags(xml: Seq<char>) -> (Seq<Option<Tag>>, Option<Seq<char>>);

/// The character views of attribute pairs.
pub open spec fn pair_views(p: Seq<(String, String)>) -> Seq<(Seq<char>, Seq<char>)> {
    p.map_values(|x: (String, String)| (x.0@, x.1@))
}

/// The character view of a tag.
pub open spec fn tag_view(t: Option<(String, Vec<(String, String)>)>) -> Option<Tag> {
    match t {
        Some(t) => Some((t.0@, pair_views(t.1@))),
        None => None,
    }
}

/// The character views of the events of a document.
pub open spec fn tag_views(t: Seq<Option<(String, Vec<(String, String)>)>>) -> Seq<Option<Tag>> {
    t.map_values(|x: Option<(String, Vec<(String, String)>)>| tag_view(x))
}

/// Reads `xml` with `quick_xml::Reader` (`read_event` until `Eof` or an
/// error): for each start or empty-element tag its name and its attributes
/// (`attributes().flatten()`, keys and raw values read lossily as UTF-8),
/// for each other event nothing.
#[verifier::external_body]
fn read_xml_tags(xml: &str) -> (r: (Vec<Option<(String, Vec<(String, String)>)>>, Option<String>))
    ensures
        (tag_views(r.0@), opt_view(r.1)) == xml_tags(xml@),
{
    let mut reader = Reader::from_str(xml);
    let mut tags = Vec::new();
    let text = |b: &[u8]| String::from_utf8_lossy(b).into_owned();
    loop {
        tags.push(match reader.read_event() {
            Ok(Event::Start(e)) | Ok(Event::Empty(e)) => {
                Some((text(e.name().0), e.attributes().flatten().map(|a| (text(a.key.0), text(&a.value))).collect()))
            },
            Ok(Event::Eof) => return (tags, None),
            Err(e) => return (tags, Some(e.to_string())),
            Ok(_) => None,
        });
    }
}

/// The value of the last attribute named `key`, if any.
pub open spec fn attribute(attrs: Seq<(Seq<char>, Seq<char>)>, key: Seq<char>) -> Option<Seq<char>>
    decreases attrs.len(),
{
    if attrs.len() == 0 {
        None
    } else if attrs.last().0 == key {
        Some(attrs.last().1)
    } else {
        attribute(attrs.drop_last(), key)
    }
}

/// The package an event offers: a `link` tag whose `format` is `tgz` and
/// which has an `href`.
pub open spec fn offered_package(t: Option<Tag>) -> Option<Seq<char>> {
    match t {
        Some(t) => if t.0 == "link"@ && attribute(t.1, "format"@) == Some("tgz"@) {
            attribute(t.1, "href"@)
        } else {
            None
        },
        None => None,
    }
}

/// The first package the events offer.
pub open spec fn first_package(tags: Seq<Option<Tag>>) -> Option<Seq<char>>
    decreases tags.len(),
{
    if tags.len() == 0 {
        None
    } else if offered_package(tags[0]) is Some {
        offered_package(tags[0])
    } else {
        first_package(tags.skip(1))
    }
}

/// The value of the last attribute named `key`.
fn attribute_value(attrs: &Vec<(String, String)>, key: &str) -> (r: Option<String>)
    ensures
        opt_view(r) == attribute(pair_views(attrs@), key@),
{
    let ghost pv = pair_views(attrs@);
    let mut found: Option<String> = None;
    let mut j: usize = 0;
    while j < attrs.len()
        invariant
            j <= attrs@.len(),
            pv == pair_views(attrs@),
            opt_view(found) == attribute(pv.take(j as int), key@),
        decreases attrs@.len() - j,
    {
        assert(pv.take(j + 1).drop_last() =~= pv.take(j as int));
        if str_eq(attrs[j].0.as_str(), key) {
            found = Some(attrs[j].1.clone());
        }
        j += 1;
    }
    assert(pv.take(attrs@.len() as int) =~= pv);
    found
}

/// The `href` of the first `link` tag of an NCBI Open Access record whose
/// `format` is `tgz`; the parser's message when the record breaks off
/// before such a tag; `NoPackage` when it ends without one.
pub fn parse_pmc_oa_package_url(xml: &str) -> (r: Result<String, PackageError>)
    ensures
        match r {
            Ok(h) => first_package(xml_tags(xml@).0) == Some(h@),
            Err(PackageError::Xml(e)) => first_package(xml_tags(xml@).0) is None
                && xml_tags(xml@).1 == Some(e@),
            Err(PackageError::NoPackage) => first_package(xml_tags(xml@).0) is None
                && xml_tags(xml@).1 is None,
            Err(_) => false,
        },
{
    let (tags, err) = read_xml_tags(xml);
    let ghost tv = tag_views(tags@);
    proof {
        reveal_strlit("link");
        reveal_strlit("format");
        reveal_strlit("tgz");
        reveal_strlit("href");
        assert(tv.skip(0) =~= tv);
        assert(tv == xml_tags(xml@).0);
    }
    let mut i: usize = 0;
    while i < tags.len()
        invariant
            tv == tag_views(tags@),
            tv == xml_tags(xml@).0,
            i <= tv.len(),
            first_package(tv) == first_package(tv.skip(i as int)),
        decreases tv.len() - i,
    {
        assert(tv[i as int] == tag_view(tags@[i as int]));
        assert(tv.skip(i as int)[0] == tv[i as int]);
        assert(tv.skip(i as int).skip(1) =~= tv.skip(i + 1));
        if let Some(t) = &tags[i] {
            if str_eq(t.0.as_str(), "link") {
                let format = attribute_value(&t.1, "format");
                let is_tgz = match &format {
                    Some(f) => str_eq(f.as_str(), "tgz"),
                    None => false,
                };
                if is_tgz {
                    if let Some(href) = attribute_value(&t.1, "href") {
                        assert(offered_package(tv[i as int]) == Some(href@));
                        assert(first_package(tv.skip(i as int)) == Some(href@));
                        return Ok(href);
                    }
                }
            }
        }
        i += 1;
    }
    assert(tv.skip(i as int).len() == 0);
    match err {
        Some(e) => Err(PackageError::Xml(e)),
        None => Err(PackageError::NoPackage),
    }
}

/// The address a package is fetched from: an `ftp://` link is fetched over
/// `https://` from the same host and path.
pub open spec fn https_address(url: Seq<char>) -> Seq<char> {
    if text::starts_with(url, "ftp://"@) {
        "https://"@ + url.skip(6)
    } else {
        url
    }
}

pub fn oa_package_https(url: &str) -> (r: String)
    ensures
        r@ == https_address(url@),
{
    proof {
        reveal_strlit("ftp://");
        reveal_strlit("https://");
    }
    if text::str_starts_with(url, "ftp://") {
        let v = chars_of(url);
        let mut r = "https://".to_string();
        let rest = text::string_from_range(v.as_slice(), 6, v.len());
        push_str(&mut r, rest.as_str());
        r
    } else {
        url.to_string()
    }
}

// ---------------------------------------------------------------------------
// The PDF in the package
// ---------------------------------------------------------------------------
/// The index of the last `c` in `s`, or -1.
pub open spec fn last_pos(s: Seq<char>, c: char) -> int
    decreases s.len(),
{
    if s.len() == 0 {
        -1
    } else if s.last() == c {
        s.len() - 1
    } else {
        last_pos(s.drop_last(), c)
    }
}

/// `last_pos` is -1 or the index of a `c` with none after it.
pub proof fn lemma_last_pos(s: Seq<char>, c: char)
    ensures
        -1 <= last_pos(s, c) < s.len(),
        last_pos(s, c) >= 0 ==> s[last_pos(s, c)] == c,
        forall|k: int| last_pos(s, c) < k < s.len() ==> s[k] != c,
    decreases s.len(),
{
    if s.len() > 0 && s.last() != c {
        lemma_last_pos(s.drop_last(), c);
        assert forall|k: int| last_pos(s, c) < k < s.len() implies s[k] != c by {
            if k < s.len() - 1 {
                assert(s.drop_last()[k] == s[k]);
            }
        }
    }
}

/// The file name of a path as `std::path::Path::file_name` documents it:
/// the last component once repeated separators, a trailing separator and
/// `.` components are normalized away; none when that is `..` or there is
/// no such component.
pub open spec fn file_name_of(p: Seq<char>) -> Option<Seq<char>>
    decreases p.len(),
{
    if p.len() == 0 {
        None
    } else {
        let j = last_pos(p, '/');
        let seg = p.skip(j + 1);
        if seg.len() == 0 || seg == "."@ {
            if j < 0 {
                None
            } else {
                proof {
                    lemma_last_pos(p, '/');
                }
                file_name_of(p.take(j))
            }
        } else if seg == ".."@ {
            None
        } else {
            Some(seg)
        }
    }
}

/// The extension of a file name as `std::path::Path::extension` documents
/// it: what follows the last `.`, none when there is no `.` or the only one
/// begins the name.
pub open spec fn extension_of(name: Seq<char>) -> Option<Seq<char>> {
    let k = last_pos(name, '.');
    if k <= 0 {
        None
    } else {
        Some(name.skip(k + 1))
    }
}

/// The extension of a path: that of its file name.
pub open spec fn path_extension(path: Seq<char>) -> Option<Seq<char>> {
    match file_name_of(path) {
        Some(n) => extension_of(n),
        None => None,
    }
}

/// The index of the last `c` among the first `end` characters of `v`.
fn last_index(v: &Vec<char>, end: usize, c: char) -> (r: Option<usize>)
    requires
        end <= v@.len(),
    ensures
        match r {
            Some(j) => j < end && last_pos(v@.take(end as int), c) == j,
            None => last_pos(v@.take(end as int), c) == -1,
        },
{
    let mut k = end;
    while k > 0
        invariant
            k <= end <= v@.len(),
            last_pos(v@.take(end as int), c) == last_pos(v@.take(k as int), c),
        decreases k,
    {
        assert(v@.take(k as int).drop_last() =~= v@.take(k - 1));
        if v[k - 1] == c {
            return Some(k - 1);
        }
        k -= 1;
    }
    None
}

/// `std::path::Path::new(path).extension()`, on a path written with `/`.
pub fn file_extension(path: &str) -> (r: Option<String>)
    ensures
        opt_view(r) == path_extension(path@),
{
    let v = chars_of(path);
    let mut end = v.len();
    assert(v@.take(v@.len() as int) =~= v@);
    loop
        invariant
            end <= v@.len(),
            v@ == path@,
            file_name_of(path@) == file_name_of(v@.take(end as int)),
        decreases end,
    {
        let ghost p = v@.take(end as int);
        proof {
            reveal_strlit(".");
            reveal_strlit("..");
        }
        if end == 0 {
            return None;
        }
        let slash = last_index(&v, end, '/');
        let start = match slash {
            Some(j) => j + 1,
            None => 0,
        };
        proof {
            lemma_last_pos(p, '/');
            assert(p.skip(last_pos(p, '/') + 1) =~= v@.subrange(start as int, end as int));
        }
        let n = end - start;
        if n == 0 || (n == 1 && v[start] == '.') {
            proof {
                if n == 1 {
                    assert(v@.subrange(start as int, end as int) =~= "."@);
                }
            }
            match slash {
                Some(j) => {
                    assert(v@.take(end as int).take(j as int) =~= v@.take(j as int));
                    end = j;
                },
                None => {
                    return None;
                },
            }
        } else if n == 2 && v[start] == '.' && v[start + 1] == '.' {
            assert(v@.subrange(start as int, end as int) =~= ".."@);
            return None;
        } else {
            proof {
                if n == 1 {
                    assert(v@.subrange(start as int, end as int)[0] == v@[start as int]);
                    assert(v@.subrange(start as int, end as int) != "."@);
                }
                if n == 2 {
                    assert(v@.subrange(start as int, end as int)[0] == v@[start as int]);
                }
            }
            let seg = text::string_from_range(v.as_slice(), start, end);
            let sv = chars_of(seg.as_str());
            let dot = last_index(&sv, sv.len(), '.');
            proof {
                assert(sv@.take(sv@.len() as int) =~= sv@);
            }
            return match dot {
                Some(k) => if k == 0 {
                    None
                } else {
                    Some(text::string_from_range(sv.as_slice(), k + 1, sv.len()))
                },
                None => None,
            };
        }
    }
}

/// The entries of a gzipped tar archive as `flate2`'s `GzDecoder` and
/// `tar`'s `Archive::entries` read them, in order, each as its path (none
/// when `path` fails) and its contents, up to the first error (with its
/// message).
pub uninterp spec fn tar_gz_contents(bytes: Seq<u8>) -> (Seq<(Option<Seq<char>>, Seq<u8>)>, Option<Seq<char>>);

/// The path and content views of archive entries.
pub open spec fn entry_views(e: Seq<(Option<String>, Vec<u8>)>) -> Seq<(Option<Seq<char>>, Seq<u8>)> {
    e.map_values(|x: (Option<String>, Vec<u8>)| (opt_view(x.0), x.1@))
}

/// Reads a `.tar.gz` archive with `tar::Archive::new(GzDecoder::new(..))`:
/// each entry's path (lossily as UTF-8) and contents (`read_to_end`), until
/// the entries end or one of these calls fails.
#[verifier::external_body]
fn tar_gz_entries(bytes: &[u8]) -> (r: (Vec<(Option<String>, Vec<u8>)>, Option<String>))
    ensures
        (entry_views(r.0@), opt_view(r.1)) == tar_gz_contents(bytes@),
{
    let mut entries = Vec::new();
    let mut archive = tar::Archive::new(flate2::read::GzDecoder::new(bytes));
    let iter = match archive.entries() { Ok(iter) => iter, Err(e) => return (entries, Some(e.to_string())) };
    for entry in iter {
        let mut data = Vec::new();
        let read = entry.and_then(|mut entry| {
            let path = entry.path().ok().map(|p| p.to_string_lossy().into_owned());
            entry.read_to_end(&mut data).map(|_| path)
        });
        match read { Ok(path) => entries.push((path, data)), Err(e) => return (entries, Some(e.to_string())) }
    }
    (entries, None)
}

/// An entry path whose extension is `pdf`, ignoring ASCII case.
pub open spec fn pdf_named(path: Option<Seq<char>>) -> bool {
    match path {
        Some(p) => match path_extension(p) {
            Some(e) => eq_ascii_ci(e, "pdf"@),
            None => false,
        },
        None => false,
    }
}

/// The outcome of looking for the PDF among the entries read before
/// `stop`: the first entry named like a PDF, kept when it starts like one
/// (`NotPdf` otherwise); with no such entry, the reader's error, or
/// `NoPdf`.
pub open spec fn picked(
    entries: Seq<(Option<Seq<char>>, Seq<u8>)>,
    stop: Option<Seq<char>>,
    r: Result<Vec<u8>, PackageError>,
) -> bool {
    match r {
        Ok(b) => exists|i: int|
            0 <= i < entries.len() && pdf_named(#[trigger] entries[i].0) && (forall|j: int|
                0 <= j < i ==> !pdf_named(#[trigger] entries[j].0)) && fetch::pdf_signature(entries[i].1)
                && b@ == entries[i].1,
        Err(PackageError::NotPdf) => exists|i: int|
            0 <= i < entries.len() && pdf_named(#[trigger] entries[i].0) && (forall|j: int|
                0 <= j < i ==> !pdf_named(#[trigger] entries[j].0)) && !fetch::pdf_signature(entries[i].1),
        Err(PackageError::Archive(e)) => (forall|j: int|
            0 <= j < entries.len() ==> !pdf_named(#[trigger] entries[j].0)) && stop == Some(e@),
        Err(PackageError::NoPdf) => (forall|j: int|
            0 <= j < entries.len() ==> !pdf_named(#[trigger] entries[j].0)) && stop is None,
        Err(_) => false,
    }
}

/// Whether an entry path names a PDF.
fn is_pdf_named(path: &Option<String>) -> (r: bool)
    ensures
        r == pdf_named(opt_view(*path)),
{
    proof {
        reveal_strlit("pdf");
    }
    match path {
        Some(p) => match file_extension(p.as_str()) {
            Some(e) => text::eq_ignore_ascii_case(e.as_str(), "pdf"),
            None => false,
        },
        None => false,
    }
}

/// The PDF among the entries of a package read up to `stop`.
pub fn pdf_from_package(entries: Vec<(Option<String>, Vec<u8>)>, stop: Option<String>) -> (r: Result<
    Vec<u8>,
    PackageError,
>)
    ensures
        picked(entry_views(entries@), opt_view(stop), r),
{
    let ghost ev = entry_views(entries@);
    let mut list = entries;
    let mut i: usize = 0;
    while i < list.len()
        invariant
            ev == entry_views(list@),
            ev == entry_views(entries@),
            i <= list@.len(),
            forall|j: int| 0 <= j < i ==> !pdf_named(#[trigger] ev[j].0),
        decreases list@.len() - i,
    {
        assert(ev[i as int] == (opt_view(list@[i as int].0), list@[i as int].1@));
        if is_pdf_named(&list[i].0) {
            let ghost k = i as int;
            let (_, data) = list.remove(i);
            assert(data@ == ev[k].1);
            assert(pdf_named(ev[k].0));
            if fetch::is_pdf_bytes(data.as_slice()) {
                return Ok(data);
            } else {
                return Err(PackageError::NotPdf);
            }
        }
        i += 1;
    }
    match stop {
        Some(e) => Err(PackageError::Archive(e)),
        None => Err(PackageError::NoPdf),
    }
}

/// The PDF in a downloaded `.tar.gz` Open Access package.
pub fn extract_pdf_from_oa_package(bytes: &[u8]) -> (r: Result<Vec<u8>, PackageError>)
    ensures
        picked(tar_gz_contents(bytes@).0, tar_gz_contents(bytes@).1, r),
{
    let (entries, stop) = tar_gz_entries(bytes);
    pdf_from_package(entries, stop)
}

} // verus!
