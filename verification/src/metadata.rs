//! What a PDF's own metadata gives a new entry.
use vstd::prelude::*;

use crate::add::trimmed_nonblank;
use crate::model::{Reference, ReferenceKind};
use crate::text::{self, chars_of, matches_at, string_from_range, trim_str};

verus! {

/// The index of the first occurrence of `sep` in `s` at or after `i`, or
/// `s.len()`.
pub open spec fn next_sep(s: Seq<char>, sep: Seq<char>, i: int) -> int
    decreases s.len() - i,
{
    if i < 0 || i >= s.len() {
        s.len() as int
    } else if text::occurs_at(s, sep, i) {
        i
    } else {
        next_sep(s, sep, i + 1)
    }
}

/// The pieces of `s[i..]` between occurrences of the non-empty `sep`
/// (`str::split`).
pub open spec fn split_from(s: Seq<char>, sep: Seq<char>, i: int) -> Seq<Seq<char>>
    decreases s.len() - i + 1,
{
    if sep.len() == 0 || i < 0 || i > s.len() {
        seq![]
    } else {
        let k = next_sep(s, sep, i);
        if k >= s.len() || k < i || k + sep.len() > s.len() {
            seq![s.subrange(i, s.len() as int)]
        } else {
            seq![s.subrange(i, k)] + split_from(s, sep, k + sep.len())
        }
    }
}

/// The number of `c` in `s`.
pub open spec fn count_char(s: Seq<char>, c: char) -> nat
    decreases s.len(),
{
    if s.len() == 0 {
        0
    } else {
        count_char(s.drop_last(), c) + if s.last() == c {
            1nat
        } else {
            0nat
        }
    }
}

/// The authors in a PDF's author field: separated by semicolons, else by
/// commas when there are at least two, else by ` and `; each trimmed and
/// blanks dropped. Otherwise the whole field, trimmed.
pub open spec fn author_list(raw: Seq<char>) -> Seq<Seq<char>> {
    if text::has_char(raw, ';') {
        trimmed_nonblank(split_from(raw, seq![';'], 0))
    } else if count_char(raw, ',') >= 2 {
        trimmed_nonblank(split_from(raw, seq![','], 0))
    } else if text::contains(raw, " and "@) {
        trimmed_nonblank(split_from(raw, " and "@, 0))
    } else {
        seq![text::trim(raw)]
    }
}

proof fn lemma_next_sep(s: Seq<char>, sep: Seq<char>, i: int)
    requires
        0 <= i <= s.len(),
    ensures
        i <= next_sep(s, sep, i) <= s.len(),
        next_sep(s, sep, i) < s.len() ==> text::occurs_at(s, sep, next_sep(s, sep, i)),
        forall|k: int| i <= k < next_sep(s, sep, i) ==> !text::occurs_at(s, sep, k),
    decreases s.len() - i,
{
    if i < s.len() && !text::occurs_at(s, sep, i) {
        lemma_next_sep(s, sep, i + 1);
    }
}

/// `str::split` on a non-empty separator.
pub fn split_str(s: &str, sep: &str) -> (r: Vec<String>)
    requires
        sep@.len() > 0,
    ensures
        text::views(r@) == split_from(s@, sep@, 0),
{
    let v = chars_of(s);
    let p = chars_of(sep);
    let n = v.len();
    let mut r: Vec<String> = Vec::new();
    let mut start: usize = 0;
    let mut i: usize = 0;
    while i < n
        invariant
            n == v@.len(),
            v@ == s@,
            p@ == sep@,
            p@.len() > 0,
            start <= i <= n,
            next_sep(s@, sep@, start as int) == next_sep(s@, sep@, i as int),
            split_from(s@, sep@, 0) == text::views(r@) + split_from(s@, sep@, start as int),
        decreases n - i,
    {
        if matches_at(&v, i, &p) {
            proof {
                lemma_next_sep(s@, sep@, i as int);
            }
            r.push(string_from_range(&v, start, i));
            proof {
                let k = next_sep(s@, sep@, start as int);
                assert(k == i);
            }
            start = i + p.len();
            assert(split_from(s@, sep@, 0) =~= text::views(r@) + split_from(s@, sep@, start as int));
            i = start;
        } else {
            i += 1;
        }
    }
    proof {
        lemma_next_sep(s@, sep@, start as int);
    }
    r.push(string_from_range(&v, start, n));
    proof {
        assert(next_sep(s@, sep@, n as int) == n);
        assert(text::views(r@) =~= split_from(s@, sep@, 0));
    }
    r
}

pub(crate) fn trim_nonblank_all(v: &Vec<String>) -> (r: Vec<String>)
    ensures
        text::views(r@) == trimmed_nonblank(text::views(v@)),
{
    let mut r: Vec<String> = Vec::new();
    let mut i: usize = 0;
    while i < v.len()
        invariant
            i <= v@.len(),
            text::views(r@) == trimmed_nonblank(text::views(v@).take(i as int)),
        decreases v@.len() - i,
    {
        proof {
            let t = text::views(v@).take(i + 1);
            assert(t.drop_last() =~= text::views(v@).take(i as int));
            assert(t.last() == v@[i as int]@);
        }
        let t = trim_str(v[i].as_str());
        if !t.as_str().is_empty() {
            r.push(t);
            assert(text::views(r@) =~= trimmed_nonblank(text::views(v@).take(i + 1)));
        }
        i += 1;
    }
    assert(text::views(v@).take(v@.len() as int) =~= text::views(v@));
    r
}

fn commas(v: &Vec<char>) -> (n: usize)
    ensures
        n == count_char(v@, ','),
{
    let mut n: usize = 0;
    let mut i: usize = 0;
    while i < v.len()
        invariant
            i <= v@.len(),
            n == count_char(v@.take(i as int), ','),
            n <= i,
        decreases v@.len() - i,
    {
        assert(v@.take(i + 1).drop_last() =~= v@.take(i as int));
        if v[i] == ',' {
            n += 1;
        }
        i += 1;
    }
    assert(v@.take(v@.len() as int) =~= v@);
    n
}

/// The authors named in a PDF's author field.
pub fn parse_authors(raw: &str) -> (r: Vec<String>)
    ensures
        text::views(r@) == author_list(raw@),
{
    let v = chars_of(raw);
    proof {
        reveal_strlit(";");
        reveal_strlit(",");
        reveal_strlit(" and ");
        assert(";"@ =~= seq![';']);
        assert(","@ =~= seq![',']);
    }
    if text::has_char_in(&v, ';') {
        trim_nonblank_all(&split_str(raw, ";"))
    } else if commas(&v) >= 2 {
        trim_nonblank_all(&split_str(raw, ","))
    } else if text::str_contains(raw, " and ") {
        trim_nonblank_all(&split_str(raw, " and "))
    } else {
        let mut r: Vec<String> = Vec::new();
        r.push(trim_str(raw));
        assert(text::views(r@) =~= seq![text::trim(raw@)]);
        r
    }
}

/// A new entry for a PDF from its document information: its title (else
/// the file's stem, else `Untitled`), the authors of a non-empty author
/// field, and the file itself.
pub fn reference_from_pdf(
    title: Option<String>,
    author: Option<String>,
    file_name: String,
    stem: Option<String>,
) -> (r: Reference)
    ensures
        r@.kind == ReferenceKind::Paper,
        r.title@ == match title {
            Some(t) => t@,
            None => match stem {
                Some(s) => s@,
                None => "Untitled"@,
            },
        },
        r@.authors == match author {
            Some(a) => if a@.len() > 0 {
                author_list(a@)
            } else {
                seq![]
            },
            None => seq![],
        },
        r@.files == seq![file_name@],
        r.year is None && r.doi is None && r.arxiv is None && r.journal is None && r.edition is None
            && r.publisher is None && r.series is None && r.abstract_text is None,
        r@.isbn.len() == 0 && r@.tags.len() == 0,
{
    let t = match title {
        Some(t) => t,
        None => match stem {
            Some(s) => s,
            None => "Untitled".to_string(),
        },
    };
    let authors = match &author {
        Some(a) => if a.as_str().is_empty() {
            Vec::new()
        } else {
            parse_authors(a.as_str())
        },
        None => Vec::new(),
    };
    let mut files: Vec<String> = Vec::new();
    files.push(file_name);
    let r = Reference {
        kind: ReferenceKind::Paper,
        title: t,
        authors,
        year: None,
        doi: None,
        arxiv: None,
        journal: None,
        edition: None,
        publisher: None,
        series: None,
        isbn: Vec::new(),
        tags: Vec::new(),
        files,
        abstract_text: None,
    };
    proof {
        assert(r@.files =~= seq![r.files@[0]@]);
        assert(r@.authors == text::views(r.authors@));
        if author is None || author->0@.len() == 0 {
            assert(r@.authors =~= Seq::<Seq<char>>::empty());
        }
    }
    r
}

/// The largest PDF whose text is extracted for the index (50 MiB), and the
/// number of pages read.
pub const MAX_TEXT_FILE_SIZE: u64 = 52428800;
pub const MAX_TEXT_PAGES: u32 = 100;

/// The text kept from a PDF for the index: none when blank.
pub fn indexable_text(extracted: String) -> (r: Option<String>)
    ensures
        match r {
            Some(t) => t == extracted && text::trim(extracted@).len() > 0,
            None => text::trim(extracted@).len() == 0,
        },
{
    let t = trim_str(extracted.as_str());
    if t.as_str().is_empty() {
        None
    } else {
        Some(extracted)
    }
}

} // verus!
