//! What the metadata services' responses yield: the arXiv Atom feed, the
//! CrossRef work record, publisher landing pages and downloaded PDFs.
use vstd::prelude::*;

use quick_xml::events::Event;
use quick_xml::name::QName;
use quick_xml::Reader;

use crate::fetch;
use crate::model::{Reference, ReferenceKind};
use crate::text::{self, chars_of, collapse_whitespace, push_char, push_str, trim_str};

verus! {

// ---------------------------------------------------------------------------
// XML tokens
// ---------------------------------------------------------------------------
/// Token kinds: a start tag, an end tag, text, and anything else
/// (empty-element tags, comments, declarations, CDATA, ...).
pub const TOKEN_START: u8 = 0;
pub const TOKEN_END: u8 = 1;
pub const TOKEN_TEXT: u8 = 3;
pub const TOKEN_OTHER: u8 = 4;

/// The tokens `quick_xml`'s reader yields for a document, up to the end of
/// input or the first error (with its message): names for start and end
/// tags, unescaped text for text (empty when unescaping fails), and an
/// empty payload for anything else.
pub uninterp spec fn xml_tokens(xml: Seq<char>) -> (Seq<(u8, Seq<char>)>, Option<Seq<char>>);

/// The character views of a token list.
pub open spec fn token_views(t: Seq<(u8, String)>) -> Seq<(u8, Seq<char>)> {
    t.map_values(|x: (u8, String)| (x.0, x.1@))
}

/// Reads `xml` with `quick_xml::Reader` (`read_event` until `Eof` or an
/// error), naming each token as in `xml_tokens`.
#[verifier::external_body]
fn read_xml_tokens(xml: &str) -> (r: (Vec<(u8, String)>, Option<String>))
    ensures
        (token_views(r.0@), text::opt_view(r.1)) == xml_tokens(xml@),
{
    let mut reader = Reader::from_str(xml);
    let mut tokens = Vec::new();
    let name = |n: QName| String::from_utf8_lossy(n.as_ref()).into_owned();
    loop {
        let token = match reader.read_event() {
            Ok(Event::Start(e)) => (TOKEN_START, name(e.name())),
            Ok(Event::End(e)) => (TOKEN_END, name(e.name())),
            Ok(Event::Text(e)) => (TOKEN_TEXT, e.unescape().unwrap_or_default().into_owned()),
            Ok(Event::Eof) => return (tokens, None),
            Err(e) => return (tokens, Some(e.to_string())),
            Ok(_) => (TOKEN_OTHER, String::new()),
        };
        tokens.push(token);
    }
}

// ---------------------------------------------------------------------------
// Abstracts
// ---------------------------------------------------------------------------
/// The index of the first `c` in `s` at or after `i`, or `s.len()`.
pub open spec fn find_from(s: Seq<char>, c: char, i: int) -> int
    decreases s.len() - i,
{
    if i < 0 {
        find_from(s, c, 0)
    } else if i >= s.len() {
        s.len() as int
    } else if s[i] == c {
        i
    } else {
        find_from(s, c, i + 1)
    }
}

proof fn lemma_find_from(s: Seq<char>, c: char, i: int)
    requires
        0 <= i <= s.len(),
    ensures
        i <= find_from(s, c, i) <= s.len(),
        find_from(s, c, i) < s.len() ==> s[find_from(s, c, i)] == c,
        forall|k: int| i <= k < find_from(s, c, i) ==> s[k] != c,
    decreases s.len() - i,
{
    if i < s.len() && s[i] != c {
        lemma_find_from(s, c, i + 1);
    }
}

/// `s` with every `<...>` tag (a `<`, one or more characters other than
/// `>`, then `>`) removed, scanning from the left.
pub open spec fn strip_tags(s: Seq<char>) -> Seq<char>
    decreases s.len(),
{
    if s.len() == 0 {
        s
    } else if s[0] == '<' && 2 <= find_from(s, '>', 1) < s.len() {
        strip_tags(s.skip(find_from(s, '>', 1) + 1))
    } else {
        seq![s[0]] + strip_tags(s.drop_first())
    }
}

/// `c` equals the lower-case ASCII letter `lit` up to Unicode case folding
/// (which also folds U+017F to `s` and U+212A to `k`).
pub open spec fn folds_to(c: char, lit: char) -> bool {
    c == lit || ('a' <= lit && lit <= 'z' && (c as u32) + 32 == (lit as u32)) || (lit == 's' && c
        == '\u{17f}') || (lit == 'k' && c == '\u{212a}')
}

/// `s` has the lower-case ASCII word `w` at `i`, ignoring case.
pub open spec fn word_ci_at(s: Seq<char>, w: Seq<char>, i: int) -> bool {
    0 <= i && i + w.len() <= s.len() && forall|k: int| 0 <= k < w.len() ==> folds_to(#[trigger] s[i + k], w[k])
}

/// The length of a leading `\s*abstract[.:]\s*` (any case), or 0.
pub open spec fn abstract_label_len(s: Seq<char>) -> int {
    let w = fetch::ws_run(s, 0) as int;
    if word_ci_at(s, "abstract"@, w) && w + 8 < s.len() && (s[w + 8] == '.' || s[w + 8] == ':') {
        w + 9 + fetch::ws_run(s, w + 9)
    } else {
        0
    }
}

/// An abstract as shown: markup tags removed, a leading "Abstract:" label
/// dropped and whitespace collapsed.
pub open spec fn cleaned_abstract(s: Seq<char>) -> Seq<char> {
    let t = strip_tags(s);
    text::collapse_ws(t.skip(abstract_label_len(t)))
}

pub(crate) fn folds(c: char, lit: char) -> (b: bool)
    ensures
        b == folds_to(c, lit),
{
    c == lit || ('a' <= lit && lit <= 'z' && (c as u32) + 32 == (lit as u32)) || (lit == 's' && c
        == '\u{17f}') || (lit == 'k' && c == '\u{212a}')
}

fn word_ci(s: &Vec<char>, w: &Vec<char>, i: usize) -> (b: bool)
    ensures
        b == word_ci_at(s@, w@, i as int),
{
    if i > s.len() || w.len() > s.len() - i {
        return false;
    }
    let mut k: usize = 0;
    while k < w.len()
        invariant
            i + w@.len() <= s.len(),
            k <= w@.len(),
            forall|m: int| 0 <= m < k ==> folds_to(#[trigger] s@[i + m], w@[m]),
        decreases w@.len() - k,
    {
        if !folds(s[i + k], w[k]) {
            return false;
        }
        k += 1;
    }
    true
}

fn ws_run_from(s: &Vec<char>, i: usize) -> (j: usize)
    requires
        i <= s@.len(),
    ensures
        j == i + fetch::ws_run(s@, i as int),
        j <= s@.len(),
{
    let mut j = i;
    while j < s.len() && text::is_whitespace(s[j])
        invariant
            i <= j <= s@.len(),
            fetch::ws_run(s@, i as int) == (j - i) + fetch::ws_run(s@, j as int),
        decreases s@.len() - j,
    {
        j += 1;
    }
    j
}

fn find_char(s: &Vec<char>, c: char, i: usize) -> (j: usize)
    requires
        i <= s@.len(),
    ensures
        j == find_from(s@, c, i as int),
{
    let mut j = i;
    while j < s.len() && s[j] != c
        invariant
            i <= j <= s@.len(),
            find_from(s@, c, i as int) == find_from(s@, c, j as int),
        decreases s@.len() - j,
    {
        j += 1;
    }
    j
}

/// Cleans an abstract for display.
pub fn clean_abstract(s: &str) -> (r: String)
    ensures
        r@ == cleaned_abstract(s@),
{
    let v = chars_of(s);
    let n = v.len();
    let mut out: Vec<char> = Vec::new();
    let mut i: usize = 0;
    assert(v@.skip(0) =~= v@);
    while i < n
        invariant
            n == v@.len(),
            v@ == s@,
            i <= n,
            strip_tags(s@) == out@ + strip_tags(v@.skip(i as int)),
        decreases n - i,
    {
        let ghost rest = v@.skip(i as int);
        if v[i] == '<' && i + 1 < n {
            let j = find_char(&v, '>', i + 1);
            proof {
                lemma_find_from(v@, '>', i + 1);
                lemma_find_from(rest, '>', 1);
                assert forall|k: int| 1 <= k <= rest.len() implies find_from(rest, '>', k) == find_from(
                    v@,
                    '>',
                    i + k,
                ) - i by {
                    lemma_find_shift(v@, '>', i as int, k);
                }
            }
            if j >= i + 2 && j < n {
                proof {
                    assert(rest.skip(j - i + 1) =~= v@.skip(j + 1));
                }
                i = j + 1;
                continue;
            }
        }
        proof {
            if rest[0] == '<' && rest.len() >= 2 {
                lemma_find_shift(v@, '>', i as int, 1);
            }
            assert(rest.drop_first() =~= v@.skip(i + 1));
            assert(out@.push(v@[i as int]) + strip_tags(v@.skip(i + 1)) =~= out@ + (seq![rest[0]]
                + strip_tags(rest.drop_first())));
        }
        out.push(v[i]);
        i += 1;
    }
    proof {
        assert(v@.skip(n as int) =~= Seq::<char>::empty());
        assert(out@ + Seq::<char>::empty() =~= out@);
    }
    let t = out;
    let w = ws_run_from(&t, 0);
    proof {
        reveal_strlit("abstract");
    }
    let label = chars_of("abstract");
    let mut start: usize = 0;
    if word_ci(&t, &label, w) && t.len() - w > 8 && (t[w + 8] == '.' || t[w + 8] == ':') {
        start = ws_run_from(&t, w + 9);
    }
    let rest = text::string_from_range(&t, start, t.len());
    assert(t@.subrange(start as int, t@.len() as int) =~= t@.skip(start as int));
    collapse_whitespace(rest.as_str())
}

proof fn lemma_find_shift(s: Seq<char>, c: char, i: int, k: int)
    requires
        0 <= i < s.len(),
        1 <= k <= s.len() - i,
    ensures
        find_from(s.skip(i), c, k) == find_from(s, c, i + k) - i,
    decreases s.len() - i - k,
{
    if k < s.len() - i {
        assert(s.skip(i)[k] == s[i + k]);
        if s[i + k] != c {
            lemma_find_shift(s, c, i, k + 1);
        }
    }
}

// ---------------------------------------------------------------------------
// arXiv
// ---------------------------------------------------------------------------
/// Why a service's response gave no reference.
#[derive(Debug, Clone, PartialEq)]
pub enum FetchError {
    /// The arXiv feed is not well-formed XML (the parser's message).
    Xml(String),
    /// The arXiv feed has no entry title.
    NoTitle,
    /// A search found nothing.
    NoResults,
    /// A search found a record of another title.
    NoMatch,
    /// A search result has no DOI.
    NoDoi,
    /// A download is not a PDF.
    NotPdf,
}

impl FetchError {
    pub fn message(&self) -> (m: String)
        ensures
            m@ == match self {
                FetchError::Xml(e) => "Failed to parse arXiv XML: "@ + e@,
                FetchError::NoTitle => "No title found in arXiv response"@,
                FetchError::NoResults => "No results"@,
                FetchError::NoMatch => "No matching result"@,
                FetchError::NoDoi => "No DOI in result"@,
                FetchError::NotPdf => "Downloaded content is not a PDF"@,
            },
    {
        match self {
            FetchError::Xml(e) => {
                let mut m = "Failed to parse arXiv XML: ".to_string();
                push_str(&mut m, e.as_str());
                m
            },
            FetchError::NoTitle => "No title found in arXiv response".to_string(),
            FetchError::NoResults => "No results".to_string(),
            FetchError::NoMatch => "No matching result".to_string(),
            FetchError::NoDoi => "No DOI in result".to_string(),
            FetchError::NotPdf => "Downloaded content is not a PDF".to_string(),
        }
    }
}

/// The field a text token of an arXiv entry fills: none, title, author
/// name, summary, publication date, DOI.
pub open spec fn field_code(name: Seq<char>) -> u8 {
    if name == "title"@ {
        1
    } else if name == "name"@ {
        2
    } else if name == "summary"@ {
        3
    } else if name == "published"@ {
        4
    } else if name == "arxiv:doi"@ {
        5
    } else {
        0
    }
}

/// Where the reading of an arXiv feed stands.
pub struct ArxivScan {
    pub in_entry: bool,
    pub field: u8,
    pub title: Option<Seq<char>>,
    pub authors: Seq<Seq<char>>,
    pub summary: Option<Seq<char>>,
    pub published: Option<Seq<char>>,
    pub doi: Option<Seq<char>>,
    /// The first entry has ended.
    pub done: bool,
}

pub open spec fn scan_start() -> ArxivScan {
    ArxivScan {
        in_entry: false,
        field: 0,
        title: None,
        authors: Seq::empty(),
        summary: None,
        published: None,
        doi: None,
        done: false,
    }
}

/// One token of the feed: an `entry` start tag opens the entry; inside it,
/// a start tag selects the field its text fills (any other tag selects
/// none); non-blank text, trimmed, fills the selected field (authors
/// accumulate); the end of `entry` finishes the reading and any other end
/// tag selects no field.
pub open spec fn scan_step(st: ArxivScan, t: (u8, Seq<char>)) -> ArxivScan {
    if st.done {
        st
    } else if t.0 == TOKEN_START {
        if t.1 == "entry"@ {
            ArxivScan { in_entry: true, ..st }
        } else if st.in_entry {
            ArxivScan { field: field_code(t.1), ..st }
        } else {
            ArxivScan { field: 0, ..st }
        }
    } else if t.0 == TOKEN_TEXT && st.in_entry {
        let x = text::trim(t.1);
        if x.len() == 0 {
            st
        } else if st.field == 1 {
            ArxivScan { title: Some(x), ..st }
        } else if st.field == 2 {
            ArxivScan { authors: st.authors.push(x), ..st }
        } else if st.field == 3 {
            ArxivScan { summary: Some(x), ..st }
        } else if st.field == 4 {
            ArxivScan { published: Some(x), ..st }
        } else if st.field == 5 {
            ArxivScan { doi: Some(x), ..st }
        } else {
            st
        }
    } else if t.0 == TOKEN_END {
        if t.1 == "entry"@ {
            ArxivScan { done: true, ..st }
        } else {
            ArxivScan { field: 0, ..st }
        }
    } else {
        st
    }
}

pub open spec fn scan(tokens: Seq<(u8, Seq<char>)>, n: int) -> ArxivScan
    decreases n,
{
    if n <= 0 {
        scan_start()
    } else {
        scan_step(scan(tokens, n - 1), tokens[n - 1])
    }
}

/// The year at the start of a date: its first four characters when they
/// are four ASCII digits, or a `+` and three.
pub open spec fn year_prefix(p: Seq<char>) -> Option<u16> {
    if p.len() >= 4 && text::is_digit(p[0]) && text::is_digit(p[1]) && text::is_digit(p[2])
        && text::is_digit(p[3]) {
        Some(
            ((p[0] as u32 - 48) * 1000 + (p[1] as u32 - 48) * 100 + (p[2] as u32 - 48) * 10 + (p[3] as u32
                - 48)) as u16,
        )
    } else if p.len() >= 4 && p[0] == '+' && text::is_digit(p[1]) && text::is_digit(p[2])
        && text::is_digit(p[3]) {
        Some(((p[1] as u32 - 48) * 100 + (p[2] as u32 - 48) * 10 + (p[3] as u32 - 48)) as u16)
    } else {
        None
    }
}

/// `s` without any number of trailing `.pdf`.
pub open spec fn without_pdf_suffix(s: Seq<char>) -> Seq<char>
    decreases s.len(),
{
    if s.len() >= 4 && text::ends_with(s, ".pdf"@) {
        without_pdf_suffix(s.take(s.len() - 4))
    } else {
        s
    }
}

/// The reference an arXiv feed describes, or why it describes none: the
/// parser's message when the feed breaks off before its first entry ends,
/// `None` when that entry has no title.
pub open spec fn arxiv_outcome(xml: Seq<char>, arxiv_id: Seq<char>) -> Result<crate::model::RefView, Option<Seq<char>>> {
    let (tokens, err) = xml_tokens(xml);
    let st = scan(tokens, tokens.len() as int);
    if !st.done && err is Some {
        Err(err)
    } else if st.title is None {
        Err(None)
    } else {
        Ok(
            crate::model::RefView {
                kind: ReferenceKind::Paper,
                title: text::collapse_ws(st.title->0),
                authors: st.authors,
                year: match st.published {
                    Some(p) => year_prefix(p),
                    None => None,
                },
                doi: st.doi,
                arxiv: Some(without_pdf_suffix(arxiv_id)),
                journal: None,
                edition: None,
                publisher: None,
                series: None,
                isbn: Seq::empty(),
                tags: Seq::empty(),
                files: Seq::empty(),
                abstract_text: match st.summary {
                    Some(a) => Some(cleaned_abstract(a)),
                    None => None,
                },
            },
        )
    }
}

fn strip_pdf_suffix(s: &str) -> (r: String)
    ensures
        r@ == without_pdf_suffix(s@),
{
    let v = chars_of(s);
    let mut n = v.len();
    proof {
        reveal_strlit(".pdf");
        assert(v@.take(n as int) =~= v@);
    }
    while n >= 4 && v[n - 4] == '.' && v[n - 3] == 'p' && v[n - 2] == 'd' && v[n - 1] == 'f'
        invariant
            n <= v@.len(),
            v@ == s@,
            without_pdf_suffix(s@) == without_pdf_suffix(v@.take(n as int)),
            ".pdf"@ == seq!['.', 'p', 'd', 'f'],
        decreases n,
    {
        proof {
            let t = v@.take(n as int);
            assert(t.skip(t.len() - 4) =~= seq!['.', 'p', 'd', 'f']);
            assert(t.take(t.len() - 4) =~= v@.take(n - 4));
        }
        n -= 4;
    }
    proof {
        let t = v@.take(n as int);
        if t.len() >= 4 && text::ends_with(t, ".pdf"@) {
            assert(t.skip(t.len() - 4)[0] == t[n - 4]);
            assert(t.skip(t.len() - 4)[1] == t[n - 3]);
            assert(t.skip(t.len() - 4)[2] == t[n - 2]);
            assert(t.skip(t.len() - 4)[3] == t[n - 1]);
        }
    }
    text::string_from_range(&v, 0, n)
}

/// The arXiv API query for an identifier (a trailing `.pdf` dropped).
pub fn arxiv_query_url(arxiv_id: &str) -> (u: String)
    ensures
        u@ == "https://export.arxiv.org/api/query?id_list="@ + without_pdf_suffix(arxiv_id@),
{
    let id = strip_pdf_suffix(arxiv_id);
    let mut u = "https://export.arxiv.org/api/query?id_list=".to_string();
    push_str(&mut u, id.as_str());
    u
}

fn year_of(p: &str) -> (y: Option<u16>)
    ensures
        y == year_prefix(p@),
{
    let v = chars_of(p);
    if v.len() < 4 {
        return None;
    }
    let d0 = v[0];
    let d1 = v[1];
    let d2 = v[2];
    let d3 = v[3];
    if text::is_ascii_digit(d0) && text::is_ascii_digit(d1) && text::is_ascii_digit(d2) && text::is_ascii_digit(d3) {
        let y = ((d0 as u32) - 48) * 1000 + ((d1 as u32) - 48) * 100 + ((d2 as u32) - 48) * 10 + ((d3 as u32)
            - 48);
        Some(y as u16)
    } else if d0 == '+' && text::is_ascii_digit(d1) && text::is_ascii_digit(d2) && text::is_ascii_digit(d3) {
        let y = ((d1 as u32) - 48) * 100 + ((d2 as u32) - 48) * 10 + ((d3 as u32) - 48);
        Some(y as u16)
    } else {
        None
    }
}

/// The reference described by the arXiv API's Atom feed `xml` for
/// `arxiv_id`: the first entry's title (whitespace collapsed), authors,
/// summary (cleaned), publication year and DOI. Fails when the feed breaks
/// off before the entry ends, or the entry has no title.
pub fn fetch_arxiv(arxiv_id: &str, xml: &str) -> (r: Result<Reference, FetchError>)
    ensures
        match r {
            Ok(reference) => arxiv_outcome(xml@, arxiv_id@) == Ok::<crate::model::RefView, Option<Seq<char>>>(
                reference@,
            ),
            Err(FetchError::Xml(e)) => arxiv_outcome(xml@, arxiv_id@) == Err::<
                crate::model::RefView,
                Option<Seq<char>>,
            >(Some(e@)),
            Err(FetchError::NoTitle) => arxiv_outcome(xml@, arxiv_id@) == Err::<
                crate::model::RefView,
                Option<Seq<char>>,
            >(None),
            Err(_) => false,
        },
{
    let (tokens, err) = read_xml_tokens(xml);
    let ghost tv = token_views(tokens@);
    let mut in_entry = false;
    let mut field: u8 = 0;
    let mut title: Option<String> = None;
    let mut authors: Vec<String> = Vec::new();
    let mut summary: Option<String> = None;
    let mut published: Option<String> = None;
    let mut doi: Option<String> = None;
    let mut done = false;
    let mut i: usize = 0;
    proof {
        reveal_strlit("entry");
        reveal_strlit("title");
        reveal_strlit("name");
        reveal_strlit("summary");
        reveal_strlit("published");
        reveal_strlit("arxiv:doi");
    }
    while i < tokens.len() && !done
        invariant
            tv == token_views(tokens@),
            i <= tokens@.len(),
            ({
                let st = scan(tv, i as int);
                &&& st.in_entry == in_entry
                &&& st.field == field
                &&& st.title == text::opt_view(title)
                &&& st.authors == text::views(authors@)
                &&& st.summary == text::opt_view(summary)
                &&& st.published == text::opt_view(published)
                &&& st.doi == text::opt_view(doi)
                &&& st.done == done
            }),
            done ==> scan(tv, tv.len() as int) == scan(tv, i as int),
        decreases tokens@.len() - i,
    {
        let kind = tokens[i].0;
        let name = tokens[i].1.as_str();
        assert(tv[i as int] == (kind, name@));
        if kind == TOKEN_START {
            if crate::storage::str_eq(name, "entry") {
                in_entry = true;
            } else if in_entry {
                field = if crate::storage::str_eq(name, "title") {
                    1
                } else if crate::storage::str_eq(name, "name") {
                    2
                } else if crate::storage::str_eq(name, "summary") {
                    3
                } else if crate::storage::str_eq(name, "published") {
                    4
                } else if crate::storage::str_eq(name, "arxiv:doi") {
                    5
                } else {
                    0
                };
            } else {
                field = 0;
            }
        } else if kind == TOKEN_TEXT && in_entry {
            let x = trim_str(name);
            if !x.as_str().is_empty() {
                if field == 1 {
                    title = Some(x);
                } else if field == 2 {
                    authors.push(x);
                    assert(text::views(authors@) =~= scan(tv, i as int).authors.push(text::trim(name@)));
                } else if field == 3 {
                    summary = Some(x);
                } else if field == 4 {
                    published = Some(x);
                } else if field == 5 {
                    doi = Some(x);
                }
            }
        } else if kind == TOKEN_END {
            if crate::storage::str_eq(name, "entry") {
                done = true;
            } else {
                field = 0;
            }
        }
        i += 1;
        proof {
            if done {
                lemma_scan_done(tv, i as int, tv.len() as int);
            }
        }
    }
    proof {
        if !done {
            assert(i == tokens@.len());
        }
    }
    if !done {
        if let Some(e) = err {
            return Err(FetchError::Xml(e));
        }
    }
    let t = match title {
        Some(t) => t,
        None => return Err(FetchError::NoTitle),
    };
    let year = match &published {
        Some(p) => year_of(p.as_str()),
        None => None,
    };
    let abstract_text = match &summary {
        Some(a) => Some(clean_abstract(a.as_str())),
        None => None,
    };
    let reference = Reference {
        kind: ReferenceKind::Paper,
        title: collapse_whitespace(t.as_str()),
        authors,
        year,
        doi,
        arxiv: Some(strip_pdf_suffix(arxiv_id)),
        journal: None,
        edition: None,
        publisher: None,
        series: None,
        isbn: Vec::new(),
        tags: Vec::new(),
        files: Vec::new(),
        abstract_text,
    };
    proof {
        assert(reference@.isbn =~= Seq::<Seq<char>>::empty());
        assert(reference@.tags =~= Seq::<Seq<char>>::empty());
        assert(reference@.files =~= Seq::<Seq<char>>::empty());
    }
    Ok(reference)
}

proof fn lemma_scan_done(tokens: Seq<(u8, Seq<char>)>, i: int, n: int)
    requires
        0 <= i <= n,
        scan(tokens, i).done,
    ensures
        scan(tokens, n) == scan(tokens, i),
    decreases n - i,
{
    if n > i {
        lemma_scan_done(tokens, i, n - 1);
    }
}

// ---------------------------------------------------------------------------
// CrossRef
// ---------------------------------------------------------------------------
/// One author of a CrossRef work: the `given` and `family` names, when
/// they are text.
#[derive(Debug, Clone)]
pub struct CrossrefAuthor {
    pub given: Option<String>,
    pub family: Option<String>,
}

/// The fields of a CrossRef work record (`message`) that a reference is
/// made from.
#[derive(Debug, Clone)]
pub struct CrossrefMessage {
    /// The first entry of `title`, when it is text.
    pub title: Option<String>,
    /// The entries of `author` (none when it is not a list).
    pub authors: Vec<CrossrefAuthor>,
    /// The first date part (the year) of `published-print`,
    /// `published-online` and `created`, when it is an unsigned integer.
    pub published_print: Option<u64>,
    pub published_online: Option<u64>,
    pub created: Option<u64>,
    pub doi: Option<String>,
    /// The first entry of `container-title`, when it is text.
    pub container_title: Option<String>,
    pub abstract_text: Option<String>,
}

pub open spec fn or_empty(o: Option<String>) -> Seq<char> {
    match o {
        Some(s) => s@,
        None => Seq::empty(),
    }
}

/// The display names of CrossRef authors: `given family`, or the family
/// name alone; authors without a family name are left out.
pub open spec fn author_names(a: Seq<CrossrefAuthor>) -> Seq<Seq<char>>
    decreases a.len(),
{
    if a.len() == 0 {
        Seq::empty()
    } else {
        let rest = author_names(a.drop_last());
        let given = or_empty(a.last().given);
        let family = or_empty(a.last().family);
        if family.len() == 0 {
            rest
        } else if given.len() == 0 {
            rest.push(family)
        } else {
            rest.push(given + " "@ + family)
        }
    }
}

/// The year of a work: the first date present among print, online and
/// creation, when it fits a `u16`.
pub open spec fn work_year(m: CrossrefMessage) -> Option<u16> {
    let y = if m.published_print is Some {
        m.published_print
    } else if m.published_online is Some {
        m.published_online
    } else {
        m.created
    };
    match y {
        Some(v) => if v <= 65535 {
            Some(v as u16)
        } else {
            None
        },
        None => None,
    }
}

/// The reference a CrossRef work record describes.
pub open spec fn work_reference(m: CrossrefMessage) -> crate::model::RefView {
    crate::model::RefView {
        kind: ReferenceKind::Paper,
        title: match m.title {
            Some(t) => t@,
            None => "Untitled"@,
        },
        authors: author_names(m.authors@),
        year: work_year(m),
        doi: text::opt_view(m.doi),
        arxiv: None,
        journal: text::opt_view(m.container_title),
        edition: None,
        publisher: None,
        series: None,
        isbn: Seq::empty(),
        tags: Seq::empty(),
        files: Seq::empty(),
        abstract_text: match m.abstract_text {
            Some(a) => Some(cleaned_abstract(a@)),
            None => None,
        },
    }
}

/// A reference fetched from CrossRef keeps the work record's identifiers:
/// its DOI is the record's DOI, its journal the record's container title,
/// its title the record's title when there is one, and it is a paper.
pub proof fn crossref_keeps_the_record(m: CrossrefMessage)
    ensures
        m.doi matches Some(d) ==> work_reference(m).doi == Some(d@),
        m.doi is None ==> work_reference(m).doi is None,
        m.container_title matches Some(j) ==> work_reference(m).journal == Some(j@),
        m.title matches Some(t) ==> work_reference(m).title == t@,
        work_reference(m).kind == ReferenceKind::Paper,
{
}

/// The CrossRef API address of a work.
pub fn crossref_work_url(doi: &str) -> (u: String)
    ensures
        u@ == "https://api.crossref.org/works/"@ + doi@,
{
    let mut u = "https://api.crossref.org/works/".to_string();
    push_str(&mut u, doi);
    u
}

/// The reference described by a CrossRef work record.
pub fn fetch_crossref(message: &CrossrefMessage) -> (r: Reference)
    ensures
        r@ == work_reference(*message),
{
    let title = match &message.title {
        Some(t) => t.clone(),
        None => "Untitled".to_string(),
    };
    let mut authors: Vec<String> = Vec::new();
    let mut i: usize = 0;
    while i < message.authors.len()
        invariant
            i <= message.authors@.len(),
            text::views(authors@) == author_names(message.authors@.take(i as int)),
        decreases message.authors@.len() - i,
    {
        let a = &message.authors[i];
        proof {
            let t = message.authors@.take(i + 1);
            assert(t.drop_last() =~= message.authors@.take(i as int));
            assert(t.last() == *a);
        }
        let given = match &a.given {
            Some(g) => g.as_str(),
            None => "",
        };
        let family = match &a.family {
            Some(f) => f.as_str(),
            None => "",
        };
        proof {
            reveal_strlit("");
            assert(given@ == or_empty(a.given));
            assert(family@ == or_empty(a.family));
        }
        if !family.is_empty() {
            if given.is_empty() {
                authors.push(family.to_string());
            } else {
                let mut name = given.to_string();
                push_str(&mut name, " ");
                push_str(&mut name, family);
                authors.push(name);
            }
            assert(text::views(authors@) =~= author_names(message.authors@.take(i + 1)));
        }
        i += 1;
    }
    assert(message.authors@.take(message.authors@.len() as int) =~= message.authors@);
    let y = if message.published_print.is_some() {
        message.published_print
    } else if message.published_online.is_some() {
        message.published_online
    } else {
        message.created
    };
    let year = match y {
        Some(v) => if v <= 65535 {
            Some(v as u16)
        } else {
            None
        },
        None => None,
    };
    let abstract_text = match &message.abstract_text {
        Some(a) => Some(clean_abstract(a.as_str())),
        None => None,
    };
    let reference = Reference {
        kind: ReferenceKind::Paper,
        title,
        authors,
        year,
        doi: text::clone_opt(&message.doi),
        arxiv: None,
        journal: text::clone_opt(&message.container_title),
        edition: None,
        publisher: None,
        series: None,
        isbn: Vec::new(),
        tags: Vec::new(),
        files: Vec::new(),
        abstract_text,
    };
    proof {
        assert(reference@.isbn =~= Seq::<Seq<char>>::empty());
        assert(reference@.tags =~= Seq::<Seq<char>>::empty());
        assert(reference@.files =~= Seq::<Seq<char>>::empty());
    }
    reference
}

/// The first hit of a CrossRef title search: its first title and its DOI,
/// when they are text.
#[derive(Debug, Clone)]
pub struct SearchHit {
    pub title: Option<String>,
    pub doi: Option<String>,
}

/// The upper-case hexadecimal digit of `d` (below 16).
pub open spec fn hex_digit(d: int) -> char {
    if d < 10 {
        (48 + d) as char
    } else {
        (55 + d) as char
    }
}

/// A byte left as it is: an ASCII letter or digit, `-`, `.`, `_` or `~`.
pub open spec fn unreserved(b: u8) -> bool {
    (48 <= b <= 57) || (65 <= b <= 90) || (97 <= b <= 122) || b == 45 || b == 46 || b == 95 || b == 126
}

/// Every byte percent-encoded (`%` and two upper-case hex digits) except the
/// unreserved ones.
pub open spec fn percent_encoded(bytes: Seq<u8>) -> Seq<char>
    decreases bytes.len(),
{
    if bytes.len() == 0 {
        seq![]
    } else {
        let b = bytes.last();
        percent_encoded(bytes.drop_last()) + if unreserved(b) {
            seq![b as char]
        } else {
            seq!['%', hex_digit((b / 16) as int), hex_digit((b % 16) as int)]
        }
    }
}

/// The percent-encoding `urlencoding::encode` gives `s`: that of its UTF-8
/// bytes.
pub open spec fn url_encoded(s: Seq<char>) -> Seq<char> {
    percent_encoded(vstd::utf8::encode_utf8(s))
}

/// `urlencoding::encode`: percent-encodes every byte of the UTF-8 encoding
/// except ASCII letters and digits and `-`, `_`, `.`, `~`.
#[verifier::external_body]
fn encode_url(s: &str) -> (r: String)
    ensures
        r@ == url_encoded(s@),
{
    urlencoding::encode(s).into_owned()
}

/// The CrossRef query for the best match of a title.
pub fn title_search_url(title: &str) -> (u: String)
    ensures
        u@ == "https://api.crossref.org/works?query.title="@ + url_encoded(title@) + "&rows=1"@,
{
    let mut u = "https://api.crossref.org/works?query.title=".to_string();
    let e = encode_url(title);
    push_str(&mut u, e.as_str());
    push_str(&mut u, "&rows=1");
    u
}

/// The DOI to fetch for a title search, from its first hit: there must be
/// one, its title (empty when missing) must match the wanted one, and it
/// must have a DOI.
pub fn title_search_doi(title: &str, first: Option<SearchHit>) -> (r: Result<String, FetchError>)
    ensures
        match first {
            None => r == Err::<String, FetchError>(FetchError::NoResults),
            Some(hit) => if !fetch::same_title(title@, or_empty(hit.title)) {
                r == Err::<String, FetchError>(FetchError::NoMatch)
            } else {
                match hit.doi {
                    Some(d) => r matches Ok(x) && x@ == d@,
                    None => r == Err::<String, FetchError>(FetchError::NoDoi),
                }
            },
        },
{
    let hit = match first {
        Some(h) => h,
        None => return Err(FetchError::NoResults),
    };
    let found = match &hit.title {
        Some(t) => t.as_str(),
        None => "",
    };
    proof {
        reveal_strlit("");
        assert(found@ == or_empty(hit.title));
    }
    if !fetch::titles_match(title, found) {
        return Err(FetchError::NoMatch);
    }
    match hit.doi {
        Some(d) => Ok(d),
        None => Err(FetchError::NoDoi),
    }
}

/// A download kept only when it is a PDF.
pub fn download_pdf(bytes: Vec<u8>) -> (r: Result<Vec<u8>, FetchError>)
    ensures
        match r {
            Ok(b) => fetch::pdf_signature(bytes@) && b@ == bytes@,
            Err(e) => !fetch::pdf_signature(bytes@) && e == FetchError::NotPdf,
        },
{
    if fetch::is_pdf_bytes(bytes.as_slice()) {
        Ok(bytes)
    } else {
        Err(FetchError::NotPdf)
    }
}

// ---------------------------------------------------------------------------
// Landing pages
// ---------------------------------------------------------------------------
/// A character that counts as part of a word at a `\b` boundary: `\w` of
/// the `regex` crate (Unicode word characters).
pub open spec fn word_char(c: char) -> bool {
    fetch::regex_matches("\\w"@, seq![c])
}

pub open spec fn is_quote(c: char) -> bool {
    c == '"' || c == '\''
}

/// The index of the first quote character at or after `i`, or `s.len()`.
pub open spec fn first_quote(s: Seq<char>, i: int) -> int
    decreases s.len() - i,
{
    if i < 0 || i >= s.len() {
        s.len() as int
    } else if is_quote(s[i]) {
        i
    } else {
        first_quote(s, i + 1)
    }
}

/// At `p` stands `name="NAME"` (any case, either quote) after a word
/// boundary; the index after it.
pub open spec fn name_attr_end(s: Seq<char>, p: int, nm: Seq<char>) -> Option<int> {
    if 0 < p && p + 7 + nm.len() <= s.len() && !word_char(s[p - 1]) && word_ci_at(s, "name="@, p)
        && is_quote(s[p + 5]) && word_ci_at(s, nm, p + 6) && is_quote(s[p + 6 + nm.len()]) {
        Some(p + 7 + nm.len())
    } else {
        None
    }
}

/// At `c` stands `content="VALUE"` (any case, either quote) after a word
/// boundary; the bounds of VALUE, which ends at the next quote.
pub open spec fn content_attr(s: Seq<char>, c: int) -> Option<(int, int)> {
    if 0 < c && c + 9 <= s.len() && !word_char(s[c - 1]) && word_ci_at(s, "content="@, c) && is_quote(
        s[c + 8],
    ) && first_quote(s, c + 9) < s.len() {
        Some((c + 9, first_quote(s, c + 9)))
    } else {
        None
    }
}

/// The value of the last `content` attribute that starts in `lo..=hi`.
pub open spec fn content_from(s: Seq<char>, lo: int, hi: int) -> Option<(int, int)>
    decreases hi - lo + 1,
{
    if hi < lo {
        None
    } else if content_attr(s, hi) is Some {
        content_attr(s, hi)
    } else {
        content_from(s, lo, hi - 1)
    }
}

/// Some `name` attribute for NAME starts in `lo..=hi`.
pub open spec fn name_from(s: Seq<char>, nm: Seq<char>, lo: int, hi: int) -> bool
    decreases hi - lo + 1,
{
    if hi < lo {
        false
    } else {
        name_attr_end(s, hi, nm) is Some || name_from(s, nm, lo, hi - 1)
    }
}

/// `name` then `content` within a tag: the last name attribute in `lo..=hi`
/// that a content attribute follows before the next `>`, and the last such
/// content attribute.
pub open spec fn name_then_content(s: Seq<char>, nm: Seq<char>, lo: int, hi: int) -> Option<(int, int)>
    decreases hi - lo + 1,
{
    if hi < lo {
        None
    } else {
        match name_attr_end(s, hi, nm) {
            Some(p2) => match content_from(s, p2, find_from(s, '>', p2)) {
                Some(x) => Some(x),
                None => name_then_content(s, nm, lo, hi - 1),
            },
            None => name_then_content(s, nm, lo, hi - 1),
        }
    }
}

/// `content` then `name` within a tag: the last content attribute in
/// `lo..=hi` that a name attribute follows before the next `>`.
pub open spec fn content_then_name(s: Seq<char>, nm: Seq<char>, lo: int, hi: int) -> Option<(int, int)>
    decreases hi - lo + 1,
{
    if hi < lo {
        None
    } else {
        match content_attr(s, hi) {
            Some((a, q)) => if name_from(s, nm, q + 1, find_from(s, '>', q + 1)) {
                Some((a, q))
            } else {
                content_then_name(s, nm, lo, hi - 1)
            },
            None => content_then_name(s, nm, lo, hi - 1),
        }
    }
}

/// The `<meta ...>` tag at `i`, in either attribute order.
pub open spec fn meta_at(s: Seq<char>, nm: Seq<char>, i: int, name_first: bool) -> Option<(int, int)> {
    if word_ci_at(s, "<meta"@, i) {
        let e = find_from(s, '>', i + 5);
        if name_first {
            name_then_content(s, nm, i + 5, e)
        } else {
            content_then_name(s, nm, i + 5, e)
        }
    } else {
        None
    }
}

/// The first `<meta>` tag from `i` on with the attributes in the given
/// order (the leftmost match of the pattern).
pub open spec fn first_meta(s: Seq<char>, nm: Seq<char>, i: int, name_first: bool) -> Option<(int, int)>
    decreases s.len() - i,
{
    if i < 0 || i >= s.len() {
        None
    } else if meta_at(s, nm, i, name_first) is Some {
        meta_at(s, nm, i, name_first)
    } else {
        first_meta(s, nm, i + 1, name_first)
    }
}

/// The trimmed value a match captures, when not blank.
pub open spec fn captured(s: Seq<char>, m: Option<(int, int)>) -> Option<Seq<char>> {
    match m {
        Some((a, q)) => if text::trim(s.subrange(a, q)).len() > 0 {
            Some(text::trim(s.subrange(a, q)))
        } else {
            None
        },
        None => None,
    }
}

/// The content of the page's `<meta name="NAME" content="...">` tag (either
/// attribute order, any case): the first tag with the name before the
/// content, else the first with the content before the name, whichever
/// first gives a non-blank value.
pub open spec fn meta_value(s: Seq<char>, nm: Seq<char>) -> Option<Seq<char>> {
    let a = captured(s, first_meta(s, nm, 0, true));
    if a is Some {
        a
    } else {
        captured(s, first_meta(s, nm, 0, false))
    }
}

fn word_char_exec(c: char) -> (b: bool)
    ensures
        b == word_char(c),
{
    fetch::regex_matches_char("\\w", c)
}

fn quote_from(v: &Vec<char>, i: usize) -> (j: usize)
    requires
        i <= v@.len(),
    ensures
        j == first_quote(v@, i as int),
{
    let mut j = i;
    while j < v.len() && v[j] != '"' && v[j] != '\''
        invariant
            i <= j <= v@.len(),
            first_quote(v@, i as int) == first_quote(v@, j as int),
        decreases v@.len() - j,
    {
        j += 1;
    }
    j
}

fn name_attr(v: &Vec<char>, p: usize, nm: &Vec<char>, name_word: &Vec<char>) -> (r: Option<usize>)
    requires
        name_word@ == "name="@,
    ensures
        match r {
            Some(x) => name_attr_end(v@, p as int, nm@) == Some(x as int),
            None => name_attr_end(v@, p as int, nm@) is None,
        },
{
    if p == 0 || p > v.len() || nm.len() > v.len() - p || v.len() - p - nm.len() < 7 {
        return None;
    }
    if !word_char_exec(v[p - 1]) && word_ci(v, name_word, p) && (v[p + 5] == '"' || v[p + 5] == '\'')
        && word_ci(v, nm, p + 6) && (v[p + 6 + nm.len()] == '"' || v[p + 6 + nm.len()] == '\'') {
        Some(p + 7 + nm.len())
    } else {
        None
    }
}

fn content_at(v: &Vec<char>, c: usize, content_word: &Vec<char>) -> (r: Option<(usize, usize)>)
    requires
        content_word@ == "content="@,
    ensures
        match r {
            Some((a, q)) => content_attr(v@, c as int) == Some((a as int, q as int)),
            None => content_attr(v@, c as int) is None,
        },
{
    if c == 0 || c > v.len() || v.len() - c < 9 {
        return None;
    }
    if !word_char_exec(v[c - 1]) && word_ci(v, content_word, c) && (v[c + 8] == '"' || v[c + 8] == '\'') {
        let q = quote_from(v, c + 9);
        if q < v.len() {
            return Some((c + 9, q));
        }
    }
    None
}

fn content_last(v: &Vec<char>, lo: usize, hi: usize, content_word: &Vec<char>) -> (r: Option<(usize, usize)>)
    requires
        content_word@ == "content="@,
    ensures
        match r {
            Some((a, q)) => content_from(v@, lo as int, hi as int) == Some((a as int, q as int)),
            None => content_from(v@, lo as int, hi as int) is None,
        },
{
    if hi < lo {
        return None;
    }
    let mut h = hi;
    loop
        invariant
            lo <= h <= hi,
            content_word@ == "content="@,
            content_from(v@, lo as int, hi as int) == content_from(v@, lo as int, h as int),
        decreases h - lo,
    {
        if let Some(x) = content_at(v, h, content_word) {
            return Some(x);
        }
        if h == lo {
            proof {
                assert(content_from(v@, lo as int, lo - 1) is None);
            }
            return None;
        }
        h -= 1;
    }
}

fn name_any(v: &Vec<char>, nm: &Vec<char>, lo: usize, hi: usize, name_word: &Vec<char>) -> (b: bool)
    requires
        name_word@ == "name="@,
    ensures
        b == name_from(v@, nm@, lo as int, hi as int),
{
    if hi < lo {
        return false;
    }
    let mut h = hi;
    loop
        invariant
            lo <= h <= hi,
            name_word@ == "name="@,
            name_from(v@, nm@, lo as int, hi as int) == name_from(v@, nm@, lo as int, h as int),
        decreases h - lo,
    {
        if name_attr(v, h, nm, name_word).is_some() {
            return true;
        }
        if h == lo {
            proof {
                assert(!name_from(v@, nm@, lo as int, lo - 1));
            }
            return false;
        }
        h -= 1;
    }
}

fn meta_match(v: &Vec<char>, nm: &Vec<char>, i: usize, name_first: bool, words: &(Vec<char>, Vec<char>, Vec<char>)) -> (r: Option<(usize, usize)>)
    requires
        i <= v@.len(),
        words.0@ == "<meta"@,
        words.1@ == "name="@,
        words.2@ == "content="@,
    ensures
        match r {
            Some((a, q)) => meta_at(v@, nm@, i as int, name_first) == Some((a as int, q as int)),
            None => meta_at(v@, nm@, i as int, name_first) is None,
        },
{
    proof {
        reveal_strlit("<meta");
        assert("<meta"@.len() == 5);
    }
    if !word_ci(v, &words.0, i) {
        return None;
    }
    let n = v.len();
    assert(i + 5 <= n);
    let e = find_char(v, '>', i + 5);
    proof {
        lemma_find_from(v@, '>', i + 5);
    }
    let lo = i + 5;
    let mut h = e;
    if name_first {
        loop
            invariant
                lo <= h <= e <= v@.len(),
                lo == i + 5,
                e == find_from(v@, '>', i + 5),
                name_first,
                word_ci_at(v@, "<meta"@, i as int),
                words.1@ == "name="@,
                words.2@ == "content="@,
                name_then_content(v@, nm@, lo as int, e as int) == name_then_content(v@, nm@, lo as int, h as int),
            decreases h - lo,
        {
            if let Some(p2) = name_attr(v, h, nm, &words.1) {
                proof {
                    lemma_find_from(v@, '>', p2 as int);
                }
                let e2 = find_char(v, '>', p2);
                if let Some(x) = content_last(v, p2, e2, &words.2) {
                    return Some(x);
                }
            }
            if h == lo {
                proof {
                    assert(name_then_content(v@, nm@, lo as int, lo - 1) is None);
                }
                return None;
            }
            h -= 1;
        }
    } else {
        loop
            invariant
                lo <= h <= e <= v@.len(),
                lo == i + 5,
                e == find_from(v@, '>', i + 5),
                !name_first,
                n == v@.len(),
                word_ci_at(v@, "<meta"@, i as int),
                words.1@ == "name="@,
                words.2@ == "content="@,
                content_then_name(v@, nm@, lo as int, e as int) == content_then_name(v@, nm@, lo as int, h as int),
            decreases h - lo,
        {
            if let Some((a, q)) = content_at(v, h, &words.2) {
                proof {
                    lemma_content_attr_bounds(v@, h as int);
                    lemma_find_from(v@, '>', q + 1);
                    assert(q < n);
                }
                let e3 = find_char(v, '>', q + 1);
                if name_any(v, nm, q + 1, e3, &words.1) {
                    return Some((a, q));
                }
            }
            if h == lo {
                proof {
                    assert(content_then_name(v@, nm@, lo as int, lo - 1) is None);
                }
                return None;
            }
            h -= 1;
        }
    }
}

fn first_meta_exec(v: &Vec<char>, nm: &Vec<char>, name_first: bool, words: &(Vec<char>, Vec<char>, Vec<char>)) -> (r: Option<(usize, usize)>)
    requires
        words.0@ == "<meta"@,
        words.1@ == "name="@,
        words.2@ == "content="@,
    ensures
        match r {
            Some((a, q)) => first_meta(v@, nm@, 0, name_first) == Some((a as int, q as int)) && a <= q
                <= v@.len(),
            None => first_meta(v@, nm@, 0, name_first) is None,
        },
{
    let mut i: usize = 0;
    while i < v.len()
        invariant
            i <= v@.len(),
            words.0@ == "<meta"@,
            words.1@ == "name="@,
            words.2@ == "content="@,
            first_meta(v@, nm@, 0, name_first) == first_meta(v@, nm@, i as int, name_first),
        decreases v@.len() - i,
    {
        if let Some((a, q)) = meta_match(v, nm, i, name_first, words) {
            proof {
                lemma_meta_bounds(v@, nm@, i as int, name_first);
            }
            return Some((a, q));
        }
        i += 1;
    }
    None
}

proof fn lemma_content_attr_bounds(s: Seq<char>, c: int)
    ensures
        content_attr(s, c) matches Some((a, q)) ==> 0 <= a <= q < s.len(),
{
    if content_attr(s, c) is Some {
        lemma_first_quote(s, c + 9);
    }
}

proof fn lemma_first_quote(s: Seq<char>, i: int)
    requires
        0 <= i <= s.len(),
    ensures
        i <= first_quote(s, i) <= s.len(),
    decreases s.len() - i,
{
    if i < s.len() && !is_quote(s[i]) {
        lemma_first_quote(s, i + 1);
    }
}

proof fn lemma_content_from_bounds(s: Seq<char>, lo: int, hi: int)
    ensures
        content_from(s, lo, hi) matches Some((a, q)) ==> 0 <= a <= q < s.len(),
    decreases hi - lo + 1,
{
    if hi >= lo {
        lemma_content_attr_bounds(s, hi);
        lemma_content_from_bounds(s, lo, hi - 1);
    }
}

proof fn lemma_ntc_bounds(s: Seq<char>, nm: Seq<char>, lo: int, hi: int)
    ensures
        name_then_content(s, nm, lo, hi) matches Some((a, q)) ==> 0 <= a <= q < s.len(),
    decreases hi - lo + 1,
{
    if hi >= lo {
        if let Some(p2) = name_attr_end(s, hi, nm) {
            lemma_content_from_bounds(s, p2, find_from(s, '>', p2));
        }
        lemma_ntc_bounds(s, nm, lo, hi - 1);
    }
}

proof fn lemma_ctn_bounds(s: Seq<char>, nm: Seq<char>, lo: int, hi: int)
    ensures
        content_then_name(s, nm, lo, hi) matches Some((a, q)) ==> 0 <= a <= q < s.len(),
    decreases hi - lo + 1,
{
    if hi >= lo {
        lemma_content_attr_bounds(s, hi);
        lemma_ctn_bounds(s, nm, lo, hi - 1);
    }
}

proof fn lemma_meta_bounds(s: Seq<char>, nm: Seq<char>, i: int, name_first: bool)
    ensures
        meta_at(s, nm, i, name_first) matches Some((a, q)) ==> 0 <= a <= q < s.len(),
{
    let e = find_from(s, '>', i + 5);
    lemma_ntc_bounds(s, nm, i + 5, e);
    lemma_ctn_bounds(s, nm, i + 5, e);
}

fn capture(v: &Vec<char>, m: Option<(usize, usize)>) -> (r: Option<String>)
    requires
        m matches Some((a, q)) ==> a <= q <= v@.len(),
    ensures
        text::opt_view(r) == captured(v@, match m {
            Some((a, q)) => Some((a as int, q as int)),
            None => None,
        }),
{
    match m {
        Some((a, q)) => {
            let raw = text::string_from_range(v, a, q);
            let t = trim_str(raw.as_str());
            if t.as_str().is_empty() {
                None
            } else {
                Some(t)
            }
        },
        None => None,
    }
}

/// The content of a page's `<meta>` tag for `name` (given in lower case).
fn meta_content(html: &Vec<char>, name: &str) -> (r: Option<String>)
    ensures
        text::opt_view(r) == meta_value(html@, name@),
{
    let nm = chars_of(name);
    proof {
        reveal_strlit("<meta");
        reveal_strlit("name=");
        reveal_strlit("content=");
    }
    let words = (chars_of("<meta"), chars_of("name="), chars_of("content="));
    let a = first_meta_exec(html, &nm, true, &words);
    let ca = capture(html, a);
    if ca.is_some() {
        return ca;
    }
    let b = first_meta_exec(html, &nm, false, &words);
    capture(html, b)
}

/// A DOI and a PDF address found on a publisher's landing page.
#[derive(Debug, Clone)]
pub struct LandingInfo {
    pub doi: Option<String>,
    pub pdf_url: Option<String>,
}

/// `s` without any number of leading `p` (`str::trim_start_matches`).
pub open spec fn without_prefix(s: Seq<char>, p: Seq<char>) -> Seq<char>
    decreases s.len(),
{
    if p.len() > 0 && text::starts_with(s, p) {
        without_prefix(s.skip(p.len() as int), p)
    } else {
        s
    }
}

/// The address `link` resolves to against the page address `base`
/// (`reqwest::Url::parse` then `Url::join`), when both parse.
pub uninterp spec fn url_join(base: Seq<char>, link: Seq<char>) -> Option<Seq<char>>;

/// `Url::parse(base)` then `join(link)`, as text.
#[verifier::external_body]
fn join_url(base: &str, link: &str) -> (r: Option<String>)
    ensures
        text::opt_view(r) == url_join(base@, link@),
{
    reqwest::Url::parse(base).and_then(|b| b.join(link)).map(|u| u.to_string()).ok()
}

/// The DOI a landing page names: `citation_doi`, else `prism.doi`, else a
/// `dc.identifier` containing `10.`; a `doi:` or `DOI:` label dropped; and
/// only when a DOI can be read from what is left.
pub open spec fn landing_doi(html: Seq<char>) -> Option<Seq<char>> {
    let raw = if meta_value(html, "citation_doi"@) is Some {
        meta_value(html, "citation_doi"@)
    } else if meta_value(html, "prism.doi"@) is Some {
        meta_value(html, "prism.doi"@)
    } else if meta_value(html, "dc.identifier"@) matches Some(d) && text::contains(d, "10."@) {
        meta_value(html, "dc.identifier"@)
    } else {
        None
    };
    match raw {
        Some(d) => fetch::doi_in(text::trim(without_prefix(without_prefix(text::trim(d), "doi:"@), "DOI:"@))),
        None => None,
    }
}

/// The PDF a landing page links with `citation_pdf_url`, resolved against
/// the page address (kept as written when it cannot be).
pub open spec fn landing_pdf(url: Seq<char>, html: Seq<char>) -> Option<Seq<char>> {
    match meta_value(html, "citation_pdf_url"@) {
        Some(u) => match url_join(url, u) {
            Some(j) => Some(j),
            None => Some(u),
        },
        None => None,
    }
}

fn strip_prefix_all(s: &str, p: &str) -> (r: String)
    requires
        p@.len() > 0,
    ensures
        r@ == without_prefix(s@, p@),
{
    let v = chars_of(s);
    let w = chars_of(p);
    let mut i: usize = 0;
    assert(v@.skip(0) =~= v@);
    while i <= v.len() && text::matches_at(&v, i, &w)
        invariant
            v@ == s@,
            w@ == p@,
            w@.len() > 0,
            i <= v@.len(),
            without_prefix(s@, p@) == without_prefix(v@.skip(i as int), p@),
        decreases v@.len() - i,
    {
        proof {
            let t = v@.skip(i as int);
            assert(t.take(w@.len() as int) =~= v@.subrange(i as int, i + w@.len()));
            assert(t.skip(w@.len() as int) =~= v@.skip(i + w@.len()));
        }
        i += w.len();
    }
    proof {
        let t = v@.skip(i as int);
        if w@.len() <= t.len() && t.take(w@.len() as int) == w@ {
            assert(t.take(w@.len() as int) =~= v@.subrange(i as int, i + w@.len()));
        }
    }
    let r = text::string_from_range(&v, i, v.len());
    assert(v@.subrange(i as int, v@.len() as int) =~= v@.skip(i as int));
    r
}

/// The DOI and PDF address found in a publisher's landing page `html`,
/// fetched from `url`.
pub fn resolve_landing_page(url: &str, html: &str) -> (info: LandingInfo)
    ensures
        text::opt_view(info.doi) == landing_doi(html@),
        text::opt_view(info.pdf_url) == landing_pdf(url@, html@),
{
    let page = chars_of(html);
    let mut raw = meta_content(&page, "citation_doi");
    if raw.is_none() {
        raw = meta_content(&page, "prism.doi");
    }
    if raw.is_none() {
        raw = match meta_content(&page, "dc.identifier") {
            Some(d) => if text::str_contains(d.as_str(), "10.") {
                Some(d)
            } else {
                None
            },
            None => None,
        };
    }
    proof {
        reveal_strlit("doi:");
        reveal_strlit("DOI:");
    }
    let doi = match raw {
        Some(d) => {
            let t = trim_str(d.as_str());
            let a = strip_prefix_all(t.as_str(), "doi:");
            let b = strip_prefix_all(a.as_str(), "DOI:");
            let c = trim_str(b.as_str());
            fetch::detect_doi(c.as_str())
        },
        None => None,
    };
    let pdf_url = match meta_content(&page, "citation_pdf_url") {
        Some(u) => match join_url(url, u.as_str()) {
            Some(j) => Some(j),
            None => Some(u),
        },
        None => None,
    };
    LandingInfo { doi, pdf_url }
}

// ---------------------------------------------------------------------------
// PubMed and PubMed Central
// ---------------------------------------------------------------------------
/// One entry of a PubMed record's `articleids`: its `idtype` and `value`,
/// when they are text.
#[derive(Debug, Clone)]
pub struct ArticleId {
    pub idtype: Option<String>,
    pub value: Option<String>,
}

/// Why no DOI was found for a PubMed or PMC identifier.
#[derive(Debug, Clone, PartialEq)]
pub enum LookupError {
    /// No PubMed record with `articleids` for this PMID.
    NoRecord(String),
    /// The PubMed record lists no DOI.
    NoPubmedDoi(String),
    /// NCBI gave no DOI for this PMC ID.
    NoPmcDoi(String),
}

impl LookupError {
    pub fn message(&self) -> (m: String)
        ensures
            m@ == match self {
                LookupError::NoRecord(id) => "No PubMed record for "@ + id@,
                LookupError::NoPubmedDoi(id) => "PubMed record "@ + id@ + " has no DOI; try the DOI directly"@,
                LookupError::NoPmcDoi(id) => "NCBI did not provide a DOI for "@ + id@,
            },
    {
        match self {
            LookupError::NoRecord(id) => {
                let mut m = "No PubMed record for ".to_string();
                push_str(&mut m, id.as_str());
                m
            },
            LookupError::NoPubmedDoi(id) => {
                let mut m = "PubMed record ".to_string();
                push_str(&mut m, id.as_str());
                push_str(&mut m, " has no DOI; try the DOI directly");
                m
            },
            LookupError::NoPmcDoi(id) => {
                let mut m = "NCBI did not provide a DOI for ".to_string();
                push_str(&mut m, id.as_str());
                m
            },
        }
    }
}

/// The index of the first article ID of type `doi`, or `ids.len()`.
pub open spec fn first_doi_id(ids: Seq<ArticleId>, i: int) -> int
    decreases ids.len() - i,
{
    if i < 0 || i >= ids.len() {
        ids.len() as int
    } else if text::opt_view(ids[i].idtype) == Some("doi"@) {
        i
    } else {
        first_doi_id(ids, i + 1)
    }
}

/// The DOI of the PubMed record `pmid` from its `articleids` (`None` when
/// the record has none): the trimmed value of the first ID of type `doi`.
pub fn pubmed_doi(pmid: &str, ids: Option<Vec<ArticleId>>) -> (r: Result<String, LookupError>)
    ensures
        match ids {
            None => r matches Err(LookupError::NoRecord(p)) && p@ == pmid@,
            Some(v) => {
                let k = first_doi_id(v@, 0);
                if k < v@.len() && v@[k].value is Some {
                    r matches Ok(d) && d@ == text::trim(v@[k].value->0@)
                } else {
                    r matches Err(LookupError::NoPubmedDoi(p)) && p@ == pmid@
                }
            },
        },
{
    let v = match ids {
        Some(v) => v,
        None => return Err(LookupError::NoRecord(pmid.to_string())),
    };
    proof {
        reveal_strlit("doi");
    }
    let mut i: usize = 0;
    while i < v.len()
        invariant
            i <= v@.len(),
            ids == Some(v),
            "doi"@ == seq!['d', 'o', 'i'],
            first_doi_id(v@, 0) == first_doi_id(v@, i as int),
        decreases v@.len() - i,
    {
        let is_doi = match &v[i].idtype {
            Some(t) => crate::storage::str_eq(t.as_str(), "doi"),
            None => false,
        };
        if is_doi {
            return match &v[i].value {
                Some(d) => Ok(trim_str(d.as_str())),
                None => Err(LookupError::NoPubmedDoi(pmid.to_string())),
            };
        }
        i += 1;
    }
    Err(LookupError::NoPubmedDoi(pmid.to_string()))
}

/// One record of NCBI's PMC ID converter: its `pmcid` and `doi`, when text.
#[derive(Debug, Clone)]
pub struct PmcRecord {
    pub pmcid: Option<String>,
    pub doi: Option<String>,
}

/// The index of the first record for `pmc_id` (any ASCII case), or the
/// number of records.
pub open spec fn first_pmc_record(records: Seq<PmcRecord>, pmc_id: Seq<char>, i: int) -> int
    decreases records.len() - i,
{
    if i < 0 || i >= records.len() {
        records.len() as int
    } else if records[i].pmcid matches Some(p) && text::eq_ascii_ci(p@, pmc_id) {
        i
    } else {
        first_pmc_record(records, pmc_id, i + 1)
    }
}

/// The DOI NCBI's ID converter gives for `pmc_id`: that of the first record
/// for it.
pub fn pmc_doi(pmc_id: &str, records: &Vec<PmcRecord>) -> (r: Result<String, LookupError>)
    ensures
        ({
            let k = first_pmc_record(records@, pmc_id@, 0);
            if k < records@.len() && records@[k].doi is Some {
                r matches Ok(d) && d@ == records@[k].doi->0@
            } else {
                r matches Err(LookupError::NoPmcDoi(p)) && p@ == pmc_id@
            }
        }),
{
    let mut i: usize = 0;
    while i < records.len()
        invariant
            i <= records@.len(),
            first_pmc_record(records@, pmc_id@, 0) == first_pmc_record(records@, pmc_id@, i as int),
        decreases records@.len() - i,
    {
        let hit = match &records[i].pmcid {
            Some(p) => text::eq_ignore_ascii_case(p.as_str(), pmc_id),
            None => false,
        };
        if hit {
            return match &records[i].doi {
                Some(d) => Ok(d.clone()),
                None => Err(LookupError::NoPmcDoi(pmc_id.to_string())),
            };
        }
        i += 1;
    }
    Err(LookupError::NoPmcDoi(pmc_id.to_string()))
}

/// One entry of a CrossRef work's `link` list: its `URL` and
/// `content-type`, when text.
#[derive(Debug, Clone)]
pub struct CrossrefLink {
    pub url: Option<String>,
    pub content_type: Option<String>,
}

/// The link is to a PDF: its content type mentions `pdf`, or its address
/// ends in `.pdf` (any ASCII case).
pub open spec fn pdf_link(l: CrossrefLink) -> bool {
    l.url is Some && (text::contains(or_empty(l.content_type), "pdf"@) || text::ends_with(
        l.url->0@.map_values(|c: char| text::ascii_lower(c)),
        ".pdf"@,
    ))
}

/// An address with `http://` upgraded to `https://`.
pub open spec fn secured(u: Seq<char>) -> Seq<char> {
    if text::starts_with(u, "http://"@) {
        "https://"@ + u.skip(7)
    } else {
        u
    }
}

/// The index of the first PDF link, or the number of links.
pub open spec fn first_pdf_link(links: Seq<CrossrefLink>, i: int) -> int
    decreases links.len() - i,
{
    if i < 0 || i >= links.len() {
        links.len() as int
    } else if pdf_link(links[i]) {
        i
    } else {
        first_pdf_link(links, i + 1)
    }
}

/// The address of a CrossRef work's first PDF link, made secure.
pub fn crossref_pdf_url(links: &Vec<CrossrefLink>) -> (r: Option<String>)
    ensures
        ({
            let k = first_pdf_link(links@, 0);
            text::opt_view(r) == if k < links@.len() {
                Some(secured(links@[k].url->0@))
            } else {
                None
            }
        }),
{
    proof {
        reveal_strlit("http://");
        reveal_strlit("https://");
        reveal_strlit("pdf");
        reveal_strlit(".pdf");
    }
    let mut i: usize = 0;
    while i < links.len()
        invariant
            i <= links@.len(),
            first_pdf_link(links@, 0) == first_pdf_link(links@, i as int),
            "http://"@.len() == 7,
        decreases links@.len() - i,
    {
        if let Some(u) = &links[i].url {
            let ct = match &links[i].content_type {
                Some(c) => c.as_str(),
                None => "",
            };
            proof {
                reveal_strlit("");
                assert(ct@ == or_empty(links@[i as int].content_type));
            }
            let uv = chars_of(u.as_str());
            let mut lower: Vec<char> = Vec::new();
            let mut k: usize = 0;
            while k < uv.len()
                invariant
                    k <= uv@.len(),
                    lower@ == uv@.take(k as int).map_values(|c: char| text::ascii_lower(c)),
                decreases uv@.len() - k,
            {
                lower.push(text::to_ascii_lower(uv[k]));
                assert(lower@ =~= uv@.take(k + 1).map_values(|c: char| text::ascii_lower(c)));
                k += 1;
            }
            assert(uv@.take(uv@.len() as int) =~= uv@);
            let lowered = text::string_from(&lower);
            if text::str_contains(ct, "pdf") || text::str_ends_with(lowered.as_str(), ".pdf") {
                let out = if text::str_starts_with(u.as_str(), "http://") {
                    let mut s = "https://".to_string();
                    let rest = text::string_from_range(&uv, 7, uv.len());
                    push_str(&mut s, rest.as_str());
                    assert(uv@.subrange(7, uv@.len() as int) =~= uv@.skip(7));
                    s
                } else {
                    u.clone()
                };
                return Some(out);
            }
        }
        i += 1;
    }
    None
}

// ---------------------------------------------------------------------------
// Downloads
// ---------------------------------------------------------------------------
/// The path segments of `url` (`reqwest::Url::parse` then
/// `path_segments`), when it parses and can have a path.
pub uninterp spec fn path_segments_of(url: Seq<char>) -> Option<Seq<Seq<char>>>;

/// `Url::parse(url)` then `path_segments`, as text.
#[verifier::external_body]
fn url_path_segments(url: &str) -> (r: Option<Vec<String>>)
    ensures
        match r {
            Some(v) => path_segments_of(url@) == Some(text::views(v@)),
            None => path_segments_of(url@) is None,
        },
{
    reqwest::Url::parse(url).ok()?.path_segments().map(|s| s.map(|x| x.to_string()).collect())
}

/// The index of the last non-empty segment before `n`, or -1.
pub open spec fn last_nonempty(segs: Seq<Seq<char>>, n: int) -> int
    decreases n,
{
    if n <= 0 {
        -1
    } else if segs[n - 1].len() > 0 {
        n - 1
    } else {
        last_nonempty(segs, n - 1)
    }
}

/// The file name a PDF downloaded from `url` is saved under: the URL's
/// last non-empty path segment when it ends in `.pdf` (any ASCII case),
/// else `download.pdf`.
pub open spec fn download_name(url: Seq<char>) -> Seq<char> {
    match path_segments_of(url) {
        Some(segs) => {
            let k = last_nonempty(segs, segs.len() as int);
            if k >= 0 && text::ends_with(segs[k].map_values(|c: char| text::ascii_lower(c)), ".pdf"@) {
                segs[k]
            } else {
                "download.pdf"@
            }
        },
        None => "download.pdf"@,
    }
}

fn ascii_lowered(s: &str) -> (r: String)
    ensures
        r@ == s@.map_values(|c: char| text::ascii_lower(c)),
{
    let v = chars_of(s);
    let mut lower: Vec<char> = Vec::new();
    let mut k: usize = 0;
    while k < v.len()
        invariant
            k <= v@.len(),
            lower@ == v@.take(k as int).map_values(|c: char| text::ascii_lower(c)),
        decreases v@.len() - k,
    {
        lower.push(text::to_ascii_lower(v[k]));
        assert(lower@ =~= v@.take(k + 1).map_values(|c: char| text::ascii_lower(c)));
        k += 1;
    }
    assert(v@.take(v@.len() as int) =~= v@);
    text::string_from(&lower)
}

/// The file name for a PDF downloaded from `url`.
pub fn download_file_name(url: &str) -> (name: String)
    ensures
        name@ == download_name(url@),
{
    let segs = match url_path_segments(url) {
        Some(v) => v,
        None => return "download.pdf".to_string(),
    };
    let mut n = segs.len();
    while n > 0 && segs[n - 1].as_str().is_empty()
        invariant
            n <= segs@.len(),
            last_nonempty(text::views(segs@), segs@.len() as int) == last_nonempty(text::views(segs@), n as int),
        decreases n,
    {
        n -= 1;
    }
    if n == 0 {
        return "download.pdf".to_string();
    }
    let last = &segs[n - 1];
    let lowered = ascii_lowered(last.as_str());
    if text::str_ends_with(lowered.as_str(), ".pdf") {
        last.clone()
    } else {
        "download.pdf".to_string()
    }
}

} // verus!
