//! Recognizing identifiers in user input (arXiv IDs, DOIs, PubMed and PMC
//! IDs), title matching and the PDF signature check.
use vstd::prelude::*;

use crate::text::{
    self, chars_of, is_whitespace, matches_at, push_str, string_from_range,
    to_lowercase,
};

verus! {

// ---------------------------------------------------------------------------
// Character runs
// ---------------------------------------------------------------------------
/// Whether `regex::Regex::new(pattern)` compiles and the regex matches
/// somewhere in `text`.
pub uninterp spec fn regex_matches(pattern: Seq<char>, text: Seq<char>) -> bool;

/// `regex::Regex::new(pattern)`, then `is_match` on the one-character
/// string `c`; false when the pattern does not compile.
#[verifier::external_body]
pub(crate) fn regex_matches_char(pattern: &str, c: char) -> (r: bool)
    ensures
        r == regex_matches(pattern@, seq![c]),
{
    regex::Regex::new(pattern).is_ok_and(|re| re.is_match(&c.to_string()))
}

/// `\d` of the `regex` crate: a Unicode decimal digit (general category
/// `Nd`), as the identifier patterns read it.
pub open spec fn decimal_digit(c: char) -> bool {
    regex_matches("\\d"@, seq![c])
}

/// Whether `c` is a `\d` digit.
pub fn is_decimal_digit(c: char) -> (r: bool)
    ensures
        r == decimal_digit(c),
{
    regex_matches_char("\\d", c)
}

/// The number of `\d` digits starting at `i`.
pub open spec fn digit_run(s: Seq<char>, i: int) -> nat
    decreases s.len() - i,
{
    if 0 <= i < s.len() && decimal_digit(s[i]) {
        1 + digit_run(s, i + 1)
    } else {
        0
    }
}

/// The number of non-whitespace characters starting at `i`.
pub open spec fn nonws_run(s: Seq<char>, i: int) -> nat
    decreases s.len() - i,
{
    if 0 <= i < s.len() && !text::is_ws(s[i]) {
        1 + nonws_run(s, i + 1)
    } else {
        0
    }
}

/// The number of whitespace characters starting at `i`.
pub open spec fn ws_run(s: Seq<char>, i: int) -> nat
    decreases s.len() - i,
{
    if 0 <= i < s.len() && text::is_ws(s[i]) {
        1 + ws_run(s, i + 1)
    } else {
        0
    }
}

proof fn lemma_digit_run(s: Seq<char>, i: int, j: int)
    requires
        0 <= i <= j <= s.len(),
        forall|k: int| i <= k < j ==> decimal_digit(#[trigger] s[k]),
        j == s.len() || !decimal_digit(s[j]),
    ensures
        digit_run(s, i) == j - i,
    decreases j - i,
{
    if i < j {
        lemma_digit_run(s, i + 1, j);
    }
}

proof fn lemma_nonws_run(s: Seq<char>, i: int, j: int)
    requires
        0 <= i <= j <= s.len(),
        forall|k: int| i <= k < j ==> !text::is_ws(#[trigger] s[k]),
        j == s.len() || text::is_ws(s[j]),
    ensures
        nonws_run(s, i) == j - i,
    decreases j - i,
{
    if i < j {
        lemma_nonws_run(s, i + 1, j);
    }
}

proof fn lemma_ws_run(s: Seq<char>, i: int, j: int)
    requires
        0 <= i <= j <= s.len(),
        forall|k: int| i <= k < j ==> text::is_ws(#[trigger] s[k]),
        j == s.len() || !text::is_ws(s[j]),
    ensures
        ws_run(s, i) == j - i,
    decreases j - i,
{
    if i < j {
        lemma_ws_run(s, i + 1, j);
    }
}

/// End of the digit run of `v` starting at `i`.
fn digit_end(v: &[char], i: usize) -> (j: usize)
    requires
        i <= v@.len(),
    ensures
        j == i + digit_run(v@, i as int),
        j <= v@.len(),
{
    let mut j = i;
    while j < v.len() && is_decimal_digit(v[j])
        invariant
            i <= j <= v@.len(),
            forall|k: int| i <= k < j ==> decimal_digit(#[trigger] v@[k]),
        decreases v@.len() - j,
    {
        j += 1;
    }
    proof {
        lemma_digit_run(v@, i as int, j as int);
    }
    j
}

/// End of the non-whitespace run of `v` starting at `i`.
fn nonws_end(v: &[char], i: usize) -> (j: usize)
    requires
        i <= v@.len(),
    ensures
        j == i + nonws_run(v@, i as int),
        j <= v@.len(),
{
    let mut j = i;
    while j < v.len() && !is_whitespace(v[j])
        invariant
            i <= j <= v@.len(),
            forall|k: int| i <= k < j ==> !text::is_ws(#[trigger] v@[k]),
        decreases v@.len() - j,
    {
        j += 1;
    }
    proof {
        lemma_nonws_run(v@, i as int, j as int);
    }
    j
}

/// End of the whitespace run of `v` starting at `i`.
fn ws_end(v: &[char], i: usize) -> (j: usize)
    requires
        i <= v@.len(),
    ensures
        j == i + ws_run(v@, i as int),
        j <= v@.len(),
{
    let mut j = i;
    while j < v.len() && is_whitespace(v[j])
        invariant
            i <= j <= v@.len(),
            forall|k: int| i <= k < j ==> text::is_ws(#[trigger] v@[k]),
        decreases v@.len() - j,
    {
        j += 1;
    }
    proof {
        lemma_ws_run(v@, i as int, j as int);
    }
    j
}

/// `lit` (lower case) occurs at `i`, ignoring case as the `regex` crate's
/// `(?i)` does (Unicode simple case folding).
pub open spec fn ci_occurs_at(s: Seq<char>, lit: Seq<char>, i: int) -> bool {
    0 <= i && i + lit.len() <= s.len() && forall|k: int|
        0 <= k < lit.len() ==> crate::remote::folds_to(#[trigger] s[i + k], lit[k])
}

fn ci_matches_at(s: &[char], i: usize, lit: &str) -> (r: bool)
    requires
        i <= s@.len(),
    ensures
        r == ci_occurs_at(s@, lit@, i as int),
{
    let p = chars_of(lit);
    let n = s.len();
    if p.len() > n - i {
        return false;
    }
    let mut k: usize = 0;
    while k < p.len()
        invariant
            n == s@.len(),
            p@ == lit@,
            i + p@.len() <= n,
            k <= p@.len(),
            forall|j: int| 0 <= j < k ==> crate::remote::folds_to(#[trigger] s@[i + j], p@[j]),
        decreases p@.len() - k,
    {
        if !crate::remote::folds(s[i + k], p[k]) {
            return false;
        }
        k += 1;
    }
    true
}

fn occurs(s: &[char], i: usize, lit: &str) -> (r: bool)
    requires
        i <= s@.len(),
    ensures
        r == text::occurs_at(s@, lit@, i as int),
{
    let p = chars_of(lit);
    matches_at(s, i, &p)
}

// ---------------------------------------------------------------------------
// arXiv
// ---------------------------------------------------------------------------
/// Where the identifier starts: after an optional
/// `[http[s]://][www.]arxiv.org/{abs,pdf}/` prefix.
pub open spec fn arxiv_start(s: Seq<char>) -> int {
    let a = if text::occurs_at(s, "https://"@, 0) {
        8
    } else if text::occurs_at(s, "http://"@, 0) {
        7
    } else {
        0
    };
    let b = if text::occurs_at(s, "www."@, a) {
        a + 4
    } else {
        a
    };
    if text::occurs_at(s, "arxiv.org/abs/"@, b) || text::occurs_at(s, "arxiv.org/pdf/"@, b) {
        b + 14
    } else {
        0
    }
}

/// The identifier at `st`: `NNNN.NNNN[N]`, an optional `vN` version, then
/// nothing but an optional `.pdf`.
pub open spec fn arxiv_id_at(s: Seq<char>, st: int) -> Option<Seq<char>> {
    if digit_run(s, st) != 4 || !(st + 4 < s.len() && s[st + 4] == '.') {
        None
    } else {
        let d2 = digit_run(s, st + 5);
        if d2 < 4 || d2 > 5 {
            None
        } else {
            let p = st + 5 + d2;
            let vlen = if p < s.len() && s[p] == 'v' && digit_run(s, p + 1) >= 1 {
                1 + digit_run(s, p + 1)
            } else {
                0
            };
            let q = p + vlen;
            if q == s.len() || s.skip(q) == ".pdf"@ {
                Some(s.subrange(st, q))
            } else {
                None
            }
        }
    }
}

/// The arXiv identifier (with version) that `s` consists of.
pub open spec fn arxiv_id(s: Seq<char>) -> Option<Seq<char>> {
    arxiv_id_at(s, arxiv_start(s))
}

fn arxiv_id_from(s: &[char], st: usize) -> (r: Option<String>)
    requires
        st <= s@.len(),
    ensures
        text::opt_view(r) == arxiv_id_at(s@, st as int),
{
    let n = s.len();
    let e1 = digit_end(s, st);
    if e1 - st != 4 || !(e1 < n && s[e1] == '.') {
        return None;
    }
    let e2 = digit_end(s, st + 5);
    let d2 = e2 - (st + 5);
    if d2 < 4 || d2 > 5 {
        return None;
    }
    let p = e2;
    let q = if p < n && s[p] == 'v' && digit_end(s, p + 1) > p + 1 {
        digit_end(s, p + 1)
    } else {
        p
    };
    proof {
        reveal_strlit(".pdf");
    }
    let tail_ok = q == n || (n - q == 4 && occurs(s, q, ".pdf"));
    proof {
        if q < n {
            if n - q == 4 {
                assert(s@.skip(q as int) =~= s@.subrange(q as int, q + 4));
            } else {
                assert(s@.skip(q as int).len() != ".pdf"@.len());
            }
        }
    }
    if tail_ok {
        Some(string_from_range(s, st, q))
    } else {
        None
    }
}

fn arxiv_start_of(s: &[char]) -> (st: usize)
    ensures
        st == arxiv_start(s@),
        st <= s@.len(),
{
    proof {
        reveal_strlit("https://");
        reveal_strlit("http://");
        reveal_strlit("www.");
        reveal_strlit("arxiv.org/abs/");
        reveal_strlit("arxiv.org/pdf/");
    }
    let a: usize = if occurs(s, 0, "https://") {
        8
    } else if occurs(s, 0, "http://") {
        7
    } else {
        0
    };
    let b: usize = if a <= s.len() && occurs(s, a, "www.") {
        a + 4
    } else {
        a
    };
    if b <= s.len() && (occurs(s, b, "arxiv.org/abs/") || occurs(s, b, "arxiv.org/pdf/")) {
        b + 14
    } else {
        0
    }
}

/// Recognizes a bare arXiv identifier (`1706.03762`, `2301.12345v2`,
/// optionally followed by `.pdf`) or an arXiv `abs`/`pdf` URL, returning the
/// identifier with its version.
pub fn detect_arxiv_id(input: &str) -> (r: Option<String>)
    ensures
        text::opt_view(r) == arxiv_id(input@),
{
    let s = chars_of(input);
    let st = arxiv_start_of(&s);
    arxiv_id_from(&s, st)
}

// ---------------------------------------------------------------------------
// DOIs
// ---------------------------------------------------------------------------
/// End of a DOI (`10.` + 4 to 9 digits + `/` + non-whitespace) starting at
/// `i`, if one starts there.
pub open spec fn doi_end_at(s: Seq<char>, i: int) -> Option<int> {
    if text::occurs_at(s, "10."@, i) {
        let d = digit_run(s, i + 3);
        let slash = i + 3 + d;
        if 4 <= d <= 9 && slash < s.len() && s[slash] == '/' && nonws_run(s, slash + 1) >= 1 {
            Some(slash + 1 + nonws_run(s, slash + 1))
        } else {
            None
        }
    } else {
        None
    }
}

/// The leftmost DOI of `s` at or after `i`, as a range.
pub open spec fn first_doi_from(s: Seq<char>, i: int) -> Option<(int, int)>
    decreases s.len() + 1 - i,
{
    if i < 0 || i > s.len() {
        None
    } else if doi_end_at(s, i) is Some {
        Some((i, doi_end_at(s, i)->0))
    } else {
        first_doi_from(s, i + 1)
    }
}

/// The leftmost DOI in `s`.
pub open spec fn doi_in(s: Seq<char>) -> Option<Seq<char>> {
    match first_doi_from(s, 0) {
        Some((a, b)) => Some(s.subrange(a, b)),
        None => None,
    }
}

fn doi_end(s: &[char], i: usize) -> (r: Option<usize>)
    requires
        i <= s@.len(),
    ensures
        match r {
            Some(e) => doi_end_at(s@, i as int) == Some(e as int),
            None => doi_end_at(s@, i as int) is None,
        },
{
    proof {
        reveal_strlit("10.");
    }
    let n = s.len();
    if !occurs(s, i, "10.") {
        return None;
    }
    assert("10."@.len() == 3);
    let de = digit_end(s, i + 3);
    let d = de - (i + 3);
    if 4 <= d && d <= 9 && de < s.len() && s[de] == '/' {
        let we = nonws_end(s, de + 1);
        if we > de + 1 {
            return Some(we);
        }
    }
    None
}

proof fn lemma_first_doi_skip(s: Seq<char>, i: int, j: int)
    requires
        0 <= i <= j <= s.len() + 1,
        forall|k: int| i <= k < j ==> doi_end_at(s, k) is None,
    ensures
        first_doi_from(s, i) == first_doi_from(s, j),
    decreases j - i,
{
    if i < j {
        lemma_first_doi_skip(s, i + 1, j);
    }
}

fn find_doi(s: &[char]) -> (r: Option<(usize, usize)>)
    ensures
        match r {
            Some((a, b)) => first_doi_from(s@, 0) == Some((a as int, b as int)) && a <= b <= s@.len(),
            None => first_doi_from(s@, 0) is None,
        },
{
    let n = s.len();
    let mut i: usize = 0;
    while i <= n
        invariant
            n == s@.len(),
            i <= n + 1,
            forall|k: int| 0 <= k < i ==> doi_end_at(s@, k) is None,
        decreases n + 1 - i,
    {
        if let Some(e) = doi_end(s, i) {
            proof {
                lemma_first_doi_skip(s@, 0, i as int);
                lemma_nonws_bound(s@, 0);
            }
            assert(e <= n) by {
                let d = digit_run(s@, i + 3);
                lemma_nonws_bound(s@, i + 4 + d);
            }
            return Some((i, e));
        }
        if i == n {
            proof {
                lemma_first_doi_skip(s@, 0, n + 1);
            }
            return None;
        }
        i += 1;
    }
    proof {
        lemma_first_doi_skip(s@, 0, n + 1);
    }
    None
}

proof fn lemma_nonws_bound(s: Seq<char>, i: int)
    requires
        0 <= i,
    ensures
        i <= s.len() ==> i + nonws_run(s, i) <= s.len(),
    decreases s.len() - i,
{
    if 0 <= i < s.len() && !text::is_ws(s[i]) {
        lemma_nonws_bound(s, i + 1);
    }
}

/// Finds the first DOI (`10.NNNN/...`) anywhere in `input`.
pub fn detect_doi(input: &str) -> (r: Option<String>)
    ensures
        text::opt_view(r) == doi_in(input@),
{
    let s = chars_of(input);
    match find_doi(&s) {
        Some((a, b)) => Some(string_from_range(&s, a, b)),
        None => None,
    }
}

/// The host of `s` when `reqwest::Url::parse` accepts it.
pub uninterp spec fn url_host(s: Seq<char>) -> Option<Seq<char>>;

/// `reqwest::Url::parse(s)` followed by `host_str`.
#[verifier::external_body]
fn parse_host(s: &str) -> (r: Option<String>)
    ensures
        text::opt_view(r) == url_host(s@),
{
    match reqwest::Url::parse(s) {
        Ok(url) => url.host_str().map(|h| h.to_string()),
        Err(_) => None,
    }
}

/// The DOI of a `doi.org` or `dx.doi.org` resolver URL.
pub open spec fn doi_url(s: Seq<char>) -> Option<Seq<char>> {
    match url_host(s) {
        Some(h) => if h == "doi.org"@ || h == "dx.doi.org"@ {
            doi_in(s)
        } else {
            None
        },
        None => None,
    }
}

/// Recognizes a DOI resolver URL and returns the DOI it names.
pub fn detect_doi_url(input: &str) -> (r: Option<String>)
    ensures
        text::opt_view(r) == doi_url(input@),
{
    let host = parse_host(input)?;
    if crate::storage::str_eq(host.as_str(), "doi.org") || crate::storage::str_eq(
        host.as_str(),
        "dx.doi.org",
    ) {
        detect_doi(input)
    } else {
        None
    }
}

/// What `urlencoding::decode` returns for `s`: the percent-decoded text, or
/// `None` when the decoded bytes are not UTF-8.
pub uninterp spec fn percent_decoded(s: Seq<char>) -> Option<Seq<char>>;

/// `urlencoding::decode`. Its source returns the input unchanged when it
/// holds no `%`.
#[verifier::external_body]
fn decode_url(s: &str) -> (r: Option<String>)
    ensures
        text::opt_view(r) == percent_decoded(s@),
        !text::has_char(s@, '%') ==> text::opt_view(r) == Some(s@),
{
    match urlencoding::decode(s) {
        Ok(decoded) => Some(decoded.into_owned()),
        Err(_) => None,
    }
}

/// Index of the first `?`, `#` or `&`, or `s.len()`.
pub open spec fn separator_index(s: Seq<char>) -> nat
    decreases s.len(),
{
    if s.len() == 0 || s[0] == '?' || s[0] == '#' || s[0] == '&' {
        0
    } else {
        1 + separator_index(s.drop_first())
    }
}

pub open spec fn url_trailer(c: char) -> bool {
    c == '.' || c == ',' || c == ';' || c == ')' || c == '/'
}

/// `s` without trailing `.`, `,`, `;`, `)` and `/`.
pub open spec fn strip_trailers(s: Seq<char>) -> Seq<char>
    decreases s.len(),
{
    if s.len() > 0 && url_trailer(s.last()) {
        strip_trailers(s.drop_last())
    } else {
        s
    }
}

/// A DOI embedded in a URL's path or query: the first DOI of the decoded
/// URL, cut at `?`, `#` or `&`, without trailing separators and `.pdf`.
pub open spec fn doi_in_url(url: Seq<char>) -> Option<Seq<char>> {
    let decoded = match percent_decoded(url) {
        Some(d) => d,
        None => url,
    };
    match doi_in(decoded) {
        Some(doi) => {
            let cut = doi.take(separator_index(doi) as int);
            let t = strip_trailers(cut);
            let u = if text::ends_with(t, ".pdf"@) {
                t.take(t.len() - 4)
            } else {
                t
            };
            if u.len() > 3 {
                Some(u)
            } else {
                None
            }
        },
        None => None,
    }
}

proof fn lemma_separator_index(s: Seq<char>, k: int)
    requires
        0 <= k <= s.len(),
        forall|j: int| 0 <= j < k ==> !(#[trigger] s[j] == '?' || s[j] == '#' || s[j] == '&'),
        k == s.len() || s[k] == '?' || s[k] == '#' || s[k] == '&',
    ensures
        separator_index(s) == k,
    decreases k,
{
    if k > 0 {
        assert forall|j: int| 0 <= j < k - 1 implies !(#[trigger] s.drop_first()[j] == '?'
            || s.drop_first()[j] == '#' || s.drop_first()[j] == '&') by {
            assert(s.drop_first()[j] == s[j + 1]);
        }
        lemma_separator_index(s.drop_first(), k - 1);
    }
}

proof fn lemma_strip_trailers_take(s: Seq<char>, i: int)
    requires
        0 <= i <= s.len(),
        forall|j: int| i <= j < s.len() ==> url_trailer(#[trigger] s[j]),
    ensures
        strip_trailers(s) == strip_trailers(s.take(i)),
    decreases s.len() - i,
{
    if i < s.len() {
        assert(s.drop_last().take(i) =~= s.take(i));
        lemma_strip_trailers_take(s.drop_last(), i);
    } else {
        assert(s.take(i) =~= s);
    }
}

/// Extracts a DOI embedded anywhere in a URL's path or query (e.g. a PLoS
/// `?id=10.1371/...` link), trimming URL separators and a trailing `.pdf`.
pub fn detect_doi_in_url(url: &str) -> (r: Option<String>)
    ensures
        text::opt_view(r) == doi_in_url(url@),
{
    let decoded = match decode_url(url) {
        Some(d) => d,
        None => url.to_owned(),
    };
    let doi = detect_doi(decoded.as_str())?;
    let v = chars_of(doi.as_str());
    let mut k: usize = 0;
    while k < v.len() && !(v[k] == '?' || v[k] == '#' || v[k] == '&')
        invariant
            k <= v@.len(),
            forall|j: int| 0 <= j < k ==> !(#[trigger] v@[j] == '?' || v@[j] == '#' || v@[j] == '&'),
        decreases v@.len() - k,
    {
        k += 1;
    }
    proof {
        lemma_separator_index(v@, k as int);
    }
    let mut e = k;
    while e > 0 && (v[e - 1] == '.' || v[e - 1] == ',' || v[e - 1] == ';' || v[e - 1] == ')'
        || v[e - 1] == '/')
        invariant
            e <= k <= v@.len(),
            forall|j: int| e <= j < k ==> url_trailer(#[trigger] v@[j]),
        decreases e,
    {
        e -= 1;
    }
    proof {
        let cut = v@.take(k as int);
        assert forall|j: int| e <= j < cut.len() implies url_trailer(#[trigger] cut[j]) by {
            assert(cut[j] == v@[j]);
        }
        lemma_strip_trailers_take(cut, e as int);
        assert(cut.take(e as int) =~= v@.take(e as int));
        let t = v@.take(e as int);
        if t.len() > 0 {
            assert(!url_trailer(t.last()));
        }
        assert(strip_trailers(t) == t);
        reveal_strlit(".pdf");
    }
    let end = if e >= 4 && occurs(&v, e - 4, ".pdf") {
        e - 4
    } else {
        e
    };
    proof {
        let t = v@.take(e as int);
        if e >= 4 {
            assert(t.skip(e - 4) =~= v@.subrange(e - 4, e as int));
        }
        assert(t.take(end as int) =~= v@.take(end as int));
    }
    if end > 3 {
        let r = string_from_range(&v, 0, end);
        assert(r@ =~= v@.take(end as int));
        Some(r)
    } else {
        None
    }
}

// ---------------------------------------------------------------------------
// PubMed Central and PubMed
// ---------------------------------------------------------------------------
/// Index just after `http://` or `https://` (any case), or -1.
pub open spec fn after_scheme(s: Seq<char>) -> int {
    if ci_occurs_at(s, "https://"@, 0) {
        8
    } else if ci_occurs_at(s, "http://"@, 0) {
        7
    } else {
        -1
    }
}

/// Index after an optional `www.` (any case) at `i`.
pub open spec fn after_www(s: Seq<char>, i: int) -> int {
    if ci_occurs_at(s, "www."@, i) {
        i + 4
    } else {
        i
    }
}

/// No line feed in `s` from `i` on.
pub open spec fn no_newline_from(s: Seq<char>, i: int) -> bool {
    forall|j: int| i <= j < s.len() ==> s[j] != '\n'
}

/// The PMC identifier of a `pmc.ncbi.nlm.nih.gov/articles/PMCnnn[/...]`
/// article URL (letters in any case), in upper case.
pub open spec fn pmc_id(s: Seq<char>) -> Option<Seq<char>> {
    let a = after_scheme(s);
    let b = after_www(s, a);
    let d = b + 30;
    if a < 0 || !ci_occurs_at(s, "pmc.ncbi.nlm.nih.gov/articles/"@, b) || !ci_occurs_at(
        s,
        "pmc"@,
        d,
    ) {
        None
    } else {
        let n = digit_run(s, d + 3);
        let e = d + 3 + n;
        if n >= 1 && (e == s.len() || (s[e] == '/' && no_newline_from(s, e))) {
            Some("PMC"@ + s.subrange(d + 3, e))
        } else {
            None
        }
    }
}

fn scheme_end(s: &[char]) -> (a: Option<usize>)
    ensures
        match a {
            Some(i) => after_scheme(s@) == i && i <= s@.len(),
            None => after_scheme(s@) == -1,
        },
{
    proof {
        reveal_strlit("https://");
        reveal_strlit("http://");
    }
    if ci_matches_at(s, 0, "https://") {
        Some(8)
    } else if ci_matches_at(s, 0, "http://") {
        Some(7)
    } else {
        None
    }
}

fn www_end(s: &[char], i: usize) -> (b: usize)
    requires
        i <= s@.len(),
    ensures
        b == after_www(s@, i as int),
        b <= s@.len(),
{
    proof {
        reveal_strlit("www.");
    }
    let n = s.len();
    if ci_matches_at(s, i, "www.") {
        i + 4
    } else {
        i
    }
}

fn newline_free(s: &[char], i: usize) -> (r: bool)
    requires
        i <= s@.len(),
    ensures
        r == no_newline_from(s@, i as int),
{
    let mut j = i;
    while j < s.len()
        invariant
            i <= j <= s@.len(),
            forall|k: int| i <= k < j ==> s@[k] != '\n',
        decreases s@.len() - j,
    {
        if s[j] == '\n' {
            return false;
        }
        j += 1;
    }
    true
}

/// Recognizes a PubMed Central article URL and returns its `PMC` ID.
pub fn detect_pmc_id(input: &str) -> (r: Option<String>)
    ensures
        text::opt_view(r) == pmc_id(input@),
{
    let s = chars_of(input);
    let a = scheme_end(&s)?;
    let b = www_end(&s, a);
    proof {
        reveal_strlit("pmc.ncbi.nlm.nih.gov/articles/");
        reveal_strlit("pmc");
    }
    if !ci_matches_at(&s, b, "pmc.ncbi.nlm.nih.gov/articles/") {
        return None;
    }
    let d = b + 30;
    if !ci_matches_at(&s, d, "pmc") {
        return None;
    }
    let e = digit_end(&s, d + 3);
    if e > d + 3 && (e == s.len() || (s[e] == '/' && newline_free(&s, e))) {
        let mut r = "PMC".to_owned();
        let digits = string_from_range(&s, d + 3, e);
        push_str(&mut r, digits.as_str());
        Some(r)
    } else {
        None
    }
}

/// The PubMed ID of a `pubmed.ncbi.nlm.nih.gov/<pmid>[/]` URL or a
/// `PMID:<pmid>` string (any case), with 4 to 9 digits.
pub open spec fn pmid(s: Seq<char>) -> Option<Seq<char>> {
    let a = after_scheme(s);
    let b = after_www(s, a);
    let d = b + 24;
    let n = digit_run(s, d);
    let e = d + n;
    if a >= 0 && ci_occurs_at(s, "pubmed.ncbi.nlm.nih.gov/"@, b) && 4 <= n <= 9 && (e == s.len()
        || (e + 1 == s.len() && s[e] == '/')) {
        Some(s.subrange(d, e))
    } else {
        let w: int = 5 + ws_run(s, 5) as int;
        let m: int = digit_run(s, w) as int;
        if ci_occurs_at(s, "pmid:"@, 0) && 4 <= m <= 9 && w + m == s.len() {
            Some(s.subrange(w, w + m))
        } else {
            None
        }
    }
}

/// Recognizes a PubMed article, either as a `pubmed.ncbi.nlm.nih.gov/<pmid>`
/// URL or a `PMID:<n>` string, and returns the bare PMID.
pub fn detect_pmid(input: &str) -> (r: Option<String>)
    ensures
        text::opt_view(r) == pmid(input@),
{
    let s = chars_of(input);
    let n = s.len();
    proof {
        reveal_strlit("pubmed.ncbi.nlm.nih.gov/");
        reveal_strlit("pmid:");
    }
    if let Some(a) = scheme_end(&s) {
        let b = www_end(&s, a);
        if ci_matches_at(&s, b, "pubmed.ncbi.nlm.nih.gov/") {
            let d = b + 24;
            let e = digit_end(&s, d);
            if 4 <= e - d && e - d <= 9 && (e == n || (e + 1 == n && s[e] == '/')) {
                return Some(string_from_range(&s, d, e));
            }
        }
    }
    if ci_matches_at(&s, 0, "pmid:") {
        let w = ws_end(&s, 5);
        let e = digit_end(&s, w);
        if 4 <= e - w && e - w <= 9 && e == n {
            return Some(string_from_range(&s, w, e));
        }
    }
    None
}

// ---------------------------------------------------------------------------
// Titles and PDFs
// ---------------------------------------------------------------------------
/// Whether `char::is_alphanumeric` holds of `c`.
pub uninterp spec fn alphanumeric(c: char) -> bool;

/// `char::is_alphanumeric`.
#[verifier::external_body]
pub(crate) fn is_alphanumeric(c: char) -> (b: bool)
    ensures
        b == alphanumeric(c),
{
    c.is_alphanumeric()
}

/// The characters of `s` that are alphanumeric or whitespace.
pub open spec fn letters_and_spaces(s: Seq<char>) -> Seq<char>
    decreases s.len(),
{
    if s.len() == 0 {
        seq![]
    } else {
        let rest = letters_and_spaces(s.drop_last());
        if alphanumeric(s.last()) || text::is_ws(s.last()) {
            rest.push(s.last())
        } else {
            rest
        }
    }
}

/// A title reduced for comparison: lower case, punctuation dropped,
/// whitespace collapsed.
pub open spec fn title_key(s: Seq<char>) -> Seq<char> {
    text::collapse_ws(letters_and_spaces(text::lowercase(s)))
}

/// Two titles name the same work: their keys are non-empty and one starts
/// with the other.
pub open spec fn same_title(a: Seq<char>, b: Seq<char>) -> bool {
    let na = title_key(a);
    let nb = title_key(b);
    na.len() > 0 && nb.len() > 0 && (na == nb || text::starts_with(na, nb) || text::starts_with(
        nb,
        na,
    ))
}

fn title_key_of(s: &str) -> (r: String)
    ensures
        r@ == title_key(s@),
{
    let lower = to_lowercase(s);
    let v = chars_of(lower.as_str());
    let mut kept = String::new();
    let mut i: usize = 0;
    while i < v.len()
        invariant
            i <= v@.len(),
            kept@ == letters_and_spaces(v@.take(i as int)),
        decreases v@.len() - i,
    {
        proof {
            assert(v@.take(i + 1).drop_last() =~= v@.take(i as int));
        }
        if is_alphanumeric(v[i]) || is_whitespace(v[i]) {
            text::push_char(&mut kept, v[i]);
        }
        i += 1;
    }
    assert(v@.take(v@.len() as int) =~= v@);
    text::collapse_whitespace(kept.as_str())
}

/// Whether a search result's title matches the requested one.
pub fn titles_match(a: &str, b: &str) -> (r: bool)
    ensures
        r == same_title(a@, b@),
{
    let na = title_key_of(a);
    let nb = title_key_of(b);
    if na.as_str().is_empty() || nb.as_str().is_empty() {
        return false;
    }
    na == nb || text::str_starts_with(na.as_str(), nb.as_str()) || text::str_starts_with(
        nb.as_str(),
        na.as_str(),
    )
}

/// The bytes begin with the PDF signature `%PDF-`.
pub open spec fn pdf_signature(bytes: Seq<u8>) -> bool {
    bytes.len() >= 5 && bytes[0] == 0x25 && bytes[1] == 0x50 && bytes[2] == 0x44 && bytes[3] == 0x46
        && bytes[4] == 0x2d
}

/// Whether downloaded content is a PDF (starts with `%PDF-`).
pub fn is_pdf_bytes(bytes: &[u8]) -> (r: bool)
    ensures
        r == pdf_signature(bytes@),
{
    bytes.len() >= 5 && bytes[0] == 0x25 && bytes[1] == 0x50 && bytes[2] == 0x44 && bytes[3] == 0x46
        && bytes[4] == 0x2d
}

} // verus!
