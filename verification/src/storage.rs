//! Naming of library directories and detection of duplicate references.
use vstd::prelude::*;

use crate::model::Reference;
use crate::text::{
    self, chars_of, push_decimal, push_str, split_words, string_from_range, to_lowercase, trim_bounds,
    trim_str,
};

verus! {

// ---------------------------------------------------------------------------
// Outside behaviour
// ---------------------------------------------------------------------------
/// Whether `char::is_alphabetic` holds of `c` (the Unicode `Alphabetic`
/// property).
pub uninterp spec fn alphabetic(c: char) -> bool;

/// `char::is_alphabetic`.
#[verifier::external_body]
pub(crate) fn is_alphabetic(c: char) -> (b: bool)
    ensures
        b == alphabetic(c),
{
    c.is_alphabetic()
}

/// What `slug::slugify` returns for `s`.
pub uninterp spec fn slugified(s: Seq<char>) -> Seq<char>;

/// A character that may appear in a slug.
pub open spec fn slug_char(c: char) -> bool {
    ('a' <= c && c <= 'z') || ('0' <= c && c <= '9') || c == '-'
}

/// `slug::slugify`. Its documentation promises an ASCII slug made of `a-z`,
/// `0-9` and `-`, without leading or trailing `-` and without `--`; the
/// transliteration of other characters is left to the name `slugified`.
#[verifier::external_body]
pub(crate) fn slugify(s: &str) -> (r: String)
    ensures
        r@ == slugified(s@),
        forall|i: int| 0 <= i < r@.len() ==> slug_char(#[trigger] r@[i]),
        r@.len() > 0 ==> r@[0] != '-' && r@.last() != '-',
        forall|i: int| 0 <= i < r@.len() - 1 ==> !(#[trigger] r@[i] == '-' && r@[i + 1] == '-'),
{
    slug::slugify(s)
}

// ---------------------------------------------------------------------------
// Surnames
// ---------------------------------------------------------------------------
/// `s` without trailing dots (`str::trim_end_matches('.')`).
pub open spec fn strip_dots(s: Seq<char>) -> Seq<char>
    decreases s.len(),
{
    if s.len() > 0 && s.last() == '.' {
        strip_dots(s.drop_last())
    } else {
        s
    }
}

/// A single-letter name token such as `M.`, `O.` or `R`.
pub open spec fn initial(t: Seq<char>) -> bool {
    strip_dots(t).len() == 1 && alphabetic(strip_dots(t)[0])
}

/// Index of the last occurrence of `c` in `s`, or -1.
pub open spec fn last_index_of(s: Seq<char>, c: char) -> int
    decreases s.len(),
{
    if s.len() == 0 {
        -1
    } else if s.last() == c {
        s.len() - 1
    } else {
        last_index_of(s.drop_last(), c)
    }
}

/// Index of the first token that is not an initial, or `t.len()`.
pub open spec fn first_non_initial(t: Seq<Seq<char>>) -> nat
    decreases t.len(),
{
    if t.len() == 0 || !initial(t[0]) {
        0
    } else {
        1 + first_non_initial(t.drop_first())
    }
}

/// The surname that keys an author name: the text before the last comma for
/// `Family, Given`; otherwise the final token, unless that is an initial
/// (`Wahba George M.`), in which case the first token that is not one.
pub open spec fn surname(s: Seq<char>) -> Seq<char> {
    let t = text::words(s);
    if last_index_of(s, ',') >= 0 {
        text::trim(s.take(last_index_of(s, ',')))
    } else if t.len() == 0 {
        s
    } else if t.len() > 1 && initial(t.last()) && first_non_initial(t) < t.len() {
        t[first_non_initial(t) as int]
    } else {
        t.last()
    }
}

proof fn lemma_strip_dots_take(s: Seq<char>, i: int)
    requires
        0 <= i <= s.len(),
        forall|j: int| i <= j < s.len() ==> #[trigger] s[j] == '.',
    ensures
        strip_dots(s) == strip_dots(s.take(i)),
    decreases s.len() - i,
{
    if i < s.len() {
        assert(s.drop_last().take(i) =~= s.take(i));
        lemma_strip_dots_take(s.drop_last(), i);
    } else {
        assert(s.take(i) =~= s);
    }
}

proof fn lemma_last_index_take(s: Seq<char>, c: char, i: int)
    requires
        0 <= i <= s.len(),
        forall|j: int| i <= j < s.len() ==> #[trigger] s[j] != c,
    ensures
        last_index_of(s, c) == last_index_of(s.take(i), c),
    decreases s.len() - i,
{
    if i < s.len() {
        assert(s.drop_last().take(i) =~= s.take(i));
        lemma_last_index_take(s.drop_last(), c, i);
    } else {
        assert(s.take(i) =~= s);
    }
}

proof fn lemma_first_non_initial(t: Seq<Seq<char>>, i: int)
    requires
        0 <= i <= t.len(),
        forall|j: int| 0 <= j < i ==> initial(#[trigger] t[j]),
        i == t.len() || !initial(t[i]),
    ensures
        first_non_initial(t) == i,
    decreases i,
{
    if i > 0 {
        assert forall|j: int| 0 <= j < i - 1 implies initial(#[trigger] t.drop_first()[j]) by {
            assert(t.drop_first()[j] == t[j + 1]);
        }
        lemma_first_non_initial(t.drop_first(), i - 1);
    }
}

/// True for a single-letter name token such as `M.`, `O.` or `R`, which is an
/// initial rather than a surname.
pub fn is_initial(token: &str) -> (b: bool)
    ensures
        b == initial(token@),
{
    let v = chars_of(token);
    let mut end = v.len();
    while end > 0 && v[end - 1] == '.'
        invariant
            end <= v@.len(),
            forall|j: int| end <= j < v@.len() ==> #[trigger] v@[j] == '.',
        decreases end,
    {
        end -= 1;
    }
    proof {
        lemma_strip_dots_take(v@, end as int);
        let u = v@.take(end as int);
        if u.len() > 0 {
            assert(u.last() != '.');
        }
        assert(strip_dots(u) == u);
    }
    end == 1 && is_alphabetic(v[0])
}

/// The surname of an author name (see `surname`).
pub fn last_name(author: &str) -> (r: String)
    ensures
        r@ == surname(author@),
{
    let v = chars_of(author);
    let mut k = v.len();
    while k > 0 && v[k - 1] != ','
        invariant
            k <= v@.len(),
            v@ == author@,
            forall|j: int| k <= j < v@.len() ==> #[trigger] v@[j] != ',',
        decreases k,
    {
        k -= 1;
    }
    proof {
        lemma_last_index_take(v@, ',', k as int);
    }
    if k > 0 {
        let (a, b) = trim_bounds(&v, 0, k - 1);
        proof {
            assert(v@.take(k as int).last() == ',');
            assert(last_index_of(v@, ',') == k - 1);
            assert(v@.subrange(0, k - 1) =~= v@.take(k - 1));
        }
        return string_from_range(&v, a, b);
    }
    proof {
        assert(v@.take(0) =~= Seq::<char>::empty());
        assert(last_index_of(v@, ',') == -1);
        assert(v@.subrange(0, v@.len() as int) =~= v@);
    }
    let tokens = split_words(&v, 0, v.len());
    let ghost t = text::words(author@);
    assert(text::views(tokens@) == t);
    let n = tokens.len();
    if n == 0 {
        return author.to_owned();
    }
    assert(t.last() == tokens@[n - 1]@);
    if n > 1 && is_initial(tokens[n - 1].as_str()) {
        let mut i: usize = 0;
        while i < n
            invariant
                n == tokens@.len(),
                n > 1,
                t == text::words(author@),
                last_index_of(author@, ',') < 0,
                initial(t.last()),
                text::views(tokens@) == t,
                i <= n,
                forall|j: int| 0 <= j < i ==> initial(#[trigger] t[j]),
            decreases n - i,
        {
            assert(t[i as int] == tokens@[i as int]@);
            if !is_initial(tokens[i].as_str()) {
                proof {
                    lemma_first_non_initial(t, i as int);
                }
                return tokens[i].clone();
            }
            i += 1;
        }
        proof {
            lemma_first_non_initial(t, n as int);
        }
    }
    tokens[n - 1].clone()
}

// ---------------------------------------------------------------------------
// Directory names
// ---------------------------------------------------------------------------
/// Small words that never name a directory.
pub open spec fn is_stopword(w: Seq<char>) -> bool {
    let l = text::lowercase(w);
    ||| l == "a"@
    ||| l == "an"@
    ||| l == "the"@
    ||| l == "on"@
    ||| l == "of"@
    ||| l == "for"@
    ||| l == "in"@
    ||| l == "to"@
    ||| l == "and"@
    ||| l == "with"@
}

/// Index of the first word that is not a stopword, or `ws.len()`.
pub open spec fn first_content_word(ws: Seq<Seq<char>>) -> nat
    decreases ws.len(),
{
    if ws.len() == 0 || !is_stopword(ws[0]) {
        0
    } else {
        1 + first_content_word(ws.drop_first())
    }
}

/// The text a directory name is made from:
/// `{first-author surname}-{year}-{first title word}`.
pub open spec fn dir_name_source(r: Reference) -> Seq<char> {
    let author = if r.authors@.len() > 0 {
        surname(r.authors@[0]@)
    } else {
        "unknown"@
    };
    let year = match r.year {
        Some(y) => text::decimal(y as nat),
        None => "0000"@,
    };
    let ws = text::words(r.title@);
    let word = if first_content_word(ws) < ws.len() {
        ws[first_content_word(ws) as int]
    } else {
        "untitled"@
    };
    author + "-"@ + year + "-"@ + word
}

proof fn lemma_first_content_word(ws: Seq<Seq<char>>, i: int)
    requires
        0 <= i <= ws.len(),
        forall|j: int| 0 <= j < i ==> is_stopword(#[trigger] ws[j]),
        i == ws.len() || !is_stopword(ws[i]),
    ensures
        first_content_word(ws) == i,
    decreases i,
{
    if i > 0 {
        assert forall|j: int| 0 <= j < i - 1 implies is_stopword(#[trigger] ws.drop_first()[j]) by {
            assert(ws.drop_first()[j] == ws[j + 1]);
        }
        lemma_first_content_word(ws.drop_first(), i - 1);
    }
}

proof fn lemma_skipped_words(ws: Seq<Seq<char>>)
    ensures
        first_content_word(ws) <= ws.len(),
        forall|j: int| 0 <= j < first_content_word(ws) ==> is_stopword(#[trigger] ws[j]),
        first_content_word(ws) < ws.len() ==> !is_stopword(ws[first_content_word(ws) as int]),
    decreases ws.len(),
{
    if ws.len() > 0 && is_stopword(ws[0]) {
        lemma_skipped_words(ws.drop_first());
        assert forall|j: int| 0 <= j < first_content_word(ws) implies is_stopword(#[trigger] ws[j]) by {
            if j > 0 {
                assert(ws[j] == ws.drop_first()[j - 1]);
            }
        }
    }
}

/// The title part of a directory name is the first title word that is not,
/// ignoring case, one of a, an, the, on, of, for, in, to, and, with
/// (`untitled` when there is none): every word before it is one of them,
/// and it is none of them.
pub proof fn directory_word_skips_small_words(r: Reference)
    ensures
        ({
            let ws = text::words(r.title@);
            let k = first_content_word(ws) as int;
            &&& k <= ws.len()
            &&& forall|j: int|
                0 <= j < k ==> {
                    let l = text::lowercase(#[trigger] ws[j]);
                    ||| l == "a"@
                    ||| l == "an"@
                    ||| l == "the"@
                    ||| l == "on"@
                    ||| l == "of"@
                    ||| l == "for"@
                    ||| l == "in"@
                    ||| l == "to"@
                    ||| l == "and"@
                    ||| l == "with"@
                }
            &&& k < ws.len() ==> {
                let l = text::lowercase(ws[k]);
                &&& l != "a"@
                &&& l != "an"@
                &&& l != "the"@
                &&& l != "on"@
                &&& l != "of"@
                &&& l != "for"@
                &&& l != "in"@
                &&& l != "to"@
                &&& l != "and"@
                &&& l != "with"@
            }
            &&& text::ends_with(
                dir_name_source(r),
                "-"@ + if k < ws.len() {
                    ws[k]
                } else {
                    "untitled"@
                },
            )
        }),
{
    let ws = text::words(r.title@);
    lemma_skipped_words(ws);
    let k = first_content_word(ws) as int;
    let word = if k < ws.len() {
        ws[k]
    } else {
        "untitled"@
    };
    let src = dir_name_source(r);
    let tail = "-"@ + word;
    assert(src.skip(src.len() - tail.len()) =~= tail);
}

/// Compares two strings character by character.
pub fn str_eq(a: &str, b: &str) -> (r: bool)
    ensures
        r == (a@ == b@),
{
    let x = chars_of(a);
    let y = chars_of(b);
    if x.len() != y.len() {
        return false;
    }
    let mut i: usize = 0;
    while i < x.len()
        invariant
            x@ == a@,
            y@ == b@,
            x@.len() == y@.len(),
            i <= x@.len(),
            forall|j: int| 0 <= j < i ==> x@[j] == y@[j],
        decreases x@.len() - i,
    {
        if x[i] != y[i] {
            return false;
        }
        i += 1;
    }
    assert(x@ =~= y@);
    true
}

fn stopword(w: &str) -> (b: bool)
    ensures
        b == is_stopword(w@),
{
    let l = to_lowercase(w);
    let l = l.as_str();
    str_eq(l, "a") || str_eq(l, "an") || str_eq(l, "the") || str_eq(l, "on") || str_eq(l, "of")
        || str_eq(l, "for") || str_eq(l, "in") || str_eq(l, "to") || str_eq(l, "and") || str_eq(
        l,
        "with",
    )
}

/// The directory name of a new reference: the slug of
/// `{first-author surname}-{year}-{first title word}`.
pub fn make_dir_name(reference: &Reference) -> (r: String)
    ensures
        r@ == slugified(dir_name_source(*reference)),
{
    let mut source = if reference.authors.len() > 0 {
        last_name(reference.authors[0].as_str())
    } else {
        "unknown".to_owned()
    };
    push_str(&mut source, "-");
    match reference.year {
        Some(y) => push_decimal(&mut source, y as u64),
        None => push_str(&mut source, "0000"),
    }
    push_str(&mut source, "-");
    let title = chars_of(reference.title.as_str());
    let ws = split_words(&title, 0, title.len());
    assert(title@.subrange(0, title@.len() as int) =~= title@);
    let ghost wv = text::words(reference.title@);
    let mut i: usize = 0;
    while i < ws.len() && stopword(ws[i].as_str())
        invariant
            text::views(ws@) == wv,
            i <= ws@.len(),
            forall|j: int| 0 <= j < i ==> is_stopword(#[trigger] wv[j]),
        decreases ws@.len() - i,
    {
        assert(wv[i as int] == ws@[i as int]@);
        i += 1;
    }
    proof {
        if i < ws@.len() {
            assert(wv[i as int] == ws@[i as int]@);
        }
        lemma_first_content_word(wv, i as int);
    }
    if i < ws.len() {
        push_str(&mut source, ws[i].as_str());
    } else {
        push_str(&mut source, "untitled");
    }
    assert(source@ =~= dir_name_source(*reference));
    slugify(source.as_str())
}

/// The name tried when `name` is taken: `{name}-{n}`.
pub fn numbered_dir_name(name: &str, n: u64) -> (r: String)
    ensures
        r@ == name@ + "-"@ + text::decimal(n as nat),
{
    let mut r = name.to_owned();
    push_str(&mut r, "-");
    push_decimal(&mut r, n);
    r
}

// ---------------------------------------------------------------------------
// Duplicates
// ---------------------------------------------------------------------------
/// Which key identified a duplicate.
#[derive(Debug, Clone, Copy, PartialEq, Eq, Structural)]
pub enum DuplicateMatch {
    Doi,
    Title,
}

impl DuplicateMatch {
    /// `"doi"` or `"title"`.
    pub fn as_str(&self) -> (s: &'static str)
        ensures
            s@ == match self {
                DuplicateMatch::Doi => "doi"@,
                DuplicateMatch::Title => "title"@,
            },
    {
        match self {
            DuplicateMatch::Doi => "doi",
            DuplicateMatch::Title => "title",
        }
    }
}

/// A value compared case-insensitively after trimming.
pub open spec fn norm(s: Seq<char>) -> Seq<char> {
    text::lowercase(text::trim(s))
}

/// `Some(norm(d))` for a DOI that is not blank.
pub open spec fn wanted_doi(r: Reference) -> Option<Seq<char>> {
    match r.doi {
        Some(d) => if norm(d@).len() > 0 {
            Some(norm(d@))
        } else {
            None
        },
        None => None,
    }
}

/// `Some(norm(title))` for a title that is not blank.
pub open spec fn wanted_title(r: Reference) -> Option<Seq<char>> {
    if norm(r.title@).len() > 0 {
        Some(norm(r.title@))
    } else {
        None
    }
}

/// `existing` carries the DOI of `r` (compared after trimming and case
/// folding; a blank DOI matches nothing).
pub open spec fn doi_match(r: Reference, existing: Reference) -> bool {
    wanted_doi(r) is Some && existing.doi is Some && norm(existing.doi->0@) == wanted_doi(r)->0
}

/// `existing` carries the title of `r` (compared after trimming and case
/// folding; a blank title matches nothing).
pub open spec fn title_match(r: Reference, existing: Reference) -> bool {
    wanted_title(r) is Some && norm(existing.title@) == wanted_title(r)->0
}

fn normalized_key(s: &str) -> (r: String)
    ensures
        r@ == norm(s@),
{
    let t = trim_str(s);
    to_lowercase(t.as_str())
}

/// The entry of `existing` (the readable entries of the library, in
/// directory order) that `reference` duplicates, with the key that matched:
/// the DOI is the most reliable key, so the first entry with the same DOI is
/// taken when there is one; only otherwise the first entry with the same
/// title.
pub fn find_duplicate(existing: &[Reference], reference: &Reference) -> (r: Option<
    (usize, DuplicateMatch),
>)
    ensures
        match r {
            Some((i, DuplicateMatch::Doi)) => {
                &&& i < existing@.len()
                &&& doi_match(*reference, existing@[i as int])
                &&& forall|j: int| 0 <= j < i ==> !doi_match(*reference, #[trigger] existing@[j])
            },
            Some((i, DuplicateMatch::Title)) => {
                &&& i < existing@.len()
                &&& title_match(*reference, existing@[i as int])
                &&& forall|j: int| 0 <= j < existing@.len() ==> !doi_match(*reference, #[trigger] existing@[j])
                &&& forall|j: int| 0 <= j < i ==> !title_match(*reference, #[trigger] existing@[j])
            },
            None => forall|j: int|
                0 <= j < existing@.len() ==> !doi_match(*reference, #[trigger] existing@[j])
                    && !title_match(*reference, existing@[j]),
        },
{
    let want_doi: Option<String> = match &reference.doi {
        Some(d) => {
            let n = normalized_key(d.as_str());
            if !n.as_str().is_empty() {
                Some(n)
            } else {
                None
            }
        },
        None => None,
    };
    let title = normalized_key(reference.title.as_str());
    let want_title: Option<String> = if !title.as_str().is_empty() {
        Some(title)
    } else {
        None
    };
    assert(text::opt_view(want_doi) == wanted_doi(*reference));
    assert(text::opt_view(want_title) == wanted_title(*reference));
    let mut i: usize = 0;
    while i < existing.len()
        invariant
            i <= existing@.len(),
            text::opt_view(want_doi) == wanted_doi(*reference),
            forall|j: int| 0 <= j < i ==> !doi_match(*reference, #[trigger] existing@[j]),
        decreases existing@.len() - i,
    {
        if let Some(doi) = &want_doi {
            if let Some(d) = &existing[i].doi {
                let n = normalized_key(d.as_str());
                if n == *doi {
                    return Some((i, DuplicateMatch::Doi));
                }
            }
        }
        i += 1;
    }
    let mut i: usize = 0;
    while i < existing.len()
        invariant
            i <= existing@.len(),
            text::opt_view(want_title) == wanted_title(*reference),
            forall|j: int| 0 <= j < existing@.len() ==> !doi_match(*reference, #[trigger] existing@[j]),
            forall|j: int| 0 <= j < i ==> !title_match(*reference, #[trigger] existing@[j]),
        decreases existing@.len() - i,
    {
        if let Some(t) = &want_title {
            let n = normalized_key(existing[i].title.as_str());
            if n == *t {
                return Some((i, DuplicateMatch::Title));
            }
        }
        i += 1;
    }
    None
}

} // verus!
