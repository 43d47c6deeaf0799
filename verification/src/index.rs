//! What the full-text search index stores for a reference, and how a search
//! query is put to it.
use vstd::prelude::*;

use crate::model::Reference;
use crate::text::{self, chars_of, clone_opt, join_strings, push_char, split_words};

verus! {

/// One row of the search index, column by column.
#[derive(Debug, Clone, PartialEq)]
pub struct IndexRow {
    pub dir_name: String,
    pub title: String,
    /// Authors joined with `"; "`.
    pub authors: String,
    pub year: Option<u16>,
    pub doi: Option<String>,
    pub arxiv: Option<String>,
    pub journal: Option<String>,
    /// Tags joined with `", "`.
    pub tags: String,
    pub abstract_text: Option<String>,
    /// File names joined with `", "`.
    pub files: String,
    /// Text extracted from the entry's PDF, when there is one.
    pub fulltext: Option<String>,
}

/// The file whose text is indexed: the first one the entry lists.
pub fn fulltext_source(reference: &Reference) -> (f: Option<String>)
    ensures
        match f {
            Some(name) => reference.files@.len() > 0 && name@ == reference.files@[0]@,
            None => reference.files@.len() == 0,
        },
{
    if reference.files.len() > 0 {
        Some(reference.files[0].clone())
    } else {
        None
    }
}

/// The index row for the entry in `dir_name` with the given extracted text.
pub fn index_reference(dir_name: &str, reference: &Reference, fulltext: Option<String>) -> (row: IndexRow)
    ensures
        row.dir_name@ == dir_name@,
        row.title@ == reference.title@,
        row.authors@ == text::join(text::views(reference.authors@), "; "@),
        row.year == reference.year,
        row.doi == reference.doi,
        row.arxiv == reference.arxiv,
        row.journal == reference.journal,
        row.tags@ == text::join(text::views(reference.tags@), ", "@),
        row.abstract_text == reference.abstract_text,
        row.files@ == text::join(text::views(reference.files@), ", "@),
        row.fulltext == fulltext,
{
    IndexRow {
        dir_name: dir_name.to_string(),
        title: reference.title.clone(),
        authors: join_strings(reference.authors.as_slice(), "; "),
        year: reference.year,
        doi: clone_opt(&reference.doi),
        arxiv: clone_opt(&reference.arxiv),
        journal: clone_opt(&reference.journal),
        tags: join_strings(reference.tags.as_slice(), ", "),
        abstract_text: clone_opt(&reference.abstract_text),
        files: join_strings(reference.files.as_slice(), ", "),
        fulltext,
    }
}

/// `s` without any occurrence of `c`.
pub open spec fn remove_char(s: Seq<char>, c: char) -> Seq<char>
    decreases s.len(),
{
    if s.len() == 0 {
        s
    } else if s.last() == c {
        remove_char(s.drop_last(), c)
    } else {
        remove_char(s.drop_last(), c).push(s.last())
    }
}

/// A search word as a quoted phrase: its own double quotes dropped, then
/// wrapped in double quotes.
pub open spec fn phrase(w: Seq<char>) -> Seq<char> {
    seq!['"'] + remove_char(w, '"') + seq!['"']
}

/// The full-text query for the words of `q`: each as a phrase, joined by
/// spaces.
pub open spec fn phrase_query(q: Seq<char>) -> Seq<char> {
    text::join(text::words(q).map_values(|w: Seq<char>| phrase(w)), seq![' '])
}

/// A search query with nothing but whitespace in it.
#[derive(Debug, Clone, Copy, PartialEq, Eq, Structural)]
pub enum SearchError {
    EmptyQuery,
}

impl SearchError {
    pub fn message(&self) -> (m: &'static str)
        ensures
            m@ == "Search query cannot be empty"@,
    {
        "Search query cannot be empty"
    }
}

fn quoted_phrase(w: &str) -> (s: String)
    ensures
        s@ == phrase(w@),
{
    let v = chars_of(w);
    let mut s = String::new();
    push_char(&mut s, '"');
    let mut i: usize = 0;
    while i < v.len()
        invariant
            v@ == w@,
            i <= v@.len(),
            s@ == seq!['"'] + remove_char(v@.take(i as int), '"'),
        decreases v@.len() - i,
    {
        proof {
            assert(v@.take(i + 1).drop_last() =~= v@.take(i as int));
            assert(v@.take(i + 1).last() == v@[i as int]);
        }
        if v[i] != '"' {
            push_char(&mut s, v[i]);
            assert(s@ =~= seq!['"'] + remove_char(v@.take(i + 1), '"'));
        }
        i += 1;
    }
    assert(v@.take(v@.len() as int) =~= v@);
    push_char(&mut s, '"');
    assert(s@ =~= phrase(w@));
    s
}

/// The full-text query for a search: every word quoted as a phrase. Fails
/// on a query of only whitespace.
pub fn fts_query(query: &str) -> (r: Result<String, SearchError>)
    ensures
        match r {
            Ok(q) => text::words(query@).len() > 0 && q@ == phrase_query(query@),
            Err(_) => text::words(query@).len() == 0,
        },
{
    let v = chars_of(query);
    let ws = split_words(&v, 0, v.len());
    assert(v@.subrange(0, v@.len() as int) =~= v@);
    if ws.len() == 0 {
        return Err(SearchError::EmptyQuery);
    }
    let mut quoted: Vec<String> = Vec::new();
    let mut i: usize = 0;
    while i < ws.len()
        invariant
            text::views(ws@) == text::words(query@),
            i <= ws@.len(),
            quoted@.len() == i,
            forall|j: int| 0 <= j < i ==> #[trigger] quoted@[j]@ == phrase(ws@[j]@),
        decreases ws@.len() - i,
    {
        let p = quoted_phrase(ws[i].as_str());
        quoted.push(p);
        i += 1;
    }
    assert(text::views(quoted@) =~= text::views(ws@).map_values(|w: Seq<char>| phrase(w)));
    proof {
        reveal_strlit(" ");
        assert(" "@ =~= seq![' ']);
    }
    Ok(join_strings(quoted.as_slice(), " "))
}

/// The hits kept for a search with an optional limit.
pub fn limit_hits<T>(hits: Vec<T>, limit: Option<usize>) -> (r: Vec<T>)
    ensures
        r@ == crate::cli::limited(hits@, limit),
{
    let mut hits = hits;
    if let Some(n) = limit {
        hits.truncate(n);
    }
    hits
}

} // verus!
