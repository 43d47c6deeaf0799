//! Importing a Polaris library: its documents become entries, and with
//! `--force` entries already imported from the same file take Polaris's
//! title, authors and tags.
use vstd::prelude::*;

use crate::add::trimmed_nonblank;
use crate::metadata::{split_from, split_str, trim_nonblank_all};
use crate::model::{RefView, Reference, ReferenceKind};
use crate::text;

verus! {

/// A document of the Polaris database.
#[derive(Debug, Clone)]
pub struct PolarisRecord {
    pub title: String,
    pub author: Option<String>,
    pub filename: String,
    pub tags: Vec<String>,
}

/// Polaris keeps authors in one field, separated by semicolons.
pub open spec fn polaris_authors(author: Option<String>) -> Seq<Seq<char>> {
    match author {
        Some(a) => trimmed_nonblank(split_from(a@, seq![';'], 0)),
        None => Seq::empty(),
    }
}

/// The authors of a Polaris document: its author field split at
/// semicolons, each trimmed, blanks dropped.
pub fn authors_of(author: &Option<String>) -> (r: Vec<String>)
    ensures
        text::views(r@) == polaris_authors(*author),
{
    match author {
        Some(a) => {
            proof {
                reveal_strlit(";");
                assert(";"@ =~= seq![';']);
            }
            trim_nonblank_all(&split_str(a.as_str(), ";"))
        },
        None => {
            let r: Vec<String> = Vec::new();
            assert(text::views(r@) =~= Seq::<Seq<char>>::empty());
            r
        },
    }
}

/// The entry made for a document not yet in the library: a paper with its
/// title, authors and tags, and its file.
pub fn new_entry(record: &PolarisRecord) -> (r: Reference)
    ensures
        r.kind == ReferenceKind::Paper,
        r.title@ == record.title@,
        text::views(r.authors@) == polaris_authors(record.author),
        r.year is None && r.doi is None && r.arxiv is None && r.journal is None,
        r.edition is None && r.publisher is None && r.series is None,
        r.isbn@.len() == 0,
        text::views(r.tags@) == text::views(record.tags@),
        text::views(r.files@) == seq![record.filename@],
        r.abstract_text is None,
{
    let mut r = Reference::titled(record.title.clone());
    r.authors = authors_of(&record.author);
    r.tags = crate::model::clone_strings(&record.tags);
    let mut files: Vec<String> = Vec::new();
    files.push(record.filename.clone());
    assert(text::views(files@) =~= seq![record.filename@]);
    r.files = files;
    r
}

/// An entry already imported from the document, refreshed with Polaris's
/// title, authors and tags; everything else kept.
pub fn refreshed(existing: &Reference, record: &PolarisRecord) -> (r: Reference)
    ensures
        r@ == (RefView {
            title: record.title@,
            authors: polaris_authors(record.author),
            tags: text::views(record.tags@),
            ..existing@
        }),
{
    let mut r = existing.copy();
    r.title = record.title.clone();
    r.authors = authors_of(&record.author);
    r.tags = crate::model::clone_strings(&record.tags);
    r
}

} // verus!
