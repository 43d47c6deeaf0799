//! Editing an entry's metadata from the command line, and reporting which
//! fields an edit or an enrichment changes.
use vstd::prelude::*;

use crate::model::{clone_strings, RefView, Reference, ReferenceKind};
use crate::text::{self, clone_opt, eq_ignore_ascii_case};

verus! {

/// The edits asked for by `update`: a new value for a field, or its
/// clearing, and tags to add and remove.
#[derive(Debug, Clone)]
pub struct UpdateRequest {
    pub title: Option<String>,
    pub authors: Vec<String>,
    pub clear_authors: bool,
    pub year: Option<u16>,
    pub clear_year: bool,
    pub doi: Option<String>,
    pub clear_doi: bool,
    pub arxiv: Option<String>,
    pub clear_arxiv: bool,
    pub journal: Option<String>,
    pub clear_journal: bool,
    pub abstract_text: Option<String>,
    pub clear_abstract: bool,
    pub add_tags: Vec<String>,
    pub remove_tags: Vec<String>,
}

/// An `update` that asks for nothing.
#[derive(Debug, Clone, Copy, PartialEq, Eq, Structural)]
pub enum UpdateError {
    NothingRequested,
}

impl UpdateError {
    pub fn message(&self) -> (m: &'static str)
        ensures
            m@ == "No metadata changes were requested"@,
    {
        "No metadata changes were requested"
    }
}

/// Some edit was asked for.
pub open spec fn requested(u: UpdateRequest) -> bool {
    u.title is Some || u.authors@.len() > 0 || u.clear_authors || u.year is Some || u.clear_year || u.doi is Some
        || u.clear_doi || u.arxiv is Some || u.clear_arxiv || u.journal is Some || u.clear_journal
        || u.abstract_text is Some || u.clear_abstract || u.add_tags@.len() > 0 || u.remove_tags@.len() > 0
}

/// A field's new value: the one given, else none when cleared, else the
/// old one.
pub open spec fn edited(old: Option<Seq<char>>, given: Option<String>, clear: bool) -> Option<Seq<char>> {
    match given {
        Some(v) => Some(v@),
        None => if clear {
            None
        } else {
            old
        },
    }
}

/// `tag` matches one of `list`, ignoring ASCII case.
pub open spec fn listed_ci(list: Seq<Seq<char>>, tag: Seq<char>) -> bool {
    exists|k: int| 0 <= k < list.len() && text::eq_ascii_ci(#[trigger] list[k], tag)
}

/// The tags kept: those not named for removal (ignoring ASCII case), in
/// order.
pub open spec fn kept_tags(tags: Seq<Seq<char>>, remove: Seq<Seq<char>>) -> Seq<Seq<char>>
    decreases tags.len(),
{
    if tags.len() == 0 {
        tags
    } else if listed_ci(remove, tags.last()) {
        kept_tags(tags.drop_last(), remove)
    } else {
        kept_tags(tags.drop_last(), remove).push(tags.last())
    }
}

/// The tags after adding `add` in order, each unless a tag already there
/// matches it ignoring ASCII case.
pub open spec fn added_tags(tags: Seq<Seq<char>>, add: Seq<Seq<char>>) -> Seq<Seq<char>>
    decreases add.len(),
{
    if add.len() == 0 {
        tags
    } else {
        let before = added_tags(tags, add.drop_last());
        if listed_ci(before, add.last()) {
            before
        } else {
            before.push(add.last())
        }
    }
}

/// Every tag asked to be added is present after the update, as given or as a
/// tag that matches it ignoring ASCII case; and the tags already there stay,
/// in front and in order.
pub proof fn lemma_added_tags_present(tags: Seq<Seq<char>>, add: Seq<Seq<char>>)
    ensures
        forall|k: int| 0 <= k < add.len() ==> listed_ci(added_tags(tags, add), #[trigger] add[k]),
        added_tags(tags, add).len() >= tags.len(),
        added_tags(tags, add).subrange(0, tags.len() as int) == tags,
    decreases add.len(),
{
    if add.len() > 0 {
        let before = added_tags(tags, add.drop_last());
        lemma_added_tags_present(tags, add.drop_last());
        let after = added_tags(tags, add);
        assert forall|k: int| 0 <= k < add.len() implies listed_ci(after, #[trigger] add[k]) by {
            if k < add.len() - 1 {
                assert(add.drop_last()[k] == add[k]);
                let w = choose|j: int| 0 <= j < before.len() && text::eq_ascii_ci(#[trigger] before[j], add[k]);
                if !listed_ci(before, add.last()) {
                    assert(after[w] == before[w]);
                }
            } else if !listed_ci(before, add.last()) {
                assert(after[before.len() as int] == add.last());
                assert(text::eq_ascii_ci(after[before.len() as int], add[k]));
            }
        }
        assert(after.subrange(0, tags.len() as int) =~= tags) by {
            assert(before.subrange(0, tags.len() as int) =~= tags);
        }
    }
}

/// The entry after the edits.
pub open spec fn updated(r: RefView, u: UpdateRequest) -> RefView {
    RefView {
        title: match u.title {
            Some(t) => t@,
            None => r.title,
        },
        authors: if u.authors@.len() > 0 {
            text::views(u.authors@)
        } else if u.clear_authors {
            Seq::empty()
        } else {
            r.authors
        },
        year: if u.year is Some {
            u.year
        } else if u.clear_year {
            None
        } else {
            r.year
        },
        doi: edited(r.doi, u.doi, u.clear_doi),
        arxiv: edited(r.arxiv, u.arxiv, u.clear_arxiv),
        journal: edited(r.journal, u.journal, u.clear_journal),
        abstract_text: edited(r.abstract_text, u.abstract_text, u.clear_abstract),
        tags: added_tags(kept_tags(r.tags, text::views(u.remove_tags@)), text::views(u.add_tags@)),
        ..r
    }
}

fn edit_opt(old: &Option<String>, given: &Option<String>, clear: bool) -> (r: Option<String>)
    ensures
        text::opt_view(r) == edited(text::opt_view(*old), *given, clear),
{
    match given {
        Some(v) => Some(v.clone()),
        None => if clear {
            None
        } else {
            clone_opt(old)
        },
    }
}

fn matches_any(list: &Vec<String>, tag: &str) -> (b: bool)
    ensures
        b == listed_ci(text::views(list@), tag@),
{
    let mut k: usize = 0;
    while k < list.len()
        invariant
            k <= list@.len(),
            forall|j: int| 0 <= j < k ==> !text::eq_ascii_ci(#[trigger] text::views(list@)[j], tag@),
        decreases list@.len() - k,
    {
        if eq_ignore_ascii_case(list[k].as_str(), tag) {
            assert(text::views(list@)[k as int] == list@[k as int]@);
            return true;
        }
        k += 1;
    }
    false
}

/// Applies the edits to `reference`; refused when nothing is asked for.
pub fn apply_update(reference: &Reference, u: &UpdateRequest) -> (r: Result<Reference, UpdateError>)
    ensures
        match r {
            Ok(v) => requested(*u) && v@ == updated(reference@, *u),
            Err(_) => !requested(*u),
        },
{
    if !(u.title.is_some() || u.authors.len() > 0 || u.clear_authors || u.year.is_some() || u.clear_year
        || u.doi.is_some() || u.clear_doi || u.arxiv.is_some() || u.clear_arxiv || u.journal.is_some()
        || u.clear_journal || u.abstract_text.is_some() || u.clear_abstract || u.add_tags.len() > 0
        || u.remove_tags.len() > 0) {
        return Err(UpdateError::NothingRequested);
    }
    let mut v = reference.copy();
    if let Some(t) = &u.title {
        v.title = t.clone();
    }
    if u.authors.len() > 0 {
        v.authors = clone_strings(&u.authors);
    } else if u.clear_authors {
        v.authors = Vec::new();
    }
    if let Some(y) = u.year {
        v.year = Some(y);
    } else if u.clear_year {
        v.year = None;
    }
    v.doi = edit_opt(&reference.doi, &u.doi, u.clear_doi);
    v.arxiv = edit_opt(&reference.arxiv, &u.arxiv, u.clear_arxiv);
    v.journal = edit_opt(&reference.journal, &u.journal, u.clear_journal);
    v.abstract_text = edit_opt(&reference.abstract_text, &u.abstract_text, u.clear_abstract);
    let mut tags: Vec<String> = Vec::new();
    let mut i: usize = 0;
    while i < reference.tags.len()
        invariant
            i <= reference.tags@.len(),
            text::views(tags@) == kept_tags(text::views(reference.tags@).take(i as int), text::views(u.remove_tags@)),
        decreases reference.tags@.len() - i,
    {
        proof {
            let t = text::views(reference.tags@).take(i + 1);
            assert(t.drop_last() =~= text::views(reference.tags@).take(i as int));
            assert(t.last() == reference.tags@[i as int]@);
        }
        if !matches_any(&u.remove_tags, reference.tags[i].as_str()) {
            tags.push(reference.tags[i].clone());
            assert(text::views(tags@) =~= kept_tags(text::views(reference.tags@).take(i + 1), text::views(u.remove_tags@)));
        }
        i += 1;
    }
    assert(text::views(reference.tags@).take(reference.tags@.len() as int) =~= text::views(reference.tags@));
    let ghost kept = text::views(tags@);
    let mut j: usize = 0;
    while j < u.add_tags.len()
        invariant
            j <= u.add_tags@.len(),
            text::views(tags@) == added_tags(kept, text::views(u.add_tags@).take(j as int)),
        decreases u.add_tags@.len() - j,
    {
        proof {
            let t = text::views(u.add_tags@).take(j + 1);
            assert(t.drop_last() =~= text::views(u.add_tags@).take(j as int));
            assert(t.last() == u.add_tags@[j as int]@);
        }
        if !matches_any(&tags, u.add_tags[j].as_str()) {
            tags.push(u.add_tags[j].clone());
            assert(text::views(tags@) =~= added_tags(kept, text::views(u.add_tags@).take(j + 1)));
        }
        j += 1;
    }
    assert(text::views(u.add_tags@).take(u.add_tags@.len() as int) =~= text::views(u.add_tags@));
    v.tags = tags;
    proof {
        assert(text::views(u.authors@) == text::views(v.authors@) || u.authors@.len() == 0);
        if u.authors@.len() == 0 && u.clear_authors {
            assert(text::views(v.authors@) =~= Seq::<Seq<char>>::empty());
        }
    }
    Ok(v)
}

/// `name` alone when `differs`, else nothing.
pub open spec fn named_if(differs: bool, name: Seq<char>) -> Seq<Seq<char>> {
    if differs {
        seq![name]
    } else {
        Seq::empty()
    }
}

/// The names of the saved fields that differ between two versions of an
/// entry, in the order a JSON object of it lists them (sorted by name). The
/// kind is saved only for books and the ISBN list only when non-empty, so
/// those two count only when both versions save them.
pub open spec fn changed_field_names(a: RefView, b: RefView) -> Seq<Seq<char>> {
    named_if(a.abstract_text != b.abstract_text, "abstract"@)
        + named_if(a.arxiv != b.arxiv, "arxiv"@)
        + named_if(a.authors != b.authors, "authors"@)
        + named_if(a.doi != b.doi, "doi"@)
        + named_if(a.edition != b.edition, "edition"@)
        + named_if(a.files != b.files, "files"@)
        + named_if(a.isbn.len() > 0 && b.isbn.len() > 0 && a.isbn != b.isbn, "isbn"@)
        + named_if(a.journal != b.journal, "journal"@)
        + named_if(
        a.kind != ReferenceKind::Paper && b.kind != ReferenceKind::Paper && a.kind != b.kind,
        "kind"@,
    ) + named_if(a.publisher != b.publisher, "publisher"@)
        + named_if(a.series != b.series, "series"@)
        + named_if(a.tags != b.tags, "tags"@)
        + named_if(a.title != b.title, "title"@)
        + named_if(a.year != b.year, "year"@)
}

fn push_if(r: &mut Vec<&'static str>, differs: bool, name: &'static str)
    ensures
        final(r)@.map_values(|s: &'static str| s@) == old(r)@.map_values(|s: &'static str| s@)
            + named_if(differs, name@),
{
    if differs {
        r.push(name);
    }
    proof {
        assert(final(r)@.map_values(|s: &'static str| s@) =~= old(r)@.map_values(|s: &'static str| s@)
            + named_if(differs, name@));
    }
}

fn same_opt(a: &Option<String>, b: &Option<String>) -> (r: bool)
    ensures
        r == (text::opt_view(*a) == text::opt_view(*b)),
{
    match (a, b) {
        (Some(x), Some(y)) => crate::storage::str_eq(x.as_str(), y.as_str()),
        (None, None) => true,
        _ => false,
    }
}

fn same_list(a: &Vec<String>, b: &Vec<String>) -> (r: bool)
    ensures
        r == (text::views(a@) == text::views(b@)),
{
    if a.len() != b.len() {
        assert(text::views(a@).len() != text::views(b@).len());
        return false;
    }
    let mut i: usize = 0;
    while i < a.len()
        invariant
            a@.len() == b@.len(),
            i <= a@.len(),
            forall|k: int| 0 <= k < i ==> a@[k]@ == b@[k]@,
        decreases a@.len() - i,
    {
        if !crate::storage::str_eq(a[i].as_str(), b[i].as_str()) {
            assert(text::views(a@)[i as int] != text::views(b@)[i as int]);
            return false;
        }
        i += 1;
    }
    assert(text::views(a@) =~= text::views(b@));
    true
}

/// The fields that differ between two versions of an entry, by name: those
/// saved for both versions, in the order their JSON form lists them.
#[verifier::rlimit(30)]
pub fn changed_fields(before: &Reference, after: &Reference) -> (r: Vec<&'static str>)
    ensures
        r@.map_values(|s: &'static str| s@) == changed_field_names(before@, after@),
{
    let a = before;
    let b = after;
    let mut r: Vec<&'static str> = Vec::new();
    assert(r@.map_values(|s: &'static str| s@) =~= Seq::<Seq<char>>::empty());
    push_if(&mut r, !same_opt(&a.abstract_text, &b.abstract_text), "abstract");
    assert(r@.map_values(|s: &'static str| s@) =~= named_if(a@.abstract_text != b@.abstract_text, "abstract"@));
    push_if(&mut r, !same_opt(&a.arxiv, &b.arxiv), "arxiv");
    push_if(&mut r, !same_list(&a.authors, &b.authors), "authors");
    push_if(&mut r, !same_opt(&a.doi, &b.doi), "doi");
    push_if(&mut r, !same_opt(&a.edition, &b.edition), "edition");
    push_if(&mut r, !same_list(&a.files, &b.files), "files");
    let isbn = a.isbn.len() > 0 && b.isbn.len() > 0 && !same_list(&a.isbn, &b.isbn);
    push_if(&mut r, isbn, "isbn");
    push_if(&mut r, !same_opt(&a.journal, &b.journal), "journal");
    let kind = a.kind != ReferenceKind::Paper && b.kind != ReferenceKind::Paper && a.kind != b.kind;
    push_if(&mut r, kind, "kind");
    push_if(&mut r, !same_opt(&a.publisher, &b.publisher), "publisher");
    push_if(&mut r, !same_opt(&a.series, &b.series), "series");
    push_if(&mut r, !same_list(&a.tags, &b.tags), "tags");
    push_if(&mut r, !crate::storage::str_eq(a.title.as_str(), b.title.as_str()), "title");
    push_if(&mut r, a.year != b.year, "year");
    assert(r@.map_values(|s: &'static str| s@) =~= changed_field_names(a@, b@));
    r
}

} // verus!
