//! Filling in missing metadata from a fetched record.
use vstd::prelude::*;

use crate::fetch;
use crate::model::{clone_strings, RefView, Reference};
use crate::text::{self, clone_opt};

verus! {

/// Which service is asked for fresh metadata.
#[derive(Debug, Clone, Copy, PartialEq, Eq, Structural)]
pub enum SourceKind {
    /// The arXiv API, by identifier.
    Arxiv,
    /// CrossRef, by DOI.
    Doi,
    /// A CrossRef title search.
    Title,
}

/// A metadata lookup: the service and the key to look up.
#[derive(Debug, Clone, PartialEq)]
pub struct EnrichSource {
    pub kind: SourceKind,
    pub key: String,
}

/// The arXiv identifier of the first attached file whose name is one.
pub open spec fn file_arxiv_id(files: Seq<String>) -> Option<Seq<char>>
    decreases files.len(),
{
    if files.len() == 0 {
        None
    } else if fetch::arxiv_id(files[0]@) is Some {
        fetch::arxiv_id(files[0]@)
    } else {
        file_arxiv_id(files.drop_first())
    }
}

/// The arXiv identifier the entry itself carries: its `arxiv` field, else one
/// in the name of an attached file.
pub open spec fn own_arxiv_id(r: Reference) -> Option<Seq<char>> {
    match r.arxiv {
        Some(a) => Some(a@),
        None => file_arxiv_id(r.files@),
    }
}

/// `x` as a one-element list when `c` holds.
pub open spec fn listed_if(c: bool, x: (SourceKind, Seq<char>)) -> Seq<(SourceKind, Seq<char>)> {
    if c {
        seq![x]
    } else {
        seq![]
    }
}

/// The lookups an entry calls for, in the order it was most likely imported,
/// each one a fallback for those before it: its arXiv ID (or one in a file
/// name), its DOI, an arXiv ID in the directory name (when the entry carries
/// none itself), and finally a title search.
pub open spec fn enrich_plan(dir_name: Seq<char>, r: Reference) -> Seq<(SourceKind, Seq<char>)> {
    listed_if(own_arxiv_id(r) is Some, (SourceKind::Arxiv, own_arxiv_id(r)->0))
        + listed_if(r.doi is Some, (SourceKind::Doi, r.doi->0@))
        + listed_if(
        own_arxiv_id(r) is None && fetch::arxiv_id(dir_name) is Some,
        (SourceKind::Arxiv, fetch::arxiv_id(dir_name)->0),
    ) + listed_if(r.title@.len() > 0, (SourceKind::Title, r.title@))
}

/// The lookups as the plan speaks of them.
pub open spec fn source_views(v: Seq<EnrichSource>) -> Seq<(SourceKind, Seq<char>)> {
    v.map_values(|s: EnrichSource| (s.kind, s.key@))
}

fn first_file_arxiv(files: &Vec<String>) -> (r: Option<String>)
    ensures
        text::opt_view(r) == file_arxiv_id(files@),
{
    let mut i: usize = 0;
    assert(files@.skip(0) =~= files@);
    while i < files.len()
        invariant
            i <= files@.len(),
            file_arxiv_id(files@) == file_arxiv_id(files@.skip(i as int)),
        decreases files@.len() - i,
    {
        proof {
            assert(files@.skip(i as int)[0] == files@[i as int]);
            assert(files@.skip(i as int).drop_first() =~= files@.skip(i + 1));
        }
        let id = fetch::detect_arxiv_id(files[i].as_str());
        if id.is_some() {
            return id;
        }
        i += 1;
    }
    None
}

fn push_source(v: &mut Vec<EnrichSource>, c: bool, kind: SourceKind, key: String)
    ensures
        source_views(final(v)@) == source_views(old(v)@) + listed_if(c, (kind, key@)),
{
    let ghost before = source_views(v@);
    if c {
        v.push(EnrichSource { kind, key });
    }
    assert(source_views(v@) =~= before + listed_if(c, (kind, key@)));
}

/// The lookups to try, in order, for the entry in directory `dir_name`;
/// empty when nothing identifies it.
pub fn enrich_sources(dir_name: &str, r: &Reference) -> (v: Vec<EnrichSource>)
    ensures
        source_views(v@) == enrich_plan(dir_name@, *r),
{
    assert(r.files@.skip(0) =~= r.files@);
    let own = match &r.arxiv {
        Some(a) => Some(a.clone()),
        None => first_file_arxiv(&r.files),
    };
    let mut v: Vec<EnrichSource> = Vec::new();
    assert(source_views(v@) =~= Seq::<(SourceKind, Seq<char>)>::empty());
    let has_own = own.is_some();
    match own {
        Some(id) => push_source(&mut v, true, SourceKind::Arxiv, id),
        None => push_source(&mut v, false, SourceKind::Arxiv, String::new()),
    }
    let ghost after_own = source_views(v@);
    assert(after_own =~= listed_if(own_arxiv_id(*r) is Some, (SourceKind::Arxiv, own_arxiv_id(*r)->0)));
    match &r.doi {
        Some(d) => push_source(&mut v, true, SourceKind::Doi, d.clone()),
        None => push_source(&mut v, false, SourceKind::Doi, String::new()),
    }
    assert(source_views(v@) =~= after_own + listed_if(r.doi is Some, (SourceKind::Doi, r.doi->0@)));
    let ghost after_doi = source_views(v@);
    let dir_id = fetch::detect_arxiv_id(dir_name);
    match dir_id {
        Some(id) => push_source(&mut v, !has_own, SourceKind::Arxiv, id),
        None => push_source(&mut v, false, SourceKind::Arxiv, String::new()),
    }
    assert(source_views(v@) =~= after_doi + listed_if(
        own_arxiv_id(*r) is None && fetch::arxiv_id(dir_name@) is Some,
        (SourceKind::Arxiv, fetch::arxiv_id(dir_name@)->0),
    ));
    let ghost after_dir = source_views(v@);
    push_source(&mut v, !r.title.as_str().is_empty(), SourceKind::Title, r.title.clone());
    assert(source_views(v@) =~= after_dir + listed_if(r.title@.len() > 0, (SourceKind::Title, r.title@)));
    v
}

/// What follows the lookup `at` of a plan of `count` lookups.
pub enum LookupStep {
    /// The lookup resolved: the entry with its missing fields filled in.
    Enriched(Reference),
    /// It failed; try lookup number `n` next.
    Try(usize),
    /// It failed and it was the last: no source resolves.
    Unresolved,
}

/// After lookup `at` of `count` gave `fetched` (nothing when it failed): the
/// entry merged with the record when there is one, else the next lookup,
/// else the end.
pub fn next_lookup(r: &Reference, count: usize, at: usize, fetched: Option<Reference>) -> (s: LookupStep)
    requires
        at < count,
    ensures
        match fetched {
            Some(f) => s matches LookupStep::Enriched(u) && u@ == merged(r@, f@),
            None => if at + 1 < count {
                s == LookupStep::Try((at + 1) as usize)
            } else {
                s is Unresolved
            },
        },
{
    match enrich_entry(r, fetched) {
        Some(u) => LookupStep::Enriched(u),
        None => if at + 1 < count {
            LookupStep::Try(at + 1)
        } else {
            LookupStep::Unresolved
        },
    }
}

/// `r` with its missing fields taken from `f`: a missing or zero year, an
/// empty author list, and a missing abstract, DOI, arXiv ID or journal.
pub open spec fn merged(r: RefView, f: RefView) -> RefView {
    RefView {
        year: if r.year is None || r.year == Some(0u16) {
            f.year
        } else {
            r.year
        },
        authors: if r.authors.len() == 0 {
            f.authors
        } else {
            r.authors
        },
        abstract_text: if r.abstract_text is None {
            f.abstract_text
        } else {
            r.abstract_text
        },
        doi: if r.doi is None {
            f.doi
        } else {
            r.doi
        },
        arxiv: if r.arxiv is None {
            f.arxiv
        } else {
            r.arxiv
        },
        journal: if r.journal is None {
            f.journal
        } else {
            r.journal
        },
        ..r
    }
}

/// Merges freshly fetched metadata into an entry: a copy of `r` with any
/// *missing* fields filled in from `fetched`. `None` when nothing was
/// fetched.
pub fn enrich_entry(r: &Reference, fetched: Option<Reference>) -> (u: Option<Reference>)
    ensures
        match fetched {
            Some(f) => u matches Some(v) && v@ == merged(r@, f@),
            None => u is None,
        },
{
    let f = match fetched {
        Some(f) => f,
        None => return None,
    };
    let mut updated = r.copy();
    if updated.year.is_none() || updated.year == Some(0u16) {
        updated.year = f.year;
    }
    if updated.authors.len() == 0 {
        updated.authors = clone_strings(&f.authors);
    }
    if updated.abstract_text.is_none() {
        updated.abstract_text = clone_opt(&f.abstract_text);
    }
    if updated.doi.is_none() {
        updated.doi = clone_opt(&f.doi);
    }
    if updated.arxiv.is_none() {
        updated.arxiv = clone_opt(&f.arxiv);
    }
    if updated.journal.is_none() {
        updated.journal = clone_opt(&f.journal);
    }
    assert(updated@ == merged(r@, f@));
    Some(updated)
}

/// Enrichment is purely additive: every value the entry already has is kept,
/// and only empty fields can change.
pub proof fn lemma_enrich_is_additive(r: RefView, f: RefView)
    ensures
        merged(r, f).title == r.title,
        merged(r, f).kind == r.kind,
        merged(r, f).tags == r.tags,
        merged(r, f).files == r.files,
        merged(r, f).isbn == r.isbn,
        merged(r, f).edition == r.edition,
        merged(r, f).publisher == r.publisher,
        merged(r, f).series == r.series,
        r.year is Some && r.year != Some(0u16) ==> merged(r, f).year == r.year,
        r.authors.len() > 0 ==> merged(r, f).authors == r.authors,
        r.abstract_text is Some ==> merged(r, f).abstract_text == r.abstract_text,
        r.doi is Some ==> merged(r, f).doi == r.doi,
        r.arxiv is Some ==> merged(r, f).arxiv == r.arxiv,
        r.journal is Some ==> merged(r, f).journal == r.journal,
{
}

/// Enriching again from the same record changes nothing more.
pub proof fn lemma_enrich_is_idempotent(r: RefView, f: RefView)
    ensures
        merged(merged(r, f), f) == merged(r, f),
{
}

} // verus!
