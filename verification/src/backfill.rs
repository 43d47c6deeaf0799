//! Filling in missing PDFs and abstracts of existing entries: which entries
//! have gaps, what each attempt reports, and the totals.
use vstd::prelude::*;

use crate::model::Reference;
use crate::text::{self, decimal, join_strings, push_decimal, push_str};

verus! {

/// What a backfill run should do.
#[derive(Debug, Clone, Copy)]
pub struct Options {
    /// Try to download a PDF for entries that have none.
    pub pdfs: bool,
    /// Fetch metadata for entries missing an abstract.
    pub abstracts: bool,
    /// Only count the gaps, touching neither the network nor the disk.
    pub check: bool,
    /// No progress lines on standard output.
    pub quiet: bool,
}

/// What one entry's backfill came to.
#[derive(Debug, Clone)]
pub struct BackfillItem {
    pub key: String,
    pub status: String,
}

/// The outcome of a backfill run.
#[derive(Debug, Clone)]
pub enum BackfillReport {
    /// The counts of a check-only run.
    Check { total: usize, missing_pdf: usize, missing_pdf_with_doi: usize, missing_abstract: usize },
    /// The counts and per-entry lines of a run that fetched.
    Apply {
        total: usize,
        considered: usize,
        pdfs_added: usize,
        abstracts_added: usize,
        unresolved: usize,
        items: Vec<BackfillItem>,
    },
}

/// A library entry as the scan sees it: its metadata (`None` when
/// `info.toml` could not be read) and whether a PDF lies in its directory.
#[derive(Debug, Clone)]
pub struct ScannedEntry {
    pub reference: Option<Reference>,
    pub has_pdf: bool,
}

pub open spec fn count_missing_pdf(s: Seq<ScannedEntry>) -> nat
    decreases s.len(),
{
    if s.len() == 0 {
        0
    } else {
        count_missing_pdf(s.drop_last()) + if s.last().reference is Some && !s.last().has_pdf {
            1nat
        } else {
            0nat
        }
    }
}

pub open spec fn count_missing_pdf_with_doi(s: Seq<ScannedEntry>) -> nat
    decreases s.len(),
{
    if s.len() == 0 {
        0
    } else {
        count_missing_pdf_with_doi(s.drop_last()) + if s.last().reference matches Some(r) && !s.last().has_pdf
            && r.doi is Some {
            1nat
        } else {
            0nat
        }
    }
}

pub open spec fn count_missing_abstract(s: Seq<ScannedEntry>) -> nat
    decreases s.len(),
{
    if s.len() == 0 {
        0
    } else {
        count_missing_abstract(s.drop_last()) + if s.last().reference matches Some(r) && r.abstract_text is None {
            1nat
        } else {
            0nat
        }
    }
}

proof fn lemma_counts_bounded(s: Seq<ScannedEntry>)
    ensures
        count_missing_pdf(s) <= s.len(),
        count_missing_pdf_with_doi(s) <= s.len(),
        count_missing_abstract(s) <= s.len(),
    decreases s.len(),
{
    if s.len() > 0 {
        lemma_counts_bounded(s.drop_last());
    }
}

/// The local-only preview: how many readable entries lack a PDF, how many
/// of those have a DOI to look one up by, and how many lack an abstract.
pub fn check_report(entries: &Vec<ScannedEntry>) -> (r: BackfillReport)
    ensures
        r == (BackfillReport::Check {
            total: entries@.len() as usize,
            missing_pdf: count_missing_pdf(entries@) as usize,
            missing_pdf_with_doi: count_missing_pdf_with_doi(entries@) as usize,
            missing_abstract: count_missing_abstract(entries@) as usize,
        }),
{
    let mut missing_pdf: usize = 0;
    let mut missing_pdf_with_doi: usize = 0;
    let mut missing_abstract: usize = 0;
    let mut i: usize = 0;
    while i < entries.len()
        invariant
            i <= entries@.len(),
            missing_pdf == count_missing_pdf(entries@.take(i as int)),
            missing_pdf_with_doi == count_missing_pdf_with_doi(entries@.take(i as int)),
            missing_abstract == count_missing_abstract(entries@.take(i as int)),
        decreases entries@.len() - i,
    {
        proof {
            let t = entries@.take(i + 1);
            assert(t.drop_last() =~= entries@.take(i as int));
            lemma_counts_bounded(entries@.take(i as int));
        }
        let e = &entries[i];
        if let Some(r) = &e.reference {
            if !e.has_pdf {
                missing_pdf += 1;
                if r.doi.is_some() {
                    missing_pdf_with_doi += 1;
                }
            }
            if r.abstract_text.is_none() {
                missing_abstract += 1;
            }
        }
        i += 1;
    }
    assert(entries@.take(entries@.len() as int) =~= entries@);
    BackfillReport::Check { total: entries.len(), missing_pdf, missing_pdf_with_doi, missing_abstract }
}

/// What an entry calls for, as (abstract, PDF).
pub open spec fn wanted(opts: Options, reference: Reference, has_pdf: bool) -> (bool, bool) {
    (opts.abstracts && reference.abstract_text is None, opts.pdfs && !has_pdf)
}

/// What an entry calls for: an abstract when asked for and missing, a PDF
/// when asked for and none is on disk.
pub fn wants(opts: &Options, reference: &Reference, has_pdf: bool) -> (w: (bool, bool))
    ensures
        w == wanted(*opts, *reference, has_pdf),
{
    (opts.abstracts && reference.abstract_text.is_none(), opts.pdfs && !has_pdf)
}

/// An entry that already has its abstract and a PDF on disk calls for
/// nothing, whatever the options: backfill passes it by.
pub proof fn complete_entries_are_skipped(opts: Options, reference: Reference, has_pdf: bool)
    requires
        reference.abstract_text is Some,
        has_pdf,
    ensures
        wanted(opts, reference, has_pdf) == (false, false),
{
}

/// An entry part-way through its backfill.
#[derive(Debug, Clone)]
pub struct EntryProgress {
    pub reference: Reference,
    /// The metadata differs from what was on disk.
    pub changed: bool,
    /// What was done or found, in order.
    pub notes: Vec<String>,
    pub abstract_added: bool,
    pub pdf_added: bool,
    pub unresolved: bool,
}

/// An entry before anything was fetched for it.
pub fn start_entry(reference: Reference) -> (p: EntryProgress)
    ensures
        p.reference == reference,
        !p.changed && !p.abstract_added && !p.pdf_added && !p.unresolved,
        p.notes@.len() == 0,
{
    EntryProgress {
        reference,
        changed: false,
        notes: Vec::new(),
        abstract_added: false,
        pdf_added: false,
        unresolved: false,
    }
}

/// Takes the result of a metadata lookup. A record that differs from the
/// entry replaces it; when it brings the missing abstract, that is noted.
pub fn after_enrich(p: EntryProgress, enriched: Option<Reference>) -> (q: EntryProgress)
    ensures
        match enriched {
            Some(u) if u@ != p.reference@ => {
                let gained = p.reference.abstract_text is None && u.abstract_text is Some;
                &&& q.reference == u
                &&& q.changed
                &&& q.abstract_added == (p.abstract_added || gained)
                &&& text::views(q.notes@) == if gained {
                    text::views(p.notes@).push("abstract"@)
                } else {
                    text::views(p.notes@)
                }
            },
            _ => q.reference == p.reference && q.changed == p.changed && q.abstract_added == p.abstract_added
                && q.notes@ == p.notes@,
        },
        q.pdf_added == p.pdf_added,
        q.unresolved == p.unresolved,
{
    let mut p = p;
    match enriched {
        Some(u) => {
            if !u.same_as(&p.reference) {
                if p.reference.abstract_text.is_none() && u.abstract_text.is_some() {
                    p.abstract_added = true;
                    p.notes.push("abstract".to_string());
                }
                p.reference = u;
                p.changed = true;
            }
            p
        },
        None => p,
    }
}

/// The result of looking for a PDF.
#[derive(Debug, Clone)]
pub enum PdfAttempt {
    /// The entry has no DOI to look one up by.
    NoDoi,
    /// No open-access copy was found.
    NotFound,
    /// A PDF of `bytes` bytes from `source` was saved as `file_name`.
    Saved { file_name: String, bytes: usize, source: String },
    /// Saving the downloaded PDF failed with the given error text.
    SaveFailed(String),
}

/// `bytes` tenths of a MiB, rounded to the nearest tenth with ties to even.
pub open spec fn rounded_tenths(bytes: nat) -> nat {
    let q = (bytes * 10) / 1048576;
    let r = (bytes * 10) % 1048576;
    if 2 * r > 1048576 || (2 * r == 1048576 && q % 2 == 1) {
        q + 1
    } else {
        q
    }
}

/// A size for humans: MiB with one decimal from 1 MiB up, otherwise whole
/// KiB rounded up (at least 1).
pub open spec fn size_text(bytes: nat) -> Seq<char> {
    if bytes >= 1048576 {
        let t = rounded_tenths(bytes);
        decimal(t / 10) + "."@ + decimal(t % 10) + " MB"@
    } else {
        let b = if bytes == 0 {
            1nat
        } else {
            bytes
        };
        decimal((b + 1023) / 1024) + " KB"@
    }
}

/// A size for humans, as in the progress notes.
pub fn human_size(bytes: usize) -> (s: String)
    ensures
        s@ == size_text(bytes as nat),
{
    if bytes >= 1048576 {
        let b = bytes as u128;
        let q = (b * 10) / 1048576;
        let r = (b * 10) % 1048576;
        let t = if 2 * r > 1048576 || (2 * r == 1048576 && q % 2 == 1) {
            q + 1
        } else {
            q
        };
        assert(t == rounded_tenths(bytes as nat));
        assert(t / 10 <= u64::MAX) by (nonlinear_arith)
            requires
                t <= b * 10 / 1048576 + 1,
                b <= u64::MAX,
        ;
        let mut s = text::decimal_string((t / 10) as u64);
        push_str(&mut s, ".");
        push_decimal(&mut s, (t % 10) as u64);
        push_str(&mut s, " MB");
        s
    } else {
        let b: u64 = if bytes == 0 {
            1
        } else {
            bytes as u64
        };
        let mut s = text::decimal_string((b + 1023) / 1024);
        push_str(&mut s, " KB");
        s
    }
}

/// Takes the result of looking for a PDF: a saved PDF becomes the entry's
/// one file; anything else leaves the entry unresolved. Each outcome adds
/// its note.
pub fn after_pdf(p: EntryProgress, attempt: PdfAttempt) -> (q: EntryProgress)
    ensures
        q.abstract_added == p.abstract_added,
        match attempt {
            PdfAttempt::Saved { file_name, bytes, source } => {
                &&& q.reference@ == (crate::model::RefView { files: seq![file_name@], ..p.reference@ })
                &&& q.changed
                &&& q.pdf_added
                &&& q.unresolved == p.unresolved
                &&& text::views(q.notes@) == text::views(p.notes@).push(
                    "pdf "@ + size_text(bytes as nat) + " via "@ + source@,
                )
            },
            PdfAttempt::NoDoi => q.reference == p.reference && q.changed == p.changed && q.pdf_added
                == p.pdf_added && q.unresolved && text::views(q.notes@) == text::views(p.notes@).push(
                "no DOI for pdf"@,
            ),
            PdfAttempt::NotFound => q.reference == p.reference && q.changed == p.changed && q.pdf_added
                == p.pdf_added && q.unresolved && text::views(q.notes@) == text::views(p.notes@).push(
                "no OA pdf"@,
            ),
            PdfAttempt::SaveFailed(e) => q.reference == p.reference && q.changed == p.changed
                && q.pdf_added == p.pdf_added && q.unresolved && text::views(q.notes@) == text::views(
                p.notes@,
            ).push("pdf save failed: "@ + e@),
        },
{
    let mut p = p;
    match attempt {
        PdfAttempt::Saved { file_name, bytes, source } => {
            let mut note = "pdf ".to_string();
            let size = human_size(bytes);
            push_str(&mut note, size.as_str());
            push_str(&mut note, " via ");
            push_str(&mut note, source.as_str());
            p.notes.push(note);
            let mut files: Vec<String> = Vec::new();
            files.push(file_name);
            p.reference.files = files;
            p.changed = true;
            p.pdf_added = true;
            proof {
                assert(text::views(p.reference.files@) =~= seq![p.reference.files@[0]@]);
            }
            p
        },
        PdfAttempt::NoDoi => {
            p.unresolved = true;
            p.notes.push("no DOI for pdf".to_string());
            p
        },
        PdfAttempt::NotFound => {
            p.unresolved = true;
            p.notes.push("no OA pdf".to_string());
            p
        },
        PdfAttempt::SaveFailed(e) => {
            let mut note = "pdf save failed: ".to_string();
            push_str(&mut note, e.as_str());
            p.unresolved = true;
            p.notes.push(note);
            p
        },
    }
}

/// The status line of an entry: its notes joined by commas, or `nothing
/// found`.
pub fn status_line(notes: &Vec<String>) -> (s: String)
    ensures
        s@ == (if notes@.len() == 0 {
            "nothing found"@
        } else {
            text::join(text::views(notes@), ", "@)
        }),
{
    if notes.len() == 0 {
        "nothing found".to_string()
    } else {
        join_strings(notes.as_slice(), ", ")
    }
}

/// A finished entry: its key and where it ended up.
#[derive(Debug, Clone)]
pub struct Finished {
    pub key: String,
    pub progress: EntryProgress,
}

pub open spec fn count_where(s: Seq<Finished>, f: spec_fn(EntryProgress) -> bool) -> nat
    decreases s.len(),
{
    if s.len() == 0 {
        0
    } else {
        count_where(s.drop_last(), f) + if f(s.last().progress) {
            1nat
        } else {
            0nat
        }
    }
}

proof fn lemma_count_where_bounded(s: Seq<Finished>, f: spec_fn(EntryProgress) -> bool)
    ensures
        count_where(s, f) <= s.len(),
    decreases s.len(),
{
    if s.len() > 0 {
        lemma_count_where_bounded(s.drop_last(), f);
    }
}

/// The report of a run over `total` entries of which `finished` had gaps:
/// the counts of PDFs and abstracts added and of entries left unresolved,
/// and one line per entry.
pub fn apply_report(total: usize, finished: &Vec<Finished>) -> (r: BackfillReport)
    ensures
        r matches BackfillReport::Apply { total: t, considered, pdfs_added, abstracts_added, unresolved, items }
            && t == total && considered == finished@.len() && pdfs_added == count_where(
            finished@,
            |p: EntryProgress| p.pdf_added,
        ) && abstracts_added == count_where(finished@, |p: EntryProgress| p.abstract_added)
            && unresolved == count_where(finished@, |p: EntryProgress| p.unresolved) && items@.len()
            == finished@.len() && forall|i: int|
            0 <= i < items@.len() ==> (#[trigger] items@[i]).key == finished@[i].key && items@[i].status@ == (
            if finished@[i].progress.notes@.len() == 0 {
                "nothing found"@
            } else {
                text::join(text::views(finished@[i].progress.notes@), ", "@)
            }),
{
    let ghost fp = |p: EntryProgress| p.pdf_added;
    let ghost fa = |p: EntryProgress| p.abstract_added;
    let ghost fu = |p: EntryProgress| p.unresolved;
    let mut pdfs_added: usize = 0;
    let mut abstracts_added: usize = 0;
    let mut unresolved: usize = 0;
    let mut items: Vec<BackfillItem> = Vec::new();
    let mut i: usize = 0;
    while i < finished.len()
        invariant
            i <= finished@.len(),
            pdfs_added == count_where(finished@.take(i as int), fp),
            abstracts_added == count_where(finished@.take(i as int), fa),
            unresolved == count_where(finished@.take(i as int), fu),
            fp == (|p: EntryProgress| p.pdf_added),
            fa == (|p: EntryProgress| p.abstract_added),
            fu == (|p: EntryProgress| p.unresolved),
            items@.len() == i,
            forall|k: int|
                0 <= k < i ==> (#[trigger] items@[k]).key == finished@[k].key && items@[k].status@ == (
                if finished@[k].progress.notes@.len() == 0 {
                    "nothing found"@
                } else {
                    text::join(text::views(finished@[k].progress.notes@), ", "@)
                }),
        decreases finished@.len() - i,
    {
        let f = &finished[i];
        proof {
            let t = finished@.take(i + 1);
            assert(t.drop_last() =~= finished@.take(i as int));
            lemma_count_where_bounded(finished@.take(i as int), fp);
            lemma_count_where_bounded(finished@.take(i as int), fa);
            lemma_count_where_bounded(finished@.take(i as int), fu);
        }
        if f.progress.pdf_added {
            pdfs_added += 1;
        }
        if f.progress.abstract_added {
            abstracts_added += 1;
        }
        if f.progress.unresolved {
            unresolved += 1;
        }
        let status = status_line(&f.progress.notes);
        items.push(BackfillItem { key: f.key.clone(), status });
        i += 1;
    }
    assert(finished@.take(finished@.len() as int) =~= finished@);
    BackfillReport::Apply { total, considered: finished.len(), pdfs_added, abstracts_added, unresolved, items }
}

} // verus!
