//! The reference record kept in each library directory's `info.toml`.
use vstd::prelude::*;

verus! {

/// The kind of work a reference describes.
#[derive(Debug, Clone, Copy, PartialEq, Eq, Structural)]
pub enum ReferenceKind {
    Paper,
    Book,
}

impl Default for ReferenceKind {
    fn default() -> (r: Self)
        ensures
            r == ReferenceKind::Paper,
    {
        ReferenceKind::Paper
    }
}

impl ReferenceKind {
    /// Papers are the default kind, so their kind is left out when saved.
    pub fn is_paper(&self) -> (b: bool)
        ensures
            b == (*self == ReferenceKind::Paper),
    {
        *self == ReferenceKind::Paper
    }
}

/// Metadata of one library entry.
#[derive(Debug, Clone, PartialEq)]
pub struct Reference {
    pub kind: ReferenceKind,
    pub title: String,
    pub authors: Vec<String>,
    pub year: Option<u16>,
    pub doi: Option<String>,
    pub arxiv: Option<String>,
    pub journal: Option<String>,
    pub edition: Option<String>,
    pub publisher: Option<String>,
    pub series: Option<String>,
    pub isbn: Vec<String>,
    pub tags: Vec<String>,
    pub files: Vec<String>,
    pub abstract_text: Option<String>,
}

/// The abstract value of a reference: every text as its characters.
pub struct RefView {
    pub kind: ReferenceKind,
    pub title: Seq<char>,
    pub authors: Seq<Seq<char>>,
    pub year: Option<u16>,
    pub doi: Option<Seq<char>>,
    pub arxiv: Option<Seq<char>>,
    pub journal: Option<Seq<char>>,
    pub edition: Option<Seq<char>>,
    pub publisher: Option<Seq<char>>,
    pub series: Option<Seq<char>>,
    pub isbn: Seq<Seq<char>>,
    pub tags: Seq<Seq<char>>,
    pub files: Seq<Seq<char>>,
    pub abstract_text: Option<Seq<char>>,
}

impl View for Reference {
    type V = RefView;

    open spec fn view(&self) -> RefView {
        RefView {
            kind: self.kind,
            title: self.title@,
            authors: crate::text::views(self.authors@),
            year: self.year,
            doi: crate::text::opt_view(self.doi),
            arxiv: crate::text::opt_view(self.arxiv),
            journal: crate::text::opt_view(self.journal),
            edition: crate::text::opt_view(self.edition),
            publisher: crate::text::opt_view(self.publisher),
            series: crate::text::opt_view(self.series),
            isbn: crate::text::views(self.isbn@),
            tags: crate::text::views(self.tags@),
            files: crate::text::views(self.files@),
            abstract_text: crate::text::opt_view(self.abstract_text),
        }
    }
}

/// A copy of a list of strings.
pub fn clone_strings(v: &Vec<String>) -> (r: Vec<String>)
    ensures
        r@ == v@,
{
    let mut r: Vec<String> = Vec::new();
    let mut i: usize = 0;
    while i < v.len()
        invariant
            i <= v@.len(),
            r@ == v@.take(i as int),
        decreases v@.len() - i,
    {
        r.push(v[i].clone());
        assert(r@ =~= v@.take(i + 1));
        i += 1;
    }
    assert(v@.take(v@.len() as int) =~= v@);
    r
}

impl Reference {
    /// A field-by-field copy.
    pub fn copy(&self) -> (r: Reference)
        ensures
            r@ == self@,
    {
        let r = Reference {
            kind: self.kind,
            title: self.title.clone(),
            authors: clone_strings(&self.authors),
            year: self.year,
            doi: crate::text::clone_opt(&self.doi),
            arxiv: crate::text::clone_opt(&self.arxiv),
            journal: crate::text::clone_opt(&self.journal),
            edition: crate::text::clone_opt(&self.edition),
            publisher: crate::text::clone_opt(&self.publisher),
            series: crate::text::clone_opt(&self.series),
            isbn: clone_strings(&self.isbn),
            tags: clone_strings(&self.tags),
            files: clone_strings(&self.files),
            abstract_text: crate::text::clone_opt(&self.abstract_text),
        };
        assert(r@.authors =~= self@.authors);
        assert(r@.isbn =~= self@.isbn);
        assert(r@.tags =~= self@.tags);
        assert(r@.files =~= self@.files);
        r
    }

    /// A paper with the given title and every other field empty.
    pub fn titled(title: String) -> (r: Reference)
        ensures
            r.kind == ReferenceKind::Paper,
            r.title == title,
            r.authors@.len() == 0,
            r.year is None,
            r.doi is None,
            r.arxiv is None,
            r.journal is None,
            r.edition is None,
            r.publisher is None,
            r.series is None,
            r.isbn@.len() == 0,
            r.tags@.len() == 0,
            r.files@.len() == 0,
            r.abstract_text is None,
    {
        Reference {
            kind: ReferenceKind::Paper,
            title,
            authors: Vec::new(),
            year: None,
            doi: None,
            arxiv: None,
            journal: None,
            edition: None,
            publisher: None,
            series: None,
            isbn: Vec::new(),
            tags: Vec::new(),
            files: Vec::new(),
            abstract_text: None,
        }
    }
}

fn same_text(a: &Option<String>, b: &Option<String>) -> (r: bool)
    ensures
        r == (crate::text::opt_view(*a) == crate::text::opt_view(*b)),
{
    match (a, b) {
        (Some(x), Some(y)) => crate::storage::str_eq(x.as_str(), y.as_str()),
        (None, None) => true,
        _ => false,
    }
}

fn same_strings(a: &Vec<String>, b: &Vec<String>) -> (r: bool)
    ensures
        r == (crate::text::views(a@) == crate::text::views(b@)),
{
    if a.len() != b.len() {
        assert(crate::text::views(a@).len() != crate::text::views(b@).len());
        return false;
    }
    let mut i: usize = 0;
    while i < a.len()
        invariant
            a@.len() == b@.len(),
            i <= a@.len(),
            forall|k: int| 0 <= k < i ==> a@[k]@ == b@[k]@,
        decreases a@.len() - i,
    {
        if !crate::storage::str_eq(a[i].as_str(), b[i].as_str()) {
            assert(crate::text::views(a@)[i as int] != crate::text::views(b@)[i as int]);
            return false;
        }
        i += 1;
    }
    assert(crate::text::views(a@) =~= crate::text::views(b@));
    true
}

impl Reference {
    /// Whether the two references hold the same metadata.
    pub fn same_as(&self, other: &Reference) -> (b: bool)
        ensures
            b == (self@ == other@),
    {
        self.kind == other.kind && crate::storage::str_eq(self.title.as_str(), other.title.as_str())
            && same_strings(&self.authors, &other.authors) && self.year == other.year
            && same_text(&self.doi, &other.doi) && same_text(&self.arxiv, &other.arxiv)
            && same_text(&self.journal, &other.journal) && same_text(&self.edition, &other.edition)
            && same_text(&self.publisher, &other.publisher) && same_text(&self.series, &other.series)
            && same_strings(&self.isbn, &other.isbn) && same_strings(&self.tags, &other.tags)
            && same_strings(&self.files, &other.files) && same_text(
            &self.abstract_text,
            &other.abstract_text,
        )
    }
}

} // verus!
