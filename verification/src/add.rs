//! Adding references: metadata given on the command line, how an input is
//! recognized, and what a batch reports.
use vstd::prelude::*;

use crate::fetch;
use crate::model::{clone_strings, RefView, Reference, ReferenceKind};
use crate::storage::str_eq;
use crate::text::{self, sort_strings, trim_str};

verus! {

/// Metadata given explicitly when adding a local PDF.
#[derive(Debug, Clone)]
pub struct AddOptions {
    pub kind: ReferenceKind,
    pub title: Option<String>,
    pub authors: Vec<String>,
    pub year: Option<u16>,
    pub edition: Option<String>,
    pub publisher: Option<String>,
    pub series: Option<String>,
    pub isbn: Vec<String>,
    pub doi: Option<String>,
}

/// Why an add request was refused.
#[derive(Debug, Clone, PartialEq)]
pub enum AddError {
    /// Edition, publisher, series or ISBN given for something not a book.
    BookOnly,
    EmptyTitle,
    EmptyAuthor,
    EmptyIsbn,
    EmptyDoi,
    /// Metadata given for an input that is not a local PDF.
    OverridesNeedPdf,
    /// Metadata given while adding several inputs at once.
    OverridesNeedOneInput,
    /// The input is no file, URL, arXiv ID or DOI.
    Unrecognized(String),
}

impl AddError {
    pub fn message(&self) -> (m: String)
        ensures
            m@ == match self {
                AddError::BookOnly => "Book metadata options require `--kind book`"@,
                AddError::EmptyTitle => "Title cannot be empty"@,
                AddError::EmptyAuthor => "Authors cannot be empty"@,
                AddError::EmptyIsbn => "ISBN cannot be empty"@,
                AddError::EmptyDoi => "DOI cannot be empty"@,
                AddError::OverridesNeedPdf => "`--kind` and metadata overrides currently require a local PDF"@,
                AddError::OverridesNeedOneInput => "Metadata overrides can only be used when adding one PDF"@,
                AddError::Unrecognized(input) => "Not a file, URL, arXiv ID, or DOI: "@ + input@,
            },
    {
        match self {
            AddError::BookOnly => "Book metadata options require `--kind book`".to_string(),
            AddError::EmptyTitle => "Title cannot be empty".to_string(),
            AddError::EmptyAuthor => "Authors cannot be empty".to_string(),
            AddError::EmptyIsbn => "ISBN cannot be empty".to_string(),
            AddError::EmptyDoi => "DOI cannot be empty".to_string(),
            AddError::OverridesNeedPdf => "`--kind` and metadata overrides currently require a local PDF".to_string(),
            AddError::OverridesNeedOneInput => "Metadata overrides can only be used when adding one PDF".to_string(),
            AddError::Unrecognized(input) => {
                let mut m = "Not a file, URL, arXiv ID, or DOI: ".to_string();
                text::push_str(&mut m, input.as_str());
                m
            },
        }
    }
}

/// The trimmed forms of `s`, in order.
pub open spec fn trimmed_all(s: Seq<Seq<char>>) -> Seq<Seq<char>> {
    s.map_values(|x: Seq<char>| text::trim(x))
}

/// The trimmed forms of `s` that are not empty, in order.
pub open spec fn trimmed_nonblank(s: Seq<Seq<char>>) -> Seq<Seq<char>>
    decreases s.len(),
{
    if s.len() == 0 {
        s
    } else if text::trim(s.last()).len() == 0 {
        trimmed_nonblank(s.drop_last())
    } else {
        trimmed_nonblank(s.drop_last()).push(text::trim(s.last()))
    }
}

pub open spec fn trimmed_opt(o: Option<String>) -> Option<Seq<char>> {
    match o {
        Some(s) => Some(text::trim(s@)),
        None => None,
    }
}

/// The first problem with the options, in the order they are checked.
pub open spec fn options_error(o: AddOptions) -> Option<AddError> {
    if o.kind != ReferenceKind::Book && (o.edition is Some || o.publisher is Some || o.series is Some
        || o.isbn@.len() > 0) {
        Some(AddError::BookOnly)
    } else if o.title matches Some(t) && text::trim(t@).len() == 0 {
        Some(AddError::EmptyTitle)
    } else if o.authors@.len() > 0 && exists|i: int|
        0 <= i < o.authors@.len() && text::trim(#[trigger] o.authors@[i]@).len() == 0 {
        Some(AddError::EmptyAuthor)
    } else if o.isbn@.len() > 0 && trimmed_nonblank(text::views(o.isbn@)).len() == 0 {
        Some(AddError::EmptyIsbn)
    } else if o.doi matches Some(d) && text::trim(d@).len() == 0 {
        Some(AddError::EmptyDoi)
    } else {
        None
    }
}

/// The reference once the options are applied: kind always; title,
/// authors, year, ISBN and DOI when given (trimmed, blank ISBNs dropped);
/// edition, publisher and series always, trimmed, as given.
pub open spec fn applied(o: AddOptions, r: RefView) -> RefView {
    RefView {
        kind: o.kind,
        title: match o.title {
            Some(t) => text::trim(t@),
            None => r.title,
        },
        authors: if o.authors@.len() > 0 {
            trimmed_all(text::views(o.authors@))
        } else {
            r.authors
        },
        year: if o.year is Some {
            o.year
        } else {
            r.year
        },
        edition: trimmed_opt(o.edition),
        publisher: trimmed_opt(o.publisher),
        series: trimmed_opt(o.series),
        isbn: if o.isbn@.len() > 0 {
            trimmed_nonblank(text::views(o.isbn@))
        } else {
            r.isbn
        },
        doi: match o.doi {
            Some(d) => Some(text::trim(d@)),
            None => r.doi,
        },
        ..r
    }
}

fn trim_opt(o: &Option<String>) -> (r: Option<String>)
    ensures
        text::opt_view(r) == trimmed_opt(*o),
{
    match o {
        Some(s) => Some(trim_str(s.as_str())),
        None => None,
    }
}

fn trim_each(v: &Vec<String>) -> (r: Vec<String>)
    ensures
        text::views(r@) == trimmed_all(text::views(v@)),
{
    let mut r: Vec<String> = Vec::new();
    let mut i: usize = 0;
    while i < v.len()
        invariant
            i <= v@.len(),
            r@.len() == i,
            forall|k: int| 0 <= k < i ==> #[trigger] r@[k]@ == text::trim(v@[k]@),
        decreases v@.len() - i,
    {
        r.push(trim_str(v[i].as_str()));
        i += 1;
    }
    assert(text::views(r@) =~= trimmed_all(text::views(v@)));
    r
}

fn trim_nonblank(v: &Vec<String>) -> (r: Vec<String>)
    ensures
        text::views(r@) == trimmed_nonblank(text::views(v@)),
{
    let mut r: Vec<String> = Vec::new();
    let mut i: usize = 0;
    while i < v.len()
        invariant
            i <= v@.len(),
            text::views(r@) == trimmed_nonblank(text::views(v@).take(i as int)),
        decreases v@.len() - i,
    {
        proof {
            let t = text::views(v@).take(i + 1);
            assert(t.drop_last() =~= text::views(v@).take(i as int));
            assert(t.last() == v@[i as int]@);
        }
        let t = trim_str(v[i].as_str());
        if !t.as_str().is_empty() {
            r.push(t);
            assert(text::views(r@) =~= trimmed_nonblank(text::views(v@).take(i + 1)));
        }
        i += 1;
    }
    assert(text::views(v@).take(v@.len() as int) =~= text::views(v@));
    r
}

fn has_blank(v: &Vec<String>) -> (b: bool)
    ensures
        b == exists|i: int| 0 <= i < v@.len() && text::trim(#[trigger] v@[i]@).len() == 0,
{
    let mut i: usize = 0;
    while i < v.len()
        invariant
            i <= v@.len(),
            forall|k: int| 0 <= k < i ==> text::trim(#[trigger] v@[k]@).len() != 0,
        decreases v@.len() - i,
    {
        let t = trim_str(v[i].as_str());
        if t.as_str().is_empty() {
            return true;
        }
        i += 1;
    }
    false
}

fn is_blank(s: &str) -> (b: bool)
    ensures
        b == (text::trim(s@).len() == 0),
{
    let t = trim_str(s);
    t.as_str().is_empty()
}

impl AddOptions {
    /// No option given: the defaults of a plain paper.
    pub open spec fn is_default(&self) -> bool {
        &&& self.kind == ReferenceKind::Paper
        &&& self.title is None
        &&& self.authors@.len() == 0
        &&& self.year is None
        &&& self.edition is None
        &&& self.publisher is None
        &&& self.series is None
        &&& self.isbn@.len() == 0
        &&& self.doi is None
    }

    /// Options that leave everything as found.
    pub fn none() -> (o: AddOptions)
        ensures
            o.is_default(),
    {
        AddOptions {
            kind: ReferenceKind::Paper,
            title: None,
            authors: Vec::new(),
            year: None,
            edition: None,
            publisher: None,
            series: None,
            isbn: Vec::new(),
            doi: None,
        }
    }

    /// Whether any metadata was given at all.
    pub fn has_overrides(&self) -> (b: bool)
        ensures
            b == !self.is_default(),
    {
        !(self.kind == ReferenceKind::Paper && self.title.is_none() && self.authors.len() == 0
            && self.year.is_none() && self.edition.is_none() && self.publisher.is_none()
            && self.series.is_none() && self.isbn.len() == 0 && self.doi.is_none())
    }

    /// The first problem with the options, if any.
    pub fn check(&self) -> (r: Result<(), AddError>)
        ensures
            match r {
                Ok(()) => options_error(*self) is None,
                Err(e) => options_error(*self) == Some(e),
            },
    {
        if self.kind != ReferenceKind::Book && (self.edition.is_some() || self.publisher.is_some()
            || self.series.is_some() || self.isbn.len() > 0) {
            return Err(AddError::BookOnly);
        }
        if let Some(t) = &self.title {
            if is_blank(t.as_str()) {
                return Err(AddError::EmptyTitle);
            }
        }
        if self.authors.len() > 0 && has_blank(&self.authors) {
            return Err(AddError::EmptyAuthor);
        }
        if self.isbn.len() > 0 {
            let kept = trim_nonblank(&self.isbn);
            if kept.len() == 0 {
                return Err(AddError::EmptyIsbn);
            }
        }
        if let Some(d) = &self.doi {
            if is_blank(d.as_str()) {
                return Err(AddError::EmptyDoi);
            }
        }
        Ok(())
    }

    /// Writes the options into `reference`, or refuses them and leaves it
    /// unchanged.
    pub fn apply(&self, reference: &mut Reference) -> (r: Result<(), AddError>)
        ensures
            match r {
                Ok(()) => options_error(*self) is None && final(reference)@ == applied(*self, old(reference)@),
                Err(e) => options_error(*self) == Some(e) && *final(reference) == *old(reference),
            },
    {
        match self.check() {
            Err(e) => return Err(e),
            Ok(()) => {},
        }
        reference.kind = self.kind;
        if let Some(title) = &self.title {
            reference.title = trim_str(title.as_str());
        }
        if self.authors.len() > 0 {
            reference.authors = trim_each(&self.authors);
        }
        if let Some(year) = self.year {
            reference.year = Some(year);
        }
        reference.edition = trim_opt(&self.edition);
        reference.publisher = trim_opt(&self.publisher);
        reference.series = trim_opt(&self.series);
        if self.isbn.len() > 0 {
            reference.isbn = trim_nonblank(&self.isbn);
        }
        if let Some(doi) = &self.doi {
            reference.doi = Some(trim_str(doi.as_str()));
        }
        assert(reference@ == applied(*self, old(reference)@));
        Ok(())
    }
}

/// Metadata may only be given when exactly one input is added.
pub fn check_batch(count: usize, options: &AddOptions) -> (r: Result<(), AddError>)
    ensures
        r is Ok <==> (count == 1 || options.is_default()),
        r matches Err(e) ==> e == AddError::OverridesNeedOneInput,
{
    if count == 1 || !options.has_overrides() {
        Ok(())
    } else {
        Err(AddError::OverridesNeedOneInput)
    }
}

/// Where an input's reference comes from.
#[derive(Debug, Clone, PartialEq)]
pub enum AddSource {
    /// A local file.
    File,
    /// An arXiv identifier.
    Arxiv(String),
    /// A PubMed Central article.
    Pmc(String),
    /// A PubMed record.
    Pubmed(String),
    /// A DOI resolver link.
    DoiUrl(String),
    /// Any other web page.
    WebUrl,
    /// A bare DOI.
    Doi(String),
}

/// How an input is recognized, in order: an existing path, then (with no
/// metadata given) an arXiv ID, a PMC article, a PubMed record, a web URL
/// (a DOI resolver link or any page) and finally a DOI in the text. A
/// refusal is `Err(true)` when metadata was given for an input that is not
/// a local file, `Err(false)` when the input is not recognized.
pub open spec fn input_source(input: Seq<char>, exists_on_disk: bool, o: AddOptions) -> Result<
    (nat, Option<Seq<char>>),
    bool,
> {
    if exists_on_disk {
        Ok((0, None))
    } else if !o.is_default() {
        Err(true)
    } else if fetch::arxiv_id(input) is Some {
        Ok((1, fetch::arxiv_id(input)))
    } else if fetch::pmc_id(input) is Some {
        Ok((2, fetch::pmc_id(input)))
    } else if fetch::pmid(input) is Some {
        Ok((3, fetch::pmid(input)))
    } else if text::starts_with(input, "http://"@) || text::starts_with(input, "https://"@) {
        if fetch::doi_url(input) is Some {
            Ok((4, fetch::doi_url(input)))
        } else {
            Ok((5, None))
        }
    } else if fetch::doi_in(input) is Some {
        Ok((6, fetch::doi_in(input)))
    } else {
        Err(false)
    }
}

/// The number and payload that stand for a source in `input_source`.
pub open spec fn source_code(s: AddSource) -> (nat, Option<Seq<char>>) {
    match s {
        AddSource::File => (0, None),
        AddSource::Arxiv(id) => (1, Some(id@)),
        AddSource::Pmc(id) => (2, Some(id@)),
        AddSource::Pubmed(id) => (3, Some(id@)),
        AddSource::DoiUrl(d) => (4, Some(d@)),
        AddSource::WebUrl => (5, None),
        AddSource::Doi(d) => (6, Some(d@)),
    }
}

/// Recognizes what an input to `add` is. `exists_on_disk` says whether it
/// names an existing path.
pub fn classify_input(input: &str, exists_on_disk: bool, options: &AddOptions) -> (r: Result<AddSource, AddError>)
    ensures
        match r {
            Ok(s) => input_source(input@, exists_on_disk, *options) == Ok::<(nat, Option<Seq<char>>), bool>(
                source_code(s),
            ),
            Err(AddError::OverridesNeedPdf) => input_source(input@, exists_on_disk, *options) == Err::<
                (nat, Option<Seq<char>>),
                bool,
            >(true),
            Err(AddError::Unrecognized(i)) => i@ == input@ && input_source(input@, exists_on_disk, *options)
                == Err::<(nat, Option<Seq<char>>), bool>(false),
            Err(_) => false,
        },
{
    if exists_on_disk {
        return Ok(AddSource::File);
    }
    if options.has_overrides() {
        return Err(AddError::OverridesNeedPdf);
    }
    if let Some(id) = fetch::detect_arxiv_id(input) {
        return Ok(AddSource::Arxiv(id));
    }
    if let Some(id) = fetch::detect_pmc_id(input) {
        return Ok(AddSource::Pmc(id));
    }
    if let Some(id) = fetch::detect_pmid(input) {
        return Ok(AddSource::Pubmed(id));
    }
    if text::str_starts_with(input, "http://") || text::str_starts_with(input, "https://") {
        if let Some(doi) = fetch::detect_doi_url(input) {
            return Ok(AddSource::DoiUrl(doi));
        }
        return Ok(AddSource::WebUrl);
    }
    if let Some(doi) = fetch::detect_doi(input) {
        return Ok(AddSource::Doi(doi));
    }
    Err(AddError::Unrecognized(input.to_string()))
}

/// A reference read from a PDF with the metadata fetched for the arXiv ID
/// in its file name: title, authors, year, DOI, arXiv ID and abstract are
/// taken from the fetched record.
pub fn with_arxiv_metadata(extracted: &Reference, fetched: &Reference) -> (r: Reference)
    ensures
        r@ == (RefView {
            title: fetched@.title,
            authors: fetched@.authors,
            year: fetched@.year,
            doi: fetched@.doi,
            arxiv: fetched@.arxiv,
            abstract_text: fetched@.abstract_text,
            ..extracted@
        }),
{
    let mut r = extracted.copy();
    r.title = fetched.title.clone();
    r.authors = clone_strings(&fetched.authors);
    r.year = fetched.year;
    r.doi = text::clone_opt(&fetched.doi);
    r.arxiv = text::clone_opt(&fetched.arxiv);
    r.abstract_text = text::clone_opt(&fetched.abstract_text);
    r
}

/// What became of one input of a batch.
#[derive(Debug, Clone)]
pub struct AddResult {
    pub input: String,
    /// `added` when a new entry appeared, else `skipped`.
    pub status: String,
    /// The new entries' keys, sorted.
    pub keys: Vec<String>,
}

/// The report of a batch add: one result per input that succeeded.
#[derive(Debug, Clone)]
pub struct AddReport {
    pub inputs: Vec<AddResult>,
}

/// The entries of `after` that are not in `before`, in order.
pub open spec fn appeared(before: Seq<String>, after: Seq<String>) -> Seq<String>
    decreases after.len(),
{
    if after.len() == 0 {
        after
    } else if text::views(before).contains(after.last()@) {
        appeared(before, after.drop_last())
    } else {
        appeared(before, after.drop_last()).push(after.last())
    }
}

fn contains_str(v: &Vec<String>, s: &str) -> (b: bool)
    ensures
        b == text::views(v@).contains(s@),
{
    let mut i: usize = 0;
    while i < v.len()
        invariant
            i <= v@.len(),
            forall|k: int| 0 <= k < i ==> v@[k]@ != s@,
        decreases v@.len() - i,
    {
        if str_eq(v[i].as_str(), s) {
            assert(text::views(v@)[i as int] == s@);
            return true;
        }
        i += 1;
    }
    proof {
        if text::views(v@).contains(s@) {
            let k = choose|k: int| 0 <= k < text::views(v@).len() && text::views(v@)[k] == s@;
            assert(v@[k]@ == s@);
        }
    }
    false
}

/// The result for an input, from the library's entry keys before and after
/// it was added.
pub fn add_result(input: &str, before: &Vec<String>, after: &Vec<String>) -> (r: AddResult)
    ensures
        r.input@ == input@,
        r.keys@.to_multiset() == appeared(before@, after@).to_multiset(),
        text::sorted_strings(r.keys@),
        r.status@ == (if r.keys@.len() == 0 {
            "skipped"@
        } else {
            "added"@
        }),
{
    let mut fresh: Vec<String> = Vec::new();
    let mut i: usize = 0;
    while i < after.len()
        invariant
            i <= after@.len(),
            fresh@ == appeared(before@, after@.take(i as int)),
        decreases after@.len() - i,
    {
        proof {
            let t = after@.take(i + 1);
            assert(t.drop_last() =~= after@.take(i as int));
            assert(t.last() == after@[i as int]);
        }
        if !contains_str(before, after[i].as_str()) {
            fresh.push(after[i].clone());
        }
        i += 1;
    }
    assert(after@.take(after@.len() as int) =~= after@);
    let keys = sort_strings(fresh);
    let status = if keys.len() == 0 {
        "skipped".to_string()
    } else {
        "added".to_string()
    };
    AddResult { input: input.to_string(), status, keys }
}

} // verus!
