//! Rendering references as BibTeX entries and Hayagriva (Typst) entries.
use vstd::prelude::*;

use crate::model::{Reference, ReferenceKind};
use crate::storage::str_eq;
use crate::text::{
    self, chars_of, clone_opt, has_char_in, join_strings, push_decimal, push_str, split_words,
    string_from_range, strip_end_bound, to_lowercase, trim_bounds,
};

verus! {

/// `Family, Given` order of an author name: a name with a comma is kept
/// (trimmed, trailing commas dropped); otherwise the last token moves to the
/// front; a single token is returned unchanged.
pub open spec fn family_given_spec(author: Seq<char>) -> Seq<char> {
    let a = text::trim(author);
    let t = text::words(a);
    if text::has_char(a, ',') {
        text::trim(text::strip_end(a, ','))
    } else if t.len() >= 2 {
        t.last() + ", "@ + text::join(t.drop_last(), " "@)
    } else {
        a
    }
}

/// Normalize an author name to `Family, Given` order so citation processors
/// (Hayagriva, BibTeX) can identify the surname.
pub fn family_given(author: &str) -> (r: String)
    ensures
        r@ == family_given_spec(author@),
{
    let v = chars_of(author);
    let (a, b) = trim_bounds(&v, 0, v.len());
    assert(v@.subrange(0, v@.len() as int) =~= v@);
    let ghost t = v@.subrange(a as int, b as int);
    let trimmed = string_from_range(&v, a, b);
    let tv = chars_of(trimmed.as_str());
    if has_char_in(&tv, ',') {
        let e = strip_end_bound(&tv, 0, tv.len(), ',');
        let (x, y) = trim_bounds(&tv, 0, e);
        assert(tv@.subrange(0, tv@.len() as int) =~= tv@);
        return string_from_range(&tv, x, y);
    }
    let tokens = split_words(&tv, 0, tv.len());
    assert(tv@.subrange(0, tv@.len() as int) =~= tv@);
    let n = tokens.len();
    if n >= 2 {
        let mut given: Vec<String> = Vec::new();
        let mut i: usize = 0;
        while i < n - 1
            invariant
                n == tokens@.len(),
                n >= 2,
                i <= n - 1,
                text::views(given@) == text::views(tokens@).take(i as int),
            decreases n - 1 - i,
        {
            let ghost prev = given@;
            let c = tokens[i].clone();
            assert(c@ == tokens@[i as int]@);
            given.push(c);
            proof {
                assert(given@ == prev.push(c));
                assert(text::views(given@) =~= text::views(prev).push(c@));
                assert(text::views(given@) =~= text::views(tokens@).take(i + 1));
            }
            i += 1;
        }
        let mut r = tokens[n - 1].clone();
        push_str(&mut r, ", ");
        let rest = join_strings(&given, " ");
        push_str(&mut r, rest.as_str());
        proof {
            assert(text::views(tokens@).take(n - 1) =~= text::views(tokens@).drop_last());
        }
        return r;
    }
    trimmed
}

/// `  {name} = {value},` followed by a newline.
pub open spec fn bib_field(name: Seq<char>, value: Seq<char>) -> Seq<char> {
    "  "@ + name + " = {"@ + value + "},\n"@
}

/// A BibTeX line only when `value` is present.
pub open spec fn bib_opt(name: Seq<char>, value: Option<String>) -> Seq<char> {
    match value {
        Some(v) => bib_field(name, v@),
        None => seq![],
    }
}

/// The authors of `r` in `Family, Given` order.
pub open spec fn family_given_all(authors: Seq<String>) -> Seq<Seq<char>> {
    Seq::new(authors.len(), |i: int| family_given_spec(authors[i]@))
}

pub open spec fn bib_entry_type(k: ReferenceKind) -> Seq<char> {
    match k {
        ReferenceKind::Paper => "article"@,
        ReferenceKind::Book => "book"@,
    }
}

/// The BibTeX entry of `r` under `key`: title, then each present field among
/// author, year, journal, publisher, edition, series, isbn, doi and eprint.
pub open spec fn bibtex(key: Seq<char>, r: Reference) -> Seq<char> {
    let authors = text::join(family_given_all(r.authors@), " and "@);
    "@"@ + bib_entry_type(r.kind) + "{"@ + key + ",\n"@ + bib_field("title"@, r.title@) + (if authors.len()
        > 0 {
        bib_field("author"@, authors)
    } else {
        seq![]
    }) + (match r.year {
        Some(y) => bib_field("year"@, text::decimal(y as nat)),
        None => seq![],
    }) + bib_opt("journal"@, r.journal) + bib_opt("publisher"@, r.publisher) + bib_opt(
        "edition"@,
        r.edition,
    ) + bib_opt("series"@, r.series) + (if r.isbn@.len() > 0 {
        bib_field("isbn"@, text::join(text::views(r.isbn@), ", "@))
    } else {
        seq![]
    }) + bib_opt("doi"@, r.doi) + (match r.arxiv {
        Some(a) => bib_field("eprint"@, a@) + "  archiveprefix = {arXiv},\n"@,
        None => seq![],
    }) + "}"@
}

/// A reference with a DOI gets a `doi` line carrying it: the entry holds
/// the line `  doi = {<doi>},`.
pub proof fn bibtex_carries_the_doi(key: Seq<char>, r: Reference)
    requires
        r.doi is Some,
    ensures
        text::contains(bibtex(key, r), "  doi = {"@ + r.doi->0@ + "},\n"@),
{
    let d = r.doi->0@;
    let authors = text::join(family_given_all(r.authors@), " and "@);
    let x = "@"@ + bib_entry_type(r.kind) + "{"@ + key + ",\n"@ + bib_field("title"@, r.title@) + (if authors.len()
        > 0 {
        bib_field("author"@, authors)
    } else {
        seq![]
    }) + (match r.year {
        Some(y) => bib_field("year"@, text::decimal(y as nat)),
        None => seq![],
    }) + bib_opt("journal"@, r.journal) + bib_opt("publisher"@, r.publisher) + bib_opt(
        "edition"@,
        r.edition,
    ) + bib_opt("series"@, r.series) + (if r.isbn@.len() > 0 {
        bib_field("isbn"@, text::join(text::views(r.isbn@), ", "@))
    } else {
        seq![]
    });
    let y = (match r.arxiv {
        Some(a) => bib_field("eprint"@, a@) + "  archiveprefix = {arXiv},\n"@,
        None => seq![],
    }) + "}"@;
    let line = "  doi = {"@ + d + "},\n"@;
    reveal_strlit("  ");
    reveal_strlit("doi");
    reveal_strlit(" = {");
    reveal_strlit("},\n");
    reveal_strlit("  doi = {");
    assert(bib_opt("doi"@, r.doi) =~= line);
    let b = bibtex(key, r);
    assert(b =~= x + line + y);
    assert(b.subrange(x.len() as int, (x.len() + line.len()) as int) =~= line);
    assert(text::occurs_at(b, line, x.len() as int));
}

fn push_field(bib: &mut String, name: &str, value: &str)
    ensures
        final(bib)@ == old(bib)@ + bib_field(name@, value@),
{
    push_str(bib, "  ");
    push_str(bib, name);
    push_str(bib, " = {");
    push_str(bib, value);
    push_str(bib, "},\n");
    assert(bib@ =~= old(bib)@ + bib_field(name@, value@));
}

fn push_opt_field(bib: &mut String, name: &str, value: &Option<String>)
    ensures
        final(bib)@ == old(bib)@ + bib_opt(name@, *value),
{
    match value {
        Some(v) => push_field(bib, name, v.as_str()),
        None => {
            assert(bib@ =~= old(bib)@ + bib_opt(name@, *value));
        },
    }
}

/// `family_given` of every author.
pub fn family_given_list(authors: &Vec<String>) -> (r: Vec<String>)
    ensures
        text::views(r@) == family_given_all(authors@),
{
    let mut r: Vec<String> = Vec::new();
    let mut i: usize = 0;
    while i < authors.len()
        invariant
            i <= authors@.len(),
            text::views(r@) == family_given_all(authors@).take(i as int),
        decreases authors@.len() - i,
    {
        let ghost prev = r@;
        let f = family_given(authors[i].as_str());
        r.push(f);
        proof {
            assert(text::views(r@) =~= text::views(prev).push(f@));
            assert(text::views(r@) =~= family_given_all(authors@).take(i + 1));
        }
        i += 1;
    }
    assert(family_given_all(authors@).take(authors@.len() as int) =~= family_given_all(authors@));
    r
}

/// Render a single reference as a BibTeX entry.
pub fn to_bibtex(cite_key: &str, r: &Reference) -> (bib: String)
    ensures
        bib@ == bibtex(cite_key@, *r),
{
    let mut bib = String::new();
    push_str(&mut bib, "@");
    match r.kind {
        ReferenceKind::Paper => push_str(&mut bib, "article"),
        ReferenceKind::Book => push_str(&mut bib, "book"),
    }
    push_str(&mut bib, "{");
    push_str(&mut bib, cite_key);
    push_str(&mut bib, ",\n");
    push_field(&mut bib, "title", r.title.as_str());
    let names = family_given_list(&r.authors);
    let authors = join_strings(&names, " and ");
    if !authors.as_str().is_empty() {
        push_field(&mut bib, "author", authors.as_str());
    }
    if let Some(year) = r.year {
        let y = text::decimal_string(year as u64);
        push_field(&mut bib, "year", y.as_str());
    }
    push_opt_field(&mut bib, "journal", &r.journal);
    push_opt_field(&mut bib, "publisher", &r.publisher);
    push_opt_field(&mut bib, "edition", &r.edition);
    push_opt_field(&mut bib, "series", &r.series);
    if r.isbn.len() > 0 {
        let isbn = join_strings(&r.isbn, ", ");
        push_field(&mut bib, "isbn", isbn.as_str());
    }
    push_opt_field(&mut bib, "doi", &r.doi);
    if let Some(arxiv) = &r.arxiv {
        push_field(&mut bib, "eprint", arxiv.as_str());
        push_str(&mut bib, "  archiveprefix = {arXiv},\n");
    }
    push_str(&mut bib, "}");
    assert(bib@ =~= bibtex(cite_key@, *r));
    bib
}

/// The containing work of a Hayagriva entry (the journal of a paper).
#[derive(Debug, Clone, PartialEq)]
pub struct HayagrivaParent {
    pub entry_type: String,
    pub title: String,
}

/// Identifiers Hayagriva groups under `serial-number`.
#[derive(Debug, Clone, PartialEq)]
pub struct HayagrivaSerial {
    pub doi: Option<String>,
    pub arxiv: Option<String>,
}

/// A single entry in a Hayagriva bibliography (Typst's YAML citation format).
#[derive(Debug, Clone, PartialEq)]
pub struct HayagrivaEntry {
    pub entry_type: String,
    pub title: String,
    pub author: Vec<String>,
    pub date: Option<u16>,
    pub parent: Option<HayagrivaParent>,
    pub serial_number: Option<HayagrivaSerial>,
    pub abstract_text: Option<String>,
}

/// The Hayagriva entry of `r`.
pub fn to_hayagriva(r: &Reference) -> (h: HayagrivaEntry)
    ensures
        h.entry_type@ == bib_entry_type(r.kind),
        h.title@ == r.title@,
        text::views(h.author@) == family_given_all(r.authors@),
        h.date == r.year,
        match r.journal {
            Some(j) => h.parent matches Some(p) && p.entry_type@ == "periodical"@ && p.title@ == j@,
            None => h.parent is None,
        },
        if r.doi is Some || r.arxiv is Some {
            h.serial_number matches Some(s) && s.doi == r.doi && s.arxiv == r.arxiv
        } else {
            h.serial_number is None
        },
        h.abstract_text == r.abstract_text,
{
    let serial = if r.doi.is_some() || r.arxiv.is_some() {
        Some(HayagrivaSerial { doi: clone_opt(&r.doi), arxiv: clone_opt(&r.arxiv) })
    } else {
        None
    };
    let entry_type = match r.kind {
        ReferenceKind::Paper => "article".to_owned(),
        ReferenceKind::Book => "book".to_owned(),
    };
    let parent = match &r.journal {
        Some(title) => Some(
            HayagrivaParent { entry_type: "periodical".to_owned(), title: title.clone() },
        ),
        None => None,
    };
    HayagrivaEntry {
        entry_type,
        title: r.title.clone(),
        author: family_given_list(&r.authors),
        date: r.year,
        parent,
        serial_number: serial,
        abstract_text: clone_opt(&r.abstract_text),
    }
}

// ---------------------------------------------------------------------------
// The export command's choices
// ---------------------------------------------------------------------------
/// The formats `export` writes.
#[derive(Debug, Clone, Copy, PartialEq, Eq, Structural)]
pub enum ExportFormat {
    Yaml,
    Json,
    Bibtex,
    Hayagriva,
}

/// The format a name asks for, ignoring case (`yml` and `bib` as short
/// forms); the lower-case name when it is none of them.
pub open spec fn format_named(name: Seq<char>) -> Result<ExportFormat, Seq<char>> {
    let n = text::lowercase(name);
    if n == "yaml"@ || n == "yml"@ {
        Ok(ExportFormat::Yaml)
    } else if n == "json"@ {
        Ok(ExportFormat::Json)
    } else if n == "bibtex"@ || n == "bib"@ {
        Ok(ExportFormat::Bibtex)
    } else if n == "hayagriva"@ {
        Ok(ExportFormat::Hayagriva)
    } else {
        Err(n)
    }
}

/// An export format name that is none of the known ones.
#[derive(Debug, Clone, PartialEq)]
pub struct UnknownFormat {
    /// The name, lower-cased.
    pub name: String,
}

impl UnknownFormat {
    pub fn message(&self) -> (m: String)
        ensures
            m@ == "Unknown export format: "@ + self.name@ + " (expected yaml, json, bibtex, or hayagriva)"@,
    {
        let mut m = "Unknown export format: ".to_string();
        push_str(&mut m, self.name.as_str());
        push_str(&mut m, " (expected yaml, json, bibtex, or hayagriva)");
        m
    }
}

/// The export format `name` asks for.
pub fn export_format(name: &str) -> (r: Result<ExportFormat, UnknownFormat>)
    ensures
        match r {
            Ok(f) => format_named(name@) == Ok::<ExportFormat, Seq<char>>(f),
            Err(u) => format_named(name@) == Err::<ExportFormat, Seq<char>>(u.name@),
        },
{
    let n = to_lowercase(name);
    let s = n.as_str();
    if str_eq(s, "yaml") || str_eq(s, "yml") {
        Ok(ExportFormat::Yaml)
    } else if str_eq(s, "json") {
        Ok(ExportFormat::Json)
    } else if str_eq(s, "bibtex") || str_eq(s, "bib") {
        Ok(ExportFormat::Bibtex)
    } else if str_eq(s, "hayagriva") {
        Ok(ExportFormat::Hayagriva)
    } else {
        Err(UnknownFormat { name: n })
    }
}

/// An entry is exported when no tags are asked for, or when it carries one
/// of them exactly.
pub open spec fn exported(wanted: Seq<Seq<char>>, tags: Seq<Seq<char>>) -> bool {
    wanted.len() == 0 || exists|i: int| 0 <= i < tags.len() && wanted.contains(#[trigger] tags[i])
}

fn listed(list: &Vec<String>, s: &str) -> (b: bool)
    ensures
        b == text::views(list@).contains(s@),
{
    let mut i: usize = 0;
    while i < list.len()
        invariant
            i <= list@.len(),
            forall|j: int| 0 <= j < i ==> text::views(list@)[j] != s@,
        decreases list@.len() - i,
    {
        if str_eq(list[i].as_str(), s) {
            assert(text::views(list@)[i as int] == s@);
            return true;
        }
        i += 1;
    }
    false
}

/// Whether an entry with `tags` is exported when `wanted` tags are asked for.
pub fn is_exported(wanted: &Vec<String>, tags: &Vec<String>) -> (b: bool)
    ensures
        b == exported(text::views(wanted@), text::views(tags@)),
{
    if wanted.len() == 0 {
        return true;
    }
    let mut i: usize = 0;
    while i < tags.len()
        invariant
            i <= tags@.len(),
            wanted@.len() > 0,
            forall|j: int| 0 <= j < i ==> !text::views(wanted@).contains(#[trigger] text::views(tags@)[j]),
        decreases tags@.len() - i,
    {
        if listed(wanted, tags[i].as_str()) {
            assert(text::views(wanted@).contains(text::views(tags@)[i as int]));
            return true;
        }
        i += 1;
    }
    false
}

/// The BibTeX file of the entries: each entry under its key, separated by
/// blank lines.
pub fn bibtex_document(keys: &Vec<String>, references: &Vec<Reference>) -> (doc: String)
    requires
        keys@.len() == references@.len(),
    ensures
        doc@ == text::join(Seq::new(keys@.len(), |i: int| bibtex(keys@[i]@, references@[i])), "\n\n"@),
{
    let mut parts: Vec<String> = Vec::new();
    let mut i: usize = 0;
    while i < keys.len()
        invariant
            i <= keys@.len(),
            keys@.len() == references@.len(),
            text::views(parts@) == Seq::new(i as nat, |j: int| bibtex(keys@[j]@, references@[j])),
        decreases keys@.len() - i,
    {
        let b = to_bibtex(keys[i].as_str(), &references[i]);
        let ghost before = text::views(parts@);
        assert(b@ == bibtex(keys@[i as int]@, references@[i as int]));
        parts.push(b);
        assert(text::views(parts@) =~= before.push(bibtex(keys@[i as int]@, references@[i as int])));
        i += 1;
        assert(text::views(parts@) =~= Seq::new(i as nat, |j: int| bibtex(keys@[j]@, references@[j])));
    }
    assert(text::views(parts@) =~= Seq::new(keys@.len(), |j: int| bibtex(keys@[j]@, references@[j])));
    join_strings(parts.as_slice(), "\n\n")
}

} // verus!
