//! Library integrity checks: what is reported for each entry, and how a fix
//! rewrites its `info.toml`.
use vstd::prelude::*;

use crate::model::Reference;
use crate::text::{self, decimal_string, push_decimal, push_str, replace_str, str_starts_with};

verus! {

/// The outcome of validating a library.
#[derive(Debug, Clone)]
pub struct ValidateResult {
    /// Number of reference directories examined.
    pub total: usize,
    /// Number of problems repaired.
    pub fixed: usize,
    /// One line per problem left.
    pub issues: Vec<String>,
}

/// The one-line summary of a validation run.
pub open spec fn summary_text(total: nat, fixed: nat, issues: nat) -> Seq<char> {
    if issues == 0 && fixed == 0 {
        "Library OK — "@ + text::decimal(total) + " references"@
    } else if fixed > 0 && issues == 0 {
        "Fixed "@ + text::decimal(fixed) + " issues"@
    } else if fixed > 0 {
        text::decimal(issues + fixed) + " issues, fixed "@ + text::decimal(fixed)
    } else {
        text::decimal(issues) + " issues found"@
    }
}

impl ValidateResult {
    /// A one-line summary: all clear, everything fixed, some fixed, or only
    /// found.
    pub fn summary(&self) -> (s: String)
        requires
            self.issues@.len() + self.fixed <= usize::MAX,
        ensures
            s@ == summary_text(self.total as nat, self.fixed as nat, self.issues@.len()),
    {
        let n = self.issues.len();
        if n == 0 && self.fixed == 0 {
            let mut s = String::new();
            push_str(&mut s, "Library OK — ");
            push_decimal(&mut s, self.total as u64);
            push_str(&mut s, " references");
            s
        } else if self.fixed > 0 && n == 0 {
            let mut s = String::new();
            push_str(&mut s, "Fixed ");
            push_decimal(&mut s, self.fixed as u64);
            push_str(&mut s, " issues");
            s
        } else if self.fixed > 0 {
            let mut s = decimal_string((n + self.fixed) as u64);
            push_str(&mut s, " issues, fixed ");
            push_decimal(&mut s, self.fixed as u64);
            s
        } else {
            let mut s = decimal_string(n as u64);
            push_str(&mut s, " issues found");
            s
        }
    }
}

/// The issue lines for missing metadata of the entry in `dir_name`.
pub open spec fn metadata_issue_lines(dir_name: Seq<char>, r: Reference) -> Seq<Seq<char>> {
    let a = if r.title@.len() == 0 {
        seq!["missing title: "@ + dir_name]
    } else {
        Seq::<Seq<char>>::empty()
    };
    let b = if r.authors@.len() == 0 {
        seq!["missing authors: "@ + dir_name]
    } else {
        Seq::<Seq<char>>::empty()
    };
    let c = if r.year is None {
        seq!["missing year: "@ + dir_name]
    } else {
        Seq::<Seq<char>>::empty()
    };
    a + b + c
}

fn prefixed(prefix: &str, name: &str) -> (s: String)
    ensures
        s@ == prefix@ + name@,
{
    let mut s = String::new();
    push_str(&mut s, prefix);
    push_str(&mut s, name);
    assert(s@ =~= prefix@ + name@);
    s
}

/// Missing title, authors and year, in that order.
pub fn metadata_issues(dir_name: &str, r: &Reference) -> (v: Vec<String>)
    ensures
        text::views(v@) == metadata_issue_lines(dir_name@, *r),
{
    let mut v: Vec<String> = Vec::new();
    let ghost d = dir_name@;
    if r.title.as_str().is_empty() {
        v.push(prefixed("missing title: ", dir_name));
    }
    let ghost a = text::views(v@);
    if r.authors.len() == 0 {
        v.push(prefixed("missing authors: ", dir_name));
    }
    let ghost b = text::views(v@);
    if r.year.is_none() {
        v.push(prefixed("missing year: ", dir_name));
    }
    proof {
        let a0 = if r.title@.len() == 0 {
            seq!["missing title: "@ + d]
        } else {
            Seq::<Seq<char>>::empty()
        };
        let b0 = if r.authors@.len() == 0 {
            seq!["missing authors: "@ + d]
        } else {
            Seq::<Seq<char>>::empty()
        };
        let c0 = if r.year is None {
            seq!["missing year: "@ + d]
        } else {
            Seq::<Seq<char>>::empty()
        };
        assert(a =~= a0);
        assert(b =~= a0 + b0);
        assert(text::views(v@) =~= a0 + b0 + c0);
    }
    v
}

/// What was found on disk for a file the entry lists.
#[derive(Debug, Clone, Copy, PartialEq, Eq, Structural)]
pub enum ListedFile {
    Missing,
    NotPdf,
    Pdf,
}

/// The issue a listed file raises when nothing is repaired.
pub open spec fn listed_file_line(dir_name: Seq<char>, file: Seq<char>, state: ListedFile) -> Option<Seq<char>> {
    match state {
        ListedFile::Missing => Some("listed but missing: "@ + dir_name + "/"@ + file),
        ListedFile::NotPdf => Some("not a PDF: "@ + dir_name + "/"@ + file),
        ListedFile::Pdf => None,
    }
}

fn path_line(prefix: &str, dir_name: &str, file: &str) -> (s: String)
    ensures
        s@ == prefix@ + dir_name@ + "/"@ + file@,
{
    let mut s = String::new();
    push_str(&mut s, prefix);
    push_str(&mut s, dir_name);
    push_str(&mut s, "/");
    push_str(&mut s, file);
    assert(s@ =~= prefix@ + dir_name@ + "/"@ + file@);
    s
}

/// The issue for a listed file: missing, or present but not a PDF.
pub fn listed_file_issue(dir_name: &str, file: &str, state: ListedFile) -> (r: Option<String>)
    ensures
        text::opt_view(r) == listed_file_line(dir_name@, file@, state),
{
    match state {
        ListedFile::Missing => Some(path_line("listed but missing: ", dir_name, file)),
        ListedFile::NotPdf => Some(path_line("not a PDF: ", dir_name, file)),
        ListedFile::Pdf => None,
    }
}

/// The issue for a directory with no PDF and no listed file.
pub fn no_pdf_issue(dir_name: &str, has_pdf: bool, r: &Reference) -> (s: Option<String>)
    ensures
        text::opt_view(s) == (if !has_pdf && r.files@.len() == 0 {
            Some("no PDF: "@ + dir_name@)
        } else {
            None
        }),
{
    if !has_pdf && r.files.len() == 0 {
        Some(prefixed("no PDF: ", dir_name))
    } else {
        None
    }
}

/// A file whose name marks it as an interrupted download (`tmp…`).
pub fn is_temp_name(file_name: &str) -> (b: bool)
    ensures
        b == (text::starts_with(file_name@, "tmp"@) && file_name@ != "info.toml"@),
{
    str_starts_with(file_name, "tmp") && !crate::storage::str_eq(file_name, "info.toml")
}

/// The issue for a temporary file name left in place.
pub fn temp_name_issue(dir_name: &str, file_name: &str) -> (s: String)
    ensures
        s@ == "temp name: "@ + dir_name@ + "/"@ + file_name@,
{
    path_line("temp name: ", dir_name, file_name)
}

/// `name` in double quotes, as it appears in `info.toml`.
pub open spec fn quoted(name: Seq<char>) -> Seq<char> {
    "\""@ + name + "\""@
}

fn quote(name: &str) -> (s: String)
    ensures
        s@ == quoted(name@),
        s@.len() > 0,
{
    let mut s = String::new();
    push_str(&mut s, "\"");
    push_str(&mut s, name);
    push_str(&mut s, "\"");
    proof {
        reveal_strlit("\"");
    }
    assert(s@ =~= quoted(name@));
    s
}

/// The `info.toml` text once a non-PDF listed file is dropped: its quoted
/// name is removed, and an emptied multi-line list is closed up.
pub open spec fn content_without(content: Seq<char>, file: Seq<char>) -> Seq<char> {
    text::replace_all(
        text::replace_all(content, quoted(file), Seq::empty()),
        "files = [\n    \n]"@,
        "files = []"@,
    )
}

/// Rewrites `info.toml` text to forget the listed `file`.
pub fn drop_listed_file(content: &str, file: &str) -> (s: String)
    ensures
        s@ == content_without(content@, file@),
{
    proof {
        reveal_strlit("");
        reveal_strlit("files = [\n    \n]");
        assert(""@ =~= Seq::<char>::empty());
    }
    let q = quote(file);
    let once = replace_str(content, q.as_str(), "");
    let twice = replace_str(once.as_str(), "files = [\n    \n]", "files = []");
    twice
}

/// The name a stray temporary PDF is given: the directory's own name.
pub fn proper_pdf_name(dir_name: &str) -> (s: String)
    ensures
        s@ == dir_name@ + ".pdf"@,
{
    let mut s = String::new();
    push_str(&mut s, dir_name);
    push_str(&mut s, ".pdf");
    assert(s@ =~= dir_name@ + ".pdf"@);
    s
}

/// The `info.toml` text once the temporary `file` was renamed after its
/// directory.
pub fn rename_listed_file(content: &str, file: &str, dir_name: &str) -> (s: String)
    ensures
        s@ == text::replace_all(content@, quoted(file@), quoted(dir_name@ + ".pdf"@)),
{
    let q = quote(file);
    let proper = proper_pdf_name(dir_name);
    let qp = quote(proper.as_str());
    replace_str(content, q.as_str(), qp.as_str())
}

/// What validation does about a file listed in an entry.
pub enum ListedStep {
    /// Delete the file and drop it from the list (a repair).
    Remove,
    /// Report the issue.
    Report(String),
    /// Nothing: the file is a PDF.
    Keep,
}

/// The step for a listed file in `state`: with `fix`, a listed file that is
/// not a PDF is removed; otherwise its issue, if any, is reported.
pub fn listed_file_step(dir_name: &str, file: &str, state: ListedFile, fix: bool) -> (s: ListedStep)
    ensures
        fix && state == ListedFile::NotPdf ==> s is Remove,
        !(fix && state == ListedFile::NotPdf) ==> match listed_file_line(dir_name@, file@, state) {
            Some(l) => s matches ListedStep::Report(m) && m@ == l,
            None => s is Keep,
        },
{
    if fix && state == ListedFile::NotPdf {
        return ListedStep::Remove;
    }
    match listed_file_issue(dir_name, file, state) {
        Some(m) => ListedStep::Report(m),
        None => ListedStep::Keep,
    }
}

/// What validation does about a file in an entry's directory.
pub enum TempStep {
    /// Nothing: the name is not a temporary one.
    Leave,
    /// Rename the file to the given name and update the list (a repair).
    Rename(String),
    /// Report the temporary name.
    Report(String),
}

/// The step for the file `file_name` in the entry `dir_name`, which starts
/// like a PDF or not (`pdf`): a temporary name (`tmp…`) is repaired, with
/// `fix`, when the file is a PDF named `*.pdf`, by renaming it to the entry's
/// PDF name; otherwise it is reported.
pub fn temp_file_step(dir_name: &str, file_name: &str, fix: bool, pdf: bool) -> (s: TempStep)
    ensures
        !(text::starts_with(file_name@, "tmp"@) && file_name@ != "info.toml"@) ==> s is Leave,
        text::starts_with(file_name@, "tmp"@) && file_name@ != "info.toml"@ ==> if fix && text::ends_with(
            file_name@,
            ".pdf"@,
        ) && pdf {
            s matches TempStep::Rename(n) && n@ == dir_name@ + ".pdf"@
        } else {
            s matches TempStep::Report(m) && m@ == "temp name: "@ + dir_name@ + "/"@ + file_name@
        },
{
    if !is_temp_name(file_name) {
        return TempStep::Leave;
    }
    if fix && text::str_ends_with(file_name, ".pdf") && pdf {
        TempStep::Rename(proper_pdf_name(dir_name))
    } else {
        TempStep::Report(temp_name_issue(dir_name, file_name))
    }
}

} // verus!
