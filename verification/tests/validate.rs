use grimoire::model::Reference;
use grimoire::validate::{
    drop_listed_file, is_temp_name, listed_file_issue, metadata_issues, no_pdf_issue, rename_listed_file,
    temp_name_issue, listed_file_step, temp_file_step, ListedFile, ListedStep, TempStep, ValidateResult,
};

#[test]
fn summaries() {
    let ok = ValidateResult { total: 3, fixed: 0, issues: vec![] };
    assert_eq!(ok.summary(), "Library OK — 3 references");
    let fixed = ValidateResult { total: 3, fixed: 2, issues: vec![] };
    assert_eq!(fixed.summary(), "Fixed 2 issues");
    let both = ValidateResult { total: 3, fixed: 2, issues: vec!["x".to_string()] };
    assert_eq!(both.summary(), "3 issues, fixed 2");
    let found = ValidateResult { total: 3, fixed: 0, issues: vec!["x".to_string(), "y".to_string()] };
    assert_eq!(found.summary(), "2 issues found");
}

#[test]
fn issue_lines() {
    let r = Reference::titled(String::new());
    assert_eq!(
        metadata_issues("d", &r),
        ["missing title: d", "missing authors: d", "missing year: d"]
    );
    assert_eq!(listed_file_issue("d", "f.pdf", ListedFile::Missing).as_deref(), Some("listed but missing: d/f.pdf"));
    assert_eq!(listed_file_issue("d", "f.pdf", ListedFile::NotPdf).as_deref(), Some("not a PDF: d/f.pdf"));
    assert_eq!(listed_file_issue("d", "f.pdf", ListedFile::Pdf), None);
    assert_eq!(no_pdf_issue("d", false, &r).as_deref(), Some("no PDF: d"));
    assert!(is_temp_name("tmpabc.pdf"));
    assert!(!is_temp_name("paper.pdf"));
    assert_eq!(temp_name_issue("d", "tmp1"), "temp name: d/tmp1");
}

#[test]
fn fixes_rewrite_info_toml() {
    let content = "title = \"T\"\nfiles = [\n    \"x.html\"\n]\n";
    assert_eq!(drop_listed_file(content, "x.html"), "title = \"T\"\nfiles = []\n");
    let content = "files = [\"tmp1.pdf\"]\n";
    assert_eq!(rename_listed_file(content, "tmp1.pdf", "paper-2020-x"), "files = [\"paper-2020-x.pdf\"]\n");
}

#[test]
fn repairs_are_chosen_only_with_fix() {
    match listed_file_step("p", "x.pdf", ListedFile::NotPdf, true) {
        ListedStep::Remove => {}
        _ => panic!("a non-PDF is removed with fix"),
    }
    match listed_file_step("p", "x.pdf", ListedFile::NotPdf, false) {
        ListedStep::Report(m) => assert_eq!(m, "not a PDF: p/x.pdf"),
        _ => panic!("reported without fix"),
    }
    assert!(matches!(listed_file_step("p", "x.pdf", ListedFile::Pdf, true), ListedStep::Keep));
    match temp_file_step("p", "tmp123.pdf", true, true) {
        TempStep::Rename(n) => assert_eq!(n, "p.pdf"),
        _ => panic!("renamed with fix"),
    }
    match temp_file_step("p", "tmp123.pdf", true, false) {
        TempStep::Report(m) => assert_eq!(m, "temp name: p/tmp123.pdf"),
        _ => panic!("not a PDF: reported"),
    }
    assert!(matches!(temp_file_step("p", "info.toml", true, true), TempStep::Leave));
    assert!(matches!(temp_file_step("p", "paper.pdf", true, true), TempStep::Leave));
}
