use grimoire::export::{bibtex_document, export_format, family_given, is_exported, to_bibtex, ExportFormat};
use grimoire::model::{Reference, ReferenceKind};

#[test]
fn exports_books_as_bibtex_books() {
    let mut reference = Reference::titled("Synthetic Analysis".to_string());
    reference.kind = ReferenceKind::Book;
    reference.authors = vec!["Ada Example".to_string()];
    reference.year = Some(2026);
    reference.edition = Some("2".to_string());
    reference.publisher = Some("Example Press".to_string());
    reference.series = Some("Synthetic Mathematics".to_string());
    reference.isbn = vec!["978-0-00-000000-0".to_string()];

    let bibtex = to_bibtex("example-2026-synthetic", &reference);
    assert!(bibtex.starts_with("@book{example-2026-synthetic,"));
    assert!(bibtex.contains("publisher = {Example Press}"));
    assert!(bibtex.contains("edition = {2}"));
    assert!(bibtex.contains("isbn = {978-0-00-000000-0}"));
}

#[test]
fn papers_are_articles_with_family_names_first() {
    let mut reference = Reference::titled("A Paper".to_string());
    reference.authors = vec!["Ada Lovelace".to_string()];
    let bibtex = to_bibtex("k", &reference);
    assert!(bibtex.starts_with("@article{k,"));
    assert_eq!(family_given("Ada Lovelace"), "Lovelace, Ada");
}

#[test]
fn export_formats_are_named_ignoring_case() {
    assert_eq!(export_format("YML").unwrap(), ExportFormat::Yaml);
    assert_eq!(export_format("json").unwrap(), ExportFormat::Json);
    assert_eq!(export_format("Bib").unwrap(), ExportFormat::Bibtex);
    assert_eq!(export_format("hayagriva").unwrap(), ExportFormat::Hayagriva);
    let e = export_format("CSV").unwrap_err();
    assert_eq!(e.message(), "Unknown export format: csv (expected yaml, json, bibtex, or hayagriva)");
}

#[test]
fn export_tag_filter_matches_any_tag_exactly() {
    let tags = vec!["ML".to_string(), "reading".to_string()];
    assert!(is_exported(&vec![], &tags));
    assert!(is_exported(&vec!["x".to_string(), "reading".to_string()], &tags));
    assert!(!is_exported(&vec!["ml".to_string()], &tags));
    assert!(!is_exported(&vec!["ML".to_string()], &vec![]));
}

#[test]
fn bibtex_document_separates_entries_by_blank_lines() {
    let a = Reference::titled("A".to_string());
    let b = Reference::titled("B".to_string());
    let doc = bibtex_document(&vec!["ka".to_string(), "kb".to_string()], &vec![a.clone(), b.clone()]);
    assert_eq!(doc, format!("{}\n\n{}", to_bibtex("ka", &a), to_bibtex("kb", &b)));
    assert_eq!(bibtex_document(&vec![], &vec![]), "");
}
