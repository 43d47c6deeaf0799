use grimoire::model::{Reference, ReferenceKind};
use grimoire::update::{apply_update, changed_fields, UpdateError, UpdateRequest};

fn nothing() -> UpdateRequest {
    UpdateRequest {
        title: None,
        authors: vec![],
        clear_authors: false,
        year: None,
        clear_year: false,
        doi: None,
        clear_doi: false,
        arxiv: None,
        clear_arxiv: false,
        journal: None,
        clear_journal: false,
        abstract_text: None,
        clear_abstract: false,
        add_tags: vec![],
        remove_tags: vec![],
    }
}

fn sample() -> Reference {
    let mut r = Reference::titled("Synthetic Work".to_string());
    r.authors = vec!["Ada Example".to_string()];
    r.year = Some(2020);
    r.doi = Some("10.1/x".to_string());
    r.journal = Some("Journal".to_string());
    r.tags = vec!["ML".to_string(), "reading".to_string()];
    r
}

#[test]
fn empty_update_is_refused() {
    let r = sample();
    let e = apply_update(&r, &nothing()).unwrap_err();
    assert_eq!(e, UpdateError::NothingRequested);
    assert_eq!(e.message(), "No metadata changes were requested");
}

#[test]
fn given_values_win_over_clearing() {
    let r = sample();
    let mut u = nothing();
    u.title = Some("New Title".to_string());
    u.authors = vec!["Bo Writer".to_string(), "Cy Author".to_string()];
    u.clear_authors = true;
    u.year = Some(2024);
    u.clear_year = true;
    u.clear_doi = true;
    u.arxiv = Some("2401.00001".to_string());
    u.clear_journal = true;
    u.abstract_text = Some("Text".to_string());
    let v = apply_update(&r, &u).unwrap();
    assert_eq!(v.title, "New Title");
    assert_eq!(v.authors, ["Bo Writer", "Cy Author"]);
    assert_eq!(v.year, Some(2024));
    assert_eq!(v.doi, None);
    assert_eq!(v.arxiv.as_deref(), Some("2401.00001"));
    assert_eq!(v.journal, None);
    assert_eq!(v.abstract_text.as_deref(), Some("Text"));
    assert_eq!(v.tags, r.tags);
}

#[test]
fn clearing_without_value() {
    let r = sample();
    let mut u = nothing();
    u.clear_authors = true;
    u.clear_year = true;
    let v = apply_update(&r, &u).unwrap();
    assert!(v.authors.is_empty());
    assert_eq!(v.year, None);
    assert_eq!(v.doi, r.doi);
    assert_eq!(v.title, r.title);
}

#[test]
fn tags_are_matched_ignoring_case() {
    let r = sample();
    let mut u = nothing();
    u.remove_tags = vec!["ml".to_string()];
    u.add_tags = vec!["READING".to_string(), "new".to_string(), "NEW".to_string()];
    let v = apply_update(&r, &u).unwrap();
    assert_eq!(v.tags, ["reading", "new"]);
}

#[test]
fn changed_fields_in_json_order() {
    let r = sample();
    let mut u = nothing();
    u.title = Some("New Title".to_string());
    u.clear_year = true;
    u.add_tags = vec!["extra".to_string()];
    u.abstract_text = Some("A".to_string());
    let v = apply_update(&r, &u).unwrap();
    assert_eq!(changed_fields(&r, &v), ["abstract", "tags", "title", "year"]);
    assert!(changed_fields(&r, &r).is_empty());
}

#[test]
fn kind_and_isbn_count_only_when_saved_on_both_sides() {
    let r = sample();
    let mut book = r.clone();
    book.kind = ReferenceKind::Book;
    book.isbn = vec!["978-0-00-000000-0".to_string()];
    assert!(changed_fields(&r, &book).is_empty());
    let mut other = book.clone();
    other.isbn = vec!["978-1-11-111111-1".to_string()];
    assert_eq!(changed_fields(&book, &other), ["isbn"]);
}
