use grimoire::add::{
    add_result, check_batch, classify_input, with_arxiv_metadata, AddError, AddOptions, AddSource,
};
use grimoire::model::{Reference, ReferenceKind};

#[test]
fn options_fill_the_reference() {
    let mut options = AddOptions::none();
    assert!(!options.has_overrides());
    options.kind = ReferenceKind::Book;
    options.title = Some("  Synthetic Analysis ".to_string());
    options.authors = vec![" Ada Example ".to_string()];
    options.year = Some(2026);
    options.edition = Some(" 2 ".to_string());
    options.isbn = vec!["  ".to_string(), " 978 ".to_string()];
    assert!(options.has_overrides());
    let mut r = Reference::titled("From PDF".to_string());
    r.publisher = Some("old".to_string());
    options.apply(&mut r).unwrap();
    assert_eq!(r.kind, ReferenceKind::Book);
    assert_eq!(r.title, "Synthetic Analysis");
    assert_eq!(r.authors, ["Ada Example"]);
    assert_eq!(r.year, Some(2026));
    assert_eq!(r.edition.as_deref(), Some("2"));
    assert_eq!(r.publisher, None);
    assert_eq!(r.isbn, ["978"]);
}

#[test]
fn bad_options_are_refused_and_change_nothing() {
    let mut options = AddOptions::none();
    options.publisher = Some("Press".to_string());
    let mut r = Reference::titled("T".to_string());
    assert_eq!(options.apply(&mut r), Err(AddError::BookOnly));
    assert_eq!(r.title, "T");

    let mut options = AddOptions::none();
    options.title = Some("   ".to_string());
    assert_eq!(options.check(), Err(AddError::EmptyTitle));

    let mut options = AddOptions::none();
    options.authors = vec!["A".to_string(), " ".to_string()];
    assert_eq!(options.check(), Err(AddError::EmptyAuthor));

    let mut options = AddOptions::none();
    options.kind = ReferenceKind::Book;
    options.isbn = vec![" ".to_string()];
    assert_eq!(options.check(), Err(AddError::EmptyIsbn));

    let mut options = AddOptions::none();
    options.doi = Some("".to_string());
    assert_eq!(options.check(), Err(AddError::EmptyDoi));
}

#[test]
fn inputs_are_recognized_in_order() {
    let none = AddOptions::none();
    assert_eq!(classify_input("paper.pdf", true, &none), Ok(AddSource::File));
    assert_eq!(classify_input("2301.12345", false, &none), Ok(AddSource::Arxiv("2301.12345".to_string())));
    assert_eq!(
        classify_input("https://pmc.ncbi.nlm.nih.gov/articles/PMC123/", false, &none),
        Ok(AddSource::Pmc("PMC123".to_string()))
    );
    assert_eq!(classify_input("PMID: 35432197", false, &none), Ok(AddSource::Pubmed("35432197".to_string())));
    assert_eq!(
        classify_input("https://doi.org/10.1234/x", false, &none),
        Ok(AddSource::DoiUrl("10.1234/x".to_string()))
    );
    assert_eq!(classify_input("https://example.org/page", false, &none), Ok(AddSource::WebUrl));
    assert_eq!(classify_input("10.1234/x", false, &none), Ok(AddSource::Doi("10.1234/x".to_string())));
    assert_eq!(
        classify_input("nothing here", false, &none),
        Err(AddError::Unrecognized("nothing here".to_string()))
    );
    let mut book = AddOptions::none();
    book.kind = ReferenceKind::Book;
    assert_eq!(classify_input("10.1234/x", false, &book), Err(AddError::OverridesNeedPdf));
    assert_eq!(check_batch(2, &book), Err(AddError::OverridesNeedOneInput));
    assert_eq!(check_batch(1, &book), Ok(()));
    assert_eq!(check_batch(3, &none), Ok(()));
}

#[test]
fn batch_results_list_new_keys_sorted() {
    let before = vec!["a".to_string(), "c".to_string()];
    let after = vec!["a".to_string(), "z".to_string(), "c".to_string(), "b".to_string()];
    let r = add_result("x", &before, &after);
    assert_eq!(r.keys, ["b", "z"]);
    assert_eq!(r.status, "added");
    let r = add_result("x", &before, &before);
    assert!(r.keys.is_empty());
    assert_eq!(r.status, "skipped");
}

#[test]
fn fetched_arxiv_metadata_replaces_the_pdf_fields() {
    let mut extracted = Reference::titled("scan".to_string());
    extracted.files = vec!["2301.12345.pdf".to_string()];
    let mut fetched = Reference::titled("Real Title".to_string());
    fetched.arxiv = Some("2301.12345".to_string());
    let r = with_arxiv_metadata(&extracted, &fetched);
    assert_eq!(r.title, "Real Title");
    assert_eq!(r.arxiv.as_deref(), Some("2301.12345"));
    assert_eq!(r.files, ["2301.12345.pdf"]);
}
