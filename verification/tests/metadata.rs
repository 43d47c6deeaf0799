use grimoire::metadata::{indexable_text, parse_authors, reference_from_pdf, split_str};

#[test]
fn author_fields_split_on_the_strongest_separator() {
    assert_eq!(parse_authors("A. One; B. Two;"), ["A. One", "B. Two"]);
    assert_eq!(parse_authors("One, Two, Three"), ["One", "Two", "Three"]);
    assert_eq!(parse_authors("Last, First"), ["Last, First"]);
    assert_eq!(parse_authors("Ada and Bob"), ["Ada", "Bob"]);
    assert_eq!(parse_authors("  Solo  "), ["Solo"]);
}

#[test]
fn pdf_metadata_makes_a_reference() {
    let r = reference_from_pdf(None, Some("A; B".to_string()), "x.pdf".to_string(), Some("x".to_string()));
    assert_eq!(r.title, "x");
    assert_eq!(r.authors, ["A", "B"]);
    assert_eq!(r.files, ["x.pdf"]);
    let r = reference_from_pdf(None, Some(String::new()), "y.pdf".to_string(), None);
    assert_eq!(r.title, "Untitled");
    assert!(r.authors.is_empty());
    assert_eq!(indexable_text(" \n".to_string()), None);
    assert_eq!(indexable_text("text".to_string()), Some("text".to_string()));
}

#[test]
fn splitting_matches_str_split() {
    assert_eq!(split_str("a,,b,", ","), ["a", "", "b", ""]);
    assert_eq!(split_str("x and y and", " and "), ["x", "y and"]);
}
