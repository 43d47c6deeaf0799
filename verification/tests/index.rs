use grimoire::index::{fts_query, fulltext_source, index_reference, limit_hits, SearchError};
use grimoire::model::Reference;

#[test]
fn rows_join_lists() {
    let mut r = Reference::titled("T".to_string());
    r.authors = vec!["A".to_string(), "B".to_string()];
    r.tags = vec!["x".to_string(), "y".to_string()];
    r.files = vec!["f.pdf".to_string()];
    let row = index_reference("dir", &r, Some("full".to_string()));
    assert_eq!(row.authors, "A; B");
    assert_eq!(row.tags, "x, y");
    assert_eq!(row.files, "f.pdf");
    assert_eq!(row.fulltext.as_deref(), Some("full"));
    assert_eq!(fulltext_source(&r).as_deref(), Some("f.pdf"));
}

#[test]
fn queries_are_quoted_phrases() {
    assert_eq!(fts_query("  deep \"learning\"  ").unwrap(), "\"deep\" \"learning\"");
    assert_eq!(fts_query("   "), Err(SearchError::EmptyQuery));
    assert_eq!(limit_hits(vec![1, 2, 3], Some(2)), [1, 2]);
    assert_eq!(limit_hits(vec![1, 2, 3], None), [1, 2, 3]);
}
