use grimoire::enrich::{enrich_entry, enrich_sources, next_lookup, LookupStep, SourceKind};
use grimoire::model::Reference;

#[test]
fn enrichment_only_fills_missing_fields() {
    let mut r = Reference::titled("T".to_string());
    r.year = Some(0);
    r.journal = Some("Kept".to_string());
    let mut fetched = Reference::titled("Other".to_string());
    fetched.year = Some(2020);
    fetched.journal = Some("New".to_string());
    fetched.doi = Some("10.1/x".to_string());
    let u = enrich_entry(&r, Some(fetched.clone())).unwrap();
    assert_eq!(u.title, "T");
    assert_eq!(u.year, Some(2020));
    assert_eq!(u.journal.as_deref(), Some("Kept"));
    assert_eq!(u.doi.as_deref(), Some("10.1/x"));
    assert_eq!(enrich_entry(&u, Some(fetched)).unwrap(), u);
    assert!(enrich_entry(&r, None).is_none());
}

fn plan(dir: &str, r: &Reference) -> Vec<(SourceKind, String)> {
    enrich_sources(dir, r).into_iter().map(|s| (s.kind, s.key)).collect()
}

#[test]
fn lookup_order() {
    let mut r = Reference::titled("T".to_string());
    r.files = vec!["2301.12345.pdf".to_string()];
    r.doi = Some("10.1/x".to_string());
    assert_eq!(
        plan("dir", &r),
        vec![
            (SourceKind::Arxiv, "2301.12345".to_string()),
            (SourceKind::Doi, "10.1/x".to_string()),
            (SourceKind::Title, "T".to_string()),
        ]
    );
    r.files.clear();
    assert_eq!(
        plan("dir", &r),
        vec![(SourceKind::Doi, "10.1/x".to_string()), (SourceKind::Title, "T".to_string())]
    );
    r.doi = None;
    assert_eq!(
        plan("2301.12345", &r),
        vec![(SourceKind::Arxiv, "2301.12345".to_string()), (SourceKind::Title, "T".to_string())]
    );
    assert_eq!(plan("dir", &r), vec![(SourceKind::Title, "T".to_string())]);
    let blank = Reference::titled(String::new());
    assert!(plan("dir", &blank).is_empty());
}

#[test]
fn a_failed_lookup_falls_back_to_the_next_source() {
    let mut r = Reference::titled("T".to_string());
    r.arxiv = Some("2301.12345".to_string());
    r.doi = Some("10.1/x".to_string());
    assert_eq!(plan("dir", &r).len(), 3);
    assert!(matches!(next_lookup(&r, 3, 0, None), LookupStep::Try(1)));
    let mut fetched = Reference::titled("Other".to_string());
    fetched.year = Some(2023);
    match next_lookup(&r, 3, 1, Some(fetched)) {
        LookupStep::Enriched(u) => {
            assert_eq!(u.year, Some(2023));
            assert_eq!(u.title, "T");
        }
        _ => panic!("the DOI lookup resolved"),
    }
    assert!(matches!(next_lookup(&r, 3, 2, None), LookupStep::Unresolved));
}
