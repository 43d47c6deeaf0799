use grimoire::fetch::{
    detect_arxiv_id, detect_doi, detect_doi_in_url, detect_doi_url, detect_pmc_id, detect_pmid,
    is_pdf_bytes, titles_match,
};

#[test]
fn validates_pdf_signature() {
    assert!(is_pdf_bytes(b"%PDF-1.7\nsynthetic"));
    assert!(!is_pdf_bytes(b"<html>synthetic</html>"));
}

#[test]
fn extracts_doi_embedded_in_a_url() {
    assert_eq!(
        detect_doi_in_url("https://journals.plos.org/plosone/article?id=10.1371/journal.pone.0123456"),
        Some("10.1371/journal.pone.0123456".to_string())
    );
    assert_eq!(
        detect_doi_in_url("https://example.org/article?id=10.1371%2Fjournal.pone.0123456"),
        Some("10.1371/journal.pone.0123456".to_string())
    );
    assert_eq!(
        detect_doi_in_url("https://host/pdf/10.1016/j.media.2022.102464.pdf#page=1"),
        Some("10.1016/j.media.2022.102464".to_string())
    );
    assert_eq!(detect_doi_in_url("https://arxiv.org/abs/2301.12345"), None);
}

#[test]
fn detects_pmid_from_url_and_prefix() {
    assert_eq!(
        detect_pmid("https://pubmed.ncbi.nlm.nih.gov/35432197/"),
        Some("35432197".to_string())
    );
    assert_eq!(detect_pmid("PMID: 35432197"), Some("35432197".to_string()));
    assert_eq!(detect_pmid("https://pmc.ncbi.nlm.nih.gov/articles/PMC123/"), None);
    assert_eq!(detect_pmid("just some text"), None);
}

#[test]
fn detects_pmc_article_urls() {
    assert_eq!(
        detect_pmc_id("https://pmc.ncbi.nlm.nih.gov/articles/PMC1234567/"),
        Some("PMC1234567".to_string())
    );
    assert_eq!(
        detect_pmc_id("https://pmc.ncbi.nlm.nih.gov/articles/PMC1234567/pdf/synthetic.pdf"),
        Some("PMC1234567".to_string())
    );
    assert_eq!(detect_pmc_id("https://example.com/PMC1234567"), None);
}

#[test]
fn distinguishes_doi_resolvers_from_publisher_urls() {
    assert_eq!(
        detect_doi_url("https://doi.org/10.1234/synthetic"),
        Some("10.1234/synthetic".to_string())
    );
    assert_eq!(
        detect_doi_url("https://publisher.example/10.1234/synthetic.pdf"),
        None
    );
}

#[test]
fn arxiv_ids_and_dois_are_recognized() {
    assert_eq!(detect_arxiv_id("2301.12345"), Some("2301.12345".to_string()));
    assert_eq!(
        detect_arxiv_id("https://arxiv.org/abs/1706.03762v5"),
        Some("1706.03762v5".to_string())
    );
    assert_eq!(detect_arxiv_id("not an id"), None);
    assert_eq!(detect_doi("see 10.1000/xyz123 here"), Some("10.1000/xyz123".to_string()));
}

#[test]
fn titles_match_ignoring_case_and_punctuation() {
    assert!(titles_match("Attention Is All You Need", "attention is all you need."));
    assert!(titles_match("Deep Learning", "Deep learning: a review"));
    assert!(!titles_match("", "anything"));
    assert!(!titles_match("Cats", "Dogs"));
}
