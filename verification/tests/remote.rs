use grimoire::remote::{
    arxiv_query_url, clean_abstract, crossref_pdf_url, crossref_work_url, download_file_name,
    download_pdf, fetch_arxiv, fetch_crossref, pmc_doi, pubmed_doi, resolve_landing_page,
    title_search_doi, title_search_url, ArticleId, CrossrefAuthor, CrossrefLink, CrossrefMessage,
    FetchError, LookupError, PmcRecord, SearchHit,
};

const FEED: &str = r#"<?xml version="1.0" encoding="UTF-8"?>
<feed xmlns="http://www.w3.org/2005/Atom">
  <title>ArXiv Query</title>
  <entry>
    <id>http://arxiv.org/abs/1706.03762v5</id>
    <published>2017-06-12T17:57:34Z</published>
    <title>Attention Is All
      You Need</title>
    <summary>  The dominant sequence transduction models &amp; more.  </summary>
    <author><name>Ashish Vaswani</name></author>
    <author><name>Noam Shazeer</name></author>
    <arxiv:doi xmlns:arxiv="http://arxiv.org/schemas/atom">10.48550/arXiv.1706.03762</arxiv:doi>
  </entry>
</feed>"#;

#[test]
fn reads_the_first_arxiv_entry() {
    let r = fetch_arxiv("1706.03762.pdf", FEED).unwrap();
    assert_eq!(r.title, "Attention Is All You Need");
    assert_eq!(r.authors, ["Ashish Vaswani", "Noam Shazeer"]);
    assert_eq!(r.year, Some(2017));
    assert_eq!(r.doi.as_deref(), Some("10.48550/arXiv.1706.03762"));
    assert_eq!(r.arxiv.as_deref(), Some("1706.03762"));
    assert_eq!(r.abstract_text.as_deref(), Some("The dominant sequence transduction models & more."));
    assert_eq!(arxiv_query_url("1706.03762.pdf"), "https://export.arxiv.org/api/query?id_list=1706.03762");
}

#[test]
fn an_arxiv_feed_without_a_title_is_refused() {
    let feed = "<feed><entry><summary>x</summary></entry></feed>";
    assert_eq!(fetch_arxiv("1", feed), Err(FetchError::NoTitle));
    assert!(matches!(fetch_arxiv("1", "<feed><entry><title>T</tit"), Err(_)));
}

#[test]
fn abstracts_lose_markup_and_their_label() {
    assert_eq!(clean_abstract("<jats:p>Abstract: We  study <i>x</i>.</jats:p>"), "We study x.");
    assert_eq!(clean_abstract("ABSTRACT. Text"), "Text");
    assert_eq!(clean_abstract("a <> b"), "a <> b");
}

#[test]
fn crossref_records_become_references() {
    let message = CrossrefMessage {
        title: Some("A Work".to_string()),
        authors: vec![
            CrossrefAuthor { given: Some("Ada".to_string()), family: Some("Lovelace".to_string()) },
            CrossrefAuthor { given: None, family: Some("Babbage".to_string()) },
            CrossrefAuthor { given: Some("Nobody".to_string()), family: None },
        ],
        published_print: None,
        published_online: Some(2021),
        created: Some(2020),
        doi: Some("10.1/w".to_string()),
        container_title: Some("Journal".to_string()),
        abstract_text: Some("<p>Abstract text</p>".to_string()),
    };
    let r = fetch_crossref(&message);
    assert_eq!(r.title, "A Work");
    assert_eq!(r.authors, ["Ada Lovelace", "Babbage"]);
    assert_eq!(r.year, Some(2021));
    assert_eq!(r.journal.as_deref(), Some("Journal"));
    assert_eq!(r.abstract_text.as_deref(), Some("Abstract text"));
    let untitled = CrossrefMessage { title: None, authors: vec![], published_print: Some(70000), published_online: None, created: None, doi: None, container_title: None, abstract_text: None };
    let r = fetch_crossref(&untitled);
    assert_eq!(r.title, "Untitled");
    assert_eq!(r.year, None);
    assert_eq!(crossref_work_url("10.1/w"), "https://api.crossref.org/works/10.1/w");
}

#[test]
fn title_searches_need_a_matching_hit_with_a_doi() {
    assert_eq!(title_search_doi("A Work", None), Err(FetchError::NoResults));
    let other = SearchHit { title: Some("Something Else".to_string()), doi: Some("10.1/x".to_string()) };
    assert_eq!(title_search_doi("A Work", Some(other)), Err(FetchError::NoMatch));
    let no_doi = SearchHit { title: Some("a work".to_string()), doi: None };
    assert_eq!(title_search_doi("A Work", Some(no_doi)), Err(FetchError::NoDoi));
    let hit = SearchHit { title: Some("A Work: extended".to_string()), doi: Some("10.1/w".to_string()) };
    assert_eq!(title_search_doi("A Work", Some(hit)), Ok("10.1/w".to_string()));
    assert_eq!(
        title_search_url("a b&c"),
        "https://api.crossref.org/works?query.title=a%20b%26c&rows=1"
    );
}

#[test]
fn reads_meta_tags_in_either_attribute_order() {
    let html = r#"<meta name="citation_doi" content="10.1038/s41586-021-03819-2">"#;
    let info = resolve_landing_page("https://x.org/page", html);
    assert_eq!(info.doi, Some("10.1038/s41586-021-03819-2".to_string()));
    assert_eq!(info.pdf_url, None);
    let reversed = r#"<meta content="https://x.org/a.pdf" name="citation_pdf_url" />"#;
    let info = resolve_landing_page("https://x.org/page", reversed);
    assert_eq!(info.pdf_url, Some("https://x.org/a.pdf".to_string()));
}

#[test]
fn landing_pages_resolve_relative_pdfs_and_labelled_dois() {
    let html = r#"<html><META NAME='DC.Identifier' CONTENT='doi:10.5555/abc'><meta name="citation_pdf_url" content="/files/a.pdf"></html>"#;
    let info = resolve_landing_page("https://pub.example/article/1", html);
    assert_eq!(info.doi, Some("10.5555/abc".to_string()));
    assert_eq!(info.pdf_url, Some("https://pub.example/files/a.pdf".to_string()));
}

#[test]
fn parses_doi_from_pubmed_esummary() {
    let ids = vec![
        ArticleId { idtype: Some("pubmed".to_string()), value: Some("35432197".to_string()) },
        ArticleId { idtype: Some("doi".to_string()), value: Some("10.1038/s41586-021-03819-2".to_string()) },
    ];
    assert_eq!(pubmed_doi("35432197", Some(ids)).unwrap(), "10.1038/s41586-021-03819-2");
    let no_doi = vec![ArticleId { idtype: Some("pubmed".to_string()), value: Some("1".to_string()) }];
    assert!(pubmed_doi("1", Some(no_doi)).is_err());
    assert_eq!(pubmed_doi("7", None), Err(LookupError::NoRecord("7".to_string())));
}

#[test]
fn parses_pmc_doi() {
    let records = vec![PmcRecord { pmcid: Some("PMC1234567".to_string()), doi: Some("10.1234/synthetic".to_string()) }];
    assert_eq!(pmc_doi("PMC1234567", &records).unwrap(), "10.1234/synthetic");
    assert_eq!(pmc_doi("pmc1234567", &records).unwrap(), "10.1234/synthetic");
    assert!(pmc_doi("PMC9", &records).is_err());
}

#[test]
fn selects_and_secures_crossref_pdf_url() {
    let links = vec![
        CrossrefLink { url: Some("https://example.com/article.xml".to_string()), content_type: Some("application/xml".to_string()) },
        CrossrefLink { url: Some("http://example.com/synthetic.pdf".to_string()), content_type: Some("unspecified".to_string()) },
    ];
    assert_eq!(crossref_pdf_url(&links), Some("https://example.com/synthetic.pdf".to_string()));
    assert_eq!(crossref_pdf_url(&vec![]), None);
}

#[test]
fn downloads_must_be_pdfs() {
    assert!(download_pdf(b"%PDF-1.7".to_vec()).is_ok());
    assert_eq!(download_pdf(b"<html>".to_vec()), Err(FetchError::NotPdf));
    assert_eq!(download_file_name("https://x.org/files/Paper.PDF"), "Paper.PDF");
    assert_eq!(download_file_name("https://x.org/files/page/"), "download.pdf");
    assert_eq!(download_file_name("not a url"), "download.pdf");
}

#[test]
fn title_queries_percent_encode_utf8_bytes() {
    assert_eq!(
        title_search_url("Über α&b-c_d.e~f"),
        "https://api.crossref.org/works?query.title=%C3%9Cber%20%CE%B1%26b-c_d.e~f&rows=1"
    );
}
