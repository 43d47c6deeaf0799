use grimoire::fetch::{detect_arxiv_id, detect_doi, detect_doi_in_url, detect_pmc_id, detect_pmid};
use grimoire::remote::clean_abstract;
use regex::Regex;

fn arxiv_by_pattern(input: &str) -> Option<String> {
    let re = Regex::new(
        r"^(?:(?:https?://)?(?:www\.)?arxiv\.org/(?:abs|pdf)/)?(\d{4}\.\d{4,5})(v\d+)?(?:\.pdf)?$",
    )
    .unwrap();
    re.captures(input).map(|c| {
        let id = c.get(1).unwrap().as_str();
        match c.get(2) {
            Some(v) => format!("{}{}", id, v.as_str()),
            None => id.to_string(),
        }
    })
}

fn doi_by_pattern(input: &str) -> Option<String> {
    let re = Regex::new(r"(10\.\d{4,9}/[^\s]+)").unwrap();
    re.captures(input).map(|c| c.get(1).unwrap().as_str().to_string())
}

fn pmc_by_pattern(input: &str) -> Option<String> {
    let re = Regex::new(r"(?i)^https?://(?:www\.)?pmc\.ncbi\.nlm\.nih\.gov/articles/(PMC\d+)(?:/.*)?$").unwrap();
    re.captures(input).and_then(|c| c.get(1)).map(|m| m.as_str().to_ascii_uppercase())
}

fn pmid_by_pattern(input: &str) -> Option<String> {
    let url_re = Regex::new(r"(?i)^https?://(?:www\.)?pubmed\.ncbi\.nlm\.nih\.gov/(\d{4,9})/?$").unwrap();
    if let Some(c) = url_re.captures(input) {
        return c.get(1).map(|m| m.as_str().to_string());
    }
    let prefix_re = Regex::new(r"(?i)^pmid:\s*(\d{4,9})$").unwrap();
    prefix_re.captures(input).and_then(|c| c.get(1)).map(|m| m.as_str().to_string())
}

fn doi_in_url_by_pattern(url: &str) -> Option<String> {
    let decoded = urlencoding::decode(url).map(|c| c.into_owned()).unwrap_or_else(|_| url.to_string());
    let mut doi = doi_by_pattern(&decoded)?;
    if let Some(i) = doi.find(['?', '#', '&']) {
        doi.truncate(i);
    }
    let doi = doi.trim_end_matches(['.', ',', ';', ')', '/']);
    let doi = doi.strip_suffix(".pdf").unwrap_or(doi);
    (doi.len() > 3).then(|| doi.to_string())
}

fn abstract_by_pattern(s: &str) -> String {
    let s = Regex::new(r"<[^>]+>").unwrap().replace_all(s, "");
    let s = Regex::new(r"(?i)^\s*abstract[.:]\s*").unwrap().replace(&s, "");
    s.split_whitespace().collect::<Vec<_>>().join(" ")
}

const INPUTS: [&str; 40] = [
    "2301.12345",
    "2301.1234",
    "2301.123",
    "2301.123456",
    "2301.12345v2",
    "2301.12345v",
    "2301.12345.pdf",
    "2301.12345v12.pdf",
    "arxiv.org/abs/2301.12345",
    "https://arxiv.org/abs/2301.12345v3",
    "http://www.arxiv.org/pdf/2301.12345.pdf",
    "https://arxiv.org/html/2301.12345",
    "xarxiv.org/abs/2301.12345",
    " 2301.12345",
    "10.1234/abc",
    "doi:10.1234/abc def",
    "10.123/abc",
    "10.1234567890/x",
    "see 10.1000/182. and more",
    "10.1234/",
    "https://doi.org/10.1234/synthetic",
    "https://journals.plos.org/plosone/article?id=10.1371/journal.pone.0123456",
    "https://example.org/article?id=10.1371%2Fjournal.pone.0123456",
    "https://host/pdf/10.1016/j.media.2022.102464.pdf#page=1",
    "https://host/10.1016/j.x),;.",
    "https://pmc.ncbi.nlm.nih.gov/articles/PMC1234567/",
    "https://pmc.ncbi.nlm.nih.gov/articles/pmc1234567/pdf/synthetic.pdf",
    "HTTPS://WWW.PMC.NCBI.NLM.NIH.GOV/ARTICLES/PMC12",
    "https://pmc.ncbi.nlm.nih.gov/articles/PMC",
    "https://example.com/PMC1234567",
    "https://pubmed.ncbi.nlm.nih.gov/35432197/",
    "https://pubmed.ncbi.nlm.nih.gov/123/",
    "http://www.PubMed.ncbi.nlm.nih.gov/1234567890",
    "PMID: 35432197",
    "pmid:1234",
    "PMID:\t987654321",
    "PMID 1234",
    "",
    "10.1234/a\u{00a0}b",
    "https://doi.org/10.5555/%41bc?x=1",
];

#[test]
fn identifiers_match_the_patterns() {
    for input in INPUTS {
        assert_eq!(detect_arxiv_id(input), arxiv_by_pattern(input), "arxiv {input:?}");
        assert_eq!(detect_doi(input), doi_by_pattern(input), "doi {input:?}");
        assert_eq!(detect_pmc_id(input), pmc_by_pattern(input), "pmc {input:?}");
        assert_eq!(detect_pmid(input), pmid_by_pattern(input), "pmid {input:?}");
        assert_eq!(detect_doi_in_url(input), doi_in_url_by_pattern(input), "doi in url {input:?}");
    }
}

#[test]
fn abstracts_match_the_patterns() {
    for s in [
        "<jats:p>Abstract: We study <i>things</i>.</jats:p>",
        "  ABSTRACT.  Text  here ",
        "abstracts are nice",
        "Abstract",
        "<p>a</p><p>b</p>",
        "x < y and y > z",
        "<>empty tag",
        "  abstract:\n\nbody",
    ] {
        assert_eq!(clean_abstract(s), abstract_by_pattern(s), "{s:?}");
    }
}

fn meta_by_pattern(html: &str, name: &str) -> Option<String> {
    let name = regex::escape(name);
    let patterns = [
        format!(r#"(?is)<meta[^>]*\bname=["']{name}["'][^>]*\bcontent=["']([^"']*)["']"#),
        format!(r#"(?is)<meta[^>]*\bcontent=["']([^"']*)["'][^>]*\bname=["']{name}["']"#),
    ];
    for pat in patterns {
        if let Some(c) = Regex::new(&pat).ok()?.captures(html) {
            if let Some(m) = c.get(1) {
                let val = m.as_str().trim();
                if !val.is_empty() {
                    return Some(val.to_string());
                }
            }
        }
    }
    None
}

fn landing_by_pattern(url: &str, html: &str) -> (Option<String>, Option<String>) {
    let doi = meta_by_pattern(html, "citation_doi")
        .or_else(|| meta_by_pattern(html, "prism.doi"))
        .or_else(|| meta_by_pattern(html, "dc.identifier").filter(|s| s.contains("10.")))
        .map(|d| d.trim().trim_start_matches("doi:").trim_start_matches("DOI:").trim().to_string())
        .and_then(|d| doi_by_pattern(&d));
    let pdf = meta_by_pattern(html, "citation_pdf_url").map(|u| {
        reqwest::Url::parse(url).and_then(|b| b.join(&u)).map(|u| u.to_string()).unwrap_or_else(|_| u.to_string())
    });
    (doi, pdf)
}

#[test]
fn landing_pages_match_the_patterns() {
    let url = "https://publisher.example/articles/42";
    for html in [
        r#"<meta name="citation_doi" content="10.1234/abc"><meta name="citation_pdf_url" content="/pdf/42.pdf">"#,
        r#"<META CONTENT='doi:10.5555/x.y' NAME='prism.doi'/>"#,
        r#"<meta name="dc.identifier" content="urn:isbn:123"><meta name="dc.identifier" content="10.1/zz">"#,
        r#"<meta name="dc.identifier" content="DOI: 10.7777/q">"#,
        r#"<meta property="og" name="citation_pdf_url" content="https://cdn.example/a.pdf" />"#,
        r#"<meta name="citation_doi" content="  "><meta name="citation_doi" content="10.9999/second">"#,
        r#"<meta
            name="citation_doi"
            content="10.4242/multi">"#,
        r#"<metaname="citation_doi" content="10.1/none">"#,
        r#"<meta data-name="citation_doi" content="10.1/none">"#,
        "<meta x\u{b2}name=\"citation_doi\" content=\"10.1/sup\">",
        "<meta e\u{301}name=\"citation_doi\" content=\"10.1/mark\">",
        "<meta x\u{203f}name=\"citation_doi\" content=\"10.1/tie\">",
        "no tags at all",
    ] {
        let info = grimoire::remote::resolve_landing_page(url, html);
        assert_eq!((info.doi, info.pdf_url), landing_by_pattern(url, html), "{html:?}");
    }
}

#[test]
fn unicode_digits_count_as_the_patterns_count_them() {
    for input in [
        "10.\u{663}\u{664}\u{665}\u{666}/x",
        "\u{966}\u{967}\u{968}\u{969}.\u{966}\u{967}\u{968}\u{969}\u{96a}",
        "pmid: \u{ff11}\u{ff12}\u{ff13}\u{ff14}",
        "https://pmc.ncbi.nlm.nih.gov/articles/PMC\u{661}\u{662}/",
        "10.\u{b2}\u{b3}\u{b9}4/x",
        "2301.\u{2460}2345",
        "http\u{17f}://pmc.ncbi.nlm.nih.gov/articles/PMC1234/",
        "HTTPS://PMC.NCBI.NLM.NIH.GOV/ARTICLE\u{17f}/pmc12/",
        "https://pmc.ncbi.nlm.nih.gov/artic\u{130}es/PMC12/",
        "https://pubmed.ncbi.nlm.nih.gov/12345/",
    ] {
        assert_eq!(detect_arxiv_id(input), arxiv_by_pattern(input), "arxiv {input:?}");
        assert_eq!(detect_doi(input), doi_by_pattern(input), "doi {input:?}");
        assert_eq!(detect_pmc_id(input), pmc_by_pattern(input), "pmc {input:?}");
        assert_eq!(detect_pmid(input), pmid_by_pattern(input), "pmid {input:?}");
    }
    assert_eq!(detect_doi("10.\u{663}\u{664}\u{665}\u{666}/x"), Some("10.\u{663}\u{664}\u{665}\u{666}/x".to_string()));
}
