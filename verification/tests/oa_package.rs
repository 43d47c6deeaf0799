use grimoire::oa_package::{
    extract_pdf_from_oa_package, file_extension, oa_package_https, parse_pmc_oa_package_url, pdf_from_package, PackageError,
};

fn oa_package(path: &str, contents: &[u8]) -> Vec<u8> {
    oa_package_of(&[(path, contents)])
}

fn oa_package_of(files: &[(&str, &[u8])]) -> Vec<u8> {
    let mut compressed = Vec::new();
    {
        let encoder = flate2::write::GzEncoder::new(&mut compressed, flate2::Compression::default());
        let mut archive = tar::Builder::new(encoder);
        for (path, contents) in files {
            let mut header = tar::Header::new_gnu();
            header.set_size(contents.len() as u64);
            header.set_mode(0o644);
            header.set_cksum();
            archive.append_data(&mut header, path, *contents).unwrap();
        }
        archive.into_inner().unwrap().finish().unwrap();
    }
    compressed
}

#[test]
fn parses_pmc_open_access_package_url() {
    let xml = r#"<OA><record><link format="tgz" href="ftp://example.com/synthetic.tar.gz" /></record></OA>"#;
    assert_eq!(parse_pmc_oa_package_url(xml).unwrap(), "ftp://example.com/synthetic.tar.gz");
}

#[test]
fn extracts_pdf_from_pmc_open_access_package() {
    let compressed = oa_package("synthetic/article.pdf", b"%PDF-1.7\nsynthetic");

    assert_eq!(extract_pdf_from_oa_package(&compressed).unwrap(), b"%PDF-1.7\nsynthetic");
}

#[test]
fn rejects_non_pdf_content_in_pmc_open_access_package() {
    let compressed = oa_package("synthetic/article.pdf", b"<html>synthetic</html>");

    assert_eq!(extract_pdf_from_oa_package(&compressed).unwrap_err().message(), "PMC package entry is not a PDF");
}

#[test]
fn the_first_tgz_link_is_the_package() {
    let xml = r#"<OA><records><record id="PMC1">
        <link format="pdf" href="ftp://example.com/a.pdf"/>
        <link format="tgz"/>
        <link href="ftp://example.com/b.tar.gz" format="tgz">x</link>
        <link format="tgz" href="ftp://example.com/c.tar.gz"/>
    </record></records></OA>"#;
    assert_eq!(parse_pmc_oa_package_url(xml).unwrap(), "ftp://example.com/b.tar.gz");
}

#[test]
fn a_record_without_a_package_is_refused() {
    let xml = r#"<OA><error code="idIsNotOpenAccess">not Open Access</error></OA>"#;
    assert_eq!(parse_pmc_oa_package_url(xml), Err(PackageError::NoPackage));
    assert_eq!(
        PackageError::NoPackage.message(),
        "NCBI did not provide a PMC Open Access package"
    );
    match parse_pmc_oa_package_url("<OA><record></OA>") {
        Err(PackageError::Xml(e)) => {
            assert!(PackageError::Xml(e).message().starts_with("Invalid NCBI PMC Open Access XML: "))
        }
        other => panic!("unexpected {other:?}"),
    }
}

#[test]
fn ftp_packages_are_fetched_over_https() {
    assert_eq!(
        oa_package_https("ftp://ftp.ncbi.nlm.nih.gov/pub/pmc/oa_package/a/b/PMC1.tar.gz"),
        "https://ftp.ncbi.nlm.nih.gov/pub/pmc/oa_package/a/b/PMC1.tar.gz"
    );
    assert_eq!(oa_package_https("https://example.com/p.tar.gz"), "https://example.com/p.tar.gz");
    assert_eq!(oa_package_https("FTP://example.com/p.tar.gz"), "FTP://example.com/p.tar.gz");
}

#[test]
fn the_first_entry_named_like_a_pdf_is_taken() {
    let compressed = oa_package_of(&[
        ("PMC1/figure.jpg", b"\xff\xd8\xff"),
        ("PMC1/article.PDF", b"%PDF-1.4\nfirst"),
        ("PMC1/supplement.pdf", b"%PDF-1.4\nsecond"),
    ]);
    assert_eq!(extract_pdf_from_oa_package(&compressed).unwrap(), b"%PDF-1.4\nfirst");
    let without = oa_package_of(&[("PMC1/article.nxml", b"<article/>"), ("PMC1/.pdf", b"%PDF-1.4")]);
    assert_eq!(extract_pdf_from_oa_package(&without), Err(PackageError::NoPdf));
}

#[test]
fn a_broken_package_reports_the_reader_error() {
    match extract_pdf_from_oa_package(b"not a gzip stream") {
        Err(PackageError::Archive(_)) => {}
        other => panic!("unexpected {other:?}"),
    }
    assert_eq!(
        pdf_from_package(vec![(Some("a/b.txt".to_string()), vec![1])], Some("broken".to_string())),
        Err(PackageError::Archive("broken".to_string()))
    );
    assert_eq!(
        pdf_from_package(vec![(None, b"%PDF-1.4".to_vec()), (Some("x.pdf".to_string()), b"%PDF-1.4".to_vec())], None),
        Ok(b"%PDF-1.4".to_vec())
    );
}

#[test]
fn extensions_agree_with_std_paths() {
    for path in [
        "", ".", "..", "/", "a", "a.pdf", "a.PDF", ".pdf", "..pdf", "a/.pdf", "a.b.pdf", "a.", "dir/a.tar.gz",
        "a.pdf/", "a.pdf/.", "a.pdf/./", "a.pdf//", "a/..", "./", "./a.pdf", "/a.pdf", "a/./b.txt", "x/.hidden.pdf",
        "x/..pdf", "é.pdf", "a.pdf/..", "...", "a..b",
    ] {
        let expected = std::path::Path::new(path).extension().map(|e| e.to_string_lossy().into_owned());
        assert_eq!(file_extension(path), expected, "{path:?}");
    }
}
