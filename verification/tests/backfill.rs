use grimoire::backfill::{
    after_enrich, after_pdf, apply_report, check_report, human_size, start_entry, status_line, wants,
    BackfillReport, Finished, Options, PdfAttempt, ScannedEntry,
};
use grimoire::model::Reference;

#[test]
fn check_counts_gaps_without_fetching() {
    let mut with_doi = Reference::titled("A".to_string());
    with_doi.doi = Some("10.1/a".to_string());
    let mut with_abstract = Reference::titled("B".to_string());
    with_abstract.abstract_text = Some("text".to_string());
    let entries = vec![
        ScannedEntry { reference: Some(with_doi), has_pdf: false },
        ScannedEntry { reference: Some(with_abstract), has_pdf: false },
        ScannedEntry { reference: None, has_pdf: false },
        ScannedEntry { reference: Some(Reference::titled("C".to_string())), has_pdf: true },
    ];
    match check_report(&entries) {
        BackfillReport::Check { total, missing_pdf, missing_pdf_with_doi, missing_abstract } => {
            assert_eq!((total, missing_pdf, missing_pdf_with_doi, missing_abstract), (4, 2, 1, 2));
        }
        other => panic!("unexpected {other:?}"),
    }
}

#[test]
fn an_entry_collects_notes_and_counts() {
    let opts = Options { pdfs: true, abstracts: true, check: false, quiet: true };
    let r = Reference::titled("A".to_string());
    assert_eq!(wants(&opts, &r, false), (true, true));
    let mut fetched = r.clone();
    fetched.abstract_text = Some("found".to_string());
    fetched.doi = Some("10.1/a".to_string());
    let p = after_enrich(start_entry(r.clone()), Some(fetched));
    assert!(p.changed && p.abstract_added);
    let p = after_pdf(
        p,
        PdfAttempt::Saved { file_name: "a.pdf".to_string(), bytes: 2_621_440, source: "unpaywall".to_string() },
    );
    assert_eq!(p.reference.files, ["a.pdf"]);
    assert_eq!(status_line(&p.notes), "abstract, pdf 2.5 MB via unpaywall");

    let q = after_pdf(after_enrich(start_entry(r.clone()), Some(r.clone())), PdfAttempt::NoDoi);
    assert!(!q.changed && q.unresolved);
    assert_eq!(status_line(&q.notes), "no DOI for pdf");
    assert_eq!(status_line(&Vec::new()), "nothing found");

    let finished = vec![
        Finished { key: "a".to_string(), progress: p },
        Finished { key: "b".to_string(), progress: q },
    ];
    match apply_report(10, &finished) {
        BackfillReport::Apply { total, considered, pdfs_added, abstracts_added, unresolved, items } => {
            assert_eq!((total, considered, pdfs_added, abstracts_added, unresolved), (10, 2, 1, 1, 1));
            assert_eq!(items[1].status, "no DOI for pdf");
        }
        other => panic!("unexpected {other:?}"),
    }
}

#[test]
fn sizes_read_like_the_progress_lines() {
    assert_eq!(human_size(0), "1 KB");
    assert_eq!(human_size(1), "1 KB");
    assert_eq!(human_size(1025), "2 KB");
    assert_eq!(human_size(1_048_576), "1.0 MB");
    assert_eq!(human_size(1_572_864), "1.5 MB");
    assert_eq!(human_size(1_101_004), "1.0 MB");
    assert_eq!(human_size(1_310_720), "1.2 MB");
    assert_eq!(human_size(1_835_008), "1.8 MB");
}

#[test]
fn complete_entries_call_for_nothing() {
    let mut r = Reference::titled("Done".to_string());
    r.abstract_text = Some("text".to_string());
    for (pdfs, abstracts) in [(true, true), (true, false), (false, true), (false, false)] {
        let opts = Options { pdfs, abstracts, check: false, quiet: true };
        assert_eq!(wants(&opts, &r, true), (false, false));
    }
    let opts = Options { pdfs: true, abstracts: true, check: false, quiet: true };
    assert_eq!(wants(&opts, &r, false), (false, true));
}
