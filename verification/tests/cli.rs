use grimoire::cli::{citation, cite, list, records, reference_dir, show, DirListing};
use grimoire::model::Reference;

#[test]
fn citation_formats_are_noninteractive() {
    assert_eq!(
        citation("synthetic-2026-paper", "plain").unwrap(),
        "synthetic-2026-paper"
    );
    assert_eq!(
        citation("synthetic-2026-paper", "latex").unwrap(),
        "\\cite{synthetic-2026-paper}"
    );
    assert_eq!(
        citation("synthetic-2026-paper", "typst").unwrap(),
        "@synthetic-2026-paper"
    );
    assert!(citation("synthetic-2026-paper", "unknown").is_err());
}

#[test]
fn reference_keys_cannot_escape_the_library() {
    let library = tempfile::tempdir().unwrap();
    let library = library.path().to_str().unwrap();
    assert!(reference_dir(library, "../outside").is_err());
    assert!(reference_dir(library, "/outside").is_err());
}

#[test]
fn reference_dir_joins_one_name() {
    assert_eq!(reference_dir("/lib", "paper-2020-x").unwrap(), "/lib/paper-2020-x");
    assert_eq!(reference_dir("/lib/", "paper-2020-x").unwrap(), "/lib/paper-2020-x");
    assert!(reference_dir("/lib", "").is_err());
    assert!(reference_dir("/lib", "a/b").is_err());
}

#[test]
fn unreadable_directories_become_warnings() {
    let listing = vec![
        DirListing {
            key: "a".to_string(),
            directory: "/lib/a".to_string(),
            info: Ok(Reference::titled("A".to_string())),
            pdf: None,
        },
        DirListing {
            key: "b".to_string(),
            directory: "/lib/b".to_string(),
            info: Err("bad toml".to_string()),
            pdf: None,
        },
    ];
    let (recs, warnings) = records(listing);
    assert_eq!(recs.len(), 1);
    assert_eq!(recs[0].key, "a");
    assert_eq!(warnings, ["Skipping b: bad toml"]);
}

#[test]
fn show_checks_the_key() {
    let r = Reference::titled("A".to_string());
    let rec = show("/lib", "a", r.clone(), Some("/lib/a/a.pdf".to_string())).unwrap();
    assert_eq!(rec.directory, "/lib/a");
    assert_eq!(rec.pdf.as_deref(), Some("/lib/a/a.pdf"));
    assert!(show("/lib", "../a", r, None).is_err());
}

#[test]
fn the_picker_cites_in_any_format() {
    assert_eq!(cite("k", "latex"), "\\cite{k}");
    assert_eq!(cite("k", "typst"), "@k");
    assert_eq!(cite("k", "other"), "k");
}

#[test]
fn list_filters_synthetic_references_deterministically() {
    let mut reference = Reference::titled("Synthetic Retrieval Paper".to_string());
    reference.authors = vec!["Example, Alice".to_string()];
    reference.year = Some(2026);
    reference.tags = vec!["retrieval".to_string()];
    let listing = vec![DirListing {
        key: "synthetic-2026-paper".to_string(),
        directory: "/library/synthetic-2026-paper".to_string(),
        info: Ok(reference),
        pdf: None,
    }];
    let (records, warnings) = records(listing);
    let records = list(records, Some("synthetic"), &["retrieval".to_string()], None);
    assert!(warnings.is_empty());
    assert_eq!(records.len(), 1);
    assert_eq!(records[0].key, "synthetic-2026-paper");
}

#[test]
fn dot_and_dot_dot_are_not_keys() {
    assert!(reference_dir("/lib", "..").is_err());
    assert!(reference_dir("/lib", ".").is_err());
    assert!(reference_dir("/lib", "./").is_err());
    assert!(reference_dir("/lib", "../").is_err());
    assert!(reference_dir("/lib", "paper/").is_ok());
    assert!(reference_dir("/lib", "..paper").is_ok());
}
