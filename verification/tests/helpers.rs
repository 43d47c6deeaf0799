use grimoire::cli::check_key;
use grimoire::dedup::{component_labels, dedup_key, duplicate_groups, DedupKey};
use grimoire::export::{family_given_list, to_hayagriva};
use grimoire::formula::{PixelCrop, ResolvedFormula};
use grimoire::model::{Reference, ReferenceKind};
use grimoire::storage::{is_initial, numbered_dir_name};
use grimoire::validate::proper_pdf_name;

fn key(title: Option<&str>, doi: Option<&str>) -> DedupKey {
    DedupKey { title: title.map(str::to_string), doi: doi.map(str::to_string) }
}

#[test]
fn keys_name_one_directory() {
    assert!(check_key("smith-2020-paper").is_ok());
    assert!(check_key("").is_err());
    assert!(check_key("/abs").is_err());
    assert!(check_key("a/b").is_err());
}

#[test]
fn duplicates_are_grouped_through_shared_keys() {
    let keys = vec![
        key(Some("a"), Some("10.1/x")),
        key(Some("b"), None),
        key(Some("c"), Some("10.1/x")),
        key(Some("b"), Some("10.1/y")),
        key(None, None),
    ];
    let labels = component_labels(&keys);
    assert_eq!(labels[0], labels[2]);
    assert_eq!(labels[1], labels[3]);
    assert_ne!(labels[0], labels[1]);
    assert_ne!(labels[4], labels[0]);
    assert_eq!(duplicate_groups(&keys), vec![vec![0, 2], vec![1, 3]]);
    let mut r = Reference::titled("  The Title ".to_string());
    r.doi = Some(" 10.1/ABC ".to_string());
    let k = dedup_key(&Some(r));
    assert_eq!(k.title.as_deref(), Some("the title"));
    assert_eq!(k.doi.as_deref(), Some("10.1/abc"));
    assert_eq!(dedup_key(&None), key(None, None));
}

#[test]
fn hayagriva_entries() {
    let mut r = Reference::titled("Synthetic Analysis".to_string());
    r.kind = ReferenceKind::Book;
    r.authors = vec!["Ada Example".to_string(), "Lovelace, Ada".to_string()];
    r.year = Some(2026);
    r.journal = Some("J".to_string());
    r.doi = Some("10.1/x".to_string());
    let h = to_hayagriva(&r);
    assert_eq!(h.entry_type, "book");
    assert_eq!(h.author, ["Example, Ada", "Lovelace, Ada"]);
    assert_eq!(h.date, Some(2026));
    let p = h.parent.unwrap();
    assert_eq!((p.entry_type.as_str(), p.title.as_str()), ("periodical", "J"));
    let s = h.serial_number.unwrap();
    assert_eq!((s.doi.as_deref(), s.arxiv), (Some("10.1/x"), None));
    assert_eq!(family_given_list(&vec!["Plato".to_string()]), ["Plato"]);
    let plain = to_hayagriva(&Reference::titled("T".to_string()));
    assert_eq!(plain.entry_type, "article");
    assert!(plain.parent.is_none() && plain.serial_number.is_none());
}

#[test]
fn small_helpers() {
    assert!(is_initial("J."));
    assert!(!is_initial("Jo"));
    assert_eq!(numbered_dir_name("smith-2020-paper", 2), "smith-2020-paper-2");
    assert_eq!(proper_pdf_name("smith-2020-paper"), "smith-2020-paper.pdf");
    let f = ResolvedFormula {
        latex: "x".to_string(),
        pdf_path: "p.pdf".to_string(),
        page: 1,
        crop: PixelCrop { x: 1, y: 2, width: 30, height: 40 },
    };
    assert_eq!((f.pixel_width(), f.pixel_height()), (30, 40));
}
