use grimoire::tui::{sort_indices, visible_entries, ListEntry, SortMode, TagPicker};

fn entry(dir: &str, author: Option<&str>, year: Option<u16>, title: &str, tags: &[&str]) -> ListEntry {
    ListEntry {
        dir_name: dir.to_string(),
        display: format!("{dir} {title}"),
        first_author: author.map(|a| a.to_string()),
        year,
        title: title.to_string(),
        tags: tags.iter().map(|t| t.to_string()).collect(),
    }
}

fn library() -> Vec<ListEntry> {
    vec![
        entry("curie-1903-radiation", Some("Curie, Marie"), Some(1903), "Radiation", &["physics"]),
        entry("bohr-1913-atoms", Some("Niels Bohr"), Some(1913), "atoms and molecules", &["physics", "ML"]),
        entry("anon-0000-notes", None, None, "Notes", &[]),
        entry("ada-1843-engine", Some("Ada Lovelace"), Some(1843), "Engine notes", &["computing"]),
    ]
}

#[test]
fn sorts_by_each_mode() {
    let lib = library();
    assert_eq!(visible_entries(&lib, &None, "", SortMode::Name, false), [3, 2, 1, 0]);
    assert_eq!(visible_entries(&lib, &None, "", SortMode::Name, true), [0, 1, 2, 3]);
    assert_eq!(visible_entries(&lib, &None, "", SortMode::Author, false), [2, 1, 0, 3]);
    assert_eq!(visible_entries(&lib, &None, "", SortMode::Year, false), [1, 0, 3, 2]);
    assert_eq!(visible_entries(&lib, &None, "", SortMode::Year, true), [2, 3, 0, 1]);
    assert_eq!(visible_entries(&lib, &None, "", SortMode::Title, false), [1, 3, 2, 0]);
}

#[test]
fn tag_filter_is_exact() {
    let lib = library();
    let physics = Some("physics".to_string());
    assert_eq!(visible_entries(&lib, &physics, "", SortMode::Name, false), [1, 0]);
    let ml = Some("ml".to_string());
    assert!(visible_entries(&lib, &ml, "", SortMode::Name, false).is_empty());
}

#[test]
fn text_filter_keeps_matches_only() {
    let lib = library();
    let found = visible_entries(&lib, &None, "radiation", SortMode::Year, true);
    assert_eq!(found, [0]);
    assert!(visible_entries(&lib, &None, "zzzz", SortMode::Name, false).is_empty());
}

#[test]
fn equal_keys_keep_library_order() {
    let keys = vec![(1u64, "b".to_string()), (0u64, "z".to_string()), (1u64, "b".to_string()), (1u64, "a".to_string())];
    assert_eq!(sort_indices(&vec![0, 1, 2, 3], &keys, false), [1, 3, 0, 2]);
    assert_eq!(sort_indices(&vec![0, 1, 2, 3], &keys, true), [0, 2, 3, 1]);
}

#[test]
fn tag_picker_narrows_and_counts() {
    let all = vec!["ML".to_string(), "physics".to_string(), "computing".to_string()];
    let entry_tags = vec![
        vec!["physics".to_string()],
        vec!["physics".to_string(), "ML".to_string()],
        vec![],
    ];
    let mut p = TagPicker::new(&all, &entry_tags, &Some("ML".to_string()));
    assert_eq!(p.rows, ["(all)", "ML", "physics", "computing"]);
    assert_eq!(p.count_for("(all)"), 3);
    assert_eq!(p.count_for("physics"), 2);
    assert_eq!(p.count_for("none"), 0);
    assert_eq!(p.selected_as_filter(), None);
    p.move_down();
    assert_eq!(p.selected_as_filter(), Some("ML".to_string()));
    p.page_down();
    assert_eq!(p.selected, 3);
    p.filter.push_str("PHY");
    p.rebuild(&all);
    assert_eq!(p.rows, ["physics"]);
    assert_eq!(p.selected, 0);
    p.filter = "(ALL".to_string();
    p.rebuild(&all);
    assert_eq!(p.rows, ["(all)"]);
    p.page_up();
    p.clamp_scroll(5);
    assert_eq!((p.selected, p.scroll), (0, 0));
    p.selected = 9;
    p.clamp_scroll(5);
    assert_eq!(p.scroll, 5);
    assert_eq!(p.previous.as_deref(), Some("ML"));
}
