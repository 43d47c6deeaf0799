use grimoire::dedup::{
    describe, find_duplicate_groups, metadata_score, normalized, removals, select_kept, trash_name,
    DedupError,
};
use grimoire::model::Reference;

fn reference(title: &str, doi: &str) -> Reference {
    let mut r = Reference::titled(title.to_string());
    r.authors = vec!["Example, Alice".to_string()];
    r.year = Some(2026);
    r.doi = Some(doi.to_string());
    r
}

#[test]
fn scans_and_only_removes_with_apply_and_keep() {
    let keys = vec!["synthetic-a".to_string(), "synthetic-b".to_string()];
    let entries = vec![
        Some(reference("Synthetic Paper", "10.0/synthetic")),
        Some(reference("Synthetic Paper", "10.0/synthetic")),
    ];

    let groups = find_duplicate_groups(&entries);
    assert_eq!(groups, vec![vec![0, 1]]);
    let group_keys: Vec<Vec<String>> = groups
        .iter()
        .map(|g| g.iter().map(|&i| keys[i].clone()).collect())
        .collect();

    let preview = select_kept(&group_keys, &[].to_vec(), false).unwrap();
    assert_eq!(preview, vec![None]);
    assert!(removals(&group_keys, &preview).is_empty());

    let selected = select_kept(&group_keys, &vec!["synthetic-a".to_string()], true).unwrap();
    let removed = removals(&group_keys, &selected);
    assert_eq!(removed.len(), 1);
    assert_eq!(removed[0].key, "synthetic-b");
    assert_eq!(removed[0].kept, "synthetic-a");
}

#[test]
fn duplication_carries_over_through_shared_entries() {
    let entries = vec![
        Some(reference("Alpha", "10.1/a")),
        Some(reference("Beta", "10.1/b")),
        Some(reference("alpha ", "10.1/c")),
        None,
        Some(reference("Gamma", "10.1/B")),
        Some(reference("Delta", "10.1/d")),
    ];
    let groups = find_duplicate_groups(&entries);
    assert_eq!(groups, vec![vec![0, 2], vec![1, 4]]);
}

#[test]
fn a_chain_of_title_and_doi_links_is_one_group() {
    let entries = vec![
        Some(reference("One", "10.1/x")),
        Some(reference("Two", "10.1/x")),
        Some(reference("Two", "10.1/y")),
        Some(reference("Three", "10.1/y")),
    ];
    assert_eq!(find_duplicate_groups(&entries), vec![vec![0, 1, 2, 3]]);
}

#[test]
fn keep_rules_are_enforced() {
    let groups = vec![vec!["a".to_string(), "b".to_string()], vec!["c".to_string(), "d".to_string()]];
    assert_eq!(select_kept(&groups, &vec!["a".to_string()], false), Err(DedupError::KeepRequiresApply));
    assert_eq!(select_kept(&groups, &vec![], true), Err(DedupError::ApplyRequiresKeep));
    assert_eq!(
        select_kept(&groups, &vec!["z".to_string()], true),
        Err(DedupError::NotInGroup("z".to_string()))
    );
    assert_eq!(
        select_kept(&groups, &vec!["a".to_string(), "b".to_string()], true),
        Err(DedupError::SecondKeepInGroup("b".to_string()))
    );
    let selected = select_kept(&groups, &vec!["d".to_string(), "a".to_string()], true).unwrap();
    let removed = removals(&groups, &selected);
    let pairs: Vec<(String, String)> = removed.into_iter().map(|r| (r.key, r.kept)).collect();
    assert_eq!(
        pairs,
        [("b".to_string(), "a".to_string()), ("c".to_string(), "d".to_string())]
    );
    assert_eq!(DedupError::NotInGroup("z".to_string()).message(), "z is not in a duplicate group");
}

#[test]
fn the_recommended_copy_has_a_pdf_then_the_most_metadata() {
    let full = reference("Paper", "10.1/p");
    let bare = Reference::titled("Paper".to_string());
    assert_eq!(metadata_score(&bare), 1);
    assert_eq!(metadata_score(&full), 4);
    let keys = vec!["a".to_string(), "b".to_string(), "c".to_string()];
    let group = describe(&keys, &vec![full.clone(), bare.clone(), full.clone()], &vec![false, true, false]);
    let recommended: Vec<bool> = group.candidates.iter().map(|c| c.recommended).collect();
    assert_eq!(recommended, [false, true, false]);
    let group = describe(&keys, &vec![full.clone(), bare, full], &vec![false, false, false]);
    let recommended: Vec<bool> = group.candidates.iter().map(|c| c.recommended).collect();
    assert_eq!(recommended, [false, false, true]);
}

#[test]
fn values_are_compared_trimmed_and_lower_cased() {
    assert_eq!(normalized("  Hello World "), Some("hello world".to_string()));
    assert_eq!(normalized("   "), None);
    assert_eq!(trash_name("k", 0), "k");
    assert_eq!(trash_name("k", 2), "k-2");
}
