use grimoire::model::Reference;
use grimoire::storage::{find_duplicate, last_name, make_dir_name, DuplicateMatch};

#[test]
fn comma_form_uses_the_text_before_the_comma() {
    assert_eq!(last_name("Bardes, Adrien"), "Bardes");
    assert_eq!(last_name("Vinsard, Daniela Guerrero"), "Vinsard");
    assert_eq!(last_name("Polat, Gorkem"), "Polat");
}

#[test]
fn plain_form_uses_the_final_token() {
    assert_eq!(last_name("Kaiming He"), "He");
    assert_eq!(last_name("Sarah Bencardino"), "Bencardino");
    assert_eq!(last_name("Lorenzo Mur-Labadia"), "Mur-Labadia");
}

#[test]
fn trailing_initial_does_not_become_the_surname() {
    assert_eq!(last_name("Wahba George M."), "Wahba");
    assert_eq!(last_name("Prichard David O."), "Prichard");
    assert_eq!(last_name("Phillips Hayley R."), "Phillips");
    assert_eq!(last_name("Fetzer Jeffrey R."), "Fetzer");
}

#[test]
fn leading_initials_still_resolve_to_the_final_surname() {
    assert_eq!(last_name("George M. Wahba"), "Wahba");
    assert_eq!(last_name("G. Žibret"), "Žibret");
    assert_eq!(last_name("Luisa F. Sánchez-Peralta"), "Sánchez-Peralta");
}

#[test]
fn diacritics_are_preserved_for_the_slugifier_to_transliterate() {
    assert_eq!(last_name("Jorge Sánchez"), "Sánchez");
}

#[test]
fn single_token_and_empty_names_are_returned_unchanged() {
    assert_eq!(last_name("DeepSeek-AI"), "DeepSeek-AI");
    assert_eq!(last_name(""), "");
}

#[test]
fn directory_names_follow_author_year_first_word() {
    let mut r = Reference::titled("Attention Is All You Need".to_string());
    r.authors = vec!["Ashish Vaswani".to_string()];
    r.year = Some(2017);
    assert_eq!(make_dir_name(&r), "vaswani-2017-attention");
    let mut r = Reference::titled("The Art of Computer Programming".to_string());
    r.authors = vec!["Knuth, Donald E.".to_string()];
    assert_eq!(make_dir_name(&r), "knuth-0000-art");
    let r = Reference::titled("A The Of".to_string());
    assert_eq!(make_dir_name(&r), "unknown-0000-untitled");
}

#[test]
fn duplicates_match_doi_before_title() {
    let mut a = Reference::titled("Some Paper".to_string());
    a.doi = Some("10.1/X".to_string());
    let b = Reference::titled("  some paper ".to_string());
    let mut want = Reference::titled("Other".to_string());
    want.doi = Some(" 10.1/x ".to_string());
    assert_eq!(find_duplicate(&[b.clone(), a.clone()], &want), Some((1, DuplicateMatch::Doi)));
    let want = Reference::titled("SOME PAPER".to_string());
    assert_eq!(find_duplicate(&[a.clone(), b.clone()], &want), Some((0, DuplicateMatch::Title)));
    let blank = Reference::titled("   ".to_string());
    assert_eq!(find_duplicate(&[a, b], &blank), None);
}

#[test]
fn a_later_doi_match_beats_an_earlier_title_match() {
    let earlier = Reference::titled("Attention Is All You Need".to_string());
    let mut later = Reference::titled("Something Else".to_string());
    later.doi = Some("10.5555/attention".to_string());
    let mut want = Reference::titled("attention is all you need".to_string());
    want.doi = Some("10.5555/ATTENTION".to_string());
    assert_eq!(find_duplicate(&[earlier.clone(), later], &want), Some((1, DuplicateMatch::Doi)));
    want.doi = None;
    assert_eq!(find_duplicate(&[earlier], &want), Some((0, DuplicateMatch::Title)));
}
