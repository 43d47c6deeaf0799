use grimoire::formula::{blend, emphasize_coverage, extract_formula_texts, ink_coverage, match_catalog};

#[test]
fn extracts_display_formula_blocks_in_order() {
    let text = "Before\n\n\\[\na_n \\to L\n\\]\n\nMiddle\n\n$$\nb_n = 1\n$$";
    assert_eq!(extract_formula_texts(text), ["a_n \\to L", "b_n = 1"]);
}

#[test]
fn composites_formula_ink_over_the_theme_background() {
    assert_eq!(blend(10, 210, 0), 10);
    assert_eq!(blend(10, 210, 255), 210);
}

#[test]
fn derives_formula_coverage_from_the_white_pdf_raster() {
    assert_eq!(ink_coverage(255, 255, 255), 0);
    assert_eq!(ink_coverage(0, 0, 0), 255);
    assert!(ink_coverage(128, 128, 128).abs_diff(127) <= 1);
}

#[test]
fn strengthens_formula_ink_without_changing_its_shape() {
    assert_eq!(emphasize_coverage(0), 0);
    assert_eq!(emphasize_coverage(100), 125);
    assert_eq!(emphasize_coverage(220), 255);
    assert_eq!(emphasize_coverage(255), 255);
}

#[test]
fn half_coverage_blends_halfway() {
    let mid = blend(0, 200, 128);
    assert!(mid.abs_diff(100) <= 1);
}

#[test]
fn coverage_above_full_ink_gives_the_background_no_weight() {
    assert_eq!(blend(10, 100, 257), 100);
    assert_eq!(blend(200, 100, 256), 100);
    // 255 * 256 / 255 is 256, which keeps only its low byte.
    assert_eq!(blend(0, 255, 256), 0);
}

#[test]
fn each_catalog_formula_is_used_once_in_order() {
    let formulas: Vec<String> = ["x^2", " y ", "x^2", "x^2"].iter().map(|s| s.to_string()).collect();
    let catalog: Vec<(String, u32)> =
        vec![("x^2".to_string(), 1), (" y".to_string(), 2), ("x^2 ".to_string(), 3), ("z".to_string(), 1)];
    assert_eq!(match_catalog(&formulas, &catalog, &vec![]), vec![Some(0), Some(1), Some(2), None]);
    assert_eq!(match_catalog(&formulas, &catalog, &vec![3]), vec![Some(2), None, None, None]);
    assert_eq!(match_catalog(&vec![], &catalog, &vec![]), Vec::<Option<usize>>::new());
}
