use grimoire::keymap::Action;
use grimoire::tui::InputLines;
use grimoire::tui::{author_column, row_name_of, year_column};
use grimoire::tui::add_message;
use grimoire::model::Reference;
use grimoire::tui::{
    compute_diffs, is_importable, needs_enrich, picker_rect, prepare_reader_args,
    semantic_error_message, semantic_heading_text, semantic_passage_lines, should_load_more_semantic,
    LayoutMode, Rect, ResolvedLayout, SortMode,
};

#[test]
fn picker_uses_pdfterm_three_quarter_layout() {
    let area = Rect { x: 0, y: 0, width: 100, height: 40 };
    assert_eq!(picker_rect(area), Rect { x: 12, y: 5, width: 75, height: 30 });
}

#[test]
fn layout_defaults_to_full() {
    assert_eq!(LayoutMode::from_config(None), LayoutMode::FullList);
    assert_eq!(
        LayoutMode::from_config(Some("unknown")),
        LayoutMode::FullList
    );
}

#[test]
fn layout_config_accepts_full_and_legacy_list() {
    assert_eq!(LayoutMode::from_config(Some("full")), LayoutMode::FullList);
    assert_eq!(LayoutMode::from_config(Some("list")), LayoutMode::FullList);
    assert_eq!(LayoutMode::from_config(Some("wide")), LayoutMode::Wide);
    assert_eq!(LayoutMode::from_config(Some("tall")), LayoutMode::Tall);
    assert_eq!(LayoutMode::from_config(Some("auto")), LayoutMode::Auto);
}

#[test]
fn layout_cycle_wraps_after_three_visible_modes() {
    let full = LayoutMode::FullList;
    let wide = full.next(120, 40);
    let tall = wide.next(120, 40);

    assert_eq!(wide, LayoutMode::Wide);
    assert_eq!(tall, LayoutMode::Tall);
    assert_eq!(tall.next(120, 40), full);
}

#[test]
fn auto_advances_from_its_resolved_layout() {
    assert_eq!(LayoutMode::Auto.next(120, 40), LayoutMode::Tall);
    assert_eq!(LayoutMode::Auto.next(80, 50), LayoutMode::FullList);
}

#[test]
fn auto_resolves_by_aspect_ratio() {
    assert_eq!(LayoutMode::Auto.resolve(120, 40), ResolvedLayout::Wide);
    assert_eq!(LayoutMode::Auto.resolve(80, 50), ResolvedLayout::Tall);
    assert_eq!(LayoutMode::FullList.label(), "full");
}

#[test]
fn reader_template_places_page_and_path_for_pdfterm() {
    let args: Vec<String> = ["@", "launch", "pdfterm", "--page", "{page}", "{path}"]
        .iter()
        .map(|s| s.to_string())
        .collect();
    let prepared = prepare_reader_args(&args, "synthetic.pdf", Some(7));
    assert_eq!(prepared, ["@", "launch", "pdfterm", "--page", "7", "synthetic.pdf"]);
}

#[test]
fn reader_without_template_still_appends_path() {
    let prepared = prepare_reader_args(&Vec::new(), "synthetic.pdf", Some(7));
    assert_eq!(prepared, ["synthetic.pdf"]);
    let page_only = vec!["{page}".to_string()];
    assert_eq!(prepare_reader_args(&page_only, "a.pdf", None), ["1", "a.pdf"]);
}

#[test]
fn stale_semantic_index_error_is_concise() {
    let error = "Semantic index uses model old/model; expected current/model. Run `grimoire semantic-index` to rebuild it.";
    assert_eq!(
        semantic_error_message(error),
        "Semantic index was built with an older model; run `grimoire semantic-index`"
    );
    assert_eq!(semantic_error_message("timeout"), "Semantic search: timeout");
}

#[test]
fn semantic_headings_leave_space_before_passage_text() {
    assert_eq!(
        semantic_heading_text(&vec!["1 INTRODUCTION".to_string(), "Background".to_string()]),
        "1 INTRODUCTION › Background  "
    );
}

#[test]
fn semantic_passage_uses_real_lines_without_repeating_heading() {
    let headings = vec!["1 Introduction".to_string()];
    assert_eq!(
        semantic_passage_lines(
            "1 Introduction\nAdditionally, DINOv3 improves features.\n\nSecond paragraph.",
            &headings,
        ),
        [
            "Additionally, DINOv3 improves features.",
            "",
            "Second paragraph."
        ]
    );
}

#[test]
fn semantic_results_load_lazily_near_the_page_end() {
    assert!(!should_load_more_semantic(20, 100, 14_887));
    assert!(should_load_more_semantic(90, 100, 14_887));
    assert!(!should_load_more_semantic(99, 100, 100));
}

#[test]
fn sort_modes_cycle_and_years_sort_newest_first() {
    assert_eq!(SortMode::Name.next().next().next().next(), SortMode::Name);
    assert!(SortMode::Year.defaults_descending());
    assert!(!SortMode::Title.defaults_descending());
    assert_eq!(SortMode::Author.label(), "author");
}

#[test]
fn enrichment_diffs_show_changed_fields() {
    let old = Reference::titled("T".to_string());
    let mut new = old.clone();
    new.year = Some(2020);
    new.authors = vec!["A".to_string(), "B".to_string()];
    new.abstract_text = Some("x".to_string());
    let diffs = compute_diffs(&old, &new);
    assert_eq!(
        diffs,
        [
            ("year".to_string(), String::new(), "2020".to_string()),
            ("authors".to_string(), String::new(), "A, B".to_string()),
            ("abstract".to_string(), String::new(), "(fetched)".to_string()),
        ]
    );
    assert!(needs_enrich(&old));
    assert!(compute_diffs(&old, &old).is_empty());
}

#[test]
fn importable_inputs() {
    assert!(is_importable(" 2301.12345 ", false));
    assert!(is_importable("https://example.org", false));
    assert!(is_importable("10.1234/abc", false));
    assert!(is_importable("paper.pdf", true));
    assert!(!is_importable("   ", true));
    assert!(!is_importable("just words", false));
}

#[test]
fn web_url_prefers_the_doi() {
    let mut r = Reference::titled("T".to_string());
    assert_eq!(grimoire::tui::web_url(&r), None);
    r.arxiv = Some("1706.03762".to_string());
    assert_eq!(grimoire::tui::web_url(&r).as_deref(), Some("https://arxiv.org/abs/1706.03762"));
    r.doi = Some("10.1038/nature14539".to_string());
    assert_eq!(grimoire::tui::web_url(&r).as_deref(), Some("https://doi.org/10.1038/nature14539"));
}

#[test]
fn list_rows_show_year_and_last_name_columns() {
    assert_eq!(row_name_of("Vaswani, Ashish"), "Vaswani");
    assert_eq!(row_name_of("Smith, Jr., John"), "Smith, Jr.");
    assert_eq!(row_name_of("Ashish Vaswani"), "Vaswani");
    assert_eq!(row_name_of("   "), "   ");
    let mut r = Reference::titled("T".to_string());
    assert_eq!(year_column(&r), "      ");
    assert_eq!(author_column(&r), "              ");
    r.year = Some(2017);
    r.authors = vec!["Vaswani, Ashish".to_string()];
    assert_eq!(year_column(&r), " 2017 ");
    assert_eq!(author_column(&r), format!("{:>12}  ", "Vaswani"));
    r.authors = vec!["Wolfeschlegelsteinhausen, Hubert".to_string()];
    assert_eq!(author_column(&r), "Wolfeschlege  ");
    r.authors = vec!["Müller-Lüdenscheidt, Otto".to_string()];
    assert_eq!(author_column(&r), format!("{:>12}  ", "Müller-Lüd"));
}

#[test]
fn import_report_picks_the_telling_line() {
    assert_eq!(add_message(true, "Fetching...\nAdded: smith-2020\n", ""), "Added: smith-2020");
    assert_eq!(
        add_message(true, "", "Skipped 1706.03762: duplicate of vaswani-2017\n"),
        "Skipped 1706.03762: duplicate of vaswani-2017"
    );
    assert_eq!(add_message(true, "", ""), "Added successfully");
    assert_eq!(add_message(false, "", "warning\nError: no such file\n"), "Error: no such file");
    assert_eq!(add_message(false, "out", ""), "Add failed");
}

#[test]
fn text_lines_follow_the_editing_actions() {
    let mut l = InputLines { filter: "ab".to_string(), add: None, searching: true, tag_filter: Some("ml".to_string()) };
    assert!(l.edit(Action::FilterPush('c')));
    assert_eq!(l.filter, "abc");
    assert!(l.edit(Action::SearchToAdd));
    assert_eq!((l.filter.as_str(), l.add.as_deref(), l.searching), ("", Some("abc"), false));
    assert!(!l.edit(Action::AddPop));
    assert!(!l.edit(Action::AddPush('x')));
    assert_eq!(l.add.as_deref(), Some("abx"));
    assert!(l.edit(Action::AddInputToSearch));
    assert_eq!((l.filter.as_str(), l.add.as_deref(), l.searching), ("abx", None, true));
    assert!(!l.edit(Action::AddInputToSearch));
    assert!(l.edit(Action::FilterPop));
    assert_eq!(l.filter, "ab");
    assert!(l.edit(Action::ClearFilters));
    assert_eq!((l.filter.as_str(), l.tag_filter.as_deref()), ("", None));
    assert!(l.edit(Action::FilterPop));
    assert_eq!(l.filter, "");
    assert!(!l.edit(Action::OpenAddInput));
    assert_eq!(l.add.as_deref(), Some(""));
    assert!(!l.edit(Action::CloseAddInput));
    assert_eq!(l.add, None);
    assert!(!l.edit(Action::MoveDown));
}
