use grimoire::docling::{build_passages, sorted_unique, sorted_unique_text, summarize_import, Block, ImportError};

fn block(label: &str, text: &str, page: Option<u32>, level: Option<usize>) -> Block {
    Block { label: label.to_string(), text: text.to_string(), page, level }
}

#[test]
fn passages_carry_their_headings() {
    let blocks = vec![
        block("section_header", "1 Intro", Some(1), Some(1)),
        block("text", "First paragraph.", Some(1), None),
        block("formula", "a^2 + b^2", Some(2), None),
        block("list_item", "point", Some(2), None),
        block("section_header", "1.1 Detail", Some(2), Some(2)),
        block("code", "fn main() {}", Some(3), None),
    ];
    let passages = build_passages(&blocks);
    assert_eq!(passages.len(), 2);
    assert_eq!(passages[0].chunk_index, 0);
    assert_eq!(passages[0].headings, ["1 Intro"]);
    assert_eq!(passages[0].text, "First paragraph.\n\n\\[\na^2 + b^2\n\\]\n\n- point");
    assert_eq!(passages[0].page_numbers, [1, 2]);
    assert_eq!(passages[0].labels, ["formula", "list_item", "text"]);
    assert_eq!(passages[1].headings, ["1 Intro", "1.1 Detail"]);
    assert_eq!(passages[1].text, "```\nfn main() {}\n```");
}

#[test]
fn long_passages_are_split_before_the_limit() {
    let long = "x".repeat(1000);
    let blocks = vec![
        block("text", &long, Some(1), None),
        block("text", &long, Some(2), None),
        block("formula", &long, Some(2), None),
    ];
    let passages = build_passages(&blocks);
    assert_eq!(passages.len(), 2);
    assert_eq!(passages[1].chunk_index, 1);
    assert_eq!(passages[1].page_numbers, [2]);
}

#[test]
fn imports_count_blocks_pages_and_furniture() {
    let blocks = vec![
        block("__furniture__", "", None, None),
        block("section_header", "Intro", Some(1), Some(1)),
        block("text", "Body.", Some(1), None),
        block("formula", "x", Some(3), None),
    ];
    let (report, passages) = summarize_import(blocks, "doc.json".to_string(), "passages.jsonl".to_string()).unwrap();
    assert_eq!(passages.len(), 1);
    assert_eq!(report.passages, 1);
    assert_eq!(report.skipped_furniture, 1);
    assert_eq!(report.body_blocks, 2);
    assert_eq!(report.formulas, 1);
    assert_eq!(report.pages, 2);
    let empty = summarize_import(vec![block("section_header", "Only", None, None)], String::new(), String::new());
    assert_eq!(empty.err(), Some(ImportError::NoBodyText));
}

#[test]
fn sorted_sets() {
    assert_eq!(sorted_unique(&vec![3, 1, 3, 2]), [1, 2, 3]);
    let labels = vec!["text".to_string(), "formula".to_string(), "text".to_string()];
    assert_eq!(sorted_unique_text(&labels), ["formula", "text"]);
}
