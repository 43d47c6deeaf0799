use grimoire::docling::summarize_import;
use grimoire::docling_walk::{document_blocks, DocError, DocItem, DoclingDoc, JsonText};

fn item(pointer: &str) -> DocItem {
    DocItem {
        pointer: pointer.to_string(),
        content_layer: None,
        label: None,
        text: JsonText::Absent,
        orig: None,
        page_no: None,
        level: None,
        children: vec![],
    }
}

fn text_item(index: usize, layer: &str, label: &str, text: &str, page: Option<u64>) -> DocItem {
    let mut it = item(&format!("/texts/{index}"));
    it.content_layer = Some(layer.to_string());
    it.label = Some(label.to_string());
    it.text = JsonText::Str(text.to_string());
    it.page_no = page;
    it
}

fn refs(list: &[&str]) -> Vec<Option<String>> {
    list.iter().map(|r| Some(r.to_string())).collect()
}

fn synthetic_book() -> DoclingDoc {
    let mut group = item("/groups/0");
    group.children = refs(&["#/texts/1", "#/texts/2", "#/texts/3"]);
    let mut picture = item("/pictures/0");
    picture.label = Some("picture".to_string());
    picture.children = refs(&["#/texts/5"]);
    let mut heading = text_item(1, "body", "section_header", "1 Sequences", Some(3));
    heading.level = Some(1);
    let mut body = item("/body");
    body.children = refs(&["#/texts/0", "#/groups/0", "#/pictures/0", "#/texts/4"]);
    DoclingDoc {
        schema_name: Some("DoclingDocument".to_string()),
        body_children: Some(body.children.clone()),
        items: vec![
            body,
            group,
            text_item(0, "furniture", "page_header", "Synthetic header", None),
            heading,
            text_item(2, "body", "text", "A sequence converges when...", Some(3)),
            text_item(3, "body", "formula", "a_n \\to L", Some(4)),
            text_item(4, "body", "text", "This is the conclusion.", Some(4)),
            picture,
            text_item(5, "body", "text", "M", Some(4)),
        ],
    }
}

#[test]
fn imports_structured_passages_and_skips_furniture() {
    let blocks = document_blocks(&synthetic_book()).unwrap();
    let labels: Vec<&str> = blocks.iter().map(|b| b.label.as_str()).collect();
    assert_eq!(labels, ["__furniture__", "section_header", "text", "formula", "text"]);
    assert_eq!(blocks[1].level, Some(1));
    let (report, passages) =
        summarize_import(blocks, "document.json".to_string(), "passages.jsonl".to_string()).unwrap();
    assert_eq!(report.passages, 1);
    assert_eq!(report.body_blocks, 3);
    assert_eq!(report.formulas, 1);
    assert_eq!(report.pages, 2);
    assert_eq!(report.skipped_furniture, 1);
    assert_eq!(passages[0].headings, ["1 Sequences"]);
    assert_eq!(passages[0].page_numbers, [3, 4]);
    assert!(passages[0].text.contains("\\[\na_n \\to L\n\\]"));
    assert!(!passages[0].text.contains("\n\nM\n\n"));
}

#[test]
fn text_falls_back_to_orig_only_when_missing() {
    let mut doc = synthetic_book();
    let mut a = item("/texts/9");
    a.orig = Some("  from orig  ".to_string());
    let mut b = item("/texts/10");
    b.text = JsonText::Other;
    b.orig = Some("ignored".to_string());
    doc.items.push(a);
    doc.items.push(b);
    doc.body_children = Some(refs(&["#/texts/9", "#/texts/10", "#/texts/2"]));
    let blocks = document_blocks(&doc).unwrap();
    assert_eq!(blocks.len(), 2);
    assert_eq!(blocks[0].label, "text");
    assert_eq!(blocks[0].text, "from orig");
    assert_eq!(blocks[1].page, Some(3));
}

#[test]
fn inline_math_is_tidied_outside_formulas() {
    let mut doc = synthetic_book();
    doc.items.push(text_item(7, "body", "text", "Let ( a n ) converge", None));
    doc.items.push(text_item(8, "body", "formula", "( a n )", None));
    doc.body_children = Some(refs(&["#/texts/7", "#/texts/8"]));
    let blocks = document_blocks(&doc).unwrap();
    assert_eq!(blocks[0].text, "Let (aₙ) converge");
    assert_eq!(blocks[1].text, "( a n )");
}

#[test]
fn each_reference_is_visited_once() {
    let mut doc = synthetic_book();
    let mut g = item("/groups/1");
    g.children = refs(&["#/groups/1", "#/texts/2", "#/texts/2"]);
    doc.items.push(g);
    doc.body_children = Some(refs(&["#/groups/1", "#/groups/1", "#/texts/2"]));
    let blocks = document_blocks(&doc).unwrap();
    assert_eq!(blocks.len(), 1);
}

#[test]
fn document_errors() {
    let mut doc = synthetic_book();
    doc.schema_name = Some("Other".to_string());
    assert_eq!(document_blocks(&doc).unwrap_err(), DocError::NotDocling);
    let mut doc = synthetic_book();
    doc.body_children = None;
    assert_eq!(document_blocks(&doc).unwrap_err(), DocError::NoBody);
    let mut doc = synthetic_book();
    doc.body_children = Some(vec![Some("#/texts/2".to_string()), None]);
    assert_eq!(document_blocks(&doc).unwrap_err(), DocError::ChildWithoutRef);
    let mut doc = synthetic_book();
    doc.body_children = Some(refs(&["texts/2"]));
    let e = document_blocks(&doc).unwrap_err();
    assert_eq!(e, DocError::NotLocal);
    assert_eq!(e.message(), "Docling reference must start with #");
    let mut doc = synthetic_book();
    doc.body_children = Some(refs(&["#/texts/99"]));
    let e = document_blocks(&doc).unwrap_err();
    assert_eq!(e.message(), "Docling reference does not resolve: #/texts/99");
    let mut doc = synthetic_book();
    doc.body_children = Some(refs(&["#/pictures/7"]));
    assert!(document_blocks(&doc).unwrap().is_empty());
}
