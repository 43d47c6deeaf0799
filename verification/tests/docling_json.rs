use grimoire::docling_json::{doc_items, docling_doc, escape_key, JsonTree};
use grimoire::docling_walk::{document_blocks, JsonText};
use serde_json::Value;

fn tree(value: &Value) -> JsonTree {
    match value {
        Value::Null => JsonTree::Null,
        Value::Bool(b) => JsonTree::Bool(*b),
        Value::Number(n) => JsonTree::Number(n.as_u64()),
        Value::String(s) => JsonTree::Str(s.clone()),
        Value::Array(list) => JsonTree::Array(list.iter().map(tree).collect()),
        Value::Object(map) => JsonTree::Object(map.iter().map(|(k, v)| (k.clone(), tree(v))).collect()),
    }
}

const BOOK: &str = r##"{
  "schema_name": "DoclingDocument",
  "body": {"children": [{"$ref": "#/texts/0"}, {"$ref": "#/groups/0"}, {"$ref": "#/texts/3"}]},
  "groups": [{"children": [{"$ref": "#/texts/1"}, {"$ref": "#/texts/2"}]}],
  "texts": [
    {"content_layer": "furniture", "label": "page_header", "text": "Running head"},
    {"content_layer": "body", "label": "section_header", "text": "1 Sequences", "level": 1,
     "prov": [{"page_no": 3}]},
    {"content_layer": "body", "label": "text", "text": "A sequence converges.", "prov": [{"page_no": 3}]},
    {"content_layer": "body", "label": "formula", "text": "a_n \\to L", "prov": [{"page_no": 4}]}
  ]
}"##;

#[test]
fn a_docling_json_document_becomes_the_walked_table() {
    let value: Value = serde_json::from_str(BOOK).unwrap();
    let doc = docling_doc(&tree(&value));
    assert_eq!(doc.schema_name.as_deref(), Some("DoclingDocument"));
    assert_eq!(
        doc.body_children,
        Some(vec![Some("#/texts/0".to_string()), Some("#/groups/0".to_string()), Some("#/texts/3".to_string())])
    );
    let blocks = document_blocks(&doc).unwrap();
    let labels: Vec<&str> = blocks.iter().map(|b| b.label.as_str()).collect();
    assert_eq!(labels, ["__furniture__", "section_header", "text", "formula"]);
    assert_eq!(blocks[1].page, Some(3));
    assert_eq!(blocks[1].level, Some(1));
    assert_eq!(blocks[3].text, "a_n \\to L");
}

#[test]
fn every_object_and_array_is_listed_under_its_pointer() {
    let value: Value = serde_json::from_str(r#"{"a/b~c": [{"text": 5, "label": "x"}, 7], "z": {"text": "t"}}"#).unwrap();
    let items = doc_items(&tree(&value));
    let pointers: Vec<&str> = items.iter().map(|i| i.pointer.as_str()).collect();
    assert_eq!(pointers, ["", "/a~1b~0c", "/a~1b~0c/0", "/z"]);
    assert_eq!(items[2].text, JsonText::Other);
    assert_eq!(items[2].label.as_deref(), Some("x"));
    assert_eq!(items[3].text, JsonText::Str("t".to_string()));
    for (i, item) in items.iter().enumerate() {
        let expected = value.pointer(&item.pointer).unwrap();
        assert!(expected.is_object() || expected.is_array(), "{i}");
    }
}

#[test]
fn pointer_tokens_escape_tilde_and_slash() {
    assert_eq!(escape_key("a/b~c"), "a~1b~0c");
    assert_eq!(escape_key("plain"), "plain");
}
