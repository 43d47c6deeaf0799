use grimoire::passage_rows::{
    normalize_row, page_values, parse_i64_str, parse_u32_str, JsonField, JsonRow, JsonScalar,
};
use grimoire::semantic::{embedding_progress_line, passage_preview};

fn s(text: &str) -> JsonScalar {
    JsonScalar::Str(text.to_string())
}

fn n(value: i64) -> JsonScalar {
    JsonScalar::Num { int: Some(value), uint: u64::try_from(value).ok() }
}

fn field(key: &str, value: JsonField) -> (String, JsonField) {
    (key.to_string(), value)
}

#[test]
fn normalizes_docling_rows() {
    let row = JsonRow {
        fields: Some(vec![
            field("chunk_index", JsonField::Scalar(n(7))),
            field("text", JsonField::Scalar(s("Heading\nA useful passage"))),
            field("headings", JsonField::Array(vec![s("Heading")])),
            field("page_numbers", JsonField::Array(vec![n(3), n(2), n(3)])),
        ]),
        metadata: None,
    };
    let chunk = normalize_row(&row, "paper", "Paper", "paper/chunks.jsonl", 0, "{}".to_string()).unwrap();
    assert_eq!(chunk.chunk_index, 7);
    assert_eq!(chunk.text, "Heading\nA useful passage");
    assert_eq!(chunk.headings, ["Heading"]);
    assert_eq!(chunk.pages, [2, 3]);
    assert_eq!(chunk.dir_name, "paper");
    assert_eq!(chunk.source_path, "paper/chunks.jsonl");
}

#[test]
fn normalizes_common_non_docling_rows_and_nested_metadata() {
    let metadata = vec![
        field("section", JsonField::Scalar(s("Methods"))),
        field("page", JsonField::Scalar(s("9"))),
        field("chunk_id", JsonField::Scalar(s("12"))),
    ];
    let row = JsonRow {
        fields: Some(vec![
            field("page_content", JsonField::Scalar(s("A passage from another exporter"))),
            field("metadata", JsonField::Object),
        ]),
        metadata: Some(metadata),
    };
    let chunk = normalize_row(&row, "paper", "Paper", "paper/export.jsonl", 2, "{}".to_string()).unwrap();
    assert_eq!(chunk.chunk_index, 12);
    assert_eq!(chunk.headings, ["Methods"]);
    assert_eq!(chunk.pages, [9]);
}

#[test]
fn rejects_rows_without_text_content() {
    let row = JsonRow {
        fields: Some(vec![field("chunk_index", JsonField::Scalar(n(1))), field("metadata", JsonField::Object)]),
        metadata: Some(vec![field("page", JsonField::Scalar(n(2)))]),
    };
    assert!(normalize_row(&row, "paper", "Paper", "paper/data.jsonl", 0, "{}".to_string()).is_none());
    let not_object = JsonRow { fields: None, metadata: None };
    assert!(normalize_row(&not_object, "paper", "Paper", "paper/data.jsonl", 0, "[]".to_string()).is_none());
}

#[test]
fn utility_normalization_is_stable() {
    assert_eq!(page_values(&JsonField::Array(vec![n(4), s("2"), n(4), s("bad")])), [2, 4]);
    assert_eq!(passage_preview("one  two\nthree", 20), "one two three");
    assert_eq!(passage_preview("abcdef", 4), "abc…");
    assert_eq!(embedding_progress_line(5, 10, 65, 10), "Embedding passages [=====     ]  50% 5/10 01:05");
}

#[test]
fn later_fields_are_fallbacks() {
    let row = JsonRow {
        fields: Some(vec![
            field("text", JsonField::Scalar(s("   "))),
            field("content", JsonField::Scalar(s("  body  "))),
            field("chunk_index", JsonField::Scalar(JsonScalar::Null)),
            field("id", JsonField::Scalar(s("x"))),
            field("heading", JsonField::Scalar(s("Intro"))),
            field("page", JsonField::Scalar(JsonScalar::Num { int: Some(5_000_000_000), uint: Some(5_000_000_000) })),
        ]),
        metadata: None,
    };
    let chunk = normalize_row(&row, "d", "T", "d/x.jsonl", 4, "{}".to_string()).unwrap();
    assert_eq!(chunk.text, "body");
    assert_eq!(chunk.chunk_index, 4);
    assert_eq!(chunk.headings, ["Intro"]);
    assert!(chunk.pages.is_empty());
}

#[test]
fn numbers_parse_like_std() {
    for text in ["0", "+7", "-7", "007", "9223372036854775807", "-9223372036854775808", "9223372036854775808", "", "+", "-", "1_0", " 1", "12a"] {
        assert_eq!(parse_i64_str(text), text.parse::<i64>().ok(), "{text}");
    }
    for text in ["0", "+7", "-0", "-7", "4294967295", "4294967296", "", "+", "00012"] {
        assert_eq!(parse_u32_str(text), text.parse::<u32>().ok(), "{text}");
    }
}
