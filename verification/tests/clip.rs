use grimoire::clip::{char_bytes, fit_count, truncate_ellipsis, truncate_str, wrap_text};

#[test]
fn wraps_words_into_lines_within_the_width() {
    assert_eq!(wrap_text("the quick brown fox", 10), vec!["the quick", "brown fox"]);
}

#[test]
fn empty_text_wraps_to_one_empty_line() {
    assert_eq!(wrap_text("", 5), vec![""]);
    assert_eq!(wrap_text("   \t ", 5), vec![""]);
}

#[test]
fn zero_width_leaves_the_text_whole() {
    assert_eq!(wrap_text("a  b", 0), vec!["a  b"]);
}

#[test]
fn long_words_are_broken_into_pieces() {
    assert_eq!(wrap_text("abcdefghij xy", 4), vec!["abcd", "efgh", "ij", "xy"]);
}

#[test]
fn long_word_closes_the_current_line_first() {
    assert_eq!(wrap_text("ab abcdefg", 4), vec!["ab", "abcd", "efg"]);
}

#[test]
fn word_pieces_are_cut_at_character_boundaries_within_the_byte_budget() {
    assert_eq!(wrap_text("héllo", 3), vec!["hé", "llo"]);
}

#[test]
fn every_wrapped_line_fits() {
    let text = "Lorem ipsum dolor sit amet, consectetur adipiscing elit, sed do eiusmod tempor";
    for width in 1..30 {
        let lines = wrap_text(text, width);
        assert!(!lines.is_empty());
        for line in &lines {
            assert!(line.chars().count() <= width, "{line:?} wider than {width}");
        }
        let rejoined: String = lines.concat().split_whitespace().collect();
        let original: String = text.split_whitespace().collect();
        assert_eq!(rejoined, original);
    }
}

#[test]
fn truncation_keeps_whole_characters() {
    assert_eq!(truncate_str("héllo", 2), "h");
    assert_eq!(truncate_str("héllo", 3), "hé");
    assert_eq!(truncate_str("hello", 10), "hello");
    assert_eq!(truncate_str("hello", 0), "");
}

#[test]
fn truncation_agrees_with_byte_slicing_on_ascii() {
    let s = "reference-2024-smith";
    for max in 0..30 {
        assert_eq!(truncate_str(s, max), &s[..max.min(s.len())]);
    }
}

#[test]
fn ellipsis_marks_a_cut() {
    assert_eq!(truncate_ellipsis("hello world", 6), "hello…");
    assert_eq!(truncate_ellipsis("hello", 5), "hello");
    assert_eq!(truncate_ellipsis("hello", 1), "hello");
    assert_eq!(truncate_ellipsis("héllo", 3), "h…");
}

#[test]
fn character_widths_follow_utf8() {
    for c in ['a', 'é', '€', '𝄞', '\u{7f}', '\u{80}', '\u{7ff}', '\u{800}', '\u{ffff}', '\u{10000}'] {
        assert_eq!(char_bytes(c), c.len_utf8());
    }
    let chars: Vec<char> = "aé€𝄞".chars().collect();
    assert_eq!(fit_count(&chars, 0, 6), 3);
    assert_eq!(fit_count(&chars, 1, 5), 2);
    assert_eq!(fit_count(&chars, 0, 100), 4);
}

#[test]
fn characters_wider_than_the_width_get_a_line_each() {
    assert_eq!(wrap_text("éé", 1), vec!["é", "é"]);
    assert_eq!(wrap_text("éé", 2), vec!["éé"]);
    assert_eq!(wrap_text("𝄞𝄞𝄞𝄞", 3), vec!["𝄞", "𝄞𝄞𝄞"]);
    assert_eq!(wrap_text("a𝄞𝄞𝄞", 3), vec!["a", "𝄞𝄞𝄞"]);
    assert_eq!(wrap_text("héllo wörld", 2), vec!["h", "é", "ll", "o", "w", "ö", "rl", "d"]);
}
