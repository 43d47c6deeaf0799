use grimoire::formula::split_lines;
use grimoire::text::{
    chars_of, collapse_whitespace, decimal_string, eq_ignore_ascii_case, replace_str, sort_strings, split_words,
    str_contains, str_ends_with, str_le, str_starts_with, to_ascii_lower, trim_str,
};

const SAMPLES: [&str; 14] = [
    "",
    " ",
    "a",
    "  two  words ",
    "tab\tand\nnewline",
    "a\r\nb\r\n",
    "trailing\n",
    "a\rb",
    "\u{3000}ideographic\u{00a0}nbsp\u{2028}",
    "Ünïcode Straße",
    "x\n\ny",
    "\r",
    "aaa",
    "abab",
];

#[test]
fn trimming_and_words_match_std() {
    for s in SAMPLES {
        assert_eq!(trim_str(s), s.trim(), "{s:?}");
        let v = chars_of(s);
        let words: Vec<&str> = s.split_whitespace().collect();
        assert_eq!(split_words(&v, 0, v.len()), words, "{s:?}");
        assert_eq!(collapse_whitespace(s), words.join(" "), "{s:?}");
        let lines: Vec<&str> = s.lines().collect();
        assert_eq!(split_lines(s), lines, "{s:?}");
    }
}

#[test]
fn comparisons_match_std() {
    for a in SAMPLES {
        for b in SAMPLES {
            assert_eq!(str_le(a, b), a <= b, "{a:?} {b:?}");
            assert_eq!(eq_ignore_ascii_case(a, b), a.eq_ignore_ascii_case(b), "{a:?} {b:?}");
            assert_eq!(str_contains(a, b), a.contains(b), "{a:?} {b:?}");
            assert_eq!(str_starts_with(a, b), a.starts_with(b), "{a:?} {b:?}");
            assert_eq!(str_ends_with(a, b), a.ends_with(b), "{a:?} {b:?}");
        }
    }
}

#[test]
fn replacing_matches_std() {
    for s in SAMPLES {
        for pat in ["a", "ab", " ", "\n"] {
            assert_eq!(replace_str(s, pat, "<>"), s.replace(pat, "<>"), "{s:?} {pat:?}");
        }
    }
}

#[test]
fn sorting_and_numbers_match_std() {
    let mut expected: Vec<String> = SAMPLES.iter().map(|s| s.to_string()).collect();
    let sorted = sort_strings(expected.clone());
    expected.sort();
    assert_eq!(sorted, expected);
    for n in [0u64, 7, 10, 12345, u64::MAX] {
        assert_eq!(decimal_string(n), n.to_string());
    }
    for c in ['A', 'z', 'Ä', '1', 'Z'] {
        assert_eq!(to_ascii_lower(c), c.to_ascii_lowercase());
    }
}
