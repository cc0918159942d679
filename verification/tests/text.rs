//! Characters, words and numbers.

use clipd::text::{
    chars_of, contains, is_control, is_whitespace, parse_u32, push_decimal, push_signed_decimal,
    same_text, split_lines, split_words, starts_with, string_of, to_ascii_lowered, trim,
};

#[test]
fn whitespace_and_control_are_those_of_the_standard_library() {
    for n in 0..=0x10ffff_u32 {
        if let Some(c) = char::from_u32(n) {
            assert_eq!(is_whitespace(c), c.is_whitespace(), "{n:x}");
            assert_eq!(is_control(c), c.is_control(), "{n:x}");
        }
    }
}

#[test]
fn trimming_takes_whitespace_from_both_ends() {
    for s in ["", " ", "a", " a ", "\u{2003}a b\n", "\u{1680}", "ü \u{85}"] {
        assert_eq!(trim(s), s.trim());
    }
}

#[test]
fn words_are_split_at_whitespace() {
    for s in ["", "  ", "a", " a bc\t\u{a0}d ", "one\ntwo", "x "] {
        let words: Vec<String> =
            split_words(&chars_of(s)).iter().map(|w| w.iter().collect()).collect();
        let expected: Vec<&str> = s.split_whitespace().collect();
        assert_eq!(words, expected);
    }
}

#[test]
fn lines_are_split_at_line_feeds() {
    for s in ["", "a", "a\nb", "\n", "a\n\nb\n"] {
        let lines: Vec<String> =
            split_lines(&chars_of(s)).iter().map(|w| w.iter().collect()).collect();
        let expected: Vec<&str> = s.split('\n').collect();
        assert_eq!(lines, expected);
    }
}

#[test]
fn texts_are_searched_and_compared() {
    assert!(starts_with("hello", "he"));
    assert!(starts_with("hello", ""));
    assert!(!starts_with("he", "hello"));
    assert!(contains("hello", "ell"));
    assert!(contains("hello", ""));
    assert!(contains("ööö", "öö"));
    assert!(!contains("hello", "lle"));
    assert!(!contains("", "x"));
    assert!(same_text("grün", "grün"));
    assert!(!same_text("grün", "grünn"));
    assert!(!same_text("a", "b"));
}

#[test]
fn ascii_letters_are_lowered() {
    let s = "AbZ[`Ä{0";
    assert_eq!(string_of(&to_ascii_lowered(&chars_of(s))), s.to_ascii_lowercase());
}

#[test]
fn numbers_are_written_in_decimal() {
    for n in [0u128, 9, 10, 1048576, u128::MAX] {
        let mut s = String::from("x");
        push_decimal(&mut s, n);
        assert_eq!(s, format!("x{n}"));
    }
    for n in [0i64, -1, 42, i64::MIN, i64::MAX] {
        let mut s = String::new();
        push_signed_decimal(&mut s, n);
        assert_eq!(s, n.to_string());
    }
}

#[test]
fn numbers_are_read_as_the_standard_library_reads_them() {
    for s in [
        "", "+", "0", "7", "+7", "-7", "007", "1000", "4294967295", "4294967296", "99999999999",
        "1a", "a1", " 1", "１", "++1", "18446744073709551616000",
    ] {
        assert_eq!(parse_u32(&chars_of(s)), s.parse::<u32>().ok(), "{s}");
    }
}
