//! Classification and previews.

use clipd::classify::{
    classify, classify_text, is_bracketed, is_hex_color, is_url, looks_like_code, looks_like_json,
    make_preview, preview_text,
};
use clipd::proto::ClipKind;

#[test]
fn classify_url() {
    assert_eq!(classify("text/plain", b"https://example.com"), ClipKind::Url);
}

#[test]
fn classify_hex() {
    assert_eq!(classify("text/plain", b"#7a3fb1"), ClipKind::HexColor);
    assert_eq!(classify("text/plain", b"#abc"), ClipKind::HexColor);
    assert_eq!(classify("text/plain", b"#abcd"), ClipKind::HexColor);
    assert_eq!(classify("text/plain", b"#aabbccff"), ClipKind::HexColor);
    assert_ne!(classify("text/plain", b"#zzz"), ClipKind::HexColor);
}

#[test]
fn classify_json() {
    assert_eq!(classify("text/plain", b"{\"a\":1}"), ClipKind::Json);
    assert_ne!(classify("text/plain", b"{not json}"), ClipKind::Json);
}

#[test]
fn classify_image() {
    assert_eq!(classify("image/png", &[0u8; 16]), ClipKind::Image);
}

#[test]
fn preview_collapses_whitespace() {
    let p = make_preview(ClipKind::Text, "text/plain", b"hello\n\nworld\t!", 80);
    assert_eq!(p, "hello world !");
}

#[test]
fn bytes_that_are_no_text_are_text_clips() {
    assert_eq!(classify("text/plain", &[0xff, 0xfe]), ClipKind::Text);
    assert_eq!(classify("text/plain", b""), ClipKind::Text);
    assert_eq!(classify("application/octet-stream", b"plain words"), ClipKind::Text);
}

#[test]
fn whitespace_around_a_clip_does_not_count() {
    assert_eq!(classify("text/plain", b"  #abc\n"), ClipKind::HexColor);
    assert_eq!(classify("text/plain", b"\thttps://example.com \n"), ClipKind::Url);
    assert_eq!(classify("text/plain", "\u{a0}[1, 2]\u{2003}".as_bytes()), ClipKind::Json);
}

#[test]
fn hex_colors_have_so_many_digits() {
    for (text, is) in [
        ("#", false),
        ("#a", false),
        ("#ab", false),
        ("#abc", true),
        ("#ABCD", true),
        ("#abcde", false),
        ("#0123ef", true),
        ("#0123efa", false),
        ("#0123efAB", true),
        ("#0123efABc", false),
        ("abc", false),
        ("", false),
        ("#äöü", false),
        ("#é1", false),
    ] {
        assert_eq!(is_hex_color(text), is, "{text}");
    }
}

#[test]
fn urls_begin_with_a_scheme() {
    for (text, is) in [
        ("http://a", true),
        ("HTTPS://A", true),
        ("ftp://x", true),
        ("file:///etc", true),
        ("ssh://host", true),
        ("git://repo", true),
        ("mailto:a@b", false),
        ("https://a b", false),
        ("https://a\u{3000}b", false),
        ("https:/", false),
        ("see https://a", false),
        ("", false),
    ] {
        assert_eq!(is_url(text), is, "{text}");
    }
}

#[test]
fn json_has_brackets_and_reads_as_json() {
    assert!(looks_like_json("[1, {\"a\": null}]"));
    assert!(looks_like_json("{}"));
    assert!(!looks_like_json("1"));
    assert!(!looks_like_json("\"text\""));
    assert!(!looks_like_json("[1, 2}"));
    assert!(!looks_like_json("{a: 1}"));
    assert!(!looks_like_json(""));
    assert!(!looks_like_json("["));
    assert!(is_bracketed("{x]}"));
    assert!(!is_bracketed("{x]"));
    assert!(!is_bracketed(""));
}

#[test]
fn code_has_lines_and_tokens() {
    assert!(looks_like_code("fn main() {\n}"));
    assert!(looks_like_code("IMPORT os\nos.exit()"));
    assert!(looks_like_code("a\n=> b"));
    assert!(!looks_like_code("fn main() {}"));
    assert!(!looks_like_code("dear all,\nsee you"));
    assert!(!looks_like_code(""));
    assert_eq!(classify("text/plain", b"def f():\n  return 1"), ClipKind::Code);
}

#[test]
fn every_code_token_is_known() {
    for token in [
        "fn ", "def ", "function ", "class ", "import ", "const ", "let ", "var ", "#include",
        "package ", "use ", "::", "=>", "->", "public ", "private ", "static ", "void ", "return ",
    ] {
        assert!(looks_like_code(&format!("1\n{token}2")), "{token}");
        assert!(looks_like_code(&format!("1\n{}2", token.to_uppercase())), "{token}");
    }
}

#[test]
fn kinds_are_tried_in_order() {
    assert_eq!(classify_text("#abc", true), ClipKind::HexColor);
    assert_eq!(classify_text("http://x", true), ClipKind::Url);
    assert_eq!(classify_text("[\n::\n]", true), ClipKind::Json);
    assert_eq!(classify_text("[\n::\n]", false), ClipKind::Code);
    assert_eq!(classify_text("hello", false), ClipKind::Text);
}

#[test]
fn previews_of_images_tell_type_and_size() {
    assert_eq!(make_preview(ClipKind::Image, "image/png", &[0; 1023], 80), "Image (image/png, 0 KB)");
    let jpeg = vec![0; 5 * 1024 + 100];
    assert_eq!(make_preview(ClipKind::Image, "image/jpeg", &jpeg, 24), "Image (image/jpeg, 5 KB)");
    assert_eq!(make_preview(ClipKind::Image, "image/jpeg", &jpeg, 23), "Image (image/jpeg, 5 K…");
    assert_eq!(make_preview(ClipKind::Image, "image/jpeg", &jpeg, 3), "Im…");
    assert_eq!(make_preview(ClipKind::Image, "image/jpeg", &jpeg, 0), "");
}

#[test]
fn previews_of_images_are_one_line() {
    let p = make_preview(ClipKind::Image, "image/\npng  x\u{7}", &[], 80);
    assert_eq!(p, "Image (image/ png x , 0 KB)");
}

#[test]
fn previews_are_cut_and_marked() {
    assert_eq!(preview_text("abcdef", 3), "ab…");
    assert_eq!(preview_text("abc", 3), "abc");
    assert_eq!(preview_text("ab ", 3), "ab");
    assert_eq!(preview_text("ab  ", 3), "ab");
    assert_eq!(preview_text("ab cd", 4), "ab …");
    assert_eq!(preview_text("abc\n", 3), "abc");
    assert_eq!(preview_text("ab", 1), "…");
    assert_eq!(preview_text("x", 1), "x");
    assert_eq!(preview_text("x", 0), "");
    assert_eq!(preview_text("", 0), "");
    assert_eq!(preview_text("\u{7}\u{7}a\u{1b}b", 80), "a b");
    assert_eq!(preview_text(" \n\t ", 80), "");
}

#[test]
fn previews_are_hard_capped() {
    for max in 0..12 {
        for text in ["", "a", "hello world", "  one \n two  three ", "äöü漢字 x y z"] {
            for kind in [ClipKind::Text, ClipKind::Image] {
                let p = make_preview(kind, "image/png", text.as_bytes(), max);
                assert!(p.chars().count() <= max, "{text} {max}");
            }
        }
    }
}

#[test]
fn previews_of_other_bytes_show_replacements() {
    let p = make_preview(ClipKind::Text, "text/plain", &[b'a', 0xff, b'b'], 80);
    assert_eq!(p, "a\u{fffd}b");
}

#[test]
fn previews_are_one_line_and_short() {
    let text = "one\r\ntwo   three\u{2028}four ".repeat(40);
    let p = preview_text(&text, 200);
    assert_eq!(p.chars().count(), 200);
    assert!(p.ends_with('…'));
    assert!(!p.contains("  "));
    assert!(p.chars().all(|c| !c.is_control() && (c == ' ' || !c.is_whitespace())));
}
