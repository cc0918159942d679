//! Ages, sizes, colors and rows.

use clipd::display::{format_clip_meta, human_bytes, relative_age, relative_age_at};
use clipd::emoji::{EmojiEntry, Group};
use clipd::line::{build_row, is_showable, Line};
use clipd::proto::{Clip, ClipKind};
use clipd::results::Result_;
use clipd::swatch::{build_hex_swatch, expand_nibble, is_sliceable};

fn by_float(n: u64) -> String {
    if n < 1024 {
        format!("{n} B")
    } else if n < 1024 * 1024 {
        format!("{:.0} KB", n as f64 / 1024.0)
    } else {
        format!("{:.1} MB", n as f64 / 1024.0 / 1024.0)
    }
}

#[test]
fn sizes_are_shown_in_units() {
    assert_eq!(human_bytes(0), "0 B");
    assert_eq!(human_bytes(1023), "1023 B");
    assert_eq!(human_bytes(1024), "1 KB");
    assert_eq!(human_bytes(1536), "2 KB");
    assert_eq!(human_bytes(2560), "2 KB");
    assert_eq!(human_bytes(1_048_575), "1024 KB");
    assert_eq!(human_bytes(1_048_576), "1.0 MB");
    assert_eq!(human_bytes(8_388_608), "8.0 MB");
    assert_eq!(human_bytes(1_300_000), "1.2 MB");
}

#[test]
fn sizes_are_rounded_as_doubles_are() {
    for n in 0..3_000_000u64 {
        if n % 7 == 0 || n % 512 == 0 {
            assert_eq!(human_bytes(n), by_float(n), "{n}");
        }
    }
    let mut n: u64 = 1;
    while n < u64::MAX / 3 {
        for m in [n - 1, n, n + 1, n + 52_428, n + 52_429, n + n / 3] {
            assert_eq!(human_bytes(m), by_float(m), "{m}");
        }
        n *= 2;
    }
    for m in [u64::MAX, u64::MAX - 1024, (1 << 53) + 1, (1 << 53) + 3, (1 << 60) + 64] {
        assert_eq!(human_bytes(m), by_float(m), "{m}");
    }
    for k in 0..4000u64 {
        let m = 1_048_576 + k * 52_428 + k % 3;
        assert_eq!(human_bytes(m), by_float(m), "{m}");
    }
}

#[test]
fn ages_are_shown_in_units() {
    let age = |d: i64| relative_age_at(1000, Some((1000 + d) as u64));
    for (d, text) in [
        (-500, "just now"),
        (0, "just now"),
        (59, "just now"),
        (60, "1m ago"),
        (3599, "59m ago"),
        (3600, "1h ago"),
        (86_399, "23h ago"),
        (86_400, "1d ago"),
        (2_591_999, "29d ago"),
        (2_592_000, "long ago"),
    ] {
        assert_eq!(age(d), text);
    }
    assert_eq!(relative_age_at(5, None), "just now");
}

#[test]
fn ages_are_counted_from_now() {
    assert_eq!(relative_age(0), "long ago");
    assert_eq!(relative_age(i64::MAX), "just now");
    assert_eq!(relative_age(i64::MIN), "long ago");
    assert_eq!(relative_age_at(i64::MIN, Some(5)), "long ago");
    assert_eq!(relative_age_at(i64::MAX, Some(1 << 63)), "just now");
    assert_eq!(relative_age_at(i64::MIN, None), "just now");
}

fn clip(kind: ClipKind, body: &[u8]) -> Clip {
    Clip {
        id: 1,
        kind,
        body: body.to_vec(),
        preview: "preview".into(),
        mime: "text/plain".into(),
        bytes: body.len() as u64,
        created_at: 0,
        last_used_at: 100,
        use_count: 1,
        pinned: true,
    }
}

#[test]
fn kinds_ages_and_sizes_stand_below_a_clip() {
    for (kind, word) in [
        (ClipKind::Text, "text"),
        (ClipKind::Url, "url"),
        (ClipKind::HexColor, "color"),
        (ClipKind::Json, "json"),
        (ClipKind::Code, "code"),
        (ClipKind::Image, "image"),
    ] {
        let meta = format_clip_meta(&clip(kind, b"12345"), Some(220));
        assert_eq!(meta, format!("{word} · 2m ago · 5 B"));
    }
}

#[test]
fn colors_are_read() {
    assert_eq!(build_hex_swatch(b"#fff"), Some((255, 255, 255)));
    assert_eq!(build_hex_swatch(b" #0aF\n"), Some((0, 170, 255)));
    assert_eq!(build_hex_swatch(b"#7a3fb1"), Some((0x7a, 0x3f, 0xb1)));
    assert_eq!(build_hex_swatch(b"#7a3fb1cc"), Some((0x7a, 0x3f, 0xb1)));
    assert_eq!(build_hex_swatch(b"#abcd"), None);
    assert_eq!(build_hex_swatch(b"#12"), None);
    assert_eq!(build_hex_swatch(b"abc"), None);
    assert_eq!(build_hex_swatch(b""), None);
    assert_eq!(build_hex_swatch(b"#xyz"), None);
    assert_eq!(build_hex_swatch(b"#12345g"), None);
    assert_eq!(build_hex_swatch(b"#+1+a+F"), Some((1, 10, 15)));
    assert_eq!(build_hex_swatch(b"#-1+a+F"), None);
    assert_eq!(build_hex_swatch(&[b'#', 0xff, 0xff, 0xff]), None);
    assert_eq!(build_hex_swatch("#éa".as_bytes()), None);
    assert_eq!(build_hex_swatch("#éaaaa".as_bytes()), None);
}

#[test]
fn digits_are_doubled() {
    for b in 0..=255u8 {
        let expected = (b as char).to_digit(16).map(|n| ((n << 4) | n) as u8);
        assert_eq!(expand_nibble(b), expected);
    }
}

#[test]
fn characters_are_not_cut() {
    assert!(is_sliceable(b"#123456"));
    assert!(is_sliceable("#ééé".as_bytes()));
    assert!(is_sliceable("#x\u{e9}".as_bytes()));
    assert!(!is_sliceable("#aébcd".as_bytes()));
    assert!(!is_sliceable("#12aéb".as_bytes()));
    assert!(!is_sliceable("#1234aéb".as_bytes()));
    assert!(is_sliceable("#zzaéb".as_bytes()));
    assert!(!is_sliceable("#€€".as_bytes()));
    assert!(is_sliceable(&[0xff]));
}

#[test]
fn rows_show_clips() {
    let r = Result_::Clip(clip(ClipKind::HexColor, b"#102030"));
    match build_row(&r, Some(100)) {
        Line::Clip { icon, swatch, title, meta, pinned } => {
            assert_eq!(icon, "color-select-symbolic");
            assert_eq!(swatch, Some((0x10, 0x20, 0x30)));
            assert_eq!(title, "preview");
            assert_eq!(meta, "color · just now · 7 B");
            assert!(pinned);
        }
        other => panic!("{other:?}"),
    }
    let r = Result_::Clip(clip(ClipKind::Text, b"#102030"));
    assert!(matches!(build_row(&r, None), Line::Clip { swatch: None, .. }));
    let r = Result_::Clip(clip(ClipKind::Image, &[0; 4]));
    match build_row(&r, Some(100)) {
        Line::Image { title, meta, pinned } => {
            assert_eq!((title.as_str(), meta.as_str(), pinned), ("Image", "image · just now · 4 B", true));
        }
        other => panic!("{other:?}"),
    }
}

#[test]
fn rows_show_emojis() {
    let emoji = |codes: &[&str]| {
        Result_::Emoji(EmojiEntry {
            glyph: "🚀".into(),
            name: "rocket".into(),
            shortcodes: codes.iter().map(|s| s.to_string()).collect(),
            group: Group::TravelAndPlaces,
        })
    };
    let meta = |codes: &[&str]| match build_row(&emoji(codes), None) {
        Line::Emoji { glyph, name, aliases } => {
            assert_eq!((glyph.as_str(), name.as_str()), ("🚀", "rocket"));
            aliases
        }
        other => panic!("{other:?}"),
    };
    assert_eq!(meta(&[]), None);
    assert_eq!(meta(&["a"]).unwrap(), ":a:");
    assert_eq!(meta(&["a", "b", "c", "d", "e"]).unwrap(), ":a: :b: :c: :d:");
}

#[test]
fn rows_that_cannot_be_made_are_told() {
    assert!(is_showable(&Result_::Clip(clip(ClipKind::Text, b"x"))));
    assert!(!is_showable(&Result_::Clip(clip(ClipKind::HexColor, "#aébcd".as_bytes()))));
    assert!(is_showable(&Result_::Clip(clip(ClipKind::Text, "#aébcd".as_bytes()))));
}
