//! The clipboard history.

use clipd::clock::{seconds_since_epoch, unix_time, whole_seconds};
use clipd::history::{Hit, StoreError, MAX_HISTORY_ROWS, MAX_IMAGE_BYTES, MAX_TEXT_BYTES};
use clipd::proto::{Clip, ClipKind};
use clipd::store::{indexed_text, xxhash, Change, Row, Store};

fn add(store: &mut Store, text: &str, now: i64) -> i64 {
    store.insert_at(ClipKind::Text, "text/plain", text.as_bytes(), text, now).unwrap()
}

fn previews(clips: &[Clip]) -> Vec<&str> {
    clips.iter().map(|c| c.preview.as_str()).collect()
}

fn row(id: i64, text: &str, last_used_at: i64) -> Row {
    Row {
        id,
        kind: 0,
        mime: "text/plain".into(),
        body: text.as_bytes().to_vec(),
        preview: text.into(),
        hash: xxhash(text.as_bytes()) as i64,
        bytes: text.len() as i64,
        created_at: last_used_at,
        last_used_at,
        use_count: 1,
        pinned: 0,
    }
}

#[test]
fn the_hash_is_fnv1a() {
    assert_eq!(xxhash(b""), 0xcbf29ce484222325);
    assert_eq!(xxhash(b"a"), 0xaf63dc4c8601ec8c);
    assert_eq!(xxhash(b"foobar"), 0x85944171f73967e8);
}

#[test]
fn captured_clips_are_read_back() {
    let mut s = Store::new();
    let id = s.insert_at(ClipKind::Url, "text/uri", b"http://x", "http://x", 77).unwrap();
    let clip = s.clip(id).unwrap();
    assert_eq!(id, 1);
    assert_eq!(clip.id, id);
    assert_eq!(clip.kind, ClipKind::Url);
    assert_eq!(clip.body, b"http://x");
    assert_eq!(clip.preview, "http://x");
    assert_eq!(clip.mime, "text/uri");
    assert_eq!(clip.bytes, 8);
    assert_eq!(clip.created_at, 77);
    assert_eq!(clip.last_used_at, 77);
    assert_eq!(clip.use_count, 1);
    assert!(!clip.pinned);
}

#[test]
fn same_content_is_one_clip() {
    let mut s = Store::new();
    let a = add(&mut s, "a", 10);
    let b = add(&mut s, "b", 20);
    assert_eq!(add(&mut s, "a", 30), a);
    assert_ne!(a, b);
    let clips = s.recent(10);
    assert_eq!(previews(&clips), ["a", "b"]);
    assert_eq!(clips[0].use_count, 2);
    assert_eq!(clips[0].created_at, 10);
    assert_eq!(clips[0].last_used_at, 30);
}

#[test]
fn the_same_bytes_of_another_kind_are_another_clip() {
    let mut s = Store::new();
    let a = s.insert_at(ClipKind::Text, "text/plain", b"x", "x", 1).unwrap();
    let b = s.insert_at(ClipKind::Code, "text/plain", b"x", "x", 2).unwrap();
    assert_ne!(a, b);
    assert_eq!(s.recent(10).len(), 2);
}

#[test]
fn big_content_is_skipped() {
    let mut s = Store::new();
    let text = vec![b'x'; MAX_TEXT_BYTES + 1];
    assert_eq!(s.insert_at(ClipKind::Text, "text/plain", &text, "x", 1), Ok(0));
    assert_eq!(s.insert_at(ClipKind::Text, "text/plain", &text[1..], "x", 1), Ok(1));
    let image = vec![0u8; MAX_IMAGE_BYTES + 1];
    assert_eq!(s.insert_at(ClipKind::Image, "image/png", &image, "i", 1), Ok(0));
    assert_eq!(s.insert_at(ClipKind::Image, "image/png", &image[1..], "i", 1), Ok(2));
    assert_eq!(s.recent(10).len(), 2);
}

#[test]
fn recent_clips_are_listed_in_order() {
    let mut s = Store::new();
    add(&mut s, "old", 1);
    let b = add(&mut s, "mid", 2);
    add(&mut s, "new", 3);
    assert_eq!(previews(&s.recent(10)), ["new", "mid", "old"]);
    s.set_pinned(b, true);
    assert_eq!(previews(&s.recent(10)), ["mid", "new", "old"]);
    assert_eq!(previews(&s.recent(2)), ["mid", "new"]);
    assert!(s.recent(0).is_empty());
    s.set_pinned(b, false);
    assert_eq!(previews(&s.recent(10)), ["new", "mid", "old"]);
}

#[test]
fn clips_used_at_the_same_time_stand_by_id() {
    let mut s = Store::new();
    add(&mut s, "a", 5);
    add(&mut s, "b", 5);
    add(&mut s, "c", 5);
    assert_eq!(previews(&s.recent(10)), ["a", "b", "c"]);
}

#[test]
fn used_clips_rise_to_the_top() {
    let mut s = Store::new();
    let a = add(&mut s, "a", 1);
    add(&mut s, "b", 2);
    assert_eq!(s.touch_at(a, 3), Ok(()));
    let clips = s.recent(10);
    assert_eq!(previews(&clips), ["a", "b"]);
    assert_eq!((clips[0].use_count, clips[0].last_used_at), (2, 3));
    assert_eq!(s.touch_at(99, 4), Ok(()));
    assert_eq!(s.recent(10).len(), 2);
}

#[test]
fn deleted_clips_are_gone_and_ids_are_not_reused() {
    let mut s = Store::new();
    let a = add(&mut s, "a", 1);
    let b = add(&mut s, "b", 2);
    s.delete(b);
    s.delete(99);
    assert!(s.clip(b).is_none());
    assert_eq!(previews(&s.recent(10)), ["a"]);
    let c = add(&mut s, "c", 3);
    assert!(c > b && b > a);
    s.clear();
    assert!(s.recent(10).is_empty());
    assert!(add(&mut s, "d", 4) > c);
}

#[test]
fn unpinned_clips_expire_after_a_day() {
    let mut s = Store::new();
    add(&mut s, "expired", 100);
    add(&mut s, "just in time", 101);
    let kept = add(&mut s, "kept", 5);
    s.set_pinned(kept, true);
    assert_eq!(s.cleanup_expired_at(86_400 + 101), 1);
    assert_eq!(previews(&s.recent(10)), ["kept", "just in time"]);
    assert_eq!(s.cleanup_expired_at(86_400 + 101), 0);
    assert_eq!(s.cleanup_expired_at(i64::MIN), 0);
    assert_eq!(s.cleanup_expired_at(i64::MAX), 1);
}

#[test]
fn the_history_stays_short() {
    let mut s = Store::new();
    let pinned = add(&mut s, "pinned", 0);
    s.set_pinned(pinned, true);
    for i in 0..MAX_HISTORY_ROWS as i64 + 2 {
        add(&mut s, &format!("clip {i}"), i + 1);
    }
    let clips = s.recent(u32::MAX);
    assert_eq!(clips.len(), MAX_HISTORY_ROWS + 1);
    assert_eq!(clips[0].preview, "pinned");
    assert_eq!(clips[1].preview, "clip 2001");
    assert_eq!(clips.last().unwrap().preview, "clip 2");
}

#[test]
fn searches_rank_what_the_index_found() {
    let mut s = Store::new();
    let a = add(&mut s, "a", 1);
    let b = add(&mut s, "b", 2);
    let c = add(&mut s, "c", 3);
    let d = add(&mut s, "d", 4);
    add(&mut s, "e", 5);
    s.set_pinned(d, true);
    let hits = [
        Hit { id: a, rank: -10 },
        Hit { id: b, rank: -3 },
        Hit { id: 99, rank: -99 },
        Hit { id: c, rank: -3 },
        Hit { id: d, rank: 0 },
    ];
    assert_eq!(previews(&s.search(&hits, 10)), ["d", "a", "c", "b"]);
    assert_eq!(previews(&s.search(&hits, 2)), ["d", "a"]);
    assert!(s.search(&[], 10).is_empty());
}

#[test]
fn saved_histories_are_read_back() {
    let s = Store::from_rows(vec![row(3, "x", 10), row(5, "y", 20)], 9).unwrap();
    assert_eq!(previews(&s.recent(10)), ["y", "x"]);
    let mut s = s;
    assert_eq!(add(&mut s, "z", 30), 10);
    assert!(Store::from_rows(vec![row(5, "y", 1), row(3, "x", 1)], 9).is_none());
    assert!(Store::from_rows(vec![row(3, "x", 1), row(3, "y", 1)], 9).is_none());
    let mut s = Store::from_rows(vec![row(-1, "x", 1), row(0, "y", 2)], 0).unwrap();
    assert_eq!(previews(&s.recent(10)), ["y", "x"]);
    assert_eq!(add(&mut s, "x", 3), -1);
    assert_eq!(add(&mut s, "new", 4), 1);
    assert!(Store::from_rows(vec![row(1, "x", 1)], 0).is_some());
}

#[test]
fn rows_of_unknown_kind_are_text() {
    let mut r = row(1, "x", 1);
    r.kind = 42;
    r.pinned = 7;
    let s = Store::from_rows(vec![r], 1).unwrap();
    let clip = s.clip(1).unwrap();
    assert_eq!(clip.kind, ClipKind::Text);
    assert!(clip.pinned);
}

#[test]
fn kinds_have_numbers() {
    for (kind, n) in [
        (ClipKind::Text, 0),
        (ClipKind::Url, 1),
        (ClipKind::HexColor, 2),
        (ClipKind::Json, 3),
        (ClipKind::Code, 4),
        (ClipKind::Image, 5),
    ] {
        assert_eq!(kind.to_number(), n);
        assert_eq!(ClipKind::from_number(n), kind);
    }
    assert_eq!(ClipKind::from_number(-1), ClipKind::Text);
    assert_eq!(ClipKind::from_number(6), ClipKind::Text);
}

#[test]
fn ids_run_out() {
    let mut s = Store::from_rows(vec![row(i64::MAX, "x", 1)], i64::MAX).unwrap();
    assert_eq!(
        s.insert_at(ClipKind::Text, "text/plain", b"new", "new", 2),
        Err(StoreError::OutOfIds)
    );
    assert_eq!(add(&mut s, "x", 3), i64::MAX);
}

#[test]
fn use_counts_run_out() {
    let mut r = row(1, "x", 1);
    r.use_count = i64::MAX;
    let mut s = Store::from_rows(vec![r], 1).unwrap();
    assert_eq!(s.touch_at(1, 2), Err(StoreError::CountExhausted));
    assert_eq!(
        s.insert_at(ClipKind::Text, "text/plain", b"x", "x", 2),
        Err(StoreError::CountExhausted)
    );
    assert_eq!(s.clip(1).unwrap().last_used_at, 1);
}

/// A saved copy of the table that takes the steps the history notes.
fn replay(rows: &mut Vec<Row>, changes: Vec<Change>) {
    for change in changes {
        match change {
            Change::Add { row } => rows.push(row),
            Change::Use { id, last_used_at } => {
                for r in rows.iter_mut().filter(|r| r.id == id) {
                    r.last_used_at = last_used_at;
                    r.use_count += 1;
                }
            }
            Change::Pin { id, pinned } => {
                for r in rows.iter_mut().filter(|r| r.id == id) {
                    r.pinned = if pinned { 1 } else { 0 };
                }
            }
            Change::Remove { id } => rows.retain(|r| r.id != id),
            Change::RemoveAll => rows.clear(),
        }
    }
}

#[test]
fn saved_copies_keep_up() {
    let mut s = Store::new();
    let mut saved: Vec<Row> = Vec::new();
    let check = |s: &Store, saved: &Vec<Row>| {
        let copy: Vec<Row> = saved
            .iter()
            .map(|r| Row { mime: r.mime.clone(), body: r.body.clone(), preview: r.preview.clone(), ..*r })
            .collect();
        let last = copy.last().map_or(0, |r| r.id);
        let read = Store::from_rows(copy, last).unwrap();
        assert_eq!(format!("{:?}", read.recent(u32::MAX)), format!("{:?}", s.recent(u32::MAX)));
    };
    for i in 0..MAX_HISTORY_ROWS as i64 + 5 {
        add(&mut s, &format!("{i}"), 1000 - i % 7);
    }
    replay(&mut saved, s.take_changes());
    check(&s, &saved);
    add(&mut s, "again", 2000);
    add(&mut s, "again", 2001);
    s.set_pinned(7, true);
    s.set_pinned(9999, true);
    s.touch_at(12, 3000).unwrap();
    s.delete(13);
    replay(&mut saved, s.take_changes());
    check(&s, &saved);
    s.cleanup_expired_at(2500 + 86_400);
    replay(&mut saved, s.take_changes());
    check(&s, &saved);
    s.clear();
    add(&mut s, "last", 1);
    replay(&mut saved, s.take_changes());
    check(&s, &saved);
    assert!(s.take_changes().is_empty());
}

#[test]
fn the_clock_is_behind_the_epoch() {
    let mut s = Store::new();
    let id = s.insert(ClipKind::Text, "text/plain", b"now", "now").unwrap();
    let seen = s.clip(id).unwrap().created_at;
    assert!(seen > 1_600_000_000);
    s.touch(id).unwrap();
    let clip = s.clip(id).unwrap();
    assert!(clip.last_used_at >= seen);
    assert_eq!(clip.use_count, 2);
    assert_eq!(s.cleanup_expired(), 0);
}

#[test]
fn icons_stand_for_kinds() {
    assert_eq!(ClipKind::Text.icon_hint(), "edit-paste-symbolic");
    assert_eq!(ClipKind::Url.icon_hint(), "web-browser-symbolic");
    assert_eq!(ClipKind::HexColor.icon_hint(), "color-select-symbolic");
    assert_eq!(ClipKind::Json.icon_hint(), "text-x-generic-symbolic");
    assert_eq!(ClipKind::Code.icon_hint(), "utilities-terminal-symbolic");
    assert_eq!(ClipKind::Image.icon_hint(), "image-x-generic-symbolic");
}

#[test]
fn readings_of_the_clock_are_whole_seconds() {
    assert_eq!(whole_seconds(Some((7, 999_999_999))), Some(7));
    assert_eq!(whole_seconds(Some((0, 1))), Some(0));
    assert_eq!(whole_seconds(None), None);
    assert_eq!(unix_time(Some(7)), 7);
    assert_eq!(unix_time(None), 0);
    let known = std::time::SystemTime::now()
        .duration_since(std::time::UNIX_EPOCH)
        .map(|d| d.as_secs())
        .unwrap();
    let read = seconds_since_epoch().unwrap();
    assert!(known <= read && read <= known + 5);
}

#[test]
fn repeated_captures_are_merged_after_others() {
    let mut s = Store::new();
    let i = add(&mut s, "x", 10);
    s.set_pinned(i, true);
    add(&mut s, "y", 50);
    add(&mut s, "z", 60);
    let again = s.insert_at(ClipKind::Text, "text/other", b"x", "other", 5);
    assert_eq!(again, Ok(i));
    assert_eq!(s.recent(10).len(), 3);
    let clip = s.clip(i).unwrap();
    assert_eq!((clip.use_count, clip.last_used_at, clip.created_at), (2, 5, 10));
    assert_eq!((clip.mime.as_str(), clip.preview.as_str(), clip.pinned), ("text/plain", "x", true));
}

#[test]
fn whole_texts_are_indexed() {
    let long = "word ".repeat(100) + "needle";
    let mut r = row(1, &long, 1);
    r.preview = "word…".into();
    assert_eq!(indexed_text(&r), long);
    r.body = vec![b'a', 0xff];
    assert_eq!(indexed_text(&r), "a\u{fffd}");
    r.kind = 5;
    assert_eq!(indexed_text(&r), "word…");
}
