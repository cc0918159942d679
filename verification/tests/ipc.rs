//! How the daemon answers.

use clipd::history::{Hit, StoreError};
use clipd::ipc::{
    clipboard_offer, dispatch, dispatch_at, ingest_at, search_expression, write_to_clipboard,
};
use clipd::proto::{ClipKind, InternalRequest, Request, Response};
use clipd::query::{fts_query, match_expression};
use clipd::store::Store;

fn ask(store: &mut Store, req: Request, now: i64) -> Response {
    dispatch_at(InternalRequest::Public(req), store, Ok(vec![]), now)
}

fn ingest(store: &mut Store, mime: &str, body: &[u8], now: i64) -> Response {
    let req = InternalRequest::Ingest { mime: mime.into(), body: body.to_vec() };
    dispatch_at(req, store, Ok(vec![]), now)
}

fn done(r: &Response) -> bool {
    matches!(r, Response::Done)
}

fn failure(r: Response) -> String {
    match r {
        Response::Failed(m) => m,
        other => panic!("{other:?}"),
    }
}

#[test]
fn pings_are_answered() {
    let mut s = Store::new();
    let r = ask(&mut s, Request::Ping, 0);
    assert!(matches!(r, Response::Pong { version, protocol: 1 } if version == "0.2.0"));
}

#[test]
fn captured_content_is_listed() {
    let mut s = Store::new();
    assert!(done(&ingest(&mut s, "text/plain", b"hello\n  world", 5)));
    assert!(done(&ingest(&mut s, "image/png", &[0; 2048], 6)));
    match ask(&mut s, Request::Recent { limit: 10 }, 7) {
        Response::Clips(clips) => {
            assert_eq!(clips.len(), 2);
            assert_eq!(clips[0].kind, ClipKind::Image);
            assert_eq!(clips[0].preview, "Image (image/png, 2 KB)");
            assert_eq!(clips[1].preview, "hello world");
            assert_eq!(clips[1].body, b"hello\n  world");
        }
        other => panic!("{other:?}"),
    }
}

#[test]
fn blank_content_is_skipped() {
    let mut s = Store::new();
    assert!(done(&ingest(&mut s, "text/plain", b" \n\t\x07", 5)));
    assert!(done(&ingest(&mut s, "text/plain", b"", 5)));
    assert!(s.recent(10).is_empty());
    assert!(done(&ingest(&mut s, "image/png", b"", 5)));
    assert_eq!(s.recent(10).len(), 1);
}

#[test]
fn previews_of_captured_text_are_cut() {
    let mut s = Store::new();
    assert!(done(&ingest_at("text/plain", &[b'x'; 300], &mut s, 1)));
    assert_eq!(s.recent(1)[0].preview, format!("{}…", "x".repeat(199)));
}

#[test]
fn activating_counts_as_a_use() {
    let mut s = Store::new();
    ingest(&mut s, "text/plain", b"a", 1);
    ingest(&mut s, "text/plain", b"b", 2);
    assert!(done(&ask(&mut s, Request::Activate { id: 1 }, 9)));
    let clips = s.recent(10);
    assert_eq!((clips[0].id, clips[0].use_count, clips[0].last_used_at), (1, 2, 9));
}

#[test]
fn unknown_clips_are_refused_by_name() {
    let mut s = Store::new();
    assert_eq!(failure(ask(&mut s, Request::Activate { id: 7 }, 1)), "clip 7 not found");
    assert_eq!(failure(ask(&mut s, Request::Activate { id: -3 }, 1)), "clip -3 not found");
    ingest(&mut s, "text/plain", b"a", 1);
    assert!(done(&ask(&mut s, Request::Delete { id: 1 }, 1)));
    assert_eq!(failure(ask(&mut s, Request::Activate { id: 1 }, 1)), "clip 1 not found");
    assert!(done(&ask(&mut s, Request::Delete { id: 1 }, 1)));
    assert!(done(&ask(&mut s, Request::SetPinned { id: 1, pinned: true }, 1)));
}

#[test]
fn clips_are_pinned_and_cleared() {
    let mut s = Store::new();
    ingest(&mut s, "text/plain", b"a", 1);
    ingest(&mut s, "text/plain", b"b", 2);
    assert!(done(&ask(&mut s, Request::SetPinned { id: 1, pinned: true }, 3)));
    assert!(s.recent(10)[0].pinned);
    assert_eq!(s.recent(10)[0].id, 1);
    assert!(done(&ask(&mut s, Request::Clear, 3)));
    assert!(s.recent(10).is_empty());
}

#[test]
fn searches_are_answered_from_the_index() {
    let mut s = Store::new();
    ingest(&mut s, "text/plain", b"alpha", 1);
    ingest(&mut s, "text/plain", b"beta", 2);
    let req = || {
        InternalRequest::Public(Request::Search { query: "al-pha \"x\" !!".into(), limit: 5 })
    };
    assert_eq!(search_expression(&req()).unwrap(), "\"al-pha\"* \"x\"*");
    match dispatch_at(req(), &mut s, Ok(vec![Hit { id: 1, rank: -1 }]), 3) {
        Response::Clips(clips) => assert_eq!(clips[0].preview, "alpha"),
        other => panic!("{other:?}"),
    }
    let r = dispatch_at(req(), &mut s, Err("no such table: clips_text".into()), 3);
    assert_eq!(failure(r), "no such table: clips_text");
    assert!(search_expression(&InternalRequest::Public(Request::Ping)).is_none());
}

#[test]
fn queries_become_prefix_terms() {
    assert_eq!(fts_query("foo"), "\"foo\"*");
    assert_eq!(fts_query("  foo  bar_baz-1 "), "\"foo\"* \"bar_baz-1\"*");
    assert_eq!(fts_query("a\"b* OR (c)"), "\"ab\"* \"OR\"* \"c\"*");
    assert_eq!(fts_query("grüße ½ 漢字"), "\"grüße\"* \"½\"* \"漢字\"*");
    assert_eq!(fts_query("?! ..."), "\"\"*");
    assert_eq!(fts_query(""), "\"\"*");
    assert_eq!(match_expression(&vec![]), "\"\"*");
    assert_eq!(match_expression(&vec![vec!['x'], vec!['y', 'z']]), "\"x\"* \"yz\"*");
}

#[test]
fn activated_clips_are_offered() {
    let mut s = Store::new();
    ingest(&mut s, "text/html", b"words", 1);
    ingest(&mut s, "image/jpeg", &[1, 2], 2);
    let activate = |id| InternalRequest::Public(Request::Activate { id });
    let text = clipboard_offer(&s, &activate(1)).unwrap();
    assert_eq!((text.body.as_slice(), text.mime), (b"words".as_slice(), None));
    let image = clipboard_offer(&s, &activate(2)).unwrap();
    assert_eq!((image.body.as_slice(), image.mime.as_deref()), ([1, 2].as_slice(), Some("image/jpeg")));
    assert!(clipboard_offer(&s, &activate(3)).is_none());
    assert!(clipboard_offer(&s, &InternalRequest::Public(Request::Clear)).is_none());
    assert!(write_to_clipboard(&s.clip(2).unwrap()).mime.is_some());
}

#[test]
fn failures_of_the_history_have_messages() {
    assert_eq!(StoreError::OutOfIds.message(), "database or disk is full");
    assert_eq!(StoreError::CountExhausted.message(), "use count is exhausted");
    let mut s = Store::from_rows(vec![], i64::MAX).unwrap();
    assert_eq!(failure(ingest(&mut s, "text/plain", b"x", 1)), "database or disk is full");
}

#[test]
fn requests_are_answered_now() {
    let mut s = Store::new();
    let req = InternalRequest::Ingest { mime: "text/plain".into(), body: b"x".to_vec() };
    assert!(done(&dispatch(req, &mut s, Ok(vec![]))));
    assert!(s.recent(1)[0].created_at > 1_600_000_000);
}

#[test]
fn queries_of_queries_are_the_same() {
    for s in ["", "foo", "a\"b* OR (c)", " grüße  ½ ?! x_y-z", "\u{3000}x\u{a0}*y\"", "\"\"*"] {
        let q = fts_query(s);
        assert_eq!(fts_query(&q), q);
        assert!(q.chars().all(|c| c.is_alphanumeric() || "_- \"*".contains(c)), "{q}");
    }
}
