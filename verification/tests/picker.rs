//! The palette.

use clipd::cli::{command, ingest_request, parse_mime, run, Command, IngestError};
use clipd::client::Client;
use clipd::emoji::{EmojiEntry, Group};
use clipd::menu::{menu_anchor, show_context_menu, Bounds, MenuAction};
use clipd::picker::{
    entry_action, follow_up, key_action, move_selection, reselected, window_key_action, Asked,
    Debounce, FocusWatch, FollowUp, Key, KeyAction, MenuWatch, PasteMode, Tab,
};
use clipd::proto::{Clip, ClipKind, InternalRequest, Request, Response};
use clipd::results::{
    activate_row, ask_refresh, clip_results, copy_via_wl_copy, delete_row, emoji_results,
    empty_message, maybe_refresh, result_at, spawn_paste, toggle_pin, Result_,
};
use clipd::snapshot::{
    after, is_worth_sending, mime, paste_args, snapshot_clipboard, Next, Outcome, Wanted,
};
use clipd::watcher::Watcher;

fn clip(id: i64, kind: ClipKind, pinned: bool) -> Clip {
    Clip {
        id,
        kind,
        body: vec![1, 2, 3],
        preview: "p".into(),
        mime: "image/jpeg".into(),
        bytes: 3,
        created_at: 0,
        last_used_at: 0,
        use_count: 1,
        pinned,
    }
}

fn results() -> Vec<Result_> {
    vec![
        Result_::Clip(clip(7, ClipKind::Text, false)),
        Result_::Clip(clip(8, ClipKind::Image, true)),
        Result_::Emoji(EmojiEntry {
            glyph: "🚀".into(),
            name: "rocket".into(),
            shortcodes: vec![],
            group: Group::Symbols,
        }),
    ]
}

fn client() -> Client {
    Client::new(Some("/r"), None)
}

#[test]
fn keys_do_what_the_table_says() {
    let act = |key, ctrl, shift| key_action(key, ctrl, shift);
    for held in [false, true] {
        assert_eq!(act(Key::Down, held, held), KeyAction::Move { delta: 1 });
        assert_eq!(act(Key::Up, held, held), KeyAction::Move { delta: -1 });
        assert_eq!(act(Key::Escape, held, held), KeyAction::Proceed);
        assert_eq!(act(Key::Other, held, held), KeyAction::Proceed);
    }
    for key in [Key::Return, Key::KeypadEnter] {
        assert_eq!(act(key, false, true), KeyAction::Paste { mode: PasteMode::Super });
        assert_eq!(act(key, true, false), KeyAction::Proceed);
    }
    assert_eq!(act(Key::P, true, false), KeyAction::TogglePin);
    assert_eq!(act(Key::D, true, false), KeyAction::Delete);
    assert_eq!(act(Key::One, true, false), KeyAction::Show { tab: Tab::Clipboard });
    assert_eq!(act(Key::Two, true, false), KeyAction::Show { tab: Tab::Emoji });
    for key in [Key::P, Key::D, Key::One, Key::Two] {
        assert_eq!(act(key, false, true), KeyAction::Proceed);
    }
    assert_eq!(window_key_action(Key::Escape), KeyAction::Close);
    assert_eq!(window_key_action(Key::Up), KeyAction::Proceed);
}

#[test]
fn the_selection_wraps() {
    for count in 1..6i32 {
        for cur in 0..count {
            for delta in -7..=7i32 {
                let expected = (cur + delta).rem_euclid(count);
                assert_eq!(move_selection(count, Some(cur), delta), Some(expected));
            }
        }
    }
    assert_eq!(move_selection(0, Some(3), 1), None);
    assert_eq!(move_selection(4, None, -1), Some(3));
    assert_eq!(move_selection(4, None, 1), Some(1));
}

#[test]
fn the_selection_stays_after_a_deletion() {
    assert_eq!(reselected(2, 5), Some(2));
    assert_eq!(reselected(5, 5), Some(4));
    assert_eq!(reselected(0, 0), None);
}

#[test]
fn clicks_outside_close_the_palette() {
    let mut w = FocusWatch::new();
    assert!(!w.changed(false, 900, false));
    assert!(!w.changed(true, 950, false));
    assert!(!w.changed(false, 499, false));
    assert!(!w.changed(false, 1000, true));
    assert!(w.changed(false, 500, false));
}

#[test]
fn plain_enter_pastes() {
    assert_eq!(entry_action(), KeyAction::Paste { mode: PasteMode::Normal });
}

#[test]
fn the_list_follows_what_was_asked() {
    assert_eq!(follow_up(Asked::Pin), FollowUp::Refresh);
    assert_eq!(
        follow_up(Asked::Delete { idx: 3, deleted: true }),
        FollowUp::RefreshAndReselect { idx: 3 }
    );
    assert_eq!(follow_up(Asked::Delete { idx: 3, deleted: false }), FollowUp::Nothing);
}

#[test]
fn an_open_menu_keeps_the_palette_open() {
    let (mut menu, mut focus) = (MenuWatch::new(), FocusWatch::new());
    assert!(!menu.is_open());
    focus.changed(true, 0, menu.is_open());
    menu.menu_opened(false);
    assert!(!menu.is_open());
    menu.menu_opened(true);
    assert!(menu.is_open());
    menu.menu_opened(false);
    assert!(!focus.changed(false, 1000, menu.is_open()));
    menu.menu_closed();
    assert!(!menu.is_open());
    assert!(focus.changed(false, 1000, menu.is_open()));
}

#[test]
fn only_the_last_change_of_the_query_counts() {
    let mut d = Debounce::new();
    let first = d.changed();
    assert!(d.is_latest(first));
    let second = d.changed();
    assert!(!d.is_latest(first));
    assert!(d.is_latest(second));
    let mut d = Debounce { latest: u32::MAX };
    assert_eq!(d.changed(), 0);
}

#[test]
fn the_list_is_filled_by_requests() {
    let c = client();
    assert!(matches!(
        ask_refresh(&c, Tab::Clipboard, ""),
        Some(InternalRequest::Public(Request::Recent { limit: 80 }))
    ));
    assert!(matches!(
        ask_refresh(&c, Tab::Clipboard, " x"),
        Some(InternalRequest::Public(Request::Search { query, limit: 80 })) if query == " x"
    ));
    assert!(ask_refresh(&c, Tab::Emoji, "x").is_none());
}

#[test]
fn replies_fill_the_list() {
    let c = client();
    let clips = vec![clip(1, ClipKind::Text, false), clip(2, ClipKind::Url, false)];
    let r = clip_results(&c, Some(Response::Clips(clips)));
    assert!(matches!(&r[0], Result_::Clip(c) if c.id == 1));
    assert!(matches!(&r[1], Result_::Clip(c) if c.id == 2));
    assert_eq!(r.len(), 2);
    assert!(clip_results(&c, None).is_empty());
    assert!(clip_results(&c, Some(Response::Failed("no".into()))).is_empty());
    assert!(clip_results(&c, Some(Response::Done)).is_empty());
    let r = emoji_results("rocket");
    assert!(matches!(&r[0], Result_::Emoji(e) if e.glyph == "🚀"));
    assert_eq!(emoji_results("").len(), 80);
}

#[test]
fn empty_lists_say_so() {
    assert_eq!(
        empty_message(Tab::Clipboard),
        "Nothing copied yet — copy something to get started."
    );
    assert_eq!(empty_message(Tab::Emoji), "No emoji matches that.");
}

#[test]
fn captures_refresh_the_recent_clips() {
    assert!(maybe_refresh(Some(""), Tab::Clipboard));
    assert!(maybe_refresh(None, Tab::Clipboard));
    assert!(!maybe_refresh(Some("q"), Tab::Clipboard));
    assert!(!maybe_refresh(Some(""), Tab::Emoji));
}

#[test]
fn clips_are_pinned_and_deleted() {
    let (c, r) = (client(), results());
    assert!(matches!(
        toggle_pin(&c, &r, 0),
        Some(InternalRequest::Public(Request::SetPinned { id: 7, pinned: true }))
    ));
    assert!(matches!(
        toggle_pin(&c, &r, 1),
        Some(InternalRequest::Public(Request::SetPinned { id: 8, pinned: false }))
    ));
    assert!(matches!(
        delete_row(&c, &r, 1),
        Some(InternalRequest::Public(Request::Delete { id: 8 }))
    ));
    for idx in [-1, 2, 3, i32::MIN, i32::MAX] {
        assert!(toggle_pin(&c, &r, idx).is_none());
        assert!(delete_row(&c, &r, idx).is_none());
    }
    assert!(result_at(&r, 2).is_some());
    assert!(result_at(&r, 3).is_none());
}

#[test]
fn results_are_activated() {
    let (c, r) = (client(), results());
    let a = activate_row(&c, &r, 0).unwrap();
    assert_eq!((a.body.as_slice(), a.mime), ([1, 2, 3].as_slice(), None));
    assert!(matches!(a.request, Some(InternalRequest::Public(Request::Activate { id: 7 }))));
    let a = activate_row(&c, &r, 1).unwrap();
    assert_eq!(a.mime, Some("image/png"));
    let a = activate_row(&c, &r, 2).unwrap();
    assert_eq!((a.body.as_slice(), a.mime), ("🚀".as_bytes(), None));
    assert!(a.request.is_none());
    assert!(activate_row(&c, &r, -1).is_none());
    assert_eq!(copy_via_wl_copy(Some("image/png")), ["--type", "image/png"]);
    assert!(copy_via_wl_copy(None).is_empty());
}

#[test]
fn pasting_is_a_shell_command() {
    assert_eq!(
        spawn_paste(PasteMode::Normal),
        "sleep 0.150; command -v ydotool >/dev/null && ydotool key 29:1 47:1 47:0 29:0"
    );
    assert_eq!(
        spawn_paste(PasteMode::Super),
        "sleep 0.150; command -v ydotool >/dev/null && ydotool key 29:1 42:1 47:1 47:0 42:0 29:0"
    );
}

#[test]
fn menus_offer_what_can_be_done() {
    let r = results();
    let labels = |idx| -> Vec<&str> {
        show_context_menu(&r, idx).unwrap().iter().map(|i| i.label).collect()
    };
    assert_eq!(labels(0), ["Pin", "Paste", "Super paste", "Delete"]);
    assert_eq!(labels(1), ["Unpin", "Paste", "Super paste", "Delete"]);
    assert_eq!(labels(2), ["Paste", "Super paste"]);
    assert!(show_context_menu(&r, 3).is_none());
    assert!(show_context_menu(&r, -1).is_none());
    let menu = show_context_menu(&r, 0).unwrap();
    let shortcuts: Vec<_> = menu.iter().map(|i| i.shortcut).collect();
    assert_eq!(shortcuts, [None, Some("Enter"), Some("Ctrl+Shift+V"), Some("Ctrl+D")]);
    let actions: Vec<_> = menu.iter().map(|i| i.action).collect();
    assert_eq!(
        actions,
        [
            MenuAction::TogglePin,
            MenuAction::Paste { mode: PasteMode::Normal },
            MenuAction::Paste { mode: PasteMode::Super },
            MenuAction::Delete
        ]
    );
    let icons: Vec<_> = menu.iter().map(|i| i.icon).collect();
    assert_eq!(
        icons,
        [
            "view-pin-symbolic",
            "edit-paste-symbolic",
            "utilities-terminal-symbolic",
            "edit-delete-symbolic"
        ]
    );
    assert!(menu[3].destructive && !menu[0].destructive);
}

#[test]
fn menus_point_into_the_row() {
    let b = |width, height| Some(Bounds { x: 10, y: 20, width, height });
    assert_eq!(menu_anchor(15, 25, b(100, 30)), (5, 5));
    assert_eq!(menu_anchor(0, 0, b(100, 30)), (0, 0));
    assert_eq!(menu_anchor(500, 500, b(100, 30)), (99, 29));
    assert_eq!(menu_anchor(500, 500, b(0, -3)), (0, 0));
    assert_eq!(menu_anchor(15, 25, None), (0, 0));
}

#[test]
fn snapshots_try_text_and_then_images() {
    assert_eq!(snapshot_clipboard(), Next::Read { wanted: Wanted::Text });
    assert_eq!(after(Wanted::Text, Outcome::Sent { accepted: true }), Next::Captured);
    for outcome in [Outcome::Nothing, Outcome::Sent { accepted: false }] {
        assert_eq!(after(Wanted::Text, outcome), Next::Read { wanted: Wanted::Image });
        assert_eq!(after(Wanted::Image, outcome), Next::Stop);
    }
    assert_eq!(after(Wanted::Image, Outcome::Sent { accepted: true }), Next::Captured);
    assert_eq!(paste_args(Wanted::Text), ["--type", "text/plain", "--no-newline"]);
    assert_eq!(paste_args(Wanted::Image), ["--type", "image/png"]);
    assert_eq!((mime(Wanted::Text), mime(Wanted::Image)), ("text/plain", "image/png"));
    assert!(is_worth_sending(true, b"x"));
    assert!(!is_worth_sending(true, b""));
    assert!(!is_worth_sending(false, b"x"));
}

#[test]
fn commands_have_names() {
    assert!(matches!(command(None), Command::Daemon));
    assert!(matches!(command(Some("daemon")), Command::Daemon));
    assert!(matches!(command(Some("ingest")), Command::Ingest));
    for name in ["version", "--version", "-V"] {
        assert!(matches!(command(Some(name)), Command::Version));
    }
    for name in ["help", "--help", "-h"] {
        assert!(matches!(command(Some(name)), Command::Help));
    }
    for name in ["", "Daemon", "-v", "daemon "] {
        assert!(matches!(command(Some(name)), Command::Unknown(n) if n == name));
    }
}

fn args(list: &[&str]) -> Vec<String> {
    list.iter().map(|s| s.to_string()).collect()
}

#[test]
fn mime_types_are_found_among_the_arguments() {
    let mime = |list: &[&str]| parse_mime(&args(list));
    assert_eq!(mime(&["--mime", "text/plain"]).unwrap(), "text/plain");
    assert_eq!(mime(&["-x", "--mime=image/png", "--mime", "b"]).unwrap(), "image/png");
    assert_eq!(mime(&["--mime="]).unwrap(), "");
    assert_eq!(mime(&["--mime", "--mime=x"]).unwrap(), "--mime=x");
    assert_eq!(mime(&["--mime"]), None);
    assert_eq!(mime(&["--mimes", "x"]), None);
    assert_eq!(mime(&[]), None);
}

#[test]
fn one_line_feed_is_dropped_from_text() {
    let sent = |mime: &str, body: &[u8]| match ingest_request(mime.into(), body.to_vec()) {
        Some(InternalRequest::Ingest { mime: m, body }) => {
            assert_eq!(m, mime);
            Some(body)
        }
        _ => None,
    };
    assert_eq!(sent("text/plain", b"a\n").unwrap(), b"a");
    assert_eq!(sent("text/plain", b"a\n\n").unwrap(), b"a\n");
    assert_eq!(sent("image/png", b"a\n").unwrap(), b"a\n");
    assert_eq!(sent("text/plain", b"a").unwrap(), b"a");
    assert_eq!(sent("text/plain", b"\n"), None);
    assert_eq!(sent("image/png", b"\n").unwrap(), b"\n");
    assert_eq!(sent("image/png", b""), None);
}

#[test]
fn the_ingest_command_needs_a_mime_type() {
    assert!(matches!(run(&args(&[]), b"x".to_vec()), Err(IngestError::MissingMime)));
    assert!(matches!(run(&args(&["--mime", "text/plain"]), b"\n".to_vec()), Ok(None)));
    assert!(matches!(
        run(&args(&["--mime=text/plain"]), b"x\n".to_vec()),
        Ok(Some(InternalRequest::Ingest { mime, body })) if mime == "text/plain" && body == b"x"
    ));
}

#[test]
fn the_watcher_says_that_it_does_not_watch() {
    let notice = Watcher::spawn().notice();
    assert!(notice.starts_with("clipboard capture: passive mode (picker triggers ingestion"));
    assert!(notice.ends_with("background polling is intentionally disabled."));
}
