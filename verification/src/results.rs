//! The result list of the palette: how it is filled, and what is done with its entries.

use crate::classify;
use crate::client;
use crate::client::Client;
use crate::emoji;
use crate::emoji::{EmojiEntry, EmojiView};
use crate::history;
use crate::history::{History, Hit, RowView};
use crate::history_laws;
use crate::ipc;
use crate::ipc_laws;
use crate::picker::{PasteMode, Tab, AUTO_PASTE_DELAY_MS, MAX_RESULTS};
use crate::proto;
use crate::proto::{
    Clip, ClipKind, ClipView, InternalRequest, RequestView, Response, ResponseView,
};
use crate::store::copy_bytes;
use crate::text;
use vstd::prelude::*;
use vstd::string::StringExecFns;

verus! {

/// An entry of the result list.
#[derive(Debug)]
pub enum Result_ {
    Clip(Clip),
    Emoji(EmojiEntry),
}

/// What a [`Result_`] holds.
#[verifier::ext_equal]
pub enum ResultView {
    Clip(ClipView),
    Emoji(EmojiView),
}

impl View for Result_ {
    type V = ResultView;

    open spec fn view(&self) -> ResultView {
        match self {
            Result_::Clip(c) => ResultView::Clip(c@),
            Result_::Emoji(e) => ResultView::Emoji(e@),
        }
    }
}

/// What the results of `v` hold.
pub open spec fn result_views(v: Seq<Result_>) -> Seq<ResultView> {
    Seq::new(v.len(), |i: int| v[i]@)
}

/// The result at `idx`, where there is one.
pub open spec fn at(results: Seq<ResultView>, idx: i32) -> Option<ResultView> {
    if 0 <= idx < results.len() {
        Some(results[idx as int])
    } else {
        None
    }
}

/// The result at `idx`, where there is one.
pub fn result_at(results: &[Result_], idx: i32) -> (r: Option<&Result_>)
    ensures
        match r {
            Some(r) => at(result_views(results@), idx) == Some(r@),
            None => at(result_views(results@), idx) is None,
        },
{
    if idx < 0 || idx as u64 >= results.len() as u64 {
        return None;
    }
    assert(result_views(results@)[idx as int] == results@[idx as int]@);
    Some(&results[idx as usize])
}

/// What the daemon is asked to fill the list, where it is asked: for the recent clips, or
/// for those that match the query.
pub open spec fn refresh_request(tab: Tab, query: Seq<char>) -> Option<RequestView> {
    if tab != Tab::Clipboard {
        None
    } else if query.len() == 0 {
        Some(RequestView::Recent { limit: MAX_RESULTS })
    } else {
        Some(RequestView::Search { query, limit: MAX_RESULTS })
    }
}

/// What the daemon is asked to fill the list; `None` where the list shows emojis.
pub fn ask_refresh(client: &Client, tab: Tab, query: &str) -> (req: Option<InternalRequest>)
    ensures
        match req {
            Some(r) => refresh_request(tab, query@) == Some(r@),
            None => refresh_request(tab, query@) is None,
        },
{
    if tab != Tab::Clipboard {
        None
    } else if text::chars_of(query).len() == 0 {
        Some(client.ask_recent(MAX_RESULTS))
    } else {
        Some(client.ask_search(query, MAX_RESULTS))
    }
}

/// The clips that fill the list: those of the reply, and none where there is no reply or
/// where it is a refusal.
pub open spec fn clips_shown(reply: Option<ResponseView>) -> Seq<ResultView> {
    match reply {
        Some(r) => match client::clips_in(r) {
            Ok(clips) => clips.map_values(|c: ClipView| ResultView::Clip(c)),
            Err(_) => Seq::empty(),
        },
        None => Seq::empty(),
    }
}

pub open spec fn reply_view(reply: Option<Response>) -> Option<ResponseView> {
    match reply {
        Some(r) => Some(r@),
        None => None,
    }
}

/// The entries of the list after the daemon was asked to fill it; `reply` is `None` where
/// it could not be reached.
pub fn clip_results(client: &Client, reply: Option<Response>) -> (results: Vec<Result_>)
    ensures
        result_views(results@) == clips_shown(reply_view(reply)),
{
    let mut results: Vec<Result_> = Vec::new();
    let reply = match reply {
        Some(r) => r,
        None => {
            assert(result_views(results@) =~= Seq::<ResultView>::empty());
            return results;
        },
    };
    match client.recent(reply) {
        Ok(clips) => {
            let ghost all = proto::clip_views(clips@);
            let ghost wanted = all.map_values(|c: ClipView| ResultView::Clip(c));
            for c in it: clips
                invariant
                    all == proto::clip_views(it.seq()),
                    results@.len() == it.index(),
                    forall|j: int|
                        0 <= j < it.index() ==> (#[trigger] results@[j])@ == ResultView::Clip(
                            all[j],
                        ),
            {
                results.push(Result_::Clip(c));
            }
            assert(result_views(results@) =~= wanted);
        },
        Err(_) => {
            assert(result_views(results@) =~= Seq::<ResultView>::empty());
        },
    }
    results
}

/// The entries of the list where it shows emojis.
pub fn emoji_results(query: &str) -> (results: Vec<Result_>)
    ensures
        exists|all: Seq<EmojiView>| #[trigger]
            emoji::is_catalog(all) && result_views(results@) == emoji::found(
                all,
                query@,
                MAX_RESULTS as int,
            ).map_values(|e: EmojiView| ResultView::Emoji(e)),
{
    let found = emoji::search(query, MAX_RESULTS as usize);
    let ghost all = emoji::entry_views(found@);
    let mut results: Vec<Result_> = Vec::new();
    for e in it: found
        invariant
            all == emoji::entry_views(it.seq()),
            results@.len() == it.index(),
            forall|j: int|
                0 <= j < it.index() ==> (#[trigger] results@[j])@ == ResultView::Emoji(all[j]),
    {
        results.push(Result_::Emoji(e));
    }
    assert(result_views(results@) =~= all.map_values(|e: EmojiView| ResultView::Emoji(e)));
    results
}

/// What an empty list says.
pub fn empty_message(tab: Tab) -> (m: &'static str)
    ensures
        m@ == match tab {
            Tab::Clipboard => "Nothing copied yet — copy something to get started."@,
            Tab::Emoji => "No emoji matches that."@,
        },
{
    match tab {
        Tab::Clipboard => "Nothing copied yet — copy something to get started.",
        Tab::Emoji => "No emoji matches that.",
    }
}

/// Whether the list is filled again after clipboard content was captured: only where it
/// shows the recent clips. `query` is `None` where the search entry is gone.
pub fn maybe_refresh(query: Option<&str>, tab: Tab) -> (b: bool)
    ensures
        b == ((query matches Some(q) ==> q@.len() == 0) && tab == Tab::Clipboard),
{
    let empty = match query {
        Some(q) => text::chars_of(q).len() == 0,
        None => true,
    };
    empty && tab == Tab::Clipboard
}

/// What is asked to pin or unpin the result at `idx`.
pub open spec fn pin_request(results: Seq<ResultView>, idx: i32) -> Option<RequestView> {
    match at(results, idx) {
        Some(ResultView::Clip(c)) => Some(RequestView::SetPinned { id: c.id, pinned: !c.pinned }),
        _ => None,
    }
}

/// What is asked to pin the clip at `idx`, or to unpin it; nothing for an emoji.
pub fn toggle_pin(client: &Client, results: &[Result_], idx: i32) -> (req: Option<InternalRequest>)
    ensures
        match req {
            Some(r) => pin_request(result_views(results@), idx) == Some(r@),
            None => pin_request(result_views(results@), idx) is None,
        },
{
    match result_at(results, idx) {
        Some(Result_::Clip(c)) => Some(client.ask_set_pinned(c.id, !c.pinned)),
        _ => None,
    }
}

/// What is asked to delete the result at `idx`.
pub open spec fn delete_request(results: Seq<ResultView>, idx: i32) -> Option<RequestView> {
    match at(results, idx) {
        Some(ResultView::Clip(c)) => Some(RequestView::Delete { id: c.id }),
        _ => None,
    }
}

/// What is asked to delete the clip at `idx`; nothing for an emoji.
pub fn delete_row(client: &Client, results: &[Result_], idx: i32) -> (req: Option<InternalRequest>)
    ensures
        match req {
            Some(r) => delete_request(result_views(results@), idx) == Some(r@),
            None => delete_request(result_views(results@), idx) is None,
        },
{
    match result_at(results, idx) {
        Some(Result_::Clip(c)) => Some(client.ask_delete(c.id)),
        _ => None,
    }
}

/// What choosing a result does: bytes that go on the system clipboard, their MIME type
/// where they are not text, and what the daemon is asked.
#[derive(Debug)]
pub struct Activation {
    pub body: Vec<u8>,
    pub mime: Option<&'static str>,
    pub request: Option<InternalRequest>,
}

/// What an [`Activation`] holds.
#[verifier::ext_equal]
pub struct ActivationView {
    pub body: Seq<u8>,
    pub mime: Option<Seq<char>>,
    pub request: Option<RequestView>,
}

impl View for Activation {
    type V = ActivationView;

    open spec fn view(&self) -> ActivationView {
        ActivationView {
            body: self.body@,
            mime: match self.mime {
                Some(m) => Some(m@),
                None => None,
            },
            request: match self.request {
                Some(r) => Some(r@),
                None => None,
            },
        }
    }
}

/// What choosing the result at `idx` does: a clip goes on the clipboard and counts as
/// used, an emoji goes on the clipboard.
pub open spec fn activation(results: Seq<ResultView>, idx: i32) -> Option<ActivationView> {
    match at(results, idx) {
        Some(ResultView::Clip(c)) => Some(
            ActivationView {
                body: c.body,
                mime: if c.kind == ClipKind::Image {
                    Some("image/png"@)
                } else {
                    None
                },
                request: Some(RequestView::Activate { id: c.id }),
            },
        ),
        Some(ResultView::Emoji(e)) => Some(
            ActivationView {
                body: vstd::utf8::encode_utf8(e.glyph),
                mime: None,
                request: None,
            },
        ),
        None => None,
    }
}

/// What choosing the result at `idx` does.
pub fn activate_row(client: &Client, results: &[Result_], idx: i32) -> (a: Option<Activation>)
    ensures
        match a {
            Some(a) => activation(result_views(results@), idx) == Some(a@),
            None => activation(result_views(results@), idx) is None,
        },
{
    match result_at(results, idx) {
        Some(Result_::Clip(c)) => {
            let mime = if c.kind == ClipKind::Image {
                Some("image/png")
            } else {
                None
            };
            Some(
                Activation {
                    body: copy_bytes(c.body.as_slice()),
                    mime,
                    request: Some(client.ask_activate(c.id)),
                },
            )
        },
        Some(Result_::Emoji(e)) => Some(
            Activation {
                body: copy_bytes(e.glyph.as_str().as_bytes()),
                mime: None,
                request: None,
            },
        ),
        None => None,
    }
}

/// The arguments with which `wl-copy` is run.
pub fn copy_via_wl_copy(mime: Option<&'static str>) -> (args: Vec<&'static str>)
    ensures
        match mime {
            Some(m) => args@.len() == 2 && args@[0]@ == "--type"@ && args@[1]@ == m@,
            None => args@.len() == 0,
        },
{
    let mut args: Vec<&'static str> = Vec::new();
    if let Some(m) = mime {
        args.push("--type");
        args.push(m);
    }
    args
}

/// `ms` milliseconds in seconds, with three decimals.
pub open spec fn seconds_text(ms: nat) -> Seq<char> {
    text::decimal(ms / 1000) + seq![
        '.',
        text::digit((ms / 100 % 10) as int),
        text::digit((ms / 10 % 10) as int),
        text::digit((ms % 10) as int),
    ]
}

/// The keys of the paste keystroke, by their Linux key codes: Ctrl is 29, Shift 42, V 47.
pub open spec fn keystroke(mode: PasteMode) -> Seq<char> {
    match mode {
        PasteMode::Normal => "29:1 47:1 47:0 29:0"@,
        PasteMode::Super => "29:1 42:1 47:1 47:0 42:0 29:0"@,
    }
}

/// Appends `ms` milliseconds in seconds, with three decimals.
fn push_seconds(out: &mut String, ms: u64)
    ensures
        final(out)@ == old(out)@ + seconds_text(ms as nat),
{
    text::push_decimal(out, (ms / 1000) as u128);
    out.push('.');
    let (a, b, c): (u8, u8, u8) = (
        (ms / 100 % 10) as u8,
        (ms / 10 % 10) as u8,
        (ms % 10) as u8,
    );
    out.push((48 + a) as char);
    out.push((48 + b) as char);
    out.push((48 + c) as char);
    assert(out@ =~= old(out)@ + seconds_text(ms as nat));
}

/// The shell command that sends the paste keystroke once the palette is closed, if the
/// tool for it is there.
pub fn spawn_paste(mode: PasteMode) -> (command: String)
    ensures
        command@ == "sleep "@ + seconds_text(AUTO_PASTE_DELAY_MS as nat)
            + "; command -v ydotool >/dev/null && ydotool key "@ + keystroke(mode),
{
    let mut command = "sleep ".to_owned();
    push_seconds(&mut command, AUTO_PASTE_DELAY_MS);
    command.append("; command -v ydotool >/dev/null && ydotool key ");
    command.append(
        match mode {
            PasteMode::Normal => "29:1 47:1 47:0 29:0",
            PasteMode::Super => "29:1 42:1 47:1 47:0 42:0 29:0",
        },
    );
    command
}

/// The list shows what the history holds: the recent clips, or those that the index found
/// for the query.
pub proof fn the_list_shows_the_history(h: History, query: Seq<char>, hits: Seq<Hit>, now: i64)
    ensures
        ({
            let req = refresh_request(Tab::Clipboard, query)->0;
            let reply = ipc::answered(h, req, Ok(hits), now).1;
            let clips = if query.len() == 0 {
                h.recent(MAX_RESULTS)
            } else {
                h.search(hits, MAX_RESULTS)
            };
            clips_shown(Some(reply)) == clips.map_values(|c: ClipView| ResultView::Clip(c))
        }),
{
}

/// A request to pin a listed clip turns its pin, and changes nothing else of the clip.
pub proof fn pins_are_turned(
    h: History,
    row: RowView,
    found: Result<Seq<Hit>, Seq<char>>,
    now: i64,
)
    requires
        history_laws::sound(h),
        h.rows.len() <= u32::MAX,
        h.rows.contains(row),
    ensures
        ({
            let clip = row.clip();
            let req = pin_request(seq![ResultView::Clip(clip)], 0)->0;
            let after = ipc::answered(h, req, found, now).0;
            after.clip(clip.id) == Some(ClipView { pinned: !clip.pinned, ..clip })
        }),
{
    let clip = row.clip();
    let turned = row.with_pin(!clip.pinned);
    let after = h.set_pinned(row.id, !clip.pinned);
    let k = choose|k: int| 0 <= k < h.rows.len() && h.rows[k] == row;
    assert(h.rows[k].id == row.id);
    assert(h.holds(row.id));
    assert(after.rows[k] == turned);
    assert(after.rows.contains(turned));
    history_laws::operations_keep_the_history_sound(
        h,
        ClipKind::Text,
        Seq::empty(),
        Seq::empty(),
        Seq::empty(),
        row.id,
        !clip.pinned,
        now,
    );
    history_laws::listed_clips_are_found(after, turned);
}

/// A clip that is deleted from the list is gone from the history.
pub proof fn deleted_results_are_gone(
    h: History,
    c: ClipView,
    found: Result<Seq<Hit>, Seq<char>>,
    now: i64,
)
    requires
        h.well_formed(),
    ensures
        ({
            let req = delete_request(seq![ResultView::Clip(c)], 0)->0;
            let after = ipc::answered(h, req, found, now).0;
            after.clip(c.id) is None && !after.holds(c.id)
        }),
{
    history_laws::deleting_removes_one_clip(h, c.id);
}

/// Choosing a clip puts every byte of it on the clipboard, an image as such, and counts as a use
/// of that clip. Choosing an emoji puts the emoji there.
pub proof fn chosen_results_are_pasted_whole(results: Seq<ResultView>, idx: i32)
    requires
        0 <= idx < results.len(),
    ensures
        ({
            let a = activation(results, idx)->0;
            &&& activation(results, idx) is Some
            &&& results[idx as int] matches ResultView::Clip(c) ==> a.body == c.body && a.request
                == Some(RequestView::Activate { id: c.id }) && a.mime == if c.kind
                == ClipKind::Image {
                Some("image/png"@)
            } else {
                None
            }
            &&& results[idx as int] matches ResultView::Emoji(e) ==> a.body
                == vstd::utf8::encode_utf8(e.glyph) && a.mime is None && a.request is None
        }),
{
}

/// What was captured is what is pasted: content that is captured stands in the list, and
/// choosing it there puts the bytes on the clipboard that were captured.
pub proof fn what_is_captured_is_pasted(
    h: History,
    mime: Seq<char>,
    body: Seq<u8>,
    found: Result<Seq<Hit>, Seq<char>>,
    now: i64,
) -> (idx: i32)
    requires
        history_laws::sound(h),
        classify::kind_of(mime, body) == ClipKind::Image || classify::preview(
            classify::kind_of(mime, body),
            mime,
            body,
            ipc::PREVIEW_CHARS as int,
        ).len() > 0,
        body.len() <= history::size_limit(classify::kind_of(mime, body)),
        ipc_laws::merges_cleanly(h, classify::kind_of(mime, body), body),
        h.last_id < i64::MAX,
        h.rows.len() < i32::MAX,
        h.rows.filter(|r: RowView| r.pinned == 0 && r.last_used_at >= now).len()
            < history::MAX_HISTORY_ROWS,
    ensures
        ({
            let after = ipc::answered(h, RequestView::Ingest { mime, body }, found, now).0;
            let reply = ipc::answered(after, RequestView::Recent { limit: u32::MAX }, found, now).1;
            let shown = clips_shown(Some(reply));
            activation(shown, idx) matches Some(a) && a.body == body && (a.mime is Some
                <==> "image/"@.is_prefix_of(mime))
        }),
{
    let kind = classify::kind_of(mime, body);
    let preview = classify::preview(kind, mime, body, ipc::PREVIEW_CHARS as int);
    let at = ipc_laws::captured_content_is_listed(h, mime, body, found, now);
    classify::images_are_told_by_mime(mime, body);
    let after = ipc::answered(h, RequestView::Ingest { mime, body }, found, now).0;
    history_laws::operations_keep_the_history_sound(
        h,
        kind,
        mime,
        body,
        preview,
        0,
        false,
        now,
    );
    history_laws::captures_add_at_most_one_row(h, kind, mime, body, preview, now);
    history_laws::recent_clips_are_in_order(after, u32::MAX);
    at as i32
}

/// The list is filled with the eighty most recent clips, or with as many that match what
/// is searched for, in the very words that were typed. For emojis the daemon is not asked.
pub proof fn the_daemon_is_asked_what_was_typed(query: Seq<char>)
    ensures
        refresh_request(Tab::Clipboard, Seq::empty()) == Some(RequestView::Recent { limit: 80 }),
        query.len() > 0 ==> refresh_request(Tab::Clipboard, query) == Some(
            RequestView::Search { query, limit: 80 },
        ),
        refresh_request(Tab::Emoji, query) is None,
{
}

/// What is asked of a row concerns the clip in it. Of an emoji, and where there is no row,
/// nothing is asked.
pub proof fn requests_name_the_clip_in_the_row(results: Seq<ResultView>, idx: i32)
    ensures
        0 <= idx < results.len() ==> (results[idx as int] matches ResultView::Clip(c)
            ==> pin_request(results, idx) == Some(
            RequestView::SetPinned { id: c.id, pinned: !c.pinned },
        ) && delete_request(results, idx) == Some(RequestView::Delete { id: c.id })),
        0 <= idx < results.len() ==> results[idx as int] is Emoji ==> pin_request(results, idx)
            is None && delete_request(results, idx) is None,
        !(0 <= idx < results.len()) ==> pin_request(results, idx) is None && delete_request(
            results,
            idx,
        ) is None && activation(results, idx) is None,
{
}

/// Where the daemon sends clips the list shows each of them, in its order, and where it does
/// not the list is empty.
pub proof fn the_list_shows_the_reply(reply: ResponseView, clips: Seq<ClipView>, i: int)
    ensures
        reply == ResponseView::Clips(clips) ==> clips_shown(Some(reply)).len() == clips.len(),
        reply == ResponseView::Clips(clips) ==> 0 <= i < clips.len() ==> clips_shown(Some(reply))[i]
            == ResultView::Clip(clips[i]),
        !(reply is Clips) ==> clips_shown(Some(reply)).len() == 0,
        clips_shown(None).len() == 0,
{
}

proof fn one_digit_more(digits: Seq<char>, d: nat)
    requires
        d < 10,
    ensures
        text::value(digits.push(text::digit(d as int))) == text::value(digits) * 10 + d,
        '0' <= text::digit(d as int) <= '9',
{
    assert(digits.push(text::digit(d as int)).drop_last() =~= digits);
}

/// The seconds that are shown are the milliseconds, with a point before the last three digits.
pub proof fn seconds_show_every_millisecond(ms: nat)
    ensures
        ({
            let s = seconds_text(ms);
            let n = s.len();
            &&& n >= 5 && s[n - 4] == '.'
            &&& text::number(s.take(n - 4) + s.skip(n - 3)) == Some(ms)
        }),
{
    let s = seconds_text(ms);
    let n = s.len();
    let whole = text::decimal(ms / 1000);
    text::decimals_are_read_back(ms / 1000);
    let a = text::digit((ms / 100 % 10) as int);
    let b = text::digit((ms / 10 % 10) as int);
    let c = text::digit((ms % 10) as int);
    let one = whole.push(a);
    let two = one.push(b);
    let all = two.push(c);
    assert(s.take(n - 4) + s.skip(n - 3) =~= all);
    one_digit_more(whole, ms / 100 % 10);
    one_digit_more(one, ms / 10 % 10);
    one_digit_more(two, ms % 10);
    assert(ms / 100 == ms / 1000 * 10 + ms / 100 % 10);
    assert(ms / 10 == ms / 100 * 10 + ms / 10 % 10);
    assert(text::value(one) == ms / 100 && text::value(two) == ms / 10);
    assert(text::numeral(all)) by {
        assert forall|i: int| 0 <= i < all.len() implies '0' <= #[trigger] all[i] && all[i]
            <= '9' by {
            if i < whole.len() {
                assert(all[i] == whole[i]);
            }
        }
    }
    assert(all[0] == whole[0]);
    assert('0' <= whole[0] && whole[0] <= '9');
}

/// The keystroke presses Ctrl and V, and for terminals Shift between them, and releases them in
/// the opposite order.
pub proof fn keys_are_released_again()
    ensures
        text::words(keystroke(PasteMode::Normal)) == seq!["29:1"@, "47:1"@, "47:0"@, "29:0"@],
        text::words(keystroke(PasteMode::Super)) == seq![
            "29:1"@,
            "42:1"@,
            "47:1"@,
            "47:0"@,
            "42:0"@,
            "29:0"@,
        ],
{
    let (a, b, c, d, e, f) = ("29:1"@, "42:1"@, "47:1"@, "47:0"@, "42:0"@, "29:0"@);
    reveal_strlit("29:1");
    reveal_strlit("42:1");
    reveal_strlit("47:1");
    reveal_strlit("47:0");
    reveal_strlit("42:0");
    reveal_strlit("29:0");
    reveal_strlit("29:1 47:1 47:0 29:0");
    reveal_strlit("29:1 42:1 47:1 47:0 42:0 29:0");
    text::words_are_parted_by_whitespace(f, ' ', Seq::empty());
    let fs = f;
    let ef = e.push(' ') + fs;
    let df = d.push(' ') + fs;
    let def = d.push(' ') + ef;
    let cdf = c.push(' ') + df;
    let cdef = c.push(' ') + def;
    let bcdef = b.push(' ') + cdef;
    text::words_are_parted_by_whitespace(e, ' ', fs);
    text::words_are_parted_by_whitespace(d, ' ', fs);
    text::words_are_parted_by_whitespace(d, ' ', ef);
    text::words_are_parted_by_whitespace(c, ' ', df);
    text::words_are_parted_by_whitespace(c, ' ', def);
    text::words_are_parted_by_whitespace(b, ' ', cdef);
    text::words_are_parted_by_whitespace(a, ' ', cdf);
    text::words_are_parted_by_whitespace(a, ' ', bcdef);
    assert(keystroke(PasteMode::Normal) =~= a.push(' ') + cdf);
    assert(keystroke(PasteMode::Super) =~= a.push(' ') + bcdef);
    assert(text::words(keystroke(PasteMode::Normal)) =~= seq![a, c, d, f]);
    assert(text::words(keystroke(PasteMode::Super)) =~= seq![a, b, c, d, e, f]);
}

} // verus!
