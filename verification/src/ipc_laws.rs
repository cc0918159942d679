//! What holds of the daemon's answers.

use crate::classify;
use crate::history;
use crate::history::{History, Hit, RowView};
use crate::history_laws;
use crate::ipc;
use crate::query;
use crate::text;
use crate::proto::{ClipKind, RequestView, ResponseView};
use vstd::prelude::*;

verus! {

/// A request that only asks leaves the history as it is.
pub proof fn asking_changes_nothing(
    h: History,
    req: RequestView,
    found: Result<Seq<Hit>, Seq<char>>,
    now: i64,
)
    requires
        req is Ping || req is Recent || req is Search,
    ensures
        ipc::answered(h, req, found, now).0 == h,
{
}

/// Whatever is asked, the history stays sound, and the steps noted lead from the table
/// before the request to the table after it.
pub proof fn answers_keep_the_history_sound(
    h: History,
    req: RequestView,
    found: Result<Seq<Hit>, Seq<char>>,
    now: i64,
)
    requires
        history_laws::sound(h),
    ensures
        history_laws::sound(ipc::answered(h, req, found, now).0),
        history_laws::notes_its_steps(h, ipc::answered(h, req, found, now).0),
        h.last_id <= ipc::answered(h, req, found, now).0.last_id,
{
    let (kind, mime, body, preview, id, pinned) = match req {
        RequestView::Ingest { mime, body } => {
            let kind = classify::kind_of(mime, body);
            let preview = classify::preview(kind, mime, body, ipc::PREVIEW_CHARS as int);
            (kind, mime, body, preview, 0i64, false)
        },
        RequestView::Activate { id } => (
            ClipKind::Text,
            Seq::empty(),
            Seq::empty(),
            Seq::empty(),
            id,
            false,
        ),
        RequestView::Delete { id } => (
            ClipKind::Text,
            Seq::empty(),
            Seq::empty(),
            Seq::empty(),
            id,
            false,
        ),
        RequestView::SetPinned { id, pinned } => (
            ClipKind::Text,
            Seq::empty(),
            Seq::empty(),
            Seq::empty(),
            id,
            pinned,
        ),
        _ => (ClipKind::Text, Seq::empty(), Seq::empty(), Seq::empty(), 0i64, false),
    };
    history_laws::operations_keep_the_history_sound(h, kind, mime, body, preview, id, pinned, now);
    history_laws::operations_note_their_steps(h, kind, mime, body, preview, id, pinned, now);
    history_laws::ids_are_never_reused(h, kind, mime, body, preview, id, pinned, now);
    history_laws::no_step_is_noted(h);
}

/// Text of which nothing can be seen is never captured.
pub proof fn blank_text_is_skipped(h: History, mime: Seq<char>, body: Seq<u8>, now: i64)
    requires
        !"image/"@.is_prefix_of(mime),
        forall|i: int|
            0 <= i < classify::lossy_text(body).len() ==> classify::blank(
                #[trigger] classify::lossy_text(body)[i],
            ),
    ensures
        ipc::ingested(h, mime, body, now) == (h, ResponseView::Done),
{
    classify::previews_are_short_lines(classify::lossy_text(body), ipc::PREVIEW_CHARS as int);
}

/// A clip that is not there is not used: the request is refused, by a message that names
/// the clip, and nothing changes. So it is with a clip that was deleted.
pub proof fn unknown_clips_are_refused(
    h: History,
    id: i64,
    found: Result<Seq<Hit>, Seq<char>>,
    now: i64,
)
    requires
        h.well_formed(),
    ensures
        !h.holds(id) ==> ipc::answered(h, RequestView::Activate { id }, found, now) == (
            h,
            ResponseView::Failed(ipc::not_found(id)),
        ),
        ({
            let deleted = ipc::answered(h, RequestView::Delete { id }, found, now).0;
            ipc::answered(deleted, RequestView::Activate { id }, found, now) == (
                deleted,
                ResponseView::Failed(ipc::not_found(id)),
            )
        }),
{
    history_laws::deleting_removes_one_clip(h, id);
    if !h.holds(id) {
        history_laws::unknown_clips_are_not_listed(h, id);
    }
}

/// A search that the index could not carry out is answered with its message.
pub proof fn failed_searches_are_reported(
    h: History,
    query: Seq<char>,
    limit: u32,
    message: Seq<char>,
    now: i64,
)
    ensures
        ipc::answered(h, RequestView::Search { query, limit }, Err(message), now) == (
            h,
            ResponseView::Failed(message),
        ),
{
}

/// The rows that a capture may be merged into hold the same content, and can count one
/// use more.
pub open spec fn merges_cleanly(h: History, kind: ClipKind, body: Seq<u8>) -> bool {
    forall|i: int|
        0 <= i < h.rows.len() && (#[trigger] h.rows[i]).kind == kind.number() && h.rows[i].hash
            == history::body_hash(body) ==> h.rows[i].body == body && h.rows[i].use_count
            < i64::MAX
}

/// Content that was captured is listed, with its kind and the time of the capture, as
/// long as there is something to see in it, it is not too big, no other content has its
/// hash, ids and counts are not used up, and it is not itself among the clips that are
/// too many.
pub proof fn captured_content_is_listed(
    h: History,
    mime: Seq<char>,
    body: Seq<u8>,
    found: Result<Seq<Hit>, Seq<char>>,
    now: i64,
) -> (at: int)
    requires
        history_laws::sound(h),
        classify::kind_of(mime, body) == ClipKind::Image || classify::preview(
            classify::kind_of(mime, body),
            mime,
            body,
            ipc::PREVIEW_CHARS as int,
        ).len() > 0,
        body.len() <= history::size_limit(classify::kind_of(mime, body)),
        merges_cleanly(h, classify::kind_of(mime, body), body),
        h.last_id < i64::MAX,
        h.rows.len() < u32::MAX,
        h.rows.filter(|r: RowView| r.pinned == 0 && r.last_used_at >= now).len()
            < history::MAX_HISTORY_ROWS,
    ensures
        ({
            let (after, reply) = ipc::answered(h, RequestView::Ingest { mime, body }, found, now);
            let list = ipc::answered(after, RequestView::Recent { limit: u32::MAX }, found, now).1;
            &&& reply == ResponseView::Done
            &&& list matches ResponseView::Clips(clips) && 0 <= at < clips.len()
                && clips[at].body == body && clips[at].kind == classify::kind_of(mime, body)
                && clips[at].last_used_at == now
        }),
{
    let kind = classify::kind_of(mime, body);
    let preview = classify::preview(kind, mime, body, ipc::PREVIEW_CHARS as int);
    let after = h.insert(kind, mime, body, preview, now).0;
    let hash = history::body_hash(body);
    let clips = after.recent(u32::MAX);
    match history::twin(h.rows, kind.number(), hash) {
        Some(t) => {
            assert(history::is_twin(h.rows, kind.number(), hash, t));
            let row = h.rows[t];
            assert(h.rows.contains(row));
            history_laws::same_content_is_merged(h, kind, mime, body, preview, now, row);
            assert(after.rows[t] == row.used(now));
            assert(after.rows.contains(row.used(now)));
            history_laws::operations_keep_the_history_sound(
                h,
                kind,
                mime,
                body,
                preview,
                0,
                false,
                now,
            );
            history_laws::listed_clips_are_found(after, row.used(now));
            crate::proto::kind_survives_its_number(kind);
            choose|i: int| 0 <= i < clips.len() && (#[trigger] clips[i]).id == row.id
        },
        None => {
            history_laws::captured_content_is_read_back(h, kind, mime, body, preview, now);
            let id = h.insert(kind, mime, body, preview, now).1->Ok_0;
            choose|i: int| 0 <= i < clips.len() && (#[trigger] clips[i]).id == id
        },
    }
}

/// Rows that a capture leaves under the time of the capture are the one that holds what was
/// captured; the others were there before and are as they were.
proof fn only_the_captured_row_is_new(
    h: History,
    kind: ClipKind,
    mime: Seq<char>,
    body: Seq<u8>,
    preview: Seq<char>,
    now: i64,
    row: RowView,
)
    requires
        history_laws::sound(h),
        h.insert(kind, mime, body, preview, now).1 is Ok,
        h.insert(kind, mime, body, preview, now).0.rows.contains(row),
        forall|i: int| 0 <= i < h.rows.len() ==> (#[trigger] h.rows[i]).last_used_at < now,
    ensures
        row.last_used_at < now || row.id == h.insert(kind, mime, body, preview, now).1->Ok_0,
{
    let (after, r) = h.insert(kind, mime, body, preview, now);
    if body.len() <= history::size_limit(kind) {
        match history::twin(h.rows, kind.number(), history::body_hash(body)) {
            Some(t) => {
                assert(history::is_twin(h.rows, kind.number(), history::body_hash(body), t));
                let k = choose|k: int| 0 <= k < after.rows.len() && after.rows[k] == row;
                assert(after.rows.len() == h.rows.len());
                assert(h.rows[k].last_used_at < now);
            },
            None => {
                let added = h.captured(kind, mime, body, preview, now);
                let gone = history::is_surplus(added.rows);
                added.rows.lemma_filter_contains_rev(history::none_of(gone), row);
                let k = choose|k: int| 0 <= k < added.rows.len() && added.rows[k] == row;
                if k < h.rows.len() {
                    assert(h.rows[k].last_used_at < now);
                }
            },
        }
    } else {
        let k = choose|k: int| 0 <= k < h.rows.len() && h.rows[k] == row;
        assert(h.rows[k].last_used_at < now);
    }
}

/// What was captured last comes first: where every clip was last used before the capture, only
/// pinned clips are listed before what was captured. Where the content was not there yet, the
/// clip was created at the time of the capture.
pub proof fn the_newest_capture_comes_first(
    h: History,
    mime: Seq<char>,
    body: Seq<u8>,
    found: Result<Seq<Hit>, Seq<char>>,
    now: i64,
) -> (at: int)
    requires
        history_laws::sound(h),
        classify::kind_of(mime, body) == ClipKind::Image || classify::preview(
            classify::kind_of(mime, body),
            mime,
            body,
            ipc::PREVIEW_CHARS as int,
        ).len() > 0,
        body.len() <= history::size_limit(classify::kind_of(mime, body)),
        merges_cleanly(h, classify::kind_of(mime, body), body),
        h.last_id < i64::MAX,
        h.rows.len() < u32::MAX,
        forall|i: int| 0 <= i < h.rows.len() ==> (#[trigger] h.rows[i]).last_used_at < now,
    ensures
        ({
            let after = ipc::answered(h, RequestView::Ingest { mime, body }, found, now).0;
            let list = ipc::answered(after, RequestView::Recent { limit: u32::MAX }, found, now).1;
            &&& list matches ResponseView::Clips(clips) && 0 <= at < clips.len()
                && clips[at].body == body && clips[at].last_used_at == now && (forall|i: int|
                0 <= i < at ==> (#[trigger] clips[i]).pinned) && ((forall|i: int|
                0 <= i < h.rows.len() ==> (#[trigger] h.rows[i]).body != body)
                ==> clips[at].created_at == now)
        }),
{
    let kind = classify::kind_of(mime, body);
    let preview = classify::preview(kind, mime, body, ipc::PREVIEW_CHARS as int);
    let none = |r: RowView| r.pinned == 0 && r.last_used_at >= now;
    assert forall|i: int| 0 <= i < h.rows.len() implies !none(#[trigger] h.rows[i]) by {
        assert(h.rows[i].last_used_at < now);
    }
    h.rows.lemma_all_neg_filter_empty(none);
    let at = captured_content_is_listed(h, mime, body, found, now);
    let (after, r) = h.insert(kind, mime, body, preview, now);
    let clips = after.recent(u32::MAX);
    history_laws::operations_keep_the_history_sound(
        h,
        kind,
        mime,
        body,
        preview,
        0,
        false,
        now,
    );
    history_laws::recent_clips_are_in_order(after, u32::MAX);
    let mine = history_laws::listed_clips_show_their_rows(after, u32::MAX, at, at);
    only_the_captured_row_is_new(h, kind, mime, body, preview, now, mine);
    assert forall|i: int| 0 <= i < at implies (#[trigger] clips[i]).pinned by {
        let other = history_laws::listed_clips_show_their_rows(after, u32::MAX, i, at);
        only_the_captured_row_is_new(h, kind, mime, body, preview, now, other);
        assert(clips[at].pinned ==> clips[i].pinned);
        if !clips[i].pinned {
            assert(clips[i].last_used_at >= clips[at].last_used_at);
        }
    }
    if forall|i: int| 0 <= i < h.rows.len() ==> (#[trigger] h.rows[i]).body != body {
        if let Some(t) = history::twin(h.rows, kind.number(), history::body_hash(body)) {
            assert(history::is_twin(h.rows, kind.number(), history::body_hash(body), t));
            assert(h.rows[t].body == body);
        }
        let added = h.captured(kind, mime, body, preview, now);
        let gone = history::is_surplus(added.rows);
        added.rows.lemma_filter_contains_rev(history::none_of(gone), mine);
        let k = choose|k: int| 0 <= k < added.rows.len() && added.rows[k] == mine;
        if k < h.rows.len() {
            assert(h.rows[k].body != body);
        }
    }
    at
}

/// A clip that is activated is counted as used at the time of the request; nothing else of it
/// changes.
pub proof fn activated_clips_are_used_then(
    h: History,
    row: RowView,
    found: Result<Seq<Hit>, Seq<char>>,
    now: i64,
)
    requires
        history_laws::sound(h),
        h.rows.len() <= u32::MAX,
        h.rows.contains(row),
        row.use_count < u32::MAX,
    ensures
        ({
            let (after, reply) = ipc::answered(h, RequestView::Activate { id: row.id }, found, now);
            &&& reply == ResponseView::Done
            &&& after.clip(row.id) matches Some(c) && c.last_used_at == now && c.use_count
                == row.use_count + 1 && c.body == row.body && c.preview == row.preview && c.mime
                == row.mime && c.created_at == row.created_at && c.pinned == (row.pinned == 1)
        }),
{
    history_laws::listed_clips_are_found(h, row);
    let k = choose|k: int| 0 <= k < h.rows.len() && h.rows[k] == row;
    assert(history_laws::sound_row(h.rows[k]));
    assert(h.rows[k].id == row.id);
    assert(h.holds(row.id));
    assert(!h.count_at_end(row.id)) by {
        if h.count_at_end(row.id) {
            let i = choose|i: int|
                0 <= i < h.rows.len() && (#[trigger] h.rows[i]).id == row.id
                    && h.rows[i].use_count == i64::MAX;
            if i < k {
                assert(h.rows[i].id < h.rows[k].id);
            } else if k < i {
                assert(h.rows[k].id < h.rows[i].id);
            }
        }
    }
    let after = h.touch(row.id, now).0;
    history_laws::a_use_changes_count_and_time(h, row.id, now, k);
    history_laws::operations_keep_the_history_sound(
        h,
        ClipKind::Text,
        Seq::empty(),
        Seq::empty(),
        Seq::empty(),
        row.id,
        false,
        now,
    );
    assert(after.rows.contains(after.rows[k]));
    history_laws::listed_clips_are_found(after, after.rows[k]);
}

/// What an activated clip puts on the system clipboard are the bytes of its body, all of them;
/// an image goes there under its MIME type.
pub proof fn whole_clips_are_offered(h: History, row: RowView)
    requires
        history_laws::sound(h),
        h.rows.len() <= u32::MAX,
        h.rows.contains(row),
    ensures
        ipc::offer_for(h, RequestView::Activate { id: row.id }) matches Some(offer) && offer.body
            == row.body && (offer.mime == if row.kind == 5 {
            Some(row.mime)
        } else {
            None
        }),
{
    history_laws::listed_clips_are_found(h, row);
    let k = choose|k: int| 0 <= k < h.rows.len() && h.rows[k] == row;
    assert(history_laws::sound_row(h.rows[k]));
}

/// A request to delete takes away one clip and no other; a request to clear takes away all.
pub proof fn deleting_and_clearing(
    h: History,
    id: i64,
    row: RowView,
    limit: u32,
    found: Result<Seq<Hit>, Seq<char>>,
    now: i64,
)
    requires
        h.well_formed(),
    ensures
        ({
            let (after, reply) = ipc::answered(h, RequestView::Delete { id }, found, now);
            &&& reply == ResponseView::Done
            &&& after.rows.contains(row) <==> h.rows.contains(row) && row.id != id
        }),
        ({
            let (after, reply) = ipc::answered(h, RequestView::Clear, found, now);
            &&& reply == ResponseView::Done
            &&& after.rows.len() == 0
            &&& ipc::answered(after, RequestView::Recent { limit }, found, now).1
                == ResponseView::Clips(Seq::empty())
        }),
{
    history_laws::deleting_removes_one_clip(h, id);
    history_laws::clearing_removes_every_clip(h, limit);
    assert(h.clear().recent(limit) =~= Seq::empty());
}

/// The index is asked for every word of a search of which anything can be kept, and only for
/// searches it is asked anything.
pub proof fn searches_ask_for_every_word(query: Seq<char>, limit: u32, other: RequestView)
    ensures
        ipc::index_question(RequestView::Search { query, limit }) matches Some(e) && ({
            let keep = |c: char| query::alphanumeric(c) || c == '_' || c == '-';
            let terms = text::words(query).map_values(|w: Seq<char>| w.filter(keep)).filter(
                |t: Seq<char>| t.len() > 0,
            );
            &&& terms.len() > 0 ==> text::words(e) == terms.map_values(
                |t: Seq<char>| seq!['"'] + t + seq!['"', '*'],
            )
            &&& terms.len() == 0 ==> e == seq!['"', '"', '*']
        }),
        !(other is Search) ==> ipc::index_question(other) is None,
{
    query::no_word_is_lost(query);
}

/// A refusal says why: it names the clip that is not there. A ping is answered with the version
/// of the daemon and that of the protocol.
pub proof fn refusals_say_why(
    h: History,
    id: i64,
    found: Result<Seq<Hit>, Seq<char>>,
    now: i64,
)
    requires
        h.well_formed(),
        !h.holds(id),
    ensures
        ipc::answered(h, RequestView::Activate { id }, found, now).1 == ResponseView::Failed(
            "clip "@ + text::signed_decimal(id as int) + " not found"@,
        ),
        ipc::answered(h, RequestView::Ping, found, now).1 == (ResponseView::Pong {
            version: "0.2.0"@,
            protocol: 1,
        }),
{
    unknown_clips_are_refused(h, id, found, now);
}

/// Content is stored as it came, under the kind that it is told to be and with a preview of up
/// to two hundred characters; a capture of text with an empty preview changes nothing.
pub proof fn content_is_stored_as_it_came(
    h: History,
    mime: Seq<char>,
    body: Seq<u8>,
    found: Result<Seq<Hit>, Seq<char>>,
    now: i64,
)
    ensures
        ({
            let kind = classify::kind_of(mime, body);
            let preview = classify::preview(kind, mime, body, 200);
            let (after, reply) = ipc::answered(h, RequestView::Ingest { mime, body }, found, now);
            let stored = h.insert(kind, mime, body, preview, now);
            &&& preview.len() > 0 || "image/"@.is_prefix_of(mime) ==> after == stored.0 && (reply
                == ResponseView::Done <==> stored.1 is Ok)
            &&& preview.len() == 0 && !"image/"@.is_prefix_of(mime) ==> after == h && reply
                == ResponseView::Done
        }),
{
}

/// What is new is stored with every field: the row holds the content, its MIME type, its kind
/// and preview, its size, and the time of the capture; it was used once and is not pinned.
pub proof fn new_rows_hold_what_was_captured(
    id: i64,
    kind: ClipKind,
    mime: Seq<char>,
    body: Seq<u8>,
    preview: Seq<char>,
    now: i64,
)
    requires
        body.len() <= i64::MAX,
    ensures
        ({
            let c = history::new_row(id, kind, mime, body, preview, now).clip();
            &&& c.id == id && c.kind == kind && c.mime == mime && c.body == body
            &&& c.preview == preview && c.bytes == body.len()
            &&& c.created_at == now && c.last_used_at == now
            &&& c.use_count == 1 && !c.pinned
        }),
{
}

} // verus!
