//! What holds of the history whatever is done with it.

use crate::history;
use crate::history::{ChangeView, History, Hit, Match, RowView};
use crate::order;
use crate::proto;
use vstd::prelude::*;

verus! {

/// A row is kept exactly if it was there and `keep` holds for it.
proof fn kept_rows(rows: Seq<RowView>, keep: spec_fn(RowView) -> bool)
    ensures
        forall|r: RowView| #[trigger] rows.filter(keep).contains(r) <==> rows.contains(r) && keep(r),
{
    assert forall|r: RowView| #[trigger] rows.filter(keep).contains(r) <==> rows.contains(r)
        && keep(r) by {
        if rows.filter(keep).contains(r) {
            rows.lemma_filter_contains_rev(keep, r);
            let i = choose|i: int| 0 <= i < rows.filter(keep).len() && rows.filter(keep)[i] == r;
            rows.lemma_filter_pred(keep, i);
        }
        if rows.contains(r) && keep(r) {
            let i = choose|i: int| 0 <= i < rows.len() && rows[i] == r;
            rows.lemma_filter_contains(keep, i);
        }
    }
}

/// The history holds the id of each of its rows.
proof fn rows_are_held(h: History, r: RowView)
    requires
        h.rows.contains(r),
    ensures
        h.holds(r.id),
{
    let i = choose|i: int| 0 <= i < h.rows.len() && h.rows[i] == r;
    assert(h.rows[i].id == r.id);
}

/// Rows of one history that share an id are the same row.
proof fn one_row_per_id(h: History, a: RowView, b: RowView)
    requires
        h.well_formed(),
        h.rows.contains(a),
        h.rows.contains(b),
        a.id == b.id,
    ensures
        a == b,
{
    let i = choose|i: int| 0 <= i < h.rows.len() && h.rows[i] == a;
    let j = choose|j: int| 0 <= j < h.rows.len() && h.rows[j] == b;
    if i < j {
        assert(h.rows[i].id < h.rows[j].id);
    } else if j < i {
        assert(h.rows[j].id < h.rows[i].id);
    }
}

/// A history of which some rows are removed is well-formed again.
pub proof fn removal_keeps_history_well_formed(h: History, gone: spec_fn(RowView) -> bool)
    requires
        h.well_formed(),
    ensures
        h.without(gone).well_formed(),
{
    history::filter_keeps_order(h.rows, h.last_id, history::none_of(gone));
}

proof fn one_filter_after_another(
    rows: Seq<RowView>,
    p: spec_fn(RowView) -> bool,
    q: spec_fn(RowView) -> bool,
    both: spec_fn(RowView) -> bool,
)
    requires
        forall|i: int| 0 <= i < rows.len() ==> #[trigger] both(rows[i]) == (p(rows[i]) && q(rows[i])),
    ensures
        rows.filter(p).filter(q) == rows.filter(both),
    decreases rows.len(),
{
    if rows.len() == 0 {
        rows.lemma_filter_len(p);
        rows.lemma_filter_len(both);
        rows.filter(p).lemma_filter_len(q);
        assert(rows.filter(p).filter(q) =~= rows.filter(both));
    } else {
        let front = rows.drop_last();
        let x = rows.last();
        assert(both(rows[rows.len() - 1]) == (p(x) && q(x)));
        assert forall|i: int| 0 <= i < front.len() implies #[trigger] both(front[i]) == (p(front[i])
            && q(front[i])) by {
            assert(front[i] == rows[i]);
        }
        one_filter_after_another(front, p, q, both);
        assert(rows =~= front.push(x));
        front.lemma_filter_push(x, p);
        front.lemma_filter_push(x, both);
        front.filter(p).lemma_filter_push(x, q);
    }
}

/// Replaying the removals of `named` on `rows` leaves the rows that none of them names.
proof fn removals_replayed(
    rows: Seq<RowView>,
    named: Seq<RowView>,
    gone: spec_fn(RowView) -> bool,
    last_id: i64,
)
    requires
        history::ids_in_order(rows, last_id),
        forall|i: int| 0 <= i < rows.len() ==> (#[trigger] gone(rows[i]) <==> named.contains(rows[i])),
        forall|i: int| 0 <= i < named.len() ==> rows.contains(#[trigger] named[i]),
    ensures
        history::replayed(
            rows,
            named.map_values(|r: RowView| ChangeView::Remove { id: r.id }),
        ) == rows.filter(history::none_of(gone)),
    decreases named.len(),
{
    let step = |r: RowView| ChangeView::Remove { id: r.id };
    let steps = named.map_values(step);
    let keep = history::none_of(gone);
    if named.len() == 0 {
        assert forall|i: int| 0 <= i < rows.len() implies keep(#[trigger] rows[i]) by {
            assert(!named.contains(rows[i]));
        }
        nothing_dropped(rows, keep);
    } else {
        let x = named.last();
        let front = named.drop_last();
        let fewer = |r: RowView| front.contains(r);
        assert forall|i: int| 0 <= i < front.len() implies rows.contains(#[trigger] front[i]) by {
            assert(front[i] == named[i]);
        }
        removals_replayed(rows, front, fewer, last_id);
        assert(steps.drop_last() =~= front.map_values(step));
        assert(steps.last() == ChangeView::Remove { id: x.id });
        let p = history::none_of(fewer);
        let q = history::none_of(history::has_id(x.id));
        assert(rows.contains(named[named.len() - 1]));
        assert forall|i: int| 0 <= i < rows.len() implies #[trigger] keep(rows[i]) == (p(rows[i])
            && q(rows[i])) by {
            let r = rows[i];
            assert(gone(r) <==> named.contains(r));
            if named.contains(r) {
                let k = choose|k: int| 0 <= k < named.len() && named[k] == r;
                if k < front.len() {
                    assert(front[k] == r);
                }
            }
            if front.contains(r) {
                let k = choose|k: int| 0 <= k < front.len() && front[k] == r;
                assert(named[k] == r);
            }
            if r.id == x.id {
                let j = choose|j: int| 0 <= j < rows.len() && rows[j] == x;
                assert(i == j);
                assert(named[named.len() - 1] == r);
            }
        }
        one_filter_after_another(rows, p, q, keep);
    }
}

proof fn nothing_dropped(rows: Seq<RowView>, keep: spec_fn(RowView) -> bool)
    requires
        forall|i: int| 0 <= i < rows.len() ==> keep(#[trigger] rows[i]),
    ensures
        rows.filter(keep) == rows,
    decreases rows.len(),
{
    if rows.len() == 0 {
        rows.lemma_filter_len(keep);
        assert(rows.filter(keep) =~= rows);
    } else {
        let front = rows.drop_last();
        assert forall|i: int| 0 <= i < front.len() implies keep(#[trigger] front[i]) by {
            assert(front[i] == rows[i]);
        }
        nothing_dropped(front, keep);
        assert(rows =~= front.push(rows.last()));
        assert(keep(rows[rows.len() - 1]));
        front.lemma_filter_push(rows.last(), keep);
    }
}

proof fn replay_in_two_parts(rows: Seq<RowView>, a: Seq<ChangeView>, b: Seq<ChangeView>)
    ensures
        history::replayed(rows, a + b) == history::replayed(history::replayed(rows, a), b),
    decreases b.len(),
{
    if b.len() == 0 {
        assert(a + b =~= a);
    } else {
        assert((a + b).drop_last() =~= a + b.drop_last());
        replay_in_two_parts(rows, a, b.drop_last());
    }
}

/// The steps that an operation took, where it led from `before` to `after`.
pub open spec fn steps_taken(before: History, after: History) -> Seq<ChangeView> {
    after.changes.skip(before.changes.len() as int)
}

/// A saved copy of the table that takes the steps noted is the table again: the steps
/// noted by an operation lead from the rows before it to the rows after it.
pub open spec fn notes_its_steps(before: History, after: History) -> bool {
    &&& before.changes.is_prefix_of(after.changes)
    &&& history::replayed(before.rows, steps_taken(before, after)) == after.rows
}

proof fn one_step_is_noted(h: History, change: ChangeView)
    ensures
        notes_its_steps(h, h.after(change)),
{
    let after = h.after(change);
    let steps = steps_taken(h, after);
    assert(steps =~= seq![change]);
    assert(steps.drop_last() =~= Seq::<ChangeView>::empty());
    assert(history::replayed(h.rows, steps.drop_last()) == h.rows);
    assert(h.changes =~= after.changes.subrange(0, h.changes.len() as int));
}

proof fn removal_is_noted(h: History, gone: spec_fn(RowView) -> bool)
    requires
        h.well_formed(),
    ensures
        notes_its_steps(h, h.without(gone)),
{
    let after = h.without(gone);
    let named = h.rows.filter(gone);
    kept_rows(h.rows, gone);
    assert(steps_taken(h, after) =~= history::removals(h.rows, gone));
    assert forall|i: int| 0 <= i < h.rows.len() implies (#[trigger] gone(h.rows[i])
        <==> named.contains(h.rows[i])) by {
        assert(h.rows.contains(h.rows[i]));
    }
    assert forall|i: int| 0 <= i < named.len() implies h.rows.contains(#[trigger] named[i]) by {
        assert(named.contains(named[i]));
    }
    removals_replayed(h.rows, named, gone, h.last_id);
    assert(h.changes =~= after.changes.subrange(0, h.changes.len() as int));
}

/// A history that did not change has no steps to note.
pub proof fn no_step_is_noted(h: History)
    ensures
        notes_its_steps(h, h),
{
    assert(steps_taken(h, h) =~= Seq::<ChangeView>::empty());
    assert(h.changes =~= h.changes.subrange(0, h.changes.len() as int));
}

/// Every operation notes the steps that a saved copy of the table has to take to be
/// equal to the table again.
pub proof fn operations_note_their_steps(
    h: History,
    kind: proto::ClipKind,
    mime: Seq<char>,
    body: Seq<u8>,
    preview: Seq<char>,
    id: i64,
    pinned: bool,
    now: i64,
)
    requires
        h.well_formed(),
    ensures
        notes_its_steps(h, h.insert(kind, mime, body, preview, now).0),
        notes_its_steps(h, h.touch(id, now).0),
        notes_its_steps(h, h.set_pinned(id, pinned)),
        notes_its_steps(h, h.delete(id)),
        notes_its_steps(h, h.clear()),
        notes_its_steps(h, h.cleanup_expired(now)),
{
    no_step_is_noted(h);
    one_step_is_noted(h, ChangeView::Use { id, last_used_at: now });
    one_step_is_noted(h, ChangeView::Pin { id, pinned });
    one_step_is_noted(h, ChangeView::RemoveAll);
    removal_is_noted(h, history::has_id(id));
    removal_is_noted(h, history::is_expired(now - history::TTL_SECONDS));
    if body.len() <= history::size_limit(kind) {
        match history::twin(h.rows, kind.number(), history::body_hash(body)) {
            Some(i) => {
                one_step_is_noted(h, ChangeView::Use { id: h.rows[i].id, last_used_at: now });
            },
            None => if h.last_id < i64::MAX {
                let added = h.captured(kind, mime, body, preview, now);
                let next_id = (h.last_id + 1) as i64;
                let row = history::new_row(next_id, kind, mime, body, preview, now);
                let change = ChangeView::Add { row };
                one_step_is_noted(History { last_id: next_id, ..h }, change);
                assert(added.rows =~= h.rows.push(row));
                assert(added.well_formed());
                removal_is_noted(added, history::is_surplus(added.rows));
                let end = added.within_limit();
                assert(steps_taken(h, end) =~= steps_taken(h, added) + steps_taken(added, end));
                replay_in_two_parts(h.rows, steps_taken(h, added), steps_taken(added, end));
                assert(h.changes =~= end.changes.subrange(0, h.changes.len() as int));
            },
        }
    }
}

/// A row as the history writes it.
pub open spec fn sound_row(r: RowView) -> bool {
    &&& 1 <= r.id
    &&& 0 <= r.kind <= 5
    &&& r.hash == history::body_hash(r.body)
    &&& r.bytes == r.body.len()
    &&& r.body.len() <= history::size_limit(proto::ClipKind::numbered(r.kind))
    &&& r.use_count >= 1
    &&& r.pinned == 0 || r.pinned == 1
}

/// Every row is one that the history writes, and no two rows hold the same content.
pub open spec fn sound(h: History) -> bool {
    &&& h.well_formed()
    &&& forall|i: int| 0 <= i < h.rows.len() ==> sound_row(#[trigger] h.rows[i])
    &&& forall|i: int, j: int|
        0 <= i < j < h.rows.len() ==> (#[trigger] h.rows[i]).kind != (#[trigger] h.rows[j]).kind
            || h.rows[i].hash != h.rows[j].hash
}

proof fn removal_keeps_sound(h: History, gone: spec_fn(RowView) -> bool)
    requires
        sound(h),
    ensures
        sound(h.without(gone)),
{
    let keep = history::none_of(gone);
    let after = h.without(gone);
    removal_keeps_history_well_formed(h, gone);
    kept_rows(h.rows, keep);
    assert forall|i: int| 0 <= i < after.rows.len() implies sound_row(#[trigger] after.rows[i]) by {
        assert(after.rows.contains(after.rows[i]));
        assert(h.rows.contains(after.rows[i]));
    }
    assert forall|i: int, j: int| 0 <= i < j < after.rows.len() implies (
    #[trigger] after.rows[i]).kind != (#[trigger] after.rows[j]).kind || after.rows[i].hash
        != after.rows[j].hash by {
        assert(after.rows[i].id < after.rows[j].id);
        assert(after.rows.contains(after.rows[i]) && after.rows.contains(after.rows[j]));
        let a = choose|a: int| 0 <= a < h.rows.len() && h.rows[a] == after.rows[i];
        let b = choose|b: int| 0 <= b < h.rows.len() && h.rows[b] == after.rows[j];
        assert(a != b);
        if a < b {
            assert(h.rows[a].kind != h.rows[b].kind || h.rows[a].hash != h.rows[b].hash);
        } else {
            assert(h.rows[b].kind != h.rows[a].kind || h.rows[b].hash != h.rows[a].hash);
        }
    }
}

proof fn use_keeps_sound(h: History, id: i64, now: i64)
    requires
        sound(h),
        !h.count_at_end(id),
    ensures
        sound(h.after(ChangeView::Use { id, last_used_at: now })),
{
    let after = h.after(ChangeView::Use { id, last_used_at: now });
    assert forall|i: int| 0 <= i < after.rows.len() implies sound_row(#[trigger] after.rows[i])
        && after.rows[i].id == h.rows[i].id && after.rows[i].kind == h.rows[i].kind
        && after.rows[i].hash == h.rows[i].hash by {
        assert(sound_row(h.rows[i]));
    }
}

/// No operation stores content that is too big, lets two rows hold the same content, or
/// leaves a row whose hash or size is not that of its body.
pub proof fn operations_keep_the_history_sound(
    h: History,
    kind: proto::ClipKind,
    mime: Seq<char>,
    body: Seq<u8>,
    preview: Seq<char>,
    id: i64,
    pinned: bool,
    now: i64,
)
    requires
        sound(h),
    ensures
        sound(h.insert(kind, mime, body, preview, now).0),
        sound(h.touch(id, now).0),
        sound(h.set_pinned(id, pinned)),
        sound(h.delete(id)),
        sound(h.clear()),
        sound(h.cleanup_expired(now)),
        sound(History { rows: Seq::empty(), last_id: 0, changes: Seq::empty() }),
{
    removal_keeps_sound(h, history::has_id(id));
    removal_keeps_sound(h, history::is_expired(now - history::TTL_SECONDS));
    if !h.count_at_end(id) {
        use_keeps_sound(h, id, now);
    }
    let pin = h.after(ChangeView::Pin { id, pinned });
    assert forall|i: int| 0 <= i < pin.rows.len() implies sound_row(#[trigger] pin.rows[i])
        && pin.rows[i].id == h.rows[i].id && pin.rows[i].kind == h.rows[i].kind && pin.rows[i].hash
        == h.rows[i].hash by {
        assert(sound_row(h.rows[i]));
    }
    let hash = history::body_hash(body);
    if body.len() <= history::size_limit(kind) {
        match history::twin(h.rows, kind.number(), hash) {
            Some(i) => {
                if !h.count_at_end(h.rows[i].id) {
                    use_keeps_sound(h, h.rows[i].id, now);
                }
            },
            None => if h.last_id < i64::MAX {
                let added = h.captured(kind, mime, body, preview, now);
                let next_id = (h.last_id + 1) as i64;
                let row = history::new_row(next_id, kind, mime, body, preview, now);
                assert(added.rows =~= h.rows.push(row));
                no_twin(h.rows, kind.number(), hash);
                proto::kind_survives_its_number(kind);
                assert(sound(added));
                removal_keeps_sound(added, history::is_surplus(added.rows));
            },
        }
    }
}

/// Where no row can be merged with, none has the kind and hash.
proof fn no_twin(rows: Seq<RowView>, kind: i64, hash: i64)
    requires
        history::twin(rows, kind, hash) is None,
    ensures
        forall|i: int|
            0 <= i < rows.len() ==> (#[trigger] rows[i]).kind != kind || rows[i].hash != hash,
{
    if exists|i: int| 0 <= i < rows.len() && (#[trigger] rows[i]).kind == kind && rows[i].hash == hash {
        let i = choose|i: int|
            0 <= i < rows.len() && (#[trigger] rows[i]).kind == kind && rows[i].hash == hash;
        let t = some_twin(rows, kind, hash, i);
        assert(history::is_twin(rows, kind, hash, t));
    }
}

/// Among the rows of a kind and hash there is one to merge with.
proof fn some_twin(rows: Seq<RowView>, kind: i64, hash: i64, i: int) -> (t: int)
    requires
        0 <= i < rows.len(),
        rows[i].kind == kind,
        rows[i].hash == hash,
    ensures
        history::is_twin(rows, kind, hash, t),
    decreases rows.len(),
{
    let front = rows.drop_last();
    let last = rows.len() - 1;
    if exists|k: int| 0 <= k < front.len() && (#[trigger] front[k]).kind == kind && front[k].hash == hash {
        let k = choose|k: int|
            0 <= k < front.len() && (#[trigger] front[k]).kind == kind && front[k].hash == hash;
        let t = some_twin(front, kind, hash, k);
        let end = rows[last];
        let best = if end.kind == kind && end.hash == hash && end.last_used_at
            > rows[t].last_used_at {
            last
        } else {
            t
        };
        assert(front[t] == rows[t]);
        assert forall|j: int|
            0 <= j < rows.len() && (#[trigger] rows[j]).kind == kind && rows[j].hash
                == hash implies rows[j].last_used_at < rows[best].last_used_at || (
        rows[j].last_used_at == rows[best].last_used_at && best <= j) by {
            if j < last {
                assert(front[j] == rows[j]);
            }
        }
        best
    } else {
        assert forall|j: int|
            0 <= j < rows.len() && (#[trigger] rows[j]).kind == kind && rows[j].hash
                == hash implies j == last by {
            if j < last {
                assert(front[j] == rows[j]);
            }
        }
        last
    }
}

/// A capture is merged into the row that has its kind and its hash.
proof fn same_hash_is_merged(
    h: History,
    kind: proto::ClipKind,
    mime: Seq<char>,
    body: Seq<u8>,
    preview: Seq<char>,
    now: i64,
    row: RowView,
)
    requires
        sound(h),
        h.rows.contains(row),
        row.kind == kind.number(),
        row.hash == history::body_hash(body),
        body.len() <= history::size_limit(kind),
        row.use_count < i64::MAX,
    ensures
        ({
            let (after, r) = h.insert(kind, mime, body, preview, now);
            &&& r == Ok::<i64, history::StoreError>(row.id)
            &&& after.rows.len() == h.rows.len()
            &&& forall|i: int|
                0 <= i < h.rows.len() ==> #[trigger] after.rows[i] == if h.rows[i].id == row.id {
                    row.used(now)
                } else {
                    h.rows[i]
                }
        }),
{
    let hash = history::body_hash(body);
    let k = choose|k: int| 0 <= k < h.rows.len() && h.rows[k] == row;
    let t = some_twin(h.rows, kind.number(), hash, k);
    let c = choose|i: int| history::is_twin(h.rows, kind.number(), hash, i);
    assert(history::is_twin(h.rows, kind.number(), hash, c));
    assert(c == k) by {
        if c < k {
            assert(h.rows[c].kind != h.rows[k].kind || h.rows[c].hash != h.rows[k].hash);
        } else if k < c {
            assert(h.rows[k].kind != h.rows[c].kind || h.rows[k].hash != h.rows[c].hash);
        }
    }
    assert(!h.count_at_end(row.id)) by {
        if h.count_at_end(row.id) {
            let i = choose|i: int|
                0 <= i < h.rows.len() && (#[trigger] h.rows[i]).id == row.id
                    && h.rows[i].use_count == i64::MAX;
            assert(h.rows.contains(h.rows[i]));
            one_row_per_id(h, h.rows[i], row);
        }
    }
    rows_are_held(h, row);
    let after = h.insert(kind, mime, body, preview, now).0;
    assert forall|i: int| 0 <= i < h.rows.len() implies #[trigger] after.rows[i]
        == if h.rows[i].id == row.id {
        row.used(now)
    } else {
        h.rows[i]
    } by {
        if h.rows[i].id == row.id {
            assert(h.rows.contains(h.rows[i]));
            one_row_per_id(h, h.rows[i], row);
        }
    }
}

/// Content that is there already is not stored again: its clip keeps its id, counts one
/// use more, and was last used now. Nothing else changes.
pub proof fn same_content_is_merged(
    h: History,
    kind: proto::ClipKind,
    mime: Seq<char>,
    body: Seq<u8>,
    preview: Seq<char>,
    now: i64,
    row: RowView,
)
    requires
        sound(h),
        h.rows.contains(row),
        row.kind == kind.number(),
        row.body == body,
        row.use_count < i64::MAX,
    ensures
        ({
            let (after, r) = h.insert(kind, mime, body, preview, now);
            &&& r == Ok::<i64, history::StoreError>(row.id)
            &&& after.rows.len() == h.rows.len()
            &&& forall|i: int|
                0 <= i < h.rows.len() ==> #[trigger] after.rows[i] == if h.rows[i].id == row.id {
                    row.used(now)
                } else {
                    h.rows[i]
                }
        }),
{
    let k = choose|k: int| 0 <= k < h.rows.len() && h.rows[k] == row;
    assert(sound_row(h.rows[k]));
    proto::kind_survives_its_number(kind);
    same_hash_is_merged(h, kind, mime, body, preview, now, row);
}

/// No two rows of a sound history hold the same content of the same kind.
pub proof fn no_two_rows_hold_the_same_content(h: History, i: int, j: int)
    requires
        sound(h),
        0 <= i < h.rows.len(),
        0 <= j < h.rows.len(),
        i != j,
    ensures
        h.rows[i].kind != h.rows[j].kind || h.rows[i].body != h.rows[j].body,
{
    assert(sound_row(h.rows[i]) && sound_row(h.rows[j]));
    if i < j {
        assert(h.rows[i].kind != h.rows[j].kind || h.rows[i].hash != h.rows[j].hash);
    } else {
        assert(h.rows[j].kind != h.rows[i].kind || h.rows[j].hash != h.rows[i].hash);
    }
}

/// Content that is too big for its kind is skipped, and then nothing changes. Whatever else
/// is captured gets a new id of at least 1, or the id of the row it is merged into. So 0 is
/// given exactly for what is skipped, as long as the ids of the rows count from 1.
pub proof fn only_big_content_is_skipped(
    h: History,
    kind: proto::ClipKind,
    mime: Seq<char>,
    body: Seq<u8>,
    preview: Seq<char>,
    now: i64,
)
    requires
        h.well_formed(),
    ensures
        ({
            let (after, r) = h.insert(kind, mime, body, preview, now);
            &&& body.len() > history::size_limit(kind) ==> after == h && r == Ok::<
                i64,
                history::StoreError,
            >(0)
            &&& body.len() <= history::size_limit(kind) && r is Ok ==> r->Ok_0 >= 1 || h.holds(
                r->Ok_0,
            )
            &&& history::ids_count_from_one(h.rows) ==> (r == Ok::<i64, history::StoreError>(0)
                <==> body.len() > history::size_limit(kind))
            &&& history::ids_count_from_one(h.rows) ==> history::ids_count_from_one(after.rows)
        }),
{
    let after = h.insert(kind, mime, body, preview, now).0;
    match history::twin(h.rows, kind.number(), history::body_hash(body)) {
        Some(i) => {
            assert(history::is_twin(h.rows, kind.number(), history::body_hash(body), i));
            assert(h.holds(h.rows[i].id));
        },
        None => if body.len() <= history::size_limit(kind) && h.last_id < i64::MAX {
            let added = h.captured(kind, mime, body, preview, now);
            kept_rows(added.rows, history::none_of(history::is_surplus(added.rows)));
            if history::ids_count_from_one(h.rows) {
                assert forall|i: int| 0 <= i < after.rows.len() implies 1 <= (
                #[trigger] after.rows[i]).id by {
                    assert(after.rows.contains(after.rows[i]));
                    assert(added.rows.contains(after.rows[i]));
                }
            }
        },
    }
}

/// Content that is captured at some time.
pub struct Capture {
    pub kind: proto::ClipKind,
    pub mime: Seq<char>,
    pub body: Seq<u8>,
    pub preview: Seq<char>,
    pub now: i64,
}

/// The history after one capture.
pub open spec fn after_capture(h: History, c: Capture) -> History {
    h.insert(c.kind, c.mime, c.body, c.preview, c.now).0
}

/// The history after captures, in order.
pub open spec fn after_captures(h: History, captures: Seq<Capture>) -> History
    decreases captures.len(),
{
    if captures.len() == 0 {
        h
    } else {
        after_capture(after_captures(h, captures.drop_last()), captures.last())
    }
}

/// `b` is the row `a`, used more or less often and at another time.
pub open spec fn same_but_for_use(a: RowView, b: RowView) -> bool {
    b == RowView { last_used_at: b.last_used_at, use_count: b.use_count, ..a }
}

/// A row that is there after a capture, under an id that had been given out before it,
/// was there before, with the same content.
proof fn captures_change_only_use(h: History, c: Capture, row: RowView) -> (before: RowView)
    requires
        h.well_formed(),
        after_capture(h, c).rows.contains(row),
        row.id <= h.last_id,
    ensures
        h.rows.contains(before),
        same_but_for_use(before, row),
{
    let after = after_capture(h, c);
    let k = choose|k: int| 0 <= k < after.rows.len() && after.rows[k] == row;
    if c.body.len() > history::size_limit(c.kind) {
        row
    } else {
        match history::twin(h.rows, c.kind.number(), history::body_hash(c.body)) {
            Some(i) => {
                assert(after.rows.len() == h.rows.len());
                assert(h.rows.contains(h.rows[k]));
                h.rows[k]
            },
            None => if h.last_id == i64::MAX {
                row
            } else {
                let added = h.captured(c.kind, c.mime, c.body, c.preview, c.now);
                kept_rows(added.rows, history::none_of(history::is_surplus(added.rows)));
                assert(added.rows.contains(row));
                let j = choose|j: int| 0 <= j < added.rows.len() && added.rows[j] == row;
                assert(j < h.rows.len());
                assert(h.rows[j] == row);
                row
            },
        }
    }
}

proof fn many_captures_change_only_use(h: History, captures: Seq<Capture>, row: RowView) -> (before:
    RowView)
    requires
        sound(h),
        after_captures(h, captures).rows.contains(row),
        row.id <= h.last_id,
    ensures
        h.rows.contains(before),
        same_but_for_use(before, row),
    decreases captures.len(),
{
    if captures.len() == 0 {
        row
    } else {
        let front = captures.drop_last();
        captures_keep_the_history_sound(h, front);
        let between = captures_change_only_use(after_captures(h, front), captures.last(), row);
        many_captures_change_only_use(h, front, between)
    }
}

/// Captures leave a sound history sound, and take back no id.
pub proof fn captures_keep_the_history_sound(h: History, captures: Seq<Capture>)
    requires
        sound(h),
    ensures
        sound(after_captures(h, captures)),
        h.last_id <= after_captures(h, captures).last_id,
    decreases captures.len(),
{
    if captures.len() > 0 {
        let front = captures.drop_last();
        captures_keep_the_history_sound(h, front);
        let (mid, c) = (after_captures(h, front), captures.last());
        operations_keep_the_history_sound(
            mid,
            c.kind,
            c.mime,
            c.body,
            c.preview,
            0,
            false,
            c.now,
        );
        ids_are_never_reused(mid, c.kind, c.mime, c.body, c.preview, 0, false, c.now);
    }
}

/// Where a capture `first` got the id of `row`, content of the same kind and bytes that is
/// captured again after any other captures is merged into that row, as long as the row is
/// still there and can count one use more. No row is added or removed; the row counts one
/// use more and was last used then, and nothing else of it changes, nor any other row.
pub proof fn repeated_captures_are_merged(
    h: History,
    first: Capture,
    others: Seq<Capture>,
    again: Capture,
    row: RowView,
)
    requires
        sound(h),
        h.insert(first.kind, first.mime, first.body, first.preview, first.now).1 == Ok::<
            i64,
            history::StoreError,
        >(row.id),
        row.id != 0,
        again.kind == first.kind,
        again.body == first.body,
        after_captures(after_capture(h, first), others).rows.contains(row),
        row.use_count < i64::MAX,
    ensures
        ({
            let later = after_captures(after_capture(h, first), others);
            let (after, r) = later.insert(
                again.kind,
                again.mime,
                again.body,
                again.preview,
                again.now,
            );
            &&& r == Ok::<i64, history::StoreError>(row.id)
            &&& after.rows.len() == later.rows.len()
            &&& forall|i: int|
                0 <= i < later.rows.len() ==> #[trigger] after.rows[i] == if later.rows[i].id
                    == row.id {
                    row.used(again.now)
                } else {
                    later.rows[i]
                }
        }),
{
    let (kind, body) = (first.kind, first.body);
    let hash = history::body_hash(body);
    let once = after_capture(h, first);
    let later = after_captures(once, others);
    operations_keep_the_history_sound(
        h,
        kind,
        first.mime,
        body,
        first.preview,
        0,
        false,
        first.now,
    );
    ids_are_never_reused(h, kind, first.mime, body, first.preview, 0, false, first.now);
    captures_keep_the_history_sound(once, others);
    if h.holds(row.id) {
        let i = choose|i: int| 0 <= i < h.rows.len() && (#[trigger] h.rows[i]).id == row.id;
        assert(h.rows[i].id <= h.last_id);
    }
    let held = many_captures_change_only_use(once, others, row);
    let k = choose|k: int| 0 <= k < once.rows.len() && once.rows[k] == held;
    assert(held.kind == kind.number() && held.hash == hash) by {
        match history::twin(h.rows, kind.number(), hash) {
            Some(i) => {
                assert(history::is_twin(h.rows, kind.number(), hash, i));
                assert(once.rows[k].id == h.rows[k].id);
                assert(h.rows.contains(h.rows[i]) && h.rows.contains(h.rows[k]));
                one_row_per_id(h, h.rows[i], h.rows[k]);
            },
            None => {
                let added = h.captured(kind, first.mime, body, first.preview, first.now);
                kept_rows(added.rows, history::none_of(history::is_surplus(added.rows)));
                assert(added.rows.contains(held));
                let j = choose|j: int| 0 <= j < added.rows.len() && added.rows[j] == held;
                if j < h.rows.len() {
                    assert(h.rows[j].id <= h.last_id);
                }
            },
        }
    }
    same_hash_is_merged(later, kind, again.mime, body, again.preview, again.now, row);
}

/// The rows that are too many are unpinned rows of the table.
proof fn surplus_rows(rows: Seq<RowView>)
    ensures
        forall|r: RowView| #[trigger]
            history::surplus(rows).contains(r) ==> rows.contains(r) && r.pinned == 0,
{
    let free = rows.filter(history::is_unpinned());
    let by_use = order::sorted(free, history::used_later());
    order::sorted_keeps_items(free, history::used_later());
    kept_rows(rows, history::is_unpinned());
    assert forall|r: RowView| #[trigger] history::surplus(rows).contains(r) implies rows.contains(r)
        && r.pinned == 0 by {
        let over = history::surplus(rows);
        let i = choose|i: int| 0 <= i < over.len() && over[i] == r;
        assert(by_use[i + history::MAX_HISTORY_ROWS] == r);
        assert(by_use.contains(r));
        assert(free.contains(r));
    }
}

/// Pinned clips are kept whatever is captured, and whatever their age when the history is
/// cleaned up. At most their use is noted.
pub proof fn pinned_clips_are_kept(
    h: History,
    kind: proto::ClipKind,
    mime: Seq<char>,
    body: Seq<u8>,
    preview: Seq<char>,
    now: i64,
    row: RowView,
)
    requires
        h.well_formed(),
        h.rows.contains(row),
        row.pinned != 0,
    ensures
        h.cleanup_expired(now).rows.contains(row),
        ({
            let after = h.insert(kind, mime, body, preview, now).0;
            after.rows.contains(row) || after.rows.contains(row.used(now))
        }),
{
    let expired = history::is_expired(now - history::TTL_SECONDS);
    kept_rows(h.rows, history::none_of(expired));
    let after = h.insert(kind, mime, body, preview, now).0;
    if body.len() <= history::size_limit(kind) {
        match history::twin(h.rows, kind.number(), history::body_hash(body)) {
            Some(i) => {
                let id = h.rows[i].id;
                let k = choose|k: int| 0 <= k < h.rows.len() && h.rows[k] == row;
                if !h.count_at_end(id) && h.holds(id) {
                    assert(after.rows[k] == if row.id == id {
                        row.used(now)
                    } else {
                        row
                    });
                }
            },
            None => if h.last_id < i64::MAX {
                let added = h.captured(kind, mime, body, preview, now);
                let next_id = (h.last_id + 1) as i64;
                let new = history::new_row(next_id, kind, mime, body, preview, now);
                assert(added.rows =~= h.rows.push(new));
                let k = choose|k: int| 0 <= k < h.rows.len() && h.rows[k] == row;
                assert(added.rows[k] == row);
                surplus_rows(added.rows);
                kept_rows(added.rows, history::none_of(history::is_surplus(added.rows)));
            },
        }
    }
}

/// Cleaning up removes exactly the clips that are unpinned and were last used more than
/// `TTL_SECONDS` before `now`; doing it again at that time removes nothing.
pub proof fn cleanup_removes_the_expired(h: History, now: i64)
    requires
        h.well_formed(),
    ensures
        forall|r: RowView| #[trigger]
            h.cleanup_expired(now).rows.contains(r) <==> h.rows.contains(r) && !(r.pinned == 0
                && now - r.last_used_at > history::TTL_SECONDS),
        h.cleanup_expired(now).cleanup_expired(now).rows == h.cleanup_expired(now).rows,
{
    let expired = history::is_expired(now - history::TTL_SECONDS);
    let keep = history::none_of(expired);
    kept_rows(h.rows, keep);
    let once = h.cleanup_expired(now);
    assert forall|i: int| 0 <= i < once.rows.len() implies keep(#[trigger] once.rows[i]) by {
        assert(once.rows.contains(once.rows[i]));
    }
    nothing_dropped(once.rows, keep);
}

/// Each row differs from the others.
proof fn rows_differ(rows: Seq<RowView>, last_id: i64)
    requires
        history::ids_in_order(rows, last_id),
    ensures
        rows.no_duplicates(),
{
    assert forall|i: int, j: int| 0 <= i < rows.len() && 0 <= j < rows.len() && i != j implies rows[i]
        != rows[j] by {
        if i < j {
            assert(rows[i].id < rows[j].id);
        } else {
            assert(rows[j].id < rows[i].id);
        }
    }
}

/// After a capture that added a clip the history keeps at most `MAX_HISTORY_ROWS` unpinned
/// clips. The ones that it dropped were unpinned, and used no later than any unpinned
/// clip that it keeps.
pub proof fn captures_keep_the_history_short(
    h: History,
    kind: proto::ClipKind,
    mime: Seq<char>,
    body: Seq<u8>,
    preview: Seq<char>,
    now: i64,
)
    requires
        h.well_formed(),
        body.len() <= history::size_limit(kind),
        history::twin(h.rows, kind.number(), history::body_hash(body)) is None,
        h.last_id < i64::MAX,
    ensures
        ({
            let after = h.insert(kind, mime, body, preview, now).0;
            let added = h.captured(kind, mime, body, preview, now);
            &&& after.rows.filter(history::is_unpinned()).len() <= history::MAX_HISTORY_ROWS
            &&& forall|gone: RowView, kept: RowView|
                #![trigger added.rows.contains(gone), after.rows.contains(kept)]
                added.rows.contains(gone) && !after.rows.contains(gone) ==> gone.pinned == 0 && (
                after.rows.contains(kept) && kept.pinned == 0 ==> gone.last_used_at
                    <= kept.last_used_at)
        }),
{
    let added = h.captured(kind, mime, body, preview, now);
    let after = h.insert(kind, mime, body, preview, now).0;
    let next_id = (h.last_id + 1) as i64;
    let new = history::new_row(next_id, kind, mime, body, preview, now);
    assert(added.rows =~= h.rows.push(new));
    assert(added.well_formed());
    let rows = added.rows;
    let unpinned = history::is_unpinned();
    let over = history::surplus(rows);
    let free = rows.filter(unpinned);
    let later = history::used_later();
    let by_use = order::sorted(free, later);
    let keep = history::none_of(history::is_surplus(rows));
    let most = history::MAX_HISTORY_ROWS as int;
    surplus_rows(rows);
    kept_rows(rows, keep);
    kept_rows(rows, unpinned);
    kept_rows(after.rows, unpinned);
    order::sorted_keeps_items(free, later);
    order::sorted_is_in_order(free, later);
    let left = after.rows.filter(unpinned);
    let first = order::up_to(by_use, most);
    assert forall|r: RowView| left.contains(r) implies first.contains(r) by {
        assert(after.rows.contains(r));
        assert(free.contains(r));
        assert(by_use.contains(r));
        let i = choose|i: int| 0 <= i < by_use.len() && by_use[i] == r;
        if i >= most {
            assert(over[i - most] == r);
        } else {
            assert(first[i] == r);
        }
    }
    assert(left.len() <= most) by {
        history::filter_keeps_order(rows, added.last_id, keep);
        history::filter_keeps_order(after.rows, added.last_id, unpinned);
        rows_differ(left, added.last_id);
        left.unique_seq_to_set();
        assert(left.to_set().subset_of(first.to_set())) by {
            assert forall|r: RowView| left.to_set().contains(r) implies first.to_set().contains(
                r,
            ) by {
                assert(left.contains(r));
            }
        }
        vstd::seq_lib::seq_to_set_is_finite(first);
        vstd::set_lib::lemma_len_subset(left.to_set(), first.to_set());
        first.lemma_cardinality_of_set();
    }
    assert forall|gone: RowView, kept: RowView|
        #![trigger added.rows.contains(gone), after.rows.contains(kept)]
        added.rows.contains(gone) && !after.rows.contains(gone) implies gone.pinned == 0 && (
    after.rows.contains(kept) && kept.pinned == 0 ==> gone.last_used_at <= kept.last_used_at) by {
        assert(over.contains(gone));
        let g = choose|g: int| 0 <= g < over.len() && over[g] == gone;
        assert(by_use[g + most] == gone);
        if after.rows.contains(kept) && kept.pinned == 0 {
            assert(left.contains(kept));
            assert(first.contains(kept));
            let k = choose|k: int| 0 <= k < first.len() && first[k] == kept;
            assert(by_use[k] == kept);
            assert(!later(by_use[g + most], by_use[k]));
        }
    }
}

/// What is captured is read back: unless `MAX_HISTORY_ROWS` unpinned clips were used at
/// that time or later, the clip is there under the id that was returned, with the
/// content that was handed in.
pub proof fn captured_content_is_read_back(
    h: History,
    kind: proto::ClipKind,
    mime: Seq<char>,
    body: Seq<u8>,
    preview: Seq<char>,
    now: i64,
)
    requires
        h.well_formed(),
        body.len() <= history::size_limit(kind),
        history::twin(h.rows, kind.number(), history::body_hash(body)) is None,
        h.last_id < i64::MAX,
        h.rows.len() < u32::MAX,
        h.rows.filter(|r: RowView| r.pinned == 0 && r.last_used_at >= now).len()
            < history::MAX_HISTORY_ROWS,
    ensures
        ({
            let (after, r) = h.insert(kind, mime, body, preview, now);
            &&& r is Ok
            &&& after.clip(r->Ok_0) == Some(
                proto::ClipView {
                    id: r->Ok_0,
                    kind,
                    body,
                    preview,
                    mime,
                    bytes: body.len() as u64,
                    created_at: now,
                    last_used_at: now,
                    use_count: 1,
                    pinned: false,
                },
            )
        }),
{
    let added = h.captured(kind, mime, body, preview, now);
    let after = h.insert(kind, mime, body, preview, now).0;
    let next_id = (h.last_id + 1) as i64;
    let new = history::new_row(next_id, kind, mime, body, preview, now);
    let rows = added.rows;
    let unpinned = history::is_unpinned();
    let later = history::used_later();
    let most = history::MAX_HISTORY_ROWS as int;
    assert(rows =~= h.rows.push(new));
    assert(added.well_formed());
    h.rows.lemma_filter_push(new, unpinned);
    let old_free = h.rows.filter(unpinned);
    let free = rows.filter(unpinned);
    assert(free == old_free.push(new));
    assert(free.drop_last() =~= old_free);
    let before = order::sorted(old_free, later);
    let by_use = order::sorted(free, later);
    order::sorted_is_in_order(old_free, later);
    order::sorted_keeps_items(old_free, later);
    let at = order::placed_splits(before, new, later);
    assert(by_use == before.insert(at, new));
    // Everything ahead of the new row was used at `now` or later.
    let recent = |r: RowView| r.pinned == 0 && r.last_used_at >= now;
    let ahead = before.take(at);
    history::filter_keeps_order(h.rows, h.last_id, unpinned);
    rows_differ(old_free, h.last_id);
    kept_rows(h.rows, unpinned);
    kept_rows(h.rows, recent);
    assert(before.no_duplicates()) by {
        old_free.lemma_multiset_has_no_duplicates();
        before.lemma_multiset_has_no_duplicates_conv();
    }
    let those = h.rows.filter(recent);
    assert(ahead.len() <= those.len()) by {
        assert(ahead.no_duplicates());
        ahead.unique_seq_to_set();
        assert forall|r: RowView| ahead.to_set().contains(r) implies those.to_set().contains(r) by {
            let i = choose|i: int| 0 <= i < ahead.len() && ahead[i] == r;
            assert(before[i] == r);
            assert(before.contains(r));
            assert(old_free.contains(r));
            assert(!later(new, before[i]));
            assert(those.contains(r));
        }
        assert(ahead.to_set().subset_of(those.to_set()));
        vstd::seq_lib::seq_to_set_is_finite(those);
        vstd::set_lib::lemma_len_subset(ahead.to_set(), those.to_set());
        those.lemma_cardinality_of_set();
    }
    assert(at < most);
    let keep = history::none_of(history::is_surplus(rows));
    let over = history::surplus(rows);
    assert(!over.contains(new)) by {
        if over.contains(new) {
            let k = choose|k: int| 0 <= k < over.len() && over[k] == new;
            assert(by_use[k + most] == new);
            let j = if k + most < at {
                k + most
            } else {
                k + most - 1
            };
            assert(before[j] == new);
            assert(before.contains(new));
            assert(old_free.contains(new));
            assert(h.rows.contains(new));
            let m = choose|m: int| 0 <= m < h.rows.len() && h.rows[m] == new;
            assert(h.rows[m].id <= h.last_id);
        }
    }
    kept_rows(rows, keep);
    assert(rows[rows.len() - 1] == new);
    assert(after.rows.contains(new));
    removal_keeps_history_well_formed(added, history::is_surplus(rows));
    rows.lemma_filter_len(keep);
    listed_clips_are_found(after, new);
    proto::kind_survives_its_number(kind);
}

/// Every clip of the history can be found by its id.
pub proof fn listed_clips_are_found(h: History, row: RowView)
    requires
        h.well_formed(),
        h.rows.len() <= u32::MAX,
        h.rows.contains(row),
    ensures
        h.clip(row.id) == Some(row.clip()),
{
    let list = history::listing(h.rows);
    order::sorted_keeps_items(h.rows, history::listed_ahead());
    assert(list.contains(row));
    let i = choose|i: int| 0 <= i < list.len() && list[i] == row;
    let clips = h.recent(u32::MAX);
    assert(clips.len() == list.len());
    assert(clips[i] == row.clip());
    let k = choose|k: int| 0 <= k < clips.len() && (#[trigger] clips[k]).id == row.id;
    assert(0 <= k < clips.len() && clips[k].id == row.id);
    assert(clips[k] == list[k].clip());
    assert(list.contains(list[k]));
    one_row_per_id(h, list[k], row);
}

/// An id that was given out is never given out again, also after its clip was removed.
pub proof fn ids_are_never_reused(
    h: History,
    kind: proto::ClipKind,
    mime: Seq<char>,
    body: Seq<u8>,
    preview: Seq<char>,
    id: i64,
    pinned: bool,
    now: i64,
)
    requires
        h.well_formed(),
    ensures
        ({
            let (after, r) = h.insert(kind, mime, body, preview, now);
            &&& h.last_id <= after.last_id
            &&& r matches Ok(new) ==> new == 0 || h.holds(new) || (h.last_id < new && new
                == after.last_id)
        }),
        h.touch(id, now).0.last_id == h.last_id,
        h.set_pinned(id, pinned).last_id == h.last_id,
        h.delete(id).last_id == h.last_id,
        h.clear().last_id == h.last_id,
        h.cleanup_expired(now).last_id == h.last_id,
{
    if body.len() <= history::size_limit(kind) {
        if let Some(i) = history::twin(h.rows, kind.number(), history::body_hash(body)) {
            assert(history::is_twin(h.rows, kind.number(), history::body_hash(body), i));
            assert(h.holds(h.rows[i].id));
        }
    }
}

/// Pinning and unpinning again leaves the clips as they were.
pub proof fn unpinning_undoes_pinning(h: History, id: i64)
    requires
        h.well_formed(),
        forall|i: int|
            0 <= i < h.rows.len() && (#[trigger] h.rows[i]).id == id ==> h.rows[i].pinned == 0,
    ensures
        h.set_pinned(id, true).set_pinned(id, false).rows == h.rows,
{
    let pinned = h.set_pinned(id, true);
    let again = pinned.set_pinned(id, false);
    if h.holds(id) {
        let i = choose|i: int| 0 <= i < h.rows.len() && (#[trigger] h.rows[i]).id == id;
        assert(pinned.rows[i].id == id);
        assert(pinned.holds(id));
        assert(again.rows =~= h.rows);
    }
}

/// A clip that was deleted is gone, and the others are as they were.
pub proof fn deleting_removes_one_clip(h: History, id: i64)
    requires
        h.well_formed(),
    ensures
        h.delete(id).clip(id) is None,
        !h.delete(id).holds(id),
        forall|r: RowView| #[trigger]
            h.delete(id).rows.contains(r) <==> h.rows.contains(r) && r.id != id,
{
    let after = h.delete(id);
    kept_rows(h.rows, history::none_of(history::has_id(id)));
    assert(!after.holds(id)) by {
        if after.holds(id) {
            let i = choose|i: int| 0 <= i < after.rows.len() && (#[trigger] after.rows[i]).id == id;
            assert(after.rows.contains(after.rows[i]));
        }
    }
    unknown_clips_are_not_listed(after, id);
}

/// A clip that is not in the history is not listed either.
pub proof fn unknown_clips_are_not_listed(h: History, id: i64)
    requires
        !h.holds(id),
    ensures
        h.clip(id) is None,
{
    let list = history::listing(h.rows);
    let clips = h.recent(u32::MAX);
    order::sorted_keeps_items(h.rows, history::listed_ahead());
    if exists|k: int| 0 <= k < clips.len() && (#[trigger] clips[k]).id == id {
        let k = choose|k: int| 0 <= k < clips.len() && (#[trigger] clips[k]).id == id;
        assert(clips[k] == list[k].clip());
        assert(list.contains(list[k]));
        assert(h.rows.contains(list[k]));
    }
}

/// After the history was cleared it lists nothing.
pub proof fn clearing_removes_every_clip(h: History, limit: u32)
    ensures
        h.clear().rows.len() == 0,
        h.clear().recent(limit).len() == 0,
{
    order::sorted_keeps_items(h.clear().rows, history::listed_ahead());
}

/// Recent clips are as many as asked for, or all of them. Pinned clips come before the
/// others; among clips that are pinned alike the one used last comes first; clips that
/// are left out come after those listed.
pub proof fn recent_clips_are_in_order(h: History, limit: u32)
    requires
        sound(h),
    ensures
        ({
            let clips = h.recent(limit);
            &&& clips.len() == vstd::math::min(limit as int, h.rows.len() as int)
            &&& forall|i: int, j: int|
                0 <= i < j < clips.len() && (#[trigger] clips[j]).pinned ==> (
                #[trigger] clips[i]).pinned
            &&& forall|i: int, j: int|
                0 <= i < j < clips.len() && (#[trigger] clips[i]).pinned == (
                #[trigger] clips[j]).pinned ==> clips[i].last_used_at >= clips[j].last_used_at
            &&& clips.is_prefix_of(h.recent(u32::MAX)) || h.rows.len() > u32::MAX
            &&& forall|r: RowView|
                h.rows.contains(r) && h.rows.len() <= limit ==> #[trigger] clips.contains(r.clip())
        }),
{
    let ahead = history::listed_ahead();
    let list = history::listing(h.rows);
    let clips = h.recent(limit);
    order::sorted_keeps_items(h.rows, ahead);
    order::sorted_is_in_order(h.rows, ahead);
    assert forall|i: int| 0 <= i < clips.len() implies clips[i] == (#[trigger] list[i]).clip()
        && sound_row(list[i]) by {
        assert(list.contains(list[i]));
        assert(h.rows.contains(list[i]));
    }
    assert forall|i: int, j: int| 0 <= i < j < clips.len() && (
    #[trigger] clips[j]).pinned implies (#[trigger] clips[i]).pinned by {
        assert(!ahead(list[j], list[i]));
    }
    assert forall|i: int, j: int|
        0 <= i < j < clips.len() && (#[trigger] clips[i]).pinned == (
        #[trigger] clips[j]).pinned implies clips[i].last_used_at >= clips[j].last_used_at by {
        assert(!ahead(list[j], list[i]));
    }
    if h.rows.len() <= u32::MAX {
        assert(clips =~= h.recent(u32::MAX).subrange(0, clips.len() as int));
    }
    assert forall|r: RowView| h.rows.contains(r) && h.rows.len() <= limit implies #[trigger] clips.contains(
        r.clip(),
    ) by {
        assert(list.contains(r));
        let i = choose|i: int| 0 <= i < list.len() && list[i] == r;
        assert(clips[i] == r.clip());
    }
}

/// A clip that is used rises: after a use that is later than every other, only clips
/// that are pinned higher come before it.
pub proof fn used_clips_rise(h: History, id: i64, now: i64, at: int)
    requires
        h.well_formed(),
        h.holds(id),
        !h.count_at_end(id),
        forall|i: int|
            0 <= i < h.rows.len() && (#[trigger] h.rows[i]).id != id ==> h.rows[i].last_used_at
                < now,
        0 <= at < history::listing(h.touch(id, now).0.rows).len(),
        history::listing(h.touch(id, now).0.rows)[at].id == id,
    ensures
        ({
            let list = history::listing(h.touch(id, now).0.rows);
            forall|i: int| 0 <= i < at ==> (#[trigger] list[i]).pinned > list[at].pinned
        }),
{
    let after = h.touch(id, now).0;
    let ahead = history::listed_ahead();
    let list = history::listing(after.rows);
    order::sorted_keeps_items(after.rows, ahead);
    order::sorted_is_in_order(after.rows, ahead);
    assert forall|r: RowView| after.rows.contains(r) implies (r.id == id ==> r.last_used_at == now)
        && (r.id != id ==> r.last_used_at < now) by {
        let i = choose|i: int| 0 <= i < after.rows.len() && after.rows[i] == r;
        assert(after.rows[i].id == h.rows[i].id);
    }
    assert(after.rows.no_duplicates()) by {
        assert forall|i: int, j: int| 0 <= i < j < after.rows.len() implies after.rows[i]
            != after.rows[j] by {
            assert(h.rows[i].id < h.rows[j].id);
        }
    }
    assert(list.no_duplicates()) by {
        after.rows.lemma_multiset_has_no_duplicates();
        list.lemma_multiset_has_no_duplicates_conv();
    }
    assert forall|i: int| 0 <= i < at implies (#[trigger] list[i]).pinned > list[at].pinned by {
        assert(list.contains(list[i]) && list.contains(list[at]));
        assert(after.rows.contains(list[i]) && after.rows.contains(list[at]));
        assert(!ahead(list[at], list[i]));
        if list[i].id == id {
            let a = choose|a: int| 0 <= a < after.rows.len() && after.rows[a] == list[i];
            let b = choose|b: int| 0 <= b < after.rows.len() && after.rows[b] == list[at];
            assert(after.rows[a].id == h.rows[a].id && after.rows[b].id == h.rows[b].id);
            if a < b {
                assert(h.rows[a].id < h.rows[b].id);
            } else if b < a {
                assert(h.rows[b].id < h.rows[a].id);
            }
            assert(list[i] == list[at]);
        }
    }
}

/// What is matched are rows of the table that a hit names, with its rank; and every hit
/// that names a row is matched.
proof fn matches_are_the_rows_named(rows: Seq<RowView>, hits: Seq<Hit>)
    ensures
        forall|i: int|
            0 <= i < history::matched(rows, hits).len() ==> is_named(
                rows,
                hits,
                #[trigger] history::matched(rows, hits)[i],
            ),
        forall|k: int, r: int|
            0 <= k < hits.len() && 0 <= r < rows.len() && (#[trigger] hits[k]).id == (
            #[trigger] rows[r]).id ==> exists|i: int|
                0 <= i < history::matched(rows, hits).len() && (#[trigger] history::matched(
                    rows,
                    hits,
                )[i]).row.id == hits[k].id && history::matched(rows, hits)[i].rank
                    == hits[k].rank,
        history::matched(rows, hits).len() <= hits.len(),
    decreases hits.len(),
{
    if hits.len() > 0 {
        let front = hits.drop_last();
        let hit = hits.last();
        let before = history::matched(rows, front);
        let now = history::matched(rows, hits);
        matches_are_the_rows_named(rows, front);
        assert forall|i: int| 0 <= i < now.len() implies is_named(
            rows,
            hits,
            #[trigger] now[i],
        ) by {
            if i < before.len() {
                assert(now[i] == before[i]);
                assert(is_named(rows, front, before[i]));
                let k = choose|k: int|
                    0 <= k < front.len() && (#[trigger] front[k]).id == before[i].row.id
                        && front[k].rank == before[i].rank;
                assert(hits[k] == front[k]);
            } else {
                assert(hits[hits.len() - 1] == hit);
            }
        }
        assert forall|k: int, r: int|
            0 <= k < hits.len() && 0 <= r < rows.len() && (#[trigger] hits[k]).id == (
            #[trigger] rows[r]).id implies exists|i: int|
            0 <= i < now.len() && (#[trigger] now[i]).row.id == hits[k].id && now[i].rank
                == hits[k].rank by {
            if k < front.len() {
                assert(front[k] == hits[k]);
                let i = choose|i: int|
                    0 <= i < before.len() && (#[trigger] before[i]).row.id == hits[k].id
                        && before[i].rank == hits[k].rank;
                assert(now[i] == before[i]);
            } else {
                assert(now[now.len() - 1].row.id == hits[k].id);
            }
        }
    }
}

/// The match is a row of the table that one of the hits names, with the rank of the hit.
pub open spec fn is_named(rows: Seq<RowView>, hits: Seq<Hit>, m: Match) -> bool {
    &&& rows.contains(m.row)
    &&& exists|k: int|
        0 <= k < hits.len() && (#[trigger] hits[k]).id == m.row.id && hits[k].rank == m.rank
}

/// The matches, the best ones first.
spec fn best_matches(h: History, hits: Seq<Hit>) -> Seq<Match> {
    order::sorted(history::matched(h.rows, hits), history::found_ahead())
}

proof fn best_matches_are_in_order(h: History, hits: Seq<Hit>)
    requires
        sound(h),
    ensures
        order::in_order(best_matches(h, hits), history::found_ahead()),
        forall|i: int|
            0 <= i < best_matches(h, hits).len() ==> sound_row((#[trigger] best_matches(h, hits)[i]).row),
{
    let all = history::matched(h.rows, hits);
    let best = best_matches(h, hits);
    order::sorted_is_in_order(all, history::found_ahead());
    best_matches_are_the_rows_named(h, hits);
    assert forall|i: int| 0 <= i < best.len() implies sound_row((#[trigger] best[i]).row) by {
        assert(is_named(h.rows, hits, best[i]));
        let r = choose|r: int| 0 <= r < h.rows.len() && h.rows[r] == best[i].row;
        assert(sound_row(h.rows[r]));
    }
}

proof fn best_matches_are_the_rows_named(h: History, hits: Seq<Hit>)
    ensures
        forall|i: int|
            0 <= i < best_matches(h, hits).len() ==> is_named(
                h.rows,
                hits,
                #[trigger] best_matches(h, hits)[i],
            ),
        forall|k: int|
            0 <= k < hits.len() && h.holds((#[trigger] hits[k]).id) ==> exists|i: int|
                0 <= i < best_matches(h, hits).len() && (#[trigger] best_matches(
                    h,
                    hits,
                )[i]).row.id == hits[k].id && best_matches(h, hits)[i].rank == hits[k].rank,
{
    let all = history::matched(h.rows, hits);
    let best = best_matches(h, hits);
    order::sorted_keeps_items(all, history::found_ahead());
    matches_are_the_rows_named(h.rows, hits);
    assert forall|i: int| 0 <= i < best.len() implies is_named(
        h.rows,
        hits,
        #[trigger] best[i],
    ) by {
        assert(best.contains(best[i]));
        assert(all.contains(best[i]));
        let k = choose|k: int| 0 <= k < all.len() && all[k] == best[i];
        assert(is_named(h.rows, hits, all[k]));
    }
    assert forall|k: int| 0 <= k < hits.len() && h.holds((#[trigger] hits[k]).id) implies exists|
        i: int,
    |
        0 <= i < best.len() && (#[trigger] best[i]).row.id == hits[k].id && best[i].rank
            == hits[k].rank by {
        let r = choose|r: int| 0 <= r < h.rows.len() && (#[trigger] h.rows[r]).id == hits[k].id;
        assert(h.rows[r].id == hits[k].id);
        let m = choose|m: int|
            0 <= m < all.len() && (#[trigger] all[m]).row.id == hits[k].id && all[m].rank
                == hits[k].rank;
        assert(all.contains(all[m]));
        assert(best.contains(all[m]));
        let i = choose|i: int| 0 <= i < best.len() && best[i] == all[m];
        assert(best[i].row.id == hits[k].id);
    }
}

/// A search gives the clips that the index named: `best` holds them all with their ranks,
/// and as many as asked for are returned. Pinned clips come before the others, then the
/// better match, and among equal matches the clip used last.
pub proof fn found_clips_are_in_order(h: History, hits: Seq<Hit>, limit: u32) -> (best: Seq<Match>)
    requires
        sound(h),
    ensures
        ({
            let clips = h.search(hits, limit);
            &&& clips.len() == vstd::math::min(limit as int, best.len() as int)
            &&& forall|i: int| 0 <= i < clips.len() ==> #[trigger] clips[i] == best[i].row.clip()
        }),
        forall|i: int| 0 <= i < best.len() ==> is_named(h.rows, hits, #[trigger] best[i]),
        forall|k: int|
            0 <= k < hits.len() && h.holds((#[trigger] hits[k]).id) ==> exists|i: int|
                0 <= i < best.len() && (#[trigger] best[i]).row.id == hits[k].id && best[i].rank
                    == hits[k].rank,
        forall|i: int, j: int|
            0 <= i < j < best.len() ==> {
                let (a, b) = (#[trigger] best[i], #[trigger] best[j]);
                &&& b.row.pinned != 0 ==> a.row.pinned != 0
                &&& a.row.pinned == b.row.pinned ==> a.rank <= b.rank
                &&& a.row.pinned == b.row.pinned && a.rank == b.rank ==> a.row.last_used_at
                    >= b.row.last_used_at
            },
{
    let best = best_matches(h, hits);
    best_matches_are_the_rows_named(h, hits);
    best_matches_are_in_order(h, hits);
    assert forall|i: int, j: int| 0 <= i < j < best.len() implies ({
        let (a, b) = (#[trigger] best[i], #[trigger] best[j]);
        &&& b.row.pinned != 0 ==> a.row.pinned != 0
        &&& a.row.pinned == b.row.pinned ==> a.rank <= b.rank
        &&& a.row.pinned == b.row.pinned && a.rank == b.rank ==> a.row.last_used_at
            >= b.row.last_used_at
    }) by {
        assert(!history::found_ahead()(best[j], best[i]));
        assert(sound_row(best[i].row) && sound_row(best[j].row));
    }
    best
}

proof fn listed_rows_differ(h: History)
    requires
        h.well_formed(),
    ensures
        history::listing(h.rows).no_duplicates(),
{
    rows_differ(h.rows, h.last_id);
    order::sorted_keeps_items(h.rows, history::listed_ahead());
    h.rows.lemma_multiset_has_no_duplicates();
    history::listing(h.rows).lemma_multiset_has_no_duplicates_conv();
}

/// Each clip that is listed is that of a row of the table, with every byte of its body and
/// all else that the row holds; and no clip is listed twice.
pub proof fn listed_clips_show_their_rows(h: History, limit: u32, i: int, j: int) -> (row: RowView)
    requires
        sound(h),
        0 <= i < h.recent(limit).len(),
    ensures
        h.rows.contains(row),
        ({
            let c = h.recent(limit)[i];
            &&& c.id == row.id
            &&& c.kind.number() == row.kind
            &&& c.body == row.body
            &&& c.preview == row.preview
            &&& c.mime == row.mime
            &&& c.bytes == row.body.len()
            &&& c.created_at == row.created_at
            &&& c.last_used_at == row.last_used_at
            &&& row.use_count <= u32::MAX ==> c.use_count == row.use_count
            &&& c.pinned == (row.pinned == 1)
        }),
        0 <= j < h.recent(limit).len() && i != j ==> h.recent(limit)[j].id != h.recent(
            limit,
        )[i].id,
{
    let list = history::listing(h.rows);
    let clips = h.recent(limit);
    order::sorted_keeps_items(h.rows, history::listed_ahead());
    listed_rows_differ(h);
    let row = list[i];
    assert(clips[i] == row.clip());
    assert(list.contains(row));
    let k = choose|k: int| 0 <= k < h.rows.len() && h.rows[k] == row;
    assert(sound_row(h.rows[k]));
    if 0 <= j < clips.len() && i != j {
        assert(clips[j] == list[j].clip());
        assert(list.contains(list[j]));
        if list[j].id == row.id {
            one_row_per_id(h, list[j], row);
        }
    }
    row
}

/// A use counts one more for the clip that is used, and sets when it was last used. Nothing
/// else of it changes, and no other row.
pub proof fn a_use_changes_count_and_time(h: History, id: i64, now: i64, i: int)
    requires
        h.well_formed(),
        !h.count_at_end(id),
        0 <= i < h.rows.len(),
    ensures
        ({
            let (after, r) = h.touch(id, now);
            let (a, b) = (h.rows[i], after.rows[i]);
            &&& r is Ok
            &&& after.rows.len() == h.rows.len()
            &&& a.id == b.id && a.kind == b.kind && a.mime == b.mime && a.body == b.body
            &&& a.preview == b.preview && a.hash == b.hash && a.bytes == b.bytes
            &&& a.created_at == b.created_at && a.pinned == b.pinned
            &&& a.id == id ==> b.last_used_at == now && b.use_count == a.use_count + 1
            &&& a.id != id ==> b.last_used_at == a.last_used_at && b.use_count == a.use_count
        }),
{
    if h.rows[i].id == id {
        assert(h.holds(id));
        assert(h.rows[i].use_count < i64::MAX);
    }
}

/// Pinning sets the pin of one clip. Nothing else of it changes, and no other row.
pub proof fn pinning_changes_one_pin(h: History, id: i64, pinned: bool, i: int)
    requires
        0 <= i < h.rows.len(),
    ensures
        ({
            let after = h.set_pinned(id, pinned);
            let (a, b) = (h.rows[i], after.rows[i]);
            &&& after.rows.len() == h.rows.len()
            &&& a.id == b.id && a.kind == b.kind && a.mime == b.mime && a.body == b.body
            &&& a.preview == b.preview && a.hash == b.hash && a.bytes == b.bytes
            &&& a.created_at == b.created_at && a.last_used_at == b.last_used_at
            &&& a.use_count == b.use_count
            &&& a.id == id ==> (b.pinned != 0) == pinned
            &&& a.id != id ==> b.pinned == a.pinned
        }),
{
    if h.rows[i].id == id {
        assert(h.holds(id));
    }
}

/// A capture adds at most one row.
pub proof fn captures_add_at_most_one_row(
    h: History,
    kind: proto::ClipKind,
    mime: Seq<char>,
    body: Seq<u8>,
    preview: Seq<char>,
    now: i64,
)
    ensures
        h.insert(kind, mime, body, preview, now).0.rows.len() <= h.rows.len() + 1,
{
    if h.last_id < i64::MAX {
        let added = h.captured(kind, mime, body, preview, now);
        added.rows.lemma_filter_len(history::none_of(history::is_surplus(added.rows)));
    }
}

/// The step of the hash can be undone: it multiplies by an odd number.
proof fn one_step_is_undone(v: int)
    requires
        0 <= v < 0x1_0000_0000_0000_0000,
    ensures
        ((v * 0x100000001b3) % 0x1_0000_0000_0000_0000 * 0xce965057aff6957b)
            % 0x1_0000_0000_0000_0000 == v,
{
    let m: int = 0x1_0000_0000_0000_0000;
    let p: int = 0x100000001b3;
    let q: int = 0xce965057aff6957b;
    let k: int = 887285111055;
    vstd::arithmetic::div_mod::lemma_mul_mod_noop_left(v * p, q, m);
    assert(p * q == k * m + 1);
    assert(v * p * q == (v * k) * m + v) by (nonlinear_arith)
        requires
            p * q == k * m + 1,
    ;
    vstd::arithmetic::div_mod::lemma_fundamental_div_mod_converse(v * p * q, m, v * k, v);
}

proof fn steps_tell_apart(x: u64, y: u64)
    requires
        (x * 0x100000001b3) % 0x1_0000_0000_0000_0000 == (y * 0x100000001b3)
            % 0x1_0000_0000_0000_0000,
    ensures
        x == y,
{
    one_step_is_undone(x as int);
    one_step_is_undone(y as int);
}

proof fn hashes_stay_apart(a: Seq<u8>, b: Seq<u8>, behind: Seq<u8>)
    requires
        history::fnv1a(a) != history::fnv1a(b),
    ensures
        history::fnv1a(a + behind) != history::fnv1a(b + behind),
    decreases behind.len(),
{
    if behind.len() == 0 {
        assert(a + behind =~= a && b + behind =~= b);
    } else {
        let front = behind.drop_last();
        let c = behind.last() as u64;
        hashes_stay_apart(a, b, front);
        assert((a + behind).drop_last() =~= a + front);
        assert((b + behind).drop_last() =~= b + front);
        let x = history::fnv1a(a + front);
        let y = history::fnv1a(b + front);
        if history::fnv1a(a + behind) == history::fnv1a(b + behind) {
            steps_tell_apart(x ^ c, y ^ c);
            assert(x == y) by (bit_vector)
                requires
                    x ^ c == y ^ c,
            ;
        }
    }
}

/// Contents that differ in one byte have different hashes, so they are never taken for the
/// same: no byte of the content is passed over, however long it is.
pub proof fn every_byte_counts_in_the_hash(before: Seq<u8>, a: u8, b: u8, behind: Seq<u8>)
    ensures
        history::body_hash(before.push(a) + behind) == history::body_hash(before.push(b) + behind)
            <==> a == b,
{
    if a != b {
        let (s, t) = (before.push(a), before.push(b));
        assert(s.drop_last() =~= before && t.drop_last() =~= before);
        let x = history::fnv1a(before);
        let (c, d) = (a as u64, b as u64);
        if history::fnv1a(s) == history::fnv1a(t) {
            steps_tell_apart(x ^ c, x ^ d);
            assert(c == d) by (bit_vector)
                requires
                    x ^ c == x ^ d,
            ;
        }
        hashes_stay_apart(s, t, behind);
        let (u, v) = (history::fnv1a(s + behind), history::fnv1a(t + behind));
        if u as i64 == v as i64 {
            assert(u == v) by (bit_vector)
                requires
                    u as i64 == v as i64,
            ;
        }
    }
}

/// The hash is that of FNV-1a, 64 bits wide: it begins with the offset basis, and each byte is
/// mixed in by an exclusive or and a multiplication by the prime. It is stored as a signed
/// number of the same bits.
pub proof fn the_hash_is_fnv1a(before: Seq<u8>, b: u8)
    ensures
        history::fnv1a(Seq::empty()) == 14695981039346656037,
        history::fnv1a(before.push(b)) == (history::fnv1a(before) ^ b as u64) * 1099511628211
            % 18446744073709551616,
        history::body_hash(before) as u64 == history::fnv1a(before),
{
    assert(before.push(b).drop_last() =~= before);
    let x = history::fnv1a(before);
    assert((x as i64) as u64 == x) by (bit_vector);
}

/// Images of up to eight mebibytes and other content of up to one are captured, under a new id
/// or as a use of the clip that has it, unless this is refused. Nothing longer is.
pub proof fn captures_have_their_limits(
    h: History,
    kind: proto::ClipKind,
    mime: Seq<char>,
    body: Seq<u8>,
    preview: Seq<char>,
    now: i64,
)
    requires
        h.well_formed(),
    ensures
        ({
            let (after, r) = h.insert(kind, mime, body, preview, now);
            let limit: nat = if kind == proto::ClipKind::Image {
                8 * 1024 * 1024
            } else {
                1024 * 1024
            };
            &&& body.len() > limit ==> after == h
            &&& body.len() <= limit ==> r is Ok ==> after.last_id == h.last_id + 1 || after.rows
                != h.rows
            &&& body.len() <= limit ==> r is Err ==> after == h
        }),
{
    let (after, r) = h.insert(kind, mime, body, preview, now);
    if body.len() <= history::size_limit(kind) && r is Ok {
        match history::twin(h.rows, kind.number(), history::body_hash(body)) {
            Some(i) => {
                assert(history::is_twin(h.rows, kind.number(), history::body_hash(body), i));
                let id = h.rows[i].id;
                assert(h.holds(id));
                assert(!h.count_at_end(id));
                assert(h.rows[i].use_count != i64::MAX);
                assert(after.rows[i] == h.rows[i].used(now));
                assert(after.rows[i].use_count != h.rows[i].use_count);
            },
            None => {},
        }
    }
}

/// A day without use is allowed, and not a second more: cleaning up removes exactly the
/// unpinned clips that were last used longer ago.
pub proof fn unused_clips_stay_for_a_day(h: History, now: i64, row: RowView)
    requires
        h.well_formed(),
        h.rows.contains(row),
    ensures
        h.cleanup_expired(now).rows.contains(row) <==> row.pinned != 0 || now - row.last_used_at
            <= 24 * 60 * 60,
{
    cleanup_removes_the_expired(h, now);
}

/// The rows in the order of their use are as different as the rows are.
proof fn rows_by_use_differ(rows: Seq<RowView>)
    requires
        rows.no_duplicates(),
    ensures
        order::sorted(rows, history::used_later()).no_duplicates(),
{
    let by_use = order::sorted(rows, history::used_later());
    order::sorted_keeps_items(rows, history::used_later());
    rows.lemma_multiset_has_no_duplicates();
    by_use.lemma_multiset_has_no_duplicates_conv();
}

/// Clips are dropped only to make room: up to two thousand unpinned clips are all kept when one
/// more is captured, and where there are more, as many are left.
pub proof fn two_thousand_unpinned_clips_are_kept(
    h: History,
    kind: proto::ClipKind,
    mime: Seq<char>,
    body: Seq<u8>,
    preview: Seq<char>,
    now: i64,
)
    requires
        h.well_formed(),
        body.len() <= history::size_limit(kind),
        forall|i: int|
            0 <= i < h.rows.len() ==> (#[trigger] h.rows[i]).kind != kind.number()
                || h.rows[i].hash != history::body_hash(body),
        h.last_id < i64::MAX,
    ensures
        ({
            let after = h.insert(kind, mime, body, preview, now).0;
            let unpinned = |r: RowView| r.pinned == 0;
            let before = h.rows.filter(unpinned).len();
            &&& before < 2000 ==> after.rows.drop_last() == h.rows && after.rows.len()
                == h.rows.len() + 1
            &&& before < 2000 ==> after.rows.filter(unpinned).len() == before + 1
            &&& before >= 2000 ==> after.rows.filter(unpinned).len() == 2000
        }),
{
    assert(history::twin(h.rows, kind.number(), history::body_hash(body)) is None) by {
        if exists|i: int|
            history::is_twin(h.rows, kind.number(), history::body_hash(body), i) {
            let i = choose|i: int|
                history::is_twin(h.rows, kind.number(), history::body_hash(body), i);
            assert(h.rows[i].kind == kind.number());
        }
    }
    captures_keep_the_history_short(h, kind, mime, body, preview, now);
    let unpinned = |r: RowView| r.pinned == 0;
    assert(unpinned =~= history::is_unpinned());
    let added = h.captured(kind, mime, body, preview, now);
    let after = h.insert(kind, mime, body, preview, now).0;
    let next_id = (h.last_id + 1) as i64;
    let new = history::new_row(next_id, kind, mime, body, preview, now);
    assert(added.rows =~= h.rows.push(new));
    assert(added.well_formed());
    let rows = added.rows;
    let free = rows.filter(unpinned);
    let later = history::used_later();
    let by_use = order::sorted(free, later);
    let keep = history::none_of(history::is_surplus(rows));
    h.rows.lemma_filter_push(new, unpinned);
    order::sorted_keeps_items(free, later);
    if free.len() <= 2000 {
        assert forall|i: int| 0 <= i < rows.len() implies keep(#[trigger] rows[i]) by {
            assert(history::surplus(rows) =~= Seq::<RowView>::empty());
        }
        nothing_dropped(rows, keep);
        assert(after.rows.drop_last() =~= h.rows);
    } else {
        let left = after.rows.filter(unpinned);
        let first = by_use.take(2000);
        let over = history::surplus(rows);
        history::filter_keeps_order(rows, added.last_id, unpinned);
        rows_differ(free, added.last_id);
        rows_by_use_differ(free);
        kept_rows(rows, keep);
        kept_rows(rows, unpinned);
        kept_rows(after.rows, unpinned);
        assert forall|r: RowView| first.contains(r) implies left.contains(r) by {
            let i = choose|i: int| 0 <= i < first.len() && first[i] == r;
            assert(by_use[i] == r);
            assert(by_use.contains(r));
            assert(free.contains(r));
            if over.contains(r) {
                let g = choose|g: int| 0 <= g < over.len() && over[g] == r;
                assert(by_use[g + 2000] == r);
            }
            assert(keep(r));
            assert(after.rows.contains(r));
        }
        assert(first.no_duplicates());
        first.unique_seq_to_set();
        assert(first.to_set().subset_of(left.to_set())) by {
            assert forall|r: RowView| first.to_set().contains(r) implies left.to_set().contains(
                r,
            ) by {
                assert(first.contains(r));
            }
        }
        vstd::seq_lib::seq_to_set_is_finite(left);
        vstd::set_lib::lemma_len_subset(first.to_set(), left.to_set());
        left.lemma_cardinality_of_set();
    }
}

/// A clip is found by its whole text, and an image by what is said of it.
pub proof fn the_whole_text_is_searched(
    id: i64,
    kind: proto::ClipKind,
    mime: Seq<char>,
    body: Seq<u8>,
    preview: Seq<char>,
    now: i64,
)
    ensures
        ({
            let row = history::new_row(id, kind, mime, body, preview, now);
            &&& kind != proto::ClipKind::Image ==> history::indexed(row)
                == crate::classify::lossy_text(body)
            &&& kind == proto::ClipKind::Image ==> history::indexed(row) == preview
        }),
{
    proto::kind_survives_its_number(kind);
}

} // verus!
