//! The model of clipboard history: what each operation does to the table of clips.

use crate::classify;
use crate::order;
use crate::proto::{ClipKind, ClipView};
use vstd::prelude::*;

verus! {

/// A text clip longer than this in bytes is too big to keep.
pub const MAX_TEXT_BYTES: usize = 1_048_576;

/// An image longer than this in bytes is too big to keep.
pub const MAX_IMAGE_BYTES: usize = 8_388_608;

/// How many unpinned clips the history keeps.
pub const MAX_HISTORY_ROWS: usize = 2000;

/// Unpinned clips that were not used for longer than this are dropped.
pub const TTL_SECONDS: i64 = 86_400;

/// Why an operation on the history could not be done.
#[derive(Debug, Clone, Copy, PartialEq, Eq, Structural)]
pub enum StoreError {
    /// Every id has been given out.
    OutOfIds,
    /// The use count of the clip is at its end.
    CountExhausted,
}

/// A row of the history table.
#[verifier::ext_equal]
pub struct RowView {
    pub id: i64,
    pub kind: i64,
    pub mime: Seq<char>,
    pub body: Seq<u8>,
    pub preview: Seq<char>,
    pub hash: i64,
    pub bytes: i64,
    pub created_at: i64,
    pub last_used_at: i64,
    pub use_count: i64,
    pub pinned: i64,
}

/// A step that brings a saved copy of the table up to date.
#[verifier::ext_equal]
pub enum ChangeView {
    Add { row: RowView },
    Use { id: i64, last_used_at: i64 },
    Pin { id: i64, pinned: bool },
    Remove { id: i64 },
    RemoveAll,
}

/// The table of clips, the largest id ever given out, and the steps taken since the
/// table was last saved.
#[verifier::ext_equal]
pub struct History {
    pub rows: Seq<RowView>,
    pub last_id: i64,
    pub changes: Seq<ChangeView>,
}

/// FNV-1a, 64 bits wide.
pub open spec fn fnv1a(data: Seq<u8>) -> u64
    decreases data.len(),
{
    if data.len() == 0 {
        0xcbf29ce484222325
    } else {
        (((fnv1a(data.drop_last()) ^ (data.last() as u64)) * 0x100000001b3)
            % 0x1_0000_0000_0000_0000) as u64
    }
}

/// The hash by which clips with the same body are found.
pub open spec fn body_hash(body: Seq<u8>) -> i64 {
    fnv1a(body) as i64
}

/// The longest body that a clip of this kind may have.
pub open spec fn size_limit(kind: ClipKind) -> nat {
    if kind == ClipKind::Image {
        MAX_IMAGE_BYTES as nat
    } else {
        MAX_TEXT_BYTES as nat
    }
}

impl RowView {
    /// The row after a use at `now`.
    pub open spec fn used(self, now: i64) -> RowView {
        RowView { last_used_at: now, use_count: (self.use_count + 1) as i64, ..self }
    }

    /// The row after it was pinned or unpinned.
    pub open spec fn with_pin(self, pinned: bool) -> RowView {
        RowView {
            pinned: if pinned {
                1
            } else {
                0
            },
            ..self
        }
    }

    /// The clip that the row holds.
    pub open spec fn clip(self) -> ClipView {
        ClipView {
            id: self.id,
            kind: ClipKind::numbered(self.kind),
            body: self.body,
            preview: self.preview,
            mime: self.mime,
            bytes: self.bytes as u64,
            created_at: self.created_at,
            last_used_at: self.last_used_at,
            use_count: self.use_count as u32,
            pinned: self.pinned != 0,
        }
    }
}

/// The text by which full-text search finds the row: the whole text that it holds, and what
/// is said of it where it holds an image.
pub open spec fn indexed(row: RowView) -> Seq<char> {
    if ClipKind::numbered(row.kind) == ClipKind::Image {
        row.preview
    } else {
        classify::lossy_text(row.body)
    }
}

/// The row of a clip that is captured at `now`.
pub open spec fn new_row(
    id: i64,
    kind: ClipKind,
    mime: Seq<char>,
    body: Seq<u8>,
    preview: Seq<char>,
    now: i64,
) -> RowView {
    RowView {
        id,
        kind: kind.number(),
        mime,
        body,
        preview,
        hash: body_hash(body),
        bytes: body.len() as i64,
        created_at: now,
        last_used_at: now,
        use_count: 1,
        pinned: 0,
    }
}

/// Pinned rows come first, and among rows that are pinned alike the one used last.
pub open spec fn listed_ahead() -> spec_fn(RowView, RowView) -> bool {
    |a: RowView, b: RowView|
        a.pinned > b.pinned || (a.pinned == b.pinned && a.last_used_at > b.last_used_at)
}

/// The row used last comes first.
pub open spec fn used_later() -> spec_fn(RowView, RowView) -> bool {
    |a: RowView, b: RowView| a.last_used_at > b.last_used_at
}

pub open spec fn is_unpinned() -> spec_fn(RowView) -> bool {
    |r: RowView| r.pinned == 0
}

/// The rows in the order in which they are shown.
pub open spec fn listing(rows: Seq<RowView>) -> Seq<RowView> {
    order::sorted(rows, listed_ahead())
}

/// The unpinned rows beyond those that the history keeps: all but the ones used last.
pub open spec fn surplus(rows: Seq<RowView>) -> Seq<RowView> {
    let by_use = order::sorted(rows.filter(is_unpinned()), used_later());
    if by_use.len() > MAX_HISTORY_ROWS {
        by_use.skip(MAX_HISTORY_ROWS as int)
    } else {
        Seq::empty()
    }
}

pub open spec fn is_surplus(rows: Seq<RowView>) -> spec_fn(RowView) -> bool {
    |r: RowView| surplus(rows).contains(r)
}

/// Unpinned and not used since `cutoff`.
pub open spec fn is_expired(cutoff: int) -> spec_fn(RowView) -> bool {
    |r: RowView| r.pinned == 0 && r.last_used_at < cutoff
}

pub open spec fn has_id(id: i64) -> spec_fn(RowView) -> bool {
    |r: RowView| r.id == id
}

pub open spec fn none_of(p: spec_fn(RowView) -> bool) -> spec_fn(RowView) -> bool {
    |r: RowView| !p(r)
}

/// The steps that remove the rows for which `gone` holds.
pub open spec fn removals(rows: Seq<RowView>, gone: spec_fn(RowView) -> bool) -> Seq<ChangeView> {
    rows.filter(gone).map_values(|r: RowView| ChangeView::Remove { id: r.id })
}

/// Row `i` is the one that a new capture of the same content is merged into: of the
/// rows of that kind and hash the one used last, the first of them where several were.
pub open spec fn is_twin(rows: Seq<RowView>, kind: i64, hash: i64, i: int) -> bool {
    &&& 0 <= i < rows.len()
    &&& rows[i].kind == kind && rows[i].hash == hash
    &&& forall|j: int|
        0 <= j < rows.len() && (#[trigger] rows[j]).kind == kind && rows[j].hash == hash
            ==> rows[j].last_used_at < rows[i].last_used_at || (rows[j].last_used_at
            == rows[i].last_used_at && i <= j)
}

pub open spec fn twin(rows: Seq<RowView>, kind: i64, hash: i64) -> Option<int> {
    if exists|i: int| is_twin(rows, kind, hash, i) {
        Some(choose|i: int| is_twin(rows, kind, hash, i))
    } else {
        None
    }
}

/// A row that full-text search found; smaller ranks are better matches.
#[derive(Debug, Clone, Copy)]
pub struct Hit {
    pub id: i64,
    pub rank: i64,
}

/// A row that was found, and the rank of the match.
pub struct Match {
    pub row: RowView,
    pub rank: i64,
}

/// Pinned rows come first, then the better match, then the row used last.
pub open spec fn found_ahead() -> spec_fn(Match, Match) -> bool {
    |a: Match, b: Match|
        a.row.pinned > b.row.pinned || (a.row.pinned == b.row.pinned && (a.rank < b.rank || (
        a.rank == b.rank && a.row.last_used_at > b.row.last_used_at)))
}

/// The rows that `hits` names, in its order; ids that no row has are passed over.
pub open spec fn matched(rows: Seq<RowView>, hits: Seq<Hit>) -> Seq<Match>
    decreases hits.len(),
{
    if hits.len() == 0 {
        Seq::empty()
    } else {
        let before = matched(rows, hits.drop_last());
        let hit = hits.last();
        if exists|i: int| 0 <= i < rows.len() && (#[trigger] rows[i]).id == hit.id {
            let i = choose|i: int| 0 <= i < rows.len() && (#[trigger] rows[i]).id == hit.id;
            before.push(Match { row: rows[i], rank: hit.rank })
        } else {
            before
        }
    }
}

/// `rows` after the step `change`.
pub open spec fn stepped(rows: Seq<RowView>, change: ChangeView) -> Seq<RowView> {
    match change {
        ChangeView::Add { row } => rows.push(row),
        ChangeView::Use { id, last_used_at } => rows.map_values(
            |r: RowView|
                if r.id == id {
                    r.used(last_used_at)
                } else {
                    r
                },
        ),
        ChangeView::Pin { id, pinned } => rows.map_values(
            |r: RowView|
                if r.id == id {
                    r.with_pin(pinned)
                } else {
                    r
                },
        ),
        ChangeView::Remove { id } => rows.filter(none_of(has_id(id))),
        ChangeView::RemoveAll => Seq::empty(),
    }
}

/// `rows` after the steps of `changes`, in order.
pub open spec fn replayed(rows: Seq<RowView>, changes: Seq<ChangeView>) -> Seq<RowView>
    decreases changes.len(),
{
    if changes.len() == 0 {
        rows
    } else {
        stepped(replayed(rows, changes.drop_last()), changes.last())
    }
}

/// Each row has a smaller id than the rows behind it, and none an id beyond `last_id`.
pub open spec fn ids_in_order(rows: Seq<RowView>, last_id: i64) -> bool {
    &&& forall|i: int, j: int|
        0 <= i < j < rows.len() ==> (#[trigger] rows[i]).id < (#[trigger] rows[j]).id
    &&& forall|i: int| 0 <= i < rows.len() ==> (#[trigger] rows[i]).id <= last_id
}

/// Ids count from 1.
pub open spec fn ids_count_from_one(rows: Seq<RowView>) -> bool {
    forall|i: int| 0 <= i < rows.len() ==> 1 <= (#[trigger] rows[i]).id
}

impl History {
    /// Rows stand in the order of their ids, and no id is beyond the last one given out.
    pub open spec fn well_formed(self) -> bool {
        0 <= self.last_id && ids_in_order(self.rows, self.last_id)
    }

    pub open spec fn holds(self, id: i64) -> bool {
        exists|i: int| 0 <= i < self.rows.len() && (#[trigger] self.rows[i]).id == id
    }

    /// The clip `id` was used as often as can be counted.
    pub open spec fn count_at_end(self, id: i64) -> bool {
        exists|i: int|
            0 <= i < self.rows.len() && (#[trigger] self.rows[i]).id == id
                && self.rows[i].use_count == i64::MAX
    }

    /// The history after the step `change`.
    pub open spec fn after(self, change: ChangeView) -> History {
        History {
            rows: stepped(self.rows, change),
            changes: self.changes.push(change),
            ..self
        }
    }

    /// The history without the rows for which `gone` holds.
    pub open spec fn without(self, gone: spec_fn(RowView) -> bool) -> History {
        History {
            rows: self.rows.filter(none_of(gone)),
            changes: self.changes + removals(self.rows, gone),
            ..self
        }
    }

    /// The history with a clip that is captured at `now` under the next id.
    pub open spec fn captured(
        self,
        kind: ClipKind,
        mime: Seq<char>,
        body: Seq<u8>,
        preview: Seq<char>,
        now: i64,
    ) -> History {
        let id = (self.last_id + 1) as i64;
        let row = new_row(id, kind, mime, body, preview, now);
        History { last_id: id, ..self }.after(ChangeView::Add { row })
    }

    /// The history without the unpinned rows that are too many.
    pub open spec fn within_limit(self) -> History {
        self.without(is_surplus(self.rows))
    }

    /// A use of the clip `id` at `now`.
    pub open spec fn touch(self, id: i64, now: i64) -> (History, Result<(), StoreError>) {
        if self.count_at_end(id) {
            (self, Err(StoreError::CountExhausted))
        } else if self.holds(id) {
            (self.after(ChangeView::Use { id, last_used_at: now }), Ok(()))
        } else {
            (self, Ok(()))
        }
    }

    /// A capture at `now`: content that is too big is skipped, content that is there
    /// already counts as a use of its clip, and other content is added.
    pub open spec fn insert(
        self,
        kind: ClipKind,
        mime: Seq<char>,
        body: Seq<u8>,
        preview: Seq<char>,
        now: i64,
    ) -> (History, Result<i64, StoreError>) {
        if body.len() > size_limit(kind) {
            (self, Ok(0))
        } else {
            match twin(self.rows, kind.number(), body_hash(body)) {
                Some(i) => {
                    let id = self.rows[i].id;
                    let (next, r) = self.touch(id, now);
                    match r {
                        Ok(_) => (next, Ok(id)),
                        Err(e) => (next, Err(e)),
                    }
                },
                None => if self.last_id == i64::MAX {
                    (self, Err(StoreError::OutOfIds))
                } else {
                    let next = self.captured(kind, mime, body, preview, now);
                    (next.within_limit(), Ok(next.last_id))
                },
            }
        }
    }

    /// Pins or unpins the clip `id`.
    pub open spec fn set_pinned(self, id: i64, pinned: bool) -> History {
        if self.holds(id) {
            self.after(ChangeView::Pin { id, pinned })
        } else {
            self
        }
    }

    /// Removes the clip `id`.
    pub open spec fn delete(self, id: i64) -> History {
        self.without(has_id(id))
    }

    /// Removes every clip.
    pub open spec fn clear(self) -> History {
        self.after(ChangeView::RemoveAll)
    }

    /// Removes the unpinned clips that have not been used for too long.
    pub open spec fn cleanup_expired(self, now: i64) -> History {
        self.without(is_expired(now - TTL_SECONDS))
    }

    /// The first `limit` clips in the order in which they are shown.
    pub open spec fn recent(self, limit: u32) -> Seq<ClipView> {
        order::up_to(listing(self.rows), limit as int).map_values(|r: RowView| r.clip())
    }

    /// The first `limit` of the clips that `hits` names, the best ones first.
    pub open spec fn search(self, hits: Seq<Hit>, limit: u32) -> Seq<ClipView> {
        order::up_to(order::sorted(matched(self.rows, hits), found_ahead()), limit as int).map_values(
            |m: Match| m.row.clip(),
        )
    }

    /// The clip `id`, if it is among those that can be listed.
    pub open spec fn clip(self, id: i64) -> Option<ClipView> {
        let clips = self.recent(u32::MAX);
        if exists|i: int| 0 <= i < clips.len() && (#[trigger] clips[i]).id == id {
            Some(clips[choose|i: int| 0 <= i < clips.len() && (#[trigger] clips[i]).id == id])
        } else {
            None
        }
    }
}

/// Dropping rows leaves the ids of the others in order.
pub proof fn filter_keeps_order(rows: Seq<RowView>, last_id: i64, keep: spec_fn(RowView) -> bool)
    requires
        ids_in_order(rows, last_id),
    ensures
        ids_in_order(rows.filter(keep), last_id),
    decreases rows.len(),
{
    rows.lemma_filter_len(keep);
    if rows.len() > 0 {
        let front = rows.drop_last();
        assert forall|i: int| 0 <= i < front.len() implies (#[trigger] front[i]).id
            <= last_id by {
            assert(front[i] == rows[i]);
        }
        assert forall|i: int, j: int| 0 <= i < j < front.len() implies (#[trigger] front[i]).id < (
        #[trigger] front[j]).id by {
            assert(front[i] == rows[i] && front[j] == rows[j]);
        }
        filter_keeps_order(front, last_id, keep);
        let kept = front.filter(keep);
        assert(rows =~= front.push(rows.last()));
        front.lemma_filter_push(rows.last(), keep);
        assert forall|i: int| 0 <= i < kept.len() implies (#[trigger] kept[i]).id
            < rows.last().id by {
            assert(kept.contains(kept[i]));
            front.lemma_filter_contains_rev(keep, kept[i]);
            let j = choose|j: int| 0 <= j < front.len() && front[j] == kept[i];
            assert(rows[j] == kept[i]);
        }
    }
}

} // verus!
