//! The clipboard history.
//!
//! A [`Store`] holds the table of clips in memory and notes every step that a saved
//! copy of the table has to take to stay equal to it.

use crate::classify::utf8_text_lossy;
use crate::clock;
use crate::clock::unix_now;
use crate::history;
use crate::history::{
    ChangeView, History, Hit, Match, RowView, StoreError, MAX_HISTORY_ROWS, MAX_IMAGE_BYTES,
    MAX_TEXT_BYTES, TTL_SECONDS,
};
use crate::history_laws;
use crate::order;
use crate::order::{sort, SortKey};
use crate::proto;
use crate::proto::{Clip, ClipKind, ClipView};
use vstd::prelude::*;

verus! {

/// A row of the history table, column by column.
#[derive(Debug)]
pub struct Row {
    pub id: i64,
    pub kind: i64,
    pub mime: String,
    pub body: Vec<u8>,
    pub preview: String,
    pub hash: i64,
    pub bytes: i64,
    pub created_at: i64,
    pub last_used_at: i64,
    pub use_count: i64,
    pub pinned: i64,
}

impl View for Row {
    type V = RowView;

    open spec fn view(&self) -> RowView {
        RowView {
            id: self.id,
            kind: self.kind,
            mime: self.mime@,
            body: self.body@,
            preview: self.preview@,
            hash: self.hash,
            bytes: self.bytes,
            created_at: self.created_at,
            last_used_at: self.last_used_at,
            use_count: self.use_count,
            pinned: self.pinned,
        }
    }
}

/// A step that brings a saved copy of the table up to date.
#[derive(Debug)]
pub enum Change {
    /// Add the row.
    Add { row: Row },
    /// Note a use of the row: set `last_used_at` and count one use more.
    Use { id: i64, last_used_at: i64 },
    /// Pin or unpin the row.
    Pin { id: i64, pinned: bool },
    /// Remove the row.
    Remove { id: i64 },
    /// Remove every row.
    RemoveAll,
}

impl View for Change {
    type V = ChangeView;

    open spec fn view(&self) -> ChangeView {
        match self {
            Change::Add { row } => ChangeView::Add { row: row@ },
            Change::Use { id, last_used_at } => ChangeView::Use {
                id: *id,
                last_used_at: *last_used_at,
            },
            Change::Pin { id, pinned } => ChangeView::Pin { id: *id, pinned: *pinned },
            Change::Remove { id } => ChangeView::Remove { id: *id },
            Change::RemoveAll => ChangeView::RemoveAll,
        }
    }
}

/// What the rows of `v` hold.
pub open spec fn row_views(v: Seq<Row>) -> Seq<RowView> {
    Seq::new(v.len(), |i: int| v[i]@)
}

/// What the changes of `v` hold.
pub open spec fn change_views(v: Seq<Change>) -> Seq<ChangeView> {
    Seq::new(v.len(), |i: int| v[i]@)
}

/// The clipboard history, and the steps that a saved copy of it has yet to take.
pub struct Store {
    rows: Vec<Row>,
    last_id: i64,
    changes: Vec<Change>,
}

impl View for Store {
    type V = History;

    closed spec fn view(&self) -> History {
        History {
            rows: row_views(self.rows@),
            last_id: self.last_id,
            changes: change_views(self.changes@),
        }
    }
}

/// FNV-1a, 64 bits wide.
pub fn xxhash(data: &[u8]) -> (h: u64)
    ensures
        h == history::fnv1a(data@),
{
    let mut h: u64 = 0xcbf29ce484222325;
    for i in 0..data.len()
        invariant
            h == history::fnv1a(data@.take(i as int)),
    {
        proof {
            let upto = data@.take(i + 1);
            assert(upto.drop_last() =~= data@.take(i as int));
        }
        h = (h ^ (data[i] as u64)).wrapping_mul(0x100000001b3);
    }
    assert(data@.take(data@.len() as int) =~= data@);
    h
}

/// The clip that a row holds.
pub fn row_to_clip(row: &Row) -> (clip: Clip)
    ensures
        clip@ == row@.clip(),
{
    let body = copy_bytes(row.body.as_slice());
    Clip {
        id: row.id,
        kind: ClipKind::from_number(row.kind),
        body,
        preview: row.preview.clone(),
        mime: row.mime.clone(),
        bytes: #[verifier::truncate] (row.bytes as u64),
        created_at: row.created_at,
        last_used_at: row.last_used_at,
        use_count: #[verifier::truncate] (row.use_count as u32),
        pinned: row.pinned != 0,
    }
}

/// The text by which full-text search finds the row: the whole text that it holds, and what
/// is said of it where it holds an image.
pub fn indexed_text(row: &Row) -> (text: String)
    ensures
        text@ == history::indexed(row@),
        ClipKind::numbered(row.kind) != ClipKind::Image && vstd::utf8::valid_utf8(row.body@)
            ==> text@ == vstd::utf8::decode_utf8(row.body@),
{
    if ClipKind::from_number(row.kind) == ClipKind::Image {
        row.preview.clone()
    } else {
        utf8_text_lossy(row.body.as_slice())
    }
}

/// A copy of `bytes`.
pub fn copy_bytes(bytes: &[u8]) -> (copy: Vec<u8>)
    ensures
        copy@ == bytes@,
{
    let mut copy: Vec<u8> = Vec::new();
    copy.extend_from_slice(bytes);
    assert(copy@ =~= bytes@);
    copy
}

/// What decides where a row is listed, and where the row stands in the table.
#[derive(Clone, Copy)]
struct ListKey {
    pinned: i64,
    last_used_at: i64,
    at: usize,
}

impl SortKey for ListKey {
    closed spec fn ahead(self, other: ListKey) -> bool {
        self.pinned > other.pinned || (self.pinned == other.pinned && self.last_used_at
            > other.last_used_at)
    }

    fn is_ahead(&self, other: &ListKey) -> (b: bool) {
        self.pinned > other.pinned || (self.pinned == other.pinned && self.last_used_at
            > other.last_used_at)
    }
}

/// When a row was last used, and where it stands in the table.
#[derive(Clone, Copy)]
struct UseKey {
    last_used_at: i64,
    at: usize,
}

impl SortKey for UseKey {
    closed spec fn ahead(self, other: UseKey) -> bool {
        self.last_used_at > other.last_used_at
    }

    fn is_ahead(&self, other: &UseKey) -> (b: bool) {
        self.last_used_at > other.last_used_at
    }
}

/// What decides how good a match is, and where the row stands in the table.
#[derive(Clone, Copy)]
struct MatchKey {
    pinned: i64,
    rank: i64,
    last_used_at: i64,
    at: usize,
}

impl SortKey for MatchKey {
    closed spec fn ahead(self, other: MatchKey) -> bool {
        self.pinned > other.pinned || (self.pinned == other.pinned && (self.rank < other.rank || (
        self.rank == other.rank && self.last_used_at > other.last_used_at)))
    }

    fn is_ahead(&self, other: &MatchKey) -> (b: bool) {
        self.pinned > other.pinned || (self.pinned == other.pinned && (self.rank < other.rank || (
        self.rank == other.rank && self.last_used_at > other.last_used_at)))
    }
}

impl Store {
    /// The rows in the order in which they are shown.
    fn listed(&self) -> (keys: Vec<ListKey>)
        ensures
            keys@.len() == self@.rows.len(),
            forall|i: int|
                0 <= i < keys@.len() ==> (#[trigger] keys@[i]).at < self@.rows.len()
                    && self@.rows[keys@[i].at as int] == history::listing(self@.rows)[i],
            history::listing(self@.rows).len() == self@.rows.len(),
    {
        let ghost rows = self@.rows;
        let ghost item = |k: ListKey| rows[k.at as int];
        let mut keys: Vec<ListKey> = Vec::new();
        for i in 0..self.rows.len()
            invariant
                rows == self@.rows,
                keys@.len() == i,
                forall|j: int|
                    0 <= j < i ==> (#[trigger] keys@[j]).at == j && keys@[j].pinned
                        == rows[j].pinned && keys@[j].last_used_at == rows[j].last_used_at,
        {
            assert(rows[i as int] == self.rows@[i as int]@);
            keys.push(
                ListKey {
                    pinned: self.rows[i].pinned,
                    last_used_at: self.rows[i].last_used_at,
                    at: i,
                },
            );
        }
        let order = sort(keys.as_slice());
        proof {
            order::sorted_by_keys(keys@, item, order::key_order::<ListKey>(), history::listed_ahead());
            order::sorted_keeps_items(keys@, order::key_order::<ListKey>());
            assert(keys@.map_values(item) =~= rows);
            assert forall|i: int| 0 <= i < order@.len() implies (#[trigger] order@[i]).at
                < rows.len() && rows[order@[i].at as int] == history::listing(rows)[i] by {
                assert(order@.contains(order@[i]));
                assert(keys@.contains(order@[i]));
                assert(order@.map_values(item)[i] == item(order@[i]));
            }
            assert(order@.map_values(item).len() == order@.len());
        }
        order
    }

    /// The first `limit` clips: the pinned ones first, each group newest first.
    pub fn recent(&self, limit: u32) -> (clips: Vec<Clip>)
        ensures
            proto::clip_views(clips@) == self@.recent(limit),
    {
        let keys = self.listed();
        let n: usize = if keys.len() > limit as usize {
            limit as usize
        } else {
            keys.len()
        };
        let mut clips: Vec<Clip> = Vec::new();
        for i in 0..n
            invariant
                n <= keys@.len() == history::listing(self@.rows).len(),
                clips@.len() == i,
                forall|j: int|
                    0 <= j < keys@.len() ==> (#[trigger] keys@[j]).at < self@.rows.len()
                        && self@.rows[keys@[j].at as int] == history::listing(self@.rows)[j],
                forall|j: int|
                    0 <= j < i ==> (#[trigger] clips@[j])@ == history::listing(self@.rows)[j].clip(),
        {
            let at = keys[i].at;
            assert(self@.rows[at as int] == self.rows@[at as int]@);
            clips.push(row_to_clip(&self.rows[at]));
        }
        assert(proto::clip_views(clips@) =~= self@.recent(limit));
        clips
    }

    /// Where the row `id` stands if it is among the rows that can be listed.
    fn listed_position(&self, id: i64) -> (at: Option<usize>)
        requires
            self@.well_formed(),
        ensures
            match at {
                Some(i) => i < self@.rows.len() && self@.clip(id) == Some(
                    self@.rows[i as int].clip(),
                ) && self@.rows[i as int].id == id,
                None => self@.clip(id) is None,
            },
    {
        let keys = self.listed();
        let most: usize = u32::MAX as usize;
        let n: usize = if keys.len() > most {
            most
        } else {
            keys.len()
        };
        let ghost clips = self@.recent(u32::MAX);
        assert(clips.len() == n);
        for i in 0..n
            invariant
                clips == self@.recent(u32::MAX),
                clips.len() == n <= keys@.len() == history::listing(self@.rows).len() == self@.rows.len(),
                self@.well_formed(),
                forall|j: int|
                    0 <= j < keys@.len() ==> (#[trigger] keys@[j]).at < self@.rows.len()
                        && self@.rows[keys@[j].at as int] == history::listing(self@.rows)[j],
                forall|j: int| 0 <= j < i ==> (#[trigger] clips[j]).id != id,
        {
            let at = keys[i].at;
            assert(self@.rows[at as int] == self.rows@[at as int]@);
            assert(clips[i as int] == history::listing(self@.rows)[i as int].clip());
            if self.rows[at].id == id {
                proof {
                    assert(clips[i as int].id == id);
                    let found = choose|k: int| 0 <= k < clips.len() && (#[trigger] clips[k]).id == id;
                    assert(clips[found] == history::listing(self@.rows)[found].clip());
                    let other = keys@[found].at;
                    assert(self@.rows[other as int].id == id);
                    assert(other == at);
                }
                return Some(at);
            }
        }
        None
    }

    /// The clip `id`.
    pub fn clip(&self, id: i64) -> (clip: Option<Clip>)
        requires
            self@.well_formed(),
        ensures
            match clip {
                Some(c) => self@.clip(id) == Some(c@),
                None => self@.clip(id) is None,
            },
    {
        match self.listed_position(id) {
            Some(i) => {
                assert(self@.rows[i as int] == self.rows@[i as int]@);
                Some(row_to_clip(&self.rows[i]))
            },
            None => None,
        }
    }

    /// The first `limit` of the clips that `hits` names: the pinned ones first, then the
    /// better match, then the clip used last.
    pub fn search(&self, hits: &[Hit], limit: u32) -> (clips: Vec<Clip>)
        requires
            self@.well_formed(),
        ensures
            proto::clip_views(clips@) == self@.search(hits@, limit),
    {
        let ghost rows = self@.rows;
        let ghost item = |k: MatchKey| Match { row: rows[k.at as int], rank: k.rank };
        let mut keys: Vec<MatchKey> = Vec::new();
        for h in 0..hits.len()
            invariant
                self@.well_formed(),
                rows == self@.rows,
                item == (|k: MatchKey| Match { row: rows[k.at as int], rank: k.rank }),
                keys@.map_values(item) == history::matched(rows, hits@.take(h as int)),
                forall|j: int|
                    0 <= j < keys@.len() ==> (#[trigger] keys@[j]).at < rows.len()
                        && keys@[j].pinned == rows[keys@[j].at as int].pinned
                        && keys@[j].last_used_at == rows[keys@[j].at as int].last_used_at,
        {
            let hit = hits[h];
            proof {
                let upto = hits@.take(h + 1);
                assert(upto.drop_last() =~= hits@.take(h as int));
                assert(upto.last() == hit);
            }
            match self.position(hit.id) {
                Some(at) => {
                    assert(rows[at as int] == self.rows@[at as int]@);
                    let ghost had = keys@;
                    let key = MatchKey {
                        pinned: self.rows[at].pinned,
                        rank: hit.rank,
                        last_used_at: self.rows[at].last_used_at,
                        at,
                    };
                    keys.push(key);
                    proof {
                        let i = choose|i: int|
                            0 <= i < rows.len() && (#[trigger] rows[i]).id == hit.id;
                        assert(i == at);
                        assert(had.push(key).map_values(item) =~= had.map_values(item).push(
                            item(key),
                        ));
                    }
                },
                None => {
                    assert(!self@.holds(hit.id));
                },
            }
        }
        assert(hits@.take(hits@.len() as int) =~= hits@);
        let order = sort(keys.as_slice());
        proof {
            order::sorted_by_keys(keys@, item, order::key_order::<MatchKey>(), history::found_ahead());
            order::sorted_keeps_items(keys@, order::key_order::<MatchKey>());
            assert forall|i: int| 0 <= i < order@.len() implies (#[trigger] order@[i]).at
                < rows.len() by {
                assert(order@.contains(order@[i]));
                assert(keys@.contains(order@[i]));
            }
        }
        let n: usize = if order.len() > limit as usize {
            limit as usize
        } else {
            order.len()
        };
        let mut clips: Vec<Clip> = Vec::new();
        for i in 0..n
            invariant
                n <= order@.len(),
                rows == self@.rows,
                clips@.len() == i,
                forall|j: int| 0 <= j < order@.len() ==> (#[trigger] order@[j]).at < rows.len(),
                forall|j: int|
                    0 <= j < i ==> (#[trigger] clips@[j])@ == rows[order@[j].at as int].clip(),
        {
            let at = order[i].at;
            assert(self@.rows[at as int] == self.rows@[at as int]@);
            clips.push(row_to_clip(&self.rows[at]));
        }
        proof {
            let best = order::sorted(history::matched(rows, hits@), history::found_ahead());
            assert(order@.map_values(item) == best);
            assert forall|j: int| 0 <= j < n implies (#[trigger] clips@[j])@
                == best[j].row.clip() by {
                assert(order@.map_values(item)[j] == item(order@[j]));
            }
            assert(best.len() == order@.len());
            assert(proto::clip_views(clips@) =~= self@.search(hits@, limit));
        }
        clips
    }

    /// Where the row `id` stands.
    fn position(&self, id: i64) -> (at: Option<usize>)
        ensures
            match at {
                Some(i) => i < self@.rows.len() && self@.rows[i as int].id == id,
                None => !self@.holds(id),
            },
    {
        for i in 0..self.rows.len()
            invariant
                forall|j: int| 0 <= j < i ==> (#[trigger] self@.rows[j]).id != id,
        {
            assert(self@.rows[i as int].id == self.rows@[i as int].id);
            if self.rows[i].id == id {
                return Some(i);
            }
        }
        None
    }

    /// Notes a use of the clip `id` at `now`.
    pub fn touch_at(&mut self, id: i64, now: i64) -> (r: Result<(), StoreError>)
        requires
            old(self)@.well_formed(),
        ensures
            (final(self)@, r) == old(self)@.touch(id, now),
            final(self)@.well_formed(),
            history_laws::sound(old(self)@) ==> history_laws::sound(final(self)@),
    {
        proof {
            if history_laws::sound(self@) {
                history_laws::operations_keep_the_history_sound(
                    self@,
                    ClipKind::Text,
                    Seq::empty(),
                    Seq::empty(),
                    Seq::empty(),
                    id,
                    false,
                    now,
                );
            }
        }
        match self.position(id) {
            Some(i) => {
                assert(self@.rows[i as int] == self.rows@[i as int]@);
                if self.rows[i].use_count == i64::MAX {
                    return Err(StoreError::CountExhausted);
                }
                self.rows[i].last_used_at = now;
                self.rows[i].use_count = self.rows[i].use_count + 1;
                self.changes.push(Change::Use { id, last_used_at: now });
                proof {
                    let before = old(self)@;
                    let change = ChangeView::Use { id, last_used_at: now };
                    assert(before.holds(id));
                    assert(!before.count_at_end(id));
                    assert(self@.rows =~= history::stepped(before.rows, change));
                    assert(self@.changes =~= before.changes.push(change));
                }
                Ok(())
            },
            None => {
                assert(!self@.count_at_end(id));
                Ok(())
            },
        }
    }

    /// Removes the marked rows, which are those for which `gone` holds.
    fn remove_marked(&mut self, marks: &Vec<bool>, Ghost(gone): Ghost<spec_fn(RowView) -> bool>)
        requires
            old(self)@.well_formed(),
            marks@.len() == old(self)@.rows.len(),
            forall|i: int|
                0 <= i < marks@.len() ==> #[trigger] marks@[i] == gone(old(self)@.rows[i]),
        ensures
            final(self)@ == old(self)@.without(gone),
            final(self)@.well_formed(),
    {
        let ghost before = self@;
        let ghost rows = before.rows;
        let n = self.rows.len();
        for i in 0..n
            invariant
                n == rows.len() == marks@.len(),
                rows == before.rows,
                self@.rows == rows,
                self@.last_id == before.last_id,
                forall|j: int| 0 <= j < marks@.len() ==> #[trigger] marks@[j] == gone(rows[j]),
                self@.changes == before.changes + history::removals(rows.take(i as int), gone),
        {
            let ghost noted = self@.changes;
            let ghost upto = rows.take(i as int);
            proof {
                assert(rows.take(i + 1) =~= upto.push(rows[i as int]));
                upto.lemma_filter_push(rows[i as int], gone);
                assert(rows[i as int] == self.rows@[i as int]@);
            }
            if marks[i] {
                let id = self.rows[i].id;
                self.changes.push(Change::Remove { id });
                assert(self@.changes =~= noted.push(ChangeView::Remove { id }));
                assert(history::removals(rows.take(i + 1), gone) =~= history::removals(upto, gone).push(
                    ChangeView::Remove { id },
                ));
            }
        }
        assert(rows.take(n as int) =~= rows);
        let mut i: usize = n;
        let ghost keep = history::none_of(gone);
        assert(rows.skip(n as int).filter(keep) =~= Seq::<RowView>::empty());
        assert(rows =~= rows.take(n as int) + rows.skip(n as int).filter(keep));
        while i > 0
            invariant
                i <= n == rows.len() == marks@.len(),
                keep == history::none_of(gone),
                self@.last_id == before.last_id,
                forall|j: int| 0 <= j < marks@.len() ==> #[trigger] marks@[j] == gone(rows[j]),
                self@.changes == before.changes + history::removals(rows, gone),
                self@.rows == rows.take(i as int) + rows.skip(i as int).filter(keep),
            decreases i,
        {
            i = i - 1;
            let ghost now = self@.rows;
            let ghost held = self.rows@;
            proof {
                let x = rows[i as int];
                let rest = rows.skip(i + 1);
                assert(rows.skip(i as int) =~= seq![x] + rest);
                Seq::filter_distributes_over_add(seq![x], rest, keep);
                let none = Seq::<RowView>::empty();
                none.lemma_filter_len(keep);
                none.lemma_filter_push(x, keep);
                assert(seq![x] =~= none.push(x));
                assert(seq![x].filter(keep) =~= if keep(x) {
                    seq![x]
                } else {
                    none
                });
                assert(rows.take(i + 1) =~= rows.take(i as int).push(x));
                assert(now.len() >= i + 1);
                assert(now.len() == held.len());
            }
            if marks[i] {
                self.rows.remove(i);
                assert(self@.rows =~= now.remove(i as int));
            }
            assert(self@.rows =~= rows.take(i as int) + rows.skip(i as int).filter(keep));
        }
        proof {
            assert(rows.skip(0) =~= rows);
            assert(self@.rows =~= rows.filter(keep));
            history::filter_keeps_order(rows, before.last_id, keep);
        }
    }

    /// Removes the clip `id`.
    pub fn delete(&mut self, id: i64)
        requires
            old(self)@.well_formed(),
        ensures
            final(self)@ == old(self)@.delete(id),
            final(self)@.well_formed(),
            history_laws::sound(old(self)@) ==> history_laws::sound(final(self)@),
    {
        proof {
            if history_laws::sound(self@) {
                history_laws::operations_keep_the_history_sound(
                    self@,
                    ClipKind::Text,
                    Seq::empty(),
                    Seq::empty(),
                    Seq::empty(),
                    id,
                    false,
                    0,
                );
            }
        }
        let mut marks: Vec<bool> = Vec::new();
        for i in 0..self.rows.len()
            invariant
                marks@.len() == i,
                forall|j: int| 0 <= j < i ==> #[trigger] marks@[j] == history::has_id(id)(self@.rows[j]),
        {
            assert(self@.rows[i as int] == self.rows@[i as int]@);
            marks.push(self.rows[i].id == id);
        }
        self.remove_marked(&marks, Ghost(history::has_id(id)));
    }

    /// Removes every clip. Their ids are not given out again.
    pub fn clear(&mut self)
        requires
            old(self)@.well_formed(),
        ensures
            final(self)@ == old(self)@.clear(),
            final(self)@.well_formed(),
            history_laws::sound(old(self)@) ==> history_laws::sound(final(self)@),
    {
        proof {
            if history_laws::sound(self@) {
                history_laws::operations_keep_the_history_sound(
                    self@,
                    ClipKind::Text,
                    Seq::empty(),
                    Seq::empty(),
                    Seq::empty(),
                    0,
                    false,
                    0,
                );
            }
        }
        self.rows.clear();
        self.changes.push(Change::RemoveAll);
        proof {
            assert(self@.rows =~= Seq::<RowView>::empty());
            assert(self@.changes =~= old(self)@.changes.push(ChangeView::RemoveAll));
        }
    }

    /// Removes the unpinned clips that were last used more than a day before `now`, and
    /// says how many there were.
    pub fn cleanup_expired_at(&mut self, now: i64) -> (n: usize)
        requires
            old(self)@.well_formed(),
        ensures
            final(self)@ == old(self)@.cleanup_expired(now),
            final(self)@.well_formed(),
            history_laws::sound(old(self)@) ==> history_laws::sound(final(self)@),
            n == old(self)@.rows.len() - final(self)@.rows.len(),
    {
        proof {
            if history_laws::sound(self@) {
                history_laws::operations_keep_the_history_sound(
                    self@,
                    ClipKind::Text,
                    Seq::empty(),
                    Seq::empty(),
                    Seq::empty(),
                    0,
                    false,
                    now,
                );
            }
        }
        let cutoff: i128 = now as i128 - TTL_SECONDS as i128;
        let ghost gone = history::is_expired(cutoff as int);
        let mut marks: Vec<bool> = Vec::new();
        for i in 0..self.rows.len()
            invariant
                gone == history::is_expired(cutoff as int),
                marks@.len() == i,
                forall|j: int| 0 <= j < i ==> #[trigger] marks@[j] == gone(self@.rows[j]),
        {
            assert(self@.rows[i as int] == self.rows@[i as int]@);
            marks.push(self.rows[i].pinned == 0 && (self.rows[i].last_used_at as i128) < cutoff);
        }
        let before: usize = self.rows.len();
        let ghost rows = self@.rows;
        self.remove_marked(&marks, Ghost(gone));
        proof {
            rows.lemma_filter_len(history::none_of(gone));
        }
        before - self.rows.len()
    }

    /// Pins or unpins the clip `id`.
    pub fn set_pinned(&mut self, id: i64, pinned: bool)
        requires
            old(self)@.well_formed(),
        ensures
            final(self)@ == old(self)@.set_pinned(id, pinned),
            final(self)@.well_formed(),
            history_laws::sound(old(self)@) ==> history_laws::sound(final(self)@),
    {
        proof {
            if history_laws::sound(self@) {
                history_laws::operations_keep_the_history_sound(
                    self@,
                    ClipKind::Text,
                    Seq::empty(),
                    Seq::empty(),
                    Seq::empty(),
                    id,
                    pinned,
                    0,
                );
            }
        }
        if let Some(i) = self.position(id) {
            assert(self@.rows[i as int] == self.rows@[i as int]@);
            self.rows[i].pinned = if pinned {
                1
            } else {
                0
            };
            self.changes.push(Change::Pin { id, pinned });
            proof {
                let before = old(self)@;
                let change = ChangeView::Pin { id, pinned };
                assert(before.holds(id));
                assert(self@.rows =~= history::stepped(before.rows, change));
                assert(self@.changes =~= before.changes.push(change));
            }
        }
    }

    /// Where the row stands that a new capture of the same content is merged into.
    fn twin_of(&self, kind: i64, hash: i64) -> (at: Option<usize>)
        ensures
            match at {
                Some(i) => i < self@.rows.len() && history::twin(self@.rows, kind, hash) == Some(i as int),
                None => history::twin(self@.rows, kind, hash) is None,
            },
    {
        let ghost rows = self@.rows;
        let mut best: Option<usize> = None;
        for i in 0..self.rows.len()
            invariant
                rows == self@.rows,
                match best {
                    Some(b) => b < i && history::is_twin(rows.take(i as int), kind, hash, b as int),
                    None => forall|j: int|
                        0 <= j < i ==> !((#[trigger] rows[j]).kind == kind && rows[j].hash == hash),
                },
        {
            let ghost upto = rows.take(i + 1);
            let ghost had = rows.take(i as int);
            proof {
                assert(rows[i as int] == self.rows@[i as int]@);
                assert(forall|j: int| 0 <= j < i ==> upto[j] == #[trigger] had[j]);
                assert(forall|j: int| 0 <= j < i ==> upto[j] == #[trigger] rows[j]);
                assert(upto[i as int] == rows[i as int]);
            }
            if self.rows[i].kind == kind && self.rows[i].hash == hash {
                match best {
                    Some(b) => {
                        assert(rows[b as int] == self.rows@[b as int]@);
                        assert(had[b as int] == rows[b as int]);
                        if self.rows[b].last_used_at < self.rows[i].last_used_at {
                            best = Some(i);
                        }
                    },
                    None => {
                        best = Some(i);
                    },
                }
            }
            proof {
                if let Some(b) = best {
                    assert forall|j: int|
                        0 <= j < upto.len() && (#[trigger] upto[j]).kind == kind && upto[j].hash
                            == hash implies upto[j].last_used_at < upto[b as int].last_used_at || (
                    upto[j].last_used_at == upto[b as int].last_used_at && b <= j) by {
                        if j < i {
                            assert(upto[j] == had[j]);
                        }
                    }
                    assert(history::is_twin(upto, kind, hash, b as int));
                }
            }
        }
        proof {
            assert(rows.take(rows.len() as int) =~= rows);
            match best {
                Some(b) => {
                    assert(history::is_twin(rows, kind, hash, b as int));
                    let c = choose|i: int| history::is_twin(rows, kind, hash, i);
                    assert(history::is_twin(rows, kind, hash, c));
                    assert(c == b);
                },
                None => {
                    assert forall|i: int| !history::is_twin(rows, kind, hash, i) by {
                        if 0 <= i < rows.len() {
                            assert(!(rows[i].kind == kind && rows[i].hash == hash));
                        }
                    }
                },
            }
        }
        best
    }

    /// Removes the unpinned clips that are too many.
    fn trim(&mut self)
        requires
            old(self)@.well_formed(),
        ensures
            final(self)@ == old(self)@.within_limit(),
            final(self)@.well_formed(),
    {
        let ghost rows = self@.rows;
        let ghost item = |k: UseKey| rows[k.at as int];
        let ghost free = history::is_unpinned();
        let ghost last_id = self@.last_id;
        let mut keys: Vec<UseKey> = Vec::new();
        let mut marks: Vec<bool> = Vec::new();
        for i in 0..self.rows.len()
            invariant
                rows == self@.rows,
                item == (|k: UseKey| rows[k.at as int]),
                free == history::is_unpinned(),
                marks@.len() == i,
                forall|j: int| 0 <= j < i ==> !(#[trigger] marks@[j]),
                keys@.map_values(item) == rows.take(i as int).filter(free),
                forall|j: int|
                    0 <= j < keys@.len() ==> (#[trigger] keys@[j]).at < rows.len()
                        && keys@[j].last_used_at == rows[keys@[j].at as int].last_used_at,
        {
            proof {
                let upto = rows.take(i as int);
                assert(rows[i as int] == self.rows@[i as int]@);
                assert(rows.take(i + 1) =~= upto.push(rows[i as int]));
                upto.lemma_filter_push(rows[i as int], free);
            }
            marks.push(false);
            if self.rows[i].pinned == 0 {
                let ghost had = keys@;
                let key = UseKey { last_used_at: self.rows[i].last_used_at, at: i };
                keys.push(key);
                assert(had.push(key).map_values(item) =~= had.map_values(item).push(item(key)));
            }
        }
        let order = sort(keys.as_slice());
        let ghost by_use = order::sorted(rows.filter(free), history::used_later());
        proof {
            assert(rows.take(rows.len() as int) =~= rows);
            order::sorted_by_keys(keys@, item, order::key_order::<UseKey>(), history::used_later());
            order::sorted_keeps_items(keys@, order::key_order::<UseKey>());
            assert(order@.map_values(item) == by_use);
            assert(order@.len() == by_use.len());
            assert forall|i: int| 0 <= i < order@.len() implies (#[trigger] order@[i]).at
                < rows.len() && rows[order@[i].at as int] == by_use[i] by {
                assert(order@.contains(order@[i]));
                assert(keys@.contains(order@[i]));
                assert(order@.map_values(item)[i] == item(order@[i]));
            }
        }
        let ghost over = history::surplus(rows);
        let mut k: usize = MAX_HISTORY_ROWS;
        while k < order.len()
            invariant
                MAX_HISTORY_ROWS <= k,
                k <= order@.len() || k == MAX_HISTORY_ROWS,
                order@.len() == by_use.len(),
                marks@.len() == rows.len(),
                forall|i: int|
                    0 <= i < order@.len() ==> (#[trigger] order@[i]).at < rows.len()
                        && rows[order@[i].at as int] == by_use[i],
                history::ids_in_order(rows, last_id),
                forall|i: int|
                    0 <= i < rows.len() ==> (#[trigger] marks@[i] <==> exists|j: int|
                        MAX_HISTORY_ROWS <= j < k && j < by_use.len() && #[trigger] by_use[j]
                            == rows[i]),
            decreases order@.len() - k,
        {
            let at = order[k].at;
            let ghost had = marks@;
            marks.set(at, true);
            proof {
                assert forall|i: int| 0 <= i < rows.len() implies (#[trigger] marks@[i]
                    <==> exists|j: int|
                    MAX_HISTORY_ROWS <= j < k + 1 && j < by_use.len() && #[trigger] by_use[j]
                        == rows[i]) by {
                    if i == at {
                        assert(by_use[k as int] == rows[i]);
                    } else {
                        assert(marks@[i] == had[i]);
                        if by_use[k as int] == rows[i] {
                            assert(rows[at as int].id == rows[i].id);
                        }
                        if exists|j: int|
                            MAX_HISTORY_ROWS <= j < k + 1 && j < by_use.len()
                                && #[trigger] by_use[j] == rows[i] {
                            let j = choose|j: int|
                                MAX_HISTORY_ROWS <= j < k + 1 && j < by_use.len()
                                    && #[trigger] by_use[j] == rows[i];
                            assert(j != k);
                        }
                    }
                }
            }
            k = k + 1;
        }
        proof {
            assert forall|i: int| 0 <= i < marks@.len() implies #[trigger] marks@[i] == history::is_surplus(
                rows,
            )(rows[i]) by {
                if marks@[i] {
                    let j = choose|j: int|
                        MAX_HISTORY_ROWS <= j < k && j < by_use.len() && #[trigger] by_use[j]
                            == rows[i];
                    assert(over[j - MAX_HISTORY_ROWS] == rows[i]);
                    assert(over.contains(rows[i]));
                }
                if over.contains(rows[i]) {
                    let j = choose|j: int| 0 <= j < over.len() && over[j] == rows[i];
                    assert(by_use[j + MAX_HISTORY_ROWS] == rows[i]);
                }
            }
        }
        self.remove_marked(&marks, Ghost(history::is_surplus(rows)));
    }

    /// Captures a clip at `now`, or notes a use of the clip that holds the same content.
    ///
    /// Returns the id of the clip; 0 where the content is too big to keep.
    pub fn insert_at(
        &mut self,
        kind: ClipKind,
        mime: &str,
        body: &[u8],
        preview: &str,
        now: i64,
    ) -> (r: Result<i64, StoreError>)
        requires
            old(self)@.well_formed(),
        ensures
            (final(self)@, r) == old(self)@.insert(kind, mime@, body@, preview@, now),
            final(self)@.well_formed(),
            body@.len() > history::size_limit(kind) ==> r == Ok::<i64, StoreError>(0),
            history::ids_count_from_one(old(self)@.rows) ==> (r == Ok::<i64, StoreError>(0)
                <==> body@.len() > history::size_limit(kind)),
            history::ids_count_from_one(old(self)@.rows) ==> history::ids_count_from_one(
                final(self)@.rows,
            ),
            history_laws::sound(old(self)@) ==> history_laws::sound(final(self)@),
    {
        proof {
            history_laws::only_big_content_is_skipped(
                self@,
                kind,
                mime@,
                body@,
                preview@,
                now,
            );
            if history_laws::sound(self@) {
                history_laws::operations_keep_the_history_sound(
                    self@,
                    kind,
                    mime@,
                    body@,
                    preview@,
                    0,
                    false,
                    now,
                );
            }
        }
        let max: usize = if kind == ClipKind::Image {
            MAX_IMAGE_BYTES
        } else {
            MAX_TEXT_BYTES
        };
        if body.len() > max {
            return Ok(0);
        }
        let hash: i64 = #[verifier::truncate] (xxhash(body) as i64);
        if let Some(i) = self.twin_of(kind.to_number(), hash) {
            assert(self@.rows[i as int] == self.rows@[i as int]@);
            let id = self.rows[i].id;
            return match self.touch_at(id, now) {
                Ok(_) => Ok(id),
                Err(e) => Err(e),
            };
        }
        if self.last_id == i64::MAX {
            return Err(StoreError::OutOfIds);
        }
        let id: i64 = self.last_id + 1;
        let bytes: i64 = body.len() as i64;
        let ghost row = history::new_row(id, kind, mime@, body@, preview@, now);
        let ghost before = self@;
        self.last_id = id;
        self.rows.push(
            Row {
                id,
                kind: kind.to_number(),
                mime: mime.to_owned(),
                body: copy_bytes(body),
                preview: preview.to_owned(),
                hash,
                bytes,
                created_at: now,
                last_used_at: now,
                use_count: 1,
                pinned: 0,
            },
        );
        self.changes.push(
            Change::Add {
                row: Row {
                    id,
                    kind: kind.to_number(),
                    mime: mime.to_owned(),
                    body: copy_bytes(body),
                    preview: preview.to_owned(),
                    hash,
                    bytes,
                    created_at: now,
                    last_used_at: now,
                    use_count: 1,
                    pinned: 0,
                },
            },
        );
        proof {
            assert(self@.rows =~= before.rows.push(row));
            assert(self@.changes =~= before.changes.push(ChangeView::Add { row }));
            assert(self@ == before.captured(kind, mime@, body@, preview@, now));
            assert(self@.well_formed());
        }
        self.trim();
        Ok(id)
    }

    /// Captures a clip now, or notes a use now of the clip that holds the same content.
    ///
    /// Returns the id of the clip; 0 where the content is too big to keep.
    pub fn insert(&mut self, kind: ClipKind, mime: &str, body: &[u8], preview: &str) -> (r: Result<
        i64,
        StoreError,
    >)
        requires
            old(self)@.well_formed(),
        ensures
            exists|now: i64| #[trigger]
                clock::clock_told(now) && (final(self)@, r) == old(self)@.insert(
                    kind,
                    mime@,
                    body@,
                    preview@,
                    now,
                ),
            final(self)@.well_formed(),
            body@.len() > history::size_limit(kind) ==> r == Ok::<i64, StoreError>(0),
            history::ids_count_from_one(old(self)@.rows) ==> (r == Ok::<i64, StoreError>(0)
                <==> body@.len() > history::size_limit(kind)),
            history::ids_count_from_one(old(self)@.rows) ==> history::ids_count_from_one(
                final(self)@.rows,
            ),
            history_laws::sound(old(self)@) ==> history_laws::sound(final(self)@),
    {
        self.insert_at(kind, mime, body, preview, unix_now())
    }

    /// Notes a use of the clip `id` now.
    pub fn touch(&mut self, id: i64) -> (r: Result<(), StoreError>)
        requires
            old(self)@.well_formed(),
        ensures
            exists|now: i64| #[trigger]
                clock::clock_told(now) && (final(self)@, r) == old(self)@.touch(id, now),
            final(self)@.well_formed(),
            history_laws::sound(old(self)@) ==> history_laws::sound(final(self)@),
    {
        self.touch_at(id, unix_now())
    }

    /// Removes the unpinned clips that were last used more than a day ago, and says how
    /// many there were.
    pub fn cleanup_expired(&mut self) -> (n: usize)
        requires
            old(self)@.well_formed(),
        ensures
            final(self)@.well_formed(),
            history_laws::sound(old(self)@) ==> history_laws::sound(final(self)@),
            n == old(self)@.rows.len() - final(self)@.rows.len(),
            exists|now: i64| #[trigger]
                clock::clock_told(now) && final(self)@ == old(self)@.cleanup_expired(now),
    {
        self.cleanup_expired_at(unix_now())
    }

    /// A history without clips that never gave out an id.
    pub fn new() -> (store: Store)
        ensures
            store@ == (History { rows: Seq::empty(), last_id: 0, changes: Seq::empty() }),
            store@.well_formed(),
            history_laws::sound(store@),
    {
        let store = Store { rows: Vec::new(), last_id: 0, changes: Vec::new() };
        proof {
            assert(store@.rows =~= Seq::<RowView>::empty());
            assert(store@.changes =~= Seq::<ChangeView>::empty());
        }
        store
    }

    /// The history that was saved as `rows`, in the order of their ids, where `last_id` is
    /// the largest id on record. `None` where the rows are not in the order of their ids.
    pub fn from_rows(rows: Vec<Row>, last_id: i64) -> (store: Option<Store>)
        ensures
            match store {
                Some(s) => {
                    &&& s@.rows == row_views(rows@)
                    &&& s@.changes == Seq::<ChangeView>::empty()
                    &&& s@.well_formed()
                    &&& s@.last_id == vstd::math::max(vstd::math::max(last_id as int, 0), if rows@.len() > 0 {
                        rows@.last().id as int
                    } else {
                        0
                    })
                },
                None => exists|i: int|
                    0 <= i < rows@.len() - 1 && (#[trigger] rows@[i]).id >= rows@[i + 1].id,
            },
    {
        let mut i: usize = 1;
        while i < rows.len()
            invariant
                1 <= i,
                i <= rows@.len() || i == 1,
                forall|a: int, b: int|
                    0 <= a < b < i && b < rows@.len() ==> (#[trigger] rows@[a]).id < (
                    #[trigger] rows@[b]).id,
            decreases rows@.len() - i,
        {
            if rows[i - 1].id >= rows[i].id {
                assert(rows@[i - 1].id >= rows@[i - 1 + 1].id);
                return None;
            }
            assert forall|a: int, b: int| 0 <= a < b < i + 1 && b < rows@.len() implies (
            #[trigger] rows@[a]).id < (#[trigger] rows@[b]).id by {
                if b == i && a < i - 1 {
                    assert(rows@[a].id < rows@[i - 1].id);
                }
            }
            i = i + 1;
        }
        let mut last: i64 = if last_id < 0 {
            0
        } else {
            last_id
        };
        if rows.len() > 0 {
            let end: i64 = rows[rows.len() - 1].id;
            if end > last {
                last = end;
            }
        }
        let store = Store { rows, last_id: last, changes: Vec::new() };
        proof {
            assert(store@.changes =~= Seq::<ChangeView>::empty());
            assert forall|i: int| 0 <= i < store@.rows.len() implies (#[trigger] store@.rows[i]).id
                <= last by {
                assert(rows@[i].id <= rows@[rows@.len() - 1].id);
            }
        }
        Some(store)
    }

    /// The steps taken since the last call, in order.
    pub fn take_changes(&mut self) -> (changes: Vec<Change>)
        ensures
            change_views(changes@) == old(self)@.changes,
            final(self)@ == (History { changes: Seq::empty(), ..old(self)@ }),
    {
        let mut changes: Vec<Change> = Vec::new();
        changes.append(&mut self.changes);
        proof {
            assert(change_views(changes@) =~= old(self)@.changes);
            assert(self@.changes =~= Seq::<ChangeView>::empty());
        }
        changes
    }
}

} // verus!
