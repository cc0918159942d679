//! Keys, selection and focus of the palette.

use vstd::prelude::*;

verus! {

/// How many results are shown at most.
pub const MAX_RESULTS: u32 = 80;

/// How long typing has to rest before the results follow it, in milliseconds.
pub const QUERY_DEBOUNCE_MS: u64 = 60;

/// How long the paste keystroke waits for the palette to close, in milliseconds.
pub const AUTO_PASTE_DELAY_MS: u64 = 150;

/// How long the palette ignores that it lost focus after it was opened, in milliseconds.
pub const FOCUS_GRACE_MS: u64 = 500;

/// What the palette shows.
#[derive(Debug, Clone, Copy, PartialEq, Eq, Structural)]
pub enum Tab {
    Clipboard,
    Emoji,
}

/// How a result is pasted.
#[derive(Debug, Clone, Copy, PartialEq, Eq, Structural)]
pub enum PasteMode {
    /// Ctrl+V, which works in nearly everything but terminals.
    Normal,
    /// Ctrl+Shift+V, which terminals ask for.
    Super,
}

/// The keys that the palette knows.
#[derive(Debug, Clone, Copy, PartialEq, Eq, Structural)]
pub enum Key {
    Down,
    Up,
    Return,
    KeypadEnter,
    P,
    D,
    One,
    Two,
    Escape,
    Other,
}

/// What a key does.
#[derive(Debug, Clone, Copy, PartialEq, Eq, Structural)]
pub enum KeyAction {
    /// Move the selection by so many rows.
    Move { delta: i32 },
    /// Paste the selected result.
    Paste { mode: PasteMode },
    /// Pin the selected clip, or unpin it.
    TogglePin,
    /// Delete the selected clip.
    Delete,
    /// Switch to a tab.
    Show { tab: Tab },
    /// Close the palette.
    Close,
    /// Leave the key to the search entry.
    Proceed,
}

/// What `key` does in the search entry, with or without Ctrl and Shift held.
pub open spec fn action_of(key: Key, ctrl: bool, shift: bool) -> KeyAction {
    match key {
        Key::Down => KeyAction::Move { delta: 1 },
        Key::Up => KeyAction::Move { delta: (-1) as i32 },
        Key::Return if shift => KeyAction::Paste { mode: PasteMode::Super },
        Key::KeypadEnter if shift => KeyAction::Paste { mode: PasteMode::Super },
        Key::P if ctrl => KeyAction::TogglePin,
        Key::D if ctrl => KeyAction::Delete,
        Key::One if ctrl => KeyAction::Show { tab: Tab::Clipboard },
        Key::Two if ctrl => KeyAction::Show { tab: Tab::Emoji },
        _ => KeyAction::Proceed,
    }
}

/// What `key` does in the search entry, with or without Ctrl and Shift held. Plain Enter
/// is left to the entry itself: see [`entry_action`].
pub fn key_action(key: Key, ctrl: bool, shift: bool) -> (action: KeyAction)
    ensures
        action == action_of(key, ctrl, shift),
{
    match key {
        Key::Down => KeyAction::Move { delta: 1 },
        Key::Up => KeyAction::Move { delta: -1 },
        Key::Return | Key::KeypadEnter => if shift {
            KeyAction::Paste { mode: PasteMode::Super }
        } else {
            KeyAction::Proceed
        },
        Key::P => if ctrl {
            KeyAction::TogglePin
        } else {
            KeyAction::Proceed
        },
        Key::D => if ctrl {
            KeyAction::Delete
        } else {
            KeyAction::Proceed
        },
        Key::One => if ctrl {
            KeyAction::Show { tab: Tab::Clipboard }
        } else {
            KeyAction::Proceed
        },
        Key::Two => if ctrl {
            KeyAction::Show { tab: Tab::Emoji }
        } else {
            KeyAction::Proceed
        },
        Key::Escape | Key::Other => KeyAction::Proceed,
    }
}

/// What plain Enter in the search entry does, and a click on a row: paste by Ctrl+V.
pub fn entry_action() -> (action: KeyAction)
    ensures
        action == (KeyAction::Paste { mode: PasteMode::Normal }),
{
    KeyAction::Paste { mode: PasteMode::Normal }
}

/// What the daemon was asked to do with a row of the list.
#[derive(Debug, Clone, Copy, PartialEq, Eq, Structural)]
pub enum Asked {
    /// The row at some place was to be pinned or unpinned.
    Pin,
    /// The row at `idx` was to be deleted. It was deleted if there was a clip at that place
    /// and the daemon did not refuse.
    Delete { idx: i32, deleted: bool },
}

/// What is done with the list after the daemon was asked.
#[derive(Debug, Clone, Copy, PartialEq, Eq, Structural)]
pub enum FollowUp {
    /// Fill the list anew for the query that stands in the search entry.
    Refresh,
    /// Do the same, and then select the row that took the place of the one at `idx`.
    RefreshAndReselect { idx: i32 },
    /// Leave the list as it is.
    Nothing,
}

/// What is done with the list after the daemon was asked: it follows a request to pin
/// whether or not it succeeded, and a deletion where there was one.
pub open spec fn follow_up_of(asked: Asked) -> FollowUp {
    match asked {
        Asked::Pin => FollowUp::Refresh,
        Asked::Delete { idx, deleted: true } => FollowUp::RefreshAndReselect { idx },
        Asked::Delete { idx, deleted: false } => FollowUp::Nothing,
    }
}

/// What is done with the list after the daemon was asked.
pub fn follow_up(asked: Asked) -> (next: FollowUp)
    ensures
        next == follow_up_of(asked),
{
    match asked {
        Asked::Pin => FollowUp::Refresh,
        Asked::Delete { idx, deleted } => if deleted {
            FollowUp::RefreshAndReselect { idx }
        } else {
            FollowUp::Nothing
        },
    }
}

/// What `key` does to the window, before anything in it sees the key.
pub fn window_key_action(key: Key) -> (action: KeyAction)
    ensures
        action == if key == Key::Escape {
            KeyAction::Close
        } else {
            KeyAction::Proceed
        },
{
    if key == Key::Escape {
        KeyAction::Close
    } else {
        KeyAction::Proceed
    }
}

/// The row that is selected next: `delta` rows on from the selected one, from either end
/// to the other.
pub open spec fn moved(count: i32, selected: Option<i32>, delta: int) -> Option<i32> {
    let from = match selected {
        Some(i) => i,
        None => 0,
    };
    if count == 0 {
        None
    } else {
        Some(((from + delta) % (count as int)) as i32)
    }
}

/// The row of `count` that is selected next.
pub fn move_selection(count: i32, selected: Option<i32>, delta: i32) -> (next: Option<i32>)
    requires
        0 <= count,
        selected matches Some(i) ==> i32::MIN <= i + delta <= i32::MAX,
    ensures
        next == moved(count, selected, delta as int),
{
    if count == 0 {
        return None;
    }
    let from: i32 = match selected {
        Some(i) => i,
        None => 0,
    };
    let to: i32 = from + delta;
    if to >= 0 {
        Some(to % count)
    } else {
        // Counted from the other end.
        let back: i64 = -(to as i64);
        let n: i64 = count as i64;
        let over: i64 = back % n;
        proof {
            counting_back(to as int, n as int);
        }
        if over == 0 {
            Some(0)
        } else {
            Some((n - over) as i32)
        }
    }
}

proof fn counting_back(to: int, n: int)
    requires
        to < 0,
        n > 0,
    ensures
        to % n == if (-to) % n == 0 {
            0
        } else {
            n - (-to) % n
        },
{
    let q = (-to) / n;
    let r = (-to) % n;
    vstd::arithmetic::div_mod::lemma_fundamental_div_mod(-to, n);
    if r == 0 {
        assert(to == (-q) * n + 0) by (nonlinear_arith)
            requires
                -to == n * q + r,
                r == 0,
        ;
        vstd::arithmetic::div_mod::lemma_fundamental_div_mod_converse(to, n, -q, 0);
    } else {
        assert(to == (-q - 1) * n + (n - r)) by (nonlinear_arith)
            requires
                -to == n * q + r,
        ;
        vstd::arithmetic::div_mod::lemma_fundamental_div_mod_converse(to, n, -q - 1, n - r);
    }
}

/// The selection stays on the list, and moving down and up again leaves it where it was.
pub proof fn moving_there_and_back(count: i32, selected: i32)
    requires
        0 <= selected < count,
    ensures
        ({
            let down = moved(count, Some(selected), 1);
            let up = moved(count, Some(selected), -1);
            &&& down matches Some(d) && 0 <= d < count && moved(count, Some(d), -1) == Some(selected)
            &&& up matches Some(u) && 0 <= u < count && moved(count, Some(u), 1) == Some(selected)
            &&& down == Some(
                if selected == count - 1 {
                    0i32
                } else {
                    (selected + 1) as i32
                },
            )
            &&& up == Some(
                if selected == 0 {
                    (count - 1) as i32
                } else {
                    (selected - 1) as i32
                },
            )
        }),
{
    let n = count as int;
    vstd::arithmetic::div_mod::lemma_small_mod(selected as nat, n as nat);
    if selected + 1 < n {
        vstd::arithmetic::div_mod::lemma_small_mod((selected + 1) as nat, n as nat);
    } else {
        vstd::arithmetic::div_mod::lemma_mod_self_0(n);
    }
    if selected > 0 {
        vstd::arithmetic::div_mod::lemma_small_mod((selected - 1) as nat, n as nat);
    }
    counting_back(-1, n);
    if n > 1 {
        vstd::arithmetic::div_mod::lemma_small_mod(1, n as nat);
    }
    vstd::arithmetic::div_mod::lemma_mod_self_0(n);
    vstd::arithmetic::div_mod::lemma_small_mod((n - 1) as nat, n as nat);
}

/// The row that is selected after the one at `idx` was deleted and `count` are left: the
/// one that took its place, or else the last one.
pub fn reselected(idx: i32, count: i32) -> (row: Option<i32>)
    ensures
        row == if count > 0 {
            Some(
                if idx < count {
                    idx
                } else {
                    (count - 1) as i32
                },
            )
        } else {
            None
        },
{
    if count > 0 {
        if idx < count {
            Some(idx)
        } else {
            Some(count - 1)
        }
    } else {
        None
    }
}

/// Whether focus was ever on the palette.
#[derive(Debug, Clone, Copy)]
pub struct FocusWatch {
    pub was_active: bool,
}

impl FocusWatch {
    /// The palette was just opened.
    pub fn new() -> (w: FocusWatch)
        ensures
            w == (FocusWatch { was_active: false }),
    {
        FocusWatch { was_active: false }
    }

    /// Focus came or went, `elapsed_ms` after the palette was opened. Says whether the
    /// palette closes: the user clicked outside, which is neither the shuffle of focus
    /// while it opens nor the context menu that takes focus from it.
    pub fn changed(&mut self, active: bool, elapsed_ms: u64, menu_open: bool) -> (close: bool)
        ensures
            final(self).was_active == (old(self).was_active || active),
            close == (!active && old(self).was_active && elapsed_ms >= FOCUS_GRACE_MS
                && !menu_open),
    {
        if active {
            self.was_active = true;
            return false;
        }
        self.was_active && elapsed_ms >= FOCUS_GRACE_MS && !menu_open
    }
}

/// Whether the context menu is open.
#[derive(Debug, Clone, Copy)]
pub struct MenuWatch {
    pub open: bool,
}

impl MenuWatch {
    /// The palette was just opened, without a menu.
    pub fn new() -> (w: MenuWatch)
        ensures
            w == (MenuWatch { open: false }),
    {
        MenuWatch { open: false }
    }

    /// A row was asked for its menu, which is shown where the row has one.
    pub fn menu_opened(&mut self, shown: bool)
        ensures
            *final(self) == (MenuWatch { open: old(self).open || shown }),
    {
        if shown {
            self.open = true;
        }
    }

    /// The menu was closed.
    pub fn menu_closed(&mut self)
        ensures
            *final(self) == (MenuWatch { open: false }),
    {
        self.open = false;
    }

    /// Whether the menu is open.
    pub fn is_open(&self) -> (b: bool)
        ensures
            b == self.open,
    {
        self.open
    }
}

/// Tells the latest change of the query from earlier ones.
#[derive(Debug, Clone, Copy)]
pub struct Debounce {
    pub latest: u32,
}

/// The token of the change that follows the one with token `t`.
pub open spec fn next_token(t: u32) -> u32 {
    if t == u32::MAX {
        0
    } else {
        (t + 1) as u32
    }
}

/// The token of the `n`th change after the one with token `t`.
pub open spec fn later_token(t: u32, n: nat) -> u32
    decreases n,
{
    if n == 0 {
        t
    } else {
        next_token(later_token(t, (n - 1) as nat))
    }
}

impl Debounce {
    pub fn new() -> (d: Debounce)
        ensures
            d == (Debounce { latest: 0 }),
    {
        Debounce { latest: 0 }
    }

    /// The query changed. Returns the token of the change.
    pub fn changed(&mut self) -> (token: u32)
        ensures
            token == next_token(old(self).latest),
            final(self).latest == token,
    {
        self.latest = self.latest.wrapping_add(1);
        self.latest
    }

    /// Whether no change came after the one with this token.
    pub fn is_latest(&self, token: u32) -> (b: bool)
        ensures
            b == (self.latest == token),
    {
        self.latest == token
    }
}

proof fn later_tokens_count_on(t: u32, n: nat)
    requires
        n <= u32::MAX,
    ensures
        later_token(t, n) == if t + n > u32::MAX {
            t + n - u32::MAX - 1
        } else {
            t + n
        },
    decreases n,
{
    if n > 0 {
        later_tokens_count_on(t, (n - 1) as nat);
    }
}

/// Of changes that follow each other only the last one is the latest, as long as there
/// are fewer than tokens.
pub proof fn only_the_last_change_counts(t: u32, n: nat)
    requires
        0 < n <= u32::MAX,
    ensures
        later_token(t, n) != t,
{
    later_tokens_count_on(t, n);
}

/// What each key does in the search entry: the arrows move by one row, Enter with Shift pastes
/// for terminals, Ctrl with P, D, 1 or 2 pins, deletes or switches the tab. Every other key, and
/// each of these without its modifier, is left to the entry.
pub proof fn keys_do_what_they_are_for(key: Key, ctrl: bool, shift: bool)
    ensures
        ({
            let action = action_of(key, ctrl, shift);
            &&& action is Move <==> key == Key::Down || key == Key::Up
            &&& key == Key::Down ==> action->delta == 1
            &&& key == Key::Up ==> action->delta == -1
            &&& action is Paste <==> shift && (key == Key::Return || key
                == Key::KeypadEnter)
            &&& action matches KeyAction::Paste { mode } ==> mode == PasteMode::Super
            &&& action == KeyAction::TogglePin <==> ctrl && key == Key::P
            &&& action == KeyAction::Delete <==> ctrl && key == Key::D
            &&& action == (KeyAction::Show { tab: Tab::Clipboard }) <==> ctrl && key == Key::One
            &&& action == (KeyAction::Show { tab: Tab::Emoji }) <==> ctrl && key == Key::Two
            &&& action != KeyAction::Close
        }),
{
}

/// Moving by some rows and then by some more is moving by all of them at once, and moving by
/// as many as there are leads back. Without a selection, moving begins at the first row.
pub proof fn moves_add_up(count: i32, from: i32, a: int, b: int)
    requires
        0 < count,
    ensures
        moved(count, Some(from), a) matches Some(i) && 0 <= i < count && moved(count, Some(i), b)
            == moved(count, Some(from), a + b),
        0 <= from < count ==> moved(count, Some(from), count as int) == Some(from),
        0 <= from + a < count ==> moved(count, Some(from), a) == Some((from + a) as i32),
        moved(count, None, a) == moved(count, Some(0), a),
        moved(0, Some(from), a) is None,
        moved(0, None, a) is None,
{
    let n = count as int;
    let to = (from + a) % n;
    vstd::arithmetic::div_mod::lemma_mod_bound(from + a, n);
    vstd::arithmetic::div_mod::lemma_add_mod_noop(from + a, b, n);
    vstd::arithmetic::div_mod::lemma_add_mod_noop(to, b, n);
    vstd::arithmetic::div_mod::lemma_mod_twice(from + a, n);
    assert((to + b) % n == (from + a + b) % n);
    if 0 <= from < count {
        vstd::arithmetic::div_mod::lemma_mod_add_multiples_vanish(from as int, n);
        vstd::arithmetic::div_mod::lemma_small_mod(from as nat, n as nat);
    }
    if 0 <= from + a < count {
        vstd::arithmetic::div_mod::lemma_small_mod((from + a) as nat, n as nat);
    }
}

/// The list is filled anew after a request to pin and after a deletion, and only a deletion
/// selects a row: the one at the same place.
pub proof fn the_list_follows_the_daemon(idx: i32, deleted: bool)
    ensures
        follow_up_of(Asked::Pin) == FollowUp::Refresh,
        deleted <==> follow_up_of(Asked::Delete { idx, deleted }) == (
        FollowUp::RefreshAndReselect { idx }),
        !deleted <==> follow_up_of(Asked::Delete { idx, deleted }) == FollowUp::Nothing,
{
}

} // verus!
