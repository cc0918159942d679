//! The context menu of a result.

use crate::picker::PasteMode;
use crate::results;
use crate::results::{Result_, ResultView};
use vstd::prelude::*;

verus! {

/// What an item of the menu does.
#[derive(Debug, Clone, Copy, PartialEq, Eq, Structural)]
pub enum MenuAction {
    TogglePin,
    Paste { mode: PasteMode },
    Delete,
}

/// An item of the menu.
#[derive(Debug, Clone, Copy)]
pub struct MenuItem {
    pub label: &'static str,
    pub icon: &'static str,
    /// The keys that do the same.
    pub shortcut: Option<&'static str>,
    pub action: MenuAction,
    /// The item destroys something: it is set off from the others by a line.
    pub destructive: bool,
}

/// What a [`MenuItem`] holds.
#[verifier::ext_equal]
pub struct MenuItemView {
    pub label: Seq<char>,
    pub icon: Seq<char>,
    pub shortcut: Option<Seq<char>>,
    pub action: MenuAction,
    pub destructive: bool,
}

impl View for MenuItem {
    type V = MenuItemView;

    open spec fn view(&self) -> MenuItemView {
        MenuItemView {
            label: self.label@,
            icon: self.icon@,
            shortcut: match self.shortcut {
                Some(s) => Some(s@),
                None => None,
            },
            action: self.action,
            destructive: self.destructive,
        }
    }
}

/// What the items of `v` hold.
pub open spec fn item_views(v: Seq<MenuItem>) -> Seq<MenuItemView> {
    Seq::new(v.len(), |i: int| v[i]@)
}

pub open spec fn pin_item(pinned: bool) -> MenuItemView {
    MenuItemView {
        label: if pinned {
            "Unpin"@
        } else {
            "Pin"@
        },
        icon: "view-pin-symbolic"@,
        shortcut: None,
        action: MenuAction::TogglePin,
        destructive: false,
    }
}

pub open spec fn paste_item() -> MenuItemView {
    MenuItemView {
        label: "Paste"@,
        icon: "edit-paste-symbolic"@,
        shortcut: Some("Enter"@),
        action: MenuAction::Paste { mode: PasteMode::Normal },
        destructive: false,
    }
}

pub open spec fn super_paste_item() -> MenuItemView {
    MenuItemView {
        label: "Super paste"@,
        icon: "utilities-terminal-symbolic"@,
        shortcut: Some("Ctrl+Shift+V"@),
        action: MenuAction::Paste { mode: PasteMode::Super },
        destructive: false,
    }
}

pub open spec fn delete_item() -> MenuItemView {
    MenuItemView {
        label: "Delete"@,
        icon: "edit-delete-symbolic"@,
        shortcut: Some("Ctrl+D"@),
        action: MenuAction::Delete,
        destructive: true,
    }
}

/// The menu of a result: a clip can be pinned, pasted either way and deleted, an emoji can
/// be pasted either way.
pub open spec fn menu_of(r: ResultView) -> Seq<MenuItemView> {
    match r {
        ResultView::Clip(c) => seq![
            pin_item(c.pinned),
            paste_item(),
            super_paste_item(),
            delete_item(),
        ],
        ResultView::Emoji(_) => seq![paste_item(), super_paste_item()],
    }
}

/// The menu of the result at `idx`; none where there is no result.
pub fn show_context_menu(results: &[Result_], idx: i32) -> (menu: Option<Vec<MenuItem>>)
    ensures
        match menu {
            Some(m) => results::at(results::result_views(results@), idx) matches Some(r)
                && item_views(m@) == menu_of(r),
            None => results::at(results::result_views(results@), idx) is None,
        },
{
    let (is_clip, is_pinned) = match results::result_at(results, idx) {
        Some(Result_::Clip(c)) => (true, c.pinned),
        Some(Result_::Emoji(_)) => (false, false),
        None => {
            return None;
        },
    };
    let mut menu: Vec<MenuItem> = Vec::new();
    if is_clip {
        menu.push(
            MenuItem {
                label: if is_pinned {
                    "Unpin"
                } else {
                    "Pin"
                },
                icon: "view-pin-symbolic",
                shortcut: None,
                action: MenuAction::TogglePin,
                destructive: false,
            },
        );
    }
    menu.push(
        MenuItem {
            label: "Paste",
            icon: "edit-paste-symbolic",
            shortcut: Some("Enter"),
            action: MenuAction::Paste { mode: PasteMode::Normal },
            destructive: false,
        },
    );
    menu.push(
        MenuItem {
            label: "Super paste",
            icon: "utilities-terminal-symbolic",
            shortcut: Some("Ctrl+Shift+V"),
            action: MenuAction::Paste { mode: PasteMode::Super },
            destructive: false,
        },
    );
    if is_clip {
        menu.push(
            MenuItem {
                label: "Delete",
                icon: "edit-delete-symbolic",
                shortcut: Some("Ctrl+D"),
                action: MenuAction::Delete,
                destructive: true,
            },
        );
    }
    proof {
        let r = results::at(results::result_views(results@), idx)->0;
        assert(item_views(menu@) =~= menu_of(r));
    }
    Some(menu)
}

/// Where a row lies in the list, and how large it is.
#[derive(Debug, Clone, Copy)]
pub struct Bounds {
    pub x: i32,
    pub y: i32,
    pub width: i32,
    pub height: i32,
}

/// `v`, or the nearest number from 0 to below `size`; a size below one counts as one.
pub open spec fn clamped(v: int, size: i32) -> int {
    let last = if size < 1 {
        0
    } else {
        size - 1
    };
    if v < 0 {
        0
    } else if v > last {
        last
    } else {
        v
    }
}

fn clamp_to(v: i32, size: i32) -> (r: i32)
    ensures
        r == clamped(v as int, size),
{
    let last: i32 = if size < 1 {
        0
    } else {
        size - 1
    };
    if v < 0 {
        0
    } else if v > last {
        last
    } else {
        v
    }
}

/// The point of a row that the menu points to, for a click at `x`, `y` in the list: the
/// point clicked, or the nearest one in the row. The corner where the row lies nowhere.
pub fn menu_anchor(x: i32, y: i32, bounds: Option<Bounds>) -> (point: (i32, i32))
    requires
        bounds matches Some(b) ==> i32::MIN <= x - b.x <= i32::MAX && i32::MIN <= y - b.y
            <= i32::MAX,
    ensures
        match bounds {
            Some(b) => point.0 == clamped(x - b.x, b.width) && point.1 == clamped(
                y - b.y,
                b.height,
            ),
            None => point == (0i32, 0i32),
        },
{
    match bounds {
        Some(b) => (clamp_to(x - b.x, b.width), clamp_to(y - b.y, b.height)),
        None => (0, 0),
    }
}

/// The menu points into the row, and at the very point clicked where that is in the row.
pub proof fn menus_point_into_the_row(v: int, size: i32)
    requires
        size > 0,
    ensures
        0 <= clamped(v, size) < size,
        0 <= v < size ==> clamped(v, size) == v,
{
}

/// Only clips can be pinned or deleted, and everything can be pasted either way.
pub proof fn menus_offer_what_can_be_done(r: ResultView, i: int)
    requires
        0 <= i < menu_of(r).len(),
    ensures
        menu_of(r)[i].action == MenuAction::TogglePin || menu_of(r)[i].action == MenuAction::Delete
            ==> r is Clip,
        menu_of(r).contains(paste_item()),
        menu_of(r).contains(super_paste_item()),
        menu_of(r)[i].destructive == (menu_of(r)[i].action == MenuAction::Delete),
{
    match r {
        ResultView::Clip(_) => {
            assert(menu_of(r)[1] == paste_item() && menu_of(r)[2] == super_paste_item());
        },
        ResultView::Emoji(_) => {
            assert(menu_of(r)[0] == paste_item() && menu_of(r)[1] == super_paste_item());
        },
    }
}

/// A clip has four items: to pin it, or to unpin it where it is pinned, to paste it, to paste it
/// in a terminal, and to delete it. An emoji has the two that paste. Items tell the keys that do
/// the same.
pub proof fn menus_have_their_items(r: ResultView)
    ensures
        ({
            let m = menu_of(r);
            let p: int = if r is Clip {
                1
            } else {
                0
            };
            &&& m.len() == if r is Clip {
                4int
            } else {
                2
            }
            &&& m[p].label == "Paste"@ && m[p].action == (MenuAction::Paste {
                mode: PasteMode::Normal,
            }) && m[p].shortcut == Some("Enter"@) && m[p].icon == "edit-paste-symbolic"@
            &&& m[p + 1].label == "Super paste"@ && m[p + 1].action == (MenuAction::Paste {
                mode: PasteMode::Super,
            }) && m[p + 1].shortcut == Some("Ctrl+Shift+V"@) && m[p + 1].icon
                == "utilities-terminal-symbolic"@
            &&& r matches ResultView::Clip(c) ==> m[0].action == MenuAction::TogglePin && m[0].label
                == (if c.pinned {
                "Unpin"@
            } else {
                "Pin"@
            }) && m[0].shortcut is None && m[0].icon == "view-pin-symbolic"@ && m[3].action
                == MenuAction::Delete && m[3].label == "Delete"@ && m[3].shortcut == Some("Ctrl+D"@)
                && m[3].icon == "edit-delete-symbolic"@
        }),
{
}

/// A menu points to the nearest point of the row: none is nearer to the point clicked.
pub proof fn menus_point_to_the_nearest(v: int, size: i32, other: int)
    requires
        0 <= other < size || other == 0,
    ensures
        ({
            let p = clamped(v, size);
            &&& 0 <= p && (p < size || p == 0)
            &&& (if p < v {
                v - p
            } else {
                p - v
            }) <= (if other < v {
                v - other
            } else {
                other - v
            })
        }),
{
}

} // verus!
