//! What a row of the result list shows.

use crate::classify;
use crate::display;
use crate::display::format_clip_meta;
use crate::emoji::EmojiEntry;
use crate::proto;
use crate::proto::ClipKind;
use crate::results::{Result_, ResultView};
use crate::swatch;
use crate::swatch::build_hex_swatch;
use vstd::prelude::*;
use vstd::string::StringExecFns;

verus! {

/// How many shortcodes of an emoji are shown.
pub const SHOWN_ALIASES: usize = 4;

/// What a row shows.
#[derive(Debug)]
pub enum Line {
    /// A thumbnail of the image, a title and a line below it.
    Image { title: String, meta: String, pinned: bool },
    /// An icon, a color where there is one, the preview and a line below it.
    Clip {
        icon: &'static str,
        swatch: Option<(u8, u8, u8)>,
        title: String,
        meta: String,
        pinned: bool,
    },
    /// The emoji, its name, and its shortcodes below it where it has any.
    Emoji { glyph: String, name: String, aliases: Option<String> },
}

/// What a [`Line`] holds.
#[verifier::ext_equal]
pub enum LineView {
    Image { title: Seq<char>, meta: Seq<char>, pinned: bool },
    Clip {
        icon: Seq<char>,
        swatch: Option<(u8, u8, u8)>,
        title: Seq<char>,
        meta: Seq<char>,
        pinned: bool,
    },
    Emoji { glyph: Seq<char>, name: Seq<char>, aliases: Option<Seq<char>> },
}

impl View for Line {
    type V = LineView;

    open spec fn view(&self) -> LineView {
        match self {
            Line::Image { title, meta, pinned } => LineView::Image {
                title: title@,
                meta: meta@,
                pinned: *pinned,
            },
            Line::Clip { icon, swatch, title, meta, pinned } => LineView::Clip {
                icon: icon@,
                swatch: *swatch,
                title: title@,
                meta: meta@,
                pinned: *pinned,
            },
            Line::Emoji { glyph, name, aliases } => LineView::Emoji {
                glyph: glyph@,
                name: name@,
                aliases: match aliases {
                    Some(m) => Some(m@),
                    None => None,
                },
            },
        }
    }
}

/// Shortcodes between colons, one space apart.
pub open spec fn in_colons(aliases: Seq<Seq<char>>) -> Seq<char>
    decreases aliases.len(),
{
    if aliases.len() == 0 {
        Seq::empty()
    } else {
        let shown = seq![':'] + aliases.last() + seq![':'];
        if aliases.len() == 1 {
            shown
        } else {
            in_colons(aliases.drop_last()).push(' ') + shown
        }
    }
}

/// The shortcodes that are shown.
pub open spec fn shown_aliases(aliases: Seq<Seq<char>>) -> Seq<Seq<char>> {
    crate::order::up_to(aliases, SHOWN_ALIASES as int)
}

/// What the row of `r` shows, by a reading of the clock.
pub open spec fn line_of(r: ResultView, clock: Option<u64>) -> LineView {
    match r {
        ResultView::Clip(c) => if c.kind == ClipKind::Image {
            LineView::Image {
                title: "Image"@,
                meta: display::meta_text(c, clock),
                pinned: c.pinned,
            }
        } else {
            LineView::Clip {
                icon: proto::icon_name(c.kind),
                swatch: if c.kind == ClipKind::HexColor {
                    swatch::swatch(c.body)
                } else {
                    None
                },
                title: c.preview,
                meta: display::meta_text(c, clock),
                pinned: c.pinned,
            }
        },
        ResultView::Emoji(e) => LineView::Emoji {
            glyph: e.glyph,
            name: e.name,
            aliases: if e.shortcodes.len() == 0 {
                None
            } else {
                Some(in_colons(shown_aliases(e.shortcodes)))
            },
        },
    }
}

/// The row of `r` can be made: the color of a color can be taken from its bytes.
pub open spec fn showable(r: ResultView) -> bool {
    r matches ResultView::Clip(c) ==> c.kind == ClipKind::HexColor ==> swatch::sliceable(c.body)
}

/// Whether the row of `r` can be made.
pub fn is_showable(r: &Result_) -> (b: bool)
    ensures
        b == showable(r@),
{
    match r {
        Result_::Clip(c) => c.kind != ClipKind::HexColor || swatch::is_sliceable(
            c.body.as_slice(),
        ),
        Result_::Emoji(_) => true,
    }
}

fn alias_line(e: &EmojiEntry) -> (meta: Option<String>)
    ensures
        match meta {
            Some(m) => e@.shortcodes.len() > 0 && m@ == in_colons(shown_aliases(e@.shortcodes)),
            None => e@.shortcodes.len() == 0,
        },
{
    if e.shortcodes.len() == 0 {
        return None;
    }
    let n: usize = if e.shortcodes.len() > SHOWN_ALIASES {
        SHOWN_ALIASES
    } else {
        e.shortcodes.len()
    };
    let ghost shown = shown_aliases(e@.shortcodes);
    let mut out = String::new();
    for i in 0..n
        invariant
            n <= e.shortcodes@.len(),
            shown == shown_aliases(e@.shortcodes),
            shown.len() == n,
            out@ == in_colons(shown.take(i as int)),
    {
        proof {
            let upto = shown.take(i + 1);
            assert(upto.drop_last() =~= shown.take(i as int));
            assert(upto.last() == e.shortcodes@[i as int]@);
        }
        if i > 0 {
            out.push(' ');
        }
        out.push(':');
        out.append(e.shortcodes[i].as_str());
        out.push(':');
        assert(out@ =~= in_colons(shown.take(i + 1)));
    }
    assert(shown.take(shown.len() as int) =~= shown);
    Some(out)
}

/// What the row of `r` shows, by a reading of the clock.
pub fn build_row(r: &Result_, clock: Option<u64>) -> (line: Line)
    requires
        showable(r@),
    ensures
        line@ == line_of(r@, clock),
{
    match r {
        Result_::Clip(c) => {
            let meta = format_clip_meta(c, clock);
            if c.kind == ClipKind::Image {
                Line::Image { title: "Image".to_owned(), meta, pinned: c.pinned }
            } else {
                let swatch = if c.kind == ClipKind::HexColor {
                    build_hex_swatch(c.body.as_slice())
                } else {
                    None
                };
                Line::Clip {
                    icon: c.kind.icon_hint(),
                    swatch,
                    title: c.preview.clone(),
                    meta,
                    pinned: c.pinned,
                }
            }
        },
        Result_::Emoji(e) => Line::Emoji {
            glyph: e.glyph.clone(),
            name: e.name.clone(),
            aliases: alias_line(e),
        },
    }
}

/// A clip whose kind is that of its body can always be shown.
pub proof fn captured_clips_can_be_shown(c: proto::ClipView, mime: Seq<char>)
    requires
        c.kind == classify::kind_of(mime, c.body),
    ensures
        showable(ResultView::Clip(c)),
{
    if c.kind == ClipKind::HexColor {
        swatch::colors_are_shown(mime, c.body);
    }
}

/// Up to four shortcodes of an emoji are shown, each between colons, one space apart.
pub proof fn four_shortcodes_are_shown(e: crate::emoji::EmojiView, clock: Option<u64>)
    ensures
        ({
            let c = seq![':'];
            let gap = seq![':', ' ', ':'];
            let a = e.shortcodes;
            let shown = line_of(ResultView::Emoji(e), clock);
            &&& shown matches LineView::Emoji { glyph, name, aliases } && glyph == e.glyph && name
                == e.name
            &&& a.len() == 0 ==> shown->aliases is None
            &&& a.len() == 1 ==> shown->aliases == Some(c + a[0] + c)
            &&& a.len() == 2 ==> shown->aliases == Some(c + a[0] + gap + a[1] + c)
            &&& a.len() == 3 ==> shown->aliases == Some(c + a[0] + gap + a[1] + gap + a[2] + c)
            &&& a.len() >= 4 ==> shown->aliases == Some(
                c + a[0] + gap + a[1] + gap + a[2] + gap + a[3] + c,
            )
        }),
{
    let c = seq![':'];
    let gap = seq![':', ' ', ':'];
    let a = e.shortcodes;
    let s = shown_aliases(a);
    if a.len() >= 1 {
        let one = seq![a[0]];
        assert(one.last() == a[0]);
        assert(in_colons(one) =~= c + a[0] + c);
        if a.len() == 1 {
            assert(s =~= one);
        } else {
            let two = seq![a[0], a[1]];
            assert(two.drop_last() =~= one && two.last() == a[1]);
            assert(in_colons(two) =~= c + a[0] + gap + a[1] + c);
            if a.len() == 2 {
                assert(s =~= two);
            } else {
                let three = seq![a[0], a[1], a[2]];
                assert(three.drop_last() =~= two && three.last() == a[2]);
                assert(in_colons(three) =~= c + a[0] + gap + a[1] + gap + a[2] + c);
                if a.len() == 3 {
                    assert(s =~= three);
                } else {
                    let four = seq![a[0], a[1], a[2], a[3]];
                    assert(four.drop_last() =~= three && four.last() == a[3]);
                    assert(in_colons(four) =~= c + a[0] + gap + a[1] + gap + a[2] + gap + a[3] + c);
                    assert(s =~= four);
                }
            }
        }
    }
}

/// The row of a clip shows whether it is pinned, its kind, age and size, and for anything but
/// an image its preview and its icon. Only colors show a color.
pub proof fn rows_show_their_clips(clip: proto::ClipView, clock: Option<u64>)
    ensures
        ({
            let shown = line_of(ResultView::Clip(clip), clock);
            &&& clip.kind == ClipKind::Image <==> shown is Image
            &&& shown matches LineView::Image { title, meta, pinned } ==> title == "Image"@ && meta
                == display::meta_text(clip, clock) && pinned == clip.pinned
            &&& clip.kind != ClipKind::Image ==> (shown matches LineView::Clip {
                icon,
                swatch,
                title,
                meta,
                pinned,
            } && title == clip.preview && meta == display::meta_text(clip, clock) && pinned
                == clip.pinned && icon == proto::icon_name(clip.kind) && swatch == if clip.kind
                == ClipKind::HexColor {
                swatch::swatch(clip.body)
            } else {
                None
            })
        }),
{
}

} // verus!
