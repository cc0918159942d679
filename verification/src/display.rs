//! How ages and sizes are shown.

use crate::clock;
use crate::clock::seconds_since_epoch;
use crate::proto::{Clip, ClipKind, ClipView};
use crate::text;
use vstd::prelude::*;
use vstd::string::StringExecFns;

verus! {

/// `a / b`, rounded to the nearest whole number, and to the even one of two that are
/// equally near.
pub open spec fn half_even(a: nat, b: nat) -> nat {
    let (q, r) = (a / b, a % b);
    if 2 * r > b || (2 * r == b && q % 2 == 1) {
        q + 1
    } else {
        q
    }
}

/// How far apart the numbers near `n` are that a double holds.
pub open spec fn spacing(n: nat) -> nat
    decreases n,
{
    if n < 0x20_0000_0000_0000 {
        1
    } else {
        2 * spacing(n / 2)
    }
}

/// `n` as a double.
pub open spec fn as_double(n: nat) -> nat {
    half_even(n, spacing(n)) * spacing(n)
}

/// `n` bytes, for people to read: bytes below a kilobyte, whole kilobytes below a
/// megabyte, and else tenths of megabytes of the double nearest to `n`.
pub open spec fn size_text(n: u64) -> Seq<char> {
    if n < 1024 {
        text::decimal(n as nat) + " B"@
    } else if n < 0x10_0000 {
        text::decimal(half_even(n as nat, 1024)) + " KB"@
    } else {
        let tenths = half_even(as_double(n as nat) * 10, 0x10_0000);
        text::decimal(tenths / 10) + seq!['.', text::digit((tenths % 10) as int)] + " MB"@
    }
}

/// A time that lies `d` seconds back, for people to read.
pub open spec fn age_text(d: int) -> Seq<char> {
    if d < 60 {
        "just now"@
    } else if d < 3600 {
        text::decimal((d / 60) as nat) + "m ago"@
    } else if d < 86_400 {
        text::decimal((d / 3600) as nat) + "h ago"@
    } else if d < 2_592_000 {
        text::decimal((d / 86_400) as nat) + "d ago"@
    } else {
        "long ago"@
    }
}

/// What a reading of the clock gives as the time now: the time `unix` itself where the
/// clock cannot be read.
pub open spec fn now_or(clock: Option<u64>, unix: i64) -> i64 {
    match clock {
        Some(s) => s as i64,
        None => unix,
    }
}

/// How long ago `unix` was.
pub open spec fn age_of(clock: Option<u64>, unix: i64) -> Seq<char> {
    age_text(now_or(clock, unix) - unix)
}

/// The word for a kind of clips.
pub open spec fn kind_text(kind: ClipKind) -> Seq<char> {
    match kind {
        ClipKind::Text => "text"@,
        ClipKind::Url => "url"@,
        ClipKind::HexColor => "color"@,
        ClipKind::Json => "json"@,
        ClipKind::Code => "code"@,
        ClipKind::Image => "image"@,
    }
}

/// What is said of a clip below its preview: its kind, when it was last used, and its size.
pub open spec fn meta_text(clip: ClipView, clock: Option<u64>) -> Seq<char> {
    kind_text(clip.kind) + " · "@ + age_of(clock, clip.last_used_at) + " · "@ + size_text(clip.bytes)
}

fn half_even_of(a: u128, b: u128) -> (q: u128)
    requires
        0 < b <= 0x1_0000_0000_0000_0000,
        a <= 0xffff_ffff_ffff_ffff_ffff,
    ensures
        q == half_even(a as nat, b as nat),
        q <= a + 1,
{
    let q = a / b;
    let r = a % b;
    assert(q <= a) by (nonlinear_arith)
        requires
            q == a / b,
            b > 0,
            a >= 0,
    ;
    if 2 * r > b || (2 * r == b && q % 2 == 1) {
        q + 1
    } else {
        q
    }
}

fn spacing_of(n: u64) -> (s: u64)
    ensures
        s == spacing(n as nat),
        s == 1 || s * 0x10_0000_0000_0000 <= n,
        s >= 1,
    decreases n,
{
    if n < 0x20_0000_0000_0000 {
        1
    } else {
        2 * spacing_of(n / 2)
    }
}

fn double_of(n: u64) -> (d: u128)
    ensures
        d == as_double(n as nat),
        d <= n + 4096,
{
    let s = spacing_of(n);
    let q = half_even_of(n as u128, s as u128);
    proof {
        nearest_is_near(n as nat, s as nat);
        assert(s <= 4096);
        assert(q * s <= n + s) by (nonlinear_arith)
            requires
                2 * (q * s - n) <= s,
                s >= 0,
        ;
    }
    q * s as u128
}

/// Rounding goes to a nearest whole number: it is off by at most one half.
pub proof fn nearest_is_near(a: nat, b: nat)
    requires
        b > 0,
    ensures
        -(b as int) <= 2 * (half_even(a, b) * b - a) <= b,
{
    vstd::arithmetic::div_mod::lemma_fundamental_div_mod(a as int, b as int);
    let (q, r) = (a / b, a % b);
    assert(q * b == b * q) by (nonlinear_arith);
    assert((q + 1) * b == q * b + b) by (nonlinear_arith);
}

/// `n` bytes, for people to read.
pub fn human_bytes(n: u64) -> (s: String)
    ensures
        s@ == size_text(n),
{
    let mut out = String::new();
    if n < 1024 {
        text::push_decimal(&mut out, n as u128);
        out.append(" B");
    } else if n < 0x10_0000 {
        text::push_decimal(&mut out, half_even_of(n as u128, 1024));
        out.append(" KB");
    } else {
        let tenths = half_even_of(double_of(n) * 10, 0x10_0000);
        text::push_decimal(&mut out, tenths / 10);
        out.push('.');
        let d: u8 = (tenths % 10) as u8;
        out.push((48 + d) as char);
        out.append(" MB");
    }
    assert(out@ =~= size_text(n));
    out
}

/// How long ago `unix` was, by a reading of the clock.
pub fn relative_age_at(unix: i64, clock: Option<u64>) -> (s: String)
    ensures
        s@ == age_of(clock, unix),
{
    let now: i64 = match clock {
        Some(s) => #[verifier::truncate] (s as i64),
        None => unix,
    };
    let d: i128 = now as i128 - unix as i128;
    let mut out = String::new();
    if d < 60 {
        out.append("just now");
    } else if d < 3600 {
        text::push_decimal(&mut out, (d / 60) as u128);
        out.append("m ago");
    } else if d < 86_400 {
        text::push_decimal(&mut out, (d / 3600) as u128);
        out.append("h ago");
    } else if d < 2_592_000 {
        text::push_decimal(&mut out, (d / 86_400) as u128);
        out.append("d ago");
    } else {
        out.append("long ago");
    }
    assert(out@ =~= age_of(clock, unix));
    out
}

/// How long ago `unix` was.
pub fn relative_age(unix: i64) -> (s: String)
    ensures
        exists|clock: Option<u64>| #[trigger]
            clock::clock_gave(clock) && s@ == age_of(clock, unix),
{
    relative_age_at(unix, seconds_since_epoch())
}

/// The word for a kind of clips.
fn kind_word(kind: ClipKind) -> (w: &'static str)
    ensures
        w@ == kind_text(kind),
{
    match kind {
        ClipKind::Text => "text",
        ClipKind::Url => "url",
        ClipKind::HexColor => "color",
        ClipKind::Json => "json",
        ClipKind::Code => "code",
        ClipKind::Image => "image",
    }
}

/// What is said of a clip below its preview, by a reading of the clock.
pub fn format_clip_meta(clip: &Clip, clock: Option<u64>) -> (s: String)
    ensures
        s@ == meta_text(clip@, clock),
{
    let mut out = kind_word(clip.kind).to_owned();
    out.append(" · ");
    let age = relative_age_at(clip.last_used_at, clock);
    out.append(age.as_str());
    out.append(" · ");
    let size = human_bytes(clip.bytes);
    out.append(size.as_str());
    out
}

/// A size is shown to the nearest unit: it is off by at most half a kilobyte below a
/// megabyte, and by at most half a tenth of a megabyte up to where a double counts every
/// byte.
pub proof fn sizes_are_shown_to_the_nearest(n: u64)
    requires
        n < 0x20_0000_0000_0000,
    ensures
        as_double(n as nat) == n,
        -512 <= half_even(n as nat, 1024) * 1024 - n <= 512,
        -0x8_0000 <= half_even(n as nat * 10, 0x10_0000) * 0x10_0000 - n * 10 <= 0x8_0000,
{
    nearest_is_near(n as nat, 1024);
    nearest_is_near(n as nat * 10, 0x10_0000);
    assert(spacing(n as nat) == 1);
    assert(half_even(n as nat, 1) * 1 == n);
}

/// An age is shown by the largest unit that it fills, rounded down: `k` minutes up to an hour,
/// hours up to a day, days up to thirty. What is younger than a minute, or lies ahead, was
/// just now, and so was everything where the clock cannot be read.
pub proof fn ages_are_shown_by_their_largest_unit(now: u64, unix: i64, k: nat)
    requires
        now <= i64::MAX,
    ensures
        ({
            let d = now - unix;
            let shown = age_of(Some(now), unix);
            &&& d < 60 ==> shown == "just now"@
            &&& 0 < k < 60 && k * 60 <= d < (k + 1) * 60 ==> shown == text::decimal(k) + "m ago"@
            &&& 0 < k < 24 && k * 3600 <= d < (k + 1) * 3600 ==> shown == text::decimal(k)
                + "h ago"@
            &&& 0 < k < 30 && k * 86_400 <= d < (k + 1) * 86_400 ==> shown == text::decimal(k)
                + "d ago"@
            &&& d >= 30 * 86_400 ==> shown == "long ago"@
        }),
        age_of(None, unix) == "just now"@,
{
}

/// A size is shown in bytes below a kilobyte, as the nearest number `k` of kilobytes below a
/// megabyte, and else as the nearest number of tenths of a megabyte, up to where a double
/// counts every byte. A size half way between two is shown as the even one.
pub proof fn sizes_are_shown_by_the_nearest_number(n: u64, k: nat)
    requires
        n < 0x20_0000_0000_0000,
    ensures
        n < 1024 ==> size_text(n) == text::decimal(n as nat) + " B"@,
        1024 <= n < 0x10_0000 && (-1024 < 2 * (k * 1024 - n) < 1024 || (k % 2 == 0 && -1024 <= 2 * (
        k * 1024 - n) <= 1024)) ==> size_text(n) == text::decimal(k) + " KB"@,
        n >= 0x10_0000 && (-0x10_0000 < 2 * (k * 0x10_0000 - n * 10) < 0x10_0000 || (k % 2 == 0
            && -0x10_0000 <= 2 * (k * 0x10_0000 - n * 10) <= 0x10_0000)) ==> size_text(n)
            == text::decimal(k / 10) + seq!['.'] + text::decimal(k % 10) + " MB"@,
{
    assert(spacing(n as nat) == 1);
    assert(half_even(n as nat, 1) * 1 == n);
    if n >= 0x10_0000 {
        let t = half_even(n as nat * 10, 0x10_0000);
        assert(text::decimal(t % 10) =~= seq![text::digit((t % 10) as int)]);
        assert(seq!['.'] + seq![text::digit((t % 10) as int)] =~= seq![
            '.',
            text::digit((t % 10) as int),
        ]);
        assert(text::decimal(t / 10) + seq!['.'] + text::decimal(t % 10) + " MB"@ =~= text::decimal(
            t / 10,
        ) + seq!['.', text::digit((t % 10) as int)] + " MB"@);
    }
}

/// What is said of a clip begins with the word for its kind, ends with its size, and has
/// when it was last used in between, whatever else the clip holds.
pub proof fn clips_are_described_by_kind_age_and_size(clip: ClipView, clock: Option<u64>)
    ensures
        ({
            let behind = " · "@ + age_of(clock, clip.last_used_at) + " · "@ + size_text(clip.bytes);
            let meta = meta_text(clip, clock);
            &&& clip.kind == ClipKind::Text ==> meta == "text"@ + behind
            &&& clip.kind == ClipKind::Url ==> meta == "url"@ + behind
            &&& clip.kind == ClipKind::HexColor ==> meta == "color"@ + behind
            &&& clip.kind == ClipKind::Json ==> meta == "json"@ + behind
            &&& clip.kind == ClipKind::Code ==> meta == "code"@ + behind
            &&& clip.kind == ClipKind::Image ==> meta == "image"@ + behind
        }),
{
    let behind = " · "@ + age_of(clock, clip.last_used_at) + " · "@ + size_text(clip.bytes);
    assert(meta_text(clip, clock) =~= kind_text(clip.kind) + behind);
}

proof fn doubles_are_not_far_apart(n: nat)
    ensures
        spacing(n) >= 1,
        n >= 0x20_0000_0000_0000 ==> spacing(n) * 0x10_0000_0000_0000 <= n,
        spacing(n) == 1 || n >= 0x20_0000_0000_0000,
    decreases n,
{
    if n >= 0x20_0000_0000_0000 {
        doubles_are_not_far_apart(n / 2);
    }
}

/// A double that stands for a size is off by at most one part in nine million billions.
pub proof fn doubles_are_near(n: nat)
    ensures
        n < 0x20_0000_0000_0000 ==> as_double(n) == n,
        -(n as int) <= 0x20_0000_0000_0000 * (as_double(n) - n) <= n,
{
    doubles_are_not_far_apart(n);
    nearest_is_near(n, spacing(n));
    if n < 0x20_0000_0000_0000 {
        assert(half_even(n, 1) * 1 == n);
    }
}

} // verus!
