//! The color that a clip shows.

use crate::classify;
use crate::classify::utf8_text;
use crate::proto::ClipKind;
use crate::text;
use vstd::prelude::*;

verus! {

/// The value of a hexadecimal digit.
pub open spec fn nibble(b: u8) -> Option<u8> {
    if 48 <= b <= 57 {
        Some((b - 48) as u8)
    } else if 97 <= b <= 102 {
        Some((b - 87) as u8)
    } else if 65 <= b <= 70 {
        Some((b - 55) as u8)
    } else {
        None
    }
}

/// The channel that one digit stands for: the digit twice.
pub open spec fn expanded(b: u8) -> Option<u8> {
    match nibble(b) {
        Some(n) => Some((n * 17) as u8),
        None => None,
    }
}

/// The channel that two characters stand for: two digits, or one behind a plus sign.
pub open spec fn pair(a: u8, b: u8) -> Option<u8> {
    match (nibble(a), nibble(b)) {
        (Some(h), Some(l)) => Some((h * 16 + l) as u8),
        (None, Some(l)) => if a == 43 {
            Some(l)
        } else {
            None
        },
        _ => None,
    }
}

/// The color that the digits behind the `#` stand for, if there are 3, 6 or 8 of them.
pub open spec fn color(digits: Seq<u8>) -> Option<(u8, u8, u8)> {
    let channels = if digits.len() == 3 {
        (expanded(digits[0]), expanded(digits[1]), expanded(digits[2]))
    } else if digits.len() == 6 || digits.len() == 8 {
        (
            pair(digits[0], digits[1]),
            pair(digits[2], digits[3]),
            pair(digits[4], digits[5]),
        )
    } else {
        (None, None, None)
    };
    match channels {
        (Some(r), Some(g), Some(b)) => Some((r, g, b)),
        _ => None,
    }
}

/// Taking the channels two bytes at a time cuts a character in two.
pub open spec fn cut(digits: Seq<u8>) -> bool {
    &&& digits.len() == 6 || digits.len() == 8
    &&& !vstd::utf8::is_char_boundary(digits, 2) || (pair(digits[0], digits[1]) is Some && (
    !vstd::utf8::is_char_boundary(digits, 4) || (pair(digits[2], digits[3]) is Some
        && !vstd::utf8::is_char_boundary(digits, 6))))
}

/// What stands behind the `#` at the front of a text, apart from whitespace at its ends.
pub open spec fn digits_of(body: Seq<u8>) -> Option<Seq<u8>> {
    let s = text::trimmed(vstd::utf8::decode_utf8(body));
    if vstd::utf8::valid_utf8(body) && s.len() > 0 && s[0] == '#' {
        Some(vstd::utf8::encode_utf8(s.skip(1)))
    } else {
        None
    }
}

/// The color that a clip with this body shows.
pub open spec fn swatch(body: Seq<u8>) -> Option<(u8, u8, u8)> {
    match digits_of(body) {
        Some(digits) => color(digits),
        None => None,
    }
}

/// The channels of the color can be taken from the body without cutting a character in two.
pub open spec fn sliceable(body: Seq<u8>) -> bool {
    match digits_of(body) {
        Some(digits) => !cut(digits),
        None => true,
    }
}

fn nibble_of(b: u8) -> (n: Option<u8>)
    ensures
        n == nibble(b),
        n matches Some(v) ==> v < 16,
{
    if 48 <= b && b <= 57 {
        Some(b - 48)
    } else if 97 <= b && b <= 102 {
        Some(b - 87)
    } else if 65 <= b && b <= 70 {
        Some(b - 55)
    } else {
        None
    }
}

/// The channel that one digit stands for: the digit twice.
pub fn expand_nibble(c: u8) -> (channel: Option<u8>)
    ensures
        channel == expanded(c),
{
    match nibble_of(c) {
        Some(n) => Some(n * 17),
        None => None,
    }
}

fn pair_of(a: u8, b: u8) -> (channel: Option<u8>)
    ensures
        channel == pair(a, b),
{
    match (nibble_of(a), nibble_of(b)) {
        (Some(h), Some(l)) => Some(h * 16 + l),
        (None, Some(l)) => if a == 43 {
            Some(l)
        } else {
            None
        },
        _ => None,
    }
}

/// What stands behind the `#` at the front of a text, apart from whitespace at its ends.
fn behind_hash(body: &[u8]) -> (digits: Option<String>)
    ensures
        match digits {
            Some(d) => digits_of(body@) == Some(vstd::utf8::encode_utf8(d@)),
            None => digits_of(body@) is None,
        },
{
    let s = match utf8_text(body) {
        Some(s) => s,
        None => {
            return None;
        },
    };
    let trimmed = text::trim(s);
    let chars = text::chars_of(trimmed.as_str());
    if chars.len() == 0 || chars[0] != '#' {
        return None;
    }
    assert(chars@.subrange(1, chars@.len() as int) =~= chars@.skip(1));
    Some(text::string_of(&chars.as_slice()[1..chars.len()]))
}

/// Whether the channels of the color can be taken from the body without cutting a
/// character in two.
pub fn is_sliceable(body: &[u8]) -> (b: bool)
    ensures
        b == sliceable(body@),
{
    match behind_hash(body) {
        None => true,
        Some(digits) => {
            let s = digits.as_str();
            let b = s.as_bytes();
            !((b.len() == 6 || b.len() == 8) && (!s.is_char_boundary(2) || (pair_of(
                b[0],
                b[1],
            ).is_some() && (!s.is_char_boundary(4) || (pair_of(b[2], b[3]).is_some()
                && !s.is_char_boundary(6))))))
        },
    }
}

/// The color that a clip with this body shows.
pub fn build_hex_swatch(body: &[u8]) -> (rgb: Option<(u8, u8, u8)>)
    requires
        sliceable(body@),
    ensures
        rgb == swatch(body@),
{
    let digits = match behind_hash(body) {
        Some(d) => d,
        None => {
            return None;
        },
    };
    let b = digits.as_str().as_bytes();
    let (red, green, blue) = if b.len() == 3 {
        (expand_nibble(b[0]), expand_nibble(b[1]), expand_nibble(b[2]))
    } else if b.len() == 6 || b.len() == 8 {
        (pair_of(b[0], b[1]), pair_of(b[2], b[3]), pair_of(b[4], b[5]))
    } else {
        (None, None, None)
    };
    match (red, green, blue) {
        (Some(r), Some(g), Some(b)) => Some((r, g, b)),
        _ => None,
    }
}

proof fn hex_digits_are_nibbles(s: Seq<char>)
    requires
        forall|i: int| 0 <= i < s.len() ==> classify::hex_digit(#[trigger] s[i]),
    ensures
        ({
            let b = vstd::utf8::encode_utf8(s);
            &&& b.len() == s.len()
            &&& vstd::utf8::valid_utf8(b)
            &&& forall|i: int| 0 <= i < b.len() ==> nibble(#[trigger] b[i]) is Some
            &&& forall|i: int|
                0 <= i <= b.len() ==> #[trigger] vstd::utf8::is_char_boundary(b, i)
        }),
{
    let b = vstd::utf8::encode_utf8(s);
    assert(vstd::utf8::is_ascii_chars(s)) by {
        assert forall|i: int| 0 <= i < s.len() implies '\0' <= #[trigger] s[i] <= '\u{7f}' by {
            assert(classify::hex_digit(s[i]));
        }
    }
    vstd::utf8::is_ascii_chars_encode_utf8(s);
    vstd::utf8::encode_utf8_valid_utf8(s);
    assert forall|i: int| 0 <= i < b.len() implies nibble(#[trigger] b[i]) is Some by {
        assert(classify::hex_digit(s[i]));
        assert(s[i] as u8 == b[i]);
    }
    assert forall|i: int| 0 <= i <= b.len() implies #[trigger] vstd::utf8::is_char_boundary(
        b,
        i,
    ) by {
        if i == b.len() {
            vstd::utf8::is_char_boundary_start_end_of_seq(b);
        } else {
            assert(nibble(b[i]) is Some);
            vstd::utf8::is_char_boundary_iff_is_leading_byte(b, i);
        }
    }
}

/// A clip that is classified as a color can always be asked for its color, and shows one
/// unless it is `#` and four digits.
pub proof fn colors_are_shown(mime: Seq<char>, body: Seq<u8>)
    requires
        classify::kind_of(mime, body) == ClipKind::HexColor,
    ensures
        sliceable(body),
        swatch(body) is Some <==> text::trimmed(vstd::utf8::decode_utf8(body)).len() != 5,
{
    let s = text::trimmed(vstd::utf8::decode_utf8(body));
    let rest = s.skip(1);
    assert forall|i: int| 0 <= i < rest.len() implies classify::hex_digit(#[trigger] rest[i]) by {
        assert(rest[i] == s[i + 1]);
    }
    hex_digits_are_nibbles(rest);
}

/// The byte `b` is the hexadecimal digit of value `v`, small or capital.
pub open spec fn denotes(b: u8, v: int) -> bool {
    if v < 10 {
        0 <= v && b == 48 + v
    } else {
        v < 16 && (b == 87 + v || b == 55 + v)
    }
}

/// Every color is read from its digits: two for each channel, the more significant one first.
/// Two digits for the opacity may follow, which is not shown. Three digits are short for each
/// of them twice, and other numbers of digits give no color.
pub proof fn colors_are_read_from_their_digits(digits: Seq<u8>, rgb: (u8, u8, u8))
    ensures
        (digits.len() == 6 || digits.len() == 8) && denotes(digits[0], rgb.0 as int / 16) && denotes(
            digits[1],
            rgb.0 as int % 16,
        ) && denotes(digits[2], rgb.1 as int / 16) && denotes(digits[3], rgb.1 as int % 16) && denotes(
            digits[4],
            rgb.2 as int / 16,
        ) && denotes(digits[5], rgb.2 as int % 16) ==> color(digits) == Some(rgb),
        digits.len() == 8 ==> color(digits) == color(digits.take(6)),
        digits.len() == 3 ==> color(digits) == color(
            seq![digits[0], digits[0], digits[1], digits[1], digits[2], digits[2]],
        ),
        color(digits) is Some ==> digits.len() == 3 || digits.len() == 6 || digits.len() == 8,
{
    if digits.len() == 3 {
        let twice = seq![digits[0], digits[0], digits[1], digits[1], digits[2], digits[2]];
        assert(twice.len() == 6);
    }
}

/// Only hexadecimal digits make a color, apart from plus signs before single digits.
pub proof fn colors_are_made_of_digits(digits: Seq<u8>, i: int)
    requires
        color(digits) is Some,
        0 <= i < digits.len(),
        i < 6,
    ensures
        (exists|v: int| 0 <= v < 16 && #[trigger] denotes(digits[i], v)) || (digits[i] == 43 && i % 2
            == 0),
{
    let b = digits[i];
    if 48 <= b <= 57 {
        assert(denotes(b, b - 48));
    } else if 97 <= b <= 102 {
        assert(denotes(b, b - 87));
    } else if 65 <= b <= 70 {
        assert(denotes(b, b - 55));
    } else {
        assert(nibble(b) is None);
    }
}

/// The color of a clip is that of the digits behind its `#`, with whitespace around it or
/// without, and there is none without a `#`.
pub proof fn colors_stand_behind_a_hash(body: Seq<u8>, digits: Seq<char>)
    requires
        vstd::utf8::valid_utf8(body),
    ensures
        text::trimmed(vstd::utf8::decode_utf8(body)) == seq!['#'] + digits ==> swatch(body) == color(
            vstd::utf8::encode_utf8(digits),
        ),
        !seq!['#'].is_prefix_of(text::trimmed(vstd::utf8::decode_utf8(body))) ==> swatch(body)
            is None,
{
    let s = text::trimmed(vstd::utf8::decode_utf8(body));
    assert((seq!['#'] + digits).skip(1) =~= digits);
    if s.len() > 0 && s[0] == '#' {
        assert(s.subrange(0, 1) =~= seq!['#']);
    }
}

} // verus!
