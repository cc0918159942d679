//! Character-level text operations shared by the other modules.
//!
//! Strings are modelled by the sequence of their characters.

use vstd::prelude::*;
use vstd::string::{StrSliceExecFns, StringExecFns};

verus! {

/// The characters with the Unicode property `White_Space`.
pub open spec fn whitespace(c: char) -> bool {
    let u = c as u32;
    ||| 0x9 <= u <= 0xd
    ||| u == 0x20
    ||| u == 0x85
    ||| u == 0xa0
    ||| u == 0x1680
    ||| 0x2000 <= u <= 0x200a
    ||| u == 0x2028
    ||| u == 0x2029
    ||| u == 0x202f
    ||| u == 0x205f
    ||| u == 0x3000
}

/// The characters of the Unicode general category `Cc`.
pub open spec fn control(c: char) -> bool {
    let u = c as u32;
    u <= 0x1f || 0x7f <= u <= 0x9f
}

/// `c` with an ASCII capital letter made small.
pub open spec fn ascii_lower(c: char) -> char {
    if 'A' <= c && c <= 'Z' {
        (c as u32 + 32) as char
    } else {
        c
    }
}

/// `s` with every ASCII capital letter made small.
pub open spec fn ascii_lowered(s: Seq<char>) -> Seq<char> {
    Seq::new(s.len(), |i: int| ascii_lower(s[i]))
}

/// `s` without its leading whitespace.
pub open spec fn trim_start(s: Seq<char>) -> Seq<char>
    decreases s.len(),
{
    if s.len() > 0 && whitespace(s[0]) {
        trim_start(s.drop_first())
    } else {
        s
    }
}

/// `s` without its trailing whitespace.
pub open spec fn trim_end(s: Seq<char>) -> Seq<char>
    decreases s.len(),
{
    if s.len() > 0 && whitespace(s.last()) {
        trim_end(s.drop_last())
    } else {
        s
    }
}

/// `s` without the whitespace at its two ends.
pub open spec fn trimmed(s: Seq<char>) -> Seq<char> {
    trim_end(trim_start(s))
}

/// Some stretch of `s` reads `part`.
pub open spec fn occurs(part: Seq<char>, s: Seq<char>) -> bool {
    exists|i: int| occurs_at(part, s, i)
}

/// The stretch of `s` that starts at `i` reads `part`.
pub open spec fn occurs_at(part: Seq<char>, s: Seq<char>, i: int) -> bool {
    0 <= i && i + part.len() <= s.len() && s.subrange(i, i + part.len()) == part
}

pub fn is_whitespace(c: char) -> (b: bool)
    ensures
        b == whitespace(c),
{
    let u: u32 = c as u32;
    (0x9 <= u && u <= 0xd) || u == 0x20 || u == 0x85 || u == 0xa0 || u == 0x1680 || (0x2000 <= u
        && u <= 0x200a) || u == 0x2028 || u == 0x2029 || u == 0x202f || u == 0x205f || u == 0x3000
}

pub fn is_control(c: char) -> (b: bool)
    ensures
        b == control(c),
{
    let u: u32 = c as u32;
    u <= 0x1f || (0x7f <= u && u <= 0x9f)
}

/// `String::push` appends one character.
pub assume_specification[ String::push ](s: &mut String, c: char)
    ensures
        final(s)@ == old(s)@.push(c),
;

/// The characters of `s`, in order.
pub fn chars_of(s: &str) -> (chars: Vec<char>)
    ensures
        chars@ == s@,
{
    let mut chars: Vec<char> = Vec::new();
    for c in it: s.chars()
        invariant
            it.seq() == s@,
            chars@ == s@.take(it.index() as int),
    {
        chars.push(c);
    }
    chars
}

/// The string made of `chars`.
pub fn string_of(chars: &[char]) -> (s: String)
    ensures
        s@ == chars@,
{
    let mut s = String::new();
    for i in 0..chars.len()
        invariant
            s@ == chars@.take(i as int),
    {
        s.push(chars[i]);
    }
    s
}

pub fn to_ascii_lower(c: char) -> (r: char)
    ensures
        r == ascii_lower(c),
{
    if 'A' <= c && c <= 'Z' {
        (c as u8 + 32) as char
    } else {
        c
    }
}

/// `chars` with every ASCII capital letter made small.
pub fn to_ascii_lowered(chars: &[char]) -> (r: Vec<char>)
    ensures
        r@ == ascii_lowered(chars@),
{
    let mut r: Vec<char> = Vec::new();
    for i in 0..chars.len()
        invariant
            r@ == ascii_lowered(chars@).take(i as int),
    {
        r.push(to_ascii_lower(chars[i]));
    }
    r
}

/// `chars` without the whitespace at its two ends.
pub fn trim_chars(chars: &[char]) -> (r: &[char])
    ensures
        r@ == trimmed(chars@),
{
    let n = chars.len();
    let mut from: usize = 0;
    assert(chars@.skip(0) =~= chars@);
    while from < n && is_whitespace(chars[from])
        invariant
            from <= n == chars@.len(),
            trim_start(chars@) == trim_start(chars@.skip(from as int)),
        decreases n - from,
    {
        proof {
            let rest = chars@.skip(from as int);
            assert(rest.drop_first() =~= chars@.skip(from + 1));
        }
        from = from + 1;
    }
    let ghost inner = chars@.skip(from as int);
    assert(trim_start(chars@) == inner);
    let mut to: usize = n;
    assert(inner.take(to - from) =~= inner);
    while from < to && is_whitespace(chars[to - 1])
        invariant
            from <= to <= n == chars@.len(),
            inner == chars@.skip(from as int),
            trim_end(inner) == trim_end(inner.take(to - from)),
        decreases to,
    {
        proof {
            let rest = inner.take(to - from);
            assert(rest.drop_last() =~= inner.take(to - from - 1));
        }
        to = to - 1;
    }
    assert(trim_end(inner) == inner.take(to - from));
    assert(chars@.subrange(from as int, to as int) =~= inner.take(to - from));
    &chars[from..to]
}

/// `s` without the whitespace at its two ends.
pub fn trim(s: &str) -> (r: String)
    ensures
        r@ == trimmed(s@),
{
    string_of(trim_chars(chars_of(s).as_slice()))
}

/// Whether the stretch of `s` that starts at `at` reads `part`.
fn reads_at(part: &[char], s: &[char], at: usize) -> (b: bool)
    ensures
        b == occurs_at(part@, s@, at as int),
{
    if at > s.len() || part.len() > s.len() - at {
        return false;
    }
    for i in 0..part.len()
        invariant
            at + part.len() <= s.len(),
            forall|j: int| 0 <= j < i ==> s@[at + j] == part@[j],
    {
        if s[at + i] != part[i] {
            assert(s@.subrange(at as int, at + part@.len())[i as int] != part@[i as int]);
            return false;
        }
    }
    assert(s@.subrange(at as int, at + part@.len()) =~= part@);
    true
}

/// Whether `s` begins with `prefix`.
pub fn chars_start_with(s: &[char], prefix: &str) -> (b: bool)
    ensures
        b == prefix@.is_prefix_of(s@),
{
    reads_at(chars_of(prefix).as_slice(), s, 0)
}

/// Whether `s` begins with `prefix`.
pub fn starts_with(s: &str, prefix: &str) -> (b: bool)
    ensures
        b == prefix@.is_prefix_of(s@),
{
    chars_start_with(chars_of(s).as_slice(), prefix)
}

/// Whether `part` occurs in `s`.
pub fn chars_contain(s: &[char], part: &str) -> (b: bool)
    ensures
        b == occurs(part@, s@),
{
    let sought = chars_of(part);
    for at in 0..s.len()
        invariant
            sought@ == part@,
            forall|j: int| 0 <= j < at ==> !occurs_at(part@, s@, j),
    {
        if reads_at(sought.as_slice(), s, at) {
            assert(occurs_at(part@, s@, at as int));
            return true;
        }
    }
    let b = reads_at(sought.as_slice(), s, s.len());
    assert forall|j: int| occurs_at(part@, s@, j) implies b by {
        assert(j == s@.len());
    }
    b
}

/// Whether `part` occurs in `s`.
pub fn contains(s: &str, part: &str) -> (b: bool)
    ensures
        b == occurs(part@, s@),
{
    chars_contain(chars_of(s).as_slice(), part)
}

/// Whether `a` and `b` hold the same characters.
pub fn same_chars(a: &[char], b: &[char]) -> (r: bool)
    ensures
        r == (a@ == b@),
{
    if a.len() != b.len() {
        return false;
    }
    for i in 0..a.len()
        invariant
            a@.len() == b@.len(),
            forall|j: int| 0 <= j < i ==> a@[j] == b@[j],
    {
        if a[i] != b[i] {
            return false;
        }
    }
    assert(a@ =~= b@);
    true
}

/// Whether `a` and `b` read the same.
pub fn same_text(a: &str, b: &str) -> (r: bool)
    ensures
        r == (a@ == b@),
{
    same_chars(chars_of(a).as_slice(), chars_of(b).as_slice())
}

/// The maximal stretches of `s` without whitespace, in order.
pub open spec fn words(s: Seq<char>) -> Seq<Seq<char>>
    decreases s.len(),
{
    if s.len() == 0 {
        Seq::empty()
    } else {
        let before = words(s.drop_last());
        let c = s.last();
        if whitespace(c) {
            before
        } else if s.len() > 1 && !whitespace(s[s.len() - 2]) {
            before.drop_last().push(before.last().push(c))
        } else {
            before.push(seq![c])
        }
    }
}

/// The sequences held by `v`.
pub open spec fn views(v: Seq<Vec<char>>) -> Seq<Seq<char>> {
    Seq::new(v.len(), |i: int| v[i]@)
}

/// The texts that `v` holds.
pub open spec fn texts_of(v: Seq<String>) -> Seq<Seq<char>> {
    Seq::new(v.len(), |i: int| v[i]@)
}

/// The words of `chars`, in order.
pub fn split_words(chars: &[char]) -> (r: Vec<Vec<char>>)
    ensures
        views(r@) == words(chars@),
{
    let mut done: Vec<Vec<char>> = Vec::new();
    let mut word: Vec<char> = Vec::new();
    for i in 0..chars.len()
        invariant
            word@.len() > 0 <==> i > 0 && !whitespace(chars@[i - 1]),
            words(chars@.take(i as int)) == if word@.len() > 0 {
                views(done@).push(word@)
            } else {
                views(done@)
            },
    {
        let c = chars[i];
        proof {
            let now = chars@.take(i + 1);
            assert(now.drop_last() =~= chars@.take(i as int));
            assert(now.last() == c);
            if i > 0 {
                assert(now[now.len() - 2] == chars@[i - 1]);
            }
        }
        if is_whitespace(c) {
            if word.len() > 0 {
                let ghost had = views(done@);
                let full = word;
                word = Vec::new();
                done.push(full);
                assert(views(done@) =~= had.push(full@));
            }
        } else {
            let ghost had = word@;
            word.push(c);
            proof {
                let base = views(done@);
                if had.len() > 0 {
                    assert(base.push(had).drop_last() =~= base);
                } else {
                    assert(word@ =~= seq![c]);
                }
            }
        }
    }
    assert(chars@.take(chars@.len() as int) =~= chars@);
    if word.len() > 0 {
        let ghost had = views(done@);
        let ghost full = word@;
        done.push(word);
        assert(views(done@) =~= had.push(full));
    }
    done
}

/// Words hold at least one character each and no whitespace, and together they
/// hold every other character of the text, in order.
pub proof fn words_are_the_text_without_whitespace(s: Seq<char>)
    ensures
        forall|i: int|
            0 <= i < words(s).len() ==> (#[trigger] words(s)[i]).len() > 0 && forall|j: int|
                0 <= j < words(s)[i].len() ==> !whitespace(#[trigger] words(s)[i][j]),
        words(s).flatten() == s.filter(|c: char| !whitespace(c)),
        s.len() > 0 && !whitespace(s.last()) ==> words(s).len() > 0,
    decreases s.len(),
{
    let keep = |c: char| !whitespace(c);
    reveal(Seq::filter);
    if s.len() == 0 {
        assert(words(s).flatten() =~= Seq::<char>::empty());
    } else {
        let front = s.drop_last();
        words_are_the_text_without_whitespace(front);
        let before = words(front);
        let c = s.last();
        if whitespace(c) {
        } else if s.len() > 1 && !whitespace(s[s.len() - 2]) {
            assert(front.last() == s[s.len() - 2]);
            let grown = before.last().push(c);
            before.lemma_flatten_and_flatten_alt_are_equivalent();
            words(s).lemma_flatten_and_flatten_alt_are_equivalent();
            assert(words(s).drop_last() =~= before.drop_last());
            assert(words(s).flatten_alt() =~= before.flatten_alt().push(c));
        } else {
            before.lemma_flatten_and_flatten_alt_are_equivalent();
            words(s).lemma_flatten_and_flatten_alt_are_equivalent();
            assert(words(s).drop_last() =~= before);
            assert(words(s).flatten_alt() =~= before.flatten_alt().push(c));
        }
    }
}

/// The stretches of `s` between its line feeds, in order.
pub open spec fn lines(s: Seq<char>) -> Seq<Seq<char>>
    decreases s.len(),
{
    if s.len() == 0 {
        seq![Seq::empty()]
    } else {
        let before = lines(s.drop_last());
        if s.last() == '\n' {
            before.push(Seq::empty())
        } else {
            before.drop_last().push(before.last().push(s.last()))
        }
    }
}

/// The lines of `chars`, in order.
pub fn split_lines(chars: &[char]) -> (r: Vec<Vec<char>>)
    ensures
        views(r@) == lines(chars@),
{
    let mut done: Vec<Vec<char>> = Vec::new();
    let mut line: Vec<char> = Vec::new();
    assert(lines(chars@.take(0)) =~= views(done@).push(line@));
    for i in 0..chars.len()
        invariant
            lines(chars@.take(i as int)) == views(done@).push(line@),
    {
        let c = chars[i];
        let ghost had = views(done@);
        let ghost open = line@;
        proof {
            let now = chars@.take(i + 1);
            assert(now.drop_last() =~= chars@.take(i as int));
            assert(now.last() == c);
            assert(had.push(open).drop_last() =~= had);
        }
        if c == '\n' {
            let full = line;
            line = Vec::new();
            done.push(full);
            assert(views(done@) =~= had.push(open));
            assert(line@ =~= Seq::<char>::empty());
        } else {
            line.push(c);
        }
    }
    assert(chars@.take(chars@.len() as int) =~= chars@);
    let ghost had = views(done@);
    let ghost open = line@;
    done.push(line);
    assert(views(done@) =~= had.push(open));
    done
}

/// The number that decimal digits stand for.
pub open spec fn value(digits: Seq<char>) -> nat
    decreases digits.len(),
{
    if digits.len() == 0 {
        0
    } else {
        value(digits.drop_last()) * 10 + (digits.last() as u32 - '0' as u32) as nat
    }
}

/// Whether `s` is made of decimal digits, and of at least one.
pub open spec fn numeral(s: Seq<char>) -> bool {
    s.len() > 0 && forall|i: int| 0 <= i < s.len() ==> '0' <= #[trigger] s[i] && s[i] <= '9'
}

/// The number that `s` gives in decimal, with or without a plus sign in front.
pub open spec fn number(s: Seq<char>) -> Option<nat> {
    let digits = if s.len() > 0 && s[0] == '+' {
        s.skip(1)
    } else {
        s
    };
    if numeral(digits) {
        Some(value(digits))
    } else {
        None
    }
}

/// Reads a number that fits in 32 bits.
pub fn parse_u32(chars: &[char]) -> (n: Option<u32>)
    ensures
        match n {
            Some(v) => number(chars@) == Some(v as nat),
            None => number(chars@) is None || number(chars@)->0 > u32::MAX,
        },
{
    let from: usize = if chars.len() > 0 && chars[0] == '+' {
        1
    } else {
        0
    };
    let ghost digits = chars@.skip(from as int);
    assert(from == 0 ==> digits =~= chars@);
    let mut v: u64 = 0;
    let mut too_big = false;
    for i in from..chars.len()
        invariant
            from <= 1,
            from <= chars@.len(),
            digits == chars@.skip(from as int),
            forall|j: int|
                0 <= j < i - from ==> '0' <= #[trigger] digits[j] && digits[j] <= '9',
            !too_big ==> v == value(digits.take(i - from)) && v <= u32::MAX,
            too_big ==> value(digits.take(i - from)) > u32::MAX,
            number(chars@) == if numeral(digits) {
                Some(value(digits))
            } else {
                None
            },
    {
        let c = chars[i];
        proof {
            assert(digits[i - from] == c);
            let upto = digits.take(i - from + 1);
            assert(upto.drop_last() =~= digits.take(i - from));
            assert(upto.last() == c);
        }
        if !('0' <= c && c <= '9') {
            return None;
        }
        if !too_big {
            v = v * 10 + (c as u64 - 48);
            too_big = v > 0xffff_ffff;
        }
    }
    assert(digits.take(digits.len() as int) =~= digits);
    if too_big || from == chars.len() {
        None
    } else {
        Some(v as u32)
    }
}

/// The decimal digit of value `d`.
pub open spec fn digit(d: int) -> char
    recommends
        0 <= d < 10,
{
    ('0' as u32 + d) as char
}

/// `n` in decimal, without leading zeros.
pub open spec fn decimal(n: nat) -> Seq<char>
    decreases n,
{
    if n < 10 {
        seq![digit(n as int)]
    } else {
        decimal(n / 10).push(digit((n % 10) as int))
    }
}

/// `n` in decimal, behind a minus sign where it is negative.
pub open spec fn signed_decimal(n: int) -> Seq<char> {
    if n < 0 {
        seq!['-'] + decimal((-n) as nat)
    } else {
        decimal(n as nat)
    }
}

/// Appends `n` in decimal.
pub fn push_decimal(out: &mut String, n: u128)
    ensures
        final(out)@ == old(out)@ + decimal(n as nat),
    decreases n,
{
    if n >= 10 {
        push_decimal(out, n / 10);
    }
    let d: u8 = (n % 10) as u8;
    out.push((48 + d) as char);
    assert(out@ =~= old(out)@ + decimal(n as nat));
}

/// Appends `n` in decimal, behind a minus sign where it is negative.
pub fn push_signed_decimal(out: &mut String, n: i64)
    ensures
        final(out)@ == old(out)@ + signed_decimal(n as int),
{
    if n < 0 {
        out.push('-');
        push_decimal(out, (-(n as i128)) as u128);
    } else {
        push_decimal(out, n as u128);
    }
    assert(out@ =~= old(out)@ + signed_decimal(n as int));
}

/// A number is read back from its decimal digits.
pub proof fn decimals_are_read_back(n: nat)
    ensures
        numeral(decimal(n)),
        value(decimal(n)) == n,
        number(decimal(n)) == Some(n),
    decreases n,
{
    if n >= 10 {
        decimals_are_read_back(n / 10);
        let front = decimal(n / 10);
        assert(decimal(n).drop_last() =~= front);
        assert forall|i: int| 0 <= i < decimal(n).len() implies '0' <= #[trigger] decimal(n)[i]
            && decimal(n)[i] <= '9' by {
            if i < front.len() {
                assert(decimal(n)[i] == front[i]);
            }
        }
    } else {
        assert(decimal(n).drop_last() =~= Seq::<char>::empty());
        assert(value(Seq::<char>::empty()) == 0);
    }
}

/// Text without whitespace is one word, and whitespace between two texts parts their words.
pub proof fn words_are_parted_by_whitespace(a: Seq<char>, space: char, b: Seq<char>)
    requires
        whitespace(space),
    ensures
        words(a.push(space) + b) == words(a) + words(b),
        a.len() > 0 && (forall|i: int| 0 <= i < a.len() ==> !whitespace(#[trigger] a[i])) ==> words(
            a,
        ) == seq![a],
        words(Seq::empty()).len() == 0,
    decreases a.len() + b.len(),
{
    let s = a.push(space) + b;
    if b.len() == 0 {
        assert(s =~= a.push(space));
        assert(s.drop_last() =~= a);
        assert(words(a) + words(b) =~= words(a));
    } else {
        let front = b.drop_last();
        let c = b.last();
        words_are_parted_by_whitespace(a, space, front);
        assert(s.drop_last() =~= a.push(space) + front);
        assert(s.last() == c);
        if front.len() > 0 {
            assert(s[s.len() - 2] == b[b.len() - 2]);
            assert(front.last() == b[b.len() - 2]);
        } else {
            assert(s[s.len() - 2] == space);
        }
        if !whitespace(c) {
            let (x, y) = (words(a), words(front));
            if front.len() > 0 && !whitespace(front.last()) {
                words_are_the_text_without_whitespace(front);
                assert((x + y).drop_last() =~= x + y.drop_last());
                assert((x + y).last() == y.last());
                assert(x + y.drop_last().push(y.last().push(c)) =~= (x + y.drop_last()).push(
                    y.last().push(c),
                ));
            } else {
                assert(x + y.push(seq![c]) =~= (x + y).push(seq![c]));
            }
        }
    }
    if a.len() > 0 && (forall|i: int| 0 <= i < a.len() ==> !whitespace(#[trigger] a[i])) {
        one_word(a);
    }
}

proof fn one_word(w: Seq<char>)
    requires
        w.len() > 0,
        forall|i: int| 0 <= i < w.len() ==> !whitespace(#[trigger] w[i]),
    ensures
        words(w) == seq![w],
    decreases w.len(),
{
    let v = w.drop_last();
    let c = w.last();
    assert(!whitespace(w[w.len() - 1]));
    if v.len() == 0 {
        assert(words(v) =~= Seq::<Seq<char>>::empty());
        assert(w =~= seq![c]);
        assert(words(w) =~= seq![w]);
    } else {
        assert forall|i: int| 0 <= i < v.len() implies !whitespace(#[trigger] v[i]) by {
            assert(v[i] == w[i]);
        }
        one_word(v);
        assert(!whitespace(w[w.len() - 2]));
        assert(v.push(c) =~= w);
        assert(words(w) =~= seq![w]);
    }
}

/// Text without line feeds is one line, and a line feed between two texts parts their lines.
pub proof fn lines_are_parted_by_line_feeds(a: Seq<char>, b: Seq<char>)
    ensures
        lines(a.push('\n') + b) == lines(a) + lines(b),
        !a.contains('\n') ==> lines(a) == seq![a],
        lines(b).len() > 0,
    decreases a.len() + b.len(),
{
    let s = a.push('\n') + b;
    if b.len() == 0 {
        assert(s =~= a.push('\n'));
        assert(s.drop_last() =~= a);
        assert(lines(a) + lines(b) =~= lines(a).push(Seq::empty()));
    } else {
        let front = b.drop_last();
        let c = b.last();
        lines_are_parted_by_line_feeds(a, front);
        assert(s.drop_last() =~= a.push('\n') + front);
        assert(s.last() == c);
        let (x, y) = (lines(a), lines(front));
        if c == '\n' {
            assert(x + y.push(Seq::empty()) =~= (x + y).push(Seq::empty()));
        } else {
            assert((x + y).drop_last() =~= x + y.drop_last());
            assert((x + y).last() == y.last());
            assert(x + y.drop_last().push(y.last().push(c)) =~= (x + y.drop_last()).push(
                y.last().push(c),
            ));
        }
    }
    if !a.contains('\n') {
        one_line(a);
    }
}

proof fn one_line(s: Seq<char>)
    requires
        !s.contains('\n'),
    ensures
        lines(s) == seq![s],
    decreases s.len(),
{
    if s.len() == 0 {
        assert(s =~= Seq::<char>::empty());
        assert(lines(s) =~= seq![s]);
    } else {
        let v = s.drop_last();
        assert(s[s.len() - 1] == s.last());
        assert(!v.contains('\n')) by {
            if v.contains('\n') {
                let i = choose|i: int| 0 <= i < v.len() && v[i] == '\n';
                assert(s[i] == '\n');
            }
        }
        one_line(v);
        assert(v.push(s.last()) =~= s);
        assert(lines(s) =~= seq![s]);
    }
}

/// Trimming takes whitespace from the two ends and nothing else: what is left begins and ends
/// with other characters, and whitespace that is put around it is taken off again.
pub proof fn trimming_takes_off_whitespace(before: Seq<char>, s: Seq<char>, behind: Seq<char>)
    requires
        forall|i: int| 0 <= i < before.len() ==> whitespace(#[trigger] before[i]),
        forall|i: int| 0 <= i < behind.len() ==> whitespace(#[trigger] behind[i]),
    ensures
        trimmed(before + s + behind) == trimmed(s),
        s.len() > 0 && !whitespace(s[0]) && !whitespace(s.last()) ==> trimmed(s) == s,
        trimmed(s).len() > 0 ==> !whitespace(trimmed(s)[0]) && !whitespace(trimmed(s).last()),
    decreases before.len() + behind.len(),
{
    if before.len() > 0 {
        let all = before + s + behind;
        let rest = before.drop_first();
        assert forall|i: int| 0 <= i < rest.len() implies whitespace(#[trigger] rest[i]) by {
            assert(rest[i] == before[i + 1]);
        }
        trimming_takes_off_whitespace(rest, s, behind);
        assert(whitespace(before[0]));
        assert(all.drop_first() =~= rest + s + behind);
    } else if behind.len() > 0 {
        let rest = behind.drop_last();
        assert forall|i: int| 0 <= i < rest.len() implies whitespace(#[trigger] rest[i]) by {
            assert(rest[i] == behind[i]);
        }
        trimming_takes_off_whitespace(before, s, rest);
        assert(before + s + rest =~= s + rest);
        assert(before + s + behind =~= (s + rest).push(behind.last()));
        assert(whitespace(behind[behind.len() - 1]));
        one_more_at_the_end(s + rest, behind.last());
    } else {
        assert(before + s + behind =~= s);
    }
    trimmed_ends(s);
}

proof fn one_more_at_the_end(s: Seq<char>, c: char)
    requires
        whitespace(c),
    ensures
        trimmed(s.push(c)) == trimmed(s),
    decreases s.len(),
{
    if s.len() == 0 {
        assert(s.push(c).drop_first() =~= s);
    } else if whitespace(s[0]) {
        assert(s.push(c).drop_first() =~= s.drop_first().push(c));
        one_more_at_the_end(s.drop_first(), c);
    } else {
        assert(s.push(c).drop_last() =~= s);
    }
}

proof fn trimmed_ends(s: Seq<char>)
    ensures
        trimmed(s).len() > 0 ==> !whitespace(trimmed(s)[0]) && !whitespace(trimmed(s).last()),
    decreases s.len(),
{
    if s.len() > 0 && whitespace(s[0]) {
        trimmed_ends(s.drop_first());
    } else {
        trimmed_end(s);
    }
}

proof fn trimmed_end(s: Seq<char>)
    requires
        s.len() > 0 ==> !whitespace(s[0]),
    ensures
        trim_end(s).len() > 0 ==> trim_end(s)[0] == s[0] && !whitespace(trim_end(s).last()),
    decreases s.len(),
{
    if s.len() > 0 && whitespace(s.last()) {
        trimmed_end(s.drop_last());
    }
}

/// A text occurs in every text around it.
pub proof fn parts_occur(before: Seq<char>, part: Seq<char>, behind: Seq<char>)
    ensures
        occurs(part, before + part + behind),
{
    let s = before + part + behind;
    assert(s.subrange(before.len() as int, (before.len() + part.len()) as int) =~= part);
    assert(occurs_at(part, s, before.len() as int));
}

/// Where a text occurs, the text around it can be told.
pub proof fn texts_occur_in_texts_around_them(part: Seq<char>, s: Seq<char>) -> (around: (
    Seq<char>,
    Seq<char>,
))
    requires
        occurs(part, s),
    ensures
        around.0 + part + around.1 == s,
{
    let i = choose|i: int| occurs_at(part, s, i);
    let around = (s.take(i), s.skip(i + part.len()));
    assert(around.0 + part + around.1 =~= s);
    around
}

/// Of the ASCII characters the space, the tab and the other characters that part lines are
/// whitespace, and those without a shape are control characters. No letter, digit or mark is
/// either.
pub proof fn ascii_characters_are_told(c: char)
    requires
        c as u32 <= 0x7f,
    ensures
        whitespace(c) <==> c == ' ' || c == '\t' || c == '\n' || c == '\x0b' || c == '\x0c' || c
            == '\r',
        control(c) <==> c < ' ' || c == '\x7f',
{
}

/// Only capital letters are made small, each to the letter of the same place in the alphabet,
/// and what is small stays as it is.
pub proof fn capital_letters_are_made_small(s: Seq<char>, i: int)
    requires
        0 <= i < s.len(),
    ensures
        ascii_lowered(s).len() == s.len(),
        'A' <= s[i] <= 'Z' ==> ascii_lowered(s)[i] as u32 - 'a' as u32 == s[i] as u32 - 'A' as u32,
        !('A' <= s[i] <= 'Z') ==> ascii_lowered(s)[i] == s[i],
        ascii_lowered(ascii_lowered(s)) == ascii_lowered(s),
{
    assert(ascii_lowered(ascii_lowered(s)) =~= ascii_lowered(s));
}

/// Decimal digits stand one behind the other: ten times a number and a digit is the number
/// with the digit behind it. A minus sign stands before a negative number.
pub proof fn decimals_have_their_digits(n: nat, d: nat)
    requires
        d < 10,
    ensures
        decimal(d).len() == 1 && decimal(d)[0] as u32 == '0' as u32 + d,
        n > 0 ==> decimal(n * 10 + d) == decimal(n) + decimal(d),
        signed_decimal(n as int) == decimal(n),
        n > 0 ==> signed_decimal(-n) == seq!['-'] + decimal(n),
{
    if n > 0 {
        assert((n * 10 + d) / 10 == n && (n * 10 + d) % 10 == d);
        assert(decimal(n * 10 + d) =~= decimal(n) + decimal(d));
    }
}

} // verus!
