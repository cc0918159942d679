//! What kind of thing a clip is, and how it reads in one line.

use crate::proto::ClipKind;
use crate::text;
use vstd::prelude::*;
use vstd::string::StringExecFns;

verus! {

/// `std::str::from_utf8` reads valid UTF-8 as text and refuses everything else.
#[verifier::external_body]
pub(crate) fn utf8_text(body: &[u8]) -> (text: Option<&str>)
    ensures
        match text {
            Some(s) => vstd::utf8::valid_utf8(body@) && s@ == vstd::utf8::decode_utf8(body@),
            None => !vstd::utf8::valid_utf8(body@),
        },
{
    std::str::from_utf8(body).ok()
}

/// The text that `String::from_utf8_lossy` makes of bytes.
pub uninterp spec fn lossy_text(body: Seq<u8>) -> Seq<char>;

/// `String::from_utf8_lossy` reads bytes as UTF-8 and puts replacement characters where
/// they are not. Valid UTF-8 is read as what it encodes.
#[verifier::external_body]
pub(crate) fn utf8_text_lossy(body: &[u8]) -> (text: String)
    ensures
        text@ == lossy_text(body@),
        vstd::utf8::valid_utf8(body@) ==> text@ == vstd::utf8::decode_utf8(body@),
{
    String::from_utf8_lossy(body).into_owned()
}

/// Whether `serde_json` reads the text as a JSON value.
pub uninterp spec fn json_text(s: Seq<char>) -> bool;

/// `serde_json::from_str` reads a text as a JSON value, or refuses it.
#[verifier::external_body]
fn reads_as_json(s: &str) -> (b: bool)
    ensures
        b == json_text(s@),
{
    serde_json::from_str::<serde_json::Value>(s).is_ok()
}

pub open spec fn hex_digit(c: char) -> bool {
    ('0' <= c && c <= '9') || ('a' <= c && c <= 'f') || ('A' <= c && c <= 'F')
}

/// `#` and 3, 4, 6 or 8 hexadecimal digits.
pub open spec fn hex_color(s: Seq<char>) -> bool {
    &&& s.len() == 4 || s.len() == 5 || s.len() == 7 || s.len() == 9
    &&& s[0] == '#'
    &&& forall|i: int| 1 <= i < s.len() ==> hex_digit(#[trigger] s[i])
}

/// The schemes that mark a URL.
pub open spec fn url_schemes() -> Seq<Seq<char>> {
    seq!["http://"@, "https://"@, "ftp://"@, "file://"@, "ssh://"@, "git://"@]
}

/// One of the schemes, in small or capital letters, and no whitespace behind it.
pub open spec fn url(s: Seq<char>) -> bool {
    &&& exists|k: int|
        0 <= k < url_schemes().len() && (#[trigger] url_schemes()[k]).is_prefix_of(
            text::ascii_lowered(s),
        )
    &&& forall|i: int| 0 <= i < s.len() ==> !text::whitespace(#[trigger] s[i])
}

/// The text stands in braces or in brackets.
pub open spec fn bracketed(s: Seq<char>) -> bool {
    s.len() > 0 && ((s[0] == '{' && s.last() == '}') || (s[0] == '[' && s.last() == ']'))
}

/// What marks a text of several lines as code.
pub open spec fn code_tokens() -> Seq<Seq<char>> {
    seq![
        "fn "@,
        "def "@,
        "function "@,
        "class "@,
        "import "@,
        "const "@,
        "let "@,
        "var "@,
        "#include"@,
        "package "@,
        "use "@,
        "::"@,
        "=>"@,
        "->"@,
        "public "@,
        "private "@,
        "static "@,
        "void "@,
        "return "@,
    ]
}

/// More than one line, and one of the tokens of code in small or capital letters.
pub open spec fn code(s: Seq<char>) -> bool {
    &&& s.contains('\n')
    &&& exists|k: int|
        0 <= k < code_tokens().len() && text::occurs(
            #[trigger] code_tokens()[k],
            text::ascii_lowered(s),
        )
}

/// The kind of a text without whitespace at its ends, where `json` says whether it looks
/// like JSON.
pub open spec fn kind_of_text(s: Seq<char>, json: bool) -> ClipKind {
    if hex_color(s) {
        ClipKind::HexColor
    } else if url(s) {
        ClipKind::Url
    } else if json {
        ClipKind::Json
    } else if code(s) {
        ClipKind::Code
    } else {
        ClipKind::Text
    }
}

/// The kind of a clip.
pub open spec fn kind_of(mime: Seq<char>, body: Seq<u8>) -> ClipKind {
    if "image/"@.is_prefix_of(mime) {
        ClipKind::Image
    } else if !vstd::utf8::valid_utf8(body) {
        ClipKind::Text
    } else {
        let s = text::trimmed(vstd::utf8::decode_utf8(body));
        kind_of_text(s, bracketed(s) && json_text(s))
    }
}

/// What kind of thing a clip is.
pub fn classify(mime: &str, body: &[u8]) -> (kind: ClipKind)
    ensures
        kind == kind_of(mime@, body@),
{
    if text::starts_with(mime, "image/") {
        return ClipKind::Image;
    }
    match utf8_text(body) {
        None => ClipKind::Text,
        Some(s) => {
            let trimmed = text::trim(s);
            let json = looks_like_json(trimmed.as_str());
            classify_text(trimmed.as_str(), json)
        },
    }
}

/// The kind of a text without whitespace at its ends, where `json` says whether it looks
/// like JSON.
pub fn classify_text(s: &str, json: bool) -> (kind: ClipKind)
    ensures
        kind == kind_of_text(s@, json),
{
    if is_hex_color(s) {
        ClipKind::HexColor
    } else if is_url(s) {
        ClipKind::Url
    } else if json {
        ClipKind::Json
    } else if looks_like_code(s) {
        ClipKind::Code
    } else {
        ClipKind::Text
    }
}

fn is_hex_digit(c: char) -> (b: bool)
    ensures
        b == hex_digit(c),
{
    ('0' <= c && c <= '9') || ('a' <= c && c <= 'f') || ('A' <= c && c <= 'F')
}

/// `#abc`, `#abcd`, `#aabbcc` or `#aabbccff`.
pub fn is_hex_color(s: &str) -> (b: bool)
    ensures
        b == hex_color(s@),
{
    let chars = text::chars_of(s);
    let n = chars.len();
    if !(n == 4 || n == 5 || n == 7 || n == 9) || chars[0] != '#' {
        return false;
    }
    for i in 1..n
        invariant
            n == chars@.len(),
            chars@ == s@,
            forall|j: int| 1 <= j < i ==> hex_digit(#[trigger] chars@[j]),
    {
        if !is_hex_digit(chars[i]) {
            return false;
        }
    }
    true
}

fn has_whitespace(chars: &[char]) -> (b: bool)
    ensures
        b == exists|i: int| 0 <= i < chars@.len() && text::whitespace(#[trigger] chars@[i]),
{
    for i in 0..chars.len()
        invariant
            forall|j: int| 0 <= j < i ==> !text::whitespace(#[trigger] chars@[j]),
    {
        if text::is_whitespace(chars[i]) {
            return true;
        }
    }
    false
}

/// Whether the text is one URL of a scheme that is known.
pub fn is_url(s: &str) -> (b: bool)
    ensures
        b == url(s@),
{
    let chars = text::chars_of(s);
    let lower = text::to_ascii_lowered(chars.as_slice());
    let l = lower.as_slice();
    let scheme = text::chars_start_with(l, "http://") || text::chars_start_with(l, "https://")
        || text::chars_start_with(l, "ftp://") || text::chars_start_with(l, "file://")
        || text::chars_start_with(l, "ssh://") || text::chars_start_with(l, "git://");
    proof {
        let all = url_schemes();
        assert(all[0] == "http://"@ && all[1] == "https://"@ && all[2] == "ftp://"@ && all[3]
            == "file://"@ && all[4] == "ssh://"@ && all[5] == "git://"@);
    }
    scheme && !has_whitespace(chars.as_slice())
}

/// Whether the text is JSON: it stands in braces or brackets and reads as a JSON value.
pub fn looks_like_json(s: &str) -> (b: bool)
    ensures
        b == (bracketed(s@) && json_text(s@)),
{
    is_bracketed(s) && reads_as_json(s)
}

/// Whether the text stands in braces or in brackets.
pub fn is_bracketed(s: &str) -> (b: bool)
    ensures
        b == bracketed(s@),
{
    let chars = text::chars_of(s);
    if chars.len() == 0 {
        return false;
    }
    let first = chars[0];
    let last = chars[chars.len() - 1];
    (first == '{' && last == '}') || (first == '[' && last == ']')
}

/// Whether the text has several lines and one of the tokens of code.
pub fn looks_like_code(s: &str) -> (b: bool)
    ensures
        b == code(s@),
{
    let chars = text::chars_of(s);
    let mut lines = false;
    for i in 0..chars.len()
        invariant
            lines == exists|j: int| 0 <= j < i && chars@[j] == '\n',
    {
        if chars[i] == '\n' {
            lines = true;
        }
    }
    if !lines {
        return false;
    }
    let lower = text::to_ascii_lowered(chars.as_slice());
    let l = lower.as_slice();
    proof {
        let all = code_tokens();
        assert(all[0] == "fn "@ && all[1] == "def "@ && all[2] == "function "@ && all[3]
            == "class "@ && all[4] == "import "@ && all[5] == "const "@ && all[6] == "let "@
            && all[7] == "var "@ && all[8] == "#include"@ && all[9] == "package "@ && all[10]
            == "use "@ && all[11] == "::"@ && all[12] == "=>"@ && all[13] == "->"@ && all[14]
            == "public "@ && all[15] == "private "@ && all[16] == "static "@ && all[17] == "void "@
            && all[18] == "return "@);
    }
    text::chars_contain(l, "fn ") || text::chars_contain(l, "def ") || text::chars_contain(
        l,
        "function ",
    ) || text::chars_contain(l, "class ") || text::chars_contain(l, "import ")
        || text::chars_contain(l, "const ") || text::chars_contain(l, "let ")
        || text::chars_contain(l, "var ") || text::chars_contain(l, "#include")
        || text::chars_contain(l, "package ") || text::chars_contain(l, "use ")
        || text::chars_contain(l, "::") || text::chars_contain(l, "=>") || text::chars_contain(
        l,
        "->",
    ) || text::chars_contain(l, "public ") || text::chars_contain(l, "private ")
        || text::chars_contain(l, "static ") || text::chars_contain(l, "void ")
        || text::chars_contain(l, "return ")
}

/// A character that leaves no mark on a line.
pub open spec fn blank(c: char) -> bool {
    text::control(c) || text::whitespace(c)
}

/// `s` on one line: blank characters before the first mark are dropped, and each later
/// run of them becomes one space.
pub open spec fn spaced(s: Seq<char>) -> Seq<char>
    decreases s.len(),
{
    if s.len() == 0 {
        s
    } else {
        let before = spaced(s.drop_last());
        if !blank(s.last()) {
            before.push(s.last())
        } else if before.len() == 0 || before.last() == ' ' {
            before
        } else {
            before.push(' ')
        }
    }
}

/// `line`, hard-capped at `max` characters; the last of them is an ellipsis where something
/// is cut off.
pub open spec fn capped(line: Seq<char>, max: int) -> Seq<char> {
    if line.len() <= max {
        line
    } else if max <= 0 {
        Seq::empty()
    } else {
        line.take(max - 1).push('…')
    }
}

/// `s` on one line, hard-capped at `max` characters.
pub open spec fn preview_of(s: Seq<char>, max: int) -> Seq<char> {
    capped(text::trimmed(spaced(s)), max)
}

/// What is said of an image: its MIME type and its size.
pub open spec fn image_line(mime: Seq<char>, body: Seq<u8>) -> Seq<char> {
    "Image ("@ + mime + ", "@ + text::decimal((body.len() / 1024) as nat) + " KB)"@
}

/// The preview of a clip.
pub open spec fn preview(kind: ClipKind, mime: Seq<char>, body: Seq<u8>, max: int) -> Seq<char> {
    if kind == ClipKind::Image {
        preview_of(image_line(mime, body), max)
    } else {
        preview_of(lossy_text(body), max)
    }
}

/// A short representation on one line for lists. It holds no control characters, runs of
/// them and of whitespace collapse to one space, and it is hard-capped at `max` characters.
pub fn make_preview(kind: ClipKind, mime: &str, body: &[u8], max: usize) -> (p: String)
    ensures
        p@ == preview(kind, mime@, body@, max as int),
        p@.len() <= max,
        kind != ClipKind::Image && vstd::utf8::valid_utf8(body@) ==> p@ == preview_of(
            vstd::utf8::decode_utf8(body@),
            max as int,
        ),
{
    if kind == ClipKind::Image {
        let mut out = String::new();
        out.append("Image (");
        out.append(mime);
        out.append(", ");
        text::push_decimal(&mut out, (body.len() / 1024) as u128);
        out.append(" KB)");
        assert(out@ =~= image_line(mime@, body@));
        return preview_text(out.as_str(), max);
    }
    let s = utf8_text_lossy(body);
    preview_text(s.as_str(), max)
}

/// `line`, hard-capped at `max` characters.
fn cap(line: &[char], max: usize) -> (p: String)
    ensures
        p@ == capped(line@, max as int),
        p@.len() <= max,
{
    if line.len() <= max {
        return text::string_of(line);
    }
    if max == 0 {
        return String::new();
    }
    assert(line@.subrange(0, max - 1) =~= line@.take(max - 1));
    let mut p = text::string_of(&line[0..max - 1]);
    p.push('…');
    p
}

/// `s` on one line, hard-capped at `max` characters.
pub fn preview_text(s: &str, max: usize) -> (p: String)
    ensures
        p@ == preview_of(s@, max as int),
        p@.len() <= max,
{
    let chars = text::chars_of(s);
    let mut line: Vec<char> = Vec::new();
    for i in 0..chars.len()
        invariant
            chars@ == s@,
            line@ == spaced(s@.take(i as int)),
    {
        let c = chars[i];
        proof {
            let upto = s@.take(i + 1);
            assert(upto.drop_last() =~= s@.take(i as int));
            assert(upto.last() == c);
        }
        if text::is_control(c) || text::is_whitespace(c) {
            if line.len() > 0 && line[line.len() - 1] != ' ' {
                line.push(' ');
            }
        } else {
            line.push(c);
        }
    }
    assert(s@.take(s@.len() as int) =~= s@);
    cap(text::trim_chars(line.as_slice()), max)
}

/// No whitespace but single spaces, and none of them first; no control characters.
pub open spec fn tidy(line: Seq<char>) -> bool {
    &&& forall|i: int|
        0 <= i < line.len() ==> !text::control(#[trigger] line[i]) && (text::whitespace(line[i])
            ==> line[i] == ' ')
    &&& forall|i: int| 0 < i < line.len() && #[trigger] line[i] == ' ' ==> line[i - 1] != ' '
    &&& line.len() > 0 ==> line[0] != ' '
}

proof fn spaced_is_tidy(s: Seq<char>)
    ensures
        tidy(spaced(s)),
        spaced(s).len() <= s.len(),
        spaced(s).len() == 0 <==> forall|i: int| 0 <= i < s.len() ==> blank(#[trigger] s[i]),
    decreases s.len(),
{
    if s.len() > 0 {
        let front = s.drop_last();
        spaced_is_tidy(front);
        let before = spaced(front);
        let line = spaced(s);
        if spaced(s).len() == 0 {
            assert forall|i: int| 0 <= i < s.len() implies blank(#[trigger] s[i]) by {
                if i < front.len() {
                    assert(front[i] == s[i]);
                }
            }
        } else if before.len() == 0 {
            assert(!blank(s[s.len() - 1]));
        } else {
            let k = choose|k: int| 0 <= k < front.len() && !blank(#[trigger] front[k]);
            assert(s[k] == front[k]);
        }
        assert forall|i: int| 0 < i < line.len() && #[trigger] line[i] == ' ' implies line[i - 1]
            != ' ' by {
            if i < before.len() {
                assert(line[i] == before[i] && line[i - 1] == before[i - 1]);
            }
        }
    }
}

proof fn prefix_of_tidy_is_tidy(line: Seq<char>, n: int)
    requires
        tidy(line),
        0 <= n <= line.len(),
    ensures
        tidy(line.take(n)),
{
    let cut = line.take(n);
    assert forall|i: int| 0 < i < cut.len() && #[trigger] cut[i] == ' ' implies cut[i - 1]
        != ' ' by {
        assert(line[i] == ' ');
    }
}

/// Trimming a line without a leading space takes at most the space at its end.
proof fn trimming_a_tidy_line(line: Seq<char>)
    requires
        tidy(line),
    ensures
        tidy(text::trimmed(line)),
        text::trimmed(line).len() > 0 ==> text::trimmed(line).last() != ' ',
        text::trimmed(line) == line || text::trimmed(line) == line.drop_last(),
        line.len() > 0 ==> text::trimmed(line).len() > 0,
        line.len() > 0 && line.last() != ' ' ==> text::trimmed(line) == line,
{
    assert(text::trim_start(line) == line);
    if line.len() > 0 && text::whitespace(line.last()) {
        let cut = line.drop_last();
        assert(line.last() == line[line.len() - 1]);
        assert(cut.len() > 0);
        assert(cut.last() == line[line.len() - 2]);
        assert(cut.last() != ' ');
        assert(text::trim_end(cut) == cut);
        assert(cut =~= line.take(line.len() - 1));
        prefix_of_tidy_is_tidy(line, line.len() - 1);
    }
}

/// A preview is one line: it holds no control characters, no whitespace but single spaces
/// between its other characters, and at most `max` characters, the last of which is an
/// ellipsis where something is cut off. It is empty only where there is nothing to see.
pub proof fn previews_are_short_lines(s: Seq<char>, max: int)
    requires
        0 <= max,
    ensures
        tidy(preview_of(s, max)),
        preview_of(s, max).len() > 0 ==> preview_of(s, max).last() != ' ',
        preview_of(s, max).len() <= max,
        preview_of(s, max) == text::trimmed(spaced(s)) || (preview_of(s, max).len() == max && (0
            < max ==> preview_of(s, max).last() == '…')),
        0 < max ==> (preview_of(s, max).len() == 0 <==> forall|i: int|
            0 <= i < s.len() ==> blank(#[trigger] s[i])),
{
    spaced_is_tidy(s);
    trimming_a_tidy_line(spaced(s));
    let line = text::trimmed(spaced(s));
    if line.len() > max && max > 0 {
        let cut = line.take(max - 1);
        prefix_of_tidy_is_tidy(line, max - 1);
        let marked = cut.push('…');
        assert forall|i: int| 0 < i < marked.len() && #[trigger] marked[i] == ' ' implies marked[i
            - 1] != ' ' by {
            assert(cut[i] == ' ');
        }
    }
}

/// The preview of every clip is a short line, whatever its MIME type and its bytes hold.
pub proof fn every_preview_is_a_short_line(
    kind: ClipKind,
    mime: Seq<char>,
    body: Seq<u8>,
    max: int,
)
    requires
        0 <= max,
    ensures
        tidy(preview(kind, mime, body, max)),
        preview(kind, mime, body, max).len() <= max,
{
    previews_are_short_lines(image_line(mime, body), max);
    previews_are_short_lines(lossy_text(body), max);
}

/// A clip is an image exactly if its MIME type says so, whatever its bytes.
pub proof fn images_are_told_by_mime(mime: Seq<char>, body: Seq<u8>)
    ensures
        kind_of(mime, body) == ClipKind::Image <==> "image/"@.is_prefix_of(mime),
{
}

/// What a text is told to be, by what it holds: a color is `#` and 3, 4, 6 or 8 hexadecimal
/// digits, a URL has a known scheme and no whitespace, JSON is what `serde_json` reads of what
/// stands in braces or brackets, and code has several lines and a token of code. The first
/// that applies counts, and what is none of these is text. Whitespace around it does not count.
pub proof fn texts_are_told_by_what_they_hold(mime: Seq<char>, body: Seq<u8>)
    requires
        !"image/"@.is_prefix_of(mime),
        vstd::utf8::valid_utf8(body),
    ensures
        ({
            let s = text::trimmed(vstd::utf8::decode_utf8(body));
            let low = s.map_values(|c: char| text::ascii_lower(c));
            let a_color = (s.len() == 4 || s.len() == 5 || s.len() == 7 || s.len() == 9) && s[0]
                == '#' && (forall|i: int|
                1 <= i < s.len() ==> ('0' <= #[trigger] s[i] <= '9' || 'a' <= s[i] <= 'f' || 'A'
                    <= s[i] <= 'F'));
            let a_url = ("http://"@.is_prefix_of(low) || "https://"@.is_prefix_of(low)
                || "ftp://"@.is_prefix_of(low) || "file://"@.is_prefix_of(low)
                || "ssh://"@.is_prefix_of(low) || "git://"@.is_prefix_of(low)) && (forall|i: int|
                0 <= i < s.len() ==> !text::whitespace(#[trigger] s[i]));
            let json = s.len() > 0 && (s[0] == '{' && s.last() == '}' || s[0] == '[' && s.last()
                == ']') && json_text(s);
            let some_code = s.contains('\n') && (text::occurs("fn "@, low) || text::occurs(
                "def "@,
                low,
            ) || text::occurs("function "@, low) || text::occurs("class "@, low) || text::occurs(
                "import "@,
                low,
            ) || text::occurs("const "@, low) || text::occurs("let "@, low) || text::occurs(
                "var "@,
                low,
            ) || text::occurs("#include"@, low) || text::occurs("package "@, low) || text::occurs(
                "use "@,
                low,
            ) || text::occurs("::"@, low) || text::occurs("=>"@, low) || text::occurs("->"@, low)
                || text::occurs("public "@, low) || text::occurs("private "@, low) || text::occurs(
                "static "@,
                low,
            ) || text::occurs("void "@, low) || text::occurs("return "@, low));
            let kind = kind_of(mime, body);
            &&& kind == ClipKind::HexColor <==> a_color
            &&& kind == ClipKind::Url <==> a_url && !a_color
            &&& kind == ClipKind::Json <==> json && !a_url && !a_color
            &&& kind == ClipKind::Code <==> some_code && !json && !a_url && !a_color
            &&& kind == ClipKind::Text <==> !some_code && !json && !a_url && !a_color
        }),
{
    let s = text::trimmed(vstd::utf8::decode_utf8(body));
    let low = s.map_values(|c: char| text::ascii_lower(c));
    assert(text::ascii_lowered(s) =~= low);
    let urls = url_schemes();
    assert(urls[0] == "http://"@ && urls[1] == "https://"@ && urls[2] == "ftp://"@ && urls[3]
        == "file://"@ && urls[4] == "ssh://"@ && urls[5] == "git://"@);
    let all = code_tokens();
    assert(all[0] == "fn "@ && all[1] == "def "@ && all[2] == "function "@ && all[3] == "class "@
        && all[4] == "import "@ && all[5] == "const "@ && all[6] == "let "@ && all[7] == "var "@
        && all[8] == "#include"@ && all[9] == "package "@ && all[10] == "use "@ && all[11]
        == "::"@ && all[12] == "=>"@ && all[13] == "->"@ && all[14] == "public "@ && all[15]
        == "private "@ && all[16] == "static "@ && all[17] == "void "@ && all[18] == "return "@);
    if hex_color(s) {
        assert forall|i: int| 1 <= i < s.len() implies ('0' <= #[trigger] s[i] <= '9' || 'a' <= s[i]
            <= 'f' || 'A' <= s[i] <= 'F') by {
            assert(hex_digit(s[i]));
        }
    }
}

/// What is no text is told to be text all the same.
pub proof fn other_bytes_are_text(mime: Seq<char>, body: Seq<u8>)
    requires
        !"image/"@.is_prefix_of(mime),
        !vstd::utf8::valid_utf8(body),
    ensures
        kind_of(mime, body) == ClipKind::Text,
{
}

proof fn words_of_the_line(s: Seq<char>)
    ensures
        ({
            let spread = s.map_values(
                |c: char|
                    if text::control(c) {
                        ' '
                    } else {
                        c
                    },
            );
            text::words(spaced(s)) == text::words(spread)
        }),
        s.len() > 0 && !blank(s.last()) ==> spaced(s).len() > 0 && spaced(s).last() == s.last(),
        s.len() > 0 && blank(s.last()) ==> spaced(s).len() > 0 ==> spaced(s).last() == ' ',
    decreases s.len(),
{
    let f = |c: char|
        if text::control(c) {
            ' '
        } else {
            c
        };
    let spread = s.map_values(f);
    if s.len() > 0 {
        let front = s.drop_last();
        let c = s.last();
        words_of_the_line(front);
        spaced_is_tidy(front);
        assert(spread.drop_last() =~= front.map_values(f));
        let before = spaced(front);
        if !blank(c) {
            assert(spaced(s).drop_last() =~= before);
            if front.len() > 0 {
                assert(spread[spread.len() - 2] == f(front.last()));
                if !blank(front.last()) {
                    assert(spaced(s)[spaced(s).len() - 2] == before.last());
                } else if before.len() > 0 {
                    assert(spaced(s)[spaced(s).len() - 2] == before.last());
                }
            }
        } else {
            if spaced(s) != before {
                assert(spaced(s).drop_last() =~= before);
            }
        }
    } else {
        assert(spread =~= s);
    }
}

proof fn trimming_keeps_the_words(line: Seq<char>)
    requires
        tidy(line),
    ensures
        text::words(text::trimmed(line)) == text::words(line),
{
    trimming_a_tidy_line(line);
    if text::trimmed(line) != line {
        assert(text::whitespace(line.last())) by {
            if !text::whitespace(line.last()) {
                assert(text::trim_start(line) == line);
            }
        }
    }
}

/// A preview that is not cut off has the words of the text, one space apart. Control
/// characters count as whitespace.
pub proof fn previews_have_the_words_of_the_text(s: Seq<char>, max: int)
    requires
        s.len() <= max,
    ensures
        text::words(preview_of(s, max)) == text::words(
            s.map_values(
                |c: char|
                    if text::control(c) {
                        ' '
                    } else {
                        c
                    },
            ),
        ),
{
    spaced_is_tidy(s);
    words_of_the_line(s);
    trimming_a_tidy_line(spaced(s));
    trimming_keeps_the_words(spaced(s));
}

/// A shorter preview is the same as a longer one where it has the room for it, and else holds
/// the front of it and an ellipsis.
pub proof fn shorter_previews_are_the_front_of_longer_ones(s: Seq<char>, short: int, long: int)
    requires
        0 < short <= long,
    ensures
        ({
            let (a, b) = (preview_of(s, short), preview_of(s, long));
            &&& b.len() <= short ==> a == b
            &&& b.len() > short ==> a == b.take(short - 1).push('…')
        }),
{
    let line = text::trimmed(spaced(s));
    let (a, b) = (preview_of(s, short), preview_of(s, long));
    if b.len() > short {
        assert(b.take(short - 1) =~= line.take(short - 1));
    } else if line.len() > long {
        assert(b.len() == long);
    }
}

/// A line that is tidy and fits is its own preview.
pub proof fn tidy_lines_are_their_own_previews(line: Seq<char>, max: int)
    requires
        tidy(line),
        line.len() > 0 ==> line.last() != ' ',
        line.len() <= max,
    ensures
        preview_of(line, max) == line,
{
    tidy_lines_stay(line);
    trimming_a_tidy_line(line);
}

proof fn tidy_lines_stay(line: Seq<char>)
    requires
        tidy(line),
    ensures
        spaced(line) == line,
    decreases line.len(),
{
    if line.len() > 0 {
        let front = line.drop_last();
        assert(front =~= line.take(line.len() - 1));
        prefix_of_tidy_is_tidy(line, line.len() - 1);
        tidy_lines_stay(front);
        assert(line[line.len() - 1] == line.last());
        assert(front.push(line.last()) =~= line);
        if front.len() > 0 {
            assert(front.last() == line[line.len() - 2]);
        }
    }
}

/// The preview of an image tells its MIME type and its size, and that of anything else is
/// made of its bytes alone.
pub proof fn images_are_described(
    kind: ClipKind,
    mime: Seq<char>,
    body: Seq<u8>,
    max: int,
    other: ClipKind,
    other_mime: Seq<char>,
)
    ensures
        kind == ClipKind::Image && tidy(mime) && (mime.len() > 0 ==> mime.last() != ' ')
            && mime.len() + text::decimal(body.len() / 1024).len() + 13 <= max ==> preview(
            kind,
            mime,
            body,
            max,
        ) == "Image ("@ + mime + ", "@ + text::decimal(body.len() / 1024) + " KB)"@,
        kind != ClipKind::Image && other != ClipKind::Image ==> preview(kind, mime, body, max)
            == preview(other, other_mime, body, max),
{
    let n = text::decimal(body.len() / 1024);
    let line = image_line(mime, body);
    if kind == ClipKind::Image && tidy(mime) && (mime.len() > 0 ==> mime.last() != ' ')
        && mime.len() + n.len() + 13 <= max {
        reveal_strlit("Image (");
        reveal_strlit(", ");
        reveal_strlit(" KB)");
        text::decimals_are_read_back(body.len() / 1024);
        assert(text::numeral(n));
        let m = mime.len();
        let d = n.len();
        assert forall|i: int| 0 <= i < line.len() implies !text::control(#[trigger] line[i]) && (
        text::whitespace(line[i]) ==> line[i] == ' ') by {
            if 7 <= i < 7 + m {
                assert(line[i] == mime[i - 7]);
            } else if 9 + m <= i < 9 + m + d {
                assert(line[i] == n[i - 9 - m]);
            }
        }
        assert forall|i: int| 0 < i < line.len() && #[trigger] line[i] == ' ' implies line[i - 1]
            != ' ' by {
            if 7 <= i < 7 + m {
                assert(line[i] == mime[i - 7]);
                if i > 7 {
                    assert(line[i - 1] == mime[i - 8]);
                }
            } else if 9 + m <= i < 9 + m + d {
                assert(line[i] == n[i - 9 - m]);
            } else if i == 9 + m + d {
                assert(line[i - 1] == n[d - 1]);
            }
        }
        tidy_lines_are_their_own_previews(line, max);
    }
}

} // verus!
