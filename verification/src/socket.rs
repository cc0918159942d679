//! Where the daemon's socket is.

use crate::proto::SOCKET_NAME;
use crate::text;
use vstd::prelude::*;
use vstd::string::StringExecFns;

verus! {

/// The user id that is taken where none can be told.
pub const DEFAULT_UID: u32 = 1000;

/// The file `name` in the directory `dir`.
pub open spec fn path_in(dir: Seq<char>, name: Seq<char>) -> Seq<char> {
    if dir.len() == 0 || dir.last() == '/' {
        dir + name
    } else {
        dir + seq!['/'] + name
    }
}

/// The first of `lines` that begins with `prefix`.
pub open spec fn first_with(lines: Seq<Seq<char>>, prefix: Seq<char>) -> Option<Seq<char>>
    decreases lines.len(),
{
    if lines.len() == 0 {
        None
    } else if prefix.is_prefix_of(lines[0]) {
        Some(lines[0])
    } else {
        first_with(lines.skip(1), prefix)
    }
}

/// The user id that the text of `/proc/self/status` gives: the first number behind `Uid:`.
pub open spec fn uid_in(status: Seq<char>) -> Option<u32> {
    match first_with(text::lines(status), "Uid:"@) {
        Some(line) => if text::words(line).len() > 1 {
            match text::number(text::words(line)[1]) {
                Some(n) => if n <= u32::MAX {
                    Some(n as u32)
                } else {
                    None
                },
                None => None,
            }
        } else {
            None
        },
        None => None,
    }
}

/// The user id that `status` gives, or the default.
pub open spec fn uid_or_default(status: Option<Seq<char>>) -> u32 {
    match status {
        Some(s) => match uid_in(s) {
            Some(uid) => uid,
            None => DEFAULT_UID,
        },
        None => DEFAULT_UID,
    }
}

/// Where the socket is: in the runtime directory, or else in the one that user ids have
/// below `/run/user/`.
pub open spec fn path_of_socket(
    runtime_dir: Option<Seq<char>>,
    status: Option<Seq<char>>,
) -> Seq<char> {
    match runtime_dir {
        Some(dir) => path_in(dir, SOCKET_NAME@),
        None => path_in(
            "/run/user/"@ + text::decimal(uid_or_default(status) as nat),
            SOCKET_NAME@,
        ),
    }
}

/// The text that `s` holds, where there is one.
pub open spec fn text_of(s: Option<&str>) -> Option<Seq<char>> {
    match s {
        Some(t) => Some(t@),
        None => None,
    }
}

fn find_uid(status: &str) -> (uid: Option<u32>)
    ensures
        uid == uid_in(status@),
{
    let lines = text::split_lines(text::chars_of(status).as_slice());
    let ghost all = text::views(lines@);
    let mut i: usize = 0;
    assert(all.skip(0) =~= all);
    while i < lines.len()
        invariant
            all == text::views(lines@),
            all == text::lines(status@),
            i <= lines@.len(),
            first_with(all, "Uid:"@) == first_with(all.skip(i as int), "Uid:"@),
        decreases lines@.len() - i,
    {
        proof {
            assert(all.skip(i as int)[0] == lines@[i as int]@);
            assert(all.skip(i as int).skip(1) =~= all.skip(i + 1));
        }
        if text::chars_start_with(lines[i].as_slice(), "Uid:") {
            let words = text::split_words(lines[i].as_slice());
            if words.len() < 2 {
                assert(text::views(words@).len() < 2);
                return None;
            }
            assert(text::views(words@)[1] == words@[1]@);
            return text::parse_u32(words[1].as_slice());
        }
        i = i + 1;
    }
    None
}

/// The user id that `status`, the text of `/proc/self/status`, gives; a default where
/// there is none.
pub fn nix_uid(status: Option<&str>) -> (uid: u32)
    ensures
        uid == uid_or_default(text_of(status)),
{
    match status {
        Some(s) => match find_uid(s) {
            Some(uid) => uid,
            None => DEFAULT_UID,
        },
        None => DEFAULT_UID,
    }
}

/// Appends the name of the socket to the directory `dir`.
fn socket_in(dir: &str) -> (path: String)
    ensures
        path@ == path_in(dir@, SOCKET_NAME@),
{
    let chars = text::chars_of(dir);
    let mut path = dir.to_owned();
    if chars.len() > 0 && chars[chars.len() - 1] != '/' {
        path.push('/');
    }
    path.append(SOCKET_NAME);
    assert(path@ =~= path_in(dir@, SOCKET_NAME@));
    path
}

/// Where the daemon's socket is, given `$XDG_RUNTIME_DIR` and the text of
/// `/proc/self/status`.
pub fn socket_path(runtime_dir: Option<&str>, status: Option<&str>) -> (path: String)
    ensures
        path@ == path_of_socket(text_of(runtime_dir), text_of(status)),
{
    match runtime_dir {
        Some(dir) => socket_in(dir),
        None => {
            let mut dir = "/run/user/".to_owned();
            text::push_decimal(&mut dir, nix_uid(status) as u128);
            socket_in(dir.as_str())
        },
    }
}

/// The socket lies in the runtime directory, and without one in the directory of the user.
pub proof fn socket_is_in_the_users_directory(dir: Seq<char>, status: Option<Seq<char>>)
    ensures
        dir.is_prefix_of(path_of_socket(Some(dir), status)),
        "/run/user/"@.is_prefix_of(path_of_socket(None, status)),
        SOCKET_NAME@.is_suffix_of(path_of_socket(Some(dir), status)),
        SOCKET_NAME@.is_suffix_of(path_of_socket(None, status)),
{
    let p = path_of_socket(Some(dir), status);
    let n = SOCKET_NAME@.len() as int;
    assert(p.subrange(0, dir.len() as int) =~= dir);
    assert(p.subrange(p.len() - n, p.len() as int) =~= SOCKET_NAME@);
    let q = path_of_socket(None, status);
    let run = "/run/user/"@;
    assert(q.subrange(0, run.len() as int) =~= run);
    assert(q.subrange(q.len() - n, q.len() as int) =~= SOCKET_NAME@);
}

proof fn other_lines_are_skipped(before: Seq<Seq<char>>, lines: Seq<Seq<char>>)
    requires
        forall|i: int| 0 <= i < before.len() ==> !"Uid:"@.is_prefix_of(#[trigger] before[i]),
    ensures
        first_with(before + lines, "Uid:"@) == first_with(lines, "Uid:"@),
    decreases before.len(),
{
    let all = before + lines;
    if before.len() == 0 {
        assert(all =~= lines);
    } else {
        let later = before.skip(1);
        assert(all[0] == before[0]);
        assert forall|i: int| 0 <= i < later.len() implies !"Uid:"@.is_prefix_of(
            #[trigger] later[i],
        ) by {
            assert(later[i] == before[i + 1]);
        }
        other_lines_are_skipped(later, lines);
        assert(all.skip(1) =~= later + lines);
    }
}

/// The user id is read from the first line that begins with `Uid:`, where it stands in
/// decimal behind a tab, with a tab and other numbers behind it. Without such a line the
/// default is taken.
pub proof fn user_ids_are_read(before: Seq<char>, uid: u32, others: Seq<char>, behind: Seq<char>)
    requires
        forall|i: int|
            0 <= i < text::lines(before).len() ==> !"Uid:"@.is_prefix_of(
                #[trigger] text::lines(before)[i],
            ),
        !others.contains('\n'),
    ensures
        ({
            let line = ("Uid:"@).push('\t') + text::decimal(uid as nat).push('\t') + others;
            let status = before.push('\n') + (line.push('\n') + behind);
            &&& uid_or_default(Some(status)) == uid
            &&& uid_or_default(Some(before)) == 1000
        }),
        uid_or_default(None) == 1000,
{
    let n = text::decimal(uid as nat);
    let rest = n.push('\t') + others;
    let line = ("Uid:"@).push('\t') + n.push('\t') + others;
    let status = before.push('\n') + (line.push('\n') + behind);
    reveal_strlit("Uid:");
    text::decimals_are_read_back(uid as nat);
    assert(text::numeral(n));
    assert(line =~= ("Uid:"@).push('\t') + rest);
    assert(!line.contains('\n')) by {
        if line.contains('\n') {
            let i = choose|i: int| 0 <= i < line.len() && line[i] == '\n';
            if 5 <= i < 5 + n.len() {
                assert(line[i] == n[i - 5]);
            } else if i > 5 + n.len() {
                assert(line[i] == others[i - 6 - n.len()]);
                assert(others.contains('\n'));
            }
        }
    }
    text::lines_are_parted_by_line_feeds(before, line.push('\n') + behind);
    text::lines_are_parted_by_line_feeds(line, behind);
    let rows = text::lines(line.push('\n') + behind);
    assert(rows[0] == line);
    assert(line.subrange(0, 4) =~= "Uid:"@);
    other_lines_are_skipped(text::lines(before), rows);
    other_lines_are_skipped(text::lines(before), Seq::empty());
    assert(text::lines(before) + Seq::<Seq<char>>::empty() =~= text::lines(before));
    text::words_are_parted_by_whitespace("Uid:"@, '\t', rest);
    text::words_are_parted_by_whitespace(n, '\t', others);
    assert(text::words("Uid:"@) == seq!["Uid:"@]) by {
        assert forall|i: int| 0 <= i < "Uid:"@.len() implies !text::whitespace(
            #[trigger] "Uid:"@[i],
        ) by {}
    }
    assert(text::words(n) == seq![n]) by {
        assert forall|i: int| 0 <= i < n.len() implies !text::whitespace(#[trigger] n[i]) by {
            assert('0' <= n[i] && n[i] <= '9');
        }
    }
    assert(text::words(line)[1] == n);
}

/// The socket stands in the runtime directory, and without one in the directory below
/// `/run/user/` that has the user id for its name. No slash is put behind another.
pub proof fn the_socket_has_its_place(dir: Seq<char>, status: Option<Seq<char>>)
    requires
        dir.len() > 0,
        dir.last() != '/',
    ensures
        path_of_socket(Some(dir), status) == dir + "/clipd.sock"@,
        path_of_socket(Some(dir.push('/')), status) == dir + "/clipd.sock"@,
        path_of_socket(None, status) == "/run/user/"@ + text::decimal(uid_or_default(status) as nat)
            + "/clipd.sock"@,
{
    reveal_strlit("clipd.sock");
    reveal_strlit("/clipd.sock");
    assert(seq!['/'] + "clipd.sock"@ =~= "/clipd.sock"@);
    assert(path_of_socket(Some(dir), status) =~= dir + "/clipd.sock"@);
    assert(path_of_socket(Some(dir.push('/')), status) =~= dir + "/clipd.sock"@);
    let n = text::decimal(uid_or_default(status) as nat);
    text::decimals_are_read_back(uid_or_default(status) as nat);
    assert(text::numeral(n));
    let run = "/run/user/"@ + n;
    assert(run.last() == n[n.len() - 1]);
    assert(path_of_socket(None, status) =~= run + "/clipd.sock"@);
}

} // verus!
