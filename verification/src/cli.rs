//! The command line of the daemon.

use crate::proto::{InternalRequest, RequestView};
use crate::text;
use vstd::prelude::*;

verus! {

/// What the daemon's executable is asked to do.
#[derive(Debug)]
pub enum Command {
    /// Run the daemon.
    Daemon,
    /// Send what stands on standard input to the running daemon.
    Ingest,
    /// Print the version.
    Version,
    /// Print how to use it.
    Help,
    /// There is no such command.
    Unknown(String),
}

/// What a [`Command`] holds.
#[verifier::ext_equal]
pub enum CommandView {
    Daemon,
    Ingest,
    Version,
    Help,
    Unknown(Seq<char>),
}

impl View for Command {
    type V = CommandView;

    open spec fn view(&self) -> CommandView {
        match self {
            Command::Daemon => CommandView::Daemon,
            Command::Ingest => CommandView::Ingest,
            Command::Version => CommandView::Version,
            Command::Help => CommandView::Help,
            Command::Unknown(name) => CommandView::Unknown(name@),
        }
    }
}

/// The command that `name` stands for.
pub open spec fn command_named(name: Seq<char>) -> CommandView {
    if name == "daemon"@ {
        CommandView::Daemon
    } else if name == "ingest"@ {
        CommandView::Ingest
    } else if name == "version"@ || name == "--version"@ || name == "-V"@ {
        CommandView::Version
    } else if name == "help"@ || name == "--help"@ || name == "-h"@ {
        CommandView::Help
    } else {
        CommandView::Unknown(name)
    }
}

/// The command that the first argument names; the daemon is run where there is none.
pub fn command(name: Option<&str>) -> (c: Command)
    ensures
        c@ == match name {
            Some(n) => command_named(n@),
            None => CommandView::Daemon,
        },
{
    let name = match name {
        Some(n) => n,
        None => {
            return Command::Daemon;
        },
    };
    if text::same_text(name, "daemon") {
        Command::Daemon
    } else if text::same_text(name, "ingest") {
        Command::Ingest
    } else if text::same_text(name, "version") || text::same_text(name, "--version")
        || text::same_text(name, "-V") {
        Command::Version
    } else if text::same_text(name, "help") || text::same_text(name, "--help") || text::same_text(
        name,
        "-h",
    ) {
        Command::Help
    } else {
        Command::Unknown(name.to_owned())
    }
}

/// The MIME type that the arguments give: the argument behind the first `--mime`, or what
/// follows `--mime=`, whichever comes first.
pub open spec fn mime_in(args: Seq<Seq<char>>) -> Option<Seq<char>>
    decreases args.len(),
{
    if args.len() == 0 {
        None
    } else if args[0] == "--mime"@ {
        if args.len() > 1 {
            Some(args[1])
        } else {
            None
        }
    } else if "--mime="@.is_prefix_of(args[0]) {
        Some(args[0].skip("--mime="@.len() as int))
    } else {
        mime_in(args.skip(1))
    }
}

/// The MIME type that the arguments give.
pub fn parse_mime(args: &[String]) -> (mime: Option<String>)
    ensures
        match mime {
            Some(m) => mime_in(text::texts_of(args@)) == Some(m@),
            None => mime_in(text::texts_of(args@)) is None,
        },
{
    let ghost all = text::texts_of(args@);
    let mut i: usize = 0;
    assert(all.skip(0) =~= all);
    while i < args.len()
        invariant
            all == text::texts_of(args@),
            i <= args@.len(),
            mime_in(all) == mime_in(all.skip(i as int)),
        decreases args@.len() - i,
    {
        proof {
            assert(all.skip(i as int)[0] == args@[i as int]@);
            assert(all.skip(i as int).skip(1) =~= all.skip(i + 1));
        }
        if text::same_text(args[i].as_str(), "--mime") {
            if i + 1 < args.len() {
                assert(all.skip(i as int)[1] == args@[i + 1]@);
                return Some(args[i + 1].clone());
            }
            return None;
        }
        if text::starts_with(args[i].as_str(), "--mime=") {
            let chars = text::chars_of(args[i].as_str());
            proof {
                reveal_strlit("--mime=");
                assert(chars@.subrange(7, chars@.len() as int) =~= chars@.skip(7));
            }
            return Some(text::string_of(&chars.as_slice()[7..chars.len()]));
        }
        i = i + 1;
    }
    None
}

/// What is sent of the content `body`: text without one line feed at its end.
pub open spec fn content(mime: Seq<char>, body: Seq<u8>) -> Seq<u8> {
    if body.len() > 0 && body.last() == 10 && "text/"@.is_prefix_of(mime) {
        body.drop_last()
    } else {
        body
    }
}

/// The request that sends `body` to the daemon; none where there is nothing to send.
pub fn ingest_request(mime: String, body: Vec<u8>) -> (req: Option<InternalRequest>)
    ensures
        match req {
            Some(r) => content(mime@, body@).len() > 0 && r@ == (RequestView::Ingest {
                mime: mime@,
                body: content(mime@, body@),
            }),
            None => content(mime@, body@).len() == 0,
        },
{
    let mut body = body;
    if body.len() > 0 && body[body.len() - 1] == 10 && text::starts_with(mime.as_str(), "text/") {
        let _ = body.pop();
    }
    if body.len() == 0 {
        return None;
    }
    Some(InternalRequest::Ingest { mime, body })
}

/// Why the `ingest` command does nothing.
#[derive(Debug, Clone, Copy, PartialEq, Eq, Structural)]
pub enum IngestError {
    /// The arguments give no MIME type.
    MissingMime,
}

/// What the `ingest` command sends for these arguments and this input; nothing where there
/// is nothing to send.
pub fn run(args: &[String], input: Vec<u8>) -> (r: Result<Option<InternalRequest>, IngestError>)
    ensures
        match r {
            Err(IngestError::MissingMime) => mime_in(text::texts_of(args@)) is None,
            Ok(None) => mime_in(text::texts_of(args@)) matches Some(m) && content(m, input@).len() == 0,
            Ok(Some(req)) => mime_in(text::texts_of(args@)) matches Some(m) && content(m, input@).len() > 0
                && req@ == (RequestView::Ingest { mime: m, body: content(m, input@) }),
        },
{
    match parse_mime(args) {
        Some(mime) => Ok(ingest_request(mime, input)),
        None => Err(IngestError::MissingMime),
    }
}

/// Text that differs only in one line feed at its end is the same content.
pub proof fn one_line_feed_is_no_difference(mime: Seq<char>, body: Seq<u8>)
    requires
        "text/"@.is_prefix_of(mime),
        body.len() == 0 || body.last() != 10,
    ensures
        content(mime, body.push(10)) == content(mime, body),
        content(mime, body) == body,
{
    assert(body.push(10).drop_last() =~= body);
}

/// No argument gives a MIME type.
spec fn without_mime(args: Seq<Seq<char>>) -> bool {
    forall|i: int|
        0 <= i < args.len() ==> #[trigger] args[i] != "--mime"@ && !"--mime="@.is_prefix_of(args[i])
}

proof fn other_arguments_are_skipped(before: Seq<Seq<char>>, args: Seq<Seq<char>>)
    requires
        without_mime(before),
    ensures
        mime_in(before + args) == mime_in(args),
    decreases before.len(),
{
    let all = before + args;
    if before.len() == 0 {
        assert(all =~= args);
    } else {
        let later = before.skip(1);
        assert(all[0] == before[0]);
        assert forall|i: int| 0 <= i < later.len() implies #[trigger] later[i] != "--mime"@
            && !"--mime="@.is_prefix_of(later[i]) by {
            assert(later[i] == before[i + 1]);
        }
        other_arguments_are_skipped(later, args);
        assert(all.skip(1) =~= later + args);
    }
}

/// The MIME type can be given in two ways, among any other arguments; the first one counts.
/// Without one, and behind a `--mime` at the very end, there is none.
pub proof fn mime_types_are_found(before: Seq<Seq<char>>, mime: Seq<char>, behind: Seq<Seq<char>>)
    requires
        forall|i: int|
            0 <= i < before.len() ==> #[trigger] before[i] != "--mime"@ && !"--mime="@.is_prefix_of(
                before[i],
            ),
    ensures
        mime_in(before + seq!["--mime"@, mime] + behind) == Some(mime),
        mime_in(before + seq!["--mime="@ + mime] + behind) == Some(mime),
        mime_in(before) is None,
        mime_in(before + seq!["--mime"@]) is None,
{
    let two = seq!["--mime"@, mime] + behind;
    let one = seq!["--mime="@ + mime] + behind;
    other_arguments_are_skipped(before, two);
    other_arguments_are_skipped(before, one);
    other_arguments_are_skipped(before, Seq::empty());
    other_arguments_are_skipped(before, seq!["--mime"@]);
    assert(before + seq!["--mime"@, mime] + behind =~= before + two);
    assert(before + seq!["--mime="@ + mime] + behind =~= before + one);
    assert(before + Seq::<Seq<char>>::empty() =~= before);
    assert(two[0] == "--mime"@ && two[1] == mime);
    reveal_strlit("--mime");
    reveal_strlit("--mime=");
    let given = "--mime="@ + mime;
    assert(one[0] == given);
    assert(given.len() >= 7 && "--mime"@.len() == 6);
    assert(given.subrange(0, 7) =~= "--mime="@);
    assert(given.skip(7) =~= mime);
}

/// Of text one line feed at the end is left out, and of other content nothing.
pub proof fn content_is_sent_whole(mime: Seq<char>, body: Seq<u8>)
    ensures
        "text/"@.is_prefix_of(mime) ==> content(mime, body.push(10)) == body,
        "text/"@.is_prefix_of(mime) ==> body.len() > 0 ==> body.last() != 10 ==> content(mime, body)
            == body,
        !"text/"@.is_prefix_of(mime) ==> content(mime, body) == body,
        content(mime, Seq::empty()).len() == 0,
{
    assert(body.push(10).drop_last() =~= body);
}

/// Every command has its names, and any other name is told to be unknown.
pub proof fn commands_go_by_their_names(name: Seq<char>)
    ensures
        command_named(name) is Daemon <==> name == "daemon"@,
        command_named(name) is Ingest <==> name == "ingest"@,
        command_named(name) is Version <==> name == "version"@ || name == "--version"@ || name
            == "-V"@,
        command_named(name) is Help <==> name == "help"@ || name == "--help"@ || name == "-h"@,
        command_named(name) matches CommandView::Unknown(n) ==> n == name,
{
    reveal_strlit("daemon");
    reveal_strlit("ingest");
    reveal_strlit("version");
    reveal_strlit("--version");
    reveal_strlit("-V");
    reveal_strlit("help");
    reveal_strlit("--help");
    reveal_strlit("-h");
    assert("daemon"@[0] == 'd' && "ingest"@[0] == 'i' && "version"@[0] == 'v' && "--version"@.len()
        == 9 && "-V"@[1] == 'V' && "help"@[0] == 'h' && "--help"@[2] == 'h' && "-h"@[1] == 'h');
}

} // verus!
