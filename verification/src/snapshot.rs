//! The snapshot of the system clipboard that the palette takes when it opens.
//!
//! Text is tried first, then an image. What was read is sent to the daemon.

use vstd::prelude::*;

verus! {

/// What the palette asks the system clipboard for.
#[derive(Debug, Clone, Copy, PartialEq, Eq, Structural)]
pub enum Wanted {
    Text,
    Image,
}

/// What is done next.
#[derive(Debug, Clone, Copy, PartialEq, Eq, Structural)]
pub enum Next {
    /// Ask the clipboard for this.
    Read { wanted: Wanted },
    /// The content was captured: the result list may have to follow.
    Captured,
    /// There is nothing to capture.
    Stop,
}

/// How an attempt ended.
#[derive(Debug, Clone, Copy, PartialEq, Eq, Structural)]
pub enum Outcome {
    /// The clipboard held nothing of that sort.
    Nothing,
    /// The content was sent to the daemon, which took it or did not.
    Sent { accepted: bool },
}

/// The MIME type of what is asked for.
pub open spec fn mime_of(wanted: Wanted) -> Seq<char> {
    match wanted {
        Wanted::Text => "text/plain"@,
        Wanted::Image => "image/png"@,
    }
}

pub fn mime(wanted: Wanted) -> (m: &'static str)
    ensures
        m@ == mime_of(wanted),
{
    match wanted {
        Wanted::Text => "text/plain",
        Wanted::Image => "image/png",
    }
}

/// The arguments with which `wl-paste` is run.
pub fn paste_args(wanted: Wanted) -> (args: Vec<&'static str>)
    ensures
        args@.len() == if wanted == Wanted::Text {
            3int
        } else {
            2int
        },
        args@[0]@ == "--type"@,
        args@[1]@ == mime_of(wanted),
        wanted == Wanted::Text ==> args@[2]@ == "--no-newline"@,
{
    let mut args: Vec<&'static str> = Vec::new();
    args.push("--type");
    args.push(mime(wanted));
    if wanted == Wanted::Text {
        args.push("--no-newline");
    }
    args
}

/// Whether what `wl-paste` printed is sent to the daemon.
pub fn is_worth_sending(success: bool, output: &[u8]) -> (b: bool)
    ensures
        b == (success && output@.len() > 0),
{
    success && output.len() > 0
}

/// What follows an attempt: an image is tried where no text was captured.
pub open spec fn following(wanted: Wanted, outcome: Outcome) -> Next {
    match (wanted, outcome) {
        (_, Outcome::Sent { accepted: true }) => Next::Captured,
        (Wanted::Text, _) => Next::Read { wanted: Wanted::Image },
        (Wanted::Image, _) => Next::Stop,
    }
}

/// What is done first.
pub fn snapshot_clipboard() -> (next: Next)
    ensures
        next == (Next::Read { wanted: Wanted::Text }),
{
    Next::Read { wanted: Wanted::Text }
}

/// What follows an attempt.
pub fn after(wanted: Wanted, outcome: Outcome) -> (next: Next)
    ensures
        next == following(wanted, outcome),
{
    if let Outcome::Sent { accepted: true } = outcome {
        return Next::Captured;
    }
    match wanted {
        Wanted::Text => Next::Read { wanted: Wanted::Image },
        Wanted::Image => Next::Stop,
    }
}

/// At most one thing is captured, at most two are tried, and an image only where no text
/// was captured.
pub proof fn snapshots_end(text: Outcome, image: Outcome)
    ensures
        ({
            let second = following(Wanted::Text, text);
            &&& text == (Outcome::Sent { accepted: true }) <==> second == Next::Captured
            &&& second != Next::Captured ==> second == (Next::Read { wanted: Wanted::Image })
            &&& !(following(Wanted::Image, image) is Read)
        }),
{
}

/// What is asked for goes by its own MIME type: text is told from images by it.
pub proof fn what_is_asked_for_has_its_mime_type(wanted: Wanted)
    ensures
        wanted == Wanted::Text ==> mime_of(wanted) == "text/plain"@,
        wanted == Wanted::Image ==> mime_of(wanted) == "image/png"@,
        wanted == Wanted::Image <==> "image/"@.is_prefix_of(mime_of(wanted)),
{
    reveal_strlit("text/plain");
    reveal_strlit("image/png");
    reveal_strlit("image/");
    assert("image/png"@.subrange(0, 6) =~= "image/"@);
    assert("text/plain"@[0] != "image/"@[0]);
}

} // verus!
