//! What the picker and the daemon say to each other.
//!
//! Each message is one frame over a Unix socket at `$XDG_RUNTIME_DIR/clipd.sock`.
//! The picker is a short-lived client; the daemon is long-lived and authoritative.

use vstd::prelude::*;

verus! {

/// The file name of the daemon's socket.
pub const SOCKET_NAME: &'static str = "clipd.sock";

/// The protocol that the daemon speaks.
pub const PROTOCOL_VERSION: u32 = 1;

/// The version that the daemon reports.
pub const VERSION: &'static str = "0.2.0";

#[derive(Debug, Clone)]
pub enum Request {
    /// Health check; the daemon replies with its version.
    Ping,
    /// Return `limit` clips: the pinned ones first, each group newest first.
    Recent { limit: u32 },
    /// Full-text search across the text bodies of clips.
    Search { query: String, limit: u32 },
    /// Promote a clip back to the system clipboard.
    Activate { id: i64 },
    /// Pin or unpin a clip; pinned clips stick to the top of results.
    SetPinned { id: i64, pinned: bool },
    /// Remove one clip from history.
    Delete { id: i64 },
    /// Wipe the entire history.
    Clear,
}

/// What the daemon accepts: the requests of the picker, and clipboard content.
#[derive(Debug)]
pub enum InternalRequest {
    Public(Request),
    Ingest { mime: String, body: Vec<u8> },
}

#[derive(Debug, Clone)]
pub enum Response {
    Pong { version: String, protocol: u32 },
    Clips(Vec<Clip>),
    Done,
    Failed(String),
}

/// A single entry in clipboard history.
///
/// `body` is UTF-8 text, or the raw bytes of an image.
#[derive(Debug, Clone)]
pub struct Clip {
    pub id: i64,
    pub kind: ClipKind,
    pub body: Vec<u8>,
    /// Short display string.
    pub preview: String,
    pub mime: String,
    pub bytes: u64,
    /// Unix seconds when this clip was captured.
    pub created_at: i64,
    pub last_used_at: i64,
    pub use_count: u32,
    pub pinned: bool,
}

#[derive(Debug, Clone, Copy, PartialEq, Eq, Structural)]
pub enum ClipKind {
    Text,
    Url,
    HexColor,
    Json,
    Code,
    Image,
}

/// What a [`Clip`] holds.
#[verifier::ext_equal]
pub struct ClipView {
    pub id: i64,
    pub kind: ClipKind,
    pub body: Seq<u8>,
    pub preview: Seq<char>,
    pub mime: Seq<char>,
    pub bytes: u64,
    pub created_at: i64,
    pub last_used_at: i64,
    pub use_count: u32,
    pub pinned: bool,
}

impl View for Clip {
    type V = ClipView;

    open spec fn view(&self) -> ClipView {
        ClipView {
            id: self.id,
            kind: self.kind,
            body: self.body@,
            preview: self.preview@,
            mime: self.mime@,
            bytes: self.bytes,
            created_at: self.created_at,
            last_used_at: self.last_used_at,
            use_count: self.use_count,
            pinned: self.pinned,
        }
    }
}

/// What the clips of `v` hold.
pub open spec fn clip_views(v: Seq<Clip>) -> Seq<ClipView> {
    Seq::new(v.len(), |i: int| v[i]@)
}

/// What a [`Response`] holds.
#[verifier::ext_equal]
pub enum ResponseView {
    Pong { version: Seq<char>, protocol: u32 },
    Clips(Seq<ClipView>),
    Done,
    Failed(Seq<char>),
}

impl View for Response {
    type V = ResponseView;

    open spec fn view(&self) -> ResponseView {
        match self {
            Response::Pong { version, protocol } => ResponseView::Pong {
                version: version@,
                protocol: *protocol,
            },
            Response::Clips(clips) => ResponseView::Clips(clip_views(clips@)),
            Response::Done => ResponseView::Done,
            Response::Failed(message) => ResponseView::Failed(message@),
        }
    }
}

/// What an [`InternalRequest`] holds.
#[verifier::ext_equal]
pub enum RequestView {
    Ping,
    Recent { limit: u32 },
    Search { query: Seq<char>, limit: u32 },
    Activate { id: i64 },
    SetPinned { id: i64, pinned: bool },
    Delete { id: i64 },
    Clear,
    Ingest { mime: Seq<char>, body: Seq<u8> },
}

impl View for InternalRequest {
    type V = RequestView;

    open spec fn view(&self) -> RequestView {
        match self {
            InternalRequest::Public(Request::Ping) => RequestView::Ping,
            InternalRequest::Public(Request::Recent { limit }) => RequestView::Recent {
                limit: *limit,
            },
            InternalRequest::Public(Request::Search { query, limit }) => RequestView::Search {
                query: query@,
                limit: *limit,
            },
            InternalRequest::Public(Request::Activate { id }) => RequestView::Activate { id: *id },
            InternalRequest::Public(Request::SetPinned { id, pinned }) => RequestView::SetPinned {
                id: *id,
                pinned: *pinned,
            },
            InternalRequest::Public(Request::Delete { id }) => RequestView::Delete { id: *id },
            InternalRequest::Public(Request::Clear) => RequestView::Clear,
            InternalRequest::Ingest { mime, body } => RequestView::Ingest {
                mime: mime@,
                body: body@,
            },
        }
    }
}

/// The name of the icon that stands for clips of kind `kind`.
pub open spec fn icon_name(kind: ClipKind) -> Seq<char> {
    match kind {
        ClipKind::Text => "edit-paste-symbolic"@,
        ClipKind::Url => "web-browser-symbolic"@,
        ClipKind::HexColor => "color-select-symbolic"@,
        ClipKind::Json => "text-x-generic-symbolic"@,
        ClipKind::Code => "utilities-terminal-symbolic"@,
        ClipKind::Image => "image-x-generic-symbolic"@,
    }
}

impl ClipKind {
    /// The name of the icon that stands for clips of this kind.
    pub fn icon_hint(self) -> (name: &'static str)
        ensures
            name@ == icon_name(self),
    {
        match self {
            ClipKind::Text => "edit-paste-symbolic",
            ClipKind::Url => "web-browser-symbolic",
            ClipKind::HexColor => "color-select-symbolic",
            ClipKind::Json => "text-x-generic-symbolic",
            ClipKind::Code => "utilities-terminal-symbolic",
            ClipKind::Image => "image-x-generic-symbolic",
        }
    }

    /// The number that stands for this kind in the history table.
    pub open spec fn number(self) -> i64 {
        match self {
            ClipKind::Text => 0,
            ClipKind::Url => 1,
            ClipKind::HexColor => 2,
            ClipKind::Json => 3,
            ClipKind::Code => 4,
            ClipKind::Image => 5,
        }
    }

    /// The kind that `n` stands for; a number that stands for none is read as text.
    pub open spec fn numbered(n: i64) -> ClipKind {
        if n == 1 {
            ClipKind::Url
        } else if n == 2 {
            ClipKind::HexColor
        } else if n == 3 {
            ClipKind::Json
        } else if n == 4 {
            ClipKind::Code
        } else if n == 5 {
            ClipKind::Image
        } else {
            ClipKind::Text
        }
    }

    pub fn to_number(self) -> (n: i64)
        ensures
            n == self.number(),
    {
        match self {
            ClipKind::Text => 0,
            ClipKind::Url => 1,
            ClipKind::HexColor => 2,
            ClipKind::Json => 3,
            ClipKind::Code => 4,
            ClipKind::Image => 5,
        }
    }

    pub fn from_number(n: i64) -> (kind: ClipKind)
        ensures
            kind == ClipKind::numbered(n),
    {
        match n {
            1 => ClipKind::Url,
            2 => ClipKind::HexColor,
            3 => ClipKind::Json,
            4 => ClipKind::Code,
            5 => ClipKind::Image,
            _ => ClipKind::Text,
        }
    }
}

/// A kind is read back from the number that stands for it.
pub proof fn kind_survives_its_number(kind: ClipKind)
    ensures
        ClipKind::numbered(kind.number()) == kind,
{
}

/// Kinds are told apart by the numbers that stand for them and by their icons, and no number
/// from elsewhere is taken for anything but text.
pub proof fn kinds_are_told_apart(a: ClipKind, b: ClipKind, n: i64)
    ensures
        a.number() == b.number() <==> a == b,
        icon_name(a) == icon_name(b) <==> a == b,
        0 <= a.number() <= 5,
        0 <= n <= 5 ==> ClipKind::numbered(n).number() == n,
        !(0 <= n <= 5) ==> ClipKind::numbered(n) == ClipKind::Text,
{
    reveal_strlit("edit-paste-symbolic");
    reveal_strlit("web-browser-symbolic");
    reveal_strlit("color-select-symbolic");
    reveal_strlit("text-x-generic-symbolic");
    reveal_strlit("utilities-terminal-symbolic");
    reveal_strlit("image-x-generic-symbolic");
    assert("edit-paste-symbolic"@[0] == 'e' && "web-browser-symbolic"@[0] == 'w'
        && "color-select-symbolic"@[0] == 'c' && "text-x-generic-symbolic"@[0] == 't'
        && "utilities-terminal-symbolic"@[0] == 'u' && "image-x-generic-symbolic"@[0] == 'i');
}

/// Each kind has its number in the history table and its icon.
pub proof fn kinds_have_their_numbers_and_icons()
    ensures
        ClipKind::Text.number() == 0,
        ClipKind::Url.number() == 1,
        ClipKind::HexColor.number() == 2,
        ClipKind::Json.number() == 3,
        ClipKind::Code.number() == 4,
        ClipKind::Image.number() == 5,
        icon_name(ClipKind::Text) == "edit-paste-symbolic"@,
        icon_name(ClipKind::Url) == "web-browser-symbolic"@,
        icon_name(ClipKind::HexColor) == "color-select-symbolic"@,
        icon_name(ClipKind::Json) == "text-x-generic-symbolic"@,
        icon_name(ClipKind::Code) == "utilities-terminal-symbolic"@,
        icon_name(ClipKind::Image) == "image-x-generic-symbolic"@,
{
}

} // verus!
