//! The picker's side of a conversation with the daemon.
//!
//! Each call is one request and one reply. A [`Client`] says where the daemon is, makes
//! the requests, and says what each reply means.

use crate::history::{History, Hit};
use crate::ipc;
use crate::proto;
use crate::proto::{
    Clip, ClipView, InternalRequest, Request, RequestView, Response, ResponseView,
};
use crate::socket;
use vstd::prelude::*;
use vstd::string::StringExecFns;

verus! {

/// Why a call came to nothing.
#[derive(Debug)]
pub enum ClientError {
    /// The daemon refused; this is what it said.
    Daemon(String),
    /// The reply is none to the request.
    Unexpected(Response),
}

/// What a [`ClientError`] holds.
#[verifier::ext_equal]
pub enum ClientErrorView {
    Daemon(Seq<char>),
    Unexpected(ResponseView),
}

impl View for ClientError {
    type V = ClientErrorView;

    open spec fn view(&self) -> ClientErrorView {
        match self {
            ClientError::Daemon(m) => ClientErrorView::Daemon(m@),
            ClientError::Unexpected(r) => ClientErrorView::Unexpected(r@),
        }
    }
}

/// What is said of a refusal.
pub open spec fn refusal(message: Seq<char>) -> ClientErrorView {
    ClientErrorView::Daemon("daemon: "@ + message)
}

/// The clips of a reply to a request for clips.
pub open spec fn clips_in(reply: ResponseView) -> Result<Seq<ClipView>, ClientErrorView> {
    match reply {
        ResponseView::Clips(clips) => Ok(clips),
        ResponseView::Failed(message) => Err(refusal(message)),
        _ => Err(ClientErrorView::Unexpected(reply)),
    }
}

/// Whether a reply to any other request says that it was done.
pub open spec fn done_by(reply: ResponseView) -> Result<(), ClientErrorView> {
    match reply {
        ResponseView::Done => Ok(()),
        ResponseView::Failed(message) => Err(refusal(message)),
        _ => Err(ClientErrorView::Unexpected(reply)),
    }
}

pub open spec fn clips_result(r: Result<Vec<Clip>, ClientError>) -> Result<
    Seq<ClipView>,
    ClientErrorView,
> {
    match r {
        Ok(clips) => Ok(proto::clip_views(clips@)),
        Err(e) => Err(e@),
    }
}

pub open spec fn done_result(r: Result<(), ClientError>) -> Result<(), ClientErrorView> {
    match r {
        Ok(_) => Ok(()),
        Err(e) => Err(e@),
    }
}

fn refused(message: &str) -> (e: ClientError)
    ensures
        e@ == refusal(message@),
{
    let mut m = "daemon: ".to_owned();
    m.append(message);
    ClientError::Daemon(m)
}

fn expect_clips(reply: Response) -> (r: Result<Vec<Clip>, ClientError>)
    ensures
        clips_result(r) == clips_in(reply@),
{
    match reply {
        Response::Clips(clips) => Ok(clips),
        Response::Failed(message) => Err(refused(message.as_str())),
        other => Err(ClientError::Unexpected(other)),
    }
}

fn expect_done(reply: Response) -> (r: Result<(), ClientError>)
    ensures
        done_result(r) == done_by(reply@),
{
    match reply {
        Response::Done => Ok(()),
        Response::Failed(message) => Err(refused(message.as_str())),
        other => Err(ClientError::Unexpected(other)),
    }
}

/// Knows where the daemon is, what to send it, and what its replies mean.
#[derive(Debug)]
pub struct Client {
    socket: String,
}

impl Client {
    /// Where the daemon's socket is.
    pub closed spec fn at(&self) -> Seq<char> {
        self.socket@
    }

    /// A client of the daemon whose socket `$XDG_RUNTIME_DIR` and the text of
    /// `/proc/self/status` lead to.
    pub fn new(runtime_dir: Option<&str>, status: Option<&str>) -> (client: Client)
        ensures
            client.at() == socket::path_of_socket(
                socket::text_of(runtime_dir),
                socket::text_of(status),
            ),
    {
        Client { socket: socket::socket_path(runtime_dir, status) }
    }

    /// Where the daemon's socket is.
    pub fn socket(&self) -> (path: &str)
        ensures
            path@ == self.at(),
    {
        self.socket.as_str()
    }

    /// What the daemon is sent for `req`.
    pub fn call(&self, req: Request) -> (wire: InternalRequest)
        ensures
            wire == InternalRequest::Public(req),
    {
        InternalRequest::Public(req)
    }

    /// The request for the first `limit` clips.
    pub fn ask_recent(&self, limit: u32) -> (wire: InternalRequest)
        ensures
            wire@ == (RequestView::Recent { limit }),
    {
        self.call(Request::Recent { limit })
    }

    /// What the reply to [`Client::ask_recent`] says.
    pub fn recent(&self, reply: Response) -> (r: Result<Vec<Clip>, ClientError>)
        ensures
            clips_result(r) == clips_in(reply@),
    {
        expect_clips(reply)
    }

    /// The request for the first `limit` clips that match `query`.
    pub fn ask_search(&self, query: &str, limit: u32) -> (wire: InternalRequest)
        ensures
            wire@ == (RequestView::Search { query: query@, limit }),
    {
        self.call(Request::Search { query: query.to_owned(), limit })
    }

    /// What the reply to [`Client::ask_search`] says.
    pub fn search(&self, reply: Response) -> (r: Result<Vec<Clip>, ClientError>)
        ensures
            clips_result(r) == clips_in(reply@),
    {
        expect_clips(reply)
    }

    /// The request to note a use of the clip `id`.
    pub fn ask_activate(&self, id: i64) -> (wire: InternalRequest)
        ensures
            wire@ == (RequestView::Activate { id }),
    {
        self.call(Request::Activate { id })
    }

    /// What the reply to [`Client::ask_activate`] says.
    pub fn activate(&self, reply: Response) -> (r: Result<(), ClientError>)
        ensures
            done_result(r) == done_by(reply@),
    {
        expect_done(reply)
    }

    /// The request to pin or unpin the clip `id`.
    pub fn ask_set_pinned(&self, id: i64, pinned: bool) -> (wire: InternalRequest)
        ensures
            wire@ == (RequestView::SetPinned { id, pinned }),
    {
        self.call(Request::SetPinned { id, pinned })
    }

    /// What the reply to [`Client::ask_set_pinned`] says.
    pub fn set_pinned(&self, reply: Response) -> (r: Result<(), ClientError>)
        ensures
            done_result(r) == done_by(reply@),
    {
        expect_done(reply)
    }

    /// The request to remove the clip `id`.
    pub fn ask_delete(&self, id: i64) -> (wire: InternalRequest)
        ensures
            wire@ == (RequestView::Delete { id }),
    {
        self.call(Request::Delete { id })
    }

    /// What the reply to [`Client::ask_delete`] says.
    pub fn delete(&self, reply: Response) -> (r: Result<(), ClientError>)
        ensures
            done_result(r) == done_by(reply@),
    {
        expect_done(reply)
    }

    /// The request to capture clipboard content.
    pub fn ask_ingest(&self, mime: String, body: Vec<u8>) -> (wire: InternalRequest)
        ensures
            wire@ == (RequestView::Ingest { mime: mime@, body: body@ }),
    {
        InternalRequest::Ingest { mime, body }
    }

    /// What the reply to [`Client::ask_ingest`] says.
    pub fn ingest(&self, reply: Response) -> (r: Result<(), ClientError>)
        ensures
            done_result(r) == done_by(reply@),
    {
        expect_done(reply)
    }
}

/// The daemon's reply is never unexpected: a request for clips gets clips or a refusal,
/// and every other request of a client gets a confirmation or a refusal.
pub proof fn replies_are_expected(
    h: History,
    req: RequestView,
    found: Result<Seq<Hit>, Seq<char>>,
    now: i64,
)
    ensures
        ({
            let reply = ipc::answered(h, req, found, now).1;
            &&& req is Recent || req is Search ==> !(clips_in(reply) matches Err(
                ClientErrorView::Unexpected(_),
            ))
            &&& !(req is Recent || req is Search || req is Ping) ==> !(done_by(reply) matches Err(
                ClientErrorView::Unexpected(_),
            ))
        }),
{
}

/// A client that asks for the recent clips is told what the history lists, one that
/// searches what the index found of it, and one that pins or deletes is told that
/// it was done.
pub proof fn clients_are_told_what_happened(
    h: History,
    limit: u32,
    query: Seq<char>,
    hits: Seq<Hit>,
    id: i64,
    pinned: bool,
    now: i64,
)
    ensures
        clips_in(ipc::answered(h, RequestView::Recent { limit }, Ok(hits), now).1) == Ok::<
            Seq<ClipView>,
            ClientErrorView,
        >(h.recent(limit)),
        clips_in(ipc::answered(h, RequestView::Search { query, limit }, Ok(hits), now).1) == Ok::<
            Seq<ClipView>,
            ClientErrorView,
        >(h.search(hits, limit)),
        done_by(ipc::answered(h, RequestView::SetPinned { id, pinned }, Ok(hits), now).1) == Ok::<
            (),
            ClientErrorView,
        >(()),
        done_by(ipc::answered(h, RequestView::Delete { id }, Ok(hits), now).1) == Ok::<
            (),
            ClientErrorView,
        >(()),
{
}

/// A client takes clips from a reply that holds them, a confirmation from one that gives it, and
/// tells of a refusal in the daemon's own words. Any other reply is handed on as it is.
pub proof fn replies_are_told_as_they_are(reply: ResponseView, clips: Seq<ClipView>)
    ensures
        clips_in(reply) == Ok::<Seq<ClipView>, ClientErrorView>(clips) <==> reply
            == ResponseView::Clips(clips),
        done_by(reply) is Ok <==> reply == ResponseView::Done,
        reply matches ResponseView::Failed(m) ==> clips_in(reply) == Err::<
            Seq<ClipView>,
            ClientErrorView,
        >(ClientErrorView::Daemon("daemon: "@ + m)) && done_by(reply) == Err::<
            (),
            ClientErrorView,
        >(ClientErrorView::Daemon("daemon: "@ + m)),
        clips_in(reply) matches Err(ClientErrorView::Unexpected(r)) ==> r == reply,
        done_by(reply) matches Err(ClientErrorView::Unexpected(r)) ==> r == reply,
        !(reply is Clips || reply is Failed) <==> (clips_in(reply) is Err && clips_in(reply)->Err_0 is Unexpected),
        !(reply is Done || reply is Failed) <==> (done_by(reply) is Err && done_by(reply)->Err_0 is Unexpected),
{
}

} // verus!
