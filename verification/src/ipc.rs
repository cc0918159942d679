//! How the daemon answers a request.

use crate::classify;
use crate::clock;
use crate::clock::unix_now;
use crate::history::{History, Hit, StoreError};
use crate::history_laws;
use crate::proto::{
    Clip, ClipKind, ClipView, InternalRequest, Request, RequestView, Response, ResponseView,
    PROTOCOL_VERSION, VERSION,
};
use crate::query;
use crate::store::{copy_bytes, Store};
use crate::text;
use vstd::prelude::*;
use vstd::string::StringExecFns;

verus! {

/// How long the preview of a clip is, in characters.
pub const PREVIEW_CHARS: usize = 200;

/// What is said of an operation on the history that could not be done.
pub open spec fn store_message(e: StoreError) -> Seq<char> {
    match e {
        StoreError::OutOfIds => "database or disk is full"@,
        StoreError::CountExhausted => "use count is exhausted"@,
    }
}

/// What is said of a clip that is not there.
pub open spec fn not_found(id: i64) -> Seq<char> {
    "clip "@ + text::signed_decimal(id as int) + " not found"@
}

/// What the full-text index found, or why it could not look.
pub type Found = Result<Vec<Hit>, String>;

/// What a [`Found`] holds.
pub open spec fn found_view(found: Found) -> Result<Seq<Hit>, Seq<char>> {
    match found {
        Ok(hits) => Ok(hits@),
        Err(e) => Err(e@),
    }
}

/// A capture at `now`. Content of which nothing can be seen is skipped, unless it is an
/// image.
pub open spec fn ingested(h: History, mime: Seq<char>, body: Seq<u8>, now: i64) -> (
    History,
    ResponseView,
) {
    let kind = classify::kind_of(mime, body);
    let preview = classify::preview(kind, mime, body, PREVIEW_CHARS as int);
    if preview.len() == 0 && kind != ClipKind::Image {
        (h, ResponseView::Done)
    } else {
        let (after, r) = h.insert(kind, mime, body, preview, now);
        match r {
            Ok(_) => (after, ResponseView::Done),
            Err(e) => (after, ResponseView::Failed(store_message(e))),
        }
    }
}

/// A use of the clip `id` at `now`.
pub open spec fn activated(h: History, id: i64, now: i64) -> (History, ResponseView) {
    match h.clip(id) {
        None => (h, ResponseView::Failed(not_found(id))),
        Some(_) => {
            let (after, r) = h.touch(id, now);
            match r {
                Ok(_) => (after, ResponseView::Done),
                Err(e) => (after, ResponseView::Failed(store_message(e))),
            }
        },
    }
}

/// The history after the request `req` at `now`, and what is answered. `found` is what
/// the full-text index finds for a search.
pub open spec fn answered(
    h: History,
    req: RequestView,
    found: Result<Seq<Hit>, Seq<char>>,
    now: i64,
) -> (History, ResponseView) {
    match req {
        RequestView::Ping => (
            h,
            ResponseView::Pong { version: VERSION@, protocol: PROTOCOL_VERSION },
        ),
        RequestView::Recent { limit } => (h, ResponseView::Clips(h.recent(limit))),
        RequestView::Search { query, limit } => match found {
            Ok(hits) => (h, ResponseView::Clips(h.search(hits, limit))),
            Err(e) => (h, ResponseView::Failed(e)),
        },
        RequestView::Activate { id } => activated(h, id, now),
        RequestView::SetPinned { id, pinned } => (h.set_pinned(id, pinned), ResponseView::Done),
        RequestView::Delete { id } => (h.delete(id), ResponseView::Done),
        RequestView::Clear => (h.clear(), ResponseView::Done),
        RequestView::Ingest { mime, body } => ingested(h, mime, body, now),
    }
}

/// What the full-text index is asked before `req` is answered.
pub open spec fn index_question(req: RequestView) -> Option<Seq<char>> {
    match req {
        RequestView::Search { query, limit } => Some(
            query::expression(query::terms_of(text::words(query))),
        ),
        _ => None,
    }
}

/// What a clip puts on the system clipboard: its bytes, and their MIME type where they
/// are not text.
#[derive(Debug)]
pub struct Offer {
    pub body: Vec<u8>,
    pub mime: Option<String>,
}

/// What an [`Offer`] holds.
#[verifier::ext_equal]
pub struct OfferView {
    pub body: Seq<u8>,
    pub mime: Option<Seq<char>>,
}

impl View for Offer {
    type V = OfferView;

    open spec fn view(&self) -> OfferView {
        OfferView {
            body: self.body@,
            mime: match self.mime {
                Some(m) => Some(m@),
                None => None,
            },
        }
    }
}

/// What the clip `clip` puts on the system clipboard: an image under its MIME type, and
/// everything else as text.
pub open spec fn offer_of(clip: ClipView) -> OfferView {
    OfferView {
        body: clip.body,
        mime: if clip.kind == ClipKind::Image {
            Some(clip.mime)
        } else {
            None
        },
    }
}

/// What goes on the system clipboard before `req` is answered.
pub open spec fn offer_for(h: History, req: RequestView) -> Option<OfferView> {
    match req {
        RequestView::Activate { id } => match h.clip(id) {
            Some(clip) => Some(offer_of(clip)),
            None => None,
        },
        _ => None,
    }
}

impl StoreError {
    /// What is said of an operation on the history that could not be done.
    pub fn message(self) -> (m: &'static str)
        ensures
            m@ == store_message(self),
    {
        match self {
            StoreError::OutOfIds => "database or disk is full",
            StoreError::CountExhausted => "use count is exhausted",
        }
    }
}

fn failed(e: StoreError) -> (r: Response)
    ensures
        r@ == ResponseView::Failed(store_message(e)),
{
    Response::Failed(e.message().to_owned())
}

/// What the full-text index has to be asked before `req` can be answered.
pub fn search_expression(req: &InternalRequest) -> (q: Option<String>)
    ensures
        match q {
            Some(q) => index_question(req@) == Some(q@),
            None => index_question(req@) is None,
        },
{
    match req {
        InternalRequest::Public(Request::Search { query, limit }) => Some(
            query::fts_query(query.as_str()),
        ),
        _ => None,
    }
}

/// What goes on the system clipboard before `req` is answered.
pub fn clipboard_offer(store: &Store, req: &InternalRequest) -> (offer: Option<Offer>)
    requires
        store@.well_formed(),
    ensures
        match offer {
            Some(o) => offer_for(store@, req@) == Some(o@),
            None => offer_for(store@, req@) is None,
        },
{
    match req {
        InternalRequest::Public(Request::Activate { id }) => match store.clip(*id) {
            Some(clip) => Some(write_to_clipboard(&clip)),
            None => None,
        },
        _ => None,
    }
}

/// What the clip `clip` puts on the system clipboard.
pub fn write_to_clipboard(clip: &Clip) -> (offer: Offer)
    ensures
        offer@ == offer_of(clip@),
{
    let mime = if clip.kind == ClipKind::Image {
        Some(clip.mime.clone())
    } else {
        None
    };
    Offer { body: copy_bytes(clip.body.as_slice()), mime }
}

/// Captures clipboard content at `now`.
pub fn ingest_at(mime: &str, body: &[u8], store: &mut Store, now: i64) -> (r: Response)
    requires
        old(store)@.well_formed(),
    ensures
        (final(store)@, r@) == ingested(old(store)@, mime@, body@, now),
        final(store)@.well_formed(),
        history_laws::sound(old(store)@) ==> history_laws::sound(final(store)@),
{
    let kind = classify::classify(mime, body);
    let preview = classify::make_preview(kind, mime, body, PREVIEW_CHARS);
    if text::chars_of(preview.as_str()).len() == 0 && kind != ClipKind::Image {
        return Response::Done;
    }
    match store.insert_at(kind, mime, body, preview.as_str(), now) {
        Ok(_) => Response::Done,
        Err(e) => failed(e),
    }
}

/// Notes a use of the clip `id` at `now`.
pub fn activate_at(id: i64, store: &mut Store, now: i64) -> (r: Response)
    requires
        old(store)@.well_formed(),
    ensures
        (final(store)@, r@) == activated(old(store)@, id, now),
        final(store)@.well_formed(),
        history_laws::sound(old(store)@) ==> history_laws::sound(final(store)@),
{
    match store.clip(id) {
        None => {
            let mut message = "clip ".to_owned();
            text::push_signed_decimal(&mut message, id);
            message.append(" not found");
            Response::Failed(message)
        },
        Some(_) => match store.touch_at(id, now) {
            Ok(_) => Response::Done,
            Err(e) => failed(e),
        },
    }
}

/// Answers `req` at `now`. `found` is what the full-text index finds for a search.
pub fn dispatch_at(req: InternalRequest, store: &mut Store, found: Found, now: i64) -> (r: Response)
    requires
        old(store)@.well_formed(),
    ensures
        (final(store)@, r@) == answered(old(store)@, req@, found_view(found), now),
        final(store)@.well_formed(),
        history_laws::sound(old(store)@) ==> history_laws::sound(final(store)@),
{
    match req {
        InternalRequest::Public(Request::Ping) => Response::Pong {
            version: VERSION.to_owned(),
            protocol: PROTOCOL_VERSION,
        },
        InternalRequest::Public(Request::Recent { limit }) => Response::Clips(store.recent(limit)),
        InternalRequest::Public(Request::Search { query, limit }) => match found {
            Ok(hits) => Response::Clips(store.search(hits.as_slice(), limit)),
            Err(e) => Response::Failed(e),
        },
        InternalRequest::Public(Request::Activate { id }) => activate_at(id, store, now),
        InternalRequest::Public(Request::SetPinned { id, pinned }) => {
            store.set_pinned(id, pinned);
            Response::Done
        },
        InternalRequest::Public(Request::Delete { id }) => {
            store.delete(id);
            Response::Done
        },
        InternalRequest::Public(Request::Clear) => {
            store.clear();
            Response::Done
        },
        InternalRequest::Ingest { mime, body } => ingest_at(
            mime.as_str(),
            body.as_slice(),
            store,
            now,
        ),
    }
}

/// Answers `req` now. `found` is what the full-text index finds for a search.
pub fn dispatch(req: InternalRequest, store: &mut Store, found: Found) -> (r: Response)
    requires
        old(store)@.well_formed(),
    ensures
        exists|now: i64| #[trigger]
            clock::clock_told(now) && (final(store)@, r@) == answered(
                old(store)@,
                req@,
                found_view(found),
                now,
            ),
        final(store)@.well_formed(),
        history_laws::sound(old(store)@) ==> history_laws::sound(final(store)@),
{
    dispatch_at(req, store, found, unix_now())
}

} // verus!
