//! The per-request data model: the parsed request handed in by a server
//! loop, the response handed back, and the body-consumption rule — a body
//! may be taken at most once per request.

use vstd::prelude::*;
use crate::bytes::bytes_of;
use crate::bytes::lit_bytes;
use crate::error::ExtractError;
use crate::error::spec_message_of;
use crate::error::spec_status_of;
use crate::error::message_of;
use crate::error::status_of;

verus! {

/// The HTTP verbs the router registers handlers under.
#[derive(Clone, Copy, Debug, PartialEq, Eq, Structural)]
pub enum Method {
    Get,
    Post,
    Put,
    Delete,
}

/// The content types this layer produces.
#[derive(Clone, Copy, Debug, PartialEq, Eq, Structural)]
pub enum ContentType {
    TextPlain,
    AppJson,
}

/// The body size above which reading the body fails with `BodyReadError`.
pub const MAX_BODY_LEN: usize = 1048576;

/// A parsed request as the router receives it: the server loop has already
/// read the socket and split the request line; this layer never touches
/// socket bytes.
pub struct Request {
    pub method: Method,
    /// The path, still percent-encoded, without the query string.
    pub path: Vec<u8>,
    /// The raw query string, without its leading `?`.
    pub query: Vec<u8>,
    pub headers: Vec<(Vec<u8>, Vec<u8>)>,
    pub body: Vec<u8>,
    /// Whether a body extractor already consumed the body.
    pub body_taken: bool,
}

pub ghost struct ReqV {
    pub method: Method,
    pub path: Seq<u8>,
    pub query: Seq<u8>,
    pub headers: Seq<(Seq<u8>, Seq<u8>)>,
    pub body: Seq<u8>,
    pub body_taken: bool,
}

impl View for Request {
    type V = ReqV;

    open spec fn view(&self) -> ReqV {
        ReqV {
            method: self.method,
            path: self.path@,
            query: self.query@,
            headers: crate::query::pair_views(self.headers@),
            body: self.body@,
            body_taken: self.body_taken,
        }
    }
}

/// What taking the body does: a request whose body was already taken fails
/// with `ContentAlreadyConsumed`; an oversized body fails with
/// `BodyReadError`; otherwise the body is handed out. Either way the body
/// counts as consumed afterwards.
pub open spec fn spec_take_body(r: ReqV) -> (Result<Seq<u8>, ExtractError>, ReqV) {
    if r.body_taken {
        (Err(ExtractError::ContentAlreadyConsumed), r)
    } else if r.body.len() > MAX_BODY_LEN {
        (Err(ExtractError::BodyReadError), ReqV { body_taken: true, ..r })
    } else {
        (Ok(r.body), ReqV { body_taken: true, ..r })
    }
}

impl Request {
    /// A fresh request with nothing consumed.
    pub fn new(method: Method, path: Vec<u8>, query: Vec<u8>, body: Vec<u8>) -> (r: Request)
        ensures
            r@ == (ReqV {
                method,
                path: path@,
                query: query@,
                headers: Seq::<(Seq<u8>, Seq<u8>)>::empty(),
                body: body@,
                body_taken: false,
            }),
    {
        let r = Request { method, path, query, headers: Vec::new(), body, body_taken: false };
        proof {
            assert(crate::query::pair_views(r.headers@) =~= Seq::<(Seq<u8>, Seq<u8>)>::empty());
        }
        r
    }

    /// Takes the body out, at most once per request.
    pub fn take_body(&mut self) -> (r: Result<Vec<u8>, ExtractError>)
        ensures
            final(self)@ == spec_take_body(old(self)@).1,
            match r {
                Ok(b) => spec_take_body(old(self)@).0 == Ok::<Seq<u8>, ExtractError>(b@),
                Err(e) => spec_take_body(old(self)@).0 == Err::<Seq<u8>, ExtractError>(e),
            },
    {
        if self.body_taken {
            return Err(ExtractError::ContentAlreadyConsumed);
        }
        self.body_taken = true;
        if self.body.len() > MAX_BODY_LEN {
            return Err(ExtractError::BodyReadError);
        }
        Ok(vstd::slice::slice_to_vec(self.body.as_slice()))
    }
}

/// Once the body is taken, every further take fails with
/// `ContentAlreadyConsumed`: no two body extractors can both succeed against
/// one request.
pub proof fn lemma_body_consumed_once(r: ReqV)
    ensures
        spec_take_body(spec_take_body(r).1).0 == Err::<Seq<u8>, ExtractError>(
            ExtractError::ContentAlreadyConsumed,
        ),
{
}

/// One complete response: this layer never streams.
pub struct Response {
    pub status: u16,
    pub content_type: ContentType,
    pub body: Vec<u8>,
}

pub ghost struct RespV {
    pub status: int,
    pub content_type: ContentType,
    pub body: Seq<u8>,
}

impl View for Response {
    type V = RespV;

    open spec fn view(&self) -> RespV {
        RespV { status: self.status as int, content_type: self.content_type, body: self.body@ }
    }
}

/// A handler result, viewed.
pub open spec fn res_view(r: Result<Response, ExtractError>) -> Result<RespV, ExtractError> {
    match r {
        Ok(resp) => Ok(resp@),
        Err(e) => Err(e),
    }
}

/// A 200 text response.
pub open spec fn spec_text_response(body: Seq<u8>) -> RespV {
    RespV { status: 200, content_type: ContentType::TextPlain, body }
}

/// A 200 JSON response over an already-encoded body.
pub open spec fn spec_json_response(body: Seq<u8>) -> RespV {
    RespV { status: 200, content_type: ContentType::AppJson, body }
}

/// The response for a request no route matches.
pub open spec fn spec_not_found_response() -> RespV {
    RespV { status: 404, content_type: ContentType::TextPlain, body: bytes_of("route not found") }
}

/// The response an extraction or response-building failure turns into.
pub open spec fn spec_error_response(e: ExtractError) -> RespV {
    RespV {
        status: spec_status_of(e) as int,
        content_type: ContentType::TextPlain,
        body: spec_message_of(e),
    }
}

pub fn text_response(body: Vec<u8>) -> (r: Response)
    ensures
        r@ == spec_text_response(body@),
{
    Response { status: 200, content_type: ContentType::TextPlain, body }
}

pub fn json_response(body: Vec<u8>) -> (r: Response)
    ensures
        r@ == spec_json_response(body@),
{
    Response { status: 200, content_type: ContentType::AppJson, body }
}

pub fn not_found_response() -> (r: Response)
    ensures
        r@ == spec_not_found_response(),
{
    Response { status: 404, content_type: ContentType::TextPlain, body: lit_bytes("route not found") }
}

pub fn error_response(e: ExtractError) -> (r: Response)
    ensures
        r@ == spec_error_response(e),
{
    Response { status: status_of(e), content_type: ContentType::TextPlain, body: message_of(e) }
}

} // verus!
