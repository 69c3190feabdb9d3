//! The failure taxonomy of the extraction and dispatch layer, and how each
//! failure is reported over HTTP: client-caused malformed or missing input
//! maps to 400, internal failures to 500, and a routing miss is reported by
//! the router itself as 404.

use vstd::prelude::*;
use crate::bytes::bytes_of;
use crate::bytes::lit_bytes;

verus! {

/// A failure while extracting typed values from a request, or while building
/// a response from a handler's result.
#[derive(Clone, Copy, Debug, PartialEq, Eq, Structural)]
pub enum ExtractError {
    /// A named path capture the handler needs is not among the matched ones.
    MissingParam,
    /// A captured path segment or a query value is not a numeral of the
    /// target's width.
    ParamParseError,
    /// A required query field is absent.
    MissingQueryField,
    /// The body could not be buffered, or exceeds the size limit.
    BodyReadError,
    /// The body is not JSON of the shape the target asks for.
    MalformedJson,
    /// The body is not a form-encoded map of the shape the target asks for.
    MalformedForm,
    /// A second body extractor ran against the same request.
    ContentAlreadyConsumed,
    /// A handler's value could not be encoded into a response body.
    ResponseBuildError,
}

/// A failure while registering a route: a pattern of the same shape is
/// already registered under the same method. Registration failures are meant
/// to abort startup; no partial route table survives them.
#[derive(Clone, Copy, Debug, PartialEq, Eq, Structural)]
pub enum RegisterError {
    DuplicateRoute,
}

/// The HTTP status under which each extraction failure is reported.
pub open spec fn spec_status_of(e: ExtractError) -> u16 {
    match e {
        ExtractError::MissingParam => 400,
        ExtractError::ParamParseError => 400,
        ExtractError::MissingQueryField => 400,
        ExtractError::BodyReadError => 400,
        ExtractError::MalformedJson => 400,
        ExtractError::MalformedForm => 400,
        ExtractError::ContentAlreadyConsumed => 500,
        ExtractError::ResponseBuildError => 500,
    }
}

pub fn status_of(e: ExtractError) -> (s: u16)
    ensures
        s == spec_status_of(e),
{
    match e {
        ExtractError::MissingParam => 400,
        ExtractError::ParamParseError => 400,
        ExtractError::MissingQueryField => 400,
        ExtractError::BodyReadError => 400,
        ExtractError::MalformedJson => 400,
        ExtractError::MalformedForm => 400,
        ExtractError::ContentAlreadyConsumed => 500,
        ExtractError::ResponseBuildError => 500,
    }
}

/// The diagnostic body sent with each failure.
pub open spec fn spec_message_of(e: ExtractError) -> Seq<u8> {
    match e {
        ExtractError::MissingParam => bytes_of("missing path parameter"),
        ExtractError::ParamParseError => bytes_of("malformed parameter"),
        ExtractError::MissingQueryField => bytes_of("missing query field"),
        ExtractError::BodyReadError => bytes_of("could not read body"),
        ExtractError::MalformedJson => bytes_of("malformed json body"),
        ExtractError::MalformedForm => bytes_of("malformed form body"),
        ExtractError::ContentAlreadyConsumed => bytes_of("body already consumed"),
        ExtractError::ResponseBuildError => bytes_of("could not build response"),
    }
}

pub fn message_of(e: ExtractError) -> (r: Vec<u8>)
    ensures
        r@ == spec_message_of(e),
{
    match e {
        ExtractError::MissingParam => lit_bytes("missing path parameter"),
        ExtractError::ParamParseError => lit_bytes("malformed parameter"),
        ExtractError::MissingQueryField => lit_bytes("missing query field"),
        ExtractError::BodyReadError => lit_bytes("could not read body"),
        ExtractError::MalformedJson => lit_bytes("malformed json body"),
        ExtractError::MalformedForm => lit_bytes("malformed form body"),
        ExtractError::ContentAlreadyConsumed => lit_bytes("body already consumed"),
        ExtractError::ResponseBuildError => lit_bytes("could not build response"),
    }
}

} // verus!
