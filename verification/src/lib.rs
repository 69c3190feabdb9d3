//! A verified core for a small typed web framework: route patterns with
//! literal and named-capture segments, typed extractors for path parameters,
//! query strings, JSON bodies and form bodies, and a router that matches an
//! incoming request to a registered handler and turns failures into HTTP
//! status codes.

pub mod bytes;
pub mod error;
pub mod extract;
pub mod handlers;
pub mod json;
pub mod num;
pub mod pattern;
pub mod query;
pub mod request;
pub mod router;
