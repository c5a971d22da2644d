//! A minimal single-request text protocol: parse a simplified HTTP-like
//! request, derive a padding transform from its path, and render the reply.

pub mod error;
pub mod handler;
pub mod headers;
pub mod pad;
pub mod request;
pub mod response;
pub mod text;

pub use error::RequestError;
pub use handler::{handle_buffer, respond};
pub use headers::Headers;
pub use pad::{left_pad, padding_of};
pub use request::{parse_body, parse_headers, parse_request, Request};
pub use response::{HTTPStatus, Response};
