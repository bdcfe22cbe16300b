//! Decoding of HTTP/1.1 requests from raw bytes, with bounded lines, and the
//! admission rule that caps how many connections are handled at once.
use vstd::prelude::*;

pub mod text;
pub mod method;
pub mod path;
pub mod headers;
pub mod line;
pub mod request;
pub mod dispatch;
pub mod response;
pub mod chat;

pub use chat::HttpRouter;
pub use dispatch::WorkerLimit;
pub use headers::HttpHeaders;
pub use line::{scan_line, LineScan};
pub use method::{ErrorKind, HttpMethod, HttpRequestValidationErr, HttpVersion};
pub use path::HttpPath;
pub use request::{Decoded, HttpMethodSection, HttpRequest, Step};
pub use response::{prepare_response, response_for};

verus! {

/// The longest line, in bytes, that a request may hold.
pub const MAX_LINE_LENGTH: usize = 320000;

/// How many connections are handled at once.
pub const MAX_THREADS: usize = 1000;

} // verus!
