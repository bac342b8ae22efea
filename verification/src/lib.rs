//! Client-side logic for driving a headless PhantomJS browser through the
//! GhostDriver JSON-over-HTTP protocol: building the request for each session
//! operation and interpreting the JSON envelope that the server returns.

use vstd::prelude::*;

pub mod json;
pub mod parse;
pub mod cookie_record;
pub mod session;

pub use crate::cookie_record::CookieJSONObject;
pub use crate::session::PhantomJSSession;
pub use crate::session::ValueCookieJSONObject;
pub use crate::session::get_session;

verus! {

/// The failure kinds a session operation can surface.
#[derive(Clone, Copy, Debug, PartialEq, Eq, Structural)]
pub enum ClientError {
    /// The HTTP exchange itself failed (connection refused, body unreadable).
    Transport,
    /// The response body is not JSON of the shape the endpoint promises.
    Protocol,
    /// The screenshot payload is not valid base64.
    Encoding,
    /// The screenshot file could not be created or written.
    Io,
}

} // verus!
