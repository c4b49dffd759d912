//! The error taxonomy every call against the proxy reports through.

use vstd::prelude::*;

verus! {

/// How a call against the proxy can fail.
#[derive(Debug)]
pub enum ApiError {
    /// The server answered with an error status whose JSON body carried
    /// this message.
    Api { msg: Vec<u8>, code: u16 },
    /// The base URL has no domain or cannot take appended path segments.
    UrlConstruction,
    /// A request or response body was not the JSON shape expected.
    Serialization,
    /// The request could not be carried out at all: connection, DNS or
    /// TLS failure.
    Transport(ureq::Transport),
    /// A response body or the cookie jar could not be read.
    Io,
}

} // verus!
