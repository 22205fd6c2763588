//! Incremental extraction of CRLF-terminated lines from a byte stream and
//! tokenization of one such line as an HTTP request line.
use vstd::prelude::*;

pub mod read;

verus! {

/// HTTP protocol version of a request line; `V1_0` orders before `V1_1`.
#[derive(Clone, Copy, Debug, Ord, PartialOrd, Eq, PartialEq, Structural)]
pub enum HttpVersion {
    V1_0,
    V1_1,
}

/// Status codes of responses this crate's callers emit.
#[derive(Clone, Copy, Debug, Ord, PartialOrd, Eq, PartialEq, Structural)]
pub enum HttpStatusCode {
    Okay,
    Created,
    NoContent,
    MovedPermanently,
}

/// Request method drawn from the closed set of recognized verbs.
#[derive(Clone, Copy, Debug, Ord, PartialOrd, Eq, PartialEq, Structural)]
pub enum HttpMethod {
    Get,
    Put,
    Post,
    Head,
    Trace,
    Connect,
    Options,
}

impl HttpStatusCode {
    /// The numeric code this status stands for on the wire.
    pub open spec fn spec_code(self) -> u16 {
        match self {
            HttpStatusCode::Okay => 200,
            HttpStatusCode::Created => 201,
            HttpStatusCode::NoContent => 202,
            HttpStatusCode::MovedPermanently => 301,
        }
    }

    pub fn code(&self) -> (code: u16)
        ensures
            code == self.spec_code(),
    {
        match self {
            HttpStatusCode::Okay => 200,
            HttpStatusCode::Created => 201,
            HttpStatusCode::NoContent => 202,
            HttpStatusCode::MovedPermanently => 301,
        }
    }
}

} // verus!
