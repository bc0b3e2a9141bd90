//! The response metadata handed to the head encoder.
use vstd::prelude::*;

verus! {

/// HTTP protocol version of a response.
#[derive(Clone, Copy, Debug, PartialEq, Eq, Structural)]
pub enum Version {
    Http09,
    Http10,
    Http11,
    Http2,
    Http3,
}

/// One header of a response, in the order it was set. A field without a name
/// carries a further value of the header named before it.
#[derive(Debug)]
pub struct HeaderField {
    pub name: Option<Vec<u8>>,
    pub value: Vec<u8>,
}

/// Status, version and headers of a response.
pub struct ResponseHead {
    pub version: Version,
    /// Status code, between 100 and 999.
    pub status: u16,
    pub headers: Vec<HeaderField>,
}

/// What the response body tells about its length.
#[derive(Clone, Copy, Debug, PartialEq, Eq, Structural)]
pub enum BodySize {
    /// No body.
    Empty,
    /// A stream whose length is not known in advance.
    Stream,
    /// A body of exactly this many bytes.
    Sized(u64),
}

} // verus!
