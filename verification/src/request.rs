//! The structured form of one decoded request.

use vstd::prelude::*;

verus! {

/// The protocol version that a request line declares.
#[derive(Clone, Copy, Debug, PartialEq, Eq, Structural)]
pub enum HttpVersion {
    Http10,
    Http11,
    Http2,
    Http3,
    /// A version token that is missing or not recognised.
    Other,
}

impl HttpVersion {
    /// The text under which the version appears in a log record.
    pub open spec fn label_text(self) -> Seq<char> {
        match self {
            HttpVersion::Http10 => "HTTP/1.0"@,
            HttpVersion::Http11 => "HTTP/1.1"@,
            HttpVersion::Http2 => "HTTP/2.0"@,
            HttpVersion::Http3 => "HTTP/3.0"@,
            HttpVersion::Other => "unknown"@,
        }
    }

    /// The text under which the version appears in a log record.
    pub fn label(self) -> (text: &'static str)
        ensures
            text@ == self.label_text(),
    {
        match self {
            HttpVersion::Http10 => "HTTP/1.0",
            HttpVersion::Http11 => "HTTP/1.1",
            HttpVersion::Http2 => "HTTP/2.0",
            HttpVersion::Http3 => "HTTP/3.0",
            HttpVersion::Other => "unknown",
        }
    }
}

/// One header as it arrived: its name, and its value as raw bytes.
#[derive(Clone, Debug, PartialEq, Eq)]
pub struct Header {
    pub name: String,
    pub value: Vec<u8>,
}

/// The mathematical content of a [`Header`].
pub ghost struct HeaderView {
    pub name: Seq<char>,
    pub value: Seq<u8>,
}

impl View for Header {
    type V = HeaderView;

    open spec fn view(&self) -> HeaderView {
        HeaderView { name: self.name@, value: self.value@ }
    }
}

/// The contents of a list of headers, in order.
pub open spec fn header_views(headers: Seq<Header>) -> Seq<HeaderView> {
    Seq::new(headers.len(), |i: int| headers[i]@)
}

/// One request, decoded: what the request line declares, the headers in the
/// order of arrival with duplicates kept, and the body bytes.
#[derive(Clone, Debug, PartialEq, Eq)]
pub struct InspectedRequest {
    pub method: String,
    pub target: String,
    pub version: HttpVersion,
    pub headers: Vec<Header>,
    pub body: Vec<u8>,
}

/// The mathematical content of an [`InspectedRequest`].
pub ghost struct RequestView {
    pub method: Seq<char>,
    pub target: Seq<char>,
    pub version: HttpVersion,
    pub headers: Seq<HeaderView>,
    pub body: Seq<u8>,
}

impl View for InspectedRequest {
    type V = RequestView;

    open spec fn view(&self) -> RequestView {
        RequestView {
            method: self.method@,
            target: self.target@,
            version: self.version,
            headers: header_views(self.headers@),
            body: self.body@,
        }
    }
}

/// Why a byte stream could not be decoded into a request.
#[derive(Clone, Copy, Debug, PartialEq, Eq, Structural)]
pub enum DecodeError {
    /// The request line or a header line cannot be parsed.
    MalformedRequest,
    /// The declared body length exceeds the bytes received.
    IncompleteBody,
}

} // verus!
