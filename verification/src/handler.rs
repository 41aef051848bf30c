//! The connection handler: what is logged and what is answered for one
//! connection.

use crate::content::{classification, classify_content, render_body, rendered_body};
use crate::decoder::{awaits_bytes, decode_request, decoded, needs_more};
use crate::headers::{format_header, formatted_headers};
use crate::request::{DecodeError, HttpVersion, InspectedRequest, RequestView};
use crate::text::ascii_bytes;
use vstd::prelude::*;
use vstd::string::{StrSliceExecFns, StringExecFns};
use vstd::utf8::{encode_utf8, is_ascii_chars, is_ascii_chars_encode_utf8};

verus! {

/// The path that a request takes by its protocol version.
#[derive(Clone, Copy, Debug, PartialEq, Eq, Structural)]
pub enum VersionDispatch {
    /// HTTP/1.1: the request is logged and answered.
    Http11Handled,
    Http2Unsupported,
    Http3Unsupported,
    /// Any other version, HTTP/1.0 among them.
    OtherUnsupported,
}

/// The path that a request of the version `version` takes.
pub open spec fn dispatch_of(version: HttpVersion) -> VersionDispatch {
    match version {
        HttpVersion::Http11 => VersionDispatch::Http11Handled,
        HttpVersion::Http2 => VersionDispatch::Http2Unsupported,
        HttpVersion::Http3 => VersionDispatch::Http3Unsupported,
        HttpVersion::Http10 => VersionDispatch::OtherUnsupported,
        HttpVersion::Other => VersionDispatch::OtherUnsupported,
    }
}

/// Chooses the path of a request by its protocol version.
pub fn dispatch_version(version: HttpVersion) -> (dispatch: VersionDispatch)
    ensures
        dispatch == dispatch_of(version),
{
    match version {
        HttpVersion::Http11 => VersionDispatch::Http11Handled,
        HttpVersion::Http2 => VersionDispatch::Http2Unsupported,
        HttpVersion::Http3 => VersionDispatch::Http3Unsupported,
        HttpVersion::Http10 => VersionDispatch::OtherUnsupported,
        HttpVersion::Other => VersionDispatch::OtherUnsupported,
    }
}

/// Why a connection was given up without an answer.
#[derive(Clone, Copy, Debug, PartialEq, Eq, Structural)]
pub enum ConnectionError {
    /// The bytes hold no request.
    Decode(DecodeError),
    /// The request declares a version that is not served.
    UnsupportedVersion(HttpVersion),
}

impl ConnectionError {
    /// The line that reports the failure in the log.
    pub open spec fn diagnostic_text(self) -> Seq<char> {
        match self {
            ConnectionError::Decode(DecodeError::MalformedRequest) => "malformed request"@,
            ConnectionError::Decode(DecodeError::IncompleteBody) => "incomplete body"@,
            ConnectionError::UnsupportedVersion(version) => "unsupported version: "@
                + version.label_text(),
        }
    }

    /// The line that reports the failure in the log.
    pub fn diagnostic(&self) -> (line: String)
        ensures
            line@ == self.diagnostic_text(),
    {
        match self {
            ConnectionError::Decode(DecodeError::MalformedRequest) => String::from_str(
                "malformed request",
            ),
            ConnectionError::Decode(DecodeError::IncompleteBody) => String::from_str(
                "incomplete body",
            ),
            ConnectionError::UnsupportedVersion(version) => String::from_str(
                "unsupported version: ",
            ).concat(version.label()),
        }
    }
}

/// The log record of a request: the request line, the header lines, and the
/// rendered body, each on lines of its own.
pub open spec fn log_record_text(req: RequestView) -> Seq<char> {
    req.method + " "@ + req.target + " "@ + req.version.label_text() + "\n"@ + formatted_headers(
        req.headers,
    ) + "\n"@ + rendered_body(classification(req.headers), req.body)
}

/// Renders the log record of a request. The request is left as it is.
pub fn log_record(req: &InspectedRequest) -> (record: String)
    ensures
        record@ == log_record_text(req@),
{
    let mut record = String::new();
    record.append(req.method.as_str());
    record.append(" ");
    record.append(req.target.as_str());
    record.append(" ");
    record.append(req.version.label());
    record.append("\n");
    let headers = format_header(req);
    record.append(headers.as_str());
    record.append("\n");
    let body = render_body(classify_content(&req.headers), req.body.as_slice());
    record.append(body.as_str());
    proof {
        assert(record@ =~= log_record_text(req@));
    }
    record
}

/// The body of the acknowledgement.
pub fn fixed_body() -> (body: &'static str)
    ensures
        body@ == "woof woof"@,
{
    "woof woof"
}

/// The bytes of the acknowledgement that every served request gets.
pub open spec fn fixed_response_bytes() -> Seq<u8> {
    ascii_bytes("HTTP/1.1 200 OK\r\nContent-Length: 9\r\n\r\nwoof woof"@)
}

/// The acknowledgement that every served request gets: a 200 response whose
/// declared length is that of its body.
pub fn fixed_response() -> (response: Vec<u8>)
    ensures
        response@ == fixed_response_bytes(),
        response@ == ascii_bytes("HTTP/1.1 200 OK\r\nContent-Length: 9\r\n\r\n"@) + ascii_bytes(
            "woof woof"@,
        ),
        "woof woof"@.len() == 9,
{
    let text = "HTTP/1.1 200 OK\r\nContent-Length: 9\r\n\r\nwoof woof";
    proof {
        reveal_strlit("HTTP/1.1 200 OK\r\nContent-Length: 9\r\n\r\nwoof woof");
        reveal_strlit("HTTP/1.1 200 OK\r\nContent-Length: 9\r\n\r\n");
        reveal_strlit("woof woof");
        assert(is_ascii_chars(text@));
        is_ascii_chars_encode_utf8(text@);
        assert(encode_utf8(text@) =~= ascii_bytes(text@));
        assert(ascii_bytes(text@) =~= ascii_bytes("HTTP/1.1 200 OK\r\nContent-Length: 9\r\n\r\n"@)
            + ascii_bytes("woof woof"@));
    }
    text.as_bytes_vec()
}

/// What is done for a request that is served.
#[derive(Debug, PartialEq, Eq)]
pub struct Served {
    /// The record to write to the log, in one piece.
    pub record: String,
    /// The bytes to send back.
    pub response: Vec<u8>,
}

/// The mathematical content of a [`Served`].
pub ghost struct ServedView {
    pub record: Seq<char>,
    pub response: Seq<u8>,
}

impl View for Served {
    type V = ServedView;

    open spec fn view(&self) -> ServedView {
        ServedView { record: self.record@, response: self.response@ }
    }
}

/// What is done for the request `req`: a request of HTTP/1.1 is logged and
/// acknowledged; one of any other version is refused.
pub open spec fn handled(req: RequestView) -> Result<ServedView, ConnectionError> {
    if dispatch_of(req.version) is Http11Handled {
        Ok(ServedView { record: log_record_text(req), response: fixed_response_bytes() })
    } else {
        Err(ConnectionError::UnsupportedVersion(req.version))
    }
}

/// Handles a decoded request: renders its log record and the
/// acknowledgement, or refuses its version.
pub fn handle_req_v2(req: &InspectedRequest) -> (outcome: Result<Served, ConnectionError>)
    ensures
        outcome.is_ok() == (req.version == HttpVersion::Http11),
        outcome matches Ok(served) ==> served.response@ == fixed_response_bytes(),
        outcome matches Ok(served) ==> handled(req@) == Ok::<ServedView, ConnectionError>(served@),
        outcome matches Err(e) ==> handled(req@) == Err::<ServedView, ConnectionError>(e),
{
    match dispatch_version(req.version) {
        VersionDispatch::Http11Handled => Ok(
            Served { record: log_record(req), response: fixed_response() },
        ),
        _ => Err(ConnectionError::UnsupportedVersion(req.version)),
    }
}

/// What is done for a connection on which the bytes `bytes` arrived.
pub open spec fn connection_outcome(bytes: Seq<u8>) -> Result<ServedView, ConnectionError> {
    match decoded(bytes) {
        Err(e) => Err(ConnectionError::Decode(e)),
        Ok(req) => handled(req),
    }
}

/// Handles one connection, given the bytes read off it: decodes the request,
/// and renders its log record and the acknowledgement. Where the bytes hold
/// no request, or one of a version that is not served, nothing is answered
/// and the error says what to log.
pub fn handle_connection(bytes: &[u8]) -> (outcome: Result<Served, ConnectionError>)
    ensures
        outcome.is_ok() == connection_outcome(bytes@).is_ok(),
        outcome matches Ok(served) ==> served.response@ == fixed_response_bytes(),
        outcome.is_ok() == (decoded(bytes@) matches Ok(req) && req.version == HttpVersion::Http11),
        outcome matches Ok(served) ==> connection_outcome(bytes@) == Ok::<
            ServedView,
            ConnectionError,
        >(served@),
        outcome matches Err(e) ==> connection_outcome(bytes@) == Err::<ServedView, ConnectionError>(
            e,
        ),
{
    match decode_request(bytes) {
        Err(e) => Err(ConnectionError::Decode(e)),
        Ok(req) => handle_req_v2(&req),
    }
}

/// What the handler of a connection does next.
#[derive(Debug, PartialEq, Eq)]
pub enum NextAction {
    /// Wait for more bytes from the peer.
    ReadMore,
    /// Stop reading: log and answer as the outcome says.
    Conclude(Result<Served, ConnectionError>),
}

/// Decides what the handler of a connection does next, given the bytes
/// received so far and whether more can still arrive (the peer has not
/// closed and the deadline has not passed).
///
/// The handler goes on reading as long as more can arrive and the bytes await
/// more; else it concludes with the outcome of [`handle_connection`] on the
/// bytes it has.
pub fn next_action(received: &[u8], open: bool) -> (action: NextAction)
    ensures
        (action is ReadMore) == (open && awaits_bytes(received@)),
        action matches NextAction::Conclude(outcome) ==> {
            &&& outcome.is_ok() == connection_outcome(received@).is_ok()
            &&& outcome matches Ok(served) ==> connection_outcome(received@) == Ok::<
                ServedView,
                ConnectionError,
            >(served@)
            &&& outcome matches Err(e) ==> connection_outcome(received@) == Err::<
                ServedView,
                ConnectionError,
            >(e)
        },
{
    if open && needs_more(received) {
        NextAction::ReadMore
    } else {
        NextAction::Conclude(handle_connection(received))
    }
}

} // verus!
