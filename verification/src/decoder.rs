//! The request decoder: from the bytes read off one connection to an
//! [`InspectedRequest`].
//!
//! A request is a request line, header lines, and an empty line, each ended
//! by a carriage return and a line feed, followed by the body. The request
//! line is `method SP target [SP version]`. A header line is
//! `name ":" value`, with blanks around the value dropped. The body is as
//! long as the first `Content-Length` header declares, and empty without one.

use crate::headers::{find_header, first_named, is_plain_name, plain_names};
use crate::request::{
    DecodeError, Header, HeaderView, HttpVersion, InspectedRequest, RequestView, header_views,
};
use crate::scan::{
    COLON, CR, LF, SPACE, find_byte, find_line_end, first_byte, lemma_first_byte, lemma_line_end,
    line_end, trim, trim_blanks,
};
use crate::text::{
    all_graphic, ascii_bytes, ascii_chars, bytes_are, display_string, is_graphic, is_graphic_byte,
};
use vstd::prelude::*;
use vstd::slice::{slice_subrange, slice_to_vec};

verus! {

/// The version that a version token stands for.
pub open spec fn version_of(token: Seq<u8>) -> HttpVersion {
    if token == ascii_bytes("HTTP/1.1"@) {
        HttpVersion::Http11
    } else if token == ascii_bytes("HTTP/1.0"@) {
        HttpVersion::Http10
    } else if token == ascii_bytes("HTTP/2.0"@) || token == ascii_bytes("HTTP/2"@) {
        HttpVersion::Http2
    } else if token == ascii_bytes("HTTP/3.0"@) || token == ascii_bytes("HTTP/3"@) {
        HttpVersion::Http3
    } else {
        HttpVersion::Other
    }
}

/// Classifies a version token; one that is not recognised is
/// [`HttpVersion::Other`].
pub fn classify_version(token: &[u8]) -> (version: HttpVersion)
    ensures
        version == version_of(token@),
{
    proof {
        reveal_strlit("HTTP/1.1");
        reveal_strlit("HTTP/1.0");
        reveal_strlit("HTTP/2.0");
        reveal_strlit("HTTP/2");
        reveal_strlit("HTTP/3.0");
        reveal_strlit("HTTP/3");
    }
    if bytes_are(token, "HTTP/1.1") {
        HttpVersion::Http11
    } else if bytes_are(token, "HTTP/1.0") {
        HttpVersion::Http10
    } else if bytes_are(token, "HTTP/2.0") || bytes_are(token, "HTTP/2") {
        HttpVersion::Http2
    } else if bytes_are(token, "HTTP/3.0") || bytes_are(token, "HTTP/3") {
        HttpVersion::Http3
    } else {
        HttpVersion::Other
    }
}

/// What a request line declares.
#[derive(Debug, PartialEq, Eq)]
pub struct RequestLine {
    pub method: String,
    pub target: String,
    pub version: HttpVersion,
}

/// The mathematical content of a [`RequestLine`].
pub ghost struct RequestLineView {
    pub method: Seq<char>,
    pub target: Seq<char>,
    pub version: HttpVersion,
}

impl View for RequestLine {
    type V = RequestLineView;

    open spec fn view(&self) -> RequestLineView {
        RequestLineView { method: self.method@, target: self.target@, version: self.version }
    }
}

/// What the request line `line` (without its line break) declares, or `None`
/// where it cannot be parsed: the method runs to the first space and the
/// target from there to the next space or the end of the line, both
/// non-empty and printable; what follows a second space is the version
/// token.
pub open spec fn request_line(line: Seq<u8>) -> Option<RequestLineView> {
    let first = first_byte(line, SPACE);
    let method = line.subrange(0, first);
    let rest = line.subrange(first + 1, line.len() as int);
    let second = first_byte(rest, SPACE);
    let target = rest.subrange(0, second);
    if first >= line.len() || method.len() == 0 || !all_graphic(method) || target.len() == 0
        || !all_graphic(target) {
        None
    } else {
        Some(
            RequestLineView {
                method: ascii_chars(method),
                target: ascii_chars(target),
                version: if second < rest.len() {
                    version_of(rest.subrange(second + 1, rest.len() as int))
                } else {
                    HttpVersion::Other
                },
            },
        )
    }
}

/// Parses a request line, given without its line break.
pub fn parse_request_line(line: &[u8]) -> (parsed: Option<RequestLine>)
    ensures
        parsed.is_some() == request_line(line@).is_some(),
        parsed matches Some(l) ==> request_line(line@) == Some(l@),
{
    let first = find_byte(line, SPACE);
    if first >= line.len() {
        return None;
    }
    let method = slice_subrange(line, 0, first);
    let rest = slice_subrange(line, first + 1, line.len());
    let second = find_byte(rest, SPACE);
    let target = slice_subrange(rest, 0, second);
    if method.len() == 0 || !is_graphic(method) || target.len() == 0 || !is_graphic(target) {
        return None;
    }
    let version = if second < rest.len() {
        classify_version(slice_subrange(rest, second + 1, rest.len()))
    } else {
        HttpVersion::Other
    };
    Some(RequestLine { method: display_string(method), target: display_string(target), version })
}

/// The header that the line `line` (without its line break) holds, or `None`
/// where it cannot be parsed: the name runs to the first colon and is
/// non-empty and printable; the value is the rest, without the blanks at
/// either end.
pub open spec fn header_line(line: Seq<u8>) -> Option<HeaderView> {
    let colon = first_byte(line, COLON);
    let name = line.subrange(0, colon);
    if colon >= line.len() || name.len() == 0 || !all_graphic(name) {
        None
    } else {
        Some(
            HeaderView {
                name: ascii_chars(name),
                value: trim_blanks(line.subrange(colon + 1, line.len() as int)),
            },
        )
    }
}

/// Parses a header line, given without its line break.
pub fn parse_header_line(line: &[u8]) -> (parsed: Option<Header>)
    ensures
        parsed.is_some() == header_line(line@).is_some(),
        parsed matches Some(h) ==> header_line(line@) == Some(h@),
{
    let colon = find_byte(line, COLON);
    if colon >= line.len() {
        return None;
    }
    let name = slice_subrange(line, 0, colon);
    if name.len() == 0 || !is_graphic(name) {
        return None;
    }
    let value = trim(slice_subrange(line, colon + 1, line.len()));
    Some(Header { name: display_string(name), value: slice_to_vec(value) })
}

/// The headers that stand in `s` from `from` on, up to the empty line that
/// ends them, with the index at which the body begins; `None` where a line
/// cannot be parsed or the empty line is missing.
pub open spec fn header_block(s: Seq<u8>, from: int) -> Option<(Seq<HeaderView>, int)>
    decreases s.len() - from,
{
    let end = line_end(s, from);
    if from < 0 || end < from || end + 1 >= s.len() {
        None
    } else if end == from {
        Some((Seq::empty(), from + 2))
    } else {
        let header = header_line(s.subrange(from, end));
        let rest = header_block(s, end + 2);
        match (header, rest) {
            (Some(header), Some((more, start))) => Some((seq![header] + more, start)),
            _ => None,
        }
    }
}

/// The headers `done` put before those of `rest`.
spec fn after(done: Seq<HeaderView>, rest: Option<(Seq<HeaderView>, int)>) -> Option<
    (Seq<HeaderView>, int),
> {
    match rest {
        None => None,
        Some((more, start)) => Some((done + more, start)),
    }
}

/// Whether the header lines that stand in `s` from `from` on break off
/// before the empty line that ends them, every line that is complete being a
/// header.
pub open spec fn headers_cut_short(s: Seq<u8>, from: int) -> bool
    decreases s.len() - from,
{
    let end = line_end(s, from);
    if from < 0 || end < from {
        false
    } else if end + 1 >= s.len() {
        true
    } else if end == from {
        false
    } else {
        header_line(s.subrange(from, end)) is Some && headers_cut_short(s, end + 2)
    }
}

/// Why no header block was read.
#[derive(Clone, Copy, Debug, PartialEq, Eq, Structural)]
pub enum HeadError {
    /// The bytes end before the empty line, and nothing in them is wrong.
    CutShort,
    /// A line is no header.
    Malformed,
}

/// Parses the header lines that stand in `s` from `from` on, and says where
/// the body begins. Fails with [`HeadError::CutShort`] exactly where the
/// bytes end before the empty line and every complete line is a header.
pub fn parse_header_block(s: &[u8], from: usize) -> (parsed: Result<(Vec<Header>, usize), HeadError>)
    ensures
        parsed.is_ok() == header_block(s@, from as int).is_some(),
        parsed matches Ok((headers, start)) ==> header_block(s@, from as int) == Some(
            (header_views(headers@), start as int),
        ) && from <= start <= s.len(),
        (parsed == Err::<(Vec<Header>, usize), HeadError>(HeadError::CutShort))
            == headers_cut_short(s@, from as int),
{
    if from > s.len() {
        return Err(HeadError::Malformed);
    }
    let mut headers: Vec<Header> = Vec::new();
    let mut pos: usize = from;
    proof {
        assert(header_views(headers@) =~= Seq::empty());
        match header_block(s@, pos as int) {
            None => {},
            Some((more, start)) => {
                assert(Seq::<HeaderView>::empty() + more =~= more);
            },
        }
    }
    loop
        invariant
            from <= pos <= s.len(),
            header_block(s@, from as int) == after(
                header_views(headers@),
                header_block(s@, pos as int),
            ),
            headers_cut_short(s@, from as int) == headers_cut_short(s@, pos as int),
        decreases s.len() - pos,
    {
        let end = find_line_end(s, pos);
        if end >= s.len() {
            return Err(HeadError::CutShort);
        }
        if end == pos {
            proof {
                assert(header_views(headers@) + Seq::<HeaderView>::empty() =~= header_views(
                    headers@,
                ));
            }
            return Ok((headers, pos + 2));
        }
        match parse_header_line(slice_subrange(s, pos, end)) {
            None => {
                return Err(HeadError::Malformed);
            },
            Some(header) => {
                proof {
                    let done = header_views(headers@);
                    assert(header_views(headers@.push(header)) =~= done.push(header@));
                    match header_block(s@, end + 2) {
                        None => {},
                        Some((more, start)) => {
                            assert(done + (seq![header@] + more) =~= done.push(header@) + more);
                        },
                    }
                }
                headers.push(header);
                pos = end + 2;
            },
        }
    }
}

/// An ASCII digit.
pub open spec fn is_digit(b: u8) -> bool {
    48 <= b <= 57
}

/// Every byte of `s` is an ASCII digit.
pub open spec fn all_digits(s: Seq<u8>) -> bool {
    forall|i: int| 0 <= i < s.len() ==> is_digit(#[trigger] s[i])
}

/// The number that decimal digits write.
pub open spec fn decimal_value(digits: Seq<u8>) -> nat
    decreases digits.len(),
{
    if digits.len() == 0 {
        0
    } else {
        decimal_value(digits.drop_last()) * 10 + (digits.last() - 48) as nat
    }
}

/// What a header list declares of the length of the body.
pub ghost enum DeclaredLength {
    /// There is no `Content-Length` header.
    Absent,
    /// The first `Content-Length` header holds this number.
    Bytes(nat),
    /// The first `Content-Length` header holds no decimal number.
    Invalid,
}

/// What `headers` declare of the length of the body: the first
/// `Content-Length` header decides, and its value must be decimal digits, at
/// least one.
pub open spec fn declared_length(headers: Seq<HeaderView>) -> DeclaredLength {
    let at = first_named(headers, "content-length"@);
    if at >= headers.len() {
        DeclaredLength::Absent
    } else if headers[at].value.len() > 0 && all_digits(headers[at].value) {
        DeclaredLength::Bytes(decimal_value(headers[at].value))
    } else {
        DeclaredLength::Invalid
    }
}

/// The body that follows the headers `headers` in `s` at `start`: empty
/// without a declared length, and otherwise the declared number of bytes,
/// all of which must be there.
pub open spec fn body_of(s: Seq<u8>, start: int, headers: Seq<HeaderView>) -> Result<
    Seq<u8>,
    DecodeError,
> {
    match declared_length(headers) {
        DeclaredLength::Absent => Ok(Seq::empty()),
        DeclaredLength::Invalid => Err(DecodeError::MalformedRequest),
        DeclaredLength::Bytes(n) => if start + n <= s.len() {
            Ok(s.subrange(start, start + n))
        } else {
            Err(DecodeError::IncompleteBody)
        },
    }
}

/// A number written in decimal is at least the number that any of its
/// leading digits write.
proof fn lemma_decimal_grows(digits: Seq<u8>, k: int)
    requires
        all_digits(digits),
        0 <= k <= digits.len(),
    ensures
        decimal_value(digits.subrange(0, k)) <= decimal_value(digits),
    decreases digits.len() - k,
{
    if k == digits.len() {
        assert(digits.subrange(0, k) =~= digits);
    } else {
        let longer = digits.subrange(0, k + 1);
        assert(longer.drop_last() =~= digits.subrange(0, k));
        assert(is_digit(digits[k]));
        lemma_decimal_grows(digits, k + 1);
    }
}

/// Whether every byte is an ASCII digit.
fn is_decimal(s: &[u8]) -> (ok: bool)
    ensures
        ok == all_digits(s@),
{
    let mut i: usize = 0;
    while i < s.len()
        invariant
            i <= s.len(),
            forall|j: int| 0 <= j < i ==> is_digit(#[trigger] s[j]),
        decreases s.len() - i,
    {
        if s[i] < 48 || s[i] > 57 {
            return false;
        }
        i += 1;
    }
    true
}

/// Reads a decimal number, as long as it does not exceed `limit`.
fn decimal_up_to(digits: &[u8], limit: usize) -> (number: Option<usize>)
    requires
        all_digits(digits@),
    ensures
        number.is_some() == (decimal_value(digits@) <= limit),
        number matches Some(n) ==> n == decimal_value(digits@),
{
    let mut value: usize = 0;
    let mut i: usize = 0;
    proof {
        assert(digits@.subrange(0, 0) =~= Seq::<u8>::empty());
    }
    while i < digits.len()
        invariant
            i <= digits.len(),
            all_digits(digits@),
            value == decimal_value(digits@.subrange(0, i as int)),
            value <= limit,
        decreases digits.len() - i,
    {
        let digit: u8 = digits[i] - 48;
        proof {
            assert(is_digit(digits[i as int]));
            let longer = digits@.subrange(0, i + 1);
            assert(longer.drop_last() =~= digits@.subrange(0, i as int));
            assert(decimal_value(longer) == value * 10 + digit);
            lemma_decimal_grows(digits@, i + 1);
        }
        if limit < digit as usize || value > (limit - digit as usize) / 10 {
            return None;
        }
        value = value * 10 + digit as usize;
        i += 1;
    }
    proof {
        assert(digits@.subrange(0, digits.len() as int) =~= digits@);
    }
    Some(value)
}

/// Takes the body that follows the headers in `s` at `start`: nothing where
/// the headers declare no length, else as many bytes as they declare.
pub fn read_body(s: &[u8], start: usize, headers: &Vec<Header>) -> (body: Result<
    Vec<u8>,
    DecodeError,
>)
    ensures
        body.is_ok() == body_of(s@, start as int, header_views(headers@)).is_ok(),
        body matches Ok(b) ==> body_of(s@, start as int, header_views(headers@)) == Ok::<
            Seq<u8>,
            DecodeError,
        >(b@),
        body matches Err(e) ==> body_of(s@, start as int, header_views(headers@)) == Err::<
            Seq<u8>,
            DecodeError,
        >(e),
{
    match find_header(headers, "content-length") {
        None => Ok(Vec::new()),
        Some(header) => {
            let value = header.value.as_slice();
            if value.len() == 0 || !is_decimal(value) {
                return Err(DecodeError::MalformedRequest);
            }
            if start > s.len() {
                return Err(DecodeError::IncompleteBody);
            }
            match decimal_up_to(value, s.len() - start) {
                None => Err(DecodeError::IncompleteBody),
                Some(n) => Ok(slice_to_vec(slice_subrange(s, start, start + n))),
            }
        },
    }
}

/// The request that the bytes `s` hold, or the reason why they hold none.
pub open spec fn decoded(s: Seq<u8>) -> Result<RequestView, DecodeError> {
    let end = line_end(s, 0);
    if end >= s.len() {
        Err(DecodeError::MalformedRequest)
    } else {
        match request_line(s.subrange(0, end)) {
            None => Err(DecodeError::MalformedRequest),
            Some(line) => match header_block(s, end + 2) {
                None => Err(DecodeError::MalformedRequest),
                Some((headers, start)) => match body_of(s, start, headers) {
                    Err(e) => Err(e),
                    Ok(body) => Ok(
                        RequestView {
                            method: line.method,
                            target: line.target,
                            version: line.version,
                            headers,
                            body,
                        },
                    ),
                },
            },
        }
    }
}

/// Decodes the request that the bytes read off one connection hold.
///
/// Fails with [`DecodeError::MalformedRequest`] where the request line or a
/// header line cannot be parsed, the empty line after the headers is
/// missing, or the declared body length is no decimal number; and with
/// [`DecodeError::IncompleteBody`] where fewer bytes follow the headers than
/// were declared. Bytes beyond the declared length are left aside.
pub fn decode_request(bytes: &[u8]) -> (request: Result<InspectedRequest, DecodeError>)
    ensures
        request.is_ok() == decoded(bytes@).is_ok(),
        request matches Ok(r) ==> decoded(bytes@) == Ok::<RequestView, DecodeError>(r@),
        request matches Err(e) ==> decoded(bytes@) == Err::<RequestView, DecodeError>(e),
        request matches Ok(r) ==> r.body.len() <= bytes.len(),
{
    let end = find_line_end(bytes, 0);
    if end >= bytes.len() {
        return Err(DecodeError::MalformedRequest);
    }
    let line = match parse_request_line(slice_subrange(bytes, 0, end)) {
        None => {
            return Err(DecodeError::MalformedRequest);
        },
        Some(line) => line,
    };
    let (headers, start) = match parse_header_block(bytes, end + 2) {
        Err(_) => {
            return Err(DecodeError::MalformedRequest);
        },
        Ok(block) => block,
    };
    match read_body(bytes, start, &headers) {
        Err(e) => Err(e),
        Ok(body) => Ok(
            InspectedRequest {
                method: line.method,
                target: line.target,
                version: line.version,
                headers,
                body,
            },
        ),
    }
}

/// Whether the bytes `s` hold no request yet and further bytes may complete
/// one: the request line or the headers break off with nothing wrong in what
/// is there, or the body is shorter than declared.
pub open spec fn awaits_bytes(s: Seq<u8>) -> bool {
    let end = line_end(s, 0);
    if end >= s.len() {
        true
    } else if request_line(s.subrange(0, end)) is None {
        false
    } else if headers_cut_short(s, end + 2) {
        true
    } else {
        decoded(s) == Err::<RequestView, DecodeError>(DecodeError::IncompleteBody)
    }
}

/// Whether the bytes received so far hold no request yet and further bytes
/// may complete one. Once this is `false`, what [`decode_request`] makes of
/// the bytes no longer changes as more arrive.
pub fn needs_more(bytes: &[u8]) -> (more: bool)
    ensures
        more == awaits_bytes(bytes@),
{
    let end = find_line_end(bytes, 0);
    if end >= bytes.len() {
        return true;
    }
    if parse_request_line(slice_subrange(bytes, 0, end)).is_none() {
        return false;
    }
    match parse_header_block(bytes, end + 2) {
        Err(HeadError::CutShort) => true,
        Err(HeadError::Malformed) => false,
        Ok((headers, start)) => match read_body(bytes, start, &headers) {
            Err(DecodeError::IncompleteBody) => true,
            _ => false,
        },
    }
}

/// A line break that was found stays where it is as bytes are added.
proof fn lemma_line_end_settled(s: Seq<u8>, more: Seq<u8>, from: int)
    requires
        0 <= from,
        line_end(s, from) + 1 < s.len(),
    ensures
        line_end(s + more, from) == line_end(s, from),
    decreases s.len() - from,
{
    if from + 1 < s.len() {
        assert((s + more)[from] == s[from]);
        assert((s + more)[from + 1] == s[from + 1]);
        if !(s[from] == CR && s[from + 1] == LF) {
            lemma_line_end_settled(s, more, from + 1);
        }
    }
}

/// A header block that is complete, or that a line spoils, reads the same as
/// bytes are added; and a complete one ends within the bytes.
proof fn lemma_header_block_settled(s: Seq<u8>, more: Seq<u8>, from: int)
    requires
        0 <= from <= s.len(),
        !headers_cut_short(s, from),
    ensures
        header_block(s + more, from) == header_block(s, from),
        header_block(s, from) matches Some((headers, start)) ==> from <= start <= s.len(),
    decreases s.len() - from,
{
    let end = line_end(s, from);
    lemma_line_end(s, from);
    if end + 1 < s.len() {
        lemma_line_end_settled(s, more, from);
        if end != from {
            assert((s + more).subrange(from, end) =~= s.subrange(from, end));
            if header_line(s.subrange(from, end)) is Some {
                lemma_header_block_settled(s, more, end + 2);
            }
        }
    }
}

/// A header block that breaks off is none.
proof fn lemma_cut_short_is_no_block(s: Seq<u8>, from: int)
    requires
        0 <= from <= s.len(),
        headers_cut_short(s, from),
    ensures
        header_block(s, from) is None,
    decreases s.len() - from,
{
    let end = line_end(s, from);
    lemma_line_end(s, from);
    if end + 1 < s.len() && end != from {
        lemma_cut_short_is_no_block(s, end + 2);
    }
}

/// Bytes that await more hold no request.
pub proof fn lemma_awaiting_is_no_request(s: Seq<u8>)
    requires
        awaits_bytes(s),
    ensures
        decoded(s) is Err,
{
    let end = line_end(s, 0);
    lemma_line_end(s, 0);
    if end < s.len() && headers_cut_short(s, end + 2) {
        lemma_cut_short_is_no_block(s, end + 2);
    }
}

/// Once the bytes received await nothing more, bytes that arrive later
/// change nothing: the bytes decode to the same request, or fail for the same
/// reason, whatever follows them.
pub proof fn lemma_settled_decoding(s: Seq<u8>, more: Seq<u8>)
    requires
        !awaits_bytes(s),
    ensures
        decoded(s + more) == decoded(s),
{
    let end = line_end(s, 0);
    lemma_line_end(s, 0);
    lemma_line_end_settled(s, more, 0);
    assert((s + more).subrange(0, end) =~= s.subrange(0, end));
    if request_line(s.subrange(0, end)) is Some {
        lemma_header_block_settled(s, more, end + 2);
        match header_block(s, end + 2) {
            None => {},
            Some((headers, start)) => {
                match declared_length(headers) {
                    DeclaredLength::Bytes(n) => {
                        assert((s + more).subrange(start, start + n) =~= s.subrange(
                            start,
                            start + n,
                        ));
                    },
                    _ => {},
                }
            },
        }
    }
}

/// The headers of a header block have plain names.
proof fn lemma_header_block_names_are_plain(s: Seq<u8>, from: int)
    requires
        0 <= from <= s.len(),
    ensures
        header_block(s, from) matches Some((headers, start)) ==> plain_names(headers),
    decreases s.len() - from,
{
    let end = line_end(s, from);
    lemma_line_end(s, from);
    if end + 1 < s.len() && end != from {
        let line = s.subrange(from, end);
        lemma_header_block_names_are_plain(s, end + 2);
        match (header_line(line), header_block(s, end + 2)) {
            (Some(header), Some((more, start))) => {
                let colon = first_byte(line, COLON);
                lemma_first_byte(line, COLON, 0);
                let name = line.subrange(0, colon);
                assert forall|i: int| 0 <= i < header.name.len() implies #[trigger] header.name[i]
                    != ':' && header.name[i] != '\n' by {
                    assert(is_graphic_byte(name[i]));
                    assert(name[i] == line[i]);
                }
                let headers = seq![header] + more;
                assert forall|i: int| 0 <= i < headers.len() implies is_plain_name(
                    #[trigger] headers[i].name,
                ) by {
                    if i > 0 {
                        assert(headers[i] == more[i - 1]);
                    }
                }
            },
            _ => {},
        }
    }
}

/// The headers of a decoded request have plain names, so that their lines in
/// the log tell them apart (see
/// [`lemma_formatted_headers_tell_headers`](crate::headers::lemma_formatted_headers_tell_headers)).
pub proof fn lemma_decoded_names_are_plain(s: Seq<u8>)
    ensures
        decoded(s) matches Ok(request) ==> plain_names(request.headers),
{
    let end = line_end(s, 0);
    lemma_line_end(s, 0);
    if end < s.len() {
        lemma_header_block_names_are_plain(s, end + 2);
    }
}

} // verus!
