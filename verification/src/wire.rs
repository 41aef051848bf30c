//! The wire form of a request, and the statement that decoding reads back
//! what was written.

use crate::decoder::{
    DeclaredLength, RequestLineView, declared_length, decoded, header_block, header_line,
    request_line, version_of,
};
use crate::request::{DecodeError, HeaderView, RequestView};
use crate::scan::{
    COLON, CR, LF, SPACE, first_byte_from, is_blank, line_end, trim_blanks, trim_start,
};
use crate::text::{all_graphic, ascii_chars, is_graphic_byte};
use vstd::prelude::*;

verus! {

/// A header as it is written on the wire: its name and its value as bytes.
pub ghost struct WireHeader {
    pub name: Seq<u8>,
    pub value: Seq<u8>,
}

/// A method or a target that can be written: not empty, printable, without
/// spaces.
pub open spec fn is_wire_word(word: Seq<u8>) -> bool {
    word.len() > 0 && all_graphic(word)
}

/// A header name that can be written: a word without colons.
pub open spec fn is_wire_name(name: Seq<u8>) -> bool {
    is_wire_word(name) && forall|i: int| 0 <= i < name.len() ==> #[trigger] name[i] != COLON
}

/// A header value that can be written: without line feeds, and without
/// blanks at either end.
pub open spec fn is_wire_value(value: Seq<u8>) -> bool {
    &&& forall|i: int| 0 <= i < value.len() ==> #[trigger] value[i] != LF
    &&& value.len() > 0 ==> !is_blank(value[0]) && !is_blank(value.last())
}

/// Headers that can be written.
pub open spec fn are_wire_headers(headers: Seq<WireHeader>) -> bool {
    forall|i: int|
        0 <= i < headers.len() ==> is_wire_name((#[trigger] headers[i]).name) && is_wire_value(
            headers[i].value,
        )
}

/// The header that a written header is decoded to.
pub open spec fn wire_view(header: WireHeader) -> HeaderView {
    HeaderView { name: ascii_chars(header.name), value: header.value }
}

/// The headers that written headers are decoded to.
pub open spec fn wire_views(headers: Seq<WireHeader>) -> Seq<HeaderView> {
    Seq::new(headers.len(), |i: int| wire_view(headers[i]))
}

/// A header line as it is written, without its line break.
pub open spec fn header_wire(header: WireHeader) -> Seq<u8> {
    header.name + seq![COLON, SPACE] + header.value
}

/// Header lines as they are written, each with its line break.
pub open spec fn headers_wire(headers: Seq<WireHeader>) -> Seq<u8>
    decreases headers.len(),
{
    if headers.len() == 0 {
        Seq::empty()
    } else {
        header_wire(headers[0]) + seq![CR, LF] + headers_wire(headers.drop_first())
    }
}

/// A request line as it is written, without its line break.
pub open spec fn request_line_wire(method: Seq<u8>, target: Seq<u8>, token: Seq<u8>) -> Seq<u8> {
    method + seq![SPACE] + target + seq![SPACE] + token
}

/// A request as it is written: the request line, the header lines, an empty
/// line, and the body.
pub open spec fn request_wire(
    method: Seq<u8>,
    target: Seq<u8>,
    token: Seq<u8>,
    headers: Seq<WireHeader>,
    body: Seq<u8>,
) -> Seq<u8> {
    request_line_wire(method, target, token) + seq![CR, LF] + headers_wire(headers) + seq![CR, LF]
        + body
}

/// The first `b` of `s` at or after `from` stands at `at`, where `s` holds
/// `b` at `at` and not between `from` and `at`.
proof fn lemma_first_byte_at(s: Seq<u8>, b: u8, from: int, at: int)
    requires
        0 <= from <= at <= s.len(),
        at < s.len() ==> s[at] == b,
        forall|j: int| from <= j < at ==> s[j] != b,
    ensures
        first_byte_from(s, b, from) == at,
    decreases at - from,
{
    if from < at {
        lemma_first_byte_at(s, b, from + 1, at);
    }
}

/// The first line break of `s` at or after `from` stands at `at`, where `s`
/// holds one at `at` and no line feed from `from` up to there.
proof fn lemma_line_end_at(s: Seq<u8>, from: int, at: int)
    requires
        0 <= from <= at,
        at + 1 < s.len(),
        s[at] == CR,
        s[at + 1] == LF,
        forall|j: int| from <= j <= at ==> s[j] != LF,
    ensures
        line_end(s, from) == at,
    decreases at - from,
{
    if from < at {
        lemma_line_end_at(s, from + 1, at);
    }
}

/// A written request line is parsed to what was written.
proof fn lemma_request_line_wire(method: Seq<u8>, target: Seq<u8>, token: Seq<u8>)
    requires
        is_wire_word(method),
        is_wire_word(target),
        all_graphic(token),
    ensures
        request_line(request_line_wire(method, target, token)) == Some(
            RequestLineView {
                method: ascii_chars(method),
                target: ascii_chars(target),
                version: version_of(token),
            },
        ),
{
    let line = request_line_wire(method, target, token);
    assert forall|j: int| 0 <= j < method.len() implies line[j] != SPACE by {
        assert(is_graphic_byte(method[j]));
    }
    lemma_first_byte_at(line, SPACE, 0, method.len() as int);
    let rest = line.subrange(method.len() as int + 1, line.len() as int);
    assert(rest =~= target + seq![SPACE] + token);
    assert forall|j: int| 0 <= j < target.len() implies rest[j] != SPACE by {
        assert(is_graphic_byte(target[j]));
    }
    lemma_first_byte_at(rest, SPACE, 0, target.len() as int);
    assert(line.subrange(0, method.len() as int) =~= method);
    assert(rest.subrange(0, target.len() as int) =~= target);
    assert(rest.subrange(target.len() as int + 1, rest.len() as int) =~= token);
}

/// A value that can be written has no blanks to lose, nor has it with a
/// space before it.
proof fn lemma_trim_wire_value(value: Seq<u8>)
    requires
        is_wire_value(value),
    ensures
        trim_blanks(seq![SPACE] + value) == value,
{
    let spaced = seq![SPACE] + value;
    assert(spaced.drop_first() =~= value);
    assert(trim_start(spaced) == trim_start(value));
}

/// A written header line is parsed to what was written.
proof fn lemma_header_wire(header: WireHeader)
    requires
        is_wire_name(header.name),
        is_wire_value(header.value),
    ensures
        header_line(header_wire(header)) == Some(wire_view(header)),
        header_wire(header).len() >= 3,
        forall|j: int| 0 <= j < header_wire(header).len() ==> header_wire(header)[j] != LF,
{
    let line = header_wire(header);
    let n = header.name.len() as int;
    lemma_first_byte_at(line, COLON, 0, n);
    assert(line.subrange(0, n) =~= header.name);
    assert(line.subrange(n + 1, line.len() as int) =~= seq![SPACE] + header.value);
    lemma_trim_wire_value(header.value);
    assert forall|j: int| 0 <= j < line.len() implies line[j] != LF by {
        if j < n {
            assert(is_graphic_byte(header.name[j]));
        } else if j >= n + 2 {
            assert(line[j] == header.value[j - n - 2]);
        }
    }
}

/// Written header lines, followed by an empty line, are parsed to what was
/// written, wherever in the bytes they stand.
proof fn lemma_headers_wire(before: Seq<u8>, headers: Seq<WireHeader>, after: Seq<u8>)
    requires
        are_wire_headers(headers),
    ensures
        header_block(
            before + headers_wire(headers) + seq![CR, LF] + after,
            before.len() as int,
        ) == Some(
            (wire_views(headers), before.len() as int + headers_wire(headers).len() as int + 2),
        ),
    decreases headers.len(),
{
    let s = before + headers_wire(headers) + seq![CR, LF] + after;
    let from = before.len() as int;
    if headers.len() == 0 {
        lemma_line_end_at(s, from, from);
        assert(wire_views(headers) =~= Seq::<HeaderView>::empty());
    } else {
        let first = headers[0];
        let rest = headers.drop_first();
        let line = header_wire(first);
        lemma_header_wire(first);
        let end = from + line.len();
        assert forall|j: int| from <= j <= end implies s[j] != LF by {
            if j < end {
                assert(s[j] == line[j - from]);
            }
        }
        lemma_line_end_at(s, from, end);
        assert(s.subrange(from, end) =~= line);
        let next = before + line + seq![CR, LF];
        assert(s =~= next + headers_wire(rest) + seq![CR, LF] + after);
        assert forall|i: int| 0 <= i < rest.len() implies is_wire_name(
            (#[trigger] rest[i]).name,
        ) && is_wire_value(rest[i].value) by {
            assert(rest[i] == headers[i + 1]);
        }
        lemma_headers_wire(next, rest, after);
        assert(seq![wire_view(first)] + wire_views(rest) =~= wire_views(headers));
    }
}

/// Decoding reads back what was written: a request written with a method
/// and a target that are words, a printable version token, headers that can
/// be written, and a body whose length the headers declare (or an empty body
/// and no declared length) decodes to that method, target and body, the
/// version that the token stands for, and those headers in that order.
pub proof fn lemma_written_request_decodes(
    method: Seq<u8>,
    target: Seq<u8>,
    token: Seq<u8>,
    headers: Seq<WireHeader>,
    body: Seq<u8>,
)
    requires
        is_wire_word(method),
        is_wire_word(target),
        all_graphic(token),
        are_wire_headers(headers),
        match declared_length(wire_views(headers)) {
            DeclaredLength::Absent => body.len() == 0,
            DeclaredLength::Bytes(n) => body.len() == n,
            DeclaredLength::Invalid => false,
        },
    ensures
        decoded(request_wire(method, target, token, headers, body)) == Ok::<
            RequestView,
            DecodeError,
        >(
            RequestView {
                method: ascii_chars(method),
                target: ascii_chars(target),
                version: version_of(token),
                headers: wire_views(headers),
                body,
            },
        ),
{
    let s = request_wire(method, target, token, headers, body);
    let line = request_line_wire(method, target, token);
    let end = line.len() as int;
    assert forall|j: int| 0 <= j <= end implies s[j] != LF by {
        if j < method.len() {
            assert(is_graphic_byte(method[j]));
        } else if method.len() < j < method.len() + 1 + target.len() {
            assert(s[j] == target[j - method.len() - 1]);
            assert(is_graphic_byte(target[j - method.len() - 1]));
        } else if method.len() + 1 + target.len() < j < end {
            assert(s[j] == token[j - method.len() - target.len() - 2]);
            assert(is_graphic_byte(token[j - method.len() - target.len() - 2]));
        }
    }
    lemma_line_end_at(s, 0, end);
    assert(s.subrange(0, end) =~= line);
    lemma_request_line_wire(method, target, token);
    let before = line + seq![CR, LF];
    assert(s =~= before + headers_wire(headers) + seq![CR, LF] + body);
    lemma_headers_wire(before, headers, body);
    let start = before.len() as int + headers_wire(headers).len() as int + 2;
    assert(s.len() == start + body.len());
    assert(s.subrange(start, start + body.len() as int) =~= body);
    assert(body.len() == 0 ==> body =~= Seq::<u8>::empty());
}

} // verus!
