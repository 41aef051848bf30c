use corgi::decoder::{
    classify_version, decode_request, needs_more, parse_header_block, parse_header_line,
    parse_request_line, read_body, HeadError, RequestLine,
};
use corgi::request::{DecodeError, Header, HttpVersion, InspectedRequest};

fn header(name: &str, value: &[u8]) -> Header {
    Header { name: name.to_string(), value: value.to_vec() }
}

#[test]
fn decodes_a_request_without_body() {
    let decoded = decode_request(b"GET /ping HTTP/1.1\r\nHost: example.org\r\n\r\n");
    assert_eq!(
        decoded,
        Ok(InspectedRequest {
            method: "GET".to_string(),
            target: "/ping".to_string(),
            version: HttpVersion::Http11,
            headers: vec![header("Host", b"example.org")],
            body: vec![],
        })
    );
}

#[test]
fn decodes_a_request_with_declared_body() {
    let decoded = decode_request(
        b"POST /items HTTP/1.1\r\nContent-Type: application/json\r\nContent-Length: 7\r\n\r\n{\"a\":1}",
    );
    let request = decoded.unwrap();
    assert_eq!(request.method, "POST");
    assert_eq!(request.target, "/items");
    assert_eq!(request.version, HttpVersion::Http11);
    assert_eq!(
        request.headers,
        vec![header("Content-Type", b"application/json"), header("Content-Length", b"7")]
    );
    assert_eq!(request.body, b"{\"a\":1}".to_vec());
}

#[test]
fn body_is_empty_without_content_length() {
    let request = decode_request(b"POST /x HTTP/1.1\r\nHost: a\r\n\r\nignored bytes").unwrap();
    assert_eq!(request.body, Vec::<u8>::new());
}

#[test]
fn bytes_beyond_the_declared_length_are_left_aside() {
    let request =
        decode_request(b"POST /x HTTP/1.1\r\nContent-Length: 3\r\n\r\nabcdef").unwrap();
    assert_eq!(request.body, b"abc".to_vec());
}

#[test]
fn zero_content_length_gives_an_empty_body() {
    let request = decode_request(b"POST /x HTTP/1.1\r\nContent-Length: 0\r\n\r\n").unwrap();
    assert_eq!(request.body, Vec::<u8>::new());
}

#[test]
fn content_length_with_leading_zeros_is_decimal() {
    let request =
        decode_request(b"POST /x HTTP/1.1\r\nContent-Length: 0005\r\n\r\nhello").unwrap();
    assert_eq!(request.body, b"hello".to_vec());
}

#[test]
fn content_length_name_is_matched_in_any_case() {
    let request =
        decode_request(b"POST /x HTTP/1.1\r\ncOnTeNt-LeNgTh: 2\r\n\r\nhi").unwrap();
    assert_eq!(request.body, b"hi".to_vec());
}

#[test]
fn first_content_length_decides() {
    let request = decode_request(
        b"POST /x HTTP/1.1\r\nContent-Length: 1\r\nContent-Length: 4\r\n\r\nabcd",
    )
    .unwrap();
    assert_eq!(request.body, b"a".to_vec());
    assert_eq!(request.headers.len(), 2);
}

#[test]
fn short_body_is_incomplete() {
    assert_eq!(
        decode_request(b"POST /x HTTP/1.1\r\nContent-Length: 10\r\n\r\nhello"),
        Err(DecodeError::IncompleteBody)
    );
}

#[test]
fn content_length_beyond_any_machine_size_is_incomplete() {
    assert_eq!(
        decode_request(
            b"POST /x HTTP/1.1\r\nContent-Length: 99999999999999999999999999999999999999\r\n\r\nhello"
        ),
        Err(DecodeError::IncompleteBody)
    );
}

#[test]
fn content_length_that_is_no_number_is_malformed() {
    assert_eq!(
        decode_request(b"POST /x HTTP/1.1\r\nContent-Length: five\r\n\r\nhello"),
        Err(DecodeError::MalformedRequest)
    );
    assert_eq!(
        decode_request(b"POST /x HTTP/1.1\r\nContent-Length: -1\r\n\r\nhello"),
        Err(DecodeError::MalformedRequest)
    );
    assert_eq!(
        decode_request(b"POST /x HTTP/1.1\r\nContent-Length:\r\n\r\nhello"),
        Err(DecodeError::MalformedRequest)
    );
    assert_eq!(
        decode_request(b"POST /x HTTP/1.1\r\nContent-Length: 1 2\r\n\r\nhello"),
        Err(DecodeError::MalformedRequest)
    );
}

#[test]
fn missing_version_is_other() {
    let request = decode_request(b"GET /ping\r\n\r\n").unwrap();
    assert_eq!(request.method, "GET");
    assert_eq!(request.target, "/ping");
    assert_eq!(request.version, HttpVersion::Other);
}

#[test]
fn unrecognised_version_is_other() {
    assert_eq!(decode_request(b"GET / HTTP/9.9\r\n\r\n").unwrap().version, HttpVersion::Other);
    assert_eq!(decode_request(b"GET / http/1.1\r\n\r\n").unwrap().version, HttpVersion::Other);
    assert_eq!(decode_request(b"GET / \r\n\r\n").unwrap().version, HttpVersion::Other);
    assert_eq!(
        decode_request(b"GET / HTTP/1.1 extra\r\n\r\n").unwrap().version,
        HttpVersion::Other
    );
}

#[test]
fn recognised_versions() {
    assert_eq!(classify_version(b"HTTP/1.0"), HttpVersion::Http10);
    assert_eq!(classify_version(b"HTTP/1.1"), HttpVersion::Http11);
    assert_eq!(classify_version(b"HTTP/2"), HttpVersion::Http2);
    assert_eq!(classify_version(b"HTTP/2.0"), HttpVersion::Http2);
    assert_eq!(classify_version(b"HTTP/3"), HttpVersion::Http3);
    assert_eq!(classify_version(b"HTTP/3.0"), HttpVersion::Http3);
    assert_eq!(classify_version(b""), HttpVersion::Other);
    assert_eq!(classify_version(b"HTTP/1.10"), HttpVersion::Other);
    assert_eq!(classify_version(b"HTTP/0.9"), HttpVersion::Other);
}

#[test]
fn the_http2_preface_decodes_as_http2() {
    let request = decode_request(b"PRI * HTTP/2.0\r\n\r\nSM\r\n\r\n").unwrap();
    assert_eq!(request.method, "PRI");
    assert_eq!(request.target, "*");
    assert_eq!(request.version, HttpVersion::Http2);
    assert_eq!(request.headers, Vec::<Header>::new());
}

#[test]
fn header_line_without_colon_is_malformed() {
    assert_eq!(
        decode_request(b"GET / HTTP/1.1\r\nHost example.org\r\n\r\n"),
        Err(DecodeError::MalformedRequest)
    );
    assert_eq!(parse_header_line(b"Host example.org"), None);
}

#[test]
fn header_name_must_be_printable_and_not_empty() {
    assert_eq!(parse_header_line(b": value"), None);
    assert_eq!(parse_header_line(b"Bad Name: value"), None);
    assert_eq!(parse_header_line(b"Bad\tName: value"), None);
    assert_eq!(parse_header_line(b"N\xc3\xa4me: value"), None);
    assert_eq!(parse_header_line(b"X-Ok: value"), Some(header("X-Ok", b"value")));
}

#[test]
fn header_value_loses_the_blanks_around_it() {
    assert_eq!(parse_header_line(b"A:  \t b c \t "), Some(header("A", b"b c")));
    assert_eq!(parse_header_line(b"A:b"), Some(header("A", b"b")));
    assert_eq!(parse_header_line(b"A:"), Some(header("A", b"")));
    assert_eq!(parse_header_line(b"A:   "), Some(header("A", b"")));
    assert_eq!(parse_header_line(b"A: b:c"), Some(header("A", b"b:c")));
}

#[test]
fn header_value_keeps_bytes_that_are_no_text() {
    assert_eq!(parse_header_line(b"A: \xff\x00\xfe"), Some(header("A", b"\xff\x00\xfe")));
}

#[test]
fn headers_keep_order_and_duplicates() {
    let request = decode_request(
        b"GET / HTTP/1.1\r\nB: 2\r\nA: 1\r\nB: 3\r\na: 4\r\n\r\n",
    )
    .unwrap();
    assert_eq!(
        request.headers,
        vec![header("B", b"2"), header("A", b"1"), header("B", b"3"), header("a", b"4")]
    );
}

#[test]
fn missing_empty_line_is_malformed() {
    assert_eq!(
        decode_request(b"GET / HTTP/1.1\r\nHost: a\r\n"),
        Err(DecodeError::MalformedRequest)
    );
    assert_eq!(decode_request(b"GET / HTTP/1.1\r\n"), Err(DecodeError::MalformedRequest));
    assert_eq!(
        decode_request(b"GET / HTTP/1.1\r\nHost: a"),
        Err(DecodeError::MalformedRequest)
    );
}

#[test]
fn request_line_must_end_in_a_line_break() {
    assert_eq!(decode_request(b""), Err(DecodeError::MalformedRequest));
    assert_eq!(decode_request(b"GET / HTTP/1.1"), Err(DecodeError::MalformedRequest));
    assert_eq!(decode_request(b"GET / HTTP/1.1\n\n"), Err(DecodeError::MalformedRequest));
    assert_eq!(decode_request(b"\r"), Err(DecodeError::MalformedRequest));
}

#[test]
fn request_line_needs_method_and_target() {
    assert_eq!(parse_request_line(b""), None);
    assert_eq!(parse_request_line(b"GET"), None);
    assert_eq!(parse_request_line(b"GET "), None);
    assert_eq!(parse_request_line(b" /ping HTTP/1.1"), None);
    assert_eq!(parse_request_line(b"GET  HTTP/1.1"), None);
    assert_eq!(parse_request_line(b"G\x01T / HTTP/1.1"), None);
    assert_eq!(parse_request_line(b"GET /\xff HTTP/1.1"), None);
    assert_eq!(decode_request(b"GET\r\n\r\n"), Err(DecodeError::MalformedRequest));
}

#[test]
fn request_line_is_split_at_single_spaces() {
    assert_eq!(
        parse_request_line(b"DELETE /a/b?c=d HTTP/1.0"),
        Some(RequestLine {
            method: "DELETE".to_string(),
            target: "/a/b?c=d".to_string(),
            version: HttpVersion::Http10,
        })
    );
    assert_eq!(
        parse_request_line(b"GET /x"),
        Some(RequestLine {
            method: "GET".to_string(),
            target: "/x".to_string(),
            version: HttpVersion::Other,
        })
    );
}

#[test]
fn header_block_reports_where_the_body_begins() {
    let bytes = b"GET / HTTP/1.1\r\nA: 1\r\nB: 2\r\n\r\nbody";
    assert_eq!(
        parse_header_block(bytes, 16),
        Ok((vec![header("A", b"1"), header("B", b"2")], 30))
    );
    assert_eq!(parse_header_block(b"\r\n", 0), Ok((vec![], 2)));
    assert_eq!(parse_header_block(b"A: 1\r\n", 0), Err(HeadError::CutShort));
    assert_eq!(parse_header_block(b"A: 1\r\nB", 0), Err(HeadError::CutShort));
    assert_eq!(parse_header_block(b"", 0), Err(HeadError::CutShort));
    assert_eq!(parse_header_block(b"\r\n", 3), Err(HeadError::Malformed));
    assert_eq!(parse_header_block(b"A 1\r\n", 0), Err(HeadError::Malformed));
    assert_eq!(parse_header_block(b"A 1\r\n\r\n", 0), Err(HeadError::Malformed));
    assert_eq!(parse_header_block(b"A: 1\r\nB 2\r\nC", 0), Err(HeadError::Malformed));
}

#[test]
fn more_bytes_are_awaited_while_the_request_breaks_off() {
    let whole: &[u8] =
        b"POST /x HTTP/1.1\r\nHost: a\r\nContent-Length: 5\r\n\r\nhello";
    for cut in 0..whole.len() {
        assert!(needs_more(&whole[..cut]));
        assert!(decode_request(&whole[..cut]).is_err());
    }
    assert!(!needs_more(whole));
    assert!(decode_request(whole).is_ok());
}

#[test]
fn nothing_is_awaited_once_the_outcome_is_settled() {
    let settled: Vec<&[u8]> = vec![
        b"GET / HTTP/1.1\r\n\r\n",
        b"GET\r\n",
        b"\r\n",
        b"GET / HTTP/1.1\r\nbroken\r\nHost",
        b"GET / HTTP/1.1\r\nContent-Length: x\r\n\r\n",
        b"GET / HTTP/1.1\r\nContent-Length: 2\r\n\r\nabc",
    ];
    for bytes in settled {
        assert!(!needs_more(bytes));
        let now = decode_request(bytes);
        let mut longer = bytes.to_vec();
        longer.extend_from_slice(b"more\r\n\r\nbytes");
        assert_eq!(decode_request(&longer), now);
    }
}

#[test]
fn read_body_follows_the_declared_length() {
    let none: Vec<Header> = vec![];
    assert_eq!(read_body(b"xxabc", 2, &none), Ok(vec![]));
    let three = vec![header("content-length", b"3")];
    assert_eq!(read_body(b"xxabc", 2, &three), Ok(b"abc".to_vec()));
    assert_eq!(read_body(b"xxabc", 3, &three), Err(DecodeError::IncompleteBody));
    assert_eq!(read_body(b"xxabc", 5, &three), Err(DecodeError::IncompleteBody));
    let bad = vec![header("content-length", b"3x")];
    assert_eq!(read_body(b"xxabc", 2, &bad), Err(DecodeError::MalformedRequest));
    let max = vec![header("content-length", b"18446744073709551615")];
    assert_eq!(read_body(b"xxabc", 2, &max), Err(DecodeError::IncompleteBody));
    let over = vec![header("content-length", b"18446744073709551616")];
    assert_eq!(read_body(b"xxabc", 2, &over), Err(DecodeError::IncompleteBody));
    let zero = vec![header("content-length", b"0")];
    assert_eq!(read_body(b"xxabc", 5, &zero), Ok(vec![]));
    assert_eq!(read_body(b"xxabc", 6, &zero), Err(DecodeError::IncompleteBody));
    assert_eq!(read_body(b"xxabc", 6, &none), Ok(vec![]));
    assert_eq!(read_body(b"xxabc", 6, &bad), Err(DecodeError::MalformedRequest));
}

#[test]
fn body_may_hold_any_bytes() {
    let mut bytes = b"PUT /blob HTTP/1.1\r\nContent-Length: 4\r\n\r\n".to_vec();
    bytes.extend_from_slice(&[0, 255, 13, 10]);
    let request = decode_request(&bytes).unwrap();
    assert_eq!(request.body, vec![0, 255, 13, 10]);
}
