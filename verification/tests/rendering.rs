use corgi::content::{
    classify_content, json_section, raw_section, render_body, ContentClassification,
};
use corgi::headers::{find_header, format_header, name_is, value_string};
use corgi::json::{render_json, BodyFormatError};
use corgi::request::{Header, HttpVersion, InspectedRequest};
use corgi::scan::{find_byte, find_line_end, trim};
use corgi::text::{bytes_are, display_string, is_graphic, is_visible};

fn header(name: &str, value: &[u8]) -> Header {
    Header { name: name.to_string(), value: value.to_vec() }
}

fn request_with(headers: Vec<Header>) -> InspectedRequest {
    InspectedRequest {
        method: "GET".to_string(),
        target: "/".to_string(),
        version: HttpVersion::Http11,
        headers,
        body: vec![],
    }
}

#[test]
fn headers_are_formatted_one_per_line_in_order() {
    let request = request_with(vec![
        header("host", b"example.org"),
        header("accept", b"*/*"),
        header("host", b"again"),
    ]);
    assert_eq!(format_header(&request), "host: example.org\naccept: */*\nhost: again");
}

#[test]
fn formatted_headers_keep_count_order_and_pairing() {
    let headers: Vec<Header> = (0..20)
        .map(|i| header(&format!("x-h{}", 19 - i), format!("v{} w", i).as_bytes()))
        .collect();
    let text = format_header(&request_with(headers.clone()));
    let lines: Vec<&str> = text.split('\n').collect();
    assert_eq!(lines.len(), headers.len());
    for (line, h) in lines.iter().zip(headers.iter()) {
        let (name, value) = line.split_once(": ").unwrap();
        assert_eq!(name, h.name);
        assert_eq!(value.as_bytes(), &h.value[..]);
    }
}

#[test]
fn no_headers_format_to_nothing() {
    assert_eq!(format_header(&request_with(vec![])), "");
}

#[test]
fn one_header_formats_without_line_feed() {
    assert_eq!(format_header(&request_with(vec![header("a", b"b")])), "a: b");
}

#[test]
fn a_value_that_is_no_text_is_shown_empty() {
    let request = request_with(vec![
        header("a", b"caf\xc3\xa9"),
        header("b", b"ok"),
        header("c", b"bell\x07"),
        header("d", b""),
        header("e", b"tab\tand space"),
        header("f", b"del\x7f"),
    ]);
    assert_eq!(format_header(&request), "a: \nb: ok\nc: \nd: \ne: tab\tand space\nf: ");
}

#[test]
fn value_string_shows_text_or_nothing() {
    assert_eq!(value_string(b"text/plain; q=0.5"), "text/plain; q=0.5");
    assert_eq!(value_string(b"\x80"), "");
    assert_eq!(value_string(b"a\nb"), "");
    assert_eq!(value_string(b"~ \t!"), "~ \t!");
}

#[test]
fn names_match_whatever_their_case() {
    assert!(name_is("Content-Type", "content-type"));
    assert!(name_is("CONTENT-TYPE", "content-type"));
    assert!(name_is("content-type", "content-type"));
    assert!(!name_is("content-typ", "content-type"));
    assert!(!name_is("content-types", "content-type"));
    assert!(!name_is("content_type", "content-type"));
    assert!(!name_is("cont\u{e9}nt-type", "content-type"));
    assert!(!name_is("\u{212a}", "k"));
    assert!(name_is("", ""));
    assert!(name_is("\u{e9}-Tag", "\u{e9}-tag"));
    assert!(!name_is("\u{c9}-tag", "\u{e9}-tag"));
    assert!(!name_is("e-tag", "\u{e9}-tag"));
    assert!(!name_is("Content-Type", "Content-Type"));
    assert!(!name_is("@[`{", "`;@["));
}

#[test]
fn find_header_returns_the_first_of_that_name() {
    let headers = vec![header("A", b"1"), header("b", b"2"), header("B", b"3")];
    assert_eq!(find_header(&headers, "b"), Some(&headers[1]));
    assert_eq!(find_header(&headers, "a"), Some(&headers[0]));
    assert_eq!(find_header(&headers, "c"), None);
    assert_eq!(find_header(&vec![], "a"), None);
}

#[test]
fn content_is_classified_by_the_content_type() {
    assert_eq!(classify_content(&vec![]), ContentClassification::Absent);
    assert_eq!(
        classify_content(&vec![header("host", b"a")]),
        ContentClassification::Absent
    );
    assert_eq!(
        classify_content(&vec![header("content-type", b"application/json")]),
        ContentClassification::Json
    );
    assert_eq!(
        classify_content(&vec![header("Content-Type", b"application/json")]),
        ContentClassification::Json
    );
    assert_eq!(
        classify_content(&vec![header("content-type", b"text/plain")]),
        ContentClassification::Other
    );
    assert_eq!(
        classify_content(&vec![header("content-type", b"application/json; charset=utf-8")]),
        ContentClassification::Other
    );
    assert_eq!(
        classify_content(&vec![header("content-type", b"Application/JSON")]),
        ContentClassification::Other
    );
    assert_eq!(
        classify_content(&vec![header("content-type", b"")]),
        ContentClassification::Other
    );
    assert_eq!(
        classify_content(&vec![header("content-type", b"application/json\xff")]),
        ContentClassification::Malformed
    );
}

#[test]
fn the_first_content_type_decides() {
    assert_eq!(
        classify_content(&vec![
            header("content-type", b"text/plain"),
            header("content-type", b"application/json"),
        ]),
        ContentClassification::Other
    );
    assert_eq!(
        classify_content(&vec![
            header("x", b"y"),
            header("content-type", b"\x01"),
            header("content-type", b"application/json"),
        ]),
        ContentClassification::Malformed
    );
}

#[test]
fn json_body_is_printed_with_indentation() {
    assert_eq!(
        render_body(ContentClassification::Json, b"{\"a\":1}"),
        "{\n  \"a\": 1\n}"
    );
    assert_eq!(
        render_body(ContentClassification::Json, b" [1, {\"b\": [true, null]}, \"x\"] "),
        "[\n  1,\n  {\n    \"b\": [\n      true,\n      null\n    ]\n  },\n  \"x\"\n]"
    );
    assert_eq!(render_body(ContentClassification::Json, b"42"), "42");
}

#[test]
fn json_rendering_is_deterministic() {
    let body = b"{\"z\": [1, 2, 3], \"a\": {\"k\": \"v\"}}";
    assert_eq!(
        render_body(ContentClassification::Json, body),
        render_body(ContentClassification::Json, body)
    );
}

#[test]
fn json_rendering_parses_back_to_the_same_document() {
    let bodies: Vec<&[u8]> = vec![
        b"{\"a\":1}",
        b"[]",
        b"{}",
        b"null",
        b"\"text with \\\"quotes\\\" and \\u00e9\"",
        b"{\"nested\": {\"list\": [1, -2, 3.5, true, false, null, \"s\"]}, \"n\": 18446744073709551615}",
        b"  [ [ [ ] ] ]  ",
        b"{\"a\": 1, \"a\": 2}",
    ];
    for body in bodies {
        let sent: serde_json::Value = serde_json::from_slice(body).unwrap();
        let text = render_body(ContentClassification::Json, body);
        let shown: serde_json::Value = serde_json::from_str(&text).unwrap();
        assert_eq!(shown, sent);
    }
}

#[test]
fn body_that_is_no_json_gives_the_diagnostic() {
    let bodies: Vec<&[u8]> =
        vec![b"", b"{", b"{\"a\":1} trailing", b"hello", b"{'a': 1}", b"\xff", b"[1,]"];
    for body in bodies {
        assert_eq!(render_json(body), Err(BodyFormatError));
        assert_eq!(render_body(ContentClassification::Json, body), "Some error occurred");
    }
}

#[test]
fn render_json_gives_the_indented_text() {
    assert_eq!(render_json(b"[1,2]"), Ok("[\n  1,\n  2\n]".to_string()));
}

#[test]
fn json_section_shows_rendering_or_diagnostic() {
    assert_eq!(json_section(Ok("{}".to_string())), "{}");
    assert_eq!(json_section(Err(BodyFormatError)), "Some error occurred");
}

#[test]
fn other_body_is_shown_raw() {
    assert_eq!(render_body(ContentClassification::Other, b"hello"), "raw: hello");
    assert_eq!(render_body(ContentClassification::Other, b""), "raw: ");
    assert_eq!(
        render_body(ContentClassification::Other, "gr\u{fc}\u{df}e".as_bytes()),
        "raw: gr\u{fc}\u{df}e"
    );
    assert_eq!(raw_section("a\nb"), "raw: a\nb");
}

#[test]
fn other_body_that_is_no_utf8_is_read_lossily() {
    assert_eq!(
        render_body(ContentClassification::Other, b"a\xffb"),
        "raw: a\u{fffd}b"
    );
    assert_eq!(
        render_body(ContentClassification::Other, b"\xe2\x82"),
        "raw: \u{fffd}"
    );
}

#[test]
fn absent_content_type_gives_the_fixed_line_whatever_the_body() {
    let bodies: Vec<&[u8]> = vec![b"", b"hello", b"{\"a\":1}", b"\xff\x00"];
    for body in bodies {
        assert_eq!(
            render_body(ContentClassification::Absent, body),
            "No content type is provided"
        );
    }
}

#[test]
fn malformed_content_type_gives_the_diagnostic() {
    assert_eq!(render_body(ContentClassification::Malformed, b"{}"), "Some error occurred");
    assert_eq!(render_body(ContentClassification::Malformed, b""), "Some error occurred");
}

#[test]
fn rendering_leaves_the_body_as_it_is() {
    let body = b"{\"a\":1}".to_vec();
    let before = body.clone();
    let _ = render_body(ContentClassification::Json, &body);
    let _ = render_body(ContentClassification::Other, &body);
    assert_eq!(body, before);
}

#[test]
fn text_helpers() {
    assert!(bytes_are(b"HTTP/1.1", "HTTP/1.1"));
    assert!(!bytes_are(b"HTTP/1.1", "HTTP/1.0"));
    assert!(!bytes_are(b"HTTP/1.", "HTTP/1.1"));
    assert!(bytes_are(b"", ""));
    assert!(bytes_are(b"caf\xc3\xa9", "caf\u{e9}"));
    assert!(!bytes_are(b"caf\xe9", "caf\u{e9}"));
    assert!(is_graphic(b"GET"));
    assert!(is_graphic(b"!~"));
    assert!(is_graphic(b""));
    assert!(!is_graphic(b"a b"));
    assert!(!is_graphic(b"a\x7f"));
    assert!(!is_graphic(b"\x80"));
    assert!(is_visible(b"a b\tc"));
    assert!(!is_visible(b"a\rb"));
    assert!(!is_visible(b"\x7f"));
    assert_eq!(display_string(b"abc XYZ"), "abc XYZ");
    assert_eq!(display_string(b""), "");
    assert_eq!(display_string(b"\xc3\xa9"), "\u{e9}");
    assert_eq!(display_string(b"\xc3"), "\u{fffd}");
}

#[test]
fn scanning_helpers() {
    assert_eq!(find_byte(b"a b c", b' '), 1);
    assert_eq!(find_byte(b"abc", b' '), 3);
    assert_eq!(find_byte(b"", b' '), 0);
    assert_eq!(find_line_end(b"ab\r\ncd\r\n", 0), 2);
    assert_eq!(find_line_end(b"ab\r\ncd\r\n", 3), 6);
    assert_eq!(find_line_end(b"ab\r\ncd\r", 4), 7);
    assert_eq!(find_line_end(b"ab\rcd\n", 0), 6);
    assert_eq!(find_line_end(b"\r\n", 0), 0);
    assert_eq!(find_line_end(b"\r\n", 2), 2);
    assert_eq!(trim(b"  a b\t"), b"a b");
    assert_eq!(trim(b"\t \t"), b"");
    assert_eq!(trim(b""), b"");
    assert_eq!(trim(b"a"), b"a");
    assert_eq!(trim(b" \r "), b"\r");
}
