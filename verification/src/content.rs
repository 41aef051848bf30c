//! The content renderer: how a body is shown, by the content type that the
//! request declares.

use crate::headers::{find_header, first_named, value_text};
use crate::json::{BodyFormatError, json_document, pretty_json, render_json};
use crate::request::{Header, HeaderView, header_views};
use crate::text::{bytes_are, display_string, is_visible, lemma_ascii_spelling, utf8_lossy};
use vstd::prelude::*;
use vstd::string::StringExecFns;
use vstd::utf8::{decode_utf8, valid_utf8};

verus! {

/// How a body is to be shown, by the first `Content-Type` header.
#[derive(Clone, Copy, Debug, PartialEq, Eq, Structural)]
pub enum ContentClassification {
    /// The value is `application/json`.
    Json,
    /// The value is any other text.
    Other,
    /// There is no `Content-Type` header.
    Absent,
    /// The value is not text.
    Malformed,
}

/// How the body of a request with the headers `headers` is to be shown.
pub open spec fn classification(headers: Seq<HeaderView>) -> ContentClassification {
    let at = first_named(headers, "content-type"@);
    if at >= headers.len() {
        ContentClassification::Absent
    } else {
        match value_text(headers[at].value) {
            None => ContentClassification::Malformed,
            Some(text) => if text == "application/json"@ {
                ContentClassification::Json
            } else {
                ContentClassification::Other
            },
        }
    }
}

/// Classifies the body of a request by its headers.
pub fn classify_content(headers: &Vec<Header>) -> (class: ContentClassification)
    ensures
        class == classification(header_views(headers@)),
{
    proof {
        reveal_strlit("application/json");
    }
    match find_header(headers, "content-type") {
        None => ContentClassification::Absent,
        Some(header) => {
            let value = header.value.as_slice();
            if !is_visible(value) {
                ContentClassification::Malformed
            } else {
                proof {
                    lemma_ascii_spelling(value@, "application/json"@);
                }
                if bytes_are(value, "application/json") {
                    ContentClassification::Json
                } else {
                    ContentClassification::Other
                }
            }
        },
    }
}

/// How a body of the class `class` is shown.
pub open spec fn rendered_body(class: ContentClassification, body: Seq<u8>) -> Seq<char> {
    match class {
        ContentClassification::Json => match pretty_json(body) {
            Some(text) => text,
            None => "Some error occurred"@,
        },
        ContentClassification::Other => "raw: "@ + utf8_lossy(body),
        ContentClassification::Absent => "No content type is provided"@,
        ContentClassification::Malformed => "Some error occurred"@,
    }
}

/// Shows the outcome of rendering a JSON body: the rendering, or the
/// diagnostic that stands for a body that is no JSON.
pub fn json_section(rendered: Result<String, BodyFormatError>) -> (text: String)
    ensures
        text@ == (match rendered {
            Ok(t) => t@,
            Err(_) => "Some error occurred"@,
        }),
{
    match rendered {
        Ok(t) => t,
        Err(_) => String::from_str("Some error occurred"),
    }
}

/// Shows a body of no particular type, given as text.
pub fn raw_section(body: &str) -> (text: String)
    ensures
        text@ == "raw: "@ + body@,
{
    String::from_str("raw: ").concat(body)
}

/// Renders a body for display.
///
/// A JSON body is parsed and printed with indentation, and replaced by a
/// diagnostic where it does not parse; a body of another type is shown raw,
/// read as UTF-8 with what is ill-formed replaced; where no type is declared,
/// or the declaration is not text, a fixed line stands for the body. The
/// bytes are left as they are.
pub fn render_body(class: ContentClassification, body: &[u8]) -> (text: String)
    ensures
        text@ == rendered_body(class, body@),
        class is Absent ==> text@ == "No content type is provided"@,
        class is Malformed ==> text@ == "Some error occurred"@,
        class is Json && json_document(body@) is None ==> text@ == "Some error occurred"@,
        class is Other && valid_utf8(body@) ==> text@ == "raw: "@ + decode_utf8(body@),
{
    match class {
        ContentClassification::Json => json_section(render_json(body)),
        ContentClassification::Other => {
            let shown = display_string(body);
            raw_section(shown.as_str())
        },
        ContentClassification::Absent => String::from_str("No content type is provided"),
        ContentClassification::Malformed => String::from_str("Some error occurred"),
    }
}

} // verus!
