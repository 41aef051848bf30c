//! The boundary to `serde_json`: parsing a body and printing it with
//! indentation.

use vstd::prelude::*;

verus! {

#[verifier::external_type_specification]
#[verifier::external_body]
pub struct ExJsonValue(serde_json::Value);

#[verifier::external_type_specification]
#[verifier::external_body]
pub struct ExJsonError(serde_json::Error);

/// The document that `serde_json::from_slice` reads from `bytes`, or `None`
/// where it rejects them.
pub uninterp spec fn json_document(bytes: Seq<u8>) -> Option<serde_json::Value>;

/// The text that `serde_json::to_string_pretty` prints for `doc`, or `None`
/// where it reports an error.
pub uninterp spec fn json_pretty_text(doc: serde_json::Value) -> Option<Seq<char>>;

/// Calls `serde_json::from_slice` for a `serde_json::Value`. Trusted: the
/// outcome depends on the bytes alone, so it is `json_document` of them.
#[verifier::external_body]
pub(crate) fn parse_json(bytes: &[u8]) -> (parsed: Result<serde_json::Value, serde_json::Error>)
    ensures
        parsed.is_ok() == json_document(bytes@).is_some(),
        parsed matches Ok(doc) ==> json_document(bytes@) == Some(doc),
{
    serde_json::from_slice::<serde_json::Value>(bytes)
}

/// Calls `serde_json::to_string_pretty`. Trusted: the outcome depends on the
/// document alone, so it is `json_pretty_text` of it.
#[verifier::external_body]
pub(crate) fn print_json(doc: &serde_json::Value) -> (printed: Result<String, serde_json::Error>)
    ensures
        printed.is_ok() == json_pretty_text(*doc).is_some(),
        printed matches Ok(text) ==> json_pretty_text(*doc) == Some(text@),
{
    serde_json::to_string_pretty(doc)
}

/// The indented rendering of a JSON body, or `None` where the body is not a
/// JSON document or cannot be printed.
pub open spec fn pretty_json(bytes: Seq<u8>) -> Option<Seq<char>> {
    match json_document(bytes) {
        Some(doc) => json_pretty_text(doc),
        None => None,
    }
}

/// A body that was declared to be JSON and is not.
#[derive(Clone, Copy, Debug, PartialEq, Eq, Structural)]
pub struct BodyFormatError;

/// Parses `bytes` as JSON and prints the document with indentation.
///
/// Fails exactly where the bytes are no JSON document, or the document
/// cannot be printed.
pub fn render_json(bytes: &[u8]) -> (text: Result<String, BodyFormatError>)
    ensures
        text.is_ok() == pretty_json(bytes@).is_some(),
        text matches Ok(t) ==> pretty_json(bytes@) == Some(t@),
        json_document(bytes@) is None ==> text is Err,
{
    match parse_json(bytes) {
        Ok(doc) => match print_json(&doc) {
            Ok(text) => Ok(text),
            Err(_) => Err(BodyFormatError),
        },
        Err(_) => Err(BodyFormatError),
    }
}

} // verus!
