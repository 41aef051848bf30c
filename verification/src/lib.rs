//! A diagnostic HTTP request inspector: decodes one request from the bytes of
//! a connection, renders it as a readable log record, and answers with a fixed
//! acknowledgement.
//!
//! - [`decoder`] turns bytes into an [`request::InspectedRequest`];
//! - [`headers`] formats the header list and finds headers by name;
//! - [`content`] classifies a body by its content type and renders it;
//! - [`handler`] decides, for one connection, what is logged and answered;
//! - [`wire`] states that decoding reads back a request as it is written.
//!
//! Parsing and printing JSON is left to `serde_json` ([`json`]), and the
//! lossy reading of UTF-8 to the standard library ([`text`]).

pub mod content;
pub mod decoder;
pub mod handler;
pub mod headers;
pub mod json;
pub mod request;
pub mod scan;
pub mod text;
pub mod wire;
