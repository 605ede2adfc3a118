//! Structured content: a decoded text either parses as a JSON document or
//! is kept as it is.

use crate::decoder::{decode, decoded, DecodeError};
use vstd::prelude::*;

verus! {

/// A JSON document of the outside parser. Its inside is read only through
/// [`json_array_member`].
#[verifier::external_type_specification]
#[verifier::external_body]
pub struct ExJsonValue(serde_json::Value);

/// The error of the outside parser.
#[verifier::external_type_specification]
#[verifier::external_body]
pub struct ExJsonError(serde_json::Error);

/// The document that `serde_json::from_str` reads from a text, or nothing
/// where it reports an error.
pub uninterp spec fn json_document(text: Seq<char>) -> Option<serde_json::Value>;

/// The elements of the array that a document holds under a key, or nothing
/// where the document is no object, has no such key, or holds something
/// other than an array there.
pub uninterp spec fn json_array_member(document: serde_json::Value, key: Seq<char>) -> Option<
    Seq<serde_json::Value>,
>;

/// Calls `serde_json::from_str` for a `serde_json::Value`. The contract
/// only names the outcome: success and the document handed back are those
/// of `json_document`.
#[verifier::external_body]
pub(crate) fn parse_json(text: &str) -> (r: Result<serde_json::Value, serde_json::Error>)
    ensures
        r is Ok <==> json_document(text@) is Some,
        r matches Ok(document) ==> json_document(text@) == Some(document),
{
    serde_json::from_str::<serde_json::Value>(text)
}

/// Indexes a `serde_json::Value` by a key and calls `Value::as_array` on
/// what is there, copying the elements out. The contract only names the
/// outcome: it is that of `json_array_member`.
#[verifier::external_body]
fn array_member(document: &serde_json::Value, key: &str) -> (r: Option<Vec<serde_json::Value>>)
    ensures
        r is Some <==> json_array_member(*document, key@) is Some,
        r matches Some(items) ==> json_array_member(*document, key@) == Some(items@),
{
    document[key].as_array().cloned()
}

/// A decoded payload.
#[derive(Debug, PartialEq)]
pub enum Payload {
    /// The text is a JSON document.
    Structured(serde_json::Value),
    /// The text is no JSON document and is kept for display as it is.
    Unstructured(String),
}

/// The mathematical content of a [`Payload`].
pub enum PayloadView {
    /// A JSON document.
    Structured(serde_json::Value),
    /// The characters of a text that is no JSON document.
    Unstructured(Seq<char>),
}

impl View for Payload {
    type V = PayloadView;

    open spec fn view(&self) -> PayloadView {
        match self {
            Payload::Structured(document) => PayloadView::Structured(*document),
            Payload::Unstructured(text) => PayloadView::Unstructured(text@),
        }
    }
}

/// The payload that a text stands for: the document that it parses to, or
/// the text itself.
pub open spec fn payload_of(text: Seq<char>) -> PayloadView {
    match json_document(text) {
        Some(document) => PayloadView::Structured(document),
        None => PayloadView::Unstructured(text),
    }
}

/// Sorts a text by the outcome of parsing it: a document is structured
/// content, and a text that failed to parse is handed on unchanged. A parse
/// failure is no error.
pub fn payload_from(text: String, parsed: Result<serde_json::Value, serde_json::Error>) -> (r:
    Payload)
    ensures
        r == match parsed {
            Ok(document) => Payload::Structured(document),
            Err(_) => Payload::Unstructured(text),
        },
{
    match parsed {
        Ok(document) => Payload::Structured(document),
        Err(_) => Payload::Unstructured(text),
    }
}

/// Parses a text and sorts it into structured or unstructured content.
pub fn interpret(text: String) -> (r: Payload)
    ensures
        r@ == payload_of(text@),
{
    let parsed = parse_json(text.as_str());
    payload_from(text, parsed)
}

/// Decodes a payload and sorts its text into structured or unstructured
/// content. Only decoding can fail.
pub fn read_payload(bytes: &[u8]) -> (r: Result<Payload, DecodeError>)
    ensures
        match decoded(bytes@) {
            Err(e) => r == Err::<Payload, DecodeError>(e),
            Ok(text) => r matches Ok(payload) && payload@ == payload_of(text),
        },
{
    match decode(bytes) {
        Err(e) => Err(e),
        Ok(text) => Ok(interpret(text)),
    }
}

/// The elements of the array under `key`, given what the lookup found: an
/// absent or differently typed member counts as an empty array.
pub fn items_or_empty(found: Option<Vec<serde_json::Value>>) -> (r: Vec<serde_json::Value>)
    ensures
        r@ == match found {
            Some(items) => items@,
            None => Seq::<serde_json::Value>::empty(),
        },
{
    match found {
        Some(items) => items,
        None => Vec::new(),
    }
}

/// The elements of the array that a document holds under a key; empty
/// where it holds no array there.
pub open spec fn member_items(document: serde_json::Value, key: Seq<char>) -> Seq<
    serde_json::Value,
> {
    match json_array_member(document, key) {
        Some(items) => items,
        None => Seq::empty(),
    }
}

/// Looks up the array that a document holds under a key.
pub fn items_of(document: &serde_json::Value, key: &str) -> (r: Vec<serde_json::Value>)
    ensures
        r@ == member_items(*document, key@),
{
    items_or_empty(array_member(document, key))
}

} // verus!
