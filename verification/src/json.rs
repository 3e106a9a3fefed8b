//! Reading documents from JSON text.
use vstd::prelude::*;
use crate::document::{Document, Json, Member};

verus! {

#[verifier::external_type_specification]
#[verifier::external_body]
pub struct ExValue(serde_json::Value);

#[verifier::external_type_specification]
#[verifier::external_body]
pub struct ExError(serde_json::Error);

/// What a text is read as: the JSON value that it writes, or nothing where
/// it is refused.
pub uninterp spec fn json_syntax(text: Seq<char>) -> Option<Json>;

/// What a JSON value holds.
pub uninterp spec fn json_content(value: serde_json::Value) -> Json;

/// `serde_json::from_str`, read as a `serde_json::Value`. Trusted: whether
/// it takes the text, and what the value holds that it then gives, depend
/// on the text alone.
#[verifier::external_body]
fn json_value(text: &str) -> (parsed: Result<serde_json::Value, serde_json::Error>)
    ensures
        match parsed {
            Ok(value) => json_syntax(text@) == Some(json_content(value)),
            Err(_) => json_syntax(text@) is None,
        },
{
    serde_json::from_str(text)
}

/// Moves what a `serde_json::Value` holds into a document, variant by
/// variant. A number goes through `Number::as_i64`: where that gives an
/// integer the document holds it, and otherwise it holds the number's text.
/// Trusted: the document holds what the value holds.
#[verifier::external_body]
fn document_of(value: &serde_json::Value) -> (document: Document)
    ensures
        document@ == json_content(*value),
{
    match value {
        serde_json::Value::Null => Document::Null,
        serde_json::Value::Bool(b) => Document::Bool(*b),
        serde_json::Value::Number(n) => match n.as_i64() {
            Some(i) => Document::Integer(i),
            None => Document::Decimal(n.to_string()),
        },
        serde_json::Value::String(text) => Document::Text(text.clone()),
        serde_json::Value::Array(items) => Document::Array(items.iter().map(document_of).collect()),
        serde_json::Value::Object(members) => Document::Object(
            members.iter().map(|(k, v)| Member { key: k.clone(), value: document_of(v) }).collect(),
        ),
    }
}

/// The text was refused: it does not write a JSON value.
#[derive(Clone, Copy, Debug, PartialEq, Eq)]
pub struct SyntaxError;

/// Reads a document from JSON text.
pub fn parse(text: &str) -> (parsed: Result<Document, SyntaxError>)
    ensures
        match parsed {
            Ok(document) => json_syntax(text@) == Some(document@),
            Err(_) => json_syntax(text@) is None,
        },
{
    match json_value(text) {
        Ok(value) => Ok(document_of(&value)),
        Err(_) => Err(SyntaxError),
    }
}

} // verus!
