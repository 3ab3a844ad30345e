//! Reading single top-level fields of JSON documents with `serde_json`.
use vstd::prelude::*;

verus! {

/// A top-level field of a JSON document, as far as the library reads it.
#[derive(Debug)]
pub enum JsonScalar {
    /// The document is not an object, or has no such field.
    Absent,
    Bool(bool),
    Str(String),
    /// Any other JSON value.
    Other,
}

/// `JsonScalar` as a plain value.
pub enum JsonScalarView {
    Absent,
    Bool(bool),
    Str(Seq<char>),
    Other,
}

pub open spec fn scalar_view(j: JsonScalar) -> JsonScalarView {
    match j {
        JsonScalar::Absent => JsonScalarView::Absent,
        JsonScalar::Bool(b) => JsonScalarView::Bool(b),
        JsonScalar::Str(s) => JsonScalarView::Str(s@),
        JsonScalar::Other => JsonScalarView::Other,
    }
}

#[verifier::external_type_specification]
#[verifier::external_body]
pub struct ExJsonValue(serde_json::Value);

/// What `serde_json::from_str::<Value>` returns for `text`: the document,
/// or the message of its error.
pub uninterp spec fn json_parsed(text: Seq<char>) -> Result<serde_json::Value, Seq<char>>;

/// The message of the error `serde_json::from_str::<Value>` returns for
/// `text`, or `None` where `text` is a JSON document.
pub open spec fn json_parse_error(text: Seq<char>) -> Option<Seq<char>> {
    match json_parsed(text) {
        Ok(_) => None,
        Err(e) => Some(e),
    }
}

/// What `Value::get(key)` gives on the document `text` holds.
pub uninterp spec fn json_field_of(text: Seq<char>, key: Seq<char>) -> JsonScalarView;

/// Field `key` of the document `text`, or the parse error's message when
/// `text` is not JSON.
pub open spec fn json_field_spec(text: Seq<char>, key: Seq<char>) -> Result<JsonScalarView, Seq<char>> {
    match json_parse_error(text) {
        Some(e) => Err(e),
        None => Ok(json_field_of(text, key)),
    }
}

/// Parses `text` with `serde_json::from_str` into a `serde_json::Value` and
/// reads field `key` of it (`Value::get`): the parse is named
/// `json_parsed` of the text, the field `json_field_of` of both.
#[verifier::external_body]
pub(crate) fn json_top_field(text: &str, key: &str) -> (res: Result<JsonScalar, String>)
    ensures
        match res {
            Err(e) => json_parsed(text@) == Err::<serde_json::Value, Seq<char>>(e@),
            Ok(j) => json_parsed(text@) is Ok && scalar_view(j) == json_field_of(text@, key@),
        },
{
    match serde_json::from_str::<serde_json::Value>(text) {
        Err(e) => Err(e.to_string()),
        Ok(v) => Ok(match v.get(key) {
            None => JsonScalar::Absent,
            Some(serde_json::Value::Bool(b)) => JsonScalar::Bool(*b),
            Some(serde_json::Value::String(s)) => JsonScalar::Str(s.clone()),
            Some(_) => JsonScalar::Other,
        }),
    }
}

/// Parses `text` with `serde_json::from_str::<Value>`: the result is named
/// `json_parsed` of the text (the error by its message).
#[verifier::external_body]
pub(crate) fn parse_json_value(text: &str) -> (res: Result<serde_json::Value, String>)
    ensures
        match res {
            Ok(v) => json_parsed(text@) == Ok::<serde_json::Value, Seq<char>>(v),
            Err(e) => json_parsed(text@) == Err::<serde_json::Value, Seq<char>>(e@),
        },
{
    match serde_json::from_str::<serde_json::Value>(text) {
        Ok(v) => Ok(v),
        Err(e) => Err(e.to_string()),
    }
}

} // verus!
