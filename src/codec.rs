//! Structured values to and from their textual (JSON) form.

use vstd::prelude::*;
use crate::value::{wf, Json, JsonV};

verus! {

/// serde_json's own value tree, carried only inside the conversions below.
#[verifier::external_type_specification]
#[verifier::external_body]
pub struct ExValue(serde_json::Value);

/// The value that a text denotes as JSON, or `None` where it is not JSON.
pub uninterp spec fn json_parse(text: Seq<char>) -> Option<JsonV>;

/// The compact JSON text of a value.
pub uninterp spec fn json_text(v: JsonV) -> Seq<char>;

/// Relies on serde_json::from_str into serde_json::Value: the value the text
/// denotes, or an error where the text is not JSON.  Its objects are maps, so
/// no key occurs twice in one.
#[verifier::external_body]
fn parse_text(text: &str) -> (r: Option<Json>)
    ensures
        match r {
            Some(j) => json_parse(text@) == Some(j@) && wf(j@),
            None => json_parse(text@) is None,
        },
{
    serde_json::from_str::<serde_json::Value>(text).ok().map(from_outside)
}

/// Relies on serde_json::to_string of a serde_json::Value, which cannot
/// fail: its map keys are strings.
#[verifier::external_body]
fn print_text(v: &Json) -> (r: String)
    ensures
        r@ == json_text(v@),
{
    serde_json::to_string(&to_outside(v)).unwrap_or_default()
}

/// Converts a serde_json::Value into a `Json`, variant by variant.
#[verifier::external_body]
fn from_outside(v: serde_json::Value) -> Json {
    match v {
        serde_json::Value::Null => Json::Null,
        serde_json::Value::Bool(b) => Json::Bool(b),
        serde_json::Value::Number(n) => Json::Number(n.to_string()),
        serde_json::Value::String(s) => Json::Str(s),
        serde_json::Value::Array(a) => Json::Array(a.into_iter().map(from_outside).collect()),
        serde_json::Value::Object(m) => Json::Object(
            m.into_iter().map(|(k, x)| (k, from_outside(x))).collect(),
        ),
    }
}

/// Converts a `Json` into a serde_json::Value, variant by variant; number
/// text that serde_json::Number does not read becomes null.
#[verifier::external_body]
fn to_outside(v: &Json) -> serde_json::Value {
    match v {
        Json::Null => serde_json::Value::Null,
        Json::Bool(b) => serde_json::Value::Bool(*b),
        Json::Number(n) => n.parse::<serde_json::Number>().map_or(serde_json::Value::Null, serde_json::Value::Number),
        Json::Str(s) => serde_json::Value::String(s.clone()),
        Json::Array(a) => serde_json::Value::Array(a.iter().map(to_outside).collect()),
        Json::Object(m) => serde_json::Value::Object(
            m.iter().map(|(k, x)| (k.clone(), to_outside(x))).collect(),
        ),
    }
}

impl Json {
    /// Reads a value from its JSON text; `None` where the text is not JSON.
    pub fn parse(text: &str) -> (r: Option<Json>)
        ensures
            match r {
                Some(j) => json_parse(text@) == Some(j@) && wf(j@),
                None => json_parse(text@) is None,
            },
    {
        parse_text(text)
    }

    /// The compact JSON text of the value.
    pub fn to_text(&self) -> (r: String)
        ensures
            r@ == json_text(self@),
    {
        print_text(self)
    }
}

} // verus!
