use vstd::prelude::*;

verus! {

/// A JSON value as the library reads it: strings, arrays and objects (entries
/// in the order of the parsed object); every other value (null, booleans,
/// numbers) is `Other`.
#[derive(Debug, PartialEq, Eq)]
pub enum JsonItem {
    Str(String),
    Array(Vec<JsonItem>),
    Object(Vec<(String, JsonItem)>),
    Other,
}

/// The `serde_json` value type, carried opaquely from the parser to the
/// conversion into `JsonItem`.
#[verifier::external_type_specification]
#[verifier::external_body]
pub struct ExJsonValue(serde_json::Value);

/// The JSON value a text holds, as read by `serde_json::from_str` into a
/// `serde_json::Value` and converted into a `JsonItem`; `None` when the text
/// is not JSON.
pub uninterp spec fn parsed_json(text: Seq<char>) -> Option<JsonItem>;

/// Converts a `serde_json::Value` into a `JsonItem`, variant by variant:
/// strings, arrays and objects keep their contents (converted the same way),
/// all other values become `Other`. Nothing is stated of the result: it is
/// only used by `parse_json`, whose result is named.
#[verifier::external_body]
fn json_item_of(v: serde_json::Value) -> JsonItem {
    match v {
        serde_json::Value::String(s) => JsonItem::Str(s),
        serde_json::Value::Array(items) => JsonItem::Array(items.into_iter().map(json_item_of).collect()),
        serde_json::Value::Object(m) => JsonItem::Object(m.into_iter().map(|(k, x)| (k, json_item_of(x))).collect()),
        _ => JsonItem::Other,
    }
}

/// Parses JSON text with `serde_json::from_str` (into a `serde_json::Value`,
/// converted by `json_item_of`). The contract ties the result to the text
/// through the name `parsed_json` only: the JSON grammar is not restated.
#[verifier::external_body]
pub fn parse_json(text: &str) -> (r: Option<JsonItem>)
    ensures
        r == parsed_json(text@),
{
    serde_json::from_str::<serde_json::Value>(text).ok().map(json_item_of)
}

} // verus!
