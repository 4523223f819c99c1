//! The calls that leave this crate. Nothing here is proved: each contract
//! says what the called function is known to do, and no more.

use vstd::prelude::*;
use crate::editors::json::{
    JsonObject, JsonValue, JsonValueView, ParsedJson, ParsedJsonView, RawJson,
};
use crate::settings::text_result;

verus! {

/// `serde_json::Value`: any JSON value. This crate carries such values
/// through and never looks inside one.
#[verifier::external_type_specification]
#[verifier::external_body]
pub struct ExValue(serde_json::Value);

/// What `text` holds as JSON: the members of an object, in the order in
/// which the parser hands them out; or a document that is no object; or no
/// document at all.
pub uninterp spec fn parsed_document(text: Seq<char>) -> ParsedJsonView;

/// `serde_json::from_str` at `serde_json::Value`: the JSON document that
/// `text` holds. An object comes back as its members, each string among
/// their values as its text and every other value as it is. Any other
/// document comes back as `Other`, and text that the parser refuses as
/// `Invalid`.
#[verifier::external_body]
pub(crate) fn parse_document(text: &str) -> (r: ParsedJson)
    ensures
        r@ == parsed_document(text@),
{
    let member = |(key, value)| match value {
        serde_json::Value::String(text) => (key, JsonValue::Text(text)),
        other => (key, JsonValue::Other(RawJson { value: other })),
    };
    match serde_json::from_str::<serde_json::Value>(text) {
        Ok(serde_json::Value::Object(map)) => ParsedJson::Object(
            JsonObject { members: map.into_iter().map(member).collect() },
        ),
        Ok(_) => ParsedJson::Other,
        Err(_) => ParsedJson::Invalid,
    }
}

/// The pretty-printed JSON text of the object with the given members, or
/// the message of the error that printing ends with.
pub uninterp spec fn rendered_object(members: Seq<(Seq<char>, JsonValueView)>) -> Result<
    Seq<char>,
    Seq<char>,
>;

/// `serde_json::to_string_pretty` at `serde_json::Map`: the pretty-printed
/// text of the object that holds the members of `object`, or the error's
/// message.
#[verifier::external_body]
pub(crate) fn render_object(object: &JsonObject) -> (r: Result<String, String>)
    ensures
        text_result(r) == rendered_object(object@),
{
    let pair = |m: &(String, JsonValue)| match &m.1 {
        JsonValue::Text(text) => (m.0.clone(), serde_json::Value::String(text.clone())),
        JsonValue::Other(raw) => (m.0.clone(), raw.value.clone()),
    };
    let map: serde_json::Map<String, serde_json::Value> = object.members.iter().map(pair).collect();
    serde_json::to_string_pretty(&map).map_err(|e| e.to_string())
}

/// `String::push`: the string with the character `ch` appended to its end.
pub assume_specification[ String::push ](s: &mut String, ch: char)
    ensures
        final(s)@ == old(s)@.push(ch),
;

/// `text` in lower case, as Unicode defines it.
pub uninterp spec fn lowercased(text: Seq<char>) -> Seq<char>;

/// `str::to_lowercase`: the lower-case form of `text`. Unicode has pages
/// of rules for it, so the result has a name and nothing else is said.
#[verifier::external_body]
pub(crate) fn lowercase(text: &str) -> (r: String)
    ensures
        r@ == lowercased(text@),
{
    text.to_lowercase()
}

/// `dirs::home_dir`: the user's home directory, where the platform knows
/// one. The answer depends on the environment, so nothing is said of it.
#[verifier::external_body]
pub(crate) fn home_dir() -> (dir: Option<String>) {
    dirs::home_dir().map(|p| p.to_string_lossy().into_owned())
}

/// `dirs::config_dir`: the user's configuration directory, where the
/// platform knows one. The answer depends on the environment, so nothing is
/// said of it.
#[verifier::external_body]
pub(crate) fn config_dir() -> (dir: Option<String>) {
    dirs::config_dir().map(|p| p.to_string_lossy().into_owned())
}

/// `dirs::data_local_dir`: the user's local data directory, where the
/// platform knows one. The answer depends on the environment, so nothing is
/// said of it.
#[verifier::external_body]
pub(crate) fn data_local_dir() -> (dir: Option<String>) {
    dirs::data_local_dir().map(|p| p.to_string_lossy().into_owned())
}

} // verus!
