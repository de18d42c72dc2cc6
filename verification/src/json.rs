//! What the library reads of a JSON request.

use vstd::prelude::*;

verus! {

/// A JSON value, as `serde_json` holds it.
#[verifier::external_type_specification]
#[verifier::external_body]
pub struct ExValue(serde_json::Value);

/// The members of a JSON object by key; empty for a value that is no object.
pub uninterp spec fn json_members(value: serde_json::Value) -> Map<Seq<char>, serde_json::Value>;

/// The text of a JSON string; absent for any other value.
pub uninterp spec fn json_text(value: serde_json::Value) -> Option<Seq<char>>;

/// The truth value of a JSON boolean; absent for any other value.
pub uninterp spec fn json_flag(value: serde_json::Value) -> Option<bool>;

/// `serde_json::Value::get` with a text key: the member of that key, where `value` is an object that
/// has one, and `None` otherwise.
#[verifier::external_body]
pub(crate) fn member<'v>(value: &'v serde_json::Value, key: &str) -> (result: Option<
    &'v serde_json::Value,
>)
    ensures
        result is Some <==> json_members(*value).contains_key(key@),
        result matches Some(found) ==> *found == json_members(*value)[key@],
{
    value.get(key)
}

/// `serde_json::Value::as_str`: the text of a JSON string, and `None` for any other value.
#[verifier::external_body]
pub(crate) fn text_of(value: &serde_json::Value) -> (result: Option<&str>)
    ensures
        crate::text::optional_view(result) == json_text(*value),
        result is Some ==> json_flag(*value) is None,
{
    value.as_str()
}

/// `serde_json::Value::as_bool`: the truth value of a JSON boolean, and `None` for any other value.
#[verifier::external_body]
pub(crate) fn flag_of(value: &serde_json::Value) -> (result: Option<bool>)
    ensures
        result == json_flag(*value),
        result is Some ==> json_text(*value) is None,
{
    value.as_bool()
}

} // verus!
