use vstd::prelude::*;

verus! {

/// The shape of a parsed JSON document, as the contracts of this crate speak
/// of it. Numbers carry no payload: nothing in this library reads a numeric
/// value, and committing to one representation would claim more than the
/// callers need.
pub enum JsonModel {
    Null,
    Bool(bool),
    Num,
    Str(Seq<char>),
    Arr(Seq<JsonModel>),
    Obj(Map<Seq<char>, JsonModel>),
}

#[verifier::external_type_specification]
#[verifier::external_body]
pub struct ExValue(serde_json::Value);

/// What serde_json's parser makes of a byte string: `None` when the bytes are
/// not one valid JSON document, otherwise the shape of the parsed document.
/// The parse is a function of the bytes alone.
pub uninterp spec fn json_doc(s: Seq<u8>) -> Option<JsonModel>;

/// The shape of the document held by a `serde_json::Value`. The wrappers
/// below all speak of the held document through this function.
pub uninterp spec fn value_model(v: serde_json::Value) -> JsonModel;

/// Relies on `serde_json::from_slice::<Value>`: parses the bytes as a single
/// JSON document, returning an error when they are not one.
#[verifier::external_body]
pub(crate) fn parse_document(s: &[u8]) -> (r: Option<serde_json::Value>)
    ensures
        r is Some <==> json_doc(s@) is Some,
        r matches Some(v) ==> value_model(v) == json_doc(s@)->0,
{
    serde_json::from_slice::<serde_json::Value>(s).ok()
}

/// Relies on `serde_json::Value::get` with a string index: on an object it
/// looks the key up, on every other value it returns `None`.
#[verifier::external_body]
pub(crate) fn get_field<'a>(v: &'a serde_json::Value, key: &str) -> (r: Option<
    &'a serde_json::Value,
>)
    ensures
        match value_model(*v) {
            JsonModel::Obj(fields) => {
                &&& r is Some <==> fields.contains_key(key@)
                &&& r matches Some(f) ==> fields.contains_key(key@) && value_model(*f)
                    == fields[key@]
            },
            _ => r is None,
        },
{
    v.get(key)
}

/// Relies on `serde_json::Value::get` with a `usize` index: on an array it
/// returns the element at that position, on every other value `None`.
#[verifier::external_body]
pub(crate) fn get_element<'a>(v: &'a serde_json::Value, i: usize) -> (r: Option<
    &'a serde_json::Value,
>)
    ensures
        match value_model(*v) {
            JsonModel::Arr(elems) => {
                &&& r is Some <==> i < elems.len()
                &&& r matches Some(e) ==> i < elems.len() && value_model(*e) == elems[i as int]
            },
            _ => r is None,
        },
{
    v.get(i)
}

/// Relies on `serde_json::Value::as_str`: `Some` exactly on a JSON string.
#[verifier::external_body]
pub(crate) fn as_text<'a>(v: &'a serde_json::Value) -> (r: Option<&'a str>)
    ensures
        match value_model(*v) {
            JsonModel::Str(s) => r matches Some(t) && t@ == s,
            _ => r is None,
        },
{
    v.as_str()
}

/// Relies on `serde_json::Value::is_object`.
#[verifier::external_body]
pub(crate) fn is_object(v: &serde_json::Value) -> (r: bool)
    ensures
        r <==> value_model(*v) is Obj,
{
    v.is_object()
}

/// Relies on `serde_json::Value::is_null`.
#[verifier::external_body]
pub(crate) fn is_null(v: &serde_json::Value) -> (r: bool)
    ensures
        r <==> value_model(*v) is Null,
{
    v.is_null()
}

} // verus!
