//! Objects of texts, numbers and flags as JSON, by the `serde_json` crate.

use vstd::prelude::*;

verus! {

/// A value of a field.
#[verifier::ext_equal]
pub enum FieldView {
    Text(Seq<char>),
    Number(u64),
    Flag(bool),
}

/// `serde_json::Value`, an opaque JSON value.
#[verifier::external_type_specification]
#[verifier::external_body]
pub struct ExValue(serde_json::Value);

/// `serde_json::Map`, the fields of an object by name.
#[verifier::external_type_specification]
#[verifier::external_body]
#[verifier::reject_recursive_types(K)]
#[verifier::reject_recursive_types(V)]
pub struct ExFields<K, V>(serde_json::Map<K, V>);

/// What the fields of an object are.
pub uninterp spec fn object_fields(object: serde_json::Map<String, serde_json::Value>) -> Map<
    Seq<char>,
    FieldView,
>;

/// No fields.
pub open spec fn no_fields() -> Map<Seq<char>, FieldView> {
    Map::empty()
}

/// The JSON text of an object with the given fields.
pub uninterp spec fn json_text(fields: Map<Seq<char>, FieldView>) -> Seq<char>;

/// `serde_json::Map::new`: no fields.
#[verifier::external_body]
pub(crate) fn object_new() -> (object: serde_json::Map<String, serde_json::Value>)
    ensures
        object_fields(object) == no_fields(),
{
    serde_json::Map::new()
}

/// `serde_json::Map::insert` of a text: one more field, or another value for it.
#[verifier::external_body]
pub(crate) fn object_put_text(
    object: &mut serde_json::Map<String, serde_json::Value>,
    name: &str,
    value: &str,
)
    ensures
        object_fields(*final(object)) == object_fields(*old(object)).insert(
            name@,
            FieldView::Text(value@),
        ),
{
    object.insert(name.to_string(), serde_json::Value::String(value.to_string()));
}

/// `serde_json::Map::insert` of a number: one more field, or another value for it.
#[verifier::external_body]
pub(crate) fn object_put_number(
    object: &mut serde_json::Map<String, serde_json::Value>,
    name: &str,
    value: u64,
)
    ensures
        object_fields(*final(object)) == object_fields(*old(object)).insert(
            name@,
            FieldView::Number(value),
        ),
{
    object.insert(name.to_string(), serde_json::Value::Number(value.into()));
}

/// `serde_json::Map::insert` of a flag: one more field, or another value for it.
#[verifier::external_body]
pub(crate) fn object_put_flag(
    object: &mut serde_json::Map<String, serde_json::Value>,
    name: &str,
    value: bool,
)
    ensures
        object_fields(*final(object)) == object_fields(*old(object)).insert(
            name@,
            FieldView::Flag(value),
        ),
{
    object.insert(name.to_string(), serde_json::Value::Bool(value));
}

/// `serde_json::Value` shown as text: the JSON text of an object is a matter of
/// its fields alone.
#[verifier::external_body]
pub(crate) fn object_text(object: serde_json::Map<String, serde_json::Value>) -> (out: String)
    ensures
        out@ == json_text(object_fields(object)),
{
    serde_json::Value::Object(object).to_string()
}

} // verus!
