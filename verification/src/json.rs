//! Trusted interface to `serde_json` for building and pretty-printing the
//! ARB object. The crate is built with its `preserve_order` feature, so a
//! `serde_json::Map` keeps entries in insertion order (an index map); its
//! contents are modeled as an ordered sequence of key/value pairs.

use vstd::prelude::*;

verus! {

/// The mathematical shape of the JSON values the emitter builds: strings and
/// objects (an object is its ordered entry list).
#[verifier::ext_equal]
pub enum JsonModel {
    Str(Seq<char>),
    Obj(Seq<(Seq<char>, JsonModel)>),
}

#[verifier::external_type_specification]
#[verifier::external_body]
pub struct ExJsonValue(serde_json::Value);

#[verifier::external_type_specification]
#[verifier::external_body]
#[verifier::reject_recursive_types(K)]
#[verifier::reject_recursive_types(V)]
pub struct ExJsonMap<K, V>(serde_json::Map<K, V>);

/// The shape of a `serde_json::Value`.
pub uninterp spec fn json_value_model(v: serde_json::Value) -> JsonModel;

/// The ordered entries of a `serde_json::Map`.
pub uninterp spec fn json_map_model(m: serde_json::Map<String, serde_json::Value>) -> Seq<
    (Seq<char>, JsonModel),
>;

/// The pretty-printed text of an object with the given ordered entries.
pub uninterp spec fn json_pretty(entries: Seq<(Seq<char>, JsonModel)>) -> Seq<char>;

/// Relies on `serde_json::Map::new`: the new map has no entries.
#[verifier::external_body]
pub(crate) fn json_map_new() -> (m: serde_json::Map<String, serde_json::Value>)
    ensures
        json_map_model(m) == Seq::<(Seq<char>, JsonModel)>::empty(),
{
    serde_json::Map::new()
}

/// Relies on `serde_json::Map::insert` with `preserve_order` (an index map):
/// a new key is appended at the end; an existing key keeps its place in the
/// order and its value is replaced.
#[verifier::external_body]
pub(crate) fn json_map_insert(
    m: &mut serde_json::Map<String, serde_json::Value>,
    key: String,
    value: serde_json::Value,
)
    ensures
        (forall|i: int|
            0 <= i < json_map_model(*old(m)).len() ==> json_map_model(*old(m))[i].0 != key@)
            ==> json_map_model(*final(m)) == json_map_model(*old(m)).push(
            (key@, json_value_model(value)),
        ),
        (exists|i: int|
            0 <= i < json_map_model(*old(m)).len() && json_map_model(*old(m))[i].0 == key@) ==> (
        exists|i: int|
            0 <= i < json_map_model(*old(m)).len() && json_map_model(*old(m))[i].0 == key@
                && json_map_model(*final(m)) == json_map_model(*old(m)).update(
                i,
                (key@, json_value_model(value)),
            )),
{
    m.insert(key, value);
}

/// Relies on `serde_json::Map::is_empty`.
#[verifier::external_body]
pub(crate) fn json_map_is_empty(m: &serde_json::Map<String, serde_json::Value>) -> (r: bool)
    ensures
        r == (json_map_model(*m).len() == 0),
{
    m.is_empty()
}

/// Relies on the `serde_json::Value::String` constructor.
#[verifier::external_body]
pub(crate) fn json_string(s: String) -> (v: serde_json::Value)
    ensures
        json_value_model(v) == JsonModel::Str(s@),
{
    serde_json::Value::String(s)
}

/// Relies on the `serde_json::Value::Object` constructor.
#[verifier::external_body]
pub(crate) fn json_object(m: serde_json::Map<String, serde_json::Value>) -> (v: serde_json::Value)
    ensures
        json_value_model(v) == JsonModel::Obj(json_map_model(m)),
{
    serde_json::Value::Object(m)
}

/// Relies on `serde_json::to_string_pretty`: the text is a function of the
/// map's entries alone, and serializing an object tree of strings and maps
/// with string keys does not fail.
#[verifier::external_body]
pub(crate) fn json_map_to_pretty(m: &serde_json::Map<String, serde_json::Value>) -> (r: String)
    ensures
        r@ == json_pretty(json_map_model(*m)),
{
    serde_json::to_string_pretty(m).unwrap()
}

} // verus!
