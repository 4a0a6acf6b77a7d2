//! The JSON document of a store, kept as a `jsondata::Json` and reached through
//! the few operations that a store needs.
//!
//! Nothing in this file is proved: each function hands its work to `jsondata`, and
//! its contract states what the source of that crate shows.

use vstd::prelude::*;
use jsondata::Json;
use jsondata::Property;
use crate::text::decimal;
use crate::text::texts;

verus! {

/// `jsondata::Json`, a JSON value. Nothing inside it is visible to the proofs; what
/// they know of a value they know through the names below.
#[verifier::external_type_specification]
#[verifier::external_body]
pub struct ExJson(Json);

/// The JSON text that `Display` prints for a value.
pub uninterp spec fn json_text(value: Json) -> Seq<char>;

/// The properties that a value holds: for an object, each key with the text of its
/// value, where the last of several properties with one key counts and a property
/// whose value is the error marker is left out; nothing for any other value.
pub uninterp spec fn json_members(value: Json) -> Map<Seq<char>, Seq<char>>;

/// Whether a value is an object whose keys stand in strictly increasing order: the
/// form in which `jsondata` builds and parses objects and finds a key by bisection.
pub uninterp spec fn json_keyed(value: Json) -> bool;

/// Whether a value is the error marker that failed `jsondata` operators hand back
/// in place of a value.
pub uninterp spec fn json_is_error(value: Json) -> bool;

/// `Json::new` on an empty list of properties: an object without properties.
#[verifier::external_body]
pub(crate) fn empty_object() -> (doc: Json)
    ensures
        json_keyed(doc),
        forall|key: Seq<char>| !json_members(doc).contains_key(key),
{
    Json::new(Vec::<Property>::new())
}

/// `Json::to_object` and `Json::from` on the properties it gives: for an object,
/// the object rebuilt property by property, which puts the keys in order and lets
/// the last of several properties with one key stand; `None` for any other value,
/// which holds no properties.
#[verifier::external_body]
pub(crate) fn as_object(value: Json) -> (doc: Option<Json>)
    ensures
        doc matches Some(object) ==> json_keyed(object) && json_members(object) == json_members(
            value,
        ),
        doc is None ==> forall|key: Seq<char>| !json_members(value).contains_key(key),
{
    value.to_object().map(Json::from)
}

/// `Json::get` with the JSON pointer that `jptr::quote` makes of the key: the value
/// of the property with that key, found by bisection, or `None` where the object
/// has no such property or its value is the error marker.
#[verifier::external_body]
pub(crate) fn member(doc: &Json, key: &str) -> (found: Option<Json>)
    requires
        json_keyed(*doc),
    ensures
        found is Some <==> json_members(*doc).contains_key(key@),
        found matches Some(value) ==> json_text(value) == json_members(*doc)[key@]
            && !json_is_error(value),
{
    doc.get(&format!("/{}", jsondata::jptr::quote(key))).ok()
}

/// `Json::set` with the JSON pointer that `jptr::quote` makes of the key: the
/// property with that key gets the value, in place where the object has the key
/// and at the place that keeps the keys in order where it has not.
#[verifier::external_body]
pub(crate) fn put_member(doc: &mut Json, key: &str, value: Json)
    requires
        json_keyed(*old(doc)),
        !json_is_error(value),
    ensures
        json_keyed(*final(doc)),
        json_members(*final(doc)) == json_members(*old(doc)).insert(key@, json_text(value)),
{
    let _ = doc.set(&format!("/{}", jsondata::jptr::quote(key)), value);
}

/// `to_string` of a value, which goes through its `Display`.
#[verifier::external_body]
pub(crate) fn render(value: &Json) -> (text: String)
    ensures
        text@ == json_text(*value),
{
    value.to_string()
}

/// `Json::is_error`.
#[verifier::external_body]
pub(crate) fn is_error(value: &Json) -> (error: bool)
    ensures
        error == json_is_error(*value),
{
    value.is_error()
}

/// The JSON text of the array of the given strings.
pub uninterp spec fn json_strings(items: Seq<Seq<char>>) -> Seq<char>;

/// `Json::new` on an integer, which `Display` prints in decimal.
#[verifier::external_body]
pub(crate) fn integer(number: i128) -> (value: Json)
    ensures
        json_text(value) == decimal(number as int),
        !json_is_error(value),
{
    Json::new(number)
}

/// `Json::new` on a list of strings: the array of those strings.
#[verifier::external_body]
pub(crate) fn string_array(items: &Vec<String>) -> (value: Json)
    ensures
        json_text(value) == json_strings(texts(items@)),
        !json_is_error(value),
{
    Json::new(items.clone())
}

} // verus!
