//! The `serde_json` values that raw records arrive as, and what is assumed of them.
//!
//! A document is opaque to the verifier. Its content is given a mathematical
//! model, [`Json`], and each accessor below is trusted to return what the model
//! says. Nothing in this file is proved.

use vstd::prelude::*;

verus! {

/// `serde_json::Value`, a JSON document. Nothing of its inside is assumed.
#[verifier::external_type_specification]
#[verifier::external_body]
pub struct ExValue(serde_json::Value);

/// `serde_json::Map`, the members of a JSON object. Nothing of its inside is
/// assumed.
#[verifier::external_type_specification]
#[verifier::external_body]
#[verifier::reject_recursive_types(K)]
#[verifier::reject_recursive_types(V)]
pub struct ExMap<K, V>(serde_json::Map<K, V>);

/// The content of a JSON document, as far as records are read.
pub enum Json {
    Null,
    Text(Seq<char>),
    /// The members of an object, in the order in which the object is walked.
    Object(Seq<(Seq<char>, Json)>),
    /// A boolean, a number or an array.
    Other,
}

/// The value of the first member named `key`, `Null` if there is none.
pub open spec fn lookup(members: Seq<(Seq<char>, Json)>, key: Seq<char>) -> Json
    decreases members.len(),
{
    if members.len() == 0 {
        Json::Null
    } else if members[0].0 == key {
        members[0].1
    } else {
        lookup(members.drop_first(), key)
    }
}

impl Json {
    /// The member named `key` of an object; `Null` if there is none or this is
    /// no object.
    pub open spec fn member(self, key: Seq<char>) -> Json {
        match self {
            Json::Object(members) => lookup(members, key),
            _ => Json::Null,
        }
    }

    /// The characters of a string; `None` for anything else.
    pub open spec fn text(self) -> Option<Seq<char>> {
        match self {
            Json::Text(s) => Some(s),
            _ => None,
        }
    }

    /// The members of an object; `None` for anything else.
    pub open spec fn members(self) -> Option<Seq<(Seq<char>, Json)>> {
        match self {
            Json::Object(members) => Some(members),
            _ => None,
        }
    }
}

/// The content of a document: `Null` for null, the characters of a string, the
/// members of an object with the content of each, and `Other` for the rest.
pub uninterp spec fn json_of(value: serde_json::Value) -> Json;

/// The members of an object's map, each with its key and the content of its
/// value, in the order in which `Map::iter` yields them.
pub uninterp spec fn members_of(map: serde_json::Map<String, serde_json::Value>) -> Seq<
    (Seq<char>, Json),
>;

/// `Value`'s indexing by a string key. Assumed: it yields the member of that
/// name where the value is an object that has one, and a null value otherwise;
/// it does not panic.
#[verifier::external_body]
pub(crate) fn member<'a>(value: &'a serde_json::Value, key: &str) -> (r: &'a serde_json::Value)
    ensures
        json_of(*r) == json_of(*value).member(key@),
{
    &value[key]
}

/// `Value::as_str`. Assumed: it yields the string of a string value, and
/// `None` for every other value.
#[verifier::external_body]
pub(crate) fn text<'a>(value: &'a serde_json::Value) -> (r: Option<&'a str>)
    ensures
        match r {
            Some(s) => json_of(*value).text() == Some(s@),
            None => json_of(*value).text() is None,
        },
{
    value.as_str()
}

/// `Value::as_object`. Assumed: it yields the map of an object, and `None` for
/// every other value.
#[verifier::external_body]
pub(crate) fn object<'a>(value: &'a serde_json::Value) -> (r: Option<
    &'a serde_json::Map<String, serde_json::Value>,
>)
    ensures
        match r {
            Some(map) => json_of(*value).members() == Some(members_of(*map)),
            None => json_of(*value).members() is None,
        },
{
    value.as_object()
}

/// `Map::iter`, collected. Assumed: it yields every member once, key and
/// value, in the map's own order.
#[verifier::external_body]
pub(crate) fn members<'a>(map: &'a serde_json::Map<String, serde_json::Value>) -> (r: Vec<
    (&'a String, &'a serde_json::Value),
>)
    ensures
        r@.len() == members_of(*map).len(),
        forall|i: int|
            0 <= i < r@.len() ==> (#[trigger] r@[i]).0@ == members_of(*map)[i].0 && json_of(
                *r@[i].1,
            ) == members_of(*map)[i].1,
{
    map.iter().collect()
}

} // verus!
