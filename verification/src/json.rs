//! JSON documents, read with `serde_json`.
//!
//! What a document holds is modelled by [`Json`]. Numbers carry nothing in
//! the model: no rule of the board looks at one.

use serde_json::Value;
use vstd::prelude::*;

verus! {

/// What a JSON value holds.
pub enum Json {
    Null,
    Bool(bool),
    Number,
    Text(Seq<char>),
    Array(Seq<Json>),
    Object(Map<Seq<char>, Json>),
}

impl Json {
    /// The member `key` of an object; `None` for a missing key and for
    /// anything that is no object.
    pub open spec fn member(self, key: Seq<char>) -> Option<Json> {
        match self {
            Json::Object(members) => if members.contains_key(key) {
                Some(members[key])
            } else {
                None
            },
            _ => None,
        }
    }

    /// The text of a string.
    pub open spec fn as_text(self) -> Option<Seq<char>> {
        match self {
            Json::Text(text) => Some(text),
            _ => None,
        }
    }

    /// The truth value of a boolean.
    pub open spec fn as_truth(self) -> Option<bool> {
        match self {
            Json::Bool(b) => Some(b),
            _ => None,
        }
    }

    /// The items of an array.
    pub open spec fn as_items(self) -> Option<Seq<Json>> {
        match self {
            Json::Array(items) => Some(items),
            _ => None,
        }
    }

    /// The text of the member `key`, if there is one and it is a string.
    pub open spec fn text_member(self, key: Seq<char>) -> Option<Seq<char>> {
        match self.member(key) {
            Some(v) => v.as_text(),
            None => None,
        }
    }

    /// The truth value of the member `key`, if there is one and it is a
    /// boolean.
    pub open spec fn truth_member(self, key: Seq<char>) -> Option<bool> {
        match self.member(key) {
            Some(v) => v.as_truth(),
            None => None,
        }
    }
}

/// The text that an optional string holds.
pub open spec fn text_of(s: Option<String>) -> Option<Seq<char>> {
    match s {
        Some(s) => Some(s@),
        None => None,
    }
}

/// `serde_json::Value`, the outside crate's own tree of a document.
#[verifier::external_type_specification]
#[verifier::external_body]
pub struct ExValue(Value);

/// What a `serde_json::Value` holds.
pub uninterp spec fn held(v: Value) -> Json;

/// What `serde_json::from_str` makes of a text: the document, or the message
/// of the error.
pub uninterp spec fn parsed_text(text: Seq<char>) -> Result<Json, Seq<char>>;

/// What `serde_json::from_slice` makes of a text in bytes; `None` for an
/// error.
pub uninterp spec fn parsed_bytes(bytes: Seq<u8>) -> Option<Json>;

/// Calls `serde_json::from_str` and turns its error into the message that the
/// error displays. Claimed: document and message depend on the text alone.
#[verifier::external_body]
pub(crate) fn parse_text(text: &str) -> (r: Result<Value, String>)
    ensures
        match r {
            Ok(v) => parsed_text(text@) == Ok::<Json, Seq<char>>(held(v)),
            Err(message) => parsed_text(text@) == Err::<Json, Seq<char>>(message@),
        },
{
    match serde_json::from_str::<Value>(text) {
        Ok(v) => Ok(v),
        Err(e) => Err(e.to_string()),
    }
}

/// Calls `serde_json::from_slice` and drops its error. Claimed: the document,
/// and whether there is one, depend on the bytes alone.
#[verifier::external_body]
pub(crate) fn parse_bytes(bytes: &[u8]) -> (r: Option<Value>)
    ensures
        match r {
            Some(v) => parsed_bytes(bytes@) == Some(held(v)),
            None => parsed_bytes(bytes@) is None,
        },
{
    serde_json::from_slice::<Value>(bytes).ok()
}

/// Calls `serde_json::Value::get` with a string. Claimed: it gives the member
/// of that name of an object, and nothing where the name is missing or the
/// value is no object.
#[verifier::external_body]
pub(crate) fn get<'a>(v: &'a Value, key: &str) -> (r: Option<&'a Value>)
    ensures
        match r {
            Some(m) => held(*v).member(key@) == Some(held(*m)),
            None => held(*v).member(key@) is None,
        },
{
    v.get(key)
}

/// Indexes a `serde_json::Value` by a string. Claimed: it gives the member of
/// that name of an object, and null where the name is missing or the value is
/// no object.
#[verifier::external_body]
pub(crate) fn at<'a>(v: &'a Value, key: &str) -> (r: &'a Value)
    ensures
        held(*r) == match held(*v).member(key@) {
            Some(m) => m,
            None => Json::Null,
        },
{
    &v[key]
}

/// Claimed of `serde_json::Value::as_str`: it gives the text of a string, and
/// nothing for another value.
pub assume_specification[ Value::as_str ](v: &Value) -> (r: Option<&str>)
    ensures
        match r {
            Some(s) => held(*v).as_text() == Some(s@),
            None => held(*v).as_text() is None,
        },
;

/// Claimed of `serde_json::Value::as_bool`: it gives the truth value of a
/// boolean, and nothing for another value.
pub assume_specification[ Value::as_bool ](v: &Value) -> (r: Option<bool>)
    ensures
        r == held(*v).as_truth(),
;

/// Claimed of `serde_json::Value::as_array`: it gives the items of an array in
/// their order, and nothing for another value.
pub assume_specification[ Value::as_array ](v: &Value) -> (r: Option<&Vec<Value>>)
    ensures
        match r {
            Some(items) => held(*v).as_items() == Some(items@.map_values(|i: Value| held(i))),
            None => held(*v).as_items() is None,
        },
;

/// The text of the member `key` of `v`.
pub fn text_at(v: &Value, key: &str) -> (r: Option<String>)
    ensures
        text_of(r) == held(*v).text_member(key@),
{
    match get(v, key) {
        Some(m) => match m.as_str() {
            Some(s) => Some(s.to_owned()),
            None => None,
        },
        None => None,
    }
}

/// The truth value of the member `key` of `v`.
pub fn truth_at(v: &Value, key: &str) -> (r: Option<bool>)
    ensures
        r == held(*v).truth_member(key@),
{
    match get(v, key) {
        Some(m) => m.as_bool(),
        None => None,
    }
}

/// Law: what a member of an object gives is what stands under its name, if it
/// is of the type asked for; anything but an object has no members.
pub proof fn law_members(doc: Json, members: Map<Seq<char>, Json>, key: Seq<char>, t: Seq<char>, b: bool)
    ensures
        doc == Json::Object(members) && members.contains_key(key) ==> {
            &&& doc.member(key) == Some(members[key])
            &&& members[key] == Json::Text(t) ==> doc.text_member(key) == Some(t)
            &&& members[key] == Json::Bool(b) ==> doc.truth_member(key) == Some(b)
            &&& !(members[key] is Text) ==> doc.text_member(key) is None
            &&& !(members[key] is Bool) ==> doc.truth_member(key) is None
        },
        doc == Json::Object(members) && !members.contains_key(key) ==> {
            &&& doc.member(key) is None
            &&& doc.text_member(key) is None
            &&& doc.truth_member(key) is None
        },
        !(doc is Object) ==> {
            &&& doc.member(key) is None
            &&& doc.text_member(key) is None
            &&& doc.truth_member(key) is None
        },
{
}

} // verus!
