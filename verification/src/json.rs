//! JSON values as trees.

use crate::map::TextMap;
use vstd::prelude::*;

verus! {

/// A JSON value. The fields of an object are listed in ascending key order.
#[derive(Debug)]
pub enum Json {
    Null,
    Bool(bool),
    Number(u64),
    Text(String),
    List(Vec<Json>),
    Object(TextMap<Json>),
}

impl Json {
    /// The text of a JSON string.
    pub open spec fn text_view(&self) -> Option<Seq<char>> {
        match *self {
            Json::Text(text) => Some(text@),
            _ => None,
        }
    }

    /// The elements of a JSON array.
    pub open spec fn list_view(&self) -> Option<Seq<Json>> {
        match *self {
            Json::List(elements) => Some(elements@),
            _ => None,
        }
    }

    /// The fields of a JSON object.
    pub open spec fn object_view(&self) -> Option<Map<Seq<char>, Json>> {
        match *self {
            Json::Object(fields) => Some(fields@),
            _ => None,
        }
    }

    pub fn as_str(&self) -> (text: Option<&str>)
        ensures
            text is Some <==> self.text_view() is Some,
            text matches Some(text) ==> self.text_view() == Some(text@),
    {
        match self {
            Json::Text(text) => Some(text.as_str()),
            _ => None,
        }
    }

    pub fn as_array(&self) -> (elements: Option<&Vec<Json>>)
        ensures
            elements is Some <==> self.list_view() is Some,
            elements matches Some(elements) ==> self.list_view() == Some(elements@),
    {
        match self {
            Json::List(elements) => Some(elements),
            _ => None,
        }
    }

    pub fn as_object(&self) -> (fields: Option<&TextMap<Json>>)
        ensures
            fields is Some <==> self.object_view() is Some,
            fields matches Some(fields) ==> self.object_view() == Some(fields@),
    {
        match self {
            Json::Object(fields) => Some(fields),
            _ => None,
        }
    }
}

/// The text of the field `key`, if it is a string.
pub open spec fn text_at(fields: Map<Seq<char>, Json>, key: Seq<char>) -> Option<Seq<char>> {
    if fields.contains_key(key) {
        fields[key].text_view()
    } else {
        None
    }
}

/// The elements of the field `key`, if it is an array.
pub open spec fn list_at(fields: Map<Seq<char>, Json>, key: Seq<char>) -> Option<Seq<Json>> {
    if fields.contains_key(key) {
        fields[key].list_view()
    } else {
        None
    }
}

/// The fields of the field `key`, if it is an object.
pub open spec fn object_at(fields: Map<Seq<char>, Json>, key: Seq<char>) -> Option<
    Map<Seq<char>, Json>,
> {
    if fields.contains_key(key) {
        fields[key].object_view()
    } else {
        None
    }
}

pub fn get_text<'a>(fields: &'a TextMap<Json>, key: &str) -> (text: Option<&'a str>)
    ensures
        text is Some <==> text_at(fields@, key@) is Some,
        text matches Some(text) ==> text_at(fields@, key@) == Some(text@),
{
    match fields.get(key) {
        Some(value) => value.as_str(),
        None => None,
    }
}

pub fn get_list<'a>(fields: &'a TextMap<Json>, key: &str) -> (elements: Option<&'a Vec<Json>>)
    ensures
        elements is Some <==> list_at(fields@, key@) is Some,
        elements matches Some(elements) ==> list_at(fields@, key@) == Some(elements@),
{
    match fields.get(key) {
        Some(value) => value.as_array(),
        None => None,
    }
}

pub fn get_object<'a>(fields: &'a TextMap<Json>, key: &str) -> (found: Option<&'a TextMap<Json>>)
    ensures
        found is Some <==> object_at(fields@, key@) is Some,
        found matches Some(found) ==> object_at(fields@, key@) == Some(found@),
{
    match fields.get(key) {
        Some(value) => value.as_object(),
        None => None,
    }
}

} // verus!
