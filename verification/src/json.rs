//! JSON values as the library reads them: introspection results, query
//! responses and configured variables.

use crate::strings::str_eq;
use vstd::prelude::*;
use vstd::string::*;

verus! {

/// A JSON value.
#[derive(Debug, PartialEq, Eq)]
pub enum Json {
    Null,
    Bool(bool),
    /// A number that is a 64-bit signed integer.
    Integer(i64),
    /// Any other number, as the text that stands for it.
    Number(String),
    String(String),
    Array(Vec<Json>),
    /// The members of an object, each key once.
    Object(Vec<(String, Json)>),
}

/// `serde_json::Value`, which is carried from the parser to the conversion
/// as it is.
#[verifier::external_type_specification]
#[verifier::external_body]
pub struct ExValue(serde_json::Value);

/// The value that a JSON text stands for, where it is one.
pub uninterp spec fn json_of_text(text: Seq<char>) -> Option<Json>;

/// What a `serde_json::Value` holds.
pub uninterp spec fn value_content(value: serde_json::Value) -> Json;

/// Calls `serde_json::from_str` for a `serde_json::Value`, which parses a
/// JSON text and fails on a text that is no JSON. The contract only names
/// the result: it is a function of the text alone.
#[verifier::external_body]
fn parse_value(text: &str) -> (r: Option<serde_json::Value>)
    ensures
        json_of_text(text@) == (match r {
            Some(value) => Some(value_content(value)),
            None => None,
        }),
{
    match serde_json::from_str::<serde_json::Value>(text) {
        Ok(value) => Some(value),
        Err(_) => None,
    }
}

/// Converts a `serde_json::Value`, variant by variant. A number goes through
/// `Number::as_i64` and `Number::to_string`; the members of an object come
/// in the order in which its map hands them out. The contract only names
/// the result.
#[verifier::external_body]
fn convert_value(value: &serde_json::Value) -> (r: Json)
    ensures
        r == value_content(*value),
{
    match value {
        serde_json::Value::Null => Json::Null,
        serde_json::Value::Bool(b) => Json::Bool(*b),
        serde_json::Value::Number(n) => Json::number(n.as_i64(), n.to_string()),
        serde_json::Value::String(s) => Json::String(s.clone()),
        serde_json::Value::Array(a) => Json::Array(a.iter().map(convert_value).collect()),
        serde_json::Value::Object(m) => Json::Object(
            m.iter().map(|(k, v)| (k.clone(), convert_value(v))).collect(),
        ),
    }
}

/// The value of the first member with the given key.
pub open spec fn lookup(members: Seq<(String, Json)>, key: Seq<char>) -> Option<Json>
    decreases members.len(),
{
    if members.len() == 0 {
        None
    } else if members[0].0@ == key {
        Some(members[0].1)
    } else {
        lookup(members.drop_first(), key)
    }
}

/// What a lookup finds is one of the members.
pub proof fn lemma_lookup(members: Seq<(String, Json)>, key: Seq<char>)
    ensures
        lookup(members, key) matches Some(value) ==> exists|i: int|
            0 <= i < members.len() && (#[trigger] members[i]).1 == value && members[i].0@ == key,
    decreases members.len(),
{
    if members.len() > 0 && members[0].0@ != key {
        lemma_lookup(members.drop_first(), key);
        if lookup(members, key) is Some {
            let i = choose|i: int|
                0 <= i < members.drop_first().len() && (#[trigger] members.drop_first()[i]).1
                    == lookup(members, key)->0 && members.drop_first()[i].0@ == key;
            assert(members[i + 1] == members.drop_first()[i]);
        }
    }
}

impl Json {
    /// The member of an object under `key`; `None` for other values and
    /// where the object has no such member.
    pub open spec fn member(self, key: Seq<char>) -> Option<Json> {
        match self {
            Json::Object(members) => lookup(members@, key),
            _ => None,
        }
    }

    /// The text of a string value.
    pub open spec fn text(self) -> Option<String> {
        match self {
            Json::String(s) => Some(s),
            _ => None,
        }
    }

    /// The elements of an array value.
    pub open spec fn items(self) -> Option<Seq<Json>> {
        match self {
            Json::Array(items) => Some(items@),
            _ => None,
        }
    }

    /// The text of the string member under `key`.
    pub open spec fn text_member(self, key: Seq<char>) -> Option<String> {
        match self.member(key) {
            Some(value) => value.text(),
            None => None,
        }
    }

    /// The elements of the array member under `key`.
    pub open spec fn items_member(self, key: Seq<char>) -> Option<Seq<Json>> {
        match self.member(key) {
            Some(value) => value.items(),
            None => None,
        }
    }

    /// A member of a value is smaller than the value.
    pub proof fn lemma_member_decreases(self, key: Seq<char>)
        ensures
            self.member(key) matches Some(value) ==> decreases_to!(self => value),
    {
        if let Json::Object(members) = self {
            lemma_lookup(members@, key);
            if self.member(key) is Some {
                let value = self.member(key)->0;
                let i = choose|i: int|
                    0 <= i < members@.len() && (#[trigger] members@[i]).1 == value && members@[i].0@
                        == key;
                assert(decreases_to!(members => members[i]));
                assert(decreases_to!(members[i] => members[i].1));
            }
        }
    }

    /// Parses a JSON text; `None` where the text is no JSON.
    pub fn parse(text: &str) -> (r: Option<Json>)
        ensures
            r == json_of_text(text@),
    {
        match parse_value(text) {
            Some(value) => Some(convert_value(&value)),
            None => None,
        }
    }

    /// The value of a number: an integer where it is one, else its text.
    pub fn number(integer: Option<i64>, text: String) -> (r: Json)
        ensures
            r == (match integer {
                Some(i) => Json::Integer(i),
                None => Json::Number(text),
            }),
    {
        match integer {
            Some(i) => Json::Integer(i),
            None => Json::Number(text),
        }
    }

    /// The member of an object under `key`.
    pub fn get(&self, key: &str) -> (r: Option<&Json>)
        ensures
            r == (match self.member(key@) {
                Some(value) => Some(&value),
                None => None,
            }),
    {
        match self {
            Json::Object(members) => {
                let mut i: usize = 0;
                assert(members@.subrange(0, members.len() as int) =~= members@);
                while i < members.len()
                    invariant
                        self == Json::Object(*members),
                        i <= members.len(),
                        lookup(members@, key@) == lookup(
                            members@.subrange(i as int, members.len() as int),
                            key@,
                        ),
                    decreases members.len() - i,
                {
                    let ghost rest = members@.subrange(i as int, members.len() as int);
                    assert(rest[0] == members@[i as int]);
                    assert(rest.drop_first() =~= members@.subrange(i + 1, members.len() as int));
                    if str_eq(members[i].0.as_str(), key) {
                        return Some(&members[i].1);
                    }
                    i += 1;
                }
                assert(members@.subrange(i as int, members.len() as int).len() == 0);
                None
            },
            _ => None,
        }
    }

    /// The text of a string value.
    pub fn as_str(&self) -> (r: Option<&String>)
        ensures
            r == (match self.text() {
                Some(s) => Some(&s),
                None => None,
            }),
    {
        match self {
            Json::String(s) => Some(s),
            _ => None,
        }
    }

    /// The elements of an array value.
    pub fn as_array(&self) -> (r: Option<&Vec<Json>>)
        ensures
            r matches Some(items) ==> self.items() == Some(items@),
            r is None ==> self.items() is None,
    {
        match self {
            Json::Array(items) => Some(items),
            _ => None,
        }
    }

    /// The number of an integer value.
    pub fn as_i64(&self) -> (r: Option<i64>)
        ensures
            r == (match self {
                Json::Integer(i) => Some(*i),
                _ => None,
            }),
    {
        match self {
            Json::Integer(i) => Some(*i),
            _ => None,
        }
    }

    /// The text of the string member under `key`.
    pub fn get_str(&self, key: &str) -> (r: Option<&String>)
        ensures
            r == (match self.text_member(key@) {
                Some(s) => Some(&s),
                None => None,
            }),
    {
        match self.get(key) {
            Some(value) => value.as_str(),
            None => None,
        }
    }

    /// The elements of the array member under `key`.
    pub fn get_array(&self, key: &str) -> (r: Option<&Vec<Json>>)
        ensures
            r matches Some(items) ==> self.items_member(key@) == Some(items@),
            r is None ==> self.items_member(key@) is None,
    {
        match self.get(key) {
            Some(value) => value.as_array(),
            None => None,
        }
    }
}

} // verus!
