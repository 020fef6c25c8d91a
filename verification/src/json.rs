//! A JSON value model that the protocol logic reads and builds, with the
//! accessors that the wire handling needs.

use vstd::prelude::*;
use crate::text::{copy_string, owned, str_eq, string_of};
use crate::decimal::{decimal, u64_decimal};

verus! {

/// A JSON number: its text, and its value where it is an unsigned integer
/// that fits in 64 bits.
#[derive(Debug, Clone, PartialEq, Eq)]
pub struct JsonNumber {
    pub text: String,
    pub unsigned: Option<u64>,
}

/// A JSON value. An object lists its members in order; lookups find the
/// first member with the key.
#[derive(Debug)]
pub enum JsonValue {
    Null,
    Bool(bool),
    Number(JsonNumber),
    String(String),
    Array(Vec<JsonValue>),
    Object(Vec<(String, JsonValue)>),
}

/// The value of the first member of `members` named `key`.
pub open spec fn member_of(members: Seq<(String, JsonValue)>, key: Seq<char>) -> Option<JsonValue>
    decreases members.len(),
{
    if members.len() == 0 {
        None
    } else if members[0].0@ == key {
        Some(members[0].1)
    } else {
        member_of(members.drop_first(), key)
    }
}

/// The member `key` of an object; nothing for any other value.
pub open spec fn json_get(v: JsonValue, key: Seq<char>) -> Option<JsonValue> {
    match v {
        JsonValue::Object(m) => member_of(m@, key),
        _ => None,
    }
}

/// `json_get` on a value that may be absent.
pub open spec fn get_in(v: Option<JsonValue>, key: Seq<char>) -> Option<JsonValue> {
    match v {
        Some(x) => json_get(x, key),
        None => None,
    }
}

/// The first of two optional values that is present.
pub open spec fn either(a: Option<JsonValue>, b: Option<JsonValue>) -> Option<JsonValue> {
    if a is Some {
        a
    } else {
        b
    }
}

/// The text of a string value.
pub open spec fn str_of(v: Option<JsonValue>) -> Option<Seq<char>> {
    match v {
        Some(JsonValue::String(s)) => Some(s@),
        _ => None,
    }
}

/// The value of a number that is an unsigned 64-bit integer.
pub open spec fn u64_of(v: Option<JsonValue>) -> Option<u64> {
    match v {
        Some(JsonValue::Number(n)) => n.unsigned,
        _ => None,
    }
}

/// The items of an array value; none for any other value.
pub open spec fn items_of(v: Option<JsonValue>) -> Seq<JsonValue> {
    match v {
        Some(JsonValue::Array(a)) => a@,
        _ => Seq::empty(),
    }
}

/// The value behind an optional reference.
pub open spec fn deref_opt(o: Option<&JsonValue>) -> Option<JsonValue> {
    match o {
        Some(x) => Some(*x),
        None => None,
    }
}

/// The text behind an optional string reference.
pub open spec fn deref_str(o: Option<&String>) -> Option<Seq<char>> {
    match o {
        Some(x) => Some(x@),
        None => None,
    }
}

impl JsonValue {
    /// The member `key` of this value, if it is an object that has one.
    pub fn get(&self, key: &str) -> (r: Option<&JsonValue>)
        ensures
            deref_opt(r) == json_get(*self, key@),
    {
        match self {
            JsonValue::Object(members) => {
                let mut i: usize = 0;
                assert(members@.skip(0) =~= members@);
                while i < members.len()
                    invariant
                        *self == JsonValue::Object(*members),
                        i <= members.len(),
                        member_of(members@, key@) == member_of(members@.skip(i as int), key@),
                    decreases members.len() - i,
                {
                    assert(members@.skip(i as int).drop_first() =~= members@.skip(i + 1));
                    assert(members@.skip(i as int)[0] == members@[i as int]);
                    if str_eq(members[i].0.as_str(), key) {
                        return Some(&members[i].1);
                    }
                    i = i + 1;
                }
                None
            },
            _ => None,
        }
    }

    /// The text of this value, if it is a string.
    pub fn as_str(&self) -> (r: Option<&String>)
        ensures
            deref_str(r) == str_of(Some(*self)),
    {
        match self {
            JsonValue::String(s) => Some(s),
            _ => None,
        }
    }

    /// The value of this value, if it is a number that is an unsigned 64-bit integer.
    pub fn as_u64(&self) -> (r: Option<u64>)
        ensures
            r == u64_of(Some(*self)),
    {
        match self {
            JsonValue::Number(n) => n.unsigned,
            _ => None,
        }
    }

    /// The number `n`.
    pub fn from_u64(n: u64) -> (r: JsonValue)
        ensures
            r matches JsonValue::Number(x) && x.text@ == decimal(n as nat) && x.unsigned == Some(n),
    {
        let digits = u64_decimal(n);
        JsonValue::Number(JsonNumber { text: string_of(&digits), unsigned: Some(n) })
    }

    /// The string value holding `s`.
    pub fn from_str(s: &str) -> (r: JsonValue)
        ensures
            r matches JsonValue::String(x) && x@ == s@,
    {
        JsonValue::String(owned(s))
    }
}

/// The member `key` of an optional value.
pub fn get_opt<'a>(v: Option<&'a JsonValue>, key: &str) -> (r: Option<&'a JsonValue>)
    ensures
        deref_opt(r) == get_in(deref_opt(v), key@),
{
    match v {
        Some(x) => x.get(key),
        None => None,
    }
}

/// The member `key`, or else the member `alternative`, of `v`.
pub fn get_either<'a>(v: Option<&'a JsonValue>, key: &str, alternative: &str) -> (r: Option<
    &'a JsonValue,
>)
    ensures
        deref_opt(r) == either(get_in(deref_opt(v), key@), get_in(deref_opt(v), alternative@)),
{
    match get_opt(v, key) {
        Some(x) => Some(x),
        None => get_opt(v, alternative),
    }
}

/// An owned copy of the text of an optional string value.
pub fn str_copy(v: Option<&JsonValue>) -> (r: Option<String>)
    ensures
        match r {
            Some(s) => str_of(deref_opt(v)) == Some(s@),
            None => str_of(deref_opt(v)) is None,
        },
{
    match v {
        Some(JsonValue::String(s)) => Some(copy_string(s)),
        _ => None,
    }
}

/// The unsigned value of an optional number value.
pub fn u64_value(v: Option<&JsonValue>) -> (r: Option<u64>)
    ensures
        r == u64_of(deref_opt(v)),
{
    match v {
        Some(x) => x.as_u64(),
        None => None,
    }
}

/// The items of an optional array value.
pub fn array_items<'a>(v: Option<&'a JsonValue>) -> (r: Option<&'a Vec<JsonValue>>)
    ensures
        match r {
            Some(a) => items_of(deref_opt(v)) == a@ && deref_opt(v) matches Some(JsonValue::Array(_)),
            None => items_of(deref_opt(v)) == Seq::<JsonValue>::empty(),
        },
{
    match v {
        Some(JsonValue::Array(a)) => Some(a),
        _ => None,
    }
}

} // verus!
