//! JSON values and what can be read from them.
use vstd::prelude::*;
use crate::double::Double;
use crate::table::Table;
use crate::text;

verus! {

/// A JSON number: a whole number, or any other number with its text.
#[derive(Debug)]
pub enum JsonNumber {
    Unsigned(u64),
    Negative(i64),
    Real { value: Double, text: String },
}

/// A JSON value.
#[derive(Debug)]
pub enum Json {
    Null,
    Bool(bool),
    Number(JsonNumber),
    Text(String),
    List(Vec<Json>),
    Object(Table<Json>),
}

/// The number of a value, if it is one.
pub open spec fn double_in(j: Json) -> Option<Double> {
    match j {
        Json::Number(JsonNumber::Unsigned(n)) => Some(Double::whole(n)),
        Json::Number(JsonNumber::Negative(n)) => Some(signed_double(n)),
        Json::Number(JsonNumber::Real { value, .. }) => Some(value),
        _ => None,
    }
}

/// The nearest number to a signed whole number.
pub open spec fn signed_double(n: i64) -> Double {
    if n < 0 {
        Double::whole((-(n as int)) as u64).neg()
    } else {
        Double::whole(n as u64)
    }
}

/// The text of a value, if it is one.
pub open spec fn text_in(j: Json) -> Option<Seq<char>> {
    match j {
        Json::Text(s) => Some(s@),
        _ => None,
    }
}

/// The unsigned whole number of a value, if it is one.
pub open spec fn unsigned_in(j: Json) -> Option<u64> {
    match j {
        Json::Number(JsonNumber::Unsigned(n)) => Some(n),
        _ => None,
    }
}

/// The signed whole number of a value, if it is one in range.
pub open spec fn signed_in(j: Json) -> Option<i64> {
    match j {
        Json::Number(JsonNumber::Unsigned(n)) => if n <= i64::MAX {
            Some(n as i64)
        } else {
            None
        },
        Json::Number(JsonNumber::Negative(n)) => Some(n),
        _ => None,
    }
}

/// The elements of a value, if it is a list.
pub open spec fn items_in(j: Json) -> Option<Seq<Json>> {
    match j {
        Json::List(v) => Some(v@),
        _ => None,
    }
}

/// The members of a value, if it is an object.
pub open spec fn members_in(j: Json) -> Option<Map<Seq<char>, Json>> {
    match j {
        Json::Object(t) => Some(t@),
        _ => None,
    }
}

/// A member of a value, null where there is none.
pub open spec fn member_of(j: Json, key: Seq<char>) -> Json {
    match members_in(j) {
        Some(m) => if m.dom().contains(key) {
            m[key]
        } else {
            Json::Null
        },
        None => Json::Null,
    }
}

/// The nearest number to a signed whole number.
pub fn double_from(n: i64) -> (r: Double)
    ensures
        r == signed_double(n),
{
    if n < 0 {
        Double::whole((-(n + 1)) as u64 + 1).neg()
    } else {
        Double::whole(n as u64)
    }
}

impl Json {
    pub fn as_double(&self) -> (r: Option<Double>)
        ensures
            r == double_in(*self),
    {
        match self {
            Json::Number(JsonNumber::Unsigned(n)) => Some(Double::whole(*n)),
            Json::Number(JsonNumber::Negative(n)) => Some(double_from(*n)),
            Json::Number(JsonNumber::Real { value, .. }) => Some(*value),
            _ => None,
        }
    }

    pub fn as_text(&self) -> (r: Option<&str>)
        ensures
            match r {
                Some(s) => text_in(*self) == Some(s@),
                None => text_in(*self) is None,
            },
    {
        match self {
            Json::Text(s) => Some(s.as_str()),
            _ => None,
        }
    }

    /// Whether this is the given text.
    pub fn is_text(&self, s: &str) -> (r: bool)
        ensures
            r == (text_in(*self) == Some(s@)),
    {
        match self {
            Json::Text(t) => text::text_eq(t.as_str(), s),
            _ => false,
        }
    }

    pub fn as_unsigned(&self) -> (r: Option<u64>)
        ensures
            r == unsigned_in(*self),
    {
        match self {
            Json::Number(JsonNumber::Unsigned(n)) => Some(*n),
            _ => None,
        }
    }

    pub fn as_signed(&self) -> (r: Option<i64>)
        ensures
            r == signed_in(*self),
    {
        match self {
            Json::Number(JsonNumber::Unsigned(n)) => if *n <= 0x7fff_ffff_ffff_ffff {
                Some(*n as i64)
            } else {
                None
            },
            Json::Number(JsonNumber::Negative(n)) => Some(*n),
            _ => None,
        }
    }

    pub fn as_list(&self) -> (r: Option<&Vec<Json>>)
        ensures
            match r {
                Some(v) => items_in(*self) == Some(v@),
                None => items_in(*self) is None,
            },
    {
        match self {
            Json::List(v) => Some(v),
            _ => None,
        }
    }

    pub fn is_null(&self) -> (r: bool)
        ensures
            r == (self is Null),
    {
        match self {
            Json::Null => true,
            _ => false,
        }
    }

    /// A member, if this is an object that has it.
    pub fn get(&self, key: &str) -> (r: Option<&Json>)
        ensures
            match r {
                Some(v) => members_in(*self) is Some && (members_in(*self)->0).dom().contains(key@)
                    && *v == (members_in(*self)->0)[key@] && *v == member_of(*self, key@),
                None => members_in(*self) is None || !(members_in(*self)->0).dom().contains(key@),
            },
    {
        match self {
            Json::Object(t) => t.get(key),
            _ => None,
        }
    }

    /// The text of a member, if it is there and a text.
    pub fn text_at(&self, key: &str) -> (r: Option<&str>)
        ensures
            match r {
                Some(s) => text_in(member_of(*self, key@)) == Some(s@),
                None => text_in(member_of(*self, key@)) is None,
            },
    {
        match self.get(key) {
            Some(v) => v.as_text(),
            None => None,
        }
    }

    /// The elements of a member, if it is there and a list.
    pub fn list_at(&self, key: &str) -> (r: Option<&Vec<Json>>)
        ensures
            match r {
                Some(v) => items_in(member_of(*self, key@)) == Some(v@),
                None => items_in(member_of(*self, key@)) is None,
            },
    {
        match self.get(key) {
            Some(v) => v.as_list(),
            None => None,
        }
    }
}

} // verus!
