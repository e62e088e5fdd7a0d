//! JSON values as the protocol reads them.

use vstd::prelude::*;

use crate::text::same_text;

verus! {

/// A number: whole and not negative, whole and negative, or anything else by
/// its digits.
#[derive(Debug, Clone, PartialEq, Eq)]
pub enum JsonNumber {
    Positive(u64),
    Negative(i64),
    Fraction(String),
}

#[derive(Debug, PartialEq, Eq)]
pub enum JsonValue {
    Null,
    Boolean(bool),
    Number(JsonNumber),
    Text(String),
    Array(Vec<JsonValue>),
    Object(Vec<(String, JsonValue)>),
}

/// The member of an object under a key, from a place on.
pub open spec fn member_from(fields: Seq<(String, JsonValue)>, key: Seq<char>, from: int) -> Option<
    JsonValue,
>
    decreases fields.len() - from,
{
    if from < 0 || from >= fields.len() {
        None
    } else if fields[from].0@ == key {
        Some(fields[from].1)
    } else {
        member_from(fields, key, from + 1)
    }
}

impl JsonValue {
    /// The member under a key; what is no object has none.
    pub open spec fn member(self, key: Seq<char>) -> Option<JsonValue> {
        match self {
            JsonValue::Object(fields) => member_from(fields@, key, 0),
            _ => None,
        }
    }

    /// The text under a key.
    pub open spec fn text_member(self, key: Seq<char>) -> Option<Seq<char>> {
        match self.member(key) {
            Some(JsonValue::Text(t)) => Some(t@),
            _ => None,
        }
    }

    /// The whole number under a key, if it is not negative.
    pub open spec fn number_member(self, key: Seq<char>) -> Option<u64> {
        match self.member(key) {
            Some(JsonValue::Number(JsonNumber::Positive(n))) => Some(n),
            _ => None,
        }
    }

    /// The list under a key.
    pub open spec fn array_member(self, key: Seq<char>) -> Option<Seq<JsonValue>> {
        match self.member(key) {
            Some(JsonValue::Array(items)) => Some(items@),
            _ => None,
        }
    }

    pub fn get(&self, key: &str) -> (found: Option<&JsonValue>)
        ensures
            match (found, self.member(key@)) {
                (Some(got), Some(expected)) => *got == expected,
                (None, None) => true,
                _ => false,
            },
    {
        match self {
            JsonValue::Object(fields) => {
                let mut i: usize = 0;
                while i < fields.len()
                    invariant
                        i <= fields@.len(),
                        member_from(fields@, key@, 0) == member_from(fields@, key@, i as int),
                        *self == JsonValue::Object(*fields),
                    decreases fields@.len() - i,
                {
                    if same_text(fields[i].0.as_str(), key) {
                        return Some(&fields[i].1);
                    }
                    i = i + 1;
                }
                None
            },
            _ => None,
        }
    }

    pub fn get_text(&self, key: &str) -> (found: Option<String>)
        ensures
            match (found, self.text_member(key@)) {
                (Some(got), Some(expected)) => got@ == expected,
                (None, None) => true,
                _ => false,
            },
    {
        match self.get(key) {
            Some(JsonValue::Text(t)) => Some(t.clone()),
            _ => None,
        }
    }

    pub fn get_number(&self, key: &str) -> (found: Option<u64>)
        ensures
            found == self.number_member(key@),
    {
        match self.get(key) {
            Some(JsonValue::Number(JsonNumber::Positive(n))) => Some(*n),
            _ => None,
        }
    }

    pub fn get_array(&self, key: &str) -> (found: Option<&Vec<JsonValue>>)
        ensures
            match (found, self.array_member(key@)) {
                (Some(got), Some(expected)) => got@ == expected,
                (None, None) => true,
                _ => false,
            },
    {
        match self.get(key) {
            Some(JsonValue::Array(items)) => Some(items),
            _ => None,
        }
    }
}

} // verus!
