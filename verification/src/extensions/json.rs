//! JSON values, as far as the host looks into them.

use vstd::prelude::*;
use crate::text::same_text;

verus! {

/// A JSON number: a natural number, a negative integer, or any other, as the bits of its binary64
/// form.
#[derive(Clone, Copy, Debug, PartialEq, Eq, Structural)]
pub enum JsonNumber {
    Natural(u64),
    Negative(i64),
    Binary(u64),
}

/// A JSON value. An object holds each key once, in ascending order.
#[derive(Debug)]
pub enum Json {
    Null,
    Bool(bool),
    Number(JsonNumber),
    Text(String),
    Array(Vec<Json>),
    Object(Vec<(String, Json)>),
}

/// Position of the first field with the given name, or the length where there is none.
pub open spec fn field_at(fields: Seq<(String, Json)>, name: Seq<char>) -> int
    decreases fields.len(),
{
    if fields.len() == 0 {
        0
    } else if fields[0].0@ == name {
        0
    } else {
        1 + field_at(fields.drop_first(), name)
    }
}

proof fn field_at_is(fields: Seq<(String, Json)>, name: Seq<char>, i: int)
    requires
        0 <= i <= fields.len(),
        i < fields.len() ==> fields[i].0@ == name,
        forall|j: int| 0 <= j < i ==> (#[trigger] fields[j]).0@ != name,
    ensures
        field_at(fields, name) == i,
    decreases fields.len(),
{
    if i > 0 {
        let rest = fields.drop_first();
        assert(fields[0].0@ != name);
        assert forall|j: int| 0 <= j < i - 1 implies (#[trigger] rest[j]).0@ != name by {
            assert(rest[j] == fields[j + 1]);
        }
        field_at_is(rest, name, i - 1);
    }
}

/// A field of an object.
pub open spec fn field(value: Json, name: Seq<char>) -> Option<Json> {
    match value {
        Json::Object(fields) => {
            let i = field_at(fields@, name);
            if 0 <= i < fields@.len() {
                Some(fields@[i].1)
            } else {
                None
            }
        },
        _ => None,
    }
}

/// The text of a field that is a text.
pub open spec fn text_field(value: Json, name: Seq<char>) -> Option<Seq<char>> {
    match field(value, name) {
        Some(Json::Text(s)) => Some(s@),
        _ => None,
    }
}

/// The number of a field that is a natural number.
pub open spec fn natural_field(value: Json, name: Seq<char>) -> Option<u64> {
    match field(value, name) {
        Some(Json::Number(JsonNumber::Natural(n))) => Some(n),
        _ => None,
    }
}

impl Json {
    /// A field of an object.
    pub fn get(&self, name: &str) -> (out: Option<&Json>)
        ensures
            match out {
                Some(value) => field(*self, name@) == Some(*value),
                None => field(*self, name@) is None,
            },
    {
        match self {
            Json::Object(fields) => {
                let mut i: usize = 0;
                while i < fields.len()
                    invariant
                        i <= fields@.len(),
                        *self == Json::Object(*fields),
                        forall|j: int| 0 <= j < i ==> (#[trigger] fields@[j]).0@ != name@,
                    decreases fields@.len() - i,
                {
                    if same_text(&fields[i].0, name) {
                        proof {
                            field_at_is(fields@, name@, i as int);
                        }
                        return Some(&fields[i].1);
                    }
                    i = i + 1;
                }
                proof {
                    field_at_is(fields@, name@, i as int);
                }
                None
            },
            _ => None,
        }
    }

    /// The text of a field that is a text.
    pub fn get_text(&self, name: &str) -> (out: Option<&str>)
        ensures
            match out {
                Some(s) => text_field(*self, name@) == Some(s@),
                None => text_field(*self, name@) is None,
            },
    {
        match self.get(name) {
            Some(Json::Text(s)) => Some(s.as_str()),
            _ => None,
        }
    }

    /// The number of a field that is a natural number.
    pub fn get_natural(&self, name: &str) -> (out: Option<u64>)
        ensures
            out == natural_field(*self, name@),
    {
        match self.get(name) {
            Some(Json::Number(JsonNumber::Natural(n))) => Some(*n),
            _ => None,
        }
    }
}

proof fn field_is_found(fields: Seq<(String, Json)>, name: Seq<char>)
    ensures
        0 <= field_at(fields, name) <= fields.len(),
        field_at(fields, name) < fields.len() ==> fields[field_at(fields, name)].0@ == name,
        forall|i: int| 0 <= i < field_at(fields, name) ==> (#[trigger] fields[i]).0@ != name,
    decreases fields.len(),
{
    if fields.len() > 0 && fields[0].0@ != name {
        let rest = fields.drop_first();
        field_is_found(rest, name);
        assert forall|i: int| 0 <= i < field_at(fields, name) implies (#[trigger] fields[i]).0@
            != name by {
            if i > 0 {
                assert(rest[i - 1] == fields[i]);
            }
        }
    }
}

/// A field of an object is what stands under its name, and there is none where nothing does.
pub proof fn field_is_what_is_named(value: Json, name: Seq<char>)
    ensures
        match value {
            Json::Object(fields) => {
                &&& field(value, name) matches Some(found) ==> exists|i: int|
                    0 <= i < fields@.len() && (#[trigger] fields@[i]).0@ == name && fields@[i].1
                        == found
                &&& field(value, name) is None ==> forall|i: int|
                    0 <= i < fields@.len() ==> (#[trigger] fields@[i]).0@ != name
            },
            _ => field(value, name) is None,
        },
        text_field(value, name) matches Some(text) ==> (field(value, name) matches Some(
            Json::Text(s),
        ) && s@ == text),
        field(value, name) matches Some(Json::Text(s)) ==> text_field(value, name) == Some(s@),
        natural_field(value, name) matches Some(n) ==> field(value, name) == Some(
            Json::Number(JsonNumber::Natural(n)),
        ),
        field(value, name) matches Some(Json::Number(JsonNumber::Natural(n))) ==> natural_field(
            value,
            name,
        ) == Some(n),
{
    match value {
        Json::Object(fields) => {
            field_is_found(fields@, name);
            if field(value, name) is Some {
                let i = field_at(fields@, name);
                assert(fields@[i].0@ == name);
            }
        },
        _ => {},
    }
}

}
