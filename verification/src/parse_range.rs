//! Reading values and ranges from documents.
//!
//! A value is an object with one member, named after the kind: `Unit` with
//! `null`, `OnOff` with `"On"` or `"Off"`, `OpenClosed` with `"Open"` or
//! `"Closed"`, `Integer` with a whole number. A range is an object with one
//! member, named after the variant: `Leq`, `Geq` and `Eq` with a value,
//! `BetweenEq` and `OutOfStrict` with an object of two values, `min` and
//! `max`.

use vstd::prelude::*;
use crate::json::{find, lookup, Json, Member};
use crate::parse::{Field, ParseError};
use crate::range::Range;
use crate::value::{OnOff, OpenClosed, Value};

verus! {

/// The value that a member states: the name is the kind.
pub open spec fn value_member(member: Member) -> Result<Value, ParseError> {
    if member.name@ == "Unit"@ {
        match member.value {
            Json::Null => Ok(Value::Unit),
            _ => Err(ParseError::WrongType(Field::Value)),
        }
    } else if member.name@ == "OnOff"@ {
        match member.value {
            Json::Text(text) => if text@ == "On"@ {
                Ok(Value::OnOff(OnOff::On))
            } else if text@ == "Off"@ {
                Ok(Value::OnOff(OnOff::Off))
            } else {
                Err(ParseError::WrongType(Field::Value))
            },
            _ => Err(ParseError::WrongType(Field::Value)),
        }
    } else if member.name@ == "OpenClosed"@ {
        match member.value {
            Json::Text(text) => if text@ == "Open"@ {
                Ok(Value::OpenClosed(OpenClosed::Open))
            } else if text@ == "Closed"@ {
                Ok(Value::OpenClosed(OpenClosed::Closed))
            } else {
                Err(ParseError::WrongType(Field::Value))
            },
            _ => Err(ParseError::WrongType(Field::Value)),
        }
    } else if member.name@ == "Integer"@ {
        match member.value {
            Json::Integer(n) => Ok(Value::Integer(n)),
            _ => Err(ParseError::WrongType(Field::Value)),
        }
    } else {
        Err(ParseError::UnknownName)
    }
}

/// The value that a document states.
pub open spec fn stated_value(source: Json) -> Result<Value, ParseError> {
    match source {
        Json::Object(members) => if members@.len() == 1 {
            value_member(members@[0])
        } else {
            Err(ParseError::NotOneMember)
        },
        _ => Err(ParseError::NotAnObject),
    }
}

/// The value that the member `name` of an object states.
pub open spec fn bound_member(members: Seq<Member>, name: Seq<char>, field: Field) -> Result<
    Value,
    ParseError,
> {
    match lookup(members, name) {
        None => Err(ParseError::Missing(field)),
        Some(source) => stated_value(source),
    }
}

/// The two bounds that a document states: `min` is read first.
pub open spec fn stated_bounds(source: Json) -> Result<(Value, Value), ParseError> {
    match source {
        Json::Object(members) => match bound_member(members@, "min"@, Field::Min) {
            Err(e) => Err(e),
            Ok(min) => match bound_member(members@, "max"@, Field::Max) {
                Err(e) => Err(e),
                Ok(max) => Ok((min, max)),
            },
        },
        _ => Err(ParseError::NotAnObject),
    }
}

/// The range that a member states: the name is the variant.
pub open spec fn range_member(member: Member) -> Result<Range, ParseError> {
    if member.name@ == "Leq"@ {
        match stated_value(member.value) {
            Ok(v) => Ok(Range::Leq(v)),
            Err(e) => Err(e),
        }
    } else if member.name@ == "Geq"@ {
        match stated_value(member.value) {
            Ok(v) => Ok(Range::Geq(v)),
            Err(e) => Err(e),
        }
    } else if member.name@ == "Eq"@ {
        match stated_value(member.value) {
            Ok(v) => Ok(Range::Eq(v)),
            Err(e) => Err(e),
        }
    } else if member.name@ == "BetweenEq"@ {
        match stated_bounds(member.value) {
            Ok(bounds) => Ok(Range::BetweenEq { min: bounds.0, max: bounds.1 }),
            Err(e) => Err(e),
        }
    } else if member.name@ == "OutOfStrict"@ {
        match stated_bounds(member.value) {
            Ok(bounds) => Ok(Range::OutOfStrict { min: bounds.0, max: bounds.1 }),
            Err(e) => Err(e),
        }
    } else {
        Err(ParseError::UnknownName)
    }
}

/// The range that a document states.
pub open spec fn stated_range(source: Json) -> Result<Range, ParseError> {
    match source {
        Json::Object(members) => if members@.len() == 1 {
            range_member(members@[0])
        } else {
            Err(ParseError::NotOneMember)
        },
        _ => Err(ParseError::NotAnObject),
    }
}

/// Whether `text` is the word `word`.
fn is_word(text: &String, word: &str) -> (r: bool)
    ensures
        r == (text@ == word@),
{
    let wanted = word.to_owned();
    *text == wanted
}

fn read_value_member(member: &Member) -> (r: Result<Value, ParseError>)
    ensures
        r == value_member(*member),
{
    if is_word(&member.name, "Unit") {
        match &member.value {
            Json::Null => Ok(Value::Unit),
            _ => Err(ParseError::WrongType(Field::Value)),
        }
    } else if is_word(&member.name, "OnOff") {
        match &member.value {
            Json::Text(text) => if is_word(text, "On") {
                Ok(Value::OnOff(OnOff::On))
            } else if is_word(text, "Off") {
                Ok(Value::OnOff(OnOff::Off))
            } else {
                Err(ParseError::WrongType(Field::Value))
            },
            _ => Err(ParseError::WrongType(Field::Value)),
        }
    } else if is_word(&member.name, "OpenClosed") {
        match &member.value {
            Json::Text(text) => if is_word(text, "Open") {
                Ok(Value::OpenClosed(OpenClosed::Open))
            } else if is_word(text, "Closed") {
                Ok(Value::OpenClosed(OpenClosed::Closed))
            } else {
                Err(ParseError::WrongType(Field::Value))
            },
            _ => Err(ParseError::WrongType(Field::Value)),
        }
    } else if is_word(&member.name, "Integer") {
        match &member.value {
            Json::Integer(n) => Ok(Value::Integer(*n)),
            _ => Err(ParseError::WrongType(Field::Value)),
        }
    } else {
        Err(ParseError::UnknownName)
    }
}

impl Value {
    /// Reads a value from a document.
    pub fn parse(source: &Json) -> (r: Result<Value, ParseError>)
        ensures
            r == stated_value(*source),
    {
        match source {
            Json::Object(members) => if members.len() == 1 {
                read_value_member(&members[0])
            } else {
                Err(ParseError::NotOneMember)
            },
            _ => Err(ParseError::NotAnObject),
        }
    }
}

fn read_bound(members: &Vec<Member>, name: &str, field: Field) -> (r: Result<Value, ParseError>)
    ensures
        r == bound_member(members@, name@, field),
{
    match find(members, name) {
        None => Err(ParseError::Missing(field)),
        Some(source) => Value::parse(source),
    }
}

fn read_bounds(source: &Json) -> (r: Result<(Value, Value), ParseError>)
    ensures
        r == stated_bounds(*source),
{
    match source {
        Json::Object(members) => {
            let min = match read_bound(members, "min", Field::Min) {
                Ok(min) => min,
                Err(e) => {
                    return Err(e);
                },
            };
            let max = match read_bound(members, "max", Field::Max) {
                Ok(max) => max,
                Err(e) => {
                    return Err(e);
                },
            };
            Ok((min, max))
        },
        _ => Err(ParseError::NotAnObject),
    }
}

fn read_range_member(member: &Member) -> (r: Result<Range, ParseError>)
    ensures
        r == range_member(*member),
{
    if is_word(&member.name, "Leq") {
        match Value::parse(&member.value) {
            Ok(v) => Ok(Range::Leq(v)),
            Err(e) => Err(e),
        }
    } else if is_word(&member.name, "Geq") {
        match Value::parse(&member.value) {
            Ok(v) => Ok(Range::Geq(v)),
            Err(e) => Err(e),
        }
    } else if is_word(&member.name, "Eq") {
        match Value::parse(&member.value) {
            Ok(v) => Ok(Range::Eq(v)),
            Err(e) => Err(e),
        }
    } else if is_word(&member.name, "BetweenEq") {
        match read_bounds(&member.value) {
            Ok(bounds) => Ok(Range::BetweenEq { min: bounds.0, max: bounds.1 }),
            Err(e) => Err(e),
        }
    } else if is_word(&member.name, "OutOfStrict") {
        match read_bounds(&member.value) {
            Ok(bounds) => Ok(Range::OutOfStrict { min: bounds.0, max: bounds.1 }),
            Err(e) => Err(e),
        }
    } else {
        Err(ParseError::UnknownName)
    }
}

impl Range {
    /// Reads a range from a document.
    pub fn parse(source: &Json) -> (r: Result<Range, ParseError>)
        ensures
            r == stated_range(*source),
    {
        match source {
            Json::Object(members) => if members.len() == 1 {
                read_range_member(&members[0])
            } else {
                Err(ParseError::NotOneMember)
            },
            _ => Err(ParseError::NotAnObject),
        }
    }
}

} // verus!
