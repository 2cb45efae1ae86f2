//! Structured documents: what selectors, ranges and the tag store are read
//! from, and what the tag store is written to.

use vstd::prelude::*;

verus! {

/// A document.
#[derive(Debug)]
pub enum Json {
    Null,
    Bool(bool),
    /// A whole number.
    Integer(i64),
    /// A number that is no whole number of 64 bits. Its value is not kept.
    Fraction,
    Text(String),
    Array(Vec<Json>),
    /// An object: members in their order. Where a name comes twice, the
    /// first member counts.
    Object(Vec<Member>),
}

/// A member of an object.
#[derive(Debug)]
pub struct Member {
    pub name: String,
    pub value: Json,
}

/// The value of the first member of `members` that is named `name`.
pub open spec fn lookup(members: Seq<Member>, name: Seq<char>) -> Option<Json>
    decreases members.len(),
{
    if members.len() == 0 {
        None
    } else if members[0].name@ == name {
        Some(members[0].value)
    } else {
        lookup(members.skip(1), name)
    }
}

/// The value of the first member of `members` that is named `name`.
pub fn find<'a>(members: &'a Vec<Member>, name: &str) -> (r: Option<&'a Json>)
    ensures
        r matches Some(v) ==> lookup(members@, name@) == Some(*v),
        r is None ==> lookup(members@, name@) is None,
{
    let wanted = name.to_owned();
    let mut i: usize = 0;
    assert(members@.skip(0) =~= members@);
    while i < members.len()
        invariant
            i <= members@.len(),
            wanted@ == name@,
            lookup(members@, name@) == lookup(members@.skip(i as int), name@),
        decreases members@.len() - i,
    {
        if members[i].name == wanted {
            return Some(&members[i].value);
        }
        assert(members@.skip(i as int).skip(1) =~= members@.skip(i + 1));
        i += 1;
    }
    None
}

impl Json {
    /// The members, if the document is an object.
    pub fn as_object(&self) -> (r: Option<&Vec<Member>>)
        ensures
            match *self {
                Json::Object(members) => r == Some(&members),
                _ => r is None,
            },
    {
        match self {
            Json::Object(members) => Some(members),
            _ => None,
        }
    }
}

} // verus!
