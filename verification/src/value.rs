//! The values that features report and accept.
//!
//! Values come in kinds. Two values of one kind are ordered; two values of
//! different kinds are not comparable at all: neither is below, above or
//! equal to the other.

use vstd::prelude::*;

verus! {

/// The state of a switch. `On` comes before `Off`.
#[derive(Clone, Copy, Debug, PartialEq, Eq, Structural)]
pub enum OnOff {
    On,
    Off,
}

/// The state of a door or a window. `Open` comes before `Closed`.
#[derive(Clone, Copy, Debug, PartialEq, Eq, Structural)]
pub enum OpenClosed {
    Open,
    Closed,
}

/// The kind of a value.
#[derive(Clone, Copy, Debug, PartialEq, Eq, Structural)]
pub enum Kind {
    Unit,
    OnOff,
    OpenClosed,
    Integer,
}

/// A value.
#[derive(Clone, Copy, Debug, PartialEq, Eq, Structural)]
pub enum Value {
    /// The one value that carries no information.
    Unit,
    OnOff(OnOff),
    OpenClosed(OpenClosed),
    /// A whole number, in the unit that the feature's capability names.
    Integer(i64),
}

impl Value {
    /// The kind of the value.
    pub open spec fn kind_of(self) -> Kind {
        match self {
            Value::Unit => Kind::Unit,
            Value::OnOff(_) => Kind::OnOff,
            Value::OpenClosed(_) => Kind::OpenClosed,
            Value::Integer(_) => Kind::Integer,
        }
    }

    /// The place of the value among the values of its kind.
    pub open spec fn rank(self) -> int {
        match self {
            Value::Unit => 0,
            Value::OnOff(OnOff::On) => 0,
            Value::OnOff(OnOff::Off) => 1,
            Value::OpenClosed(OpenClosed::Open) => 0,
            Value::OpenClosed(OpenClosed::Closed) => 1,
            Value::Integer(n) => n as int,
        }
    }

    /// Whether the two values are of one kind.
    pub open spec fn comparable(self, other: Value) -> bool {
        self.kind_of() == other.kind_of()
    }

    /// `self <= other`: of one kind, and not above.
    pub open spec fn at_most(self, other: Value) -> bool {
        self.comparable(other) && self.rank() <= other.rank()
    }

    /// `self < other`: of one kind, and below.
    pub open spec fn below(self, other: Value) -> bool {
        self.comparable(other) && self.rank() < other.rank()
    }

    /// The kind of the value.
    pub fn kind(&self) -> (k: Kind)
        ensures
            k == self.kind_of(),
    {
        match self {
            Value::Unit => Kind::Unit,
            Value::OnOff(_) => Kind::OnOff,
            Value::OpenClosed(_) => Kind::OpenClosed,
            Value::Integer(_) => Kind::Integer,
        }
    }

    /// Whether `self <= other`.
    pub fn le(&self, other: &Value) -> (r: bool)
        ensures
            r == self.at_most(*other),
    {
        match (*self, *other) {
            (Value::Unit, Value::Unit) => true,
            (Value::OnOff(a), Value::OnOff(b)) => a == OnOff::On || b == OnOff::Off,
            (Value::OpenClosed(a), Value::OpenClosed(b)) => a == OpenClosed::Open || b
                == OpenClosed::Closed,
            (Value::Integer(a), Value::Integer(b)) => a <= b,
            _ => false,
        }
    }

    /// Whether `self < other`.
    pub fn lt(&self, other: &Value) -> (r: bool)
        ensures
            r == self.below(*other),
    {
        match (*self, *other) {
            (Value::OnOff(a), Value::OnOff(b)) => a == OnOff::On && b == OnOff::Off,
            (Value::OpenClosed(a), Value::OpenClosed(b)) => a == OpenClosed::Open && b
                == OpenClosed::Closed,
            (Value::Integer(a), Value::Integer(b)) => a < b,
            _ => false,
        }
    }

    /// Whether the two values are equal.
    pub fn same(&self, other: &Value) -> (r: bool)
        ensures
            r == (*self == *other),
    {
        match (*self, *other) {
            (Value::Unit, Value::Unit) => true,
            (Value::OnOff(a), Value::OnOff(b)) => a == b,
            (Value::OpenClosed(a), Value::OpenClosed(b)) => a == b,
            (Value::Integer(a), Value::Integer(b)) => a == b,
            _ => false,
        }
    }
}

/// Among the values of one kind, a value is fixed by its rank.
pub proof fn lemma_rank_fixes_value(a: Value, b: Value)
    requires
        a.comparable(b),
        a.rank() == b.rank(),
    ensures
        a == b,
{
}

/// Values of one kind are totally ordered: `a <= b` fails exactly when
/// `b < a`.
pub proof fn lemma_order_is_total_within_a_kind(a: Value, b: Value)
    requires
        a.comparable(b),
    ensures
        a.at_most(b) == !b.below(a),
        a.at_most(b) && b.at_most(a) ==> a == b,
{
}

/// Values of different kinds are unordered.
pub proof fn lemma_kinds_are_unordered(a: Value, b: Value)
    requires
        !a.comparable(b),
    ensures
        !a.at_most(b),
        !b.at_most(a),
        !a.below(b),
        !b.below(a),
        a != b,
{
}

} // verus!
