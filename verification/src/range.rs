//! Ranges of values, used to filter what a watch delivers.

use vstd::prelude::*;
use crate::value::{Kind, Value};

verus! {

/// A condition on a value, by comparison with one or two operands.
#[derive(Clone, Copy, Debug, PartialEq, Eq, Structural)]
pub enum Range {
    /// `Leq(x)` accepts any value `v` such that `v <= x`.
    Leq(Value),
    /// `Geq(x)` accepts any value `v` such that `v >= x`.
    Geq(Value),
    /// `BetweenEq { min, max }` accepts any value `v` such that `min <= v`
    /// and `v <= max`. If `max < min`, it accepts nothing.
    BetweenEq { min: Value, max: Value },
    /// `OutOfStrict { min, max }` accepts any value `v` such that `v < min`
    /// or `max < v`.
    OutOfStrict { min: Value, max: Value },
    /// `Eq(x)` accepts `x` and nothing else.
    Eq(Value),
}

impl Range {
    /// Whether the range accepts `v`. A value that is not comparable with an
    /// operand fails every comparison with it.
    pub open spec fn accepts(self, v: Value) -> bool {
        match self {
            Range::Leq(max) => v.at_most(max),
            Range::Geq(min) => min.at_most(v),
            Range::BetweenEq { min, max } => min.at_most(v) && v.at_most(max),
            Range::OutOfStrict { min, max } => v.below(min) || max.below(v),
            Range::Eq(x) => v == x,
        }
    }

    /// Whether some operand of the range is of kind `k`.
    pub open spec fn has_operand_of(self, k: Kind) -> bool {
        match self {
            Range::Leq(x) => x.kind_of() == k,
            Range::Geq(x) => x.kind_of() == k,
            Range::BetweenEq { min, max } => min.kind_of() == k || max.kind_of() == k,
            Range::OutOfStrict { min, max } => min.kind_of() == k || max.kind_of() == k,
            Range::Eq(x) => x.kind_of() == k,
        }
    }

    /// Determines whether the range accepts `value`.
    pub fn contains(&self, value: &Value) -> (r: bool)
        ensures
            r == self.accepts(*value),
    {
        match self {
            Range::Leq(max) => value.le(max),
            Range::Geq(min) => min.le(value),
            Range::BetweenEq { min, max } => min.le(value) && value.le(max),
            Range::OutOfStrict { min, max } => value.lt(min) || max.lt(value),
            Range::Eq(x) => value.same(x),
        }
    }
}

/// `Leq(x)`, `Geq(x)` and `Eq(x)` accept `x` itself.
pub proof fn lemma_bound_is_inside(x: Value)
    ensures
        Range::Leq(x).accepts(x),
        Range::Geq(x).accepts(x),
        Range::Eq(x).accepts(x),
{
}

/// `BetweenEq` accepts exactly the values from `min` to `max`, both
/// included.
pub proof fn lemma_between_is_inclusive(min: Value, max: Value, v: Value)
    ensures
        (Range::BetweenEq { min, max }).accepts(v) == (min.at_most(v) && v.at_most(max)),
        (Range::BetweenEq { min, max }).accepts(v) ==> min.comparable(max) && min.rank() <= v.rank()
            <= max.rank(),
{
}

/// On whole numbers, `BetweenEq` is the closed interval.
pub proof fn lemma_between_on_integers(min: i64, max: i64, v: i64)
    ensures
        (Range::BetweenEq { min: Value::Integer(min), max: Value::Integer(max) }).accepts(
            Value::Integer(v),
        ) == (min <= v && v <= max),
{
}

/// With `max < min`, `BetweenEq` accepts no value.
pub proof fn lemma_inverted_bounds_accept_nothing(min: Value, max: Value, v: Value)
    requires
        max.below(min),
    ensures
        !(Range::BetweenEq { min, max }).accepts(v),
{
}

/// Over the values that are comparable with both bounds, `OutOfStrict`
/// accepts exactly what `BetweenEq` refuses.
pub proof fn lemma_out_of_is_the_complement_of_between(min: Value, max: Value, v: Value)
    requires
        v.comparable(min),
        v.comparable(max),
    ensures
        (Range::OutOfStrict { min, max }).accepts(v) == !(Range::BetweenEq { min, max }).accepts(v),
{
}

/// A range accepts no value of a kind that none of its operands has.
pub proof fn lemma_other_kinds_are_refused(range: Range, v: Value)
    requires
        !range.has_operand_of(v.kind_of()),
    ensures
        !range.accepts(v),
{
}

} // verus!
