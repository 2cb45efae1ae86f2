//! A constraint with three states: anything, nothing, or one given value.

use vstd::prelude::*;
use crate::ids::Named;

verus! {

/// Why a selector or a constraint was refused.
#[derive(Clone, Copy, Debug, PartialEq, Eq, Structural)]
pub enum ConfigurationError {
    /// The selector constrains nothing: it would select everything.
    EmptySelector,
    /// Two constraints that demand different values were combined.
    ConflictingConstraint,
}

/// A constraint on one value.
#[derive(Debug, PartialEq, Eq)]
pub enum Exactly<T> {
    /// Every value is accepted.
    Always,
    /// No value is accepted.
    Never,
    /// Only the given value is accepted.
    Exactly(T),
}

impl<T: View> View for Exactly<T> {
    type V = Exactly<T::V>;

    open spec fn view(&self) -> Exactly<T::V> {
        match *self {
            Exactly::Always => Exactly::Always,
            Exactly::Never => Exactly::Never,
            Exactly::Exactly(v) => Exactly::Exactly(v@),
        }
    }
}

impl<T> Exactly<T> {
    /// Whether the constraint accepts `v`.
    pub open spec fn accepts(self, v: T) -> bool {
        match self {
            Exactly::Always => true,
            Exactly::Never => false,
            Exactly::Exactly(w) => w == v,
        }
    }

    /// The constraint that accepts what both `self` and `other` accept, or
    /// the conflict when each demands a value and the two values differ.
    /// `Always` is neutral, and `Never` absorbs every other constraint.
    pub open spec fn conjunction(self, other: Exactly<T>) -> Result<Exactly<T>, ConfigurationError> {
        match (self, other) {
            (Exactly::Never, _) => Ok(Exactly::Never),
            (_, Exactly::Never) => Ok(Exactly::Never),
            (Exactly::Always, c) => Ok(c),
            (c, Exactly::Always) => Ok(c),
            (Exactly::Exactly(a), Exactly::Exactly(b)) => if a == b {
                Ok(Exactly::Exactly(a))
            } else {
                Err(ConfigurationError::ConflictingConstraint)
            },
        }
    }

    /// Whether this is the default constraint, `Always`.
    pub fn is_always(&self) -> (r: bool)
        ensures
            r == (*self is Always),
    {
        match self {
            Exactly::Always => true,
            _ => false,
        }
    }
}

/// The view of a composed constraint, or the error of the composition.
pub open spec fn view_of<T: View>(r: Result<Exactly<T>, ConfigurationError>) -> Result<
    Exactly<T::V>,
    ConfigurationError,
> {
    match r {
        Ok(c) => Ok(c@),
        Err(e) => Err(e),
    }
}

impl<T: Named> Exactly<T> {
    /// Whether the constraint accepts `v`.
    pub fn matches(&self, v: &T) -> (r: bool)
        ensures
            r == self@.accepts(v@),
    {
        match self {
            Exactly::Always => true,
            Exactly::Never => false,
            Exactly::Exactly(w) => w.same(v),
        }
    }

    /// Composes two constraints: see [`Exactly::conjunction`].
    pub fn and(self, other: Exactly<T>) -> (r: Result<Exactly<T>, ConfigurationError>)
        ensures
            view_of(r) == self@.conjunction(other@),
    {
        match (self, other) {
            (Exactly::Never, _) => Ok(Exactly::Never),
            (_, Exactly::Never) => Ok(Exactly::Never),
            (Exactly::Always, c) => Ok(c),
            (c, Exactly::Always) => Ok(c),
            (Exactly::Exactly(a), Exactly::Exactly(b)) => if a.same(&b) {
                Ok(Exactly::Exactly(a))
            } else {
                Err(ConfigurationError::ConflictingConstraint)
            },
        }
    }

    /// A copy of the constraint.
    pub fn duplicate(&self) -> (r: Exactly<T>)
        ensures
            r@ == self@,
    {
        match self {
            Exactly::Always => Exactly::Always,
            Exactly::Never => Exactly::Never,
            Exactly::Exactly(v) => Exactly::Exactly(v.duplicate()),
        }
    }
}

/// `Always` is neutral for the composition, on either side.
pub proof fn lemma_always_is_neutral<T>(c: Exactly<T>)
    ensures
        c.conjunction(Exactly::Always) == Ok::<Exactly<T>, ConfigurationError>(c),
        Exactly::<T>::Always.conjunction(c) == Ok::<Exactly<T>, ConfigurationError>(c),
{
}

/// `Never` absorbs every constraint, on either side.
pub proof fn lemma_never_absorbs<T>(c: Exactly<T>)
    ensures
        c.conjunction(Exactly::Never) == Ok::<Exactly<T>, ConfigurationError>(Exactly::Never),
        Exactly::<T>::Never.conjunction(c) == Ok::<Exactly<T>, ConfigurationError>(Exactly::Never),
{
}

/// Two demands compose exactly when they demand the same value.
pub proof fn lemma_demands_compose<T>(a: T, b: T)
    ensures
        Exactly::Exactly(a).conjunction(Exactly::Exactly(b)) is Ok <==> a == b,
        a != b ==> Exactly::Exactly(a).conjunction(Exactly::Exactly(b)) == Err::<
            Exactly<T>,
            ConfigurationError,
        >(ConfigurationError::ConflictingConstraint),
{
}

/// A composed constraint accepts a value exactly when both parts do.
pub proof fn lemma_conjunction_accepts_both<T>(a: Exactly<T>, b: Exactly<T>, v: T)
    requires
        a.conjunction(b) is Ok,
    ensures
        a.conjunction(b)->Ok_0.accepts(v) == (a.accepts(v) && b.accepts(v)),
{
}

} // verus!
