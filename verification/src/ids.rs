//! Identifiers, one type per namespace.
//!
//! Every identifier wraps a name. Two identifiers of one namespace are the
//! same when their names are equal; identifiers of different namespaces have
//! different types, so that one can never stand for the other, whatever the
//! names are.

use vstd::prelude::*;

verus! {

/// What the identifier types have in common: a name (the view), a test for
/// equal names and a copy with the same name.
pub trait Named: View<V = Seq<char>> + Sized {
    /// Whether `self` and `other` carry the same name.
    fn same(&self, other: &Self) -> (r: bool)
        ensures
            r == (self@ == other@),
    ;

    /// Another identifier with the name of `self`.
    fn duplicate(&self) -> (r: Self)
        ensures
            r@ == self@,
    ;

    /// The identifier with the given name.
    fn named(name: &str) -> (r: Self)
        ensures
            r@ == name@,
    ;
}

/// The identifier of a service.
#[derive(Debug, PartialEq, Eq)]
pub struct ServiceId {
    name: String,
}

impl View for ServiceId {
    type V = Seq<char>;

    closed spec fn view(&self) -> Seq<char> {
        self.name@
    }
}

impl ServiceId {
    /// The identifier with the given name.
    pub fn new(name: &str) -> (id: ServiceId)
        ensures
            id@ == name@,
    {
        ServiceId { name: name.to_owned() }
    }

    /// The name, as text.
    pub fn as_str(&self) -> (name: &str)
        ensures
            name@ == self@,
    {
        self.name.as_str()
    }
}

impl Named for ServiceId {
    fn same(&self, other: &ServiceId) -> (r: bool) {
        self.name == other.name
    }

    fn duplicate(&self) -> (r: ServiceId) {
        ServiceId { name: self.name.clone() }
    }

    fn named(name: &str) -> (r: ServiceId) {
        ServiceId::new(name)
    }
}

impl Clone for ServiceId {
    fn clone(&self) -> (r: ServiceId)
        ensures
            r@ == self@,
    {
        self.duplicate()
    }
}

/// The identifier of a feature.
#[derive(Debug, PartialEq, Eq)]
pub struct FeatureId {
    name: String,
}

impl View for FeatureId {
    type V = Seq<char>;

    closed spec fn view(&self) -> Seq<char> {
        self.name@
    }
}

impl FeatureId {
    /// The identifier with the given name.
    pub fn new(name: &str) -> (id: FeatureId)
        ensures
            id@ == name@,
    {
        FeatureId { name: name.to_owned() }
    }

    /// The name, as text.
    pub fn as_str(&self) -> (name: &str)
        ensures
            name@ == self@,
    {
        self.name.as_str()
    }
}

impl Named for FeatureId {
    fn same(&self, other: &FeatureId) -> (r: bool) {
        self.name == other.name
    }

    fn duplicate(&self) -> (r: FeatureId) {
        FeatureId { name: self.name.clone() }
    }

    fn named(name: &str) -> (r: FeatureId) {
        FeatureId::new(name)
    }
}

impl Clone for FeatureId {
    fn clone(&self) -> (r: FeatureId)
        ensures
            r@ == self@,
    {
        self.duplicate()
    }
}

/// The identifier of a tag.
#[derive(Debug, PartialEq, Eq)]
pub struct TagId {
    name: String,
}

impl View for TagId {
    type V = Seq<char>;

    closed spec fn view(&self) -> Seq<char> {
        self.name@
    }
}

impl TagId {
    /// The identifier with the given name.
    pub fn new(name: &str) -> (id: TagId)
        ensures
            id@ == name@,
    {
        TagId { name: name.to_owned() }
    }

    /// The name, as text.
    pub fn as_str(&self) -> (name: &str)
        ensures
            name@ == self@,
    {
        self.name.as_str()
    }
}

impl Named for TagId {
    fn same(&self, other: &TagId) -> (r: bool) {
        self.name == other.name
    }

    fn duplicate(&self) -> (r: TagId) {
        TagId { name: self.name.clone() }
    }

    fn named(name: &str) -> (r: TagId) {
        TagId::new(name)
    }
}

impl Clone for TagId {
    fn clone(&self) -> (r: TagId)
        ensures
            r@ == self@,
    {
        self.duplicate()
    }
}

/// The identifier of a capability, the kind of thing a feature does.
#[derive(Debug, PartialEq, Eq)]
pub struct CapabilityId {
    name: String,
}

impl View for CapabilityId {
    type V = Seq<char>;

    closed spec fn view(&self) -> Seq<char> {
        self.name@
    }
}

impl CapabilityId {
    /// The identifier with the given name.
    pub fn new(name: &str) -> (id: CapabilityId)
        ensures
            id@ == name@,
    {
        CapabilityId { name: name.to_owned() }
    }

    /// The name, as text.
    pub fn as_str(&self) -> (name: &str)
        ensures
            name@ == self@,
    {
        self.name.as_str()
    }
}

impl Named for CapabilityId {
    fn same(&self, other: &CapabilityId) -> (r: bool) {
        self.name == other.name
    }

    fn duplicate(&self) -> (r: CapabilityId) {
        CapabilityId { name: self.name.clone() }
    }

    fn named(name: &str) -> (r: CapabilityId) {
        CapabilityId::new(name)
    }
}

impl Clone for CapabilityId {
    fn clone(&self) -> (r: CapabilityId)
        ensures
            r@ == self@,
    {
        self.duplicate()
    }
}

/// The identifier of an adapter.
#[derive(Debug, PartialEq, Eq)]
pub struct AdapterId {
    name: String,
}

impl View for AdapterId {
    type V = Seq<char>;

    closed spec fn view(&self) -> Seq<char> {
        self.name@
    }
}

impl AdapterId {
    /// The identifier with the given name.
    pub fn new(name: &str) -> (id: AdapterId)
        ensures
            id@ == name@,
    {
        AdapterId { name: name.to_owned() }
    }

    /// The name, as text.
    pub fn as_str(&self) -> (name: &str)
        ensures
            name@ == self@,
    {
        self.name.as_str()
    }
}

impl Named for AdapterId {
    fn same(&self, other: &AdapterId) -> (r: bool) {
        self.name == other.name
    }

    fn duplicate(&self) -> (r: AdapterId) {
        AdapterId { name: self.name.clone() }
    }

    fn named(name: &str) -> (r: AdapterId) {
        AdapterId::new(name)
    }
}

impl Clone for AdapterId {
    fn clone(&self) -> (r: AdapterId)
        ensures
            r@ == self@,
    {
        self.duplicate()
    }
}

} // verus!
