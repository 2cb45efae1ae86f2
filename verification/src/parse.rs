//! Reading selectors, values and ranges from documents.
//!
//! A selector is an object. A service selector may have the members `id` (a
//! string), `tags` (an array of strings) and `features` (an array of feature
//! selectors without `services`). A feature selector may have `id`, `tags`,
//! `implements` or `capability` (a string each: two names for one
//! condition) and `services` (an array of service selectors). Every member
//! is optional, but an object with none of them is refused, and so is one
//! whose members constrain nothing.

use vstd::prelude::*;
use crate::exactly::{ConfigurationError, Exactly};
use crate::ids::{CapabilityId, FeatureId, Named, ServiceId, TagId};
use crate::json::{find, lookup, Json, Member};
use crate::selector::{
    service_selector_views, simple_views, BaseFeatureSelector, FeatureSelector,
    FeatureSelectorView, ServiceSelector, ServiceSelectorView, SimpleFeatureSelector,
    SimpleFeatureSelectorView,
};
use crate::seqs::lemma_map_push;
use crate::tags::TagSet;

verus! {

/// A member that a reader knows.
#[derive(Clone, Copy, Debug, PartialEq, Eq, Structural)]
pub enum Field {
    Id,
    Tags,
    Features,
    Services,
    Implements,
    Capability,
    /// What a value document holds for its kind.
    Value,
    /// The lower bound of a range.
    Min,
    /// The upper bound of a range.
    Max,
}

/// Why a document was refused.
#[derive(Clone, Copy, Debug, PartialEq, Eq, Structural)]
pub enum ParseError {
    /// The document is no object.
    NotAnObject,
    /// The object has none of the members that the reader knows.
    EmptyObject,
    /// A member has a value of the wrong type.
    WrongType(Field),
    /// A member that must be there is not.
    Missing(Field),
    /// An object that must have exactly one member has none, or several.
    NotOneMember,
    /// The one member of an object has a name that the reader does not
    /// know.
    UnknownName,
    /// The members were read, but no selector can be made of them.
    Configuration(ConfigurationError),
}

/// The condition that the member `name` states: none if there is no such
/// member, else the demand of the string that it holds.
pub open spec fn constraint_member(members: Seq<Member>, name: Seq<char>, field: Field) -> Result<
    Exactly<Seq<char>>,
    ParseError,
> {
    match lookup(members, name) {
        None => Ok(Exactly::Always),
        Some(Json::Text(text)) => Ok(Exactly::Exactly(text@)),
        Some(_) => Err(ParseError::WrongType(field)),
    }
}

/// The tags that a list of documents names: each must be a string.
pub open spec fn tag_list(items: Seq<Json>) -> Result<Set<Seq<char>>, ParseError>
    decreases items.len(),
{
    if items.len() == 0 {
        Ok(Set::empty())
    } else {
        match tag_list(items.drop_last()) {
            Err(e) => Err(e),
            Ok(tags) => match items.last() {
                Json::Text(text) => Ok(tags.insert(text@)),
                _ => Err(ParseError::WrongType(Field::Tags)),
            },
        }
    }
}

/// The tags that the member `tags` names: none if there is no such member.
pub open spec fn tags_member(members: Seq<Member>) -> Result<Set<Seq<char>>, ParseError> {
    match lookup(members, "tags"@) {
        None => Ok(Set::empty()),
        Some(Json::Array(items)) => tag_list(items@),
        Some(_) => Err(ParseError::WrongType(Field::Tags)),
    }
}

/// The condition on the capability: what `implements` and `capability`
/// state together.
pub open spec fn capability_members(members: Seq<Member>) -> Result<Exactly<Seq<char>>, ParseError> {
    match constraint_member(members, "implements"@, Field::Implements) {
        Err(e) => Err(e),
        Ok(a) => match constraint_member(members, "capability"@, Field::Capability) {
            Err(e) => Err(e),
            Ok(b) => match a.conjunction(b) {
                Ok(c) => Ok(c),
                Err(e) => Err(ParseError::Configuration(e)),
            },
        },
    }
}

/// What an object says of a feature itself: `id`, `tags`, and `implements`
/// or `capability`, read in this order.
pub open spec fn base_members(members: Seq<Member>) -> Result<
    SimpleFeatureSelectorView,
    ParseError,
> {
    match constraint_member(members, "id"@, Field::Id) {
        Err(e) => Err(e),
        Ok(id) => match tags_member(members) {
            Err(e) => Err(e),
            Ok(tags) => match capability_members(members) {
                Err(e) => Err(e),
                Ok(implements) => Ok(SimpleFeatureSelectorView { id, tags, implements }),
            },
        },
    }
}

/// Whether an object has one of the members that say something of a feature
/// itself.
pub open spec fn has_base_member(members: Seq<Member>) -> bool {
    ||| lookup(members, "id"@) is Some
    ||| lookup(members, "tags"@) is Some
    ||| lookup(members, "implements"@) is Some
    ||| lookup(members, "capability"@) is Some
}

/// The simple feature selector that a document states.
pub open spec fn simple_selector(source: Json) -> Result<SimpleFeatureSelectorView, ParseError> {
    match source {
        Json::Object(members) => if !has_base_member(members@) {
            Err(ParseError::EmptyObject)
        } else {
            match base_members(members@) {
                Err(e) => Err(e),
                Ok(selector) => if selector.unconstrained() {
                    Err(ParseError::Configuration(ConfigurationError::EmptySelector))
                } else {
                    Ok(selector)
                },
            }
        },
        _ => Err(ParseError::NotAnObject),
    }
}

/// The simple feature selectors that a list of documents states: the first
/// document that is refused decides the error.
pub open spec fn simple_selector_list(items: Seq<Json>) -> Result<
    Seq<SimpleFeatureSelectorView>,
    ParseError,
>
    decreases items.len(),
{
    if items.len() == 0 {
        Ok(Seq::empty())
    } else {
        match simple_selector_list(items.drop_last()) {
            Err(e) => Err(e),
            Ok(selectors) => match simple_selector(items.last()) {
                Err(e) => Err(e),
                Ok(selector) => Ok(selectors.push(selector)),
            },
        }
    }
}

/// The selectors that the member `features` states: none if there is no
/// such member.
pub open spec fn features_member(members: Seq<Member>) -> Result<
    Seq<SimpleFeatureSelectorView>,
    ParseError,
> {
    match lookup(members, "features"@) {
        None => Ok(Seq::empty()),
        Some(Json::Array(items)) => simple_selector_list(items@),
        Some(_) => Err(ParseError::WrongType(Field::Features)),
    }
}

/// The service selector that a document states. The members are read in
/// the order `id`, `tags`, `features`.
pub open spec fn service_selector(source: Json) -> Result<ServiceSelectorView, ParseError> {
    match source {
        Json::Object(members) => if lookup(members@, "id"@) is None && lookup(
            members@,
            "tags"@,
        ) is None && lookup(members@, "features"@) is None {
            Err(ParseError::EmptyObject)
        } else {
            match constraint_member(members@, "id"@, Field::Id) {
                Err(e) => Err(e),
                Ok(id) => match tags_member(members@) {
                    Err(e) => Err(e),
                    Ok(tags) => match features_member(members@) {
                        Err(e) => Err(e),
                        Ok(features) => {
                            let selector = ServiceSelectorView { id, tags, features };
                            if selector.unconstrained() {
                                Err(ParseError::Configuration(ConfigurationError::EmptySelector))
                            } else {
                                Ok(selector)
                            }
                        },
                    },
                },
            }
        },
        _ => Err(ParseError::NotAnObject),
    }
}

/// The service selectors that a list of documents states: the first
/// document that is refused decides the error.
pub open spec fn service_selector_list(items: Seq<Json>) -> Result<
    Seq<ServiceSelectorView>,
    ParseError,
>
    decreases items.len(),
{
    if items.len() == 0 {
        Ok(Seq::empty())
    } else {
        match service_selector_list(items.drop_last()) {
            Err(e) => Err(e),
            Ok(selectors) => match service_selector(items.last()) {
                Err(e) => Err(e),
                Ok(selector) => Ok(selectors.push(selector)),
            },
        }
    }
}

/// The selectors that the member `services` states: none if there is no
/// such member.
pub open spec fn services_member(members: Seq<Member>) -> Result<
    Seq<ServiceSelectorView>,
    ParseError,
> {
    match lookup(members, "services"@) {
        None => Ok(Seq::empty()),
        Some(Json::Array(items)) => service_selector_list(items@),
        Some(_) => Err(ParseError::WrongType(Field::Services)),
    }
}

/// The feature selector that a document states. The member `services` is
/// read first, then `id`, `tags`, and `implements` or `capability`.
pub open spec fn feature_selector(source: Json) -> Result<FeatureSelectorView, ParseError> {
    match source {
        Json::Object(members) => if !has_base_member(members@) && lookup(
            members@,
            "services"@,
        ) is None {
            Err(ParseError::EmptyObject)
        } else {
            match services_member(members@) {
                Err(e) => Err(e),
                Ok(services) => match base_members(members@) {
                    Err(e) => Err(e),
                    Ok(base) => {
                        let selector = FeatureSelectorView {
                            id: base.id,
                            services,
                            tags: base.tags,
                            implements: base.implements,
                        };
                        if selector.unconstrained() {
                            Err(ParseError::Configuration(ConfigurationError::EmptySelector))
                        } else {
                            Ok(selector)
                        }
                    },
                },
            }
        },
        _ => Err(ParseError::NotAnObject),
    }
}

/// What was read, as contracts see it.
pub open spec fn read_as<T: View>(r: Result<T, ParseError>) -> Result<T::V, ParseError> {
    match r {
        Ok(v) => Ok(v@),
        Err(e) => Err(e),
    }
}

fn read_constraint<T: Named>(members: &Vec<Member>, name: &str, field: Field) -> (r: Result<
    Exactly<T>,
    ParseError,
>)
    ensures
        read_as(r) == constraint_member(members@, name@, field),
{
    match find(members, name) {
        None => Ok(Exactly::Always),
        Some(Json::Text(text)) => Ok(Exactly::Exactly(T::named(text.as_str()))),
        Some(_) => Err(ParseError::WrongType(field)),
    }
}

/// The tags that a list of documents names.
pub fn read_tag_list(items: &Vec<Json>) -> (r: Result<TagSet, ParseError>)
    ensures
        read_as(r) == tag_list(items@),
{
    let mut tags = TagSet::new();
    let mut i: usize = 0;
    assert(items@.take(0) =~= Seq::<Json>::empty());
    while i < items.len()
        invariant
            i <= items@.len(),
            tag_list(items@.take(i as int)) == Ok::<Set<Seq<char>>, ParseError>(tags@),
        decreases items@.len() - i,
    {
        proof {
            assert(items@.take(i + 1).drop_last() =~= items@.take(i as int));
            assert(items@.take(i + 1).last() == items@[i as int]);
        }
        match &items[i] {
            Json::Text(text) => {
                tags.insert(TagId::new(text.as_str()));
            },
            _ => {
                proof {
                    lemma_tag_list_fails_for_good(items@, i + 1);
                }
                return Err(ParseError::WrongType(Field::Tags));
            },
        }
        i += 1;
    }
    assert(items@.take(i as int) =~= items@);
    Ok(tags)
}

fn read_tags(members: &Vec<Member>) -> (r: Result<TagSet, ParseError>)
    ensures
        read_as(r) == tags_member(members@),
{
    match find(members, "tags") {
        None => Ok(TagSet::new()),
        Some(Json::Array(items)) => read_tag_list(items),
        Some(_) => Err(ParseError::WrongType(Field::Tags)),
    }
}

fn read_capability(members: &Vec<Member>) -> (r: Result<Exactly<CapabilityId>, ParseError>)
    ensures
        read_as(r) == capability_members(members@),
{
    let a: Exactly<CapabilityId> = match read_constraint(members, "implements", Field::Implements) {
        Ok(a) => a,
        Err(e) => {
            return Err(e);
        },
    };
    let b: Exactly<CapabilityId> = match read_constraint(members, "capability", Field::Capability) {
        Ok(b) => b,
        Err(e) => {
            return Err(e);
        },
    };
    match a.and(b) {
        Ok(c) => Ok(c),
        Err(e) => Err(ParseError::Configuration(e)),
    }
}

fn read_base(members: &Vec<Member>) -> (r: Result<SimpleFeatureSelector, ParseError>)
    ensures
        read_as(r) == base_members(members@),
{
    let id: Exactly<FeatureId> = match read_constraint(members, "id", Field::Id) {
        Ok(id) => id,
        Err(e) => {
            return Err(e);
        },
    };
    let tags = match read_tags(members) {
        Ok(tags) => tags,
        Err(e) => {
            return Err(e);
        },
    };
    let implements = match read_capability(members) {
        Ok(implements) => implements,
        Err(e) => {
            return Err(e);
        },
    };
    Ok(BaseFeatureSelector { id, services: (), tags, implements })
}

fn has_any_base_member(members: &Vec<Member>) -> (r: bool)
    ensures
        r == has_base_member(members@),
{
    find(members, "id").is_some() || find(members, "tags").is_some() || find(
        members,
        "implements",
    ).is_some() || find(members, "capability").is_some()
}

impl BaseFeatureSelector<()> {
    /// The name of what [`SimpleFeatureSelector::parse`] reads.
    pub fn description() -> (r: String)
        ensures
            r@ == "SimpleFeatureSelector"@,
    {
        "SimpleFeatureSelector".to_owned()
    }

    /// Reads a simple feature selector from a document.
    pub fn parse(source: &Json) -> (r: Result<SimpleFeatureSelector, ParseError>)
        ensures
            read_as(r) == simple_selector(*source),
            r matches Ok(selector) ==> selector@.valid(),
    {
        let members = match source {
            Json::Object(members) => members,
            _ => {
                return Err(ParseError::NotAnObject);
            },
        };
        if !has_any_base_member(members) {
            return Err(ParseError::EmptyObject);
        }
        let selector = match read_base(members) {
            Ok(selector) => selector,
            Err(e) => {
                return Err(e);
            },
        };
        if selector.is_unconstrained() {
            return Err(ParseError::Configuration(ConfigurationError::EmptySelector));
        }
        Ok(selector)
    }
}

/// Every simple feature selector that a list of documents states
/// constrains something.
pub proof fn lemma_stated_simple_selectors_are_valid(items: Seq<Json>)
    ensures
        simple_selector_list(items) matches Ok(selectors) ==> forall|i: int|
            0 <= i < selectors.len() ==> (#[trigger] selectors[i]).valid(),
    decreases items.len(),
{
    if items.len() > 0 {
        lemma_stated_simple_selectors_are_valid(items.drop_last());
    }
}

/// A service selector that a document states may be put to a catalog: it
/// constrains something, and so does each selector nested in it.
pub proof fn lemma_stated_service_selector_is_valid(source: Json)
    ensures
        service_selector(source) matches Ok(selector) ==> selector.valid(),
{
    match source {
        Json::Object(members) => {
            match lookup(members@, "features"@) {
                Some(Json::Array(items)) => {
                    lemma_stated_simple_selectors_are_valid(items@);
                },
                _ => {},
            }
        },
        _ => {},
    }
}

/// Every service selector that a list of documents states may be put to a
/// catalog.
pub proof fn lemma_stated_service_selectors_are_valid(items: Seq<Json>)
    ensures
        service_selector_list(items) matches Ok(selectors) ==> forall|i: int|
            0 <= i < selectors.len() ==> (#[trigger] selectors[i]).valid(),
    decreases items.len(),
{
    if items.len() > 0 {
        lemma_stated_service_selectors_are_valid(items.drop_last());
        lemma_stated_service_selector_is_valid(items.last());
    }
}

/// A feature selector that a document states may be put to a catalog: it
/// constrains something, and so does each selector nested in it.
pub proof fn lemma_stated_feature_selector_is_valid(source: Json)
    ensures
        feature_selector(source) matches Ok(selector) ==> selector.valid(),
{
    match source {
        Json::Object(members) => {
            match lookup(members@, "services"@) {
                Some(Json::Array(items)) => {
                    lemma_stated_service_selectors_are_valid(items@);
                },
                _ => {},
            }
        },
        _ => {},
    }
}

/// Once a prefix of a list of documents is refused as a list of tags, the
/// whole list is refused, with the same error.
proof fn lemma_tag_list_fails_for_good(items: Seq<Json>, n: int)
    requires
        0 <= n <= items.len(),
        tag_list(items.take(n)) is Err,
    ensures
        tag_list(items) == tag_list(items.take(n)),
    decreases items.len() - n,
{
    if n == items.len() {
        assert(items.take(n) =~= items);
    } else {
        assert(items.take(n + 1).drop_last() =~= items.take(n));
        lemma_tag_list_fails_for_good(items, n + 1);
    }
}

/// Once a prefix of a list of documents is refused as a list of simple
/// feature selectors, the whole list is refused, with the same error.
proof fn lemma_simple_list_fails_for_good(items: Seq<Json>, n: int)
    requires
        0 <= n <= items.len(),
        simple_selector_list(items.take(n)) is Err,
    ensures
        simple_selector_list(items) == simple_selector_list(items.take(n)),
    decreases items.len() - n,
{
    if n == items.len() {
        assert(items.take(n) =~= items);
    } else {
        assert(items.take(n + 1).drop_last() =~= items.take(n));
        lemma_simple_list_fails_for_good(items, n + 1);
    }
}

/// Once a prefix of a list of documents is refused as a list of service
/// selectors, the whole list is refused, with the same error.
proof fn lemma_service_list_fails_for_good(items: Seq<Json>, n: int)
    requires
        0 <= n <= items.len(),
        service_selector_list(items.take(n)) is Err,
    ensures
        service_selector_list(items) == service_selector_list(items.take(n)),
    decreases items.len() - n,
{
    if n == items.len() {
        assert(items.take(n) =~= items);
    } else {
        assert(items.take(n + 1).drop_last() =~= items.take(n));
        lemma_service_list_fails_for_good(items, n + 1);
    }
}

fn read_simple_list(items: &Vec<Json>) -> (r: Result<Vec<SimpleFeatureSelector>, ParseError>)
    ensures
        match r {
            Ok(selectors) => simple_selector_list(items@) == Ok::<
                Seq<SimpleFeatureSelectorView>,
                ParseError,
            >(simple_views(selectors@)),
            Err(e) => simple_selector_list(items@) == Err::<
                Seq<SimpleFeatureSelectorView>,
                ParseError,
            >(e),
        },
{
    let mut selectors: Vec<SimpleFeatureSelector> = Vec::new();
    let mut i: usize = 0;
    assert(items@.take(0) =~= Seq::<Json>::empty());
    assert(simple_views(selectors@) =~= Seq::empty());
    while i < items.len()
        invariant
            i <= items@.len(),
            simple_selector_list(items@.take(i as int)) == Ok::<
                Seq<SimpleFeatureSelectorView>,
                ParseError,
            >(simple_views(selectors@)),
        decreases items@.len() - i,
    {
        proof {
            assert(items@.take(i + 1).drop_last() =~= items@.take(i as int));
            assert(items@.take(i + 1).last() == items@[i as int]);
        }
        match SimpleFeatureSelector::parse(&items[i]) {
            Ok(selector) => {
                let ghost before = selectors@;
                selectors.push(selector);
                proof {
                    lemma_map_push(before, selector, |s: SimpleFeatureSelector| s@);
                }
            },
            Err(e) => {
                proof {
                    lemma_simple_list_fails_for_good(items@, i + 1);
                }
                return Err(e);
            },
        }
        i += 1;
    }
    assert(items@.take(i as int) =~= items@);
    Ok(selectors)
}

fn read_features(members: &Vec<Member>) -> (r: Result<Vec<SimpleFeatureSelector>, ParseError>)
    ensures
        match r {
            Ok(selectors) => features_member(members@) == Ok::<
                Seq<SimpleFeatureSelectorView>,
                ParseError,
            >(simple_views(selectors@)),
            Err(e) => features_member(members@) == Err::<
                Seq<SimpleFeatureSelectorView>,
                ParseError,
            >(e),
        },
{
    match find(members, "features") {
        None => {
            let selectors: Vec<SimpleFeatureSelector> = Vec::new();
            assert(simple_views(selectors@) =~= Seq::empty());
            Ok(selectors)
        },
        Some(Json::Array(items)) => read_simple_list(items),
        Some(_) => Err(ParseError::WrongType(Field::Features)),
    }
}

impl ServiceSelector {
    /// The name of what [`ServiceSelector::parse`] reads.
    pub fn description() -> (r: String)
        ensures
            r@ == "ServiceSelector"@,
    {
        "ServiceSelector".to_owned()
    }

    /// Reads a service selector from a document.
    pub fn parse(source: &Json) -> (r: Result<ServiceSelector, ParseError>)
        ensures
            read_as(r) == service_selector(*source),
            r matches Ok(selector) ==> selector@.valid(),
    {
        proof {
            lemma_stated_service_selector_is_valid(*source);
        }
        let members = match source {
            Json::Object(members) => members,
            _ => {
                return Err(ParseError::NotAnObject);
            },
        };
        if find(members, "id").is_none() && find(members, "tags").is_none() && find(
            members,
            "features",
        ).is_none() {
            return Err(ParseError::EmptyObject);
        }
        let id: Exactly<ServiceId> = match read_constraint(members, "id", Field::Id) {
            Ok(id) => id,
            Err(e) => {
                return Err(e);
            },
        };
        let tags = match read_tags(members) {
            Ok(tags) => tags,
            Err(e) => {
                return Err(e);
            },
        };
        let features = match read_features(members) {
            Ok(features) => features,
            Err(e) => {
                return Err(e);
            },
        };
        let selector = ServiceSelector { id, tags, features };
        if selector.is_unconstrained() {
            return Err(ParseError::Configuration(ConfigurationError::EmptySelector));
        }
        Ok(selector)
    }
}

fn read_service_list(items: &Vec<Json>) -> (r: Result<Vec<ServiceSelector>, ParseError>)
    ensures
        match r {
            Ok(selectors) => service_selector_list(items@) == Ok::<
                Seq<ServiceSelectorView>,
                ParseError,
            >(service_selector_views(selectors@)),
            Err(e) => service_selector_list(items@) == Err::<Seq<ServiceSelectorView>, ParseError>(
                e,
            ),
        },
{
    let mut selectors: Vec<ServiceSelector> = Vec::new();
    let mut i: usize = 0;
    assert(items@.take(0) =~= Seq::<Json>::empty());
    assert(service_selector_views(selectors@) =~= Seq::empty());
    while i < items.len()
        invariant
            i <= items@.len(),
            service_selector_list(items@.take(i as int)) == Ok::<
                Seq<ServiceSelectorView>,
                ParseError,
            >(service_selector_views(selectors@)),
        decreases items@.len() - i,
    {
        proof {
            assert(items@.take(i + 1).drop_last() =~= items@.take(i as int));
            assert(items@.take(i + 1).last() == items@[i as int]);
        }
        match ServiceSelector::parse(&items[i]) {
            Ok(selector) => {
                let ghost before = selectors@;
                selectors.push(selector);
                proof {
                    lemma_map_push(before, selector, |s: ServiceSelector| s@);
                }
            },
            Err(e) => {
                proof {
                    lemma_service_list_fails_for_good(items@, i + 1);
                }
                return Err(e);
            },
        }
        i += 1;
    }
    assert(items@.take(i as int) =~= items@);
    Ok(selectors)
}

fn read_services(members: &Vec<Member>) -> (r: Result<Vec<ServiceSelector>, ParseError>)
    ensures
        match r {
            Ok(selectors) => services_member(members@) == Ok::<
                Seq<ServiceSelectorView>,
                ParseError,
            >(service_selector_views(selectors@)),
            Err(e) => services_member(members@) == Err::<Seq<ServiceSelectorView>, ParseError>(e),
        },
{
    match find(members, "services") {
        None => {
            let selectors: Vec<ServiceSelector> = Vec::new();
            assert(service_selector_views(selectors@) =~= Seq::empty());
            Ok(selectors)
        },
        Some(Json::Array(items)) => read_service_list(items),
        Some(_) => Err(ParseError::WrongType(Field::Services)),
    }
}

impl BaseFeatureSelector<Vec<ServiceSelector>> {
    /// The name of what [`FeatureSelector::parse`] reads.
    pub fn description() -> (r: String)
        ensures
            r@ == "FeatureSelector"@,
    {
        "FeatureSelector".to_owned()
    }

    /// Reads a feature selector from a document.
    pub fn parse(source: &Json) -> (r: Result<FeatureSelector, ParseError>)
        ensures
            read_as(r) == feature_selector(*source),
            r matches Ok(selector) ==> selector@.valid(),
    {
        proof {
            lemma_stated_feature_selector_is_valid(*source);
        }
        let members = match source {
            Json::Object(members) => members,
            _ => {
                return Err(ParseError::NotAnObject);
            },
        };
        if !has_any_base_member(members) && find(members, "services").is_none() {
            return Err(ParseError::EmptyObject);
        }
        let services = match read_services(members) {
            Ok(services) => services,
            Err(e) => {
                return Err(e);
            },
        };
        let base = match read_base(members) {
            Ok(base) => base,
            Err(e) => {
                return Err(e);
            },
        };
        let selector = BaseFeatureSelector {
            id: base.id,
            services,
            tags: base.tags,
            implements: base.implements,
        };
        if selector.is_unconstrained() {
            return Err(ParseError::Configuration(ConfigurationError::EmptySelector));
        }
        Ok(selector)
    }
}

} // verus!
