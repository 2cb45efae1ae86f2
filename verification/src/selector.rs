//! Selectors for services and features.
//!
//! Clients never address a service or a feature directly: they give a
//! selector, a conjunction of conditions, and the catalog finds what meets
//! it. This allows operations such as closing every door of the entrance,
//! where the caller need not know which doors there are.

use vstd::prelude::*;
use crate::exactly::{ConfigurationError, Exactly};
use crate::ids::{CapabilityId, FeatureId, Named, ServiceId, TagId};
use crate::services::{
    feature_views, record_views, Feature, FeatureView, ServiceRecord, ServiceRecordView,
};
use crate::tags::{tag_names, TagSet};

verus! {

/// A selector for features.
///
/// `T` is what the selector says of the service that owns the feature:
/// nothing, for the selectors that stand inside a [`ServiceSelector`], or a
/// list of service selectors.
#[derive(Debug)]
pub struct BaseFeatureSelector<T> {
    /// If `Exactly(id)`, accept only the feature with that id.
    pub id: Exactly<FeatureId>,
    /// Restrict to features whose service meets all of these.
    pub services: T,
    /// Restrict to features that have all the tags in `tags`.
    pub tags: TagSet,
    /// If `Exactly(k)`, restrict to features of capability `k`.
    pub implements: Exactly<CapabilityId>,
}

/// A feature selector that says nothing of the feature's service.
pub type SimpleFeatureSelector = BaseFeatureSelector<()>;

/// A feature selector with conditions on the feature's service.
pub type FeatureSelector = BaseFeatureSelector<Vec<ServiceSelector>>;

/// A selector for services.
#[derive(Debug)]
pub struct ServiceSelector {
    /// If `Exactly(id)`, accept only the service with that id.
    pub id: Exactly<ServiceId>,
    /// Restrict to services that have all the tags in `tags`.
    pub tags: TagSet,
    /// Restrict to services that have, for each of these, a feature that
    /// meets it.
    pub features: Vec<SimpleFeatureSelector>,
}

/// A simple feature selector, as contracts see it.
pub struct SimpleFeatureSelectorView {
    pub id: Exactly<Seq<char>>,
    pub tags: Set<Seq<char>>,
    pub implements: Exactly<Seq<char>>,
}

/// A service selector, as contracts see it.
pub struct ServiceSelectorView {
    pub id: Exactly<Seq<char>>,
    pub tags: Set<Seq<char>>,
    pub features: Seq<SimpleFeatureSelectorView>,
}

/// A feature selector, as contracts see it.
pub struct FeatureSelectorView {
    pub id: Exactly<Seq<char>>,
    pub services: Seq<ServiceSelectorView>,
    pub tags: Set<Seq<char>>,
    pub implements: Exactly<Seq<char>>,
}

impl View for BaseFeatureSelector<()> {
    type V = SimpleFeatureSelectorView;

    open spec fn view(&self) -> SimpleFeatureSelectorView {
        SimpleFeatureSelectorView { id: self.id@, tags: self.tags@, implements: self.implements@ }
    }
}

/// The views of a sequence of simple feature selectors, in its order.
pub open spec fn simple_views(selectors: Seq<SimpleFeatureSelector>) -> Seq<
    SimpleFeatureSelectorView,
> {
    selectors.map_values(|s: SimpleFeatureSelector| s@)
}

impl View for ServiceSelector {
    type V = ServiceSelectorView;

    open spec fn view(&self) -> ServiceSelectorView {
        ServiceSelectorView {
            id: self.id@,
            tags: self.tags@,
            features: simple_views(self.features@),
        }
    }
}

/// The views of a sequence of service selectors, in its order.
pub open spec fn service_selector_views(selectors: Seq<ServiceSelector>) -> Seq<
    ServiceSelectorView,
> {
    selectors.map_values(|s: ServiceSelector| s@)
}

impl View for BaseFeatureSelector<Vec<ServiceSelector>> {
    type V = FeatureSelectorView;

    open spec fn view(&self) -> FeatureSelectorView {
        FeatureSelectorView {
            id: self.id@,
            services: service_selector_views(self.services@),
            tags: self.tags@,
            implements: self.implements@,
        }
    }
}

/// The views of a sequence of feature selectors, in its order.
pub open spec fn feature_selector_views(selectors: Seq<FeatureSelector>) -> Seq<
    FeatureSelectorView,
> {
    selectors.map_values(|s: FeatureSelector| s@)
}

/// Whether a feature meets the three conditions that a feature selector
/// puts on the feature itself: its id, its tags and its capability. The
/// selector's tags must all be among the feature's; no tags ask nothing.
pub open spec fn base_accepts(
    id: Exactly<Seq<char>>,
    tags: Set<Seq<char>>,
    implements: Exactly<Seq<char>>,
    feature: FeatureView,
) -> bool {
    &&& id.accepts(feature.id)
    &&& tags.subset_of(feature.tags)
    &&& implements.accepts(feature.capability)
}

impl SimpleFeatureSelectorView {
    /// Whether the selector accepts `feature`.
    pub open spec fn accepts(self, feature: FeatureView) -> bool {
        base_accepts(self.id, self.tags, self.implements, feature)
    }

    /// Whether the service `service` has, among `features`, a feature that
    /// the selector accepts.
    pub open spec fn met_by_feature_of(self, service: Seq<char>, features: Seq<FeatureView>) -> bool {
        exists|j: int|
            0 <= j < features.len() && (#[trigger] features[j]).service == service && self.accepts(
                features[j],
            )
    }

    /// Whether the selector constrains nothing.
    pub open spec fn unconstrained(self) -> bool {
        self.id is Always && self.tags == Set::<Seq<char>>::empty() && self.implements is Always
    }

    /// Whether the selector may be put to a catalog: it constrains
    /// something.
    pub open spec fn valid(self) -> bool {
        !self.unconstrained()
    }
}

impl ServiceSelectorView {
    /// Whether the selector accepts `service`, whose features are those of
    /// `features` that name it: the id and the tags are as demanded, and each
    /// nested selector is met by at least one feature of the service.
    pub open spec fn accepts(self, service: ServiceRecordView, features: Seq<FeatureView>) -> bool {
        &&& self.id.accepts(service.id)
        &&& self.tags.subset_of(service.tags)
        &&& forall|i: int|
            0 <= i < self.features.len() ==> (#[trigger] self.features[i]).met_by_feature_of(
                service.id,
                features,
            )
    }

    /// Whether the service named `owner` is one of `services` and is
    /// accepted.
    pub open spec fn met_by_service(
        self,
        owner: Seq<char>,
        services: Seq<ServiceRecordView>,
        features: Seq<FeatureView>,
    ) -> bool {
        exists|j: int|
            0 <= j < services.len() && (#[trigger] services[j]).id == owner && self.accepts(
                services[j],
                features,
            )
    }

    /// Whether the selector constrains nothing.
    pub open spec fn unconstrained(self) -> bool {
        self.id is Always && self.tags == Set::<Seq<char>>::empty() && self.features.len() == 0
    }

    /// Whether the selector may be put to a catalog: it constrains
    /// something, and so does each selector nested in it.
    pub open spec fn valid(self) -> bool {
        &&& !self.unconstrained()
        &&& forall|i: int| 0 <= i < self.features.len() ==> (#[trigger] self.features[i]).valid()
    }
}

/// Whether each of `selectors` may be put to a catalog.
pub open spec fn all_services_valid(selectors: Seq<ServiceSelectorView>) -> bool {
    forall|i: int| 0 <= i < selectors.len() ==> (#[trigger] selectors[i]).valid()
}

/// Whether each of `selectors` may be put to a catalog.
pub open spec fn all_features_valid(selectors: Seq<FeatureSelectorView>) -> bool {
    forall|i: int| 0 <= i < selectors.len() ==> (#[trigger] selectors[i]).valid()
}

impl FeatureSelectorView {
    /// Whether the selector accepts `feature` in a catalog of `services` and
    /// `features`: the feature's id, tags and capability are as demanded, and
    /// each nested selector is met by the service that owns the feature.
    pub open spec fn accepts(
        self,
        feature: FeatureView,
        services: Seq<ServiceRecordView>,
        features: Seq<FeatureView>,
    ) -> bool {
        &&& base_accepts(self.id, self.tags, self.implements, feature)
        &&& forall|i: int|
            0 <= i < self.services.len() ==> (#[trigger] self.services[i]).met_by_service(
                feature.service,
                services,
                features,
            )
    }

    /// Whether the selector constrains nothing.
    pub open spec fn unconstrained(self) -> bool {
        &&& self.id is Always
        &&& self.tags == Set::<Seq<char>>::empty()
        &&& self.implements is Always
        &&& self.services.len() == 0
    }

    /// Whether the selector may be put to a catalog: it constrains
    /// something, and so does each selector nested in it, at any depth.
    pub open spec fn valid(self) -> bool {
        &&& !self.unconstrained()
        &&& forall|i: int| 0 <= i < self.services.len() ==> (#[trigger] self.services[i]).valid()
    }
}

impl<T> BaseFeatureSelector<T> {
    /// Restricts the selector to the feature with the given id. Fails when
    /// the selector already demands another id.
    pub fn with_id(self, id: FeatureId) -> (r: Result<Self, ConfigurationError>)
        ensures
            match self.id@.conjunction(Exactly::Exactly(id@)) {
                Ok(c) => r is Ok && r->Ok_0.id@ == c && r->Ok_0.services == self.services
                    && r->Ok_0.tags == self.tags && r->Ok_0.implements == self.implements,
                Err(e) => r == Err::<Self, ConfigurationError>(e),
            },
    {
        let BaseFeatureSelector { id: old_id, services, tags, implements } = self;
        let composed = old_id.and(Exactly::Exactly(id));
        match composed {
            Ok(id) => Ok(BaseFeatureSelector { id, services, tags, implements }),
            Err(e) => Err(e),
        }
    }

    /// Restricts the selector to features of the given capability. Fails
    /// when the selector already demands another capability.
    pub fn with_implements(self, id: CapabilityId) -> (r: Result<Self, ConfigurationError>)
        ensures
            match self.implements@.conjunction(Exactly::Exactly(id@)) {
                Ok(c) => r is Ok && r->Ok_0.implements@ == c && r->Ok_0.services == self.services
                    && r->Ok_0.tags == self.tags && r->Ok_0.id == self.id,
                Err(e) => r == Err::<Self, ConfigurationError>(e),
            },
    {
        let BaseFeatureSelector { id: old_id, services, tags, implements } = self;
        let composed = implements.and(Exactly::Exactly(id));
        match composed {
            Ok(implements) => Ok(BaseFeatureSelector { id: old_id, services, tags, implements }),
            Err(e) => Err(e),
        }
    }

    /// Restricts the selector to features that have all the tags in `tags`,
    /// beside those it demands already.
    pub fn with_tags(self, tags: &[TagId]) -> (r: Self)
        ensures
            r.tags@ == self.tags@.union(tag_names(tags@)),
            r.id == self.id,
            r.services == self.services,
            r.implements == self.implements,
    {
        let BaseFeatureSelector { id, services, tags: mut merged, implements } = self;
        merged.extend(tags);
        BaseFeatureSelector { id, services, tags: merged, implements }
    }

    /// Whether `feature` has the id, the tags and the capability that the
    /// selector demands.
    pub fn matches_base(&self, feature: &Feature) -> (r: bool)
        ensures
            r == base_accepts(self.id@, self.tags@, self.implements@, feature@),
    {
        self.id.matches(&feature.id) && feature.tags.includes(&self.tags)
            && self.implements.matches(&feature.capability)
    }
}

impl BaseFeatureSelector<()> {
    /// The selector that accepts every feature.
    pub fn new() -> (r: Self)
        ensures
            r@.unconstrained(),
    {
        BaseFeatureSelector {
            id: Exactly::Always,
            services: (),
            tags: TagSet::new(),
            implements: Exactly::Always,
        }
    }

    /// Whether the selector accepts `feature`.
    pub fn matches(&self, feature: &Feature) -> (r: bool)
        ensures
            r == self@.accepts(feature@),
    {
        self.matches_base(feature)
    }

    /// Whether the selector constrains nothing.
    pub fn is_unconstrained(&self) -> (r: bool)
        ensures
            r == self@.unconstrained(),
    {
        self.id.is_always() && self.tags.is_empty() && self.implements.is_always()
    }

    /// Refuses the selector that constrains nothing: it would select every
    /// feature.
    pub fn validate(&self) -> (r: Result<(), ConfigurationError>)
        ensures
            r is Ok <==> self@.valid(),
            r is Err ==> r == Err::<(), ConfigurationError>(ConfigurationError::EmptySelector),
    {
        if self.is_unconstrained() {
            Err(ConfigurationError::EmptySelector)
        } else {
            Ok(())
        }
    }

    /// Whether one of `features` belongs to the service `service` and is
    /// accepted.
    pub fn matches_feature_of(&self, service: &ServiceId, features: &Vec<Feature>) -> (r: bool)
        ensures
            r == self@.met_by_feature_of(service@, feature_views(features@)),
    {
        let mut j: usize = 0;
        while j < features.len()
            invariant
                j <= features@.len(),
                forall|k: int|
                    0 <= k < j ==> !((#[trigger] feature_views(features@)[k]).service == service@
                        && self@.accepts(feature_views(features@)[k])),
            decreases features@.len() - j,
        {
            if features[j].service.same(service) && self.matches(&features[j]) {
                assert(feature_views(features@)[j as int] == features@[j as int]@);
                return true;
            }
            j += 1;
        }
        false
    }
}

impl Clone for BaseFeatureSelector<()> {
    fn clone(&self) -> (r: Self)
        ensures
            r@ == self@,
    {
        BaseFeatureSelector {
            id: self.id.duplicate(),
            services: (),
            tags: self.tags.clone(),
            implements: self.implements.duplicate(),
        }
    }
}

/// A copy of a list of simple feature selectors.
pub fn clone_simple_selectors(selectors: &[SimpleFeatureSelector]) -> (r: Vec<
    SimpleFeatureSelector,
>)
    ensures
        simple_views(r@) == simple_views(selectors@),
{
    let mut r: Vec<SimpleFeatureSelector> = Vec::new();
    let mut i: usize = 0;
    while i < selectors.len()
        invariant
            i <= selectors@.len(),
            simple_views(r@) == simple_views(selectors@.take(i as int)),
        decreases selectors@.len() - i,
    {
        let ghost before = r@;
        r.push(selectors[i].clone());
        assert(simple_views(r@) =~= simple_views(before).push(selectors@[i as int]@));
        assert(simple_views(selectors@.take(i + 1)) =~= simple_views(
            selectors@.take(i as int),
        ).push(selectors@[i as int]@));
        i += 1;
    }
    assert(selectors@.take(i as int) =~= selectors@);
    r
}

impl ServiceSelector {
    /// The selector that accepts every service.
    pub fn new() -> (r: Self)
        ensures
            r@.unconstrained(),
    {
        ServiceSelector { id: Exactly::Always, tags: TagSet::new(), features: Vec::new() }
    }

    /// Restricts the selector to the service with the given id. Fails when
    /// the selector already demands another id.
    pub fn with_id(self, id: ServiceId) -> (r: Result<Self, ConfigurationError>)
        ensures
            match self.id@.conjunction(Exactly::Exactly(id@)) {
                Ok(c) => r is Ok && r->Ok_0.id@ == c && r->Ok_0.tags == self.tags
                    && r->Ok_0.features == self.features,
                Err(e) => r == Err::<Self, ConfigurationError>(e),
            },
    {
        let ServiceSelector { id: old_id, tags, features } = self;
        let composed = old_id.and(Exactly::Exactly(id));
        match composed {
            Ok(id) => Ok(ServiceSelector { id, tags, features }),
            Err(e) => Err(e),
        }
    }

    /// Restricts the selector to services that have all the tags in `tags`,
    /// beside those it demands already.
    pub fn with_tags(self, tags: &[TagId]) -> (r: Self)
        ensures
            r.tags@ == self.tags@.union(tag_names(tags@)),
            r.id == self.id,
            r.features == self.features,
    {
        let ServiceSelector { id, tags: mut merged, features } = self;
        merged.extend(tags);
        ServiceSelector { id, tags: merged, features }
    }

    /// Restricts the selector to services that have a feature for each of
    /// `features`, beside those it demands already.
    pub fn with_features(self, features: &[SimpleFeatureSelector]) -> (r: Self)
        ensures
            simple_views(r.features@) == simple_views(self.features@) + simple_views(features@),
            r.id == self.id,
            r.tags == self.tags,
    {
        let ServiceSelector { id, tags, features: mut all } = self;
        let mut more = clone_simple_selectors(features);
        let ghost before = all@;
        let ghost added = more@;
        all.append(&mut more);
        assert(simple_views(all@) =~= simple_views(before) + simple_views(added));
        ServiceSelector { id, tags, features: all }
    }

    /// The selector that accepts what both `self` and `other` accept. Fails
    /// when the two demand different ids.
    pub fn and(self, other: ServiceSelector) -> (r: Result<Self, ConfigurationError>)
        ensures
            match self.id@.conjunction(other.id@) {
                Ok(c) => r is Ok && r->Ok_0@ == (ServiceSelectorView {
                    id: c,
                    tags: self.tags@.union(other.tags@),
                    features: self@.features + other@.features,
                }),
                Err(e) => r == Err::<Self, ConfigurationError>(e),
            },
    {
        let ServiceSelector { id, tags, features: mut all } = self;
        let ServiceSelector { id: other_id, tags: other_tags, features: mut more } = other;
        let composed = id.and(other_id);
        match composed {
            Ok(id) => {
                let tags = tags.union(&other_tags);
                let ghost before = all@;
                let ghost added = more@;
                all.append(&mut more);
                assert(simple_views(all@) =~= simple_views(before) + simple_views(added));
                Ok(ServiceSelector { id, tags, features: all })
            },
            Err(e) => Err(e),
        }
    }

    /// Whether the selector constrains nothing.
    pub fn is_unconstrained(&self) -> (r: bool)
        ensures
            r == self@.unconstrained(),
    {
        self.id.is_always() && self.tags.is_empty() && self.features.len() == 0
    }

    /// Refuses the selector that constrains nothing, and the selector that
    /// holds one: such a selector would select every service, or take every
    /// feature for an answer.
    pub fn validate(&self) -> (r: Result<(), ConfigurationError>)
        ensures
            r is Ok <==> self@.valid(),
            r is Err ==> r == Err::<(), ConfigurationError>(ConfigurationError::EmptySelector),
    {
        if self.is_unconstrained() {
            return Err(ConfigurationError::EmptySelector);
        }
        let mut i: usize = 0;
        while i < self.features.len()
            invariant
                i <= self.features@.len(),
                !self@.unconstrained(),
                forall|k: int| 0 <= k < i ==> (#[trigger] self@.features[k]).valid(),
            decreases self.features@.len() - i,
        {
            assert(self@.features[i as int] == self.features@[i as int]@);
            if self.features[i].is_unconstrained() {
                return Err(ConfigurationError::EmptySelector);
            }
            i += 1;
        }
        Ok(())
    }

    /// Whether the selector accepts `service`, given all the features of the
    /// catalog.
    pub fn matches(&self, service: &ServiceRecord, features: &Vec<Feature>) -> (r: bool)
        ensures
            r == self@.accepts(service@, feature_views(features@)),
    {
        if !self.id.matches(&service.id) || !service.tags.includes(&self.tags) {
            return false;
        }
        let mut i: usize = 0;
        while i < self.features.len()
            invariant
                i <= self.features@.len(),
                forall|k: int|
                    0 <= k < i ==> (#[trigger] self@.features[k]).met_by_feature_of(
                        service@.id,
                        feature_views(features@),
                    ),
            decreases self.features@.len() - i,
        {
            if !self.features[i].matches_feature_of(&service.id, features) {
                assert(self@.features[i as int] == self.features@[i as int]@);
                return false;
            }
            assert(self@.features[i as int] == self.features@[i as int]@);
            i += 1;
        }
        true
    }

    /// Whether the service named `owner` is one of `services` and is
    /// accepted.
    pub fn matches_service_named(
        &self,
        owner: &ServiceId,
        services: &Vec<ServiceRecord>,
        features: &Vec<Feature>,
    ) -> (r: bool)
        ensures
            r == self@.met_by_service(
                owner@,
                record_views(services@),
                feature_views(features@),
            ),
    {
        let ghost views = record_views(services@);
        let mut j: usize = 0;
        while j < services.len()
            invariant
                j <= services@.len(),
                views == record_views(services@),
                forall|k: int|
                    0 <= k < j ==> !((#[trigger] views[k]).id == owner@ && self@.accepts(
                        views[k],
                        feature_views(features@),
                    )),
            decreases services@.len() - j,
        {
            if services[j].id.same(owner) && self.matches(&services[j], features) {
                assert(views[j as int] == services@[j as int]@);
                return true;
            }
            assert(views[j as int] == services@[j as int]@);
            j += 1;
        }
        false
    }
}

impl Clone for ServiceSelector {
    fn clone(&self) -> (r: Self)
        ensures
            r@ == self@,
    {
        ServiceSelector {
            id: self.id.duplicate(),
            tags: self.tags.clone(),
            features: clone_simple_selectors(self.features.as_slice()),
        }
    }
}

/// A copy of a list of service selectors.
pub fn clone_service_selectors(selectors: &[ServiceSelector]) -> (r: Vec<ServiceSelector>)
    ensures
        service_selector_views(r@) == service_selector_views(selectors@),
{
    let mut r: Vec<ServiceSelector> = Vec::new();
    let mut i: usize = 0;
    while i < selectors.len()
        invariant
            i <= selectors@.len(),
            service_selector_views(r@) == service_selector_views(selectors@.take(i as int)),
        decreases selectors@.len() - i,
    {
        let ghost before = r@;
        r.push(selectors[i].clone());
        assert(service_selector_views(r@) =~= service_selector_views(before).push(
            selectors@[i as int]@,
        ));
        assert(service_selector_views(selectors@.take(i + 1)) =~= service_selector_views(
            selectors@.take(i as int),
        ).push(selectors@[i as int]@));
        i += 1;
    }
    assert(selectors@.take(i as int) =~= selectors@);
    r
}

impl BaseFeatureSelector<Vec<ServiceSelector>> {
    /// The selector that accepts every feature.
    pub fn new() -> (r: Self)
        ensures
            r@.unconstrained(),
    {
        BaseFeatureSelector {
            id: Exactly::Always,
            services: Vec::new(),
            tags: TagSet::new(),
            implements: Exactly::Always,
        }
    }

    /// Restricts the selector to features whose service meets each of
    /// `services`, beside those it demands already.
    pub fn with_service(self, services: &[ServiceSelector]) -> (r: Self)
        ensures
            service_selector_views(r.services@) == service_selector_views(self.services@)
                + service_selector_views(services@),
            r.id == self.id,
            r.tags == self.tags,
            r.implements == self.implements,
    {
        let BaseFeatureSelector { id, services: mut all, tags, implements } = self;
        let mut more = clone_service_selectors(services);
        let ghost before = all@;
        let ghost added = more@;
        all.append(&mut more);
        assert(service_selector_views(all@) =~= service_selector_views(before)
            + service_selector_views(added));
        BaseFeatureSelector { id, services: all, tags, implements }
    }

    /// Whether the selector constrains nothing.
    pub fn is_unconstrained(&self) -> (r: bool)
        ensures
            r == self@.unconstrained(),
    {
        self.id.is_always() && self.tags.is_empty() && self.implements.is_always()
            && self.services.len() == 0
    }

    /// Refuses the selector that constrains nothing, and the selector that
    /// holds one at any depth: such a selector would select every feature,
    /// or take every service for an answer.
    pub fn validate(&self) -> (r: Result<(), ConfigurationError>)
        ensures
            r is Ok <==> self@.valid(),
            r is Err ==> r == Err::<(), ConfigurationError>(ConfigurationError::EmptySelector),
    {
        if self.is_unconstrained() {
            return Err(ConfigurationError::EmptySelector);
        }
        let mut i: usize = 0;
        while i < self.services.len()
            invariant
                i <= self.services@.len(),
                !self@.unconstrained(),
                forall|k: int| 0 <= k < i ==> (#[trigger] self@.services[k]).valid(),
            decreases self.services@.len() - i,
        {
            assert(self@.services[i as int] == self.services@[i as int]@);
            if self.services[i].validate().is_err() {
                return Err(ConfigurationError::EmptySelector);
            }
            i += 1;
        }
        Ok(())
    }

    /// Whether the selector accepts `feature`, given all the services and
    /// features of the catalog.
    pub fn matches(&self, feature: &Feature, services: &Vec<ServiceRecord>, features: &Vec<Feature>) -> (r:
        bool)
        ensures
            r == self@.accepts(
                feature@,
                record_views(services@),
                feature_views(features@),
            ),
    {
        if !self.matches_base(feature) {
            return false;
        }
        let mut i: usize = 0;
        while i < self.services.len()
            invariant
                i <= self.services@.len(),
                forall|k: int|
                    0 <= k < i ==> (#[trigger] self@.services[k]).met_by_service(
                        feature@.service,
                        record_views(services@),
                        feature_views(features@),
                    ),
            decreases self.services@.len() - i,
        {
            if !self.services[i].matches_service_named(&feature.service, services, features) {
                assert(self@.services[i as int] == self.services@[i as int]@);
                return false;
            }
            assert(self@.services[i as int] == self.services@[i as int]@);
            i += 1;
        }
        true
    }
}

impl Clone for BaseFeatureSelector<Vec<ServiceSelector>> {
    fn clone(&self) -> (r: Self)
        ensures
            r@ == self@,
    {
        BaseFeatureSelector {
            id: self.id.duplicate(),
            services: clone_service_selectors(self.services.as_slice()),
            tags: self.tags.clone(),
            implements: self.implements.duplicate(),
        }
    }
}

/// Refuses a list of service selectors of which one constrains nothing, or
/// holds a selector that constrains nothing.
pub fn validate_service_selectors(selectors: &Vec<ServiceSelector>) -> (r: Result<
    (),
    ConfigurationError,
>)
    ensures
        r is Ok <==> all_services_valid(service_selector_views(selectors@)),
        r is Err ==> r == Err::<(), ConfigurationError>(ConfigurationError::EmptySelector),
{
    let mut i: usize = 0;
    while i < selectors.len()
        invariant
            i <= selectors@.len(),
            forall|k: int| 0 <= k < i ==> (#[trigger] service_selector_views(selectors@)[k]).valid(),
        decreases selectors@.len() - i,
    {
        assert(service_selector_views(selectors@)[i as int] == selectors@[i as int]@);
        if selectors[i].validate().is_err() {
            return Err(ConfigurationError::EmptySelector);
        }
        i += 1;
    }
    Ok(())
}

/// Refuses a list of feature selectors of which one constrains nothing, or
/// holds a selector that constrains nothing.
pub fn validate_feature_selectors(selectors: &Vec<FeatureSelector>) -> (r: Result<
    (),
    ConfigurationError,
>)
    ensures
        r is Ok <==> all_features_valid(feature_selector_views(selectors@)),
        r is Err ==> r == Err::<(), ConfigurationError>(ConfigurationError::EmptySelector),
{
    let mut i: usize = 0;
    while i < selectors.len()
        invariant
            i <= selectors@.len(),
            forall|k: int| 0 <= k < i ==> (#[trigger] feature_selector_views(selectors@)[k]).valid(),
        decreases selectors@.len() - i,
    {
        assert(feature_selector_views(selectors@)[i as int] == selectors@[i as int]@);
        if selectors[i].validate().is_err() {
            return Err(ConfigurationError::EmptySelector);
        }
        i += 1;
    }
    Ok(())
}

/// The composition of two service selectors accepts a service exactly when
/// both do.
pub proof fn lemma_and_accepts_what_both_accept(
    a: ServiceSelectorView,
    b: ServiceSelectorView,
    service: ServiceRecordView,
    features: Seq<FeatureView>,
)
    requires
        a.id.conjunction(b.id) is Ok,
    ensures
        (ServiceSelectorView {
            id: a.id.conjunction(b.id)->Ok_0,
            tags: a.tags.union(b.tags),
            features: a.features + b.features,
        }).accepts(service, features) == (a.accepts(service, features) && b.accepts(
            service,
            features,
        )),
{
    let both = ServiceSelectorView {
        id: a.id.conjunction(b.id)->Ok_0,
        tags: a.tags.union(b.tags),
        features: a.features + b.features,
    };
    if both.accepts(service, features) {
        assert forall|i: int| 0 <= i < a.features.len() implies (#[trigger] a.features[i]).met_by_feature_of(
            service.id,
            features,
        ) by {
            assert(both.features[i] == a.features[i]);
        }
        assert forall|i: int| 0 <= i < b.features.len() implies (#[trigger] b.features[i]).met_by_feature_of(
            service.id,
            features,
        ) by {
            assert(both.features[a.features.len() + i] == b.features[i]);
        }
    }
    if a.accepts(service, features) && b.accepts(service, features) {
        assert forall|i: int| 0 <= i < both.features.len() implies (#[trigger] both.features[i]).met_by_feature_of(
            service.id,
            features,
        ) by {
            if i < a.features.len() {
                assert(both.features[i] == a.features[i]);
            } else {
                assert(both.features[i] == b.features[i - a.features.len()]);
            }
        }
    }
}

} // verus!
