//! The catalog of services and features.
//!
//! The catalog is the one place that says which services and features
//! exist. A feature names the service that owns it; the features of a
//! service are the features that name it. Ids are unique, each in its
//! namespace, over the whole catalog.

use vstd::prelude::*;
use crate::ids::{FeatureId, Named, ServiceId, TagId};
use crate::selection::{first_match_order, is_picked, pick_in_order, picked, rows};
use crate::exactly::ConfigurationError;
use crate::selector::{
    all_features_valid, all_services_valid, feature_selector_views, service_selector_views,
    validate_feature_selectors, validate_service_selectors, FeatureSelector, FeatureSelectorView,
    ServiceSelector, ServiceSelectorView,
};
use crate::seqs::{
    as_ints, lemma_filter_keeps_keys_distinct, lemma_filter_next, lemma_filter_none,
    lemma_map_push,
};
use crate::services::{
    feature_names, feature_views, record_views, service_views, Feature, FeatureView, Service,
    ServiceRecord, ServiceRecordView, ServiceView,
};
use crate::tags::tag_names;
use crate::value::Value;

verus! {

/// An id that was to be registered and is in the catalog already.
#[derive(Debug)]
pub enum DuplicateId {
    Service(ServiceId),
    Feature(FeatureId),
}

/// The catalog, as contracts see it: the services and the features, each in
/// the order of registration.
pub struct CatalogView {
    pub services: Seq<ServiceRecordView>,
    pub features: Seq<FeatureView>,
}

/// The id of a service.
pub open spec fn service_id() -> spec_fn(ServiceRecordView) -> Seq<char> {
    |s: ServiceRecordView| s.id
}

/// The id of a feature.
pub open spec fn feature_id() -> spec_fn(FeatureView) -> Seq<char> {
    |f: FeatureView| f.id
}

/// The features that the service `service` owns.
pub open spec fn owned_by(service: Seq<char>) -> spec_fn(FeatureView) -> bool {
    |f: FeatureView| f.service == service
}

/// The features that the service `service` does not own.
pub open spec fn not_owned_by(service: Seq<char>) -> spec_fn(FeatureView) -> bool {
    |f: FeatureView| f.service != service
}

/// The services with another id than `id`.
pub open spec fn not_named(id: Seq<char>) -> spec_fn(ServiceRecordView) -> bool {
    |s: ServiceRecordView| s.id != id
}

/// A set of tags after `change` was added to it, or taken from it.
pub open spec fn edited(tags: Set<Seq<char>>, change: Set<Seq<char>>, add: bool) -> Set<Seq<char>> {
    if add {
        tags.union(change)
    } else {
        tags.difference(change)
    }
}

impl CatalogView {
    /// No two services share an id, and no two features do.
    pub open spec fn well_formed(self) -> bool {
        &&& self.services.map_values(service_id()).no_duplicates()
        &&& self.features.map_values(feature_id()).no_duplicates()
    }

    /// Whether a service with the id `id` is registered.
    pub open spec fn has_service(self, id: Seq<char>) -> bool {
        exists|k: int| 0 <= k < self.services.len() && (#[trigger] self.services[k]).id == id
    }

    /// Whether a feature with the id `id` is registered.
    pub open spec fn has_feature(self, id: Seq<char>) -> bool {
        exists|k: int| 0 <= k < self.features.len() && (#[trigger] self.features[k]).id == id
    }

    /// The ids of the features of the service `service`, in the catalog's
    /// order.
    pub open spec fn features_of(self, service: Seq<char>) -> Seq<Seq<char>> {
        self.features.filter(owned_by(service)).map_values(feature_id())
    }

    /// The service at position `j`, with its features.
    pub open spec fn describe(self, j: int) -> ServiceView {
        ServiceView {
            id: self.services[j].id,
            tags: self.services[j].tags,
            features: self.features_of(self.services[j].id),
            adapter: self.services[j].adapter,
        }
    }

    /// For each selector and each service, whether the selector accepts the
    /// service.
    pub open spec fn service_hits(self, selectors: Seq<ServiceSelectorView>) -> Seq<Seq<bool>> {
        Seq::new(
            selectors.len(),
            |i: int|
                Seq::new(
                    self.services.len(),
                    |j: int| selectors[i].accepts(self.services[j], self.features),
                ),
        )
    }

    /// For each selector and each feature, whether the selector accepts the
    /// feature.
    pub open spec fn feature_hits(self, selectors: Seq<FeatureSelectorView>) -> Seq<Seq<bool>> {
        Seq::new(
            selectors.len(),
            |i: int|
                Seq::new(
                    self.features.len(),
                    |j: int| selectors[i].accepts(self.features[j], self.services, self.features),
                ),
        )
    }

    /// Whether one of `selectors` accepts the service at position `j`.
    pub open spec fn service_chosen(self, selectors: Seq<ServiceSelectorView>, j: int) -> bool {
        exists|i: int|
            0 <= i < selectors.len() && (#[trigger] selectors[i]).accepts(
                self.services[j],
                self.features,
            )
    }

    /// Whether one of `selectors` accepts the feature at position `j`.
    pub open spec fn feature_chosen(self, selectors: Seq<FeatureSelectorView>, j: int) -> bool {
        exists|i: int|
            0 <= i < selectors.len() && (#[trigger] selectors[i]).accepts(
                self.features[j],
                self.services,
                self.features,
            )
    }

    /// The positions of the services that `selectors` select: those that at
    /// least one selector accepts, each once, in first-match order.
    pub open spec fn selected_service_positions(self, selectors: Seq<ServiceSelectorView>) -> Seq<
        int,
    > {
        first_match_order(self.service_hits(selectors))
    }

    /// The positions of the features that `selectors` select: those that at
    /// least one selector accepts, each once, in first-match order.
    pub open spec fn selected_feature_positions(self, selectors: Seq<FeatureSelectorView>) -> Seq<
        int,
    > {
        first_match_order(self.feature_hits(selectors))
    }

    /// The services that `selectors` select.
    pub open spec fn selected_services(self, selectors: Seq<ServiceSelectorView>) -> Seq<
        ServiceView,
    > {
        self.selected_service_positions(selectors).map_values(|j: int| self.describe(j))
    }

    /// The features that `selectors` select.
    pub open spec fn selected_features(self, selectors: Seq<FeatureSelectorView>) -> Seq<
        FeatureView,
    > {
        self.selected_feature_positions(selectors).map_values(|j: int| self.features[j])
    }

    /// The catalog with one more service.
    pub open spec fn with_service(self, service: ServiceRecordView) -> CatalogView {
        CatalogView { services: self.services.push(service), features: self.features }
    }

    /// The catalog with one more feature.
    pub open spec fn with_feature(self, feature: FeatureView) -> CatalogView {
        CatalogView { services: self.services, features: self.features.push(feature) }
    }

    /// The catalog without the service `id` and without its features.
    pub open spec fn without_service(self, id: Seq<char>) -> CatalogView {
        CatalogView {
            services: self.services.filter(not_named(id)),
            features: self.features.filter(not_owned_by(id)),
        }
    }

    /// The catalog after `change` was added to, or taken from, the tags of
    /// every service that one of `selectors` accepts. Nothing else changes.
    pub open spec fn with_service_tags(
        self,
        selectors: Seq<ServiceSelectorView>,
        change: Set<Seq<char>>,
        add: bool,
    ) -> CatalogView {
        CatalogView {
            services: Seq::new(
                self.services.len(),
                |j: int|
                    if self.service_chosen(selectors, j) {
                        ServiceRecordView {
                            id: self.services[j].id,
                            tags: edited(self.services[j].tags, change, add),
                            adapter: self.services[j].adapter,
                        }
                    } else {
                        self.services[j]
                    },
            ),
            features: self.features,
        }
    }

    /// The catalog after `change` was added to, or taken from, the tags of
    /// every feature that one of `selectors` accepts. Nothing else changes.
    pub open spec fn with_feature_tags(
        self,
        selectors: Seq<FeatureSelectorView>,
        change: Set<Seq<char>>,
        add: bool,
    ) -> CatalogView {
        CatalogView {
            services: self.services,
            features: Seq::new(
                self.features.len(),
                |j: int|
                    if self.feature_chosen(selectors, j) {
                        FeatureView {
                            id: self.features[j].id,
                            service: self.features[j].service,
                            tags: edited(self.features[j].tags, change, add),
                            capability: self.features[j].capability,
                            mechanism: self.features[j].mechanism,
                            last_value: self.features[j].last_value,
                        }
                    } else {
                        self.features[j]
                    },
            ),
        }
    }

    /// The catalog after the feature `id` reported `value`. Nothing changes
    /// where no feature has that id.
    pub open spec fn with_value(self, id: Seq<char>, value: Value) -> CatalogView {
        CatalogView {
            services: self.services,
            features: Seq::new(
                self.features.len(),
                |j: int|
                    if self.features[j].id == id {
                        FeatureView {
                            id: self.features[j].id,
                            service: self.features[j].service,
                            tags: self.features[j].tags,
                            capability: self.features[j].capability,
                            mechanism: self.features[j].mechanism,
                            last_value: Some(value),
                        }
                    } else {
                        self.features[j]
                    },
            ),
        }
    }
}

/// The catalog.
#[derive(Debug)]
pub struct Registry {
    services: Vec<ServiceRecord>,
    features: Vec<Feature>,
}

impl View for Registry {
    type V = CatalogView;

    closed spec fn view(&self) -> CatalogView {
        CatalogView {
            services: record_views(self.services@),
            features: feature_views(self.features@),
        }
    }
}

impl Registry {
    /// What holds of every catalog: no id is registered twice.
    #[verifier::type_invariant]
    pub open spec fn ids_are_unique(&self) -> bool {
        self@.well_formed()
    }

    /// The empty catalog.
    pub fn new() -> (r: Registry)
        ensures
            r@ == (CatalogView { services: Seq::empty(), features: Seq::empty() }),
    {
        let r = Registry { services: Vec::new(), features: Vec::new() };
        assert(r@.services =~= Seq::empty());
        assert(r@.features =~= Seq::empty());
        r
    }

    /// The services, in the order of registration.
    pub fn services(&self) -> (r: &Vec<ServiceRecord>)
        ensures
            record_views(r@) == self@.services,
            self@.well_formed(),
    {
        proof {
            use_type_invariant(self);
        }
        &self.services
    }

    /// The features, in the order of registration.
    pub fn features(&self) -> (r: &Vec<Feature>)
        ensures
            feature_views(r@) == self@.features,
            self@.well_formed(),
    {
        proof {
            use_type_invariant(self);
        }
        &self.features
    }

    /// The position of the service `id`, if it is registered.
    pub fn find_service(&self, id: &ServiceId) -> (r: Option<usize>)
        ensures
            r is Some <==> self@.has_service(id@),
            r matches Some(j) ==> j < self@.services.len() && self@.services[j as int].id == id@,
    {
        let mut j: usize = 0;
        while j < self.services.len()
            invariant
                j <= self.services@.len(),
                forall|k: int| 0 <= k < j ==> (#[trigger] self@.services[k]).id != id@,
            decreases self.services@.len() - j,
        {
            if self.services[j].id.same(id) {
                assert(self@.services[j as int] == self.services@[j as int]@);
                return Some(j);
            }
            assert(self@.services[j as int] == self.services@[j as int]@);
            j += 1;
        }
        None
    }

    /// The position of the feature `id`, if it is registered.
    pub fn find_feature(&self, id: &FeatureId) -> (r: Option<usize>)
        ensures
            r is Some <==> self@.has_feature(id@),
            r matches Some(j) ==> j < self@.features.len() && self@.features[j as int].id == id@,
    {
        let mut j: usize = 0;
        while j < self.features.len()
            invariant
                j <= self.features@.len(),
                forall|k: int| 0 <= k < j ==> (#[trigger] self@.features[k]).id != id@,
            decreases self.features@.len() - j,
        {
            if self.features[j].id.same(id) {
                assert(self@.features[j as int] == self.features@[j as int]@);
                return Some(j);
            }
            assert(self@.features[j as int] == self.features@[j as int]@);
            j += 1;
        }
        None
    }

    /// Registers a service. Fails, and changes nothing, if a service with
    /// that id is registered already. The features listed in `service` are
    /// not taken over: the features of a service are those that name it.
    pub fn register_service(&mut self, service: Service) -> (r: Result<(), DuplicateId>)
        ensures
            final(self)@.well_formed(),
            old(self)@.has_service(service.id@) ==> final(self)@ == old(self)@ && (r matches Err(
                DuplicateId::Service(id),
            ) && id@ == service.id@),
            !old(self)@.has_service(service.id@) ==> r is Ok && final(self)@ == old(self)@.with_service(
                ServiceRecordView { id: service.id@, tags: service.tags@, adapter: service.adapter@ },
            ),
    {
        proof {
            use_type_invariant(&*self);
        }
        if self.find_service(&service.id).is_some() {
            return Err(DuplicateId::Service(service.id));
        }
        let Service { id, tags, features: _, adapter } = service;
        let record = ServiceRecord { id, tags, adapter };
        let ghost before = self.services@;
        let mut services: Vec<ServiceRecord> = Vec::new();
        core::mem::swap(&mut services, &mut self.services);
        assert(record_views(self.services@) =~= Seq::empty());
        services.push(record);
        proof {
            lemma_map_push(before, record, |s: ServiceRecord| s@);
            let ids = record_views(services@).map_values(service_id());
            let old_ids = record_views(before).map_values(service_id());
            assert(ids =~= old_ids.push(record@.id));
            assert forall|k: int| 0 <= k < old_ids.len() implies old_ids[k] != record@.id by {
                assert(old(self)@.services[k].id == old_ids[k]);
            }
        }
        core::mem::swap(&mut services, &mut self.services);
        Ok(())
    }

    /// Registers a feature. Fails, and changes nothing, if a feature with
    /// that id is registered already.
    pub fn add_feature(&mut self, feature: Feature) -> (r: Result<(), DuplicateId>)
        ensures
            final(self)@.well_formed(),
            old(self)@.has_feature(feature.id@) ==> final(self)@ == old(self)@ && (r matches Err(
                DuplicateId::Feature(id),
            ) && id@ == feature.id@),
            !old(self)@.has_feature(feature.id@) ==> r is Ok && final(self)@ == old(self)@.with_feature(feature@),
    {
        proof {
            use_type_invariant(&*self);
        }
        if self.find_feature(&feature.id).is_some() {
            return Err(DuplicateId::Feature(feature.id));
        }
        let ghost before = self.features@;
        let mut features: Vec<Feature> = Vec::new();
        core::mem::swap(&mut features, &mut self.features);
        assert(feature_views(self.features@) =~= Seq::empty());
        features.push(feature);
        proof {
            lemma_map_push(before, feature, |f: Feature| f@);
            let ids = feature_views(features@).map_values(feature_id());
            let old_ids = feature_views(before).map_values(feature_id());
            assert(ids =~= old_ids.push(feature@.id));
            assert forall|k: int| 0 <= k < old_ids.len() implies old_ids[k] != feature@.id by {
                assert(old(self)@.features[k].id == old_ids[k]);
            }
        }
        core::mem::swap(&mut features, &mut self.features);
        Ok(())
    }
}

impl Registry {
    /// The ids of the features of the service `service`, in the catalog's
    /// order.
    pub fn features_of(&self, service: &ServiceId) -> (r: Vec<FeatureId>)
        ensures
            feature_names(r@) == self@.features_of(service@),
    {
        let ghost all = self@.features;
        let mut r: Vec<FeatureId> = Vec::new();
        let mut j: usize = 0;
        proof {
            lemma_filter_none(all, owned_by(service@));
            assert(feature_names(r@) =~= all.take(0).filter(owned_by(service@)).map_values(
                feature_id(),
            ));
        }
        while j < self.features.len()
            invariant
                j <= self.features@.len(),
                all == self@.features,
                feature_names(r@) == all.take(j as int).filter(owned_by(service@)).map_values(
                    feature_id(),
                ),
            decreases self.features@.len() - j,
        {
            proof {
                lemma_filter_next(all, owned_by(service@), j as int);
                assert(all[j as int] == self.features@[j as int]@);
            }
            if self.features[j].service.same(service) {
                let ghost before = r@;
                let id = self.features[j].id.duplicate();
                r.push(id);
                proof {
                    lemma_map_push(before, id, |f: FeatureId| f@);
                    lemma_map_push(
                        all.take(j as int).filter(owned_by(service@)),
                        all[j as int],
                        feature_id(),
                    );
                }
            }
            j += 1;
        }
        assert(all.take(j as int) =~= all);
        r
    }

    /// The service at position `j`, with its features.
    fn describe(&self, j: usize) -> (r: Service)
        requires
            j < self@.services.len(),
        ensures
            r@ == self@.describe(j as int),
    {
        let record = &self.services[j];
        assert(self@.services[j as int] == record@);
        Service {
            id: record.id.duplicate(),
            tags: record.tags.clone(),
            features: self.features_of(&record.id),
            adapter: record.adapter.duplicate(),
        }
    }

    /// Removes a service and all its features. Returns the ids of the
    /// features that were removed. Where no service has the id `id`, nothing
    /// changes and nothing is returned.
    pub fn unregister_service(&mut self, id: &ServiceId) -> (removed: Vec<FeatureId>)
        ensures
            final(self)@.well_formed(),
            !old(self)@.has_service(id@) ==> final(self)@ == old(self)@ && removed@.len() == 0,
            old(self)@.has_service(id@) ==> final(self)@ == old(self)@.without_service(id@)
                && feature_names(removed@) == old(self)@.features_of(id@),
    {
        proof {
            use_type_invariant(&*self);
        }
        if self.find_service(id).is_none() {
            return Vec::new();
        }
        let removed = self.features_of(id);
        let ghost before = self@;
        let mut services: Vec<ServiceRecord> = Vec::new();
        let mut j: usize = 0;
        proof {
            lemma_filter_none(before.services, not_named(id@));
            assert(record_views(services@) =~= before.services.take(0).filter(not_named(id@)));
        }
        while j < self.services.len()
            invariant
                j <= self.services@.len(),
                before == self@,
                record_views(services@) == before.services.take(j as int).filter(not_named(id@)),
            decreases self.services@.len() - j,
        {
            proof {
                lemma_filter_next(before.services, not_named(id@), j as int);
                assert(before.services[j as int] == self.services@[j as int]@);
            }
            if !self.services[j].id.same(id) {
                let ghost kept = services@;
                let record = self.services[j].clone();
                services.push(record);
                proof {
                    lemma_map_push(kept, record, |s: ServiceRecord| s@);
                }
            }
            j += 1;
        }
        assert(before.services.take(j as int) =~= before.services);
        let mut features: Vec<Feature> = Vec::new();
        let mut j: usize = 0;
        proof {
            lemma_filter_none(before.features, not_owned_by(id@));
            assert(feature_views(features@) =~= before.features.take(0).filter(
                not_owned_by(id@),
            ));
        }
        while j < self.features.len()
            invariant
                j <= self.features@.len(),
                before == self@,
                feature_views(features@) == before.features.take(j as int).filter(
                    not_owned_by(id@),
                ),
            decreases self.features@.len() - j,
        {
            proof {
                lemma_filter_next(before.features, not_owned_by(id@), j as int);
                assert(before.features[j as int] == self.features@[j as int]@);
            }
            if !self.features[j].service.same(id) {
                let ghost kept = features@;
                let feature = self.features[j].clone();
                features.push(feature);
                proof {
                    lemma_map_push(kept, feature, |f: Feature| f@);
                }
            }
            j += 1;
        }
        assert(before.features.take(j as int) =~= before.features);
        proof {
            lemma_filter_keeps_keys_distinct(before.services, not_named(id@), service_id());
            lemma_filter_keeps_keys_distinct(before.features, not_owned_by(id@), feature_id());
        }
        *self = Registry { services, features };
        removed
    }

    /// For each selector and each service, whether the selector accepts the
    /// service.
    pub(crate) fn service_table(&self, selectors: &Vec<ServiceSelector>) -> (table: Vec<Vec<bool>>)
        ensures
            rows(table@) == self@.service_hits(service_selector_views(selectors@)),
    {
        let ghost sels = service_selector_views(selectors@);
        let ghost hits = self@.service_hits(sels);
        let mut table: Vec<Vec<bool>> = Vec::new();
        let mut i: usize = 0;
        while i < selectors.len()
            invariant
                i <= selectors@.len(),
                sels == service_selector_views(selectors@),
                hits == self@.service_hits(sels),
                table@.len() == i,
                forall|a: int| 0 <= a < i ==> (#[trigger] table@[a])@ == hits[a],
            decreases selectors@.len() - i,
        {
            let mut row: Vec<bool> = Vec::new();
            let mut j: usize = 0;
            while j < self.services.len()
                invariant
                    i < selectors@.len(),
                    sels == service_selector_views(selectors@),
                    j <= self.services@.len(),
                    row@.len() == j,
                    forall|k: int|
                        0 <= k < j ==> row@[k] == sels[i as int].accepts(
                            self@.services[k],
                            self@.features,
                        ),
                decreases self.services@.len() - j,
            {
                let hit = selectors[i].matches(&self.services[j], &self.features);
                assert(sels[i as int] == selectors@[i as int]@);
                assert(self@.services[j as int] == self.services@[j as int]@);
                row.push(hit);
                j += 1;
            }
            assert(row@ =~= hits[i as int]);
            table.push(row);
            i += 1;
        }
        assert(rows(table@) =~= hits);
        table
    }

    /// For each selector and each feature, whether the selector accepts the
    /// feature.
    pub(crate) fn feature_table(&self, selectors: &Vec<FeatureSelector>) -> (table: Vec<Vec<bool>>)
        ensures
            rows(table@) == self@.feature_hits(feature_selector_views(selectors@)),
    {
        let ghost sels = feature_selector_views(selectors@);
        let ghost hits = self@.feature_hits(sels);
        let mut table: Vec<Vec<bool>> = Vec::new();
        let mut i: usize = 0;
        while i < selectors.len()
            invariant
                i <= selectors@.len(),
                sels == feature_selector_views(selectors@),
                hits == self@.feature_hits(sels),
                table@.len() == i,
                forall|a: int| 0 <= a < i ==> (#[trigger] table@[a])@ == hits[a],
            decreases selectors@.len() - i,
        {
            let mut row: Vec<bool> = Vec::new();
            let mut j: usize = 0;
            while j < self.features.len()
                invariant
                    i < selectors@.len(),
                    sels == feature_selector_views(selectors@),
                    j <= self.features@.len(),
                    row@.len() == j,
                    forall|k: int|
                        0 <= k < j ==> row@[k] == sels[i as int].accepts(
                            self@.features[k],
                            self@.services,
                            self@.features,
                        ),
                decreases self.features@.len() - j,
            {
                let hit = selectors[i].matches(&self.features[j], &self.services, &self.features);
                assert(sels[i as int] == selectors@[i as int]@);
                assert(self@.features[j as int] == self.features@[j as int]@);
                row.push(hit);
                j += 1;
            }
            assert(row@ =~= hits[i as int]);
            table.push(row);
            i += 1;
        }
        assert(rows(table@) =~= hits);
        table
    }

    /// The services that at least one of `selectors` accepts, each once, in
    /// first-match order: the selectors are taken in their order, and each
    /// adds the services that it accepts and that are not yet listed, in the
    /// catalog's order. An empty list selects nothing. A list with a selector
    /// that constrains nothing, or holds one that does, is refused.
    pub fn get_services(&self, selectors: &Vec<ServiceSelector>) -> (r: Result<
        Vec<Service>,
        ConfigurationError,
    >)
        ensures
            self@.well_formed(),
            r is Ok <==> all_services_valid(service_selector_views(selectors@)),
            r matches Ok(found) ==> service_views(found@) == self@.selected_services(
                service_selector_views(selectors@),
            ),
            r matches Err(e) ==> e == ConfigurationError::EmptySelector,
    {
        proof {
            use_type_invariant(self);
        }
        match validate_service_selectors(selectors) {
            Ok(()) => Ok(self.select_services(selectors)),
            Err(e) => Err(e),
        }
    }

    fn select_services(&self, selectors: &Vec<ServiceSelector>) -> (r: Vec<Service>)
        ensures
            service_views(r@) == self@.selected_services(service_selector_views(selectors@)),
            self@.well_formed(),
    {
        proof {
            use_type_invariant(self);
        }
        let table = self.service_table(selectors);
        let chosen = pick_in_order(&table);
        let ghost sels = service_selector_views(selectors@);
        let ghost positions = self@.selected_service_positions(sels);
        proof {
            lemma_positions_are_in_range(self@.service_hits(sels), self@.services.len());
        }
        let mut r: Vec<Service> = Vec::new();
        let mut k: usize = 0;
        assert(service_views(r@) =~= positions.take(0).map_values(|j: int| self@.describe(j)));
        while k < chosen.len()
            invariant
                k <= chosen@.len(),
                as_ints(chosen@) == positions,
                forall|m: int| 0 <= m < positions.len() ==> 0 <= #[trigger] positions[m] < self@.services.len(),
                service_views(r@) == positions.take(k as int).map_values(
                    |j: int| self@.describe(j),
                ),
            decreases chosen@.len() - k,
        {
            assert(positions[k as int] == chosen@[k as int] as int);
            let ghost before = r@;
            let service = self.describe(chosen[k]);
            r.push(service);
            proof {
                lemma_map_push(before, service, |s: Service| s@);
                assert(positions.take(k + 1) =~= positions.take(k as int).push(positions[k as int]));
                lemma_map_push(
                    positions.take(k as int),
                    positions[k as int],
                    |j: int| self@.describe(j),
                );
            }
            k += 1;
        }
        assert(positions.take(k as int) =~= positions);
        r
    }

    /// The features that at least one of `selectors` accepts, each once, in
    /// first-match order: the selectors are taken in their order, and each
    /// adds the features that it accepts and that are not yet listed, in the
    /// catalog's order. An empty list selects nothing. A list with a selector
    /// that constrains nothing, or holds one that does, is refused.
    pub fn get_features(&self, selectors: &Vec<FeatureSelector>) -> (r: Result<
        Vec<Feature>,
        ConfigurationError,
    >)
        ensures
            self@.well_formed(),
            r is Ok <==> all_features_valid(feature_selector_views(selectors@)),
            r matches Ok(found) ==> feature_views(found@) == self@.selected_features(
                feature_selector_views(selectors@),
            ),
            r matches Err(e) ==> e == ConfigurationError::EmptySelector,
    {
        proof {
            use_type_invariant(self);
        }
        match validate_feature_selectors(selectors) {
            Ok(()) => Ok(self.select_features(selectors)),
            Err(e) => Err(e),
        }
    }

    fn select_features(&self, selectors: &Vec<FeatureSelector>) -> (r: Vec<Feature>)
        ensures
            feature_views(r@) == self@.selected_features(feature_selector_views(selectors@)),
            self@.well_formed(),
    {
        proof {
            use_type_invariant(self);
        }
        let table = self.feature_table(selectors);
        let chosen = pick_in_order(&table);
        let ghost sels = feature_selector_views(selectors@);
        let ghost positions = self@.selected_feature_positions(sels);
        proof {
            lemma_positions_are_in_range(self@.feature_hits(sels), self@.features.len());
        }
        let mut r: Vec<Feature> = Vec::new();
        let mut k: usize = 0;
        assert(feature_views(r@) =~= positions.take(0).map_values(|j: int| self@.features[j]));
        while k < chosen.len()
            invariant
                k <= chosen@.len(),
                as_ints(chosen@) == positions,
                forall|m: int| 0 <= m < positions.len() ==> 0 <= #[trigger] positions[m] < self@.features.len(),
                feature_views(r@) == positions.take(k as int).map_values(
                    |j: int| self@.features[j],
                ),
            decreases chosen@.len() - k,
        {
            assert(positions[k as int] == chosen@[k as int] as int);
            let ghost before = r@;
            let feature = self.features[chosen[k]].clone();
            assert(self@.features[chosen@[k as int] as int] == self.features@[chosen@[k as int] as int]@);
            r.push(feature);
            proof {
                lemma_map_push(before, feature, |f: Feature| f@);
                assert(positions.take(k + 1) =~= positions.take(k as int).push(positions[k as int]));
                lemma_map_push(
                    positions.take(k as int),
                    positions[k as int],
                    |j: int| self@.features[j],
                );
            }
            k += 1;
        }
        assert(positions.take(k as int) =~= positions);
        r
    }
}

impl Registry {
    fn edit_service_tags(&mut self, selectors: &Vec<ServiceSelector>, tags: &[TagId], add: bool) -> (n:
        usize)
        ensures
            final(self)@.well_formed(),
            final(self)@ == old(self)@.with_service_tags(
                service_selector_views(selectors@),
                tag_names(tags@),
                add,
            ),
            n == old(self)@.selected_service_positions(service_selector_views(selectors@)).len(),
    {
        proof {
            use_type_invariant(&*self);
        }
        let table = self.service_table(selectors);
        let n = pick_in_order(&table).len();
        let ghost before = self@;
        let ghost sels = service_selector_views(selectors@);
        let ghost after = before.with_service_tags(sels, tag_names(tags@), add);
        let mut services: Vec<ServiceRecord> = Vec::new();
        core::mem::swap(&mut services, &mut self.services);
        assert(record_views(self.services@) =~= Seq::empty());
        let mut j: usize = 0;
        while j < services.len()
            invariant
                j <= services@.len(),
                services@.len() == before.services.len(),
                rows(table@) == before.service_hits(sels),
                after == before.with_service_tags(sels, tag_names(tags@), add),
                forall|k: int| 0 <= k < j ==> (#[trigger] services@[k])@ == after.services[k],
                forall|k: int|
                    j <= k < services@.len() ==> (#[trigger] services@[k])@ == before.services[k],
            decreases services@.len() - j,
        {
            proof {
                lemma_picked_service_is_chosen(before, sels, j as int);
            }
            if is_picked(&table, j) {
                if add {
                    services[j].tags.extend(tags);
                } else {
                    services[j].tags.subtract(tags);
                }
            }
            j += 1;
        }
        proof {
            assert(record_views(services@) =~= after.services);
            assert(after.services.map_values(service_id()) =~= before.services.map_values(
                service_id(),
            ));
        }
        core::mem::swap(&mut services, &mut self.services);
        n
    }

    fn edit_feature_tags(&mut self, selectors: &Vec<FeatureSelector>, tags: &[TagId], add: bool) -> (n:
        usize)
        ensures
            final(self)@.well_formed(),
            final(self)@ == old(self)@.with_feature_tags(
                feature_selector_views(selectors@),
                tag_names(tags@),
                add,
            ),
            n == old(self)@.selected_feature_positions(feature_selector_views(selectors@)).len(),
    {
        proof {
            use_type_invariant(&*self);
        }
        let table = self.feature_table(selectors);
        let n = pick_in_order(&table).len();
        let ghost before = self@;
        let ghost sels = feature_selector_views(selectors@);
        let ghost after = before.with_feature_tags(sels, tag_names(tags@), add);
        let mut features: Vec<Feature> = Vec::new();
        core::mem::swap(&mut features, &mut self.features);
        assert(feature_views(self.features@) =~= Seq::empty());
        let mut j: usize = 0;
        while j < features.len()
            invariant
                j <= features@.len(),
                features@.len() == before.features.len(),
                rows(table@) == before.feature_hits(sels),
                after == before.with_feature_tags(sels, tag_names(tags@), add),
                forall|k: int| 0 <= k < j ==> (#[trigger] features@[k])@ == after.features[k],
                forall|k: int|
                    j <= k < features@.len() ==> (#[trigger] features@[k])@ == before.features[k],
            decreases features@.len() - j,
        {
            proof {
                lemma_picked_feature_is_chosen(before, sels, j as int);
            }
            if is_picked(&table, j) {
                if add {
                    features[j].tags.extend(tags);
                } else {
                    features[j].tags.subtract(tags);
                }
            }
            j += 1;
        }
        proof {
            assert(feature_views(features@) =~= after.features);
            assert(after.features.map_values(feature_id()) =~= before.features.map_values(
                feature_id(),
            ));
        }
        core::mem::swap(&mut features, &mut self.features);
        n
    }

    /// Adds the tags `tags` to every service that `selectors` select: each
    /// service that at least one selector accepts in the catalog as it is at
    /// the call. Returns the number of these services, whether their tags
    /// changed or not. Refuses, and changes nothing, where a selector
    /// constrains nothing or holds one that does.
    pub fn add_service_tags(&mut self, selectors: &Vec<ServiceSelector>, tags: &[TagId]) -> (r: Result<
        usize,
        ConfigurationError,
    >)
        ensures
            final(self)@.well_formed(),
            r is Ok <==> all_services_valid(service_selector_views(selectors@)),
            r matches Ok(n) ==> final(self)@ == old(self)@.with_service_tags(
                service_selector_views(selectors@),
                tag_names(tags@),
                true,
            ) && n == old(self)@.selected_service_positions(
                service_selector_views(selectors@),
            ).len(),
            r matches Err(e) ==> e == ConfigurationError::EmptySelector && final(self)@ == old(self)@,
    {
        proof {
            use_type_invariant(&*self);
        }
        match validate_service_selectors(selectors) {
            Ok(()) => Ok(self.edit_service_tags(selectors, tags, true)),
            Err(e) => Err(e),
        }
    }

    /// Takes the tags `tags` from every service that `selectors` select.
    /// Returns the number of these services, whether their tags changed or
    /// not. Refuses, and changes nothing, where a selector constrains
    /// nothing or holds one that does.
    pub fn remove_service_tags(&mut self, selectors: &Vec<ServiceSelector>, tags: &[TagId]) -> (r: Result<
        usize,
        ConfigurationError,
    >)
        ensures
            final(self)@.well_formed(),
            r is Ok <==> all_services_valid(service_selector_views(selectors@)),
            r matches Ok(n) ==> final(self)@ == old(self)@.with_service_tags(
                service_selector_views(selectors@),
                tag_names(tags@),
                false,
            ) && n == old(self)@.selected_service_positions(
                service_selector_views(selectors@),
            ).len(),
            r matches Err(e) ==> e == ConfigurationError::EmptySelector && final(self)@ == old(self)@,
    {
        proof {
            use_type_invariant(&*self);
        }
        match validate_service_selectors(selectors) {
            Ok(()) => Ok(self.edit_service_tags(selectors, tags, false)),
            Err(e) => Err(e),
        }
    }

    /// Adds the tags `tags` to every feature that `selectors` select: each
    /// feature that at least one selector accepts in the catalog as it is at
    /// the call. Returns the number of these features, whether their tags
    /// changed or not. Refuses, and changes nothing, where a selector
    /// constrains nothing or holds one that does.
    pub fn add_feature_tags(&mut self, selectors: &Vec<FeatureSelector>, tags: &[TagId]) -> (r: Result<
        usize,
        ConfigurationError,
    >)
        ensures
            final(self)@.well_formed(),
            r is Ok <==> all_features_valid(feature_selector_views(selectors@)),
            r matches Ok(n) ==> final(self)@ == old(self)@.with_feature_tags(
                feature_selector_views(selectors@),
                tag_names(tags@),
                true,
            ) && n == old(self)@.selected_feature_positions(
                feature_selector_views(selectors@),
            ).len(),
            r matches Err(e) ==> e == ConfigurationError::EmptySelector && final(self)@ == old(self)@,
    {
        proof {
            use_type_invariant(&*self);
        }
        match validate_feature_selectors(selectors) {
            Ok(()) => Ok(self.edit_feature_tags(selectors, tags, true)),
            Err(e) => Err(e),
        }
    }

    /// Takes the tags `tags` from every feature that `selectors` select.
    /// Returns the number of these features, whether their tags changed or
    /// not. Refuses, and changes nothing, where a selector constrains
    /// nothing or holds one that does.
    pub fn remove_feature_tags(&mut self, selectors: &Vec<FeatureSelector>, tags: &[TagId]) -> (r: Result<
        usize,
        ConfigurationError,
    >)
        ensures
            final(self)@.well_formed(),
            r is Ok <==> all_features_valid(feature_selector_views(selectors@)),
            r matches Ok(n) ==> final(self)@ == old(self)@.with_feature_tags(
                feature_selector_views(selectors@),
                tag_names(tags@),
                false,
            ) && n == old(self)@.selected_feature_positions(
                feature_selector_views(selectors@),
            ).len(),
            r matches Err(e) ==> e == ConfigurationError::EmptySelector && final(self)@ == old(self)@,
    {
        proof {
            use_type_invariant(&*self);
        }
        match validate_feature_selectors(selectors) {
            Ok(()) => Ok(self.edit_feature_tags(selectors, tags, false)),
            Err(e) => Err(e),
        }
    }

    /// Records the value that the feature `id` has reported. Returns whether
    /// there is such a feature; where there is none, nothing changes.
    pub fn set_value(&mut self, id: &FeatureId, value: Value) -> (known: bool)
        ensures
            final(self)@.well_formed(),
            final(self)@ == old(self)@.with_value(id@, value),
            known == old(self)@.has_feature(id@),
    {
        proof {
            use_type_invariant(&*self);
        }
        let ghost before = self@;
        let ghost after = before.with_value(id@, value);
        match self.find_feature(id) {
            None => {
                assert(after.features =~= before.features);
                false
            },
            Some(j) => {
                let mut features: Vec<Feature> = Vec::new();
                core::mem::swap(&mut features, &mut self.features);
                assert(feature_views(self.features@) =~= Seq::empty());
                features[j].last_value = Some(value);
                proof {
                    let ids = before.features.map_values(feature_id());
                    assert forall|k: int| 0 <= k < features@.len() implies (
                    #[trigger] features@[k])@ == after.features[k] by {
                        if k != j {
                            assert(ids[k] == before.features[k].id);
                            assert(ids[j as int] == before.features[j as int].id);
                        }
                    }
                    assert(feature_views(features@) =~= after.features);
                    assert(after.features.map_values(feature_id()) =~= ids);
                }
                core::mem::swap(&mut features, &mut self.features);
                true
            },
        }
    }
}

/// A table of hits marks a service as picked exactly when one of the
/// selectors accepts it.
pub proof fn lemma_picked_service_is_chosen(
    cat: CatalogView,
    selectors: Seq<ServiceSelectorView>,
    j: int,
)
    requires
        0 <= j < cat.services.len(),
    ensures
        picked(cat.service_hits(selectors), j) == cat.service_chosen(selectors, j),
{
    let hits = cat.service_hits(selectors);
    if picked(hits, j) {
        let i = choose|i: int| 0 <= i < hits.len() && 0 <= j < (#[trigger] hits[i]).len() && hits[i][j];
        assert(selectors[i].accepts(cat.services[j], cat.features));
    }
    if cat.service_chosen(selectors, j) {
        let i = choose|i: int|
            0 <= i < selectors.len() && (#[trigger] selectors[i]).accepts(
                cat.services[j],
                cat.features,
            );
        assert(hits[i][j]);
    }
}

/// A table of hits marks a feature as picked exactly when one of the
/// selectors accepts it.
pub proof fn lemma_picked_feature_is_chosen(
    cat: CatalogView,
    selectors: Seq<FeatureSelectorView>,
    j: int,
)
    requires
        0 <= j < cat.features.len(),
    ensures
        picked(cat.feature_hits(selectors), j) == cat.feature_chosen(selectors, j),
{
    let hits = cat.feature_hits(selectors);
    if picked(hits, j) {
        let i = choose|i: int| 0 <= i < hits.len() && 0 <= j < (#[trigger] hits[i]).len() && hits[i][j];
        assert(selectors[i].accepts(cat.features[j], cat.services, cat.features));
    }
    if cat.feature_chosen(selectors, j) {
        let i = choose|i: int|
            0 <= i < selectors.len() && (#[trigger] selectors[i]).accepts(
                cat.features[j],
                cat.services,
                cat.features,
            );
        assert(hits[i][j]);
    }
}

/// In a table whose rows have `n` entries each, every position that is
/// picked is below `n`.
pub proof fn lemma_positions_are_in_range(table: Seq<Seq<bool>>, n: nat)
    requires
        forall|i: int| 0 <= i < table.len() ==> (#[trigger] table[i]).len() == n,
    ensures
        forall|m: int|
            0 <= m < first_match_order(table).len() ==> 0 <= #[trigger] first_match_order(
                table,
            )[m] < n,
{
    crate::selection::lemma_picks_what_some_row_accepts(table);
    assert forall|m: int| 0 <= m < first_match_order(table).len() implies 0
        <= #[trigger] first_match_order(table)[m] < n by {
        let j = first_match_order(table)[m];
        assert(first_match_order(table).contains(j));
        assert(picked(table, j));
    }
}

} // verus!
