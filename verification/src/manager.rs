//! The adapter manager: the catalog, the tag store and the watches, kept in
//! step.
//!
//! Adapters register and unregister services and features here, and report
//! values. Clients query the catalog, edit tags, plan method calls and
//! watch features. Every change of the catalog is followed by a look of
//! every live subscription at the catalog, so that what is queued for
//! delivery tells of each change in the order in which it was made.
//!
//! A request that names its targets by selectors is refused as a whole, and
//! changes nothing, where one of the selectors constrains nothing or holds
//! a selector that constrains nothing: nobody selects everything by
//! accident.

use vstd::prelude::*;
use crate::exactly::{ConfigurationError, Exactly};
use crate::ids::{FeatureId, ServiceId, TagId};
use crate::method_call::{are_calls_for, Call, MethodCall, User};
use crate::range::Range;
use crate::registry::{edited, CatalogView, DuplicateId, Registry};
use crate::selector::{
    all_features_valid, all_services_valid, feature_selector_views, service_selector_views,
    FeatureSelector, ServiceSelector,
};
use crate::services::{
    feature_names, feature_views, service_views, Feature, FeatureView, Service, ServiceRecordView,
    ServiceView,
};
use crate::tag_store::{kept_for, TagStore};
use crate::tags::tag_names;
use crate::value::Value;
use crate::watch::{
    all_targets_valid, asked, delivery_views, matched, Delivery, DispatcherView, TargetMap,
    WatchDispatcher, WatchGuard,
};
use crate::watch_laws::{
    in_step, lemma_in_step_after_a_look, lemma_in_step_after_a_report,
    lemma_in_step_after_registration, lemma_in_step_after_release,
};

verus! {

/// The manager, as contracts see it.
pub struct ManagerView {
    pub catalog: CatalogView,
    /// The tags that were given by hand, by the name of the id.
    pub tags: Map<Seq<char>, Set<Seq<char>>>,
    pub watches: DispatcherView,
}

impl ManagerView {
    /// No id is registered twice, no key of a watch is in use twice, and
    /// the watches are in step with the catalog: every interest set is what
    /// its entry's selector accepts there.
    pub open spec fn well_formed(self) -> bool {
        &&& self.catalog.well_formed()
        &&& self.watches.well_formed()
        &&& in_step(self.watches, self.catalog)
    }

    /// The manager after `change` was added to, or taken from, the tags of
    /// the services that `selectors` select: in the catalog, in the tag
    /// store, and with a look of the watches at the new catalog.
    pub open spec fn with_service_tags(
        self,
        selectors: Seq<crate::selector::ServiceSelectorView>,
        change: Set<Seq<char>>,
        add: bool,
    ) -> ManagerView {
        let catalog = self.catalog.with_service_tags(selectors, change, add);
        ManagerView {
            catalog,
            tags: kept_after(
                self.tags,
                service_ids(self.catalog.selected_services(selectors)),
                change,
                add,
            ),
            watches: self.watches.refreshed(catalog),
        }
    }

    /// The manager after `change` was added to, or taken from, the tags of
    /// the features that `selectors` select: in the catalog, in the tag
    /// store, and with a look of the watches at the new catalog.
    pub open spec fn with_feature_tags(
        self,
        selectors: Seq<crate::selector::FeatureSelectorView>,
        change: Set<Seq<char>>,
        add: bool,
    ) -> ManagerView {
        let catalog = self.catalog.with_feature_tags(selectors, change, add);
        ManagerView {
            catalog,
            tags: kept_after(
                self.tags,
                feature_ids(self.catalog.selected_features(selectors)),
                change,
                add,
            ),
            watches: self.watches.refreshed(catalog),
        }
    }
}

/// The tag store after `change` was added to, or taken from, what it keeps
/// for each of `ids`, in their order.
pub open spec fn kept_after(
    store: Map<Seq<char>, Set<Seq<char>>>,
    ids: Seq<Seq<char>>,
    change: Set<Seq<char>>,
    add: bool,
) -> Map<Seq<char>, Set<Seq<char>>>
    decreases ids.len(),
{
    if ids.len() == 0 {
        store
    } else {
        let before = kept_after(store, ids.drop_last(), change, add);
        before.insert(ids.last(), edited(kept_for(before, ids.last()), change, add))
    }
}

/// The ids of a sequence of services.
pub open spec fn service_ids(services: Seq<ServiceView>) -> Seq<Seq<char>> {
    services.map_values(|s: ServiceView| s.id)
}

/// The ids of a sequence of features.
pub open spec fn feature_ids(features: Seq<FeatureView>) -> Seq<Seq<char>> {
    features.map_values(|f: FeatureView| f.id)
}

/// The three parts of the manager.
#[derive(Debug)]
struct Parts {
    catalog: Registry,
    tags: TagStore,
    watches: WatchDispatcher,
}

impl View for Parts {
    type V = ManagerView;

    closed spec fn view(&self) -> ManagerView {
        ManagerView { catalog: self.catalog@, tags: self.tags@, watches: self.watches@ }
    }
}

/// What the manager does, on its parts. Each function leaves the parts
/// well formed where it found them so; the manager's functions say of each
/// what it returns and changes.
impl Parts {
    fn new(tags: TagStore) -> (r: Parts)
        ensures
            r@.well_formed(),
            r@ == (ManagerView {
                catalog: CatalogView { services: Seq::empty(), features: Seq::empty() },
                tags: tags@,
                watches: DispatcherView {
                    subscriptions: Seq::empty(),
                    next_key: 0,
                    pending: Seq::empty(),
                },
            }),
    {
        let r = Parts { catalog: Registry::new(), tags, watches: WatchDispatcher::new() };
        proof {
            use_type_invariant(&r.catalog);
            use_type_invariant(&r.watches);
        }
        r
    }

    fn catalog(&self) -> (r: &Registry)
        ensures
            r@ == self@.catalog,
    {
        proof {
            use_type_invariant(&self.catalog);
            use_type_invariant(&self.watches);
        }
        &self.catalog
    }

    fn tags(&self) -> (r: &TagStore)
        ensures
            r@ == self@.tags,
    {
        &self.tags
    }

    fn register_service(&mut self, service: Service) -> (r: Result<(), DuplicateId>)
        ensures
            old(self)@.well_formed() ==> final(self)@.well_formed(),
            final(self)@.tags == old(self)@.tags,
            old(self)@.catalog.has_service(service.id@) ==> final(self)@ == old(self)@ && (
            r matches Err(DuplicateId::Service(id)) && id@ == service.id@),
            !old(self)@.catalog.has_service(service.id@) ==> r is Ok && final(self)@.catalog == old(self)@.catalog.with_service(
                ServiceRecordView {
                    id: service.id@,
                    tags: service.tags@.union(kept_for(old(self)@.tags, service.id@)),
                    adapter: service.adapter@,
                },
            ) && final(self)@.watches == old(self)@.watches.refreshed(final(self)@.catalog),
    {
        proof {
            use_type_invariant(&self.catalog);
            use_type_invariant(&self.watches);
        }
        if self.catalog.find_service(&service.id).is_some() {
            return Err(DuplicateId::Service(service.id));
        }
        let kept = self.tags.tags_of(service.id.as_str()).to_vec();
        let Service { id, mut tags, features, adapter } = service;
        tags.extend(kept.as_slice());
        let r = self.catalog.register_service(Service { id, tags, features, adapter });
        self.watches.refresh(&self.catalog);
        proof {
            lemma_in_step_after_a_look(old(self)@.watches, self@.catalog);
        }
        r
    }

    fn add_feature(&mut self, feature: Feature) -> (r: Result<(), DuplicateId>)
        ensures
            old(self)@.well_formed() ==> final(self)@.well_formed(),
            final(self)@.tags == old(self)@.tags,
            old(self)@.catalog.has_feature(feature.id@) ==> final(self)@ == old(self)@ && (
            r matches Err(DuplicateId::Feature(id)) && id@ == feature.id@),
            !old(self)@.catalog.has_feature(feature.id@) ==> r is Ok && final(self)@.catalog == old(self)@.catalog.with_feature(
                FeatureView {
                    id: feature.id@,
                    service: feature.service@,
                    tags: feature.tags@.union(kept_for(old(self)@.tags, feature.id@)),
                    capability: feature.capability@,
                    mechanism: feature.mechanism,
                    last_value: feature.last_value,
                },
            ) && final(self)@.watches == old(self)@.watches.refreshed(final(self)@.catalog),
    {
        proof {
            use_type_invariant(&self.catalog);
            use_type_invariant(&self.watches);
        }
        if self.catalog.find_feature(&feature.id).is_some() {
            return Err(DuplicateId::Feature(feature.id));
        }
        let kept = self.tags.tags_of(feature.id.as_str()).to_vec();
        let mut feature = feature;
        feature.tags.extend(kept.as_slice());
        let r = self.catalog.add_feature(feature);
        self.watches.refresh(&self.catalog);
        proof {
            lemma_in_step_after_a_look(old(self)@.watches, self@.catalog);
        }
        r
    }

    fn unregister_service(&mut self, id: &ServiceId) -> (removed: Vec<FeatureId>)
        ensures
            old(self)@.well_formed() ==> final(self)@.well_formed(),
            final(self)@.tags == old(self)@.tags,
            !old(self)@.catalog.has_service(id@) ==> final(self)@ == old(self)@ && removed@.len()
                == 0,
            old(self)@.catalog.has_service(id@) ==> final(self)@.catalog == old(self)@.catalog.without_service(id@) && feature_names(removed@) == old(self)@.catalog.features_of(id@) && final(self)@.watches == old(self)@.watches.refreshed(
                final(self)@.catalog,
            ),
    {
        proof {
            use_type_invariant(&self.catalog);
            use_type_invariant(&self.watches);
        }
        if self.catalog.find_service(id).is_none() {
            return Vec::new();
        }
        let removed = self.catalog.unregister_service(id);
        self.watches.refresh(&self.catalog);
        proof {
            lemma_in_step_after_a_look(old(self)@.watches, self@.catalog);
        }
        removed
    }

    fn value_changed(&mut self, id: &FeatureId, value: Value) -> (known: bool)
        ensures
            old(self)@.well_formed() ==> final(self)@.well_formed(),
            known == old(self)@.catalog.has_feature(id@),
            final(self)@.tags == old(self)@.tags,
            !known ==> final(self)@ == old(self)@,
            known ==> final(self)@.catalog == old(self)@.catalog.with_value(id@, value) && final(self)@.watches == old(self)@.watches.informed(id@, value),
    {
        proof {
            use_type_invariant(&self.catalog);
            use_type_invariant(&self.watches);
        }
        if self.catalog.find_feature(id).is_none() {
            return false;
        }
        self.catalog.set_value(id, value);
        self.watches.value_pushed(id, value);
        proof {
            if old(self)@.well_formed() {
                lemma_in_step_after_a_report(old(self)@.watches, old(self)@.catalog, id@, value);
            }
        }
        true
    }

    fn get_services(&self, selectors: &Vec<ServiceSelector>) -> (r: Result<
        Vec<Service>,
        ConfigurationError,
    >)
        ensures
            r is Ok <==> all_services_valid(service_selector_views(selectors@)),
            r matches Ok(found) ==> service_views(found@) == self@.catalog.selected_services(
                service_selector_views(selectors@),
            ),
            r matches Err(e) ==> e == ConfigurationError::EmptySelector,
    {
        proof {
            use_type_invariant(&self.catalog);
            use_type_invariant(&self.watches);
        }
        self.catalog.get_services(selectors)
    }

    fn get_features(&self, selectors: &Vec<FeatureSelector>) -> (r: Result<
        Vec<Feature>,
        ConfigurationError,
    >)
        ensures
            r is Ok <==> all_features_valid(feature_selector_views(selectors@)),
            r matches Ok(found) ==> feature_views(found@) == self@.catalog.selected_features(
                feature_selector_views(selectors@),
            ),
            r matches Err(e) ==> e == ConfigurationError::EmptySelector,
    {
        proof {
            use_type_invariant(&self.catalog);
            use_type_invariant(&self.watches);
        }
        self.catalog.get_features(selectors)
    }

    fn edit_service_tags(&mut self, selectors: &Vec<ServiceSelector>, tags: &[TagId], add: bool) -> (r:
        Result<usize, ConfigurationError>)
        ensures
            old(self)@.well_formed() ==> final(self)@.well_formed(),
            r is Ok <==> all_services_valid(service_selector_views(selectors@)),
            r matches Ok(n) ==> n == old(self)@.catalog.selected_services(
                service_selector_views(selectors@),
            ).len() && final(self)@ == old(self)@.with_service_tags(
                service_selector_views(selectors@),
                tag_names(tags@),
                add,
            ),
            r matches Err(e) ==> e == ConfigurationError::EmptySelector && final(self)@ == old(self)@,
    {
        proof {
            use_type_invariant(&self.catalog);
            use_type_invariant(&self.watches);
        }
        let selected = match self.catalog.get_services(selectors) {
            Ok(selected) => selected,
            Err(e) => {
                return Err(e);
            },
        };
        let ghost ids = service_ids(service_views(selected@));
        let edit = if add {
            self.catalog.add_service_tags(selectors, tags)
        } else {
            self.catalog.remove_service_tags(selectors, tags)
        };
        let n = match edit {
            Ok(n) => n,
            Err(e) => {
                return Err(e);
            },
        };
        let ghost store = self.tags@;
        let ghost catalog = self.catalog@;
        let ghost watches = self.watches@;
        let mut k: usize = 0;
        assert(ids.take(0) =~= Seq::empty());
        while k < selected.len()
            invariant
                k <= selected@.len(),
                ids == service_ids(service_views(selected@)),
                self.catalog@ == catalog,
                self.watches@ == watches,
                self.tags@ == kept_after(store, ids.take(k as int), tag_names(tags@), add),
            decreases selected@.len() - k,
        {
            proof {
                assert(ids.take(k + 1).drop_last() =~= ids.take(k as int));
                assert(ids.take(k + 1).last() == selected@[k as int].id@);
            }
            if add {
                self.tags.add_tags(selected[k].id.as_str(), tags);
            } else {
                self.tags.remove_tags(selected[k].id.as_str(), tags);
            }
            k += 1;
        }
        assert(ids.take(k as int) =~= ids);
        self.watches.refresh(&self.catalog);
        proof {
            lemma_in_step_after_a_look(old(self)@.watches, self@.catalog);
        }
        Ok(n)
    }

    fn edit_feature_tags(&mut self, selectors: &Vec<FeatureSelector>, tags: &[TagId], add: bool) -> (r:
        Result<usize, ConfigurationError>)
        ensures
            old(self)@.well_formed() ==> final(self)@.well_formed(),
            r is Ok <==> all_features_valid(feature_selector_views(selectors@)),
            r matches Ok(n) ==> n == old(self)@.catalog.selected_features(
                feature_selector_views(selectors@),
            ).len() && final(self)@ == old(self)@.with_feature_tags(
                feature_selector_views(selectors@),
                tag_names(tags@),
                add,
            ),
            r matches Err(e) ==> e == ConfigurationError::EmptySelector && final(self)@ == old(self)@,
    {
        proof {
            use_type_invariant(&self.catalog);
            use_type_invariant(&self.watches);
        }
        let selected = match self.catalog.get_features(selectors) {
            Ok(selected) => selected,
            Err(e) => {
                return Err(e);
            },
        };
        let ghost ids = feature_ids(feature_views(selected@));
        let edit = if add {
            self.catalog.add_feature_tags(selectors, tags)
        } else {
            self.catalog.remove_feature_tags(selectors, tags)
        };
        let n = match edit {
            Ok(n) => n,
            Err(e) => {
                return Err(e);
            },
        };
        let ghost store = self.tags@;
        let ghost catalog = self.catalog@;
        let ghost watches = self.watches@;
        let mut k: usize = 0;
        assert(ids.take(0) =~= Seq::empty());
        while k < selected.len()
            invariant
                k <= selected@.len(),
                ids == feature_ids(feature_views(selected@)),
                self.catalog@ == catalog,
                self.watches@ == watches,
                self.tags@ == kept_after(store, ids.take(k as int), tag_names(tags@), add),
            decreases selected@.len() - k,
        {
            proof {
                assert(ids.take(k + 1).drop_last() =~= ids.take(k as int));
                assert(ids.take(k + 1).last() == selected@[k as int].id@);
            }
            if add {
                self.tags.add_tags(selected[k].id.as_str(), tags);
            } else {
                self.tags.remove_tags(selected[k].id.as_str(), tags);
            }
            k += 1;
        }
        assert(ids.take(k as int) =~= ids);
        self.watches.refresh(&self.catalog);
        proof {
            lemma_in_step_after_a_look(old(self)@.watches, self@.catalog);
        }
        Ok(n)
    }

    fn add_service_tags(&mut self, selectors: &Vec<ServiceSelector>, tags: &[TagId]) -> (r:
        Result<usize, ConfigurationError>)
        ensures
            old(self)@.well_formed() ==> final(self)@.well_formed(),
            r is Ok <==> all_services_valid(service_selector_views(selectors@)),
            r matches Ok(n) ==> n == old(self)@.catalog.selected_services(
                service_selector_views(selectors@),
            ).len() && final(self)@ == old(self)@.with_service_tags(
                service_selector_views(selectors@),
                tag_names(tags@),
                true,
            ),
            r matches Err(e) ==> e == ConfigurationError::EmptySelector && final(self)@ == old(self)@,
    {
        self.edit_service_tags(selectors, tags, true)
    }

    fn remove_service_tags(&mut self, selectors: &Vec<ServiceSelector>, tags: &[TagId]) -> (r:
        Result<usize, ConfigurationError>)
        ensures
            old(self)@.well_formed() ==> final(self)@.well_formed(),
            r is Ok <==> all_services_valid(service_selector_views(selectors@)),
            r matches Ok(n) ==> n == old(self)@.catalog.selected_services(
                service_selector_views(selectors@),
            ).len() && final(self)@ == old(self)@.with_service_tags(
                service_selector_views(selectors@),
                tag_names(tags@),
                false,
            ),
            r matches Err(e) ==> e == ConfigurationError::EmptySelector && final(self)@ == old(self)@,
    {
        self.edit_service_tags(selectors, tags, false)
    }

    fn add_feature_tags(&mut self, selectors: &Vec<FeatureSelector>, tags: &[TagId]) -> (r:
        Result<usize, ConfigurationError>)
        ensures
            old(self)@.well_formed() ==> final(self)@.well_formed(),
            r is Ok <==> all_features_valid(feature_selector_views(selectors@)),
            r matches Ok(n) ==> n == old(self)@.catalog.selected_features(
                feature_selector_views(selectors@),
            ).len() && final(self)@ == old(self)@.with_feature_tags(
                feature_selector_views(selectors@),
                tag_names(tags@),
                true,
            ),
            r matches Err(e) ==> e == ConfigurationError::EmptySelector && final(self)@ == old(self)@,
    {
        self.edit_feature_tags(selectors, tags, true)
    }

    fn remove_feature_tags(&mut self, selectors: &Vec<FeatureSelector>, tags: &[TagId]) -> (r:
        Result<usize, ConfigurationError>)
        ensures
            old(self)@.well_formed() ==> final(self)@.well_formed(),
            r is Ok <==> all_features_valid(feature_selector_views(selectors@)),
            r matches Ok(n) ==> n == old(self)@.catalog.selected_features(
                feature_selector_views(selectors@),
            ).len() && final(self)@ == old(self)@.with_feature_tags(
                feature_selector_views(selectors@),
                tag_names(tags@),
                false,
            ),
            r matches Err(e) ==> e == ConfigurationError::EmptySelector && final(self)@ == old(self)@,
    {
        self.edit_feature_tags(selectors, tags, false)
    }

    fn place_method_call(
        &self,
        method: MethodCall,
        request: &TargetMap<FeatureSelector, Option<Value>>,
        user: User,
    ) -> (r: Result<Vec<Call>, ConfigurationError>)
        ensures
            r is Ok <==> all_targets_valid(request@),
            r matches Ok(calls) ==> are_calls_for(calls@, self@.catalog, request@, method, user),
            r matches Err(e) ==> e == ConfigurationError::EmptySelector,
    {
        proof {
            use_type_invariant(&self.catalog);
            use_type_invariant(&self.watches);
        }
        self.catalog.plan_calls(method, request, user)
    }

    fn can_watch(&self) -> (r: bool)
        ensures
            r == (self@.watches.next_key < u64::MAX),
    {
        proof {
            use_type_invariant(&self.catalog);
            use_type_invariant(&self.watches);
        }
        self.watches.has_room()
    }

    fn register_watch(&mut self, watch: &TargetMap<FeatureSelector, Exactly<Range>>) -> (r:
        Result<WatchGuard, ConfigurationError>)
        requires
            old(self)@.watches.next_key < u64::MAX,
        ensures
            old(self)@.well_formed() ==> final(self)@.well_formed(),
            final(self)@.catalog == old(self)@.catalog,
            final(self)@.tags == old(self)@.tags,
            r is Ok <==> all_targets_valid(watch@),
            r matches Ok(guard) ==> guard.id() == old(self)@.watches.next_key && final(self)@.watches == old(self)@.watches.joined(
                watch@.map_values(asked()),
                old(self)@.catalog,
            ),
            r matches Err(e) ==> e == ConfigurationError::EmptySelector && final(self)@ == old(self)@,
    {
        proof {
            use_type_invariant(&self.catalog);
            use_type_invariant(&self.watches);
        }
        let r = self.watches.register(watch, &self.catalog);
        proof {
            if old(self)@.well_formed() && r is Ok {
                lemma_in_step_after_registration(
                    old(self)@.watches,
                    watch@.map_values(asked()),
                    old(self)@.catalog,
                );
            }
        }
        r
    }

    fn release_watch(&mut self, guard: &WatchGuard) -> (was_live: bool)
        ensures
            old(self)@.well_formed() ==> final(self)@.well_formed(),
            was_live == old(self)@.watches.is_live(guard.id()),
            !final(self)@.watches.is_live(guard.id()),
            final(self)@.catalog == old(self)@.catalog,
            final(self)@.tags == old(self)@.tags,
            final(self)@.watches == old(self)@.watches.released(guard.id()),
            !was_live ==> final(self)@ == old(self)@,
    {
        proof {
            use_type_invariant(&self.catalog);
            use_type_invariant(&self.watches);
        }
        proof {
            if old(self)@.well_formed() {
                lemma_in_step_after_release(old(self)@.watches, guard.id(), old(self)@.catalog);
            }
        }
        self.watches.release(guard)
    }

    fn release_key(&mut self, key: u64) -> (was_live: bool)
        ensures
            old(self)@.well_formed() ==> final(self)@.well_formed(),
            was_live == old(self)@.watches.is_live(key),
            !final(self)@.watches.is_live(key),
            final(self)@.catalog == old(self)@.catalog,
            final(self)@.tags == old(self)@.tags,
            final(self)@.watches == old(self)@.watches.released(key),
            !was_live ==> final(self)@ == old(self)@,
    {
        proof {
            use_type_invariant(&self.catalog);
            use_type_invariant(&self.watches);
        }
        proof {
            if old(self)@.well_formed() {
                lemma_in_step_after_release(old(self)@.watches, key, old(self)@.catalog);
            }
        }
        self.watches.release_key(key)
    }

    fn take_events(&mut self) -> (taken: Vec<Delivery>)
        ensures
            old(self)@.well_formed() ==> final(self)@.well_formed(),
            delivery_views(taken@) == old(self)@.watches.pending,
            final(self)@.catalog == old(self)@.catalog,
            final(self)@.tags == old(self)@.tags,
            final(self)@.watches == (DispatcherView {
                subscriptions: old(self)@.watches.subscriptions,
                next_key: old(self)@.watches.next_key,
                pending: Seq::empty(),
            }),
    {
        proof {
            use_type_invariant(&self.catalog);
            use_type_invariant(&self.watches);
        }
        let taken = self.watches.take_pending();
        proof {
            if old(self)@.well_formed() {
                assert forall|a: int, b: int|
                    0 <= a < self@.watches.subscriptions.len() && 0 <= b
                        < self@.watches.subscriptions[a].entries.len() implies (
                #[trigger] self@.watches.subscriptions[a].entries[b]).interest == matched(
                    self@.watches.subscriptions[a].entries[b].select,
                    self@.catalog,
                ).map_values(crate::registry::feature_id()) by {
                    assert(old(self)@.watches.subscriptions[a].entries[b].interest == matched(
                        old(self)@.watches.subscriptions[a].entries[b].select,
                        old(self)@.catalog,
                    ).map_values(crate::registry::feature_id()));
                }
            }
        }
        taken
    }
}

/// The catalog, the tag store and the watches. The three are in step at
/// every moment: the interest set of every entry of every watch is what the
/// entry's selector accepts in the catalog.
#[derive(Debug)]
pub struct AdapterManager {
    parts: Parts,
}

impl View for AdapterManager {
    type V = ManagerView;

    closed spec fn view(&self) -> ManagerView {
        self.parts@
    }
}

impl AdapterManager {
    /// What holds of every manager: see [`ManagerView::well_formed`].
    #[verifier::type_invariant]
    pub open spec fn in_order(&self) -> bool {
        self@.well_formed()
    }

    /// A manager with an empty catalog and no watches, whose tag store is
    /// `tags`.
    pub fn new(tags: TagStore) -> (r: AdapterManager)
        ensures
            r@.well_formed(),
            r@ == (ManagerView {
                catalog: CatalogView { services: Seq::empty(), features: Seq::empty() },
                tags: tags@,
                watches: DispatcherView {
                    subscriptions: Seq::empty(),
                    next_key: 0,
                    pending: Seq::empty(),
                },
            }),
    {
        AdapterManager { parts: Parts::new(tags) }
    }

    /// The catalog.
    pub fn catalog(&self) -> (r: &Registry)
        ensures
            r@ == self@.catalog,
            self@.well_formed(),
    {
        proof {
            use_type_invariant(self);
        }
        self.parts.catalog()
    }

    /// The tag store.
    pub fn tags(&self) -> (r: &TagStore)
        ensures
            r@ == self@.tags,
    {
        proof {
            use_type_invariant(self);
        }
        self.parts.tags()
    }

    /// Registers a service, with the tags that the tag store keeps for its
    /// id beside its own. Fails, and changes nothing, if a service with that
    /// id is registered already. The features listed in `service` are not
    /// taken over: the features of a service are those that name it.
    pub fn register_service(&mut self, service: Service) -> (r: Result<(), DuplicateId>)
        ensures
            final(self)@.well_formed(),
            final(self)@.tags == old(self)@.tags,
            old(self)@.catalog.has_service(service.id@) ==> final(self)@ == old(self)@ && (
            r matches Err(DuplicateId::Service(id)) && id@ == service.id@),
            !old(self)@.catalog.has_service(service.id@) ==> r is Ok && final(self)@.catalog == old(self)@.catalog.with_service(
                ServiceRecordView {
                    id: service.id@,
                    tags: service.tags@.union(kept_for(old(self)@.tags, service.id@)),
                    adapter: service.adapter@,
                },
            ) && final(self)@.watches == old(self)@.watches.refreshed(final(self)@.catalog),
    {
        proof {
            use_type_invariant(&*self);
        }
        let mut parts = Parts::new(TagStore::new());
        core::mem::swap(&mut parts, &mut self.parts);
        let r = parts.register_service(service);
        core::mem::swap(&mut parts, &mut self.parts);
        r
    }

    /// Registers a feature, with the tags that the tag store keeps for its
    /// id beside its own. Fails, and changes nothing, if a feature with that
    /// id is registered already.
    pub fn add_feature(&mut self, feature: Feature) -> (r: Result<(), DuplicateId>)
        ensures
            final(self)@.well_formed(),
            final(self)@.tags == old(self)@.tags,
            old(self)@.catalog.has_feature(feature.id@) ==> final(self)@ == old(self)@ && (
            r matches Err(DuplicateId::Feature(id)) && id@ == feature.id@),
            !old(self)@.catalog.has_feature(feature.id@) ==> r is Ok && final(self)@.catalog == old(self)@.catalog.with_feature(
                FeatureView {
                    id: feature.id@,
                    service: feature.service@,
                    tags: feature.tags@.union(kept_for(old(self)@.tags, feature.id@)),
                    capability: feature.capability@,
                    mechanism: feature.mechanism,
                    last_value: feature.last_value,
                },
            ) && final(self)@.watches == old(self)@.watches.refreshed(final(self)@.catalog),
    {
        proof {
            use_type_invariant(&*self);
        }
        let mut parts = Parts::new(TagStore::new());
        core::mem::swap(&mut parts, &mut self.parts);
        let r = parts.add_feature(feature);
        core::mem::swap(&mut parts, &mut self.parts);
        r
    }

    /// Removes a service and all its features, and tells the watches.
    /// Returns the ids of the features that were removed. Where no service
    /// has the id `id`, nothing changes.
    pub fn unregister_service(&mut self, id: &ServiceId) -> (removed: Vec<FeatureId>)
        ensures
            final(self)@.well_formed(),
            final(self)@.tags == old(self)@.tags,
            !old(self)@.catalog.has_service(id@) ==> final(self)@ == old(self)@ && removed@.len()
                == 0,
            old(self)@.catalog.has_service(id@) ==> final(self)@.catalog == old(self)@.catalog.without_service(id@) && feature_names(removed@) == old(self)@.catalog.features_of(id@) && final(self)@.watches == old(self)@.watches.refreshed(
                final(self)@.catalog,
            ),
    {
        proof {
            use_type_invariant(&*self);
        }
        let mut parts = Parts::new(TagStore::new());
        core::mem::swap(&mut parts, &mut self.parts);
        let r = parts.unregister_service(id);
        core::mem::swap(&mut parts, &mut self.parts);
        r
    }

    /// Takes note that the feature `id` has reported `value`: the catalog
    /// keeps it as the feature's last value, and the watches are told.
    /// Returns whether there is such a feature; where there is none,
    /// nothing changes.
    pub fn value_changed(&mut self, id: &FeatureId, value: Value) -> (known: bool)
        ensures
            final(self)@.well_formed(),
            known == old(self)@.catalog.has_feature(id@),
            final(self)@.tags == old(self)@.tags,
            !known ==> final(self)@ == old(self)@,
            known ==> final(self)@.catalog == old(self)@.catalog.with_value(id@, value) && final(self)@.watches == old(self)@.watches.informed(id@, value),
    {
        proof {
            use_type_invariant(&*self);
        }
        let mut parts = Parts::new(TagStore::new());
        core::mem::swap(&mut parts, &mut self.parts);
        let r = parts.value_changed(id, value);
        core::mem::swap(&mut parts, &mut self.parts);
        r
    }

    /// The services that at least one of `selectors` accepts, each once, in
    /// first-match order. Refuses a list with a selector that constrains
    /// nothing, or holds one that does.
    pub fn get_services(&self, selectors: &Vec<ServiceSelector>) -> (r: Result<
        Vec<Service>,
        ConfigurationError,
    >)
        ensures
            self@.well_formed(),
            r is Ok <==> all_services_valid(service_selector_views(selectors@)),
            r matches Ok(found) ==> service_views(found@) == self@.catalog.selected_services(
                service_selector_views(selectors@),
            ),
            r matches Err(e) ==> e == ConfigurationError::EmptySelector,
    {
        proof {
            use_type_invariant(self);
        }
        self.parts.get_services(selectors)
    }

    /// The features that at least one of `selectors` accepts, each once, in
    /// first-match order. Refuses a list with a selector that constrains
    /// nothing, or holds one that does.
    pub fn get_features(&self, selectors: &Vec<FeatureSelector>) -> (r: Result<
        Vec<Feature>,
        ConfigurationError,
    >)
        ensures
            self@.well_formed(),
            r is Ok <==> all_features_valid(feature_selector_views(selectors@)),
            r matches Ok(found) ==> feature_views(found@) == self@.catalog.selected_features(
                feature_selector_views(selectors@),
            ),
            r matches Err(e) ==> e == ConfigurationError::EmptySelector,
    {
        proof {
            use_type_invariant(self);
        }
        self.parts.get_features(selectors)
    }

    /// Adds `tags` to every service that `selectors` select, in the catalog
    /// and in the tag store, and tells the watches. Returns the number of
    /// these services, whether their tags changed or not. Refuses, and
    /// changes nothing, where a selector constrains nothing or holds one
    /// that does.
    pub fn add_service_tags(&mut self, selectors: &Vec<ServiceSelector>, tags: &[TagId]) -> (r:
        Result<usize, ConfigurationError>)
        ensures
            final(self)@.well_formed(),
            r is Ok <==> all_services_valid(service_selector_views(selectors@)),
            r matches Ok(n) ==> n == old(self)@.catalog.selected_services(
                service_selector_views(selectors@),
            ).len() && final(self)@ == old(self)@.with_service_tags(
                service_selector_views(selectors@),
                tag_names(tags@),
                true,
            ),
            r matches Err(e) ==> e == ConfigurationError::EmptySelector && final(self)@ == old(self)@,
    {
        proof {
            use_type_invariant(&*self);
        }
        let mut parts = Parts::new(TagStore::new());
        core::mem::swap(&mut parts, &mut self.parts);
        let r = parts.add_service_tags(selectors, tags);
        core::mem::swap(&mut parts, &mut self.parts);
        r
    }

    /// Takes `tags` from every service that `selectors` select, in the
    /// catalog and in the tag store, and tells the watches. Returns the
    /// number of these services, whether their tags changed or not.
    /// Refuses, and changes nothing, where a selector constrains nothing or
    /// holds one that does.
    pub fn remove_service_tags(&mut self, selectors: &Vec<ServiceSelector>, tags: &[TagId]) -> (r:
        Result<usize, ConfigurationError>)
        ensures
            final(self)@.well_formed(),
            r is Ok <==> all_services_valid(service_selector_views(selectors@)),
            r matches Ok(n) ==> n == old(self)@.catalog.selected_services(
                service_selector_views(selectors@),
            ).len() && final(self)@ == old(self)@.with_service_tags(
                service_selector_views(selectors@),
                tag_names(tags@),
                false,
            ),
            r matches Err(e) ==> e == ConfigurationError::EmptySelector && final(self)@ == old(self)@,
    {
        proof {
            use_type_invariant(&*self);
        }
        let mut parts = Parts::new(TagStore::new());
        core::mem::swap(&mut parts, &mut self.parts);
        let r = parts.remove_service_tags(selectors, tags);
        core::mem::swap(&mut parts, &mut self.parts);
        r
    }

    /// Adds `tags` to every feature that `selectors` select, in the catalog
    /// and in the tag store, and tells the watches. Returns the number of
    /// these features, whether their tags changed or not. Refuses, and
    /// changes nothing, where a selector constrains nothing or holds one
    /// that does.
    pub fn add_feature_tags(&mut self, selectors: &Vec<FeatureSelector>, tags: &[TagId]) -> (r:
        Result<usize, ConfigurationError>)
        ensures
            final(self)@.well_formed(),
            r is Ok <==> all_features_valid(feature_selector_views(selectors@)),
            r matches Ok(n) ==> n == old(self)@.catalog.selected_features(
                feature_selector_views(selectors@),
            ).len() && final(self)@ == old(self)@.with_feature_tags(
                feature_selector_views(selectors@),
                tag_names(tags@),
                true,
            ),
            r matches Err(e) ==> e == ConfigurationError::EmptySelector && final(self)@ == old(self)@,
    {
        proof {
            use_type_invariant(&*self);
        }
        let mut parts = Parts::new(TagStore::new());
        core::mem::swap(&mut parts, &mut self.parts);
        let r = parts.add_feature_tags(selectors, tags);
        core::mem::swap(&mut parts, &mut self.parts);
        r
    }

    /// Takes `tags` from every feature that `selectors` select, in the
    /// catalog and in the tag store, and tells the watches. Returns the
    /// number of these features, whether their tags changed or not.
    /// Refuses, and changes nothing, where a selector constrains nothing or
    /// holds one that does.
    pub fn remove_feature_tags(&mut self, selectors: &Vec<FeatureSelector>, tags: &[TagId]) -> (r:
        Result<usize, ConfigurationError>)
        ensures
            final(self)@.well_formed(),
            r is Ok <==> all_features_valid(feature_selector_views(selectors@)),
            r matches Ok(n) ==> n == old(self)@.catalog.selected_features(
                feature_selector_views(selectors@),
            ).len() && final(self)@ == old(self)@.with_feature_tags(
                feature_selector_views(selectors@),
                tag_names(tags@),
                false,
            ),
            r matches Err(e) ==> e == ConfigurationError::EmptySelector && final(self)@ == old(self)@,
    {
        proof {
            use_type_invariant(&*self);
        }
        let mut parts = Parts::new(TagStore::new());
        core::mem::swap(&mut parts, &mut self.parts);
        let r = parts.remove_feature_tags(selectors, tags);
        core::mem::swap(&mut parts, &mut self.parts);
        r
    }

    /// The calls that `request` asks for: one for each feature that at
    /// least one target's selector accepts, in first-match order, with the
    /// payload of the first target that accepts the feature. Refuses where
    /// a selector of `request` constrains nothing or holds one that does.
    pub fn place_method_call(
        &self,
        method: MethodCall,
        request: &TargetMap<FeatureSelector, Option<Value>>,
        user: User,
    ) -> (r: Result<Vec<Call>, ConfigurationError>)
        ensures
            self@.well_formed(),
            r is Ok <==> all_targets_valid(request@),
            r matches Ok(calls) ==> are_calls_for(calls@, self@.catalog, request@, method, user),
            r matches Err(e) ==> e == ConfigurationError::EmptySelector,
    {
        proof {
            use_type_invariant(self);
        }
        self.parts.place_method_call(method, request, user)
    }

    /// Whether one more watch can be registered.
    pub fn can_watch(&self) -> (r: bool)
        ensures
            r == (self@.watches.next_key < u64::MAX),
            self@.well_formed(),
    {
        proof {
            use_type_invariant(self);
        }
        self.parts.can_watch()
    }

    /// Registers a watch: a subscription with one entry for each target of
    /// `watch`. The subscription is told at once of every feature that its
    /// entries accept. Refuses, and changes nothing, where a selector of
    /// `watch` constrains nothing or holds one that does.
    pub fn register_watch(&mut self, watch: &TargetMap<FeatureSelector, Exactly<Range>>) -> (r:
        Result<WatchGuard, ConfigurationError>)
        requires
            old(self)@.watches.next_key < u64::MAX,
        ensures
            final(self)@.well_formed(),
            final(self)@.catalog == old(self)@.catalog,
            final(self)@.tags == old(self)@.tags,
            r is Ok <==> all_targets_valid(watch@),
            r matches Ok(guard) ==> guard.id() == old(self)@.watches.next_key && final(self)@.watches == old(self)@.watches.joined(
                watch@.map_values(asked()),
                old(self)@.catalog,
            ),
            r matches Err(e) ==> e == ConfigurationError::EmptySelector && final(self)@ == old(self)@,
    {
        proof {
            use_type_invariant(&*self);
        }
        let mut parts = Parts::new(TagStore::new());
        core::mem::swap(&mut parts, &mut self.parts);
        let r = parts.register_watch(watch);
        core::mem::swap(&mut parts, &mut self.parts);
        r
    }

    /// Releases a watch. Returns whether it was live; where it was not,
    /// nothing changes.
    pub fn release_watch(&mut self, guard: &WatchGuard) -> (was_live: bool)
        ensures
            final(self)@.well_formed(),
            was_live == old(self)@.watches.is_live(guard.id()),
            !final(self)@.watches.is_live(guard.id()),
            final(self)@.catalog == old(self)@.catalog,
            final(self)@.tags == old(self)@.tags,
            final(self)@.watches == old(self)@.watches.released(guard.id()),
            !was_live ==> final(self)@ == old(self)@,
    {
        proof {
            use_type_invariant(&*self);
        }
        let mut parts = Parts::new(TagStore::new());
        core::mem::swap(&mut parts, &mut self.parts);
        let r = parts.release_watch(guard);
        core::mem::swap(&mut parts, &mut self.parts);
        r
    }

    /// Releases the watch with the key `key`: for a subscription whose sink
    /// has gone. Returns whether it was live; where it was not, nothing
    /// changes.
    pub fn release_key(&mut self, key: u64) -> (was_live: bool)
        ensures
            final(self)@.well_formed(),
            was_live == old(self)@.watches.is_live(key),
            !final(self)@.watches.is_live(key),
            final(self)@.catalog == old(self)@.catalog,
            final(self)@.tags == old(self)@.tags,
            final(self)@.watches == old(self)@.watches.released(key),
            !was_live ==> final(self)@ == old(self)@,
    {
        proof {
            use_type_invariant(&*self);
        }
        let mut parts = Parts::new(TagStore::new());
        core::mem::swap(&mut parts, &mut self.parts);
        let r = parts.release_key(key);
        core::mem::swap(&mut parts, &mut self.parts);
        r
    }

    /// Takes what is queued for delivery to the watches, oldest first.
    pub fn take_events(&mut self) -> (taken: Vec<Delivery>)
        ensures
            final(self)@.well_formed(),
            delivery_views(taken@) == old(self)@.watches.pending,
            final(self)@.catalog == old(self)@.catalog,
            final(self)@.tags == old(self)@.tags,
            final(self)@.watches == (DispatcherView {
                subscriptions: old(self)@.watches.subscriptions,
                next_key: old(self)@.watches.next_key,
                pending: Seq::empty(),
            }),
    {
        proof {
            use_type_invariant(&*self);
        }
        let mut parts = Parts::new(TagStore::new());
        core::mem::swap(&mut parts, &mut self.parts);
        let r = parts.take_events();
        core::mem::swap(&mut parts, &mut self.parts);
        r
    }
}

} // verus!
