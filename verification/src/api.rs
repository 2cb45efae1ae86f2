//! The interface for clients: what the layers above the manager call.
//!
//! Everything here goes to the manager unchanged. Clients address services
//! and features by selectors only; a list of selectors stands for what at
//! least one of them accepts. A selector that constrains nothing, or that
//! holds one that does, is a configuration error: the request is refused
//! before the catalog is touched.

use vstd::prelude::*;
use crate::exactly::{ConfigurationError, Exactly};
use crate::ids::TagId;
use crate::manager::{AdapterManager, ManagerView};
use crate::method_call::{are_calls_for, Call, MethodCall, User};
use crate::range::Range;
use crate::selector::{
    all_features_valid, all_services_valid, feature_selector_views, service_selector_views,
    FeatureSelector, ServiceSelector,
};
use crate::services::{feature_views, service_views, Feature, Service};
use crate::tags::tag_names;
use crate::value::Value;
use crate::watch::{
    all_targets_valid, asked, delivery_views, validate_targets, Delivery, DispatcherView,
    TargetMap, WatchGuard,
};

verus! {

/// A handle to the interface for clients.
#[derive(Debug)]
pub struct API {
    manager: AdapterManager,
}

impl View for API {
    type V = ManagerView;

    closed spec fn view(&self) -> ManagerView {
        self.manager@
    }
}

impl API {
    /// The interface to `manager`.
    pub fn new(manager: AdapterManager) -> (r: API)
        ensures
            r@ == manager@,
            r@.well_formed(),
    {
        proof {
            use_type_invariant(&manager);
        }
        API { manager }
    }

    /// The manager, for the adapters.
    pub fn manager(&mut self) -> (r: &mut AdapterManager)
        ensures
            r@ == old(self)@,
            final(self)@ == final(r)@,
    {
        &mut self.manager
    }

    /// The manager, given back.
    pub fn into_manager(self) -> (r: AdapterManager)
        ensures
            r@ == self@,
            r@.well_formed(),
    {
        proof {
            use_type_invariant(&self.manager);
        }
        self.manager
    }

    /// The services that meet some conditions.
    ///
    /// A call with the selectors `s1, s2, ..` returns every service that
    /// `s1` or `s2` or .. accepts, each once, in first-match order. It is
    /// refused if one of the selectors constrains nothing, or holds a
    /// selector that constrains nothing.
    pub fn get_services(&self, selectors: Vec<ServiceSelector>) -> (r: Result<
        Vec<Service>,
        ConfigurationError,
    >)
        ensures
            self@.well_formed(),
            r is Ok <==> all_services_valid(service_selector_views(selectors@)),
            r matches Ok(found) ==> service_views(found@) == self@.catalog.selected_services(
                service_selector_views(selectors@),
            ),
            r matches Err(e) ==> e == ConfigurationError::EmptySelector,
    {
        self.manager.get_services(&selectors)
    }

    /// Labels a set of services with a set of tags.
    ///
    /// Every service that one of the selectors accepts gets the tags.
    /// Returns the number of these services. Some of them may have had a
    /// tag already: they are counted nevertheless. The call is not live:
    /// a service that is registered later is not labelled. The call is
    /// refused, and changes nothing, if one of the selectors constrains
    /// nothing, or holds a selector that constrains nothing.
    pub fn add_service_tags(&mut self, selectors: Vec<ServiceSelector>, tags: Vec<TagId>) -> (r:
        Result<usize, ConfigurationError>)
        ensures
            final(self)@.well_formed(),
            r is Ok <==> all_services_valid(service_selector_views(selectors@)),
            r matches Ok(n) ==> n == old(self)@.catalog.selected_services(
                service_selector_views(selectors@),
            ).len() && final(self)@ == old(self)@.with_service_tags(
                service_selector_views(selectors@),
                tag_names(tags@),
                true,
            ),
            r matches Err(e) ==> e == ConfigurationError::EmptySelector && final(self)@ == old(self)@,
    {
        self.manager.add_service_tags(&selectors, tags.as_slice())
    }

    /// Takes a set of tags from a set of services.
    ///
    /// Every service that one of the selectors accepts loses the tags.
    /// Returns the number of these services. Some of them may not have had
    /// a tag: they are counted nevertheless. The call is refused, and
    /// changes nothing, if one of the selectors constrains nothing, or holds
    /// a selector that constrains nothing.
    pub fn remove_service_tags(&mut self, selectors: Vec<ServiceSelector>, tags: Vec<TagId>) -> (r:
        Result<usize, ConfigurationError>)
        ensures
            final(self)@.well_formed(),
            r is Ok <==> all_services_valid(service_selector_views(selectors@)),
            r matches Ok(n) ==> n == old(self)@.catalog.selected_services(
                service_selector_views(selectors@),
            ).len() && final(self)@ == old(self)@.with_service_tags(
                service_selector_views(selectors@),
                tag_names(tags@),
                false,
            ),
            r matches Err(e) ==> e == ConfigurationError::EmptySelector && final(self)@ == old(self)@,
    {
        self.manager.remove_service_tags(&selectors, tags.as_slice())
    }

    /// The features that meet some conditions: every feature that one of
    /// the selectors accepts, each once, in first-match order. The call is
    /// refused if one of the selectors constrains nothing, or holds a
    /// selector that constrains nothing.
    pub fn get_features(&self, selectors: Vec<FeatureSelector>) -> (r: Result<
        Vec<Feature>,
        ConfigurationError,
    >)
        ensures
            self@.well_formed(),
            r is Ok <==> all_features_valid(feature_selector_views(selectors@)),
            r matches Ok(found) ==> feature_views(found@) == self@.catalog.selected_features(
                feature_selector_views(selectors@),
            ),
            r matches Err(e) ==> e == ConfigurationError::EmptySelector,
    {
        self.manager.get_features(&selectors)
    }

    /// Labels a set of features with a set of tags.
    ///
    /// Every feature that one of the selectors accepts gets the tags.
    /// Returns the number of these features. Some of them may have had a
    /// tag already: they are counted nevertheless. The call is not live:
    /// a feature that is registered later is not labelled. The call is
    /// refused, and changes nothing, if one of the selectors constrains
    /// nothing, or holds a selector that constrains nothing.
    pub fn add_feature_tags(&mut self, selectors: Vec<FeatureSelector>, tags: Vec<TagId>) -> (r:
        Result<usize, ConfigurationError>)
        ensures
            final(self)@.well_formed(),
            r is Ok <==> all_features_valid(feature_selector_views(selectors@)),
            r matches Ok(n) ==> n == old(self)@.catalog.selected_features(
                feature_selector_views(selectors@),
            ).len() && final(self)@ == old(self)@.with_feature_tags(
                feature_selector_views(selectors@),
                tag_names(tags@),
                true,
            ),
            r matches Err(e) ==> e == ConfigurationError::EmptySelector && final(self)@ == old(self)@,
    {
        self.manager.add_feature_tags(&selectors, tags.as_slice())
    }

    /// Takes a set of tags from a set of features.
    ///
    /// Every feature that one of the selectors accepts loses the tags.
    /// Returns the number of these features. Some of them may not have had
    /// a tag: they are counted nevertheless. The call is refused, and
    /// changes nothing, if one of the selectors constrains nothing, or holds
    /// a selector that constrains nothing.
    pub fn remove_feature_tags(&mut self, selectors: Vec<FeatureSelector>, tags: Vec<TagId>) -> (r:
        Result<usize, ConfigurationError>)
        ensures
            final(self)@.well_formed(),
            r is Ok <==> all_features_valid(feature_selector_views(selectors@)),
            r matches Ok(n) ==> n == old(self)@.catalog.selected_features(
                feature_selector_views(selectors@),
            ).len() && final(self)@ == old(self)@.with_feature_tags(
                feature_selector_views(selectors@),
                tag_names(tags@),
                false,
            ),
            r matches Err(e) ==> e == ConfigurationError::EmptySelector && final(self)@ == old(self)@,
    {
        self.manager.remove_feature_tags(&selectors, tags.as_slice())
    }

    /// Resolves a method call: the calls to be made, one for each feature
    /// that one of the targets accepts, in first-match order, each with the
    /// payload of the first target that accepts the feature. The calls are
    /// made by whoever holds the adapters; each has a result of its own.
    /// The request is refused if the selector of a target constrains
    /// nothing, or holds a selector that constrains nothing.
    pub fn place_method_call(
        &self,
        method: MethodCall,
        request: TargetMap<FeatureSelector, Option<Value>>,
        user: User,
    ) -> (r: Result<Vec<Call>, ConfigurationError>)
        ensures
            self@.well_formed(),
            r is Ok <==> all_targets_valid(request@),
            r matches Ok(calls) ==> are_calls_for(calls@, self@.catalog, request@, method, user),
            r matches Err(e) ==> e == ConfigurationError::EmptySelector,
    {
        self.manager.place_method_call(method, &request, user)
    }

    /// Whether one more watch can be registered.
    pub fn can_watch(&self) -> (r: bool)
        ensures
            r == (self@.watches.next_key < u64::MAX),
            self@.well_formed(),
    {
        self.manager.can_watch()
    }

    /// Watches for changes of features.
    ///
    /// Each target of `watch` is a selector with a filter. With the filter
    /// `Exactly(range)`, the watch is told of the features that the selector
    /// begins or ceases to accept, and of the values that they report and
    /// that fall within `range`; a value of another kind than the range's is
    /// dropped silently. With `Never`, the watch is told of the features
    /// only, never of a value. With `Always`, it is told of every value.
    ///
    /// The watch lasts until the guard that is returned is released. The
    /// request is refused, and changes nothing, if the selector of a target
    /// constrains nothing, or holds a selector that constrains nothing.
    pub fn register_watch(&mut self, watch: TargetMap<FeatureSelector, Exactly<Range>>) -> (r:
        Result<WatchGuard, ConfigurationError>)
        requires
            old(self)@.watches.next_key < u64::MAX,
        ensures
            final(self)@.well_formed(),
            final(self)@.catalog == old(self)@.catalog,
            final(self)@.tags == old(self)@.tags,
            r is Ok <==> all_targets_valid(watch@),
            r matches Ok(guard) ==> guard.id() == old(self)@.watches.next_key && final(self)@.watches == old(self)@.watches.joined(
                watch@.map_values(asked()),
                old(self)@.catalog,
            ),
            r matches Err(e) ==> e == ConfigurationError::EmptySelector && final(self)@ == old(self)@,
    {
        self.manager.register_watch(&watch)
    }

    /// Watches for changes of features, if a key is left for one more
    /// watch: see [`API::register_watch`]. The selectors are looked at
    /// first; `Ok(None)` says that they are in order and no key is left.
    /// Nothing changes unless a guard is returned.
    pub fn try_register_watch(&mut self, watch: TargetMap<FeatureSelector, Exactly<Range>>) -> (r:
        Result<Option<WatchGuard>, ConfigurationError>)
        ensures
            final(self)@.well_formed(),
            final(self)@.catalog == old(self)@.catalog,
            final(self)@.tags == old(self)@.tags,
            r is Ok <==> all_targets_valid(watch@),
            r matches Err(e) ==> e == ConfigurationError::EmptySelector && final(self)@ == old(self)@,
            r matches Ok(None) ==> old(self)@.watches.next_key == u64::MAX && final(self)@ == old(self)@,
            r matches Ok(Some(guard)) ==> old(self)@.watches.next_key < u64::MAX && guard.id()
                == old(self)@.watches.next_key && final(self)@.watches == old(self)@.watches.joined(watch@.map_values(asked()), old(self)@.catalog),
    {
        let room = self.manager.can_watch();
        match validate_targets(&watch) {
            Err(e) => Err(e),
            Ok(()) => {
                if room {
                    match self.manager.register_watch(&watch) {
                        Ok(guard) => Ok(Some(guard)),
                        Err(e) => Err(e),
                    }
                } else {
                    Ok(None)
                }
            },
        }
    }

    /// Releases a watch. Returns whether it was live; where it was not,
    /// nothing changes.
    pub fn release_watch(&mut self, guard: &WatchGuard) -> (was_live: bool)
        ensures
            final(self)@.well_formed(),
            was_live == old(self)@.watches.is_live(guard.id()),
            !final(self)@.watches.is_live(guard.id()),
            final(self)@.catalog == old(self)@.catalog,
            final(self)@.tags == old(self)@.tags,
            final(self)@.watches == old(self)@.watches.released(guard.id()),
            !was_live ==> final(self)@ == old(self)@,
    {
        self.manager.release_watch(guard)
    }

    /// Takes what is queued for delivery to the watches, oldest first.
    pub fn take_events(&mut self) -> (taken: Vec<Delivery>)
        ensures
            final(self)@.well_formed(),
            delivery_views(taken@) == old(self)@.watches.pending,
            final(self)@.catalog == old(self)@.catalog,
            final(self)@.tags == old(self)@.tags,
            final(self)@.watches == (DispatcherView {
                subscriptions: old(self)@.watches.subscriptions,
                next_key: old(self)@.watches.next_key,
                pending: Seq::empty(),
            }),
    {
        self.manager.take_events()
    }
}

} // verus!
