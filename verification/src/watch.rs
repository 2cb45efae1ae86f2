//! Live watches: who is told what when the catalog changes or a feature
//! reports a value.
//!
//! A subscription is a list of entries, each a feature selector with a
//! filter on values. For each entry the dispatcher keeps the interest set:
//! the features that the selector accepted when the dispatcher last looked
//! at the catalog. What a subscriber is to be told is queued, in the order
//! in which the dispatcher saw the changes, until it is taken for delivery.

use vstd::prelude::*;
use crate::exactly::{ConfigurationError, Exactly};
use crate::ids::{FeatureId, Named};
use crate::range::Range;
use crate::registry::{feature_id, CatalogView};
use crate::selector::{FeatureSelector, FeatureSelectorView};
use crate::registry::Registry;
use crate::seqs::{
    lemma_filter_keeps_keys_distinct, lemma_filter_next, lemma_filter_none,
    lemma_filter_removes_one, lemma_map_push,
};
use crate::services::{feature_names, feature_views, record_views, Feature, FeatureView, ServiceRecord};
use crate::value::Value;

verus! {

/// A selector with what goes with it: a payload for a call, or a filter for
/// a watch.
#[derive(Debug)]
pub struct Targetted<K, T> {
    pub select: K,
    pub payload: T,
}

/// A list of selectors, each with what goes with it.
pub type TargetMap<K, T> = Vec<Targetted<K, T>>;

/// Whether the selector of each target may be put to a catalog.
pub open spec fn all_targets_valid<T>(targets: Seq<Targetted<FeatureSelector, T>>) -> bool {
    forall|i: int| 0 <= i < targets.len() ==> (#[trigger] targets[i]).select@.valid()
}

/// Refuses a list of targets of which one has a selector that constrains
/// nothing, or that holds one that does.
pub fn validate_targets<T>(targets: &Vec<Targetted<FeatureSelector, T>>) -> (r: Result<
    (),
    ConfigurationError,
>)
    ensures
        r is Ok <==> all_targets_valid(targets@),
        r is Err ==> r == Err::<(), ConfigurationError>(ConfigurationError::EmptySelector),
{
    let mut i: usize = 0;
    while i < targets.len()
        invariant
            i <= targets@.len(),
            forall|k: int| 0 <= k < i ==> (#[trigger] targets@[k]).select@.valid(),
        decreases targets@.len() - i,
    {
        if targets[i].select.validate().is_err() {
            return Err(ConfigurationError::EmptySelector);
        }
        i += 1;
    }
    Ok(())
}

/// What a subscriber is told.
#[derive(Debug)]
pub enum WatchEvent {
    /// An entry of the subscription has begun to accept the feature.
    Added(FeatureId),
    /// An entry of the subscription accepts the feature no longer.
    Removed(FeatureId),
    /// The feature has reported a value that the entry's filter lets pass.
    Value { feature: FeatureId, value: Value },
}

/// An event, as contracts see it.
pub enum WatchEventView {
    Added(Seq<char>),
    Removed(Seq<char>),
    Value { feature: Seq<char>, value: Value },
}

impl View for WatchEvent {
    type V = WatchEventView;

    open spec fn view(&self) -> WatchEventView {
        match *self {
            WatchEvent::Added(id) => WatchEventView::Added(id@),
            WatchEvent::Removed(id) => WatchEventView::Removed(id@),
            WatchEvent::Value { feature, value } => WatchEventView::Value { feature: feature@, value },
        }
    }
}

/// An event on its way to the subscription with the key `watch`.
#[derive(Debug)]
pub struct Delivery {
    pub watch: u64,
    pub event: WatchEvent,
}

/// A delivery, as contracts see it.
pub struct DeliveryView {
    pub watch: u64,
    pub event: WatchEventView,
}

impl View for Delivery {
    type V = DeliveryView;

    open spec fn view(&self) -> DeliveryView {
        DeliveryView { watch: self.watch, event: self.event@ }
    }
}

/// The views of a sequence of deliveries, in its order.
pub open spec fn delivery_views(deliveries: Seq<Delivery>) -> Seq<DeliveryView> {
    deliveries.map_values(|d: Delivery| d@)
}

/// One entry of a subscription.
#[derive(Debug)]
pub struct WatchEntry {
    select: FeatureSelector,
    filter: Exactly<Range>,
    interest: Vec<FeatureId>,
}

/// An entry, as contracts see it: the selector, the filter, and the
/// interest set in the order in which the catalog lists its features.
pub struct WatchEntryView {
    pub select: FeatureSelectorView,
    pub filter: Exactly<Range>,
    pub interest: Seq<Seq<char>>,
}

impl View for WatchEntry {
    type V = WatchEntryView;

    closed spec fn view(&self) -> WatchEntryView {
        WatchEntryView {
            select: self.select@,
            filter: self.filter,
            interest: feature_names(self.interest@),
        }
    }
}

/// The views of a sequence of entries, in its order.
pub open spec fn entry_views(entries: Seq<WatchEntry>) -> Seq<WatchEntryView> {
    entries.map_values(|e: WatchEntry| e@)
}

/// Whether a filter lets a value pass: `Always` every value, `Never` none,
/// a range the values that it accepts.
pub open spec fn passes(filter: Exactly<Range>, value: Value) -> bool {
    match filter {
        Exactly::Always => true,
        Exactly::Never => false,
        Exactly::Exactly(range) => range.accepts(value),
    }
}

/// The features that `select` accepts in `cat`.
pub open spec fn accepted_in(select: FeatureSelectorView, cat: CatalogView) -> spec_fn(
    FeatureView,
) -> bool {
    |f: FeatureView| select.accepts(f, cat.services, cat.features)
}

/// The features of `cat` that `select` accepts, in the catalog's order.
pub open spec fn matched(select: FeatureSelectorView, cat: CatalogView) -> Seq<FeatureView> {
    cat.features.filter(accepted_in(select, cat))
}

/// The ids that are not among `ids`.
pub open spec fn not_among(ids: Seq<Seq<char>>) -> spec_fn(Seq<char>) -> bool {
    |id: Seq<char>| !ids.contains(id)
}

/// The features whose id is not among `ids`.
pub open spec fn unknown_to(ids: Seq<Seq<char>>) -> spec_fn(FeatureView) -> bool {
    |f: FeatureView| !ids.contains(f.id)
}

/// The delivery that tells the subscription `watch` that a feature is gone.
pub open spec fn removal(watch: u64) -> spec_fn(Seq<char>) -> DeliveryView {
    |id: Seq<char>| DeliveryView { watch, event: WatchEventView::Removed(id) }
}

/// What the subscription `watch` is told of a feature that an entry has
/// begun to accept: that it is there, and then the value that it reported
/// last, if there is one and the entry's filter lets it pass.
pub open spec fn announcement(watch: u64, filter: Exactly<Range>) -> spec_fn(FeatureView) -> Seq<
    DeliveryView,
> {
    |f: FeatureView|
        {
            let added = seq![DeliveryView { watch, event: WatchEventView::Added(f.id) }];
            match f.last_value {
                Some(value) => if passes(filter, value) {
                    added.push(
                        DeliveryView {
                            watch,
                            event: WatchEventView::Value { feature: f.id, value },
                        },
                    )
                } else {
                    added
                },
                None => added,
            }
        }
}

impl WatchEntryView {
    /// The entry that has not looked at any catalog yet.
    pub open spec fn fresh(select: FeatureSelectorView, filter: Exactly<Range>) -> WatchEntryView {
        WatchEntryView { select, filter, interest: Seq::empty() }
    }

    /// The entry after it has looked at `cat`: its interest set is what its
    /// selector accepts there.
    pub open spec fn synced(self, cat: CatalogView) -> WatchEntryView {
        WatchEntryView {
            select: self.select,
            filter: self.filter,
            interest: matched(self.select, cat).map_values(feature_id()),
        }
    }

    /// What the subscription `watch` is told when the entry looks at `cat`:
    /// first `Removed` for each feature of the interest set that the selector
    /// accepts no longer, then the announcement of each feature that it has
    /// begun to accept. Nothing is said of a feature whose state is as it
    /// was.
    pub open spec fn changes(self, watch: u64, cat: CatalogView) -> Seq<DeliveryView> {
        self.departures(watch, cat) + self.arrivals(watch, cat)
    }

    /// `Removed` for each feature of the interest set that the selector
    /// accepts no longer, in the order of the interest set.
    pub open spec fn departures(self, watch: u64, cat: CatalogView) -> Seq<DeliveryView> {
        self.interest.filter(not_among(self.synced(cat).interest)).map_values(removal(watch))
    }

    /// The announcement of each feature that the selector has begun to
    /// accept, in the catalog's order.
    pub open spec fn arrivals(self, watch: u64, cat: CatalogView) -> Seq<DeliveryView> {
        matched(self.select, cat).filter(unknown_to(self.interest)).map_values(
            announcement(watch, self.filter),
        ).flatten()
    }

    /// Whether the entry lets the report of `value` by `feature` pass: the
    /// feature is in the interest set, and the filter lets the value pass.
    pub open spec fn hears(self, feature: Seq<char>, value: Value) -> bool {
        self.interest.contains(feature) && passes(self.filter, value)
    }
}

/// Whether a filter lets a value pass.
pub fn filter_passes(filter: &Exactly<Range>, value: &Value) -> (r: bool)
    ensures
        r == passes(*filter, *value),
{
    match filter {
        Exactly::Always => true,
        Exactly::Never => false,
        Exactly::Exactly(range) => range.contains(value),
    }
}

/// Whether `id` is among `ids`.
fn among(ids: &Vec<FeatureId>, id: &FeatureId) -> (r: bool)
    ensures
        r == feature_names(ids@).contains(id@),
{
    let mut k: usize = 0;
    while k < ids.len()
        invariant
            k <= ids@.len(),
            forall|m: int| 0 <= m < k ==> feature_names(ids@)[m] != id@,
        decreases ids@.len() - k,
    {
        if ids[k].same(id) {
            assert(feature_names(ids@)[k as int] == id@);
            return true;
        }
        k += 1;
    }
    false
}

/// The views of a sequence of borrowed features, in its order.
pub open spec fn borrowed_views(features: Seq<&Feature>) -> Seq<FeatureView> {
    features.map_values(|f: &Feature| f@)
}

impl WatchEntry {
    /// An entry that has not looked at any catalog yet.
    pub fn new(select: FeatureSelector, filter: Exactly<Range>) -> (r: WatchEntry)
        ensures
            r@ == WatchEntryView::fresh(select@, filter),
    {
        let r = WatchEntry { select, filter, interest: Vec::new() };
        assert(feature_names(r.interest@) =~= Seq::empty());
        r
    }

    /// The features of the catalog that the entry's selector accepts.
    fn matching<'a>(&self, services: &Vec<ServiceRecord>, features: &'a Vec<Feature>) -> (r: Vec<
        &'a Feature,
    >)
        ensures
            borrowed_views(r@) == matched(
                self@.select,
                CatalogView {
                    services: record_views(services@),
                    features: feature_views(features@),
                },
            ),
    {
        let ghost cat = CatalogView {
            services: record_views(services@),
            features: feature_views(features@),
        };
        let ghost accepted = accepted_in(self@.select, cat);
        let mut r: Vec<&'a Feature> = Vec::new();
        let mut j: usize = 0;
        proof {
            lemma_filter_none(cat.features, accepted);
            assert(borrowed_views(r@) =~= cat.features.take(0).filter(accepted));
        }
        while j < features.len()
            invariant
                j <= features@.len(),
                cat == (CatalogView {
                    services: record_views(services@),
                    features: feature_views(features@),
                }),
                accepted == accepted_in(self@.select, cat),
                borrowed_views(r@) == cat.features.take(j as int).filter(accepted),
            decreases features@.len() - j,
        {
            proof {
                lemma_filter_next(cat.features, accepted, j as int);
                assert(cat.features[j as int] == features@[j as int]@);
            }
            if self.select.matches(&features[j], services, features) {
                let ghost before = r@;
                r.push(&features[j]);
                proof {
                    lemma_map_push(before, &features@[j as int], |f: &Feature| f@);
                }
            }
            j += 1;
        }
        assert(cat.features.take(j as int) =~= cat.features);
        r
    }

    /// Looks at the catalog: queues in `pending` what the subscription
    /// `watch` is to be told, and takes what the selector accepts now as the
    /// interest set.
    pub fn refresh(
        &mut self,
        watch: u64,
        services: &Vec<ServiceRecord>,
        features: &Vec<Feature>,
        pending: &mut Vec<Delivery>,
    )
        ensures
            final(self)@ == old(self)@.synced(
                CatalogView {
                    services: record_views(services@),
                    features: feature_views(features@),
                },
            ),
            delivery_views(final(pending)@) == delivery_views(old(pending)@) + old(self)@.changes(
                watch,
                CatalogView {
                    services: record_views(services@),
                    features: feature_views(features@),
                },
            ),
    {
        let ghost cat = CatalogView {
            services: record_views(services@),
            features: feature_views(features@),
        };
        let ghost entry = self@;
        let ghost queued = delivery_views(pending@);
        let now = self.matching(services, features);
        // The ids of what is accepted now.
        let mut ids: Vec<FeatureId> = Vec::new();
        let mut k: usize = 0;
        assert(feature_names(ids@) =~= borrowed_views(now@).take(0).map_values(feature_id()));
        while k < now.len()
            invariant
                k <= now@.len(),
                feature_names(ids@) == borrowed_views(now@).take(k as int).map_values(feature_id()),
            decreases now@.len() - k,
        {
            let ghost before = ids@;
            let id = now[k].id.duplicate();
            ids.push(id);
            proof {
                lemma_map_push(before, id, |f: FeatureId| f@);
                assert(borrowed_views(now@).take(k + 1) =~= borrowed_views(now@).take(
                    k as int,
                ).push(now@[k as int]@));
                lemma_map_push(
                    borrowed_views(now@).take(k as int),
                    now@[k as int]@,
                    feature_id(),
                );
            }
            k += 1;
        }
        assert(borrowed_views(now@).take(k as int) =~= borrowed_views(now@));
        assert(feature_names(ids@) == entry.synced(cat).interest);
        // What has left.
        let ghost gone = not_among(entry.synced(cat).interest);
        let mut k: usize = 0;
        proof {
            lemma_filter_none(entry.interest, gone);
            assert(delivery_views(pending@) =~= queued + entry.interest.take(0).filter(
                gone,
            ).map_values(removal(watch)));
        }
        while k < self.interest.len()
            invariant
                k <= self.interest@.len(),
                self@ == entry,
                feature_names(ids@) == entry.synced(cat).interest,
                gone == not_among(entry.synced(cat).interest),
                delivery_views(pending@) == queued + entry.interest.take(k as int).filter(
                    gone,
                ).map_values(removal(watch)),
            decreases self.interest@.len() - k,
        {
            proof {
                lemma_filter_next(entry.interest, gone, k as int);
                assert(entry.interest[k as int] == self.interest@[k as int]@);
            }
            if !among(&ids, &self.interest[k]) {
                let ghost before = pending@;
                let delivery = Delivery {
                    watch,
                    event: WatchEvent::Removed(self.interest[k].duplicate()),
                };
                pending.push(delivery);
                proof {
                    lemma_map_push(before, delivery, |d: Delivery| d@);
                    lemma_map_push(
                        entry.interest.take(k as int).filter(gone),
                        entry.interest[k as int],
                        removal(watch),
                    );
                    assert(delivery_views(pending@) =~= queued + entry.interest.take(k + 1).filter(
                        gone,
                    ).map_values(removal(watch)));
                }
            }
            k += 1;
        }
        assert(entry.interest.take(k as int) =~= entry.interest);
        // What has come.
        let ghost left = queued + entry.departures(watch, cat);
        let ghost fresh = unknown_to(entry.interest);
        let ghost tell = announcement(watch, entry.filter);
        let ghost seen = borrowed_views(now@);
        let mut k: usize = 0;
        proof {
            lemma_filter_none(seen, fresh);
            assert(seen.take(0).filter(fresh).map_values(tell) =~= Seq::empty());
            assert(delivery_views(pending@) =~= left + seen.take(0).filter(fresh).map_values(
                tell,
            ).flatten());
        }
        while k < now.len()
            invariant
                k <= now@.len(),
                self@ == entry,
                seen == borrowed_views(now@),
                fresh == unknown_to(entry.interest),
                tell == announcement(watch, entry.filter),
                delivery_views(pending@) == left + seen.take(k as int).filter(fresh).map_values(
                    tell,
                ).flatten(),
            decreases now@.len() - k,
        {
            let feature = now[k];
            proof {
                lemma_filter_next(seen, fresh, k as int);
                assert(seen[k as int] == feature@);
            }
            if !among(&self.interest, &feature.id) {
                let ghost so_far = seen.take(k as int).filter(fresh);
                proof {
                    lemma_map_push(so_far, feature@, tell);
                    so_far.map_values(tell).lemma_flatten_push(tell(feature@));
                }
                let ghost before = pending@;
                let added = Delivery { watch, event: WatchEvent::Added(feature.id.duplicate()) };
                pending.push(added);
                proof {
                    lemma_map_push(before, added, |d: Delivery| d@);
                }
                match feature.last_value {
                    Some(value) => {
                        if filter_passes(&self.filter, &value) {
                            let ghost before = pending@;
                            let told = Delivery {
                                watch,
                                event: WatchEvent::Value { feature: feature.id.duplicate(), value },
                            };
                            pending.push(told);
                            proof {
                                lemma_map_push(before, told, |d: Delivery| d@);
                            }
                        }
                    },
                    None => {},
                }
                assert(delivery_views(pending@) =~= left + seen.take(k + 1).filter(
                    fresh,
                ).map_values(tell).flatten());
            }
            k += 1;
        }
        assert(seen.take(k as int) =~= seen);
        self.interest = ids;
    }
}

/// What an entry of the subscription `watch` tells when it looks at `cat`.
pub open spec fn entry_changes(watch: u64, cat: CatalogView) -> spec_fn(WatchEntryView) -> Seq<
    DeliveryView,
> {
    |e: WatchEntryView| e.changes(watch, cat)
}

/// An entry after it has looked at `cat`.
pub open spec fn entry_synced(cat: CatalogView) -> spec_fn(WatchEntryView) -> WatchEntryView {
    |e: WatchEntryView| e.synced(cat)
}

/// The entries that let the report of `value` by `feature` pass.
pub open spec fn hearing(feature: Seq<char>, value: Value) -> spec_fn(WatchEntryView) -> bool {
    |e: WatchEntryView| e.hears(feature, value)
}

/// The delivery that tells the subscription `watch` of a report.
pub open spec fn report(watch: u64, feature: Seq<char>, value: Value) -> spec_fn(
    WatchEntryView,
) -> DeliveryView {
    |e: WatchEntryView| DeliveryView { watch, event: WatchEventView::Value { feature, value } }
}

/// A subscription, as contracts see it.
pub struct SubscriptionView {
    pub key: u64,
    pub entries: Seq<WatchEntryView>,
}

impl SubscriptionView {
    /// The subscription after it has looked at `cat`.
    pub open spec fn synced(self, cat: CatalogView) -> SubscriptionView {
        SubscriptionView { key: self.key, entries: self.entries.map_values(entry_synced(cat)) }
    }

    /// What the subscription is told when it looks at `cat`: the changes of
    /// its entries, entry by entry.
    pub open spec fn changes(self, cat: CatalogView) -> Seq<DeliveryView> {
        self.entries.map_values(entry_changes(self.key, cat)).flatten()
    }

    /// What the subscription is told when `feature` reports `value`: one
    /// `Value` event for each entry that lets the report pass.
    pub open spec fn reports(self, feature: Seq<char>, value: Value) -> Seq<DeliveryView> {
        self.entries.filter(hearing(feature, value)).map_values(report(self.key, feature, value))
    }
}

/// A live subscription.
#[derive(Debug)]
pub struct Subscription {
    key: u64,
    entries: Vec<WatchEntry>,
}

impl View for Subscription {
    type V = SubscriptionView;

    closed spec fn view(&self) -> SubscriptionView {
        SubscriptionView { key: self.key, entries: entry_views(self.entries@) }
    }
}

/// The views of a sequence of subscriptions, in its order.
pub open spec fn subscription_views(subscriptions: Seq<Subscription>) -> Seq<SubscriptionView> {
    subscriptions.map_values(|s: Subscription| s@)
}

/// The entry that a target of a watch asks for.
pub open spec fn asked() -> spec_fn(Targetted<FeatureSelector, Exactly<Range>>) -> WatchEntryView {
    |t: Targetted<FeatureSelector, Exactly<Range>>| WatchEntryView::fresh(t.select@, t.payload)
}

impl Subscription {
    /// The subscription with the key `key` that `watch` asks for. It has
    /// not looked at any catalog yet.
    pub fn new(key: u64, watch: &TargetMap<FeatureSelector, Exactly<Range>>) -> (r: Subscription)
        ensures
            r@ == (SubscriptionView { key, entries: watch@.map_values(asked()) }),
    {
        let mut entries: Vec<WatchEntry> = Vec::new();
        let mut i: usize = 0;
        assert(entry_views(entries@) =~= watch@.take(0).map_values(asked()));
        while i < watch.len()
            invariant
                i <= watch@.len(),
                entry_views(entries@) == watch@.take(i as int).map_values(asked()),
            decreases watch@.len() - i,
        {
            let ghost before = entries@;
            let filter = match &watch[i].payload {
                Exactly::Always => Exactly::Always,
                Exactly::Never => Exactly::Never,
                Exactly::Exactly(range) => Exactly::Exactly(*range),
            };
            let entry = WatchEntry::new(watch[i].select.clone(), filter);
            entries.push(entry);
            proof {
                lemma_map_push(before, entry, |e: WatchEntry| e@);
                assert(watch@.take(i + 1) =~= watch@.take(i as int).push(watch@[i as int]));
                lemma_map_push(watch@.take(i as int), watch@[i as int], asked());
            }
            i += 1;
        }
        assert(watch@.take(i as int) =~= watch@);
        Subscription { key, entries }
    }

    /// The key of the subscription.
    pub fn key(&self) -> (k: u64)
        ensures
            k == self@.key,
    {
        self.key
    }

    /// Looks at the catalog: queues in `pending` what the subscription is
    /// to be told, and renews the interest set of each entry.
    pub fn refresh(
        &mut self,
        services: &Vec<ServiceRecord>,
        features: &Vec<Feature>,
        pending: &mut Vec<Delivery>,
    )
        ensures
            final(self)@ == old(self)@.synced(
                CatalogView {
                    services: record_views(services@),
                    features: feature_views(features@),
                },
            ),
            delivery_views(final(pending)@) == delivery_views(old(pending)@) + old(self)@.changes(
                CatalogView {
                    services: record_views(services@),
                    features: feature_views(features@),
                },
            ),
    {
        let ghost cat = CatalogView {
            services: record_views(services@),
            features: feature_views(features@),
        };
        let ghost before = self@;
        let ghost queued = delivery_views(pending@);
        let ghost told = entry_changes(before.key, cat);
        let key = self.key;
        let mut b: usize = 0;
        assert(before.entries.take(0).map_values(told) =~= Seq::empty());
        assert(delivery_views(pending@) =~= queued + before.entries.take(0).map_values(
            told,
        ).flatten());
        while b < self.entries.len()
            invariant
                b <= self.entries@.len(),
                self.key == key,
                key == before.key,
                self.entries@.len() == before.entries.len(),
                told == entry_changes(before.key, cat),
                cat == (CatalogView {
                    services: record_views(services@),
                    features: feature_views(features@),
                }),
                forall|m: int| 0 <= m < b ==> (#[trigger] self.entries@[m])@ == before.entries[m].synced(cat),
                forall|m: int|
                    b <= m < self.entries@.len() ==> (#[trigger] self.entries@[m])@
                        == before.entries[m],
                delivery_views(pending@) == queued + before.entries.take(b as int).map_values(
                    told,
                ).flatten(),
            decreases self.entries@.len() - b,
        {
            self.entries[b].refresh(key, services, features, pending);
            proof {
                let done = before.entries.take(b as int);
                assert(before.entries.take(b + 1) =~= done.push(before.entries[b as int]));
                lemma_map_push(done, before.entries[b as int], told);
                done.map_values(told).lemma_flatten_push(told(before.entries[b as int]));
                assert(delivery_views(pending@) =~= queued + before.entries.take(
                    b + 1,
                ).map_values(told).flatten());
            }
            b += 1;
        }
        assert(before.entries.take(b as int) =~= before.entries);
        assert(entry_views(self.entries@) =~= before.entries.map_values(entry_synced(cat)));
    }

    /// Queues in `pending` what the subscription is to be told when
    /// `feature` reports `value`.
    pub fn report(&self, feature: &FeatureId, value: Value, pending: &mut Vec<Delivery>)
        ensures
            delivery_views(final(pending)@) == delivery_views(old(pending)@) + self@.reports(
                feature@,
                value,
            ),
    {
        let ghost queued = delivery_views(pending@);
        let ghost entries = self@.entries;
        let ghost heard = hearing(feature@, value);
        let ghost tell = report(self@.key, feature@, value);
        let mut b: usize = 0;
        proof {
            lemma_filter_none(entries, heard);
            assert(delivery_views(pending@) =~= queued + entries.take(0).filter(heard).map_values(
                tell,
            ));
        }
        while b < self.entries.len()
            invariant
                b <= self.entries@.len(),
                entries == self@.entries,
                heard == hearing(feature@, value),
                tell == report(self@.key, feature@, value),
                delivery_views(pending@) == queued + entries.take(b as int).filter(
                    heard,
                ).map_values(tell),
            decreases self.entries@.len() - b,
        {
            proof {
                lemma_filter_next(entries, heard, b as int);
                assert(entries[b as int] == self.entries@[b as int]@);
            }
            let entry = &self.entries[b];
            if among(&entry.interest, feature) && filter_passes(&entry.filter, &value) {
                let ghost before = pending@;
                let delivery = Delivery {
                    watch: self.key,
                    event: WatchEvent::Value { feature: feature.duplicate(), value },
                };
                pending.push(delivery);
                proof {
                    lemma_map_push(before, delivery, |d: Delivery| d@);
                    lemma_map_push(entries.take(b as int).filter(heard), entries[b as int], tell);
                    assert(delivery_views(pending@) =~= queued + entries.take(b + 1).filter(
                        heard,
                    ).map_values(tell));
                }
            }
            b += 1;
        }
        assert(entries.take(b as int) =~= entries);
    }
}

/// What a subscription is told when it looks at `cat`.
pub open spec fn subscription_changes(cat: CatalogView) -> spec_fn(SubscriptionView) -> Seq<
    DeliveryView,
> {
    |s: SubscriptionView| s.changes(cat)
}

/// A subscription after it has looked at `cat`.
pub open spec fn subscription_synced(cat: CatalogView) -> spec_fn(
    SubscriptionView,
) -> SubscriptionView {
    |s: SubscriptionView| s.synced(cat)
}

/// What a subscription is told when `feature` reports `value`.
pub open spec fn subscription_reports(feature: Seq<char>, value: Value) -> spec_fn(
    SubscriptionView,
) -> Seq<DeliveryView> {
    |s: SubscriptionView| s.reports(feature, value)
}

/// The key of a subscription.
pub open spec fn subscription_key() -> spec_fn(SubscriptionView) -> u64 {
    |s: SubscriptionView| s.key
}

/// The subscriptions with another key than `key`.
pub open spec fn other_than(key: u64) -> spec_fn(SubscriptionView) -> bool {
    |s: SubscriptionView| s.key != key
}

/// The dispatcher, as contracts see it.
pub struct DispatcherView {
    /// The live subscriptions, in the order of registration.
    pub subscriptions: Seq<SubscriptionView>,
    /// The key that the next subscription gets.
    pub next_key: u64,
    /// What is queued for delivery, oldest first.
    pub pending: Seq<DeliveryView>,
}

impl DispatcherView {
    /// No two live subscriptions share a key, and every key in use is below
    /// the next key.
    pub open spec fn well_formed(self) -> bool {
        &&& self.subscriptions.map_values(subscription_key()).no_duplicates()
        &&& forall|a: int|
            0 <= a < self.subscriptions.len() ==> (#[trigger] self.subscriptions[a]).key
                < self.next_key
    }

    /// Whether a subscription with the key `key` is live.
    pub open spec fn is_live(self, key: u64) -> bool {
        exists|a: int|
            0 <= a < self.subscriptions.len() && (#[trigger] self.subscriptions[a]).key == key
    }

    /// What the live subscriptions are told when they look at `cat`,
    /// subscription by subscription.
    pub open spec fn changes(self, cat: CatalogView) -> Seq<DeliveryView> {
        self.subscriptions.map_values(subscription_changes(cat)).flatten()
    }

    /// What the live subscriptions are told when `feature` reports `value`,
    /// subscription by subscription.
    pub open spec fn reports(self, feature: Seq<char>, value: Value) -> Seq<DeliveryView> {
        self.subscriptions.map_values(subscription_reports(feature, value)).flatten()
    }

    /// The dispatcher after every live subscription has looked at `cat`.
    pub open spec fn refreshed(self, cat: CatalogView) -> DispatcherView {
        DispatcherView {
            subscriptions: self.subscriptions.map_values(subscription_synced(cat)),
            next_key: self.next_key,
            pending: self.pending + self.changes(cat),
        }
    }

    /// The dispatcher after `feature` has reported `value`.
    pub open spec fn informed(self, feature: Seq<char>, value: Value) -> DispatcherView {
        DispatcherView {
            subscriptions: self.subscriptions,
            next_key: self.next_key,
            pending: self.pending + self.reports(feature, value),
        }
    }

    /// The dispatcher after a subscription of `entries` was registered in a
    /// catalog `cat`: the subscription gets the next key, looks at the
    /// catalog, and is told of every feature that its entries accept.
    pub open spec fn joined(self, entries: Seq<WatchEntryView>, cat: CatalogView) -> DispatcherView {
        let subscription = SubscriptionView { key: self.next_key, entries };
        DispatcherView {
            subscriptions: self.subscriptions.push(subscription.synced(cat)),
            next_key: (self.next_key + 1) as u64,
            pending: self.pending + subscription.changes(cat),
        }
    }

    /// The dispatcher after the subscription with the key `key` was
    /// released. What is queued stays queued.
    pub open spec fn released(self, key: u64) -> DispatcherView {
        DispatcherView {
            subscriptions: self.subscriptions.filter(other_than(key)),
            next_key: self.next_key,
            pending: self.pending,
        }
    }
}

/// The handle of a subscription: what releases it.
#[derive(Debug)]
pub struct WatchGuard {
    key: u64,
}

impl WatchGuard {
    /// The key of the subscription.
    pub closed spec fn id(&self) -> u64 {
        self.key
    }

    /// The key of the subscription.
    pub fn key(&self) -> (k: u64)
        ensures
            k == self.id(),
    {
        self.key
    }
}

/// The table of live subscriptions, with what is queued for delivery.
#[derive(Debug)]
pub struct WatchDispatcher {
    subscriptions: Vec<Subscription>,
    next_key: u64,
    pending: Vec<Delivery>,
}

impl View for WatchDispatcher {
    type V = DispatcherView;

    closed spec fn view(&self) -> DispatcherView {
        DispatcherView {
            subscriptions: subscription_views(self.subscriptions@),
            next_key: self.next_key,
            pending: delivery_views(self.pending@),
        }
    }
}

impl WatchDispatcher {
    /// What holds of every dispatcher: no key is in use twice, and every
    /// key in use was given out.
    #[verifier::type_invariant]
    pub open spec fn keys_are_unique(&self) -> bool {
        self@.well_formed()
    }

    /// A dispatcher without subscriptions.
    pub fn new() -> (r: WatchDispatcher)
        ensures
            r@ == (DispatcherView {
                subscriptions: Seq::empty(),
                next_key: 0,
                pending: Seq::empty(),
            }),
    {
        let r = WatchDispatcher { subscriptions: Vec::new(), next_key: 0, pending: Vec::new() };
        assert(r@.subscriptions =~= Seq::empty());
        assert(r@.pending =~= Seq::empty());
        r
    }

    /// Whether one more subscription can be registered: whether a key is
    /// left.
    pub fn has_room(&self) -> (r: bool)
        ensures
            r == (self@.next_key < u64::MAX),
            self@.well_formed(),
    {
        proof {
            use_type_invariant(self);
        }
        self.next_key < u64::MAX
    }

    fn position(&self, key: u64) -> (r: Option<usize>)
        ensures
            r is Some <==> self@.is_live(key),
            r matches Some(a) ==> a < self@.subscriptions.len() && self@.subscriptions[a as int].key
                == key,
    {
        let mut a: usize = 0;
        while a < self.subscriptions.len()
            invariant
                a <= self.subscriptions@.len(),
                forall|m: int| 0 <= m < a ==> (#[trigger] self@.subscriptions[m]).key != key,
            decreases self.subscriptions@.len() - a,
        {
            assert(self@.subscriptions[a as int] == self.subscriptions@[a as int]@);
            if self.subscriptions[a].key == key {
                return Some(a);
            }
            a += 1;
        }
        None
    }

    /// Whether the subscription of `guard` is live.
    pub fn is_live(&self, guard: &WatchGuard) -> (r: bool)
        ensures
            r == self@.is_live(guard.id()),
            self@.well_formed(),
    {
        proof {
            use_type_invariant(self);
        }
        self.position(guard.key).is_some()
    }

    /// Registers a subscription for `watch` in the catalog as it is now.
    /// Refuses, and changes nothing, where a selector of `watch` constrains
    /// nothing or holds one that does.
    pub fn register(
        &mut self,
        watch: &TargetMap<FeatureSelector, Exactly<Range>>,
        catalog: &Registry,
    ) -> (r: Result<WatchGuard, ConfigurationError>)
        requires
            old(self)@.next_key < u64::MAX,
        ensures
            final(self)@.well_formed(),
            r is Ok <==> all_targets_valid(watch@),
            r matches Ok(guard) ==> guard.id() == old(self)@.next_key && final(self)@ == old(self)@.joined(watch@.map_values(asked()), catalog@),
            r matches Err(e) ==> e == ConfigurationError::EmptySelector && final(self)@ == old(self)@,
    {
        proof {
            use_type_invariant(&*self);
        }
        match validate_targets(watch) {
            Ok(()) => Ok(self.join(watch, catalog)),
            Err(e) => Err(e),
        }
    }

    fn join(&mut self, watch: &TargetMap<FeatureSelector, Exactly<Range>>, catalog: &Registry) -> (guard:
        WatchGuard)
        requires
            old(self)@.next_key < u64::MAX,
        ensures
            final(self)@.well_formed(),
            guard.id() == old(self)@.next_key,
            final(self)@ == old(self)@.joined(watch@.map_values(asked()), catalog@),
    {
        proof {
            use_type_invariant(&*self);
        }
        let ghost before = self@;
        let key = self.next_key;
        let services = catalog.services();
        let features = catalog.features();
        let mut pending: Vec<Delivery> = Vec::new();
        core::mem::swap(&mut pending, &mut self.pending);
        assert(delivery_views(self.pending@) =~= Seq::empty());
        let mut subscription = Subscription::new(key, watch);
        subscription.refresh(services, features, &mut pending);
        let mut subscriptions: Vec<Subscription> = Vec::new();
        core::mem::swap(&mut subscriptions, &mut self.subscriptions);
        assert(subscription_views(self.subscriptions@) =~= Seq::empty());
        let ghost old_subscriptions = subscriptions@;
        subscriptions.push(subscription);
        proof {
            lemma_map_push(old_subscriptions, subscription, |s: Subscription| s@);
            let keys = subscription_views(subscriptions@).map_values(subscription_key());
            let old_keys = before.subscriptions.map_values(subscription_key());
            assert(keys =~= old_keys.push(key));
            assert forall|a: int| 0 <= a < old_keys.len() implies old_keys[a] != key by {
                assert(before.subscriptions[a].key == old_keys[a]);
            }
        }
        self.next_key = key + 1;
        core::mem::swap(&mut subscriptions, &mut self.subscriptions);
        core::mem::swap(&mut pending, &mut self.pending);
        WatchGuard { key }
    }

    /// Releases the subscription of `guard`. Returns whether it was live;
    /// where it was not, nothing changes. What was queued for the
    /// subscription stays queued.
    pub fn release(&mut self, guard: &WatchGuard) -> (was_live: bool)
        ensures
            final(self)@.well_formed(),
            final(self)@ == old(self)@.released(guard.id()),
            was_live == old(self)@.is_live(guard.id()),
            !final(self)@.is_live(guard.id()),
            !was_live ==> final(self)@ == old(self)@,
    {
        self.release_key(guard.key)
    }

    /// Releases the subscription with the key `key`: what a release by the
    /// guard does, for whoever only has the key of a subscription whose sink
    /// has gone.
    pub fn release_key(&mut self, key: u64) -> (was_live: bool)
        ensures
            final(self)@.well_formed(),
            final(self)@ == old(self)@.released(key),
            was_live == old(self)@.is_live(key),
            !final(self)@.is_live(key),
            !was_live ==> final(self)@ == old(self)@,
    {
        proof {
            use_type_invariant(&*self);
        }
        let ghost before = self@;
        let ghost keep = other_than(key);
        proof {
            lemma_filter_keeps_keys_distinct(before.subscriptions, keep, subscription_key());
            crate::seqs::lemma_filter_members(before.subscriptions, keep);
            let kept = before.subscriptions.filter(keep);
            assert forall|a: int| 0 <= a < kept.len() implies (#[trigger] kept[a]).key
                < before.next_key && kept[a].key != key by {
                assert(kept.contains(kept[a]));
                let m = choose|m: int|
                    0 <= m < before.subscriptions.len() && before.subscriptions[m] == kept[a];
            }
        }
        match self.position(key) {
            None => {
                proof {
                    crate::seqs::lemma_filter_all(before.subscriptions, keep);
                }
                false
            },
            Some(a) => {
                let mut subscriptions: Vec<Subscription> = Vec::new();
                core::mem::swap(&mut subscriptions, &mut self.subscriptions);
                assert(subscription_views(self.subscriptions@) =~= Seq::empty());
                subscriptions.remove(a);
                proof {
                    let keys = before.subscriptions.map_values(subscription_key());
                    assert forall|m: int|
                        0 <= m < before.subscriptions.len() && m != a implies keep(
                        #[trigger] before.subscriptions[m],
                    ) by {
                        assert(keys[m] == before.subscriptions[m].key);
                        assert(keys[a as int] == before.subscriptions[a as int].key);
                    }
                    lemma_filter_removes_one(before.subscriptions, keep, a as int);
                    assert(subscription_views(subscriptions@) =~= before.subscriptions.remove(
                        a as int,
                    ));
                }
                core::mem::swap(&mut subscriptions, &mut self.subscriptions);
                true
            },
        }
    }

    /// Lets every live subscription look at the catalog: queues what each
    /// is to be told of the features that its entries have begun or ceased
    /// to accept, and renews the interest sets.
    pub fn refresh(&mut self, catalog: &Registry)
        ensures
            final(self)@.well_formed(),
            final(self)@ == old(self)@.refreshed(catalog@),
    {
        proof {
            use_type_invariant(&*self);
        }
        let ghost before = self@;
        let ghost cat = catalog@;
        let ghost told = subscription_changes(cat);
        let services = catalog.services();
        let features = catalog.features();
        let mut pending: Vec<Delivery> = Vec::new();
        core::mem::swap(&mut pending, &mut self.pending);
        assert(delivery_views(self.pending@) =~= Seq::empty());
        let mut subscriptions: Vec<Subscription> = Vec::new();
        core::mem::swap(&mut subscriptions, &mut self.subscriptions);
        assert(subscription_views(self.subscriptions@) =~= Seq::empty());
        let mut a: usize = 0;
        assert(before.subscriptions.take(0).map_values(told) =~= Seq::empty());
        assert(delivery_views(pending@) =~= before.pending + before.subscriptions.take(
            0,
        ).map_values(told).flatten());
        while a < subscriptions.len()
            invariant
                a <= subscriptions@.len(),
                subscriptions@.len() == before.subscriptions.len(),
                told == subscription_changes(cat),
                cat == (CatalogView {
                    services: record_views(services@),
                    features: feature_views(features@),
                }),
                forall|m: int|
                    0 <= m < a ==> (#[trigger] subscriptions@[m])@ == before.subscriptions[m].synced(
                        cat,
                    ),
                forall|m: int|
                    a <= m < subscriptions@.len() ==> (#[trigger] subscriptions@[m])@
                        == before.subscriptions[m],
                delivery_views(pending@) == before.pending + before.subscriptions.take(
                    a as int,
                ).map_values(told).flatten(),
            decreases subscriptions@.len() - a,
        {
            subscriptions[a].refresh(services, features, &mut pending);
            proof {
                let done = before.subscriptions.take(a as int);
                assert(before.subscriptions.take(a + 1) =~= done.push(
                    before.subscriptions[a as int],
                ));
                lemma_map_push(done, before.subscriptions[a as int], told);
                done.map_values(told).lemma_flatten_push(told(before.subscriptions[a as int]));
                assert(delivery_views(pending@) =~= before.pending + before.subscriptions.take(
                    a + 1,
                ).map_values(told).flatten());
            }
            a += 1;
        }
        proof {
            assert(before.subscriptions.take(a as int) =~= before.subscriptions);
            let after = before.subscriptions.map_values(subscription_synced(cat));
            assert(subscription_views(subscriptions@) =~= after);
            assert(after.map_values(subscription_key()) =~= before.subscriptions.map_values(
                subscription_key(),
            ));
        }
        core::mem::swap(&mut subscriptions, &mut self.subscriptions);
        core::mem::swap(&mut pending, &mut self.pending);
    }

    /// Takes note that `feature` has reported `value`: queues a `Value`
    /// event for each entry of each live subscription that has the feature in
    /// its interest set and whose filter lets the value pass.
    pub fn value_pushed(&mut self, feature: &FeatureId, value: Value)
        ensures
            final(self)@.well_formed(),
            final(self)@ == old(self)@.informed(feature@, value),
    {
        proof {
            use_type_invariant(&*self);
        }
        let ghost before = self@;
        let ghost told = subscription_reports(feature@, value);
        let mut pending: Vec<Delivery> = Vec::new();
        core::mem::swap(&mut pending, &mut self.pending);
        assert(delivery_views(self.pending@) =~= Seq::empty());
        let mut a: usize = 0;
        assert(before.subscriptions.take(0).map_values(told) =~= Seq::empty());
        assert(delivery_views(pending@) =~= before.pending + before.subscriptions.take(
            0,
        ).map_values(told).flatten());
        while a < self.subscriptions.len()
            invariant
                a <= self.subscriptions@.len(),
                subscription_views(self.subscriptions@) == before.subscriptions,
                told == subscription_reports(feature@, value),
                delivery_views(pending@) == before.pending + before.subscriptions.take(
                    a as int,
                ).map_values(told).flatten(),
            decreases self.subscriptions@.len() - a,
        {
            self.subscriptions[a].report(feature, value, &mut pending);
            proof {
                assert(before.subscriptions[a as int] == self.subscriptions@[a as int]@);
                let done = before.subscriptions.take(a as int);
                assert(before.subscriptions.take(a + 1) =~= done.push(
                    before.subscriptions[a as int],
                ));
                lemma_map_push(done, before.subscriptions[a as int], told);
                done.map_values(told).lemma_flatten_push(told(before.subscriptions[a as int]));
                assert(delivery_views(pending@) =~= before.pending + before.subscriptions.take(
                    a + 1,
                ).map_values(told).flatten());
            }
            a += 1;
        }
        assert(before.subscriptions.take(a as int) =~= before.subscriptions);
        core::mem::swap(&mut pending, &mut self.pending);
    }

    /// Takes what is queued for delivery, oldest first, and leaves the queue
    /// empty.
    pub fn take_pending(&mut self) -> (taken: Vec<Delivery>)
        ensures
            final(self)@.well_formed(),
            delivery_views(taken@) == old(self)@.pending,
            final(self)@ == (DispatcherView {
                subscriptions: old(self)@.subscriptions,
                next_key: old(self)@.next_key,
                pending: Seq::empty(),
            }),
    {
        proof {
            use_type_invariant(&*self);
        }
        let mut pending: Vec<Delivery> = Vec::new();
        assert(delivery_views(pending@) =~= Seq::empty());
        core::mem::swap(&mut pending, &mut self.pending);
        pending
    }
}

} // verus!
