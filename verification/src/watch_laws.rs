//! What holds of every subscription, whatever the catalog does.

use vstd::prelude::*;
use crate::exactly::Exactly;
use crate::range::{lemma_other_kinds_are_refused, Range};
use crate::registry::CatalogView;
use crate::selector::FeatureSelectorView;
use crate::seqs::{
    lemma_filter_alike, lemma_filter_all, lemma_filter_keeps_keys_distinct, lemma_filter_members,
    lemma_filter_of_keys, lemma_filter_swap, lemma_flatten_keeps_members, lemma_flatten_members,
};
use crate::services::FeatureView;
use crate::value::Value;
use crate::watch::{
    announcement, entry_changes, hearing, matched, other_than, passes, removal, report,
    subscription_changes, subscription_reports, unknown_to, DeliveryView, DispatcherView,
    SubscriptionView, WatchEntryView, WatchEventView,
};

verus! {

/// Whether a delivery carries a value.
pub open spec fn carries_value(d: DeliveryView) -> bool {
    d.event is Value
}

/// The delivery that only says that a feature is there.
pub open spec fn bare_announcement(watch: u64) -> spec_fn(FeatureView) -> Seq<DeliveryView> {
    |f: FeatureView| seq![DeliveryView { watch, event: WatchEventView::Added(f.id) }]
}

/// An entry with the filter `Never` lets no report pass.
pub proof fn lemma_never_hears_nothing(entry: WatchEntryView, feature: Seq<char>, value: Value)
    requires
        entry.filter is Never,
    ensures
        !entry.hears(feature, value),
{
}

/// A subscription whose entries all have the filter `Never` is told of no
/// report.
pub proof fn lemma_never_is_told_no_value(
    subscription: SubscriptionView,
    feature: Seq<char>,
    value: Value,
)
    requires
        forall|b: int|
            0 <= b < subscription.entries.len() ==> (#[trigger] subscription.entries[b]).filter is Never,
    ensures
        subscription.reports(feature, value) == Seq::<DeliveryView>::empty(),
{
    let heard = subscription.entries.filter(hearing(feature, value));
    lemma_filter_members(subscription.entries, hearing(feature, value));
    if heard.len() > 0 {
        assert(heard.contains(heard[0]));
        let b = choose|b: int|
            0 <= b < subscription.entries.len() && subscription.entries[b] == heard[0];
        assert(subscription.entries[b].filter is Never);
    }
    assert(subscription.reports(feature, value) =~= Seq::<DeliveryView>::empty());
}

/// An entry with the filter `Never` is still told of the catalog: of each
/// feature that it accepts no longer, and of each that it has begun to
/// accept. It is told no value with that.
pub proof fn lemma_never_is_still_told_of_the_catalog(
    entry: WatchEntryView,
    watch: u64,
    cat: CatalogView,
)
    requires
        entry.filter is Never,
    ensures
        entry.changes(watch, cat) == entry.interest.filter(
            crate::watch::not_among(entry.synced(cat).interest),
        ).map_values(removal(watch)) + matched(entry.select, cat).filter(
            unknown_to(entry.interest),
        ).map_values(bare_announcement(watch)).flatten(),
{
    let came = matched(entry.select, cat).filter(unknown_to(entry.interest));
    assert(came.map_values(announcement(watch, entry.filter)) =~= came.map_values(
        bare_announcement(watch),
    ));
}

/// A subscription is told one value for each of its entries that lets the
/// report pass, and nothing else.
pub proof fn lemma_one_value_for_each_entry_that_hears(
    subscription: SubscriptionView,
    feature: Seq<char>,
    value: Value,
)
    ensures
        subscription.reports(feature, value).len() == subscription.entries.filter(
            hearing(feature, value),
        ).len(),
        forall|k: int|
            0 <= k < subscription.reports(feature, value).len() ==> #[trigger] subscription.reports(
                feature,
                value,
            )[k] == (DeliveryView {
                watch: subscription.key,
                event: WatchEventView::Value { feature, value },
            }),
{
}

/// A subscription with one entry whose filter is `Always` is told exactly
/// one value for each report of a feature of its interest set.
pub proof fn lemma_always_is_told_each_value_once(
    subscription: SubscriptionView,
    feature: Seq<char>,
    value: Value,
)
    requires
        subscription.entries.len() == 1,
        subscription.entries[0].filter is Always,
        subscription.entries[0].interest.contains(feature),
    ensures
        subscription.reports(feature, value) == seq![
            DeliveryView {
                watch: subscription.key,
                event: WatchEventView::Value { feature, value },
            },
        ],
{
    lemma_filter_all(subscription.entries, hearing(feature, value));
    assert(subscription.reports(feature, value) =~= seq![
        DeliveryView { watch: subscription.key, event: WatchEventView::Value { feature, value } },
    ]);
}

/// No entry is told of a report by a feature that is not in its interest
/// set.
pub proof fn lemma_outside_the_interest_set_nothing_is_heard(
    entry: WatchEntryView,
    feature: Seq<char>,
    value: Value,
)
    requires
        !entry.interest.contains(feature),
    ensures
        !entry.hears(feature, value),
{
}

/// An entry whose filter is a range lets no value pass whose kind none of
/// the range's operands has: neither a report, nor the value that a feature
/// reported before the entry began to accept it.
pub proof fn lemma_values_of_another_kind_are_dropped(
    entry: WatchEntryView,
    range: Range,
    watch: u64,
    feature: FeatureView,
    value: Value,
)
    requires
        entry.filter == Exactly::Exactly(range),
        !range.has_operand_of(value.kind_of()),
    ensures
        !passes(entry.filter, value),
        !entry.hears(feature.id, value),
        feature.last_value == Some(value) ==> announcement(watch, entry.filter)(feature)
            == bare_announcement(watch)(feature),
{
    lemma_other_kinds_are_refused(range, value);
}

/// An entry is told of each feature of its interest set that its selector
/// accepts no longer: because the feature has left the catalog, or because
/// the catalog has changed around it.
pub proof fn lemma_what_leaves_is_told(
    entry: WatchEntryView,
    watch: u64,
    cat: CatalogView,
    id: Seq<char>,
)
    requires
        entry.interest.contains(id),
        !entry.synced(cat).interest.contains(id),
    ensures
        entry.changes(watch, cat).contains(
            DeliveryView { watch, event: WatchEventView::Removed(id) },
        ),
{
    let gone = entry.interest.filter(crate::watch::not_among(entry.synced(cat).interest));
    lemma_filter_members(entry.interest, crate::watch::not_among(entry.synced(cat).interest));
    assert(gone.contains(id));
    let k = choose|k: int| 0 <= k < gone.len() && gone[k] == id;
    let left = entry.departures(watch, cat);
    assert(left[k] == DeliveryView { watch, event: WatchEventView::Removed(id) });
    assert(entry.changes(watch, cat)[k] == left[k]);
}

/// An entry is told of each feature that its selector accepts and that is
/// not in its interest set.
pub proof fn lemma_what_comes_is_told(
    entry: WatchEntryView,
    watch: u64,
    cat: CatalogView,
    feature: FeatureView,
)
    requires
        cat.features.contains(feature),
        entry.select.accepts(feature, cat.services, cat.features),
        !entry.interest.contains(feature.id),
    ensures
        entry.changes(watch, cat).contains(
            DeliveryView { watch, event: WatchEventView::Added(feature.id) },
        ),
{
    let added = DeliveryView { watch, event: WatchEventView::Added(feature.id) };
    let now = matched(entry.select, cat);
    lemma_filter_members(cat.features, crate::watch::accepted_in(entry.select, cat));
    assert(now.contains(feature));
    lemma_filter_members(now, unknown_to(entry.interest));
    let came = now.filter(unknown_to(entry.interest));
    assert(came.contains(feature));
    let k = choose|k: int| 0 <= k < came.len() && came[k] == feature;
    let parts = came.map_values(announcement(watch, entry.filter));
    assert(parts[k][0] == added);
    assert(parts[k].contains(added));
    lemma_flatten_keeps_members(parts, k, added);
    let m = choose|m: int| 0 <= m < parts.flatten().len() && parts.flatten()[m] == added;
    let left = entry.departures(watch, cat);
    assert(entry.changes(watch, cat)[left.len() + m] == added);
}

/// Whatever an entry is told when it looks at the catalog goes to its own
/// subscription.
pub proof fn lemma_entry_changes_are_addressed(entry: WatchEntryView, watch: u64, cat: CatalogView)
    ensures
        forall|k: int|
            0 <= k < entry.changes(watch, cat).len() ==> (#[trigger] entry.changes(watch, cat)[k]).watch
                == watch,
{
    let left = entry.departures(watch, cat);
    let came = matched(entry.select, cat).filter(unknown_to(entry.interest)).map_values(
        announcement(watch, entry.filter),
    );
    assert forall|k: int| 0 <= k < entry.changes(watch, cat).len() implies (#[trigger] entry.changes(
        watch,
        cat,
    )[k]).watch == watch by {
        if k >= left.len() {
            let m = k - left.len();
            assert(entry.changes(watch, cat)[k] == came.flatten()[m]);
            lemma_flatten_members(came, m);
            let i = choose|i: int|
                0 <= i < came.len() && (#[trigger] came[i]).contains(came.flatten()[m]);
            let n = choose|n: int| 0 <= n < came[i].len() && came[i][n] == came.flatten()[m];
        }
    }
}

/// Whatever a subscription is told when it looks at the catalog carries its
/// key.
pub proof fn lemma_subscription_changes_are_addressed(subscription: SubscriptionView, cat: CatalogView)
    ensures
        forall|k: int|
            0 <= k < subscription.changes(cat).len() ==> (#[trigger] subscription.changes(
                cat,
            )[k]).watch == subscription.key,
{
    let parts = subscription.entries.map_values(entry_changes(subscription.key, cat));
    assert forall|k: int| 0 <= k < subscription.changes(cat).len() implies (
    #[trigger] subscription.changes(cat)[k]).watch == subscription.key by {
        lemma_flatten_members(parts, k);
        let i = choose|i: int| 0 <= i < parts.len() && (#[trigger] parts[i]).contains(
            parts.flatten()[k],
        );
        lemma_entry_changes_are_addressed(subscription.entries[i], subscription.key, cat);
        let n = choose|n: int| 0 <= n < parts[i].len() && parts[i][n] == parts.flatten()[k];
    }
}

/// Whatever is queued when the subscriptions look at the catalog goes to a
/// live subscription.
pub proof fn lemma_changes_go_to_live_subscriptions(view: DispatcherView, cat: CatalogView)
    ensures
        forall|k: int|
            0 <= k < view.changes(cat).len() ==> view.is_live(
                (#[trigger] view.changes(cat)[k]).watch,
            ),
{
    let parts = view.subscriptions.map_values(subscription_changes(cat));
    assert forall|k: int| 0 <= k < view.changes(cat).len() implies view.is_live(
        (#[trigger] view.changes(cat)[k]).watch,
    ) by {
        lemma_flatten_members(parts, k);
        let i = choose|i: int| 0 <= i < parts.len() && (#[trigger] parts[i]).contains(
            parts.flatten()[k],
        );
        lemma_subscription_changes_are_addressed(view.subscriptions[i], cat);
        let n = choose|n: int| 0 <= n < parts[i].len() && parts[i][n] == parts.flatten()[k];
        assert(view.subscriptions[i].key == view.changes(cat)[k].watch);
    }
}

/// Whatever is queued when a feature reports a value goes to a live
/// subscription.
pub proof fn lemma_reports_go_to_live_subscriptions(
    view: DispatcherView,
    feature: Seq<char>,
    value: Value,
)
    ensures
        forall|k: int|
            0 <= k < view.reports(feature, value).len() ==> view.is_live(
                (#[trigger] view.reports(feature, value)[k]).watch,
            ),
{
    let parts = view.subscriptions.map_values(subscription_reports(feature, value));
    assert forall|k: int| 0 <= k < view.reports(feature, value).len() implies view.is_live(
        (#[trigger] view.reports(feature, value)[k]).watch,
    ) by {
        lemma_flatten_members(parts, k);
        let i = choose|i: int| 0 <= i < parts.len() && (#[trigger] parts[i]).contains(
            parts.flatten()[k],
        );
        let n = choose|n: int| 0 <= n < parts[i].len() && parts[i][n] == parts.flatten()[k];
        assert(view.subscriptions[i].key == view.reports(feature, value)[k].watch);
    }
}

/// After the subscriptions have looked at a catalog, the interest set of
/// each entry is what the entry's selector accepts there.
pub proof fn lemma_interest_is_what_is_accepted(view: DispatcherView, cat: CatalogView, a: int, b: int)
    requires
        0 <= a < view.subscriptions.len(),
        0 <= b < view.subscriptions[a].entries.len(),
    ensures
        view.refreshed(cat).subscriptions[a].key == view.subscriptions[a].key,
        view.refreshed(cat).subscriptions[a].entries[b].select
            == view.subscriptions[a].entries[b].select,
        view.refreshed(cat).subscriptions[a].entries[b].filter
            == view.subscriptions[a].entries[b].filter,
        view.refreshed(cat).subscriptions[a].entries[b].interest == matched(
            view.subscriptions[a].entries[b].select,
            cat,
        ).map_values(crate::registry::feature_id()),
{
}

/// A second look at the same catalog tells nothing and changes nothing.
pub proof fn lemma_a_second_look_tells_nothing(entry: WatchEntryView, watch: u64, cat: CatalogView)
    ensures
        entry.synced(cat).synced(cat) == entry.synced(cat),
        entry.synced(cat).changes(watch, cat) == Seq::<DeliveryView>::empty(),
{
    let seen = entry.synced(cat);
    let now = matched(entry.select, cat);
    let ids = seen.interest;
    lemma_filter_members(ids, crate::watch::not_among(ids));
    let gone = ids.filter(crate::watch::not_among(ids));
    if gone.len() > 0 {
        assert(gone.contains(gone[0]));
    }
    lemma_filter_members(now, unknown_to(ids));
    let came = now.filter(unknown_to(ids));
    if came.len() > 0 {
        assert(came.contains(came[0]));
        let k = choose|k: int| 0 <= k < now.len() && now[k] == came[0];
        assert(ids[k] == came[0].id);
    }
    assert(came.map_values(announcement(watch, seen.filter)) =~= Seq::<Seq<DeliveryView>>::empty());
    assert(seen.changes(watch, cat) =~= Seq::<DeliveryView>::empty());
}

/// Whether a key was given out and its subscription is live no longer.
pub open spec fn is_over(view: DispatcherView, key: u64) -> bool {
    key < view.next_key && !view.is_live(key)
}

/// Whether nothing was queued for `key` from `before` to `after`.
pub open spec fn nothing_new_for(before: DispatcherView, after: DispatcherView, key: u64) -> bool {
    &&& before.pending.len() <= after.pending.len()
    &&& after.pending.take(before.pending.len() as int) == before.pending
    &&& forall|k: int|
        before.pending.len() <= k < after.pending.len() ==> (#[trigger] after.pending[k]).watch
            != key
}

/// A release ends a subscription.
pub proof fn lemma_release_ends_the_subscription(view: DispatcherView, key: u64)
    requires
        view.well_formed(),
        view.is_live(key),
    ensures
        is_over(view.released(key), key),
{
    lemma_filter_members(view.subscriptions, other_than(key));
    let kept = view.subscriptions.filter(other_than(key));
    if view.released(key).is_live(key) {
        let a = choose|a: int| 0 <= a < kept.len() && (#[trigger] kept[a]).key == key;
        assert(kept.contains(kept[a]));
    }
    let a = choose|a: int|
        0 <= a < view.subscriptions.len() && (#[trigger] view.subscriptions[a]).key == key;
}

/// A subscription that is over stays over, and nothing more is queued for
/// it, when the subscriptions look at the catalog.
pub proof fn lemma_over_through_refresh(view: DispatcherView, key: u64, cat: CatalogView)
    requires
        is_over(view, key),
    ensures
        is_over(view.refreshed(cat), key),
        nothing_new_for(view, view.refreshed(cat), key),
{
    lemma_changes_go_to_live_subscriptions(view, cat);
    let after = view.refreshed(cat);
    assert(after.pending.take(view.pending.len() as int) =~= view.pending);
    if after.is_live(key) {
        let a = choose|a: int|
            0 <= a < after.subscriptions.len() && (#[trigger] after.subscriptions[a]).key == key;
        assert(view.subscriptions[a].key == key);
    }
    assert forall|k: int| view.pending.len() <= k < after.pending.len() implies (
    #[trigger] after.pending[k]).watch != key by {
        assert(after.pending[k] == view.changes(cat)[k - view.pending.len()]);
    }
}

/// A subscription that is over stays over, and nothing more is queued for
/// it, when a feature reports a value.
pub proof fn lemma_over_through_report(
    view: DispatcherView,
    key: u64,
    feature: Seq<char>,
    value: Value,
)
    requires
        is_over(view, key),
    ensures
        is_over(view.informed(feature, value), key),
        nothing_new_for(view, view.informed(feature, value), key),
{
    lemma_reports_go_to_live_subscriptions(view, feature, value);
    let after = view.informed(feature, value);
    assert(after.pending.take(view.pending.len() as int) =~= view.pending);
    assert forall|k: int| view.pending.len() <= k < after.pending.len() implies (
    #[trigger] after.pending[k]).watch != key by {
        assert(after.pending[k] == view.reports(feature, value)[k - view.pending.len()]);
    }
}

/// A subscription that is over stays over, and nothing more is queued for
/// it, when another subscription is registered: no key is given out twice.
pub proof fn lemma_over_through_registration(
    view: DispatcherView,
    key: u64,
    entries: Seq<WatchEntryView>,
    cat: CatalogView,
)
    requires
        is_over(view, key),
        view.next_key < u64::MAX,
    ensures
        is_over(view.joined(entries, cat), key),
        nothing_new_for(view, view.joined(entries, cat), key),
{
    let subscription = SubscriptionView { key: view.next_key, entries };
    lemma_subscription_changes_are_addressed(subscription, cat);
    let after = view.joined(entries, cat);
    assert(after.pending.take(view.pending.len() as int) =~= view.pending);
    if after.is_live(key) {
        let a = choose|a: int|
            0 <= a < after.subscriptions.len() && (#[trigger] after.subscriptions[a]).key == key;
        if a < view.subscriptions.len() {
            assert(view.subscriptions[a].key == key);
        }
    }
    assert forall|k: int| view.pending.len() <= k < after.pending.len() implies (
    #[trigger] after.pending[k]).watch != key by {
        assert(after.pending[k] == subscription.changes(cat)[k - view.pending.len()]);
    }
}

/// A subscription that is over stays over, and nothing is queued, when a
/// subscription is released: releasing twice changes nothing.
pub proof fn lemma_over_through_release(view: DispatcherView, key: u64, other: u64)
    requires
        is_over(view, key),
    ensures
        is_over(view.released(other), key),
        nothing_new_for(view, view.released(other), key),
        view.released(key) == view,
{
    lemma_filter_members(view.subscriptions, other_than(other));
    let kept = view.subscriptions.filter(other_than(other));
    if view.released(other).is_live(key) {
        let a = choose|a: int| 0 <= a < kept.len() && (#[trigger] kept[a]).key == key;
        assert(kept.contains(kept[a]));
        let m = choose|m: int| 0 <= m < view.subscriptions.len() && view.subscriptions[m] == kept[a];
    }
    assert(view.pending.take(view.pending.len() as int) =~= view.pending);
    lemma_filter_all(view.subscriptions, other_than(key));
}

/// Whether every interest set is what its entry's selector accepts in `cat`.
pub open spec fn in_step(view: DispatcherView, cat: CatalogView) -> bool {
    forall|a: int, b: int|
        0 <= a < view.subscriptions.len() && 0 <= b < view.subscriptions[a].entries.len() ==> (
        #[trigger] view.subscriptions[a].entries[b]).interest == matched(
            view.subscriptions[a].entries[b].select,
            cat,
        ).map_values(crate::registry::feature_id())
}

/// What a selector accepts does not depend on the values that features have
/// reported.
pub proof fn lemma_a_report_leaves_the_matches(
    select: FeatureSelectorView,
    cat: CatalogView,
    id: Seq<char>,
    value: Value,
)
    ensures
        matched(select, cat.with_value(id, value)).map_values(crate::registry::feature_id())
            == matched(select, cat).map_values(crate::registry::feature_id()),
{
    let after = cat.with_value(id, value);
    assert forall|k: int| 0 <= k < cat.features.len() implies select.accepts(
        #[trigger] after.features[k],
        after.services,
        after.features,
    ) == select.accepts(cat.features[k], cat.services, cat.features) by {
        let f = cat.features[k];
        let g = after.features[k];
        assert forall|i: int| 0 <= i < select.services.len() implies (
        #[trigger] select.services[i]).met_by_service(g.service, after.services, after.features)
            == select.services[i].met_by_service(f.service, cat.services, cat.features) by {
            let inner = select.services[i];
            assert forall|s: int| 0 <= s < cat.services.len() implies inner.accepts(
                #[trigger] cat.services[s],
                after.features,
            ) == inner.accepts(cat.services[s], cat.features) by {
                let owner = cat.services[s].id;
                assert forall|n: int| 0 <= n < inner.features.len() implies (
                #[trigger] inner.features[n]).met_by_feature_of(owner, after.features)
                    == inner.features[n].met_by_feature_of(owner, cat.features) by {
                    let simple = inner.features[n];
                    if simple.met_by_feature_of(owner, after.features) {
                        let m = choose|m: int|
                            0 <= m < after.features.len() && (#[trigger] after.features[m]).service
                                == owner && simple.accepts(after.features[m]);
                        assert(cat.features[m].service == owner && simple.accepts(cat.features[m]));
                    }
                    if simple.met_by_feature_of(owner, cat.features) {
                        let m = choose|m: int|
                            0 <= m < cat.features.len() && (#[trigger] cat.features[m]).service
                                == owner && simple.accepts(cat.features[m]);
                        assert(after.features[m].service == owner && simple.accepts(
                            after.features[m],
                        ));
                    }
                }
            }
            if inner.met_by_service(g.service, after.services, after.features) {
                let s = choose|s: int|
                    0 <= s < after.services.len() && (#[trigger] after.services[s]).id == g.service
                        && inner.accepts(after.services[s], after.features);
                assert(inner.accepts(cat.services[s], cat.features));
            }
            if inner.met_by_service(f.service, cat.services, cat.features) {
                let s = choose|s: int|
                    0 <= s < cat.services.len() && (#[trigger] cat.services[s]).id == f.service
                        && inner.accepts(cat.services[s], cat.features);
                assert(inner.accepts(after.services[s], after.features));
            }
        }
    }
    lemma_filter_alike(
        after.features,
        cat.features,
        crate::watch::accepted_in(select, after),
        crate::watch::accepted_in(select, cat),
        crate::registry::feature_id(),
    );
}

/// After the subscriptions have looked at a catalog, they are in step with
/// it.
pub proof fn lemma_in_step_after_a_look(view: DispatcherView, cat: CatalogView)
    ensures
        in_step(view.refreshed(cat), cat),
{
}

/// A registration leaves the subscriptions in step with the catalog.
pub proof fn lemma_in_step_after_registration(
    view: DispatcherView,
    entries: Seq<WatchEntryView>,
    cat: CatalogView,
)
    requires
        in_step(view, cat),
    ensures
        in_step(view.joined(entries, cat), cat),
{
    let after = view.joined(entries, cat);
    assert forall|a: int, b: int|
        0 <= a < after.subscriptions.len() && 0 <= b < after.subscriptions[a].entries.len() implies (
    #[trigger] after.subscriptions[a].entries[b]).interest == matched(
        after.subscriptions[a].entries[b].select,
        cat,
    ).map_values(crate::registry::feature_id()) by {
        if a < view.subscriptions.len() {
            assert(after.subscriptions[a] == view.subscriptions[a]);
            assert(view.subscriptions[a].entries[b].interest == matched(
                view.subscriptions[a].entries[b].select,
                cat,
            ).map_values(crate::registry::feature_id()));
        }
    }
}

/// A release leaves the subscriptions in step with the catalog.
pub proof fn lemma_in_step_after_release(view: DispatcherView, key: u64, cat: CatalogView)
    requires
        in_step(view, cat),
    ensures
        in_step(view.released(key), cat),
{
    let after = view.released(key);
    lemma_filter_members(view.subscriptions, other_than(key));
    assert forall|a: int, b: int|
        0 <= a < after.subscriptions.len() && 0 <= b < after.subscriptions[a].entries.len() implies (
    #[trigger] after.subscriptions[a].entries[b]).interest == matched(
        after.subscriptions[a].entries[b].select,
        cat,
    ).map_values(crate::registry::feature_id()) by {
        assert(after.subscriptions.contains(after.subscriptions[a]));
        let m = choose|m: int|
            0 <= m < view.subscriptions.len() && view.subscriptions[m] == after.subscriptions[a];
        assert(view.subscriptions[m].entries[b].interest == matched(
            view.subscriptions[m].entries[b].select,
            cat,
        ).map_values(crate::registry::feature_id()));
    }
}

/// The report of a value leaves the subscriptions in step with the catalog.
pub proof fn lemma_in_step_after_a_report(
    view: DispatcherView,
    cat: CatalogView,
    id: Seq<char>,
    value: Value,
)
    requires
        in_step(view, cat),
    ensures
        in_step(view.informed(id, value), cat.with_value(id, value)),
{
    let after = view.informed(id, value);
    assert forall|a: int, b: int|
        0 <= a < after.subscriptions.len() && 0 <= b < after.subscriptions[a].entries.len() implies (
    #[trigger] after.subscriptions[a].entries[b]).interest == matched(
        after.subscriptions[a].entries[b].select,
        cat.with_value(id, value),
    ).map_values(crate::registry::feature_id()) by {
        lemma_a_report_leaves_the_matches(view.subscriptions[a].entries[b].select, cat, id, value);
        assert(view.subscriptions[a].entries[b].interest == matched(
            view.subscriptions[a].entries[b].select,
            cat,
        ).map_values(crate::registry::feature_id()));
    }
}

/// The delivery that tells the subscription `watch` that a feature is gone.
pub open spec fn leaving(watch: u64) -> spec_fn(FeatureView) -> DeliveryView {
    |f: FeatureView| DeliveryView { watch, event: WatchEventView::Removed(f.id) }
}

/// Whether a selector accepts a feature that another service owns is the
/// same with and without the service `service` and its features.
pub proof fn lemma_other_services_are_untouched(
    select: FeatureSelectorView,
    cat: CatalogView,
    service: Seq<char>,
    feature: FeatureView,
)
    requires
        feature.service != service,
    ensures
        select.accepts(
            feature,
            cat.without_service(service).services,
            cat.without_service(service).features,
        ) == select.accepts(feature, cat.services, cat.features),
{
    let after = cat.without_service(service);
    lemma_filter_members(cat.services, crate::registry::not_named(service));
    lemma_filter_members(cat.features, crate::registry::not_owned_by(service));
    let owner = feature.service;
    assert forall|i: int| 0 <= i < select.services.len() implies (#[trigger] select.services[i]).met_by_service(
        owner,
        after.services,
        after.features,
    ) == select.services[i].met_by_service(owner, cat.services, cat.features) by {
        let inner = select.services[i];
        assert forall|n: int| 0 <= n < inner.features.len() implies (#[trigger] inner.features[n]).met_by_feature_of(
            owner,
            after.features,
        ) == inner.features[n].met_by_feature_of(owner, cat.features) by {
            let simple = inner.features[n];
            if simple.met_by_feature_of(owner, after.features) {
                let m = choose|m: int|
                    0 <= m < after.features.len() && (#[trigger] after.features[m]).service == owner
                        && simple.accepts(after.features[m]);
                assert(after.features.contains(after.features[m]));
                let k = choose|k: int|
                    0 <= k < cat.features.len() && cat.features[k] == after.features[m];
                assert(cat.features[k].service == owner && simple.accepts(cat.features[k]));
            }
            if simple.met_by_feature_of(owner, cat.features) {
                let k = choose|k: int|
                    0 <= k < cat.features.len() && (#[trigger] cat.features[k]).service == owner
                        && simple.accepts(cat.features[k]);
                assert(cat.features.contains(cat.features[k]));
                assert(after.features.contains(cat.features[k]));
                let m = choose|m: int|
                    0 <= m < after.features.len() && after.features[m] == cat.features[k];
                assert(after.features[m].service == owner && simple.accepts(after.features[m]));
            }
        }
        if inner.met_by_service(owner, after.services, after.features) {
            let j = choose|j: int|
                0 <= j < after.services.len() && (#[trigger] after.services[j]).id == owner
                    && inner.accepts(after.services[j], after.features);
            assert(after.services.contains(after.services[j]));
            let k = choose|k: int|
                0 <= k < cat.services.len() && cat.services[k] == after.services[j];
            assert(cat.services[k].id == owner && inner.accepts(cat.services[k], cat.features));
        }
        if inner.met_by_service(owner, cat.services, cat.features) {
            let k = choose|k: int|
                0 <= k < cat.services.len() && (#[trigger] cat.services[k]).id == owner
                    && inner.accepts(cat.services[k], cat.features);
            assert(cat.services.contains(cat.services[k]));
            assert(after.services.contains(cat.services[k]));
            let j = choose|j: int|
                0 <= j < after.services.len() && after.services[j] == cat.services[k];
            assert(after.services[j].id == owner && inner.accepts(
                after.services[j],
                after.features,
            ));
        }
    }
}

/// Without a service and its features, a selector accepts what it accepted
/// before of the features of the other services, and nothing else.
pub proof fn lemma_matches_without_a_service(
    select: FeatureSelectorView,
    cat: CatalogView,
    service: Seq<char>,
)
    ensures
        matched(select, cat.without_service(service)) == matched(select, cat).filter(
            crate::registry::not_owned_by(service),
        ),
{
    let after = cat.without_service(service);
    let others = crate::registry::not_owned_by(service);
    assert forall|k: int|
        0 <= k < cat.features.len() && others(#[trigger] cat.features[k]) implies crate::watch::accepted_in(
        select,
        after,
    )(cat.features[k]) == crate::watch::accepted_in(select, cat)(cat.features[k]) by {
        lemma_other_services_are_untouched(select, cat, service, cat.features[k]);
    }
    lemma_filter_swap(
        cat.features,
        others,
        crate::watch::accepted_in(select, after),
        crate::watch::accepted_in(select, cat),
    );
}

/// When a service is unregistered, an entry that is in step with the
/// catalog is told `Removed` for each feature of the service that is in its
/// interest set, in the order of the interest set, and nothing else.
pub proof fn lemma_unregistration_is_told(
    entry: WatchEntryView,
    watch: u64,
    cat: CatalogView,
    service: Seq<char>,
)
    requires
        cat.well_formed(),
        entry.interest == matched(entry.select, cat).map_values(crate::registry::feature_id()),
    ensures
        entry.changes(watch, cat.without_service(service)) == matched(entry.select, cat).filter(
            crate::registry::owned_by(service),
        ).map_values(leaving(watch)),
{
    let after = cat.without_service(service);
    let id = crate::registry::feature_id();
    let owned = crate::registry::owned_by(service);
    let others = crate::registry::not_owned_by(service);
    let was = matched(entry.select, cat);
    let stays = was.filter(others);
    let now = entry.synced(after).interest;
    lemma_matches_without_a_service(entry.select, cat, service);
    assert(now == stays.map_values(id));
    lemma_filter_keeps_keys_distinct(
        cat.features,
        crate::watch::accepted_in(entry.select, cat),
        id,
    );
    lemma_filter_members(was, others);
    // What has left: the features of the service.
    assert forall|k: int| 0 <= k < was.len() implies owned(#[trigger] was[k])
        == crate::watch::not_among(now)(id(was[k])) by {
        if others(was[k]) {
            assert(was.contains(was[k]));
            assert(stays.contains(was[k]));
            let j = choose|j: int| 0 <= j < stays.len() && stays[j] == was[k];
            assert(now[j] == was[k].id);
        } else if now.contains(was[k].id) {
            let j = choose|j: int| 0 <= j < now.len() && now[j] == was[k].id;
            assert(stays.contains(stays[j]));
            let m = choose|m: int| 0 <= m < was.len() && was[m] == stays[j];
            assert(was.map_values(id)[m] == was.map_values(id)[k]);
        }
    }
    lemma_filter_of_keys(was, id, crate::watch::not_among(now), owned);
    let gone = was.filter(owned);
    assert(entry.departures(watch, after) =~= gone.map_values(leaving(watch)));
    // What has come: nothing.
    let came = matched(entry.select, after).filter(unknown_to(entry.interest));
    lemma_filter_members(matched(entry.select, after), unknown_to(entry.interest));
    if came.len() > 0 {
        assert(came.contains(came[0]));
        assert(stays.contains(came[0]));
        let m = choose|m: int| 0 <= m < was.len() && was[m] == came[0];
        assert(entry.interest[m] == came[0].id);
    }
    assert(came.map_values(announcement(watch, entry.filter)) =~= Seq::<
        Seq<DeliveryView>,
    >::empty());
    assert(entry.changes(watch, after) =~= gone.map_values(leaving(watch)));
}

/// When a service is unregistered, an entry that is in step with the
/// catalog is told of each feature of the service that is in its interest
/// set exactly once; an entry whose interest set holds no feature of the
/// service is told nothing.
pub proof fn lemma_unregistration_is_told_once(
    entry: WatchEntryView,
    watch: u64,
    cat: CatalogView,
    service: Seq<char>,
)
    requires
        cat.well_formed(),
        entry.interest == matched(entry.select, cat).map_values(crate::registry::feature_id()),
    ensures
        entry.changes(watch, cat.without_service(service)).no_duplicates(),
        forall|k: int|
            0 <= k < cat.features.len() && (#[trigger] cat.features[k]).service == service
                && entry.interest.contains(cat.features[k].id) ==> entry.changes(
                watch,
                cat.without_service(service),
            ).contains(leaving(watch)(cat.features[k])),
        (forall|k: int|
            0 <= k < cat.features.len() && (#[trigger] cat.features[k]).service == service
                ==> !entry.interest.contains(cat.features[k].id)) ==> entry.changes(
            watch,
            cat.without_service(service),
        ) == Seq::<DeliveryView>::empty(),
{
    let id = crate::registry::feature_id();
    let owned = crate::registry::owned_by(service);
    let was = matched(entry.select, cat);
    let gone = was.filter(owned);
    let told = entry.changes(watch, cat.without_service(service));
    lemma_unregistration_is_told(entry, watch, cat, service);
    lemma_filter_keeps_keys_distinct(
        cat.features,
        crate::watch::accepted_in(entry.select, cat),
        id,
    );
    lemma_filter_keeps_keys_distinct(was, owned, id);
    lemma_filter_members(was, owned);
    lemma_filter_members(cat.features, crate::watch::accepted_in(entry.select, cat));
    assert forall|a: int, b: int| 0 <= a < told.len() && 0 <= b < told.len() && a != b implies told[a]
        != told[b] by {
        assert(gone.map_values(id)[a] == gone[a].id);
        assert(gone.map_values(id)[b] == gone[b].id);
    }
    let all_ids = cat.features.map_values(id);
    assert forall|k: int|
        0 <= k < cat.features.len() && (#[trigger] cat.features[k]).service == service
            && entry.interest.contains(cat.features[k].id) implies told.contains(
        leaving(watch)(cat.features[k]),
    ) by {
        let f = cat.features[k];
        let m = choose|m: int| 0 <= m < entry.interest.len() && entry.interest[m] == f.id;
        assert(was.contains(was[m]));
        let j = choose|j: int| 0 <= j < cat.features.len() && cat.features[j] == was[m];
        assert(all_ids[j] == all_ids[k]);
        assert(was[m] == f);
        assert(gone.contains(f));
        let g = choose|g: int| 0 <= g < gone.len() && gone[g] == f;
        assert(told[g] == leaving(watch)(f));
    }
    if forall|k: int|
        0 <= k < cat.features.len() && (#[trigger] cat.features[k]).service == service
            ==> !entry.interest.contains(cat.features[k].id) {
        if gone.len() > 0 {
            assert(gone.contains(gone[0]));
            assert(was.contains(gone[0]));
            let m = choose|m: int| 0 <= m < was.len() && was[m] == gone[0];
            assert(entry.interest[m] == gone[0].id);
            assert(cat.features.contains(gone[0]));
            let k = choose|k: int| 0 <= k < cat.features.len() && cat.features[k] == gone[0];
            assert(cat.features[k].service == service);
            assert(entry.interest.contains(cat.features[k].id));
        }
        assert(told =~= Seq::<DeliveryView>::empty());
    }
}

/// What an entry of the subscription `watch` is told when the service
/// `service` is unregistered from `cat`: `Removed` for each feature of the
/// service that the entry's selector accepts in `cat`.
pub open spec fn entry_farewells(watch: u64, cat: CatalogView, service: Seq<char>) -> spec_fn(
    WatchEntryView,
) -> Seq<DeliveryView> {
    |e: WatchEntryView|
        matched(e.select, cat).filter(crate::registry::owned_by(service)).map_values(
            leaving(watch),
        )
}

/// What a subscription is told when the service `service` is unregistered
/// from `cat`: the farewells of its entries, entry by entry.
pub open spec fn subscription_farewells(cat: CatalogView, service: Seq<char>) -> spec_fn(
    SubscriptionView,
) -> Seq<DeliveryView> {
    |s: SubscriptionView| s.entries.map_values(entry_farewells(s.key, cat, service)).flatten()
}

/// When a service is unregistered, the subscriptions that are in step with
/// the catalog are told, subscription by subscription and entry by entry,
/// `Removed` for each feature of the service that the entry has in its
/// interest set: once for each entry that holds the feature, and nothing
/// else.
pub proof fn lemma_unregistration_reaches_every_watch(
    view: DispatcherView,
    cat: CatalogView,
    service: Seq<char>,
)
    requires
        cat.well_formed(),
        in_step(view, cat),
    ensures
        view.changes(cat.without_service(service)) == view.subscriptions.map_values(
            subscription_farewells(cat, service),
        ).flatten(),
{
    let after = cat.without_service(service);
    assert forall|a: int| 0 <= a < view.subscriptions.len() implies subscription_changes(after)(
        #[trigger] view.subscriptions[a],
    ) == subscription_farewells(cat, service)(view.subscriptions[a]) by {
        let subscription = view.subscriptions[a];
        assert forall|b: int| 0 <= b < subscription.entries.len() implies entry_changes(
            subscription.key,
            after,
        )(#[trigger] subscription.entries[b]) == entry_farewells(subscription.key, cat, service)(
            subscription.entries[b],
        ) by {
            assert(view.subscriptions[a].entries[b].interest == matched(
                view.subscriptions[a].entries[b].select,
                cat,
            ).map_values(crate::registry::feature_id()));
            lemma_unregistration_is_told(subscription.entries[b], subscription.key, cat, service);
        }
        assert(subscription.entries.map_values(entry_changes(subscription.key, after))
            =~= subscription.entries.map_values(entry_farewells(subscription.key, cat, service)));
    }
    assert(view.subscriptions.map_values(subscription_changes(after))
        =~= view.subscriptions.map_values(subscription_farewells(cat, service)));
}

} // verus!
