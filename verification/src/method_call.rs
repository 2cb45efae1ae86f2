//! Method calls: which features a call goes to, and with what.
//!
//! A call names its targets by selectors, each with a payload. The catalog
//! resolves the selectors; every feature that at least one selector accepts
//! gets one call, with the payload of the first selector that accepts it.
//! The calls are then made one by one, and each feature has a result of its
//! own: the failure of one changes nothing for the others.

use vstd::prelude::*;
use crate::ids::{AdapterId, FeatureId, Named};
use crate::registry::{lemma_positions_are_in_range, CatalogView, Registry};
use crate::selection::{pick_in_order, rows};
use crate::selector::{FeatureSelector, FeatureSelectorView};
use crate::seqs::{as_ints, lemma_map_push};
use crate::value::Value;
use crate::exactly::ConfigurationError;
use crate::watch::{all_targets_valid, validate_targets, TargetMap, Targetted};

verus! {

/// What is asked of a feature.
#[derive(Clone, Copy, Debug, PartialEq, Eq, Structural)]
pub enum MethodCall {
    /// Read the feature's value.
    Fetch,
    /// Send a value to the feature.
    Send,
}

/// Who asks. The catalog hands this on to the adapters and makes nothing of
/// it.
#[derive(Clone, Copy, Debug, PartialEq, Eq, Structural)]
pub enum User {
    /// Nobody in particular.
    Anonymous,
    /// The user with the given number.
    Id(i32),
}

/// Why an adapter did not do what was asked. The catalog hands this on and
/// makes nothing of it.
#[derive(Debug)]
pub struct AdapterError {
    pub message: String,
}

/// One call to be made.
#[derive(Debug)]
pub struct Call {
    pub feature: FeatureId,
    /// The adapter of the service that owns the feature, if that service is
    /// registered.
    pub adapter: Option<AdapterId>,
    pub method: MethodCall,
    pub payload: Option<Value>,
    pub user: User,
}

/// The results of a method call, feature by feature.
pub type PerFeatureResult<T> = Vec<(FeatureId, Result<T, AdapterError>)>;

/// The selector of a target.
pub open spec fn target_selector() -> spec_fn(
    Targetted<FeatureSelector, Option<Value>>,
) -> FeatureSelectorView {
    |t: Targetted<FeatureSelector, Option<Value>>| t.select@
}

/// The first row of `table` that accepts the candidate `j`; the number of
/// rows where none does.
pub open spec fn first_row(table: Seq<Seq<bool>>, j: int) -> int
    decreases table.len(),
{
    if table.len() == 0 {
        0
    } else if table[0][j] {
        0
    } else {
        1 + first_row(table.skip(1), j)
    }
}

/// Whether `call` is the call that `targets` ask for the feature at the
/// position `j` of the catalog: it goes to that feature, through the adapter
/// of the service that owns it, with the payload of the first target whose
/// selector accepts the feature.
pub open spec fn is_call_for(
    call: Call,
    cat: CatalogView,
    targets: Seq<Targetted<FeatureSelector, Option<Value>>>,
    method: MethodCall,
    user: User,
    j: int,
) -> bool {
    let first = first_row(cat.feature_hits(targets.map_values(target_selector())), j);
    &&& call.feature@ == cat.features[j].id
    &&& call.method == method
    &&& call.user == user
    &&& 0 <= first < targets.len()
    &&& call.payload == targets[first].payload
    &&& match call.adapter {
        Some(adapter) => exists|s: int|
            0 <= s < cat.services.len() && (#[trigger] cat.services[s]).id == cat.features[j].service
                && cat.services[s].adapter == adapter@,
        None => !cat.has_service(cat.features[j].service),
    }
}

/// Whether `calls` are the calls that `targets` ask for: one for each
/// feature that at least one target's selector accepts, in first-match
/// order, each as [`is_call_for`] says.
pub open spec fn are_calls_for(
    calls: Seq<Call>,
    cat: CatalogView,
    targets: Seq<Targetted<FeatureSelector, Option<Value>>>,
    method: MethodCall,
    user: User,
) -> bool {
    let at = cat.selected_feature_positions(targets.map_values(target_selector()));
    &&& calls.len() == at.len()
    &&& forall|k: int|
        0 <= k < calls.len() ==> is_call_for(#[trigger] calls[k], cat, targets, method, user, at[k])
}

fn first_hit(table: &Vec<Vec<bool>>, j: usize) -> (r: usize)
    requires
        forall|i: int| 0 <= i < table@.len() ==> j < (#[trigger] table@[i])@.len(),
    ensures
        r == first_row(rows(table@), j as int),
        r <= table@.len(),
        r < table@.len() ==> rows(table@)[r as int][j as int],
{
    let mut i: usize = 0;
    assert(rows(table@).skip(0) =~= rows(table@));
    while i < table.len()
        invariant
            i <= table@.len(),
            forall|i: int| 0 <= i < table@.len() ==> j < (#[trigger] table@[i])@.len(),
            first_row(rows(table@), j as int) == i + first_row(rows(table@).skip(i as int), j as int),
        decreases table@.len() - i,
    {
        assert(rows(table@).skip(i as int)[0] == table@[i as int]@);
        if table[i][j] {
            return i;
        }
        assert(rows(table@).skip(i as int).skip(1) =~= rows(table@).skip(i + 1));
        i += 1;
    }
    i
}

impl Registry {
    /// The calls that `targets` ask for: one for each feature that at least
    /// one target's selector accepts, in first-match order. Refuses where a
    /// selector of `targets` constrains nothing or holds one that does.
    pub fn plan_calls(
        &self,
        method: MethodCall,
        targets: &TargetMap<FeatureSelector, Option<Value>>,
        user: User,
    ) -> (r: Result<Vec<Call>, ConfigurationError>)
        ensures
            self@.well_formed(),
            r is Ok <==> all_targets_valid(targets@),
            r matches Ok(calls) ==> are_calls_for(calls@, self@, targets@, method, user),
            r matches Err(e) ==> e == ConfigurationError::EmptySelector,
    {
        proof {
            use_type_invariant(self);
        }
        match validate_targets(targets) {
            Ok(()) => Ok(self.resolve_calls(method, targets, user)),
            Err(e) => Err(e),
        }
    }

    fn resolve_calls(
        &self,
        method: MethodCall,
        targets: &TargetMap<FeatureSelector, Option<Value>>,
        user: User,
    ) -> (calls: Vec<Call>)
        ensures
            self@.well_formed(),
            are_calls_for(calls@, self@, targets@, method, user),
    {
        let ghost sels = targets@.map_values(target_selector());
        let mut selectors: Vec<FeatureSelector> = Vec::new();
        let mut i: usize = 0;
        assert(crate::selector::feature_selector_views(selectors@) =~= sels.take(0));
        while i < targets.len()
            invariant
                i <= targets@.len(),
                sels == targets@.map_values(target_selector()),
                crate::selector::feature_selector_views(selectors@) == sels.take(i as int),
            decreases targets@.len() - i,
        {
            let ghost before = selectors@;
            let selector = targets[i].select.clone();
            selectors.push(selector);
            proof {
                lemma_map_push(before, selector, |s: FeatureSelector| s@);
                assert(sels.take(i + 1) =~= sels.take(i as int).push(sels[i as int]));
            }
            i += 1;
        }
        assert(sels.take(i as int) =~= sels);
        let table = self.feature_table(&selectors);
        let chosen = pick_in_order(&table);
        let ghost at = self@.selected_feature_positions(sels);
        proof {
            lemma_positions_are_in_range(self@.feature_hits(sels), self@.features.len());
        }
        let features = self.features();
        let mut calls: Vec<Call> = Vec::new();
        let mut k: usize = 0;
        while k < chosen.len()
            invariant
                k <= chosen@.len(),
                calls@.len() == k,
                as_ints(chosen@) == at,
                at == self@.selected_feature_positions(sels),
                sels == targets@.map_values(target_selector()),
                rows(table@) == self@.feature_hits(sels),
                crate::services::feature_views(features@) == self@.features,
                forall|m: int| 0 <= m < at.len() ==> 0 <= #[trigger] at[m] < self@.features.len(),
                forall|m: int|
                    0 <= m < k ==> is_call_for(
                        #[trigger] calls@[m],
                        self@,
                        targets@,
                        method,
                        user,
                        at[m],
                    ),
            decreases chosen@.len() - k,
        {
            let j = chosen[k];
            assert(at[k as int] == j as int);
            assert(self@.features[j as int] == features@[j as int]@);
            proof {
                assert forall|i: int| 0 <= i < table@.len() implies j < (#[trigger] table@[i])@.len() by {
                    assert(rows(table@)[i] == table@[i]@);
                }
                crate::catalog_laws::lemma_selected_feature_positions(self@, sels);
                assert(at.contains(at[k as int]));
                crate::registry::lemma_picked_feature_is_chosen(self@, sels, j as int);
                lemma_first_row_is_a_hit(rows(table@), j as int);
            }
            let first = first_hit(&table, j);
            let feature = &features[j];
            let adapter = match self.find_service(&feature.service) {
                Some(s) => {
                    let services = self.services();
                    assert(self@.services[s as int] == services@[s as int]@);
                    Some(services[s].adapter.duplicate())
                },
                None => None,
            };
            let call = Call {
                feature: feature.id.duplicate(),
                adapter,
                method,
                payload: targets[first].payload,
                user,
            };
            let ghost before = calls@;
            calls.push(call);
            assert(forall|m: int| 0 <= m < k ==> calls@[m] == before[m]);
            k += 1;
        }
        calls
    }
}

/// Where some row accepts a candidate, the first row that accepts it is a
/// row of the table.
pub proof fn lemma_first_row_is_a_hit(table: Seq<Seq<bool>>, j: int)
    requires
        crate::selection::picked(table, j),
    ensures
        0 <= first_row(table, j) < table.len(),
        table[first_row(table, j)][j],
    decreases table.len(),
{
    let i = choose|i: int| 0 <= i < table.len() && 0 <= j < (#[trigger] table[i]).len() && table[i][j];
    if !table[0][j] {
        let rest = table.skip(1);
        assert(rest[i - 1] == table[i]);
        lemma_first_row_is_a_hit(rest, j);
        assert(rest[first_row(rest, j)] == table[first_row(rest, j) + 1]);
    }
}

/// Pairs each call with its outcome. The outcomes are taken in the order of
/// the calls; `None` if there are not as many outcomes as calls.
pub fn pair_results(calls: &Vec<Call>, outcomes: Vec<Result<Option<Value>, AdapterError>>) -> (r:
    Option<PerFeatureResult<Option<Value>>>)
    ensures
        r is Some <==> outcomes@.len() == calls@.len(),
        r matches Some(results) ==> results@.len() == calls@.len() && forall|k: int|
            0 <= k < results@.len() ==> (#[trigger] results@[k]).0@ == calls@[k].feature@
                && results@[k].1 == outcomes@[k],
{
    if outcomes.len() != calls.len() {
        return None;
    }
    let ghost all = outcomes@;
    let mut results: Vec<(FeatureId, Result<Option<Value>, AdapterError>)> = Vec::new();
    for outcome in given: outcomes
        invariant
            all.len() == calls@.len(),
            given.seq() == all,
            results@.len() == given.index(),
            forall|m: int|
                0 <= m < results@.len() ==> (#[trigger] results@[m]).0@ == calls@[m].feature@
                    && results@[m].1 == all[m],
    {
        let k = results.len();
        results.push((calls[k].feature.duplicate(), outcome));
    }
    Some(results)
}

} // verus!
