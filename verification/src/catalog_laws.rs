//! What holds of every catalog and every list of selectors.

use vstd::prelude::*;
use crate::registry::{
    feature_id, lemma_picked_feature_is_chosen, lemma_picked_service_is_chosen,
    lemma_positions_are_in_range, service_id, CatalogView,
};
use crate::selection::{lemma_picks_each_once, lemma_picks_what_some_row_accepts, picked};
use crate::selector::{FeatureSelectorView, ServiceSelectorView};
use crate::seqs::lemma_same_members_same_length;
use crate::services::{FeatureView, ServiceRecordView, ServiceView};

verus! {

/// The positions that a list of service selectors selects are the positions
/// of the services that at least one of the selectors accepts, each once.
pub proof fn lemma_selected_service_positions(cat: CatalogView, selectors: Seq<ServiceSelectorView>)
    ensures
        cat.selected_service_positions(selectors).no_duplicates(),
        forall|j: int| #[trigger]
            cat.selected_service_positions(selectors).contains(j) <==> 0 <= j
                < cat.services.len() && cat.service_chosen(selectors, j),
{
    let hits = cat.service_hits(selectors);
    lemma_picks_each_once(hits);
    lemma_picks_what_some_row_accepts(hits);
    assert forall|j: int| #[trigger]
        cat.selected_service_positions(selectors).contains(j) <==> 0 <= j < cat.services.len()
            && cat.service_chosen(selectors, j) by {
        if 0 <= j < cat.services.len() {
            lemma_picked_service_is_chosen(cat, selectors, j);
        } else if picked(hits, j) {
            let i = choose|i: int|
                0 <= i < hits.len() && 0 <= j < (#[trigger] hits[i]).len() && hits[i][j];
        }
    }
}

/// The positions that a list of feature selectors selects are the positions
/// of the features that at least one of the selectors accepts, each once.
pub proof fn lemma_selected_feature_positions(cat: CatalogView, selectors: Seq<FeatureSelectorView>)
    ensures
        cat.selected_feature_positions(selectors).no_duplicates(),
        forall|j: int| #[trigger]
            cat.selected_feature_positions(selectors).contains(j) <==> 0 <= j
                < cat.features.len() && cat.feature_chosen(selectors, j),
{
    let hits = cat.feature_hits(selectors);
    lemma_picks_each_once(hits);
    lemma_picks_what_some_row_accepts(hits);
    assert forall|j: int| #[trigger]
        cat.selected_feature_positions(selectors).contains(j) <==> 0 <= j < cat.features.len()
            && cat.feature_chosen(selectors, j) by {
        if 0 <= j < cat.features.len() {
            lemma_picked_feature_is_chosen(cat, selectors, j);
        } else if picked(hits, j) {
            let i = choose|i: int|
                0 <= i < hits.len() && 0 <= j < (#[trigger] hits[i]).len() && hits[i][j];
        }
    }
}

/// Whether the catalog holds a service with the id `id` that one of
/// `selectors` accepts.
pub open spec fn accepted_service(
    cat: CatalogView,
    selectors: Seq<ServiceSelectorView>,
    id: Seq<char>,
) -> bool {
    exists|j: int|
        0 <= j < cat.services.len() && (#[trigger] cat.services[j]).id == id && cat.service_chosen(
            selectors,
            j,
        )
}

/// Whether the catalog holds a feature with the id `id` that one of
/// `selectors` accepts.
pub open spec fn accepted_feature(
    cat: CatalogView,
    selectors: Seq<FeatureSelectorView>,
    id: Seq<char>,
) -> bool {
    exists|j: int|
        0 <= j < cat.features.len() && (#[trigger] cat.features[j]).id == id && cat.feature_chosen(
            selectors,
            j,
        )
}

/// The ids of a sequence of services.
pub open spec fn ids_of_services(services: Seq<ServiceView>) -> Seq<Seq<char>> {
    services.map_values(|s: ServiceView| s.id)
}

/// The ids of a sequence of features.
pub open spec fn ids_of_features(features: Seq<FeatureView>) -> Seq<Seq<char>> {
    features.map_values(feature_id())
}

/// The services that a list of selectors selects are exactly those whose id
/// belongs to a service that at least one of the selectors accepts, and no
/// id comes twice.
pub proof fn lemma_selects_each_accepted_service_once(
    cat: CatalogView,
    selectors: Seq<ServiceSelectorView>,
)
    requires
        cat.well_formed(),
    ensures
        ids_of_services(cat.selected_services(selectors)).no_duplicates(),
        forall|id: Seq<char>| #[trigger]
            ids_of_services(cat.selected_services(selectors)).contains(id) <==> accepted_service(
                cat,
                selectors,
                id,
            ),
{
    let at = cat.selected_service_positions(selectors);
    let ids = ids_of_services(cat.selected_services(selectors));
    let all = cat.services.map_values(service_id());
    lemma_selected_service_positions(cat, selectors);
    lemma_positions_are_in_range(cat.service_hits(selectors), cat.services.len());
    assert forall|a: int, b: int| 0 <= a < ids.len() && 0 <= b < ids.len() && a != b implies ids[a]
        != ids[b] by {
        assert(ids[a] == all[at[a]]);
        assert(ids[b] == all[at[b]]);
    }
    assert forall|id: Seq<char>| #[trigger] ids.contains(id) <==> accepted_service(
        cat,
        selectors,
        id,
    ) by {
        if ids.contains(id) {
            let m = choose|m: int| 0 <= m < ids.len() && ids[m] == id;
            assert(at.contains(at[m]));
            assert(cat.services[at[m]].id == id);
        }
        if accepted_service(cat, selectors, id) {
            let j = choose|j: int|
                0 <= j < cat.services.len() && (#[trigger] cat.services[j]).id == id
                    && cat.service_chosen(selectors, j);
            assert(at.contains(j));
            let m = choose|m: int| 0 <= m < at.len() && at[m] == j;
            assert(ids[m] == id);
        }
    }
}

/// The features that a list of selectors selects are exactly those whose id
/// belongs to a feature that at least one of the selectors accepts, and no
/// id comes twice.
pub proof fn lemma_selects_each_accepted_feature_once(
    cat: CatalogView,
    selectors: Seq<FeatureSelectorView>,
)
    requires
        cat.well_formed(),
    ensures
        ids_of_features(cat.selected_features(selectors)).no_duplicates(),
        forall|id: Seq<char>| #[trigger]
            ids_of_features(cat.selected_features(selectors)).contains(id) <==> accepted_feature(
                cat,
                selectors,
                id,
            ),
{
    let at = cat.selected_feature_positions(selectors);
    let ids = ids_of_features(cat.selected_features(selectors));
    let all = cat.features.map_values(feature_id());
    lemma_selected_feature_positions(cat, selectors);
    lemma_positions_are_in_range(cat.feature_hits(selectors), cat.features.len());
    assert forall|a: int, b: int| 0 <= a < ids.len() && 0 <= b < ids.len() && a != b implies ids[a]
        != ids[b] by {
        assert(ids[a] == all[at[a]]);
        assert(ids[b] == all[at[b]]);
    }
    assert forall|id: Seq<char>| #[trigger] ids.contains(id) <==> accepted_feature(
        cat,
        selectors,
        id,
    ) by {
        if ids.contains(id) {
            let m = choose|m: int| 0 <= m < ids.len() && ids[m] == id;
            assert(at.contains(at[m]));
            assert(cat.features[at[m]].id == id);
        }
        if accepted_feature(cat, selectors, id) {
            let j = choose|j: int|
                0 <= j < cat.features.len() && (#[trigger] cat.features[j]).id == id
                    && cat.feature_chosen(selectors, j);
            assert(at.contains(j));
            let m = choose|m: int| 0 <= m < at.len() && at[m] == j;
            assert(ids[m] == id);
        }
    }
}

/// Whether the catalog holds a feature with the id `id` that names the
/// service `owner`.
pub open spec fn owns(cat: CatalogView, owner: Seq<char>, id: Seq<char>) -> bool {
    exists|m: int|
        0 <= m < cat.features.len() && (#[trigger] cat.features[m]).id == id
            && cat.features[m].service == owner
}

/// Every feature that a service lists names the service as its owner, and
/// no feature is listed twice; every feature that names the service is
/// listed.
pub proof fn lemma_listed_features_refer_back(cat: CatalogView, j: int)
    requires
        cat.well_formed(),
        0 <= j < cat.services.len(),
    ensures
        cat.describe(j).features.no_duplicates(),
        forall|k: int|
            0 <= k < cat.describe(j).features.len() ==> owns(
                cat,
                cat.services[j].id,
                #[trigger] cat.describe(j).features[k],
            ),
        forall|m: int|
            0 <= m < cat.features.len() && (#[trigger] cat.features[m]).service
                == cat.services[j].id ==> cat.describe(j).features.contains(cat.features[m].id),
{
    let owner = cat.services[j].id;
    let owned = cat.features.filter(crate::registry::owned_by(owner));
    let listed = cat.describe(j).features;
    crate::seqs::lemma_filter_keeps_keys_distinct(
        cat.features,
        crate::registry::owned_by(owner),
        feature_id(),
    );
    crate::seqs::lemma_filter_members(cat.features, crate::registry::owned_by(owner));
    assert forall|k: int| 0 <= k < listed.len() implies owns(cat, owner, #[trigger] listed[k]) by {
        assert(owned.contains(owned[k]));
        let m = choose|m: int| 0 <= m < cat.features.len() && cat.features[m] == owned[k];
        assert(cat.features[m].id == listed[k]);
    }
    assert forall|m: int|
        0 <= m < cat.features.len() && (#[trigger] cat.features[m]).service
            == owner implies listed.contains(cat.features[m].id) by {
        assert(cat.features.contains(cat.features[m]));
        assert(owned.contains(cat.features[m]));
        let k = choose|k: int| 0 <= k < owned.len() && owned[k] == cat.features[m];
        assert(listed[k] == cat.features[m].id);
    }
}

/// A service that a selector accepts is still accepted when the service has
/// more tags.
pub proof fn lemma_more_tags_keep_a_service_accepted(
    selector: ServiceSelectorView,
    service: ServiceRecordView,
    more: Set<Seq<char>>,
    features: Seq<FeatureView>,
)
    requires
        selector.accepts(service, features),
    ensures
        selector.accepts(
            ServiceRecordView {
                id: service.id,
                tags: service.tags.union(more),
                adapter: service.adapter,
            },
            features,
        ),
{
}

/// Adding tags to the services that a list of selectors selects does not
/// change which services the list selects.
pub proof fn lemma_adding_service_tags_keeps_the_selection(
    cat: CatalogView,
    selectors: Seq<ServiceSelectorView>,
    tags: Set<Seq<char>>,
    j: int,
)
    requires
        0 <= j < cat.services.len(),
    ensures
        cat.with_service_tags(selectors, tags, true).service_chosen(selectors, j)
            == cat.service_chosen(selectors, j),
{
    let once = cat.with_service_tags(selectors, tags, true);
    if cat.service_chosen(selectors, j) {
        let i = choose|i: int|
            0 <= i < selectors.len() && (#[trigger] selectors[i]).accepts(
                cat.services[j],
                cat.features,
            );
        lemma_more_tags_keep_a_service_accepted(selectors[i], cat.services[j], tags, cat.features);
        assert(selectors[i].accepts(once.services[j], once.features));
    } else {
        assert(once.services[j] == cat.services[j]);
        if once.service_chosen(selectors, j) {
            let i = choose|i: int|
                0 <= i < selectors.len() && (#[trigger] selectors[i]).accepts(
                    once.services[j],
                    once.features,
                );
            assert(selectors[i].accepts(cat.services[j], cat.features));
        }
    }
}

/// Adding tags to the selected services is idempotent: a second call with
/// the same selectors and tags leaves the catalog as the first call left it,
/// and counts as many services as the first.
pub proof fn lemma_adding_service_tags_twice(
    cat: CatalogView,
    selectors: Seq<ServiceSelectorView>,
    tags: Set<Seq<char>>,
)
    ensures
        cat.with_service_tags(selectors, tags, true).with_service_tags(selectors, tags, true)
            == cat.with_service_tags(selectors, tags, true),
        cat.with_service_tags(selectors, tags, true).selected_service_positions(selectors).len()
            == cat.selected_service_positions(selectors).len(),
        cat.with_service_tags(selectors, tags, true).selected_services(selectors).len()
            == cat.selected_services(selectors).len(),
{
    let once = cat.with_service_tags(selectors, tags, true);
    let twice = once.with_service_tags(selectors, tags, true);
    assert forall|j: int| 0 <= j < once.services.len() implies twice.services[j]
        == once.services[j] by {
        lemma_adding_service_tags_keeps_the_selection(cat, selectors, tags, j);
        if once.service_chosen(selectors, j) {
            assert(once.services[j].tags.union(tags) =~= once.services[j].tags);
        }
    }
    assert(twice.services =~= once.services);
    lemma_selected_service_positions(cat, selectors);
    lemma_selected_service_positions(once, selectors);
    let a = cat.selected_service_positions(selectors);
    let b = once.selected_service_positions(selectors);
    assert forall|j: int| a.contains(j) <==> b.contains(j) by {
        if 0 <= j < cat.services.len() {
            lemma_adding_service_tags_keeps_the_selection(cat, selectors, tags, j);
        }
    }
    lemma_same_members_same_length(a, b);
}

} // verus!
