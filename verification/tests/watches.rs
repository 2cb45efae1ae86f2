use foxbox_taxonomy::api::API;
use foxbox_taxonomy::exactly::{ConfigurationError, Exactly};
use foxbox_taxonomy::ids::{AdapterId, CapabilityId, FeatureId, ServiceId, TagId};
use foxbox_taxonomy::manager::AdapterManager;
use foxbox_taxonomy::range::Range;
use foxbox_taxonomy::selector::{FeatureSelector, ServiceSelector};
use foxbox_taxonomy::services::{Feature, Mechanism, Service};
use foxbox_taxonomy::tag_store::TagStore;
use foxbox_taxonomy::value::{OnOff, Value};
use foxbox_taxonomy::watch::{Delivery, TargetMap, Targetted, WatchEvent};

fn tags(names: &[&str]) -> Vec<TagId> {
    names.iter().map(|n| TagId::new(n)).collect()
}

fn service(id: &str) -> Service {
    Service::new(ServiceId::new(id), AdapterId::new("adapter"))
}

fn feature(id: &str, service: &str) -> Feature {
    Feature::new(
        FeatureId::new(id),
        ServiceId::new(service),
        CapabilityId::new("light"),
        Mechanism::Getter,
    )
}

fn lights() -> FeatureSelector {
    FeatureSelector::new().with_implements(CapabilityId::new("light")).unwrap()
}

fn watch(select: FeatureSelector, filter: Exactly<Range>) -> TargetMap<FeatureSelector, Exactly<Range>> {
    vec![Targetted { select, payload: filter }]
}

/// What was queued, as text: the key, the event, the feature, the value.
fn told(deliveries: &[Delivery]) -> Vec<String> {
    deliveries
        .iter()
        .map(|d| match &d.event {
            WatchEvent::Added(id) => format!("{} added {}", d.watch, id.as_str()),
            WatchEvent::Removed(id) => format!("{} removed {}", d.watch, id.as_str()),
            WatchEvent::Value { feature, value } => {
                format!("{} value {} {:?}", d.watch, feature.as_str(), value)
            },
        })
        .collect()
}

fn house() -> AdapterManager {
    let mut m = AdapterManager::new(TagStore::new());
    m.register_service(service("S1")).unwrap();
    m.add_feature(feature("F1", "S1")).unwrap();
    m.add_feature(feature("F2", "S1")).unwrap();
    m
}

#[test]
fn a_watch_with_never_is_told_of_features_but_of_no_value() {
    let mut m = AdapterManager::new(TagStore::new());
    let guard = m.register_watch(&watch(lights(), Exactly::Never)).unwrap();
    assert!(told(&m.take_events()).is_empty());
    m.register_service(service("S1")).unwrap();
    m.add_feature(feature("F1", "S1")).unwrap();
    assert_eq!(told(&m.take_events()), vec!["0 added F1"]);
    for v in [Value::Unit, Value::Integer(3), Value::OnOff(OnOff::On)] {
        assert!(m.value_changed(&FeatureId::new("F1"), v));
    }
    assert!(told(&m.take_events()).is_empty());
    m.unregister_service(&ServiceId::new("S1"));
    assert_eq!(told(&m.take_events()), vec!["0 removed F1"]);
    assert_eq!(guard.key(), 0);
}

#[test]
fn a_watch_with_always_is_told_each_value_once_while_matched() {
    let mut m = house();
    m.register_watch(&watch(lights().with_id(FeatureId::new("F1")).unwrap(), Exactly::Always)).unwrap();
    assert_eq!(told(&m.take_events()), vec!["0 added F1"]);
    m.value_changed(&FeatureId::new("F1"), Value::Integer(1));
    m.value_changed(&FeatureId::new("F1"), Value::Unit);
    m.value_changed(&FeatureId::new("F2"), Value::Integer(2));
    m.value_changed(&FeatureId::new("F1"), Value::Integer(1));
    assert_eq!(
        told(&m.take_events()),
        vec!["0 value F1 Integer(1)", "0 value F1 Unit", "0 value F1 Integer(1)"]
    );
    // No longer matched: no longer told.
    m.unregister_service(&ServiceId::new("S1"));
    assert_eq!(told(&m.take_events()), vec!["0 removed F1"]);
    assert!(!m.value_changed(&FeatureId::new("F1"), Value::Integer(1)));
    assert!(told(&m.take_events()).is_empty());
}

#[test]
fn a_watch_with_a_range_is_told_the_values_within() {
    let mut m = house();
    let range = Range::BetweenEq { min: Value::Integer(10), max: Value::Integer(20) };
    m.register_watch(&watch(lights().with_id(FeatureId::new("F1")).unwrap(), Exactly::Exactly(range))).unwrap();
    m.take_events();
    for v in [9, 10, 15, 20, 21] {
        m.value_changed(&FeatureId::new("F1"), Value::Integer(v));
    }
    assert_eq!(
        told(&m.take_events()),
        vec!["0 value F1 Integer(10)", "0 value F1 Integer(15)", "0 value F1 Integer(20)"]
    );
}

#[test]
fn a_value_of_another_kind_than_the_range_is_dropped_silently() {
    let mut m = house();
    let ranges = [
        Range::Leq(Value::Integer(5)),
        Range::Geq(Value::Integer(5)),
        Range::Eq(Value::Integer(5)),
        Range::OutOfStrict { min: Value::Integer(0), max: Value::Integer(9) },
        Range::BetweenEq { min: Value::Integer(0), max: Value::Integer(9) },
    ];
    for range in ranges {
        m.register_watch(&watch(lights(), Exactly::Exactly(range))).unwrap();
    }
    m.take_events();
    assert!(m.value_changed(&FeatureId::new("F1"), Value::OnOff(OnOff::On)));
    assert!(m.value_changed(&FeatureId::new("F1"), Value::Unit));
    assert!(told(&m.take_events()).is_empty());
    assert_eq!(m.catalog().features()[0].last_value, Some(Value::Unit));
}

#[test]
fn after_release_nothing_more_is_queued_for_the_watch() {
    let mut m = house();
    let first = m.register_watch(&watch(lights(), Exactly::Always)).unwrap();
    let second = m.register_watch(&watch(lights(), Exactly::Always)).unwrap();
    m.value_changed(&FeatureId::new("F1"), Value::Integer(1));
    assert!(m.release_watch(&first));
    // What was queued before the release may still be delivered.
    assert_eq!(
        told(&m.take_events()),
        vec![
            "0 added F1",
            "0 added F2",
            "1 added F1",
            "1 added F2",
            "0 value F1 Integer(1)",
            "1 value F1 Integer(1)"
        ]
    );
    m.value_changed(&FeatureId::new("F1"), Value::Integer(2));
    m.add_feature(feature("F3", "S1")).unwrap();
    m.unregister_service(&ServiceId::new("S1"));
    let later = m.take_events();
    assert!(later.iter().all(|d| d.watch == second.key()));
    assert_eq!(later.len(), 5);
    // A later watch gets a key of its own.
    let third = m.register_watch(&watch(lights(), Exactly::Always)).unwrap();
    assert_eq!(third.key(), 2);
}

#[test]
fn releasing_twice_changes_nothing() {
    let mut m = house();
    let guard = m.register_watch(&watch(lights(), Exactly::Always)).unwrap();
    let other = m.register_watch(&watch(lights(), Exactly::Never)).unwrap();
    m.take_events();
    assert!(m.release_watch(&guard));
    assert!(!m.release_watch(&guard));
    m.value_changed(&FeatureId::new("F1"), Value::Integer(1));
    assert!(told(&m.take_events()).is_empty());
    m.add_feature(feature("F3", "S1")).unwrap();
    assert_eq!(told(&m.take_events()), vec!["1 added F3"]);
    assert!(m.release_watch(&other));
}

#[test]
fn unregistering_a_service_tells_every_interested_watch_of_each_feature() {
    let mut m = house();
    m.register_service(service("S2")).unwrap();
    m.add_feature(feature("F9", "S2")).unwrap();
    m.register_watch(&watch(lights(), Exactly::Never)).unwrap();
    m.register_watch(&watch(lights().with_id(FeatureId::new("F2")).unwrap(), Exactly::Always)).unwrap();
    m.register_watch(&watch(lights().with_id(FeatureId::new("F9")).unwrap(), Exactly::Always)).unwrap();
    m.take_events();
    let removed = m.unregister_service(&ServiceId::new("S1"));
    assert_eq!(removed.len(), 2);
    assert_eq!(told(&m.take_events()), vec!["0 removed F1", "0 removed F2", "1 removed F2"]);
    let left: Vec<String> =
        m.get_features(&vec![lights()]).unwrap().iter().map(|f| f.id.as_str().to_string()).collect();
    assert_eq!(left, vec!["F9"]);
}

#[test]
fn a_tag_edit_that_flips_a_match_is_told() {
    let mut m = house();
    m.register_watch(&watch(FeatureSelector::new().with_tags(&tags(&["bright"])), Exactly::Never)).unwrap();
    assert!(told(&m.take_events()).is_empty());
    let one = vec![FeatureSelector::new().with_id(FeatureId::new("F2")).unwrap()];
    assert_eq!(m.add_feature_tags(&one, &tags(&["bright"])), Ok(1));
    assert_eq!(told(&m.take_events()), vec!["0 added F2"]);
    // The state of the match is as it was: nothing is told.
    assert_eq!(m.add_feature_tags(&one, &tags(&["bright", "more"])), Ok(1));
    assert!(told(&m.take_events()).is_empty());
    assert_eq!(m.remove_feature_tags(&one, &tags(&["bright"])), Ok(1));
    assert_eq!(told(&m.take_events()), vec!["0 removed F2"]);
}

#[test]
fn a_service_tag_edit_reaches_the_watches_of_its_features() {
    let mut m = house();
    let of_doors = FeatureSelector::new()
        .with_service(&[ServiceSelector::new().with_tags(&tags(&["door"]))]);
    m.register_watch(&watch(of_doors, Exactly::Never)).unwrap();
    let s1 = vec![ServiceSelector::new().with_id(ServiceId::new("S1")).unwrap()];
    m.add_service_tags(&s1, &tags(&["door"])).unwrap();
    assert_eq!(told(&m.take_events()), vec!["0 added F1", "0 added F2"]);
    m.remove_service_tags(&s1, &tags(&["door"])).unwrap();
    assert_eq!(told(&m.take_events()), vec!["0 removed F1", "0 removed F2"]);
}

#[test]
fn a_new_watch_is_told_the_last_value_that_its_filter_lets_pass() {
    let mut m = house();
    m.value_changed(&FeatureId::new("F1"), Value::Integer(7));
    m.register_watch(&watch(lights(), Exactly::Always)).unwrap();
    m.register_watch(&watch(lights(), Exactly::Never)).unwrap();
    m.register_watch(&watch(lights(), Exactly::Exactly(Range::Geq(Value::Integer(8))))).unwrap();
    m.register_watch(&watch(lights(), Exactly::Exactly(Range::Leq(Value::Integer(8))))).unwrap();
    assert_eq!(
        told(&m.take_events()),
        vec![
            "0 added F1",
            "0 value F1 Integer(7)",
            "0 added F2",
            "1 added F1",
            "1 added F2",
            "2 added F1",
            "2 added F2",
            "3 added F1",
            "3 value F1 Integer(7)",
            "3 added F2"
        ]
    );
}

#[test]
fn each_entry_of_a_watch_is_told_for_itself_in_order() {
    let mut m = house();
    let both: TargetMap<FeatureSelector, Exactly<Range>> = vec![
        Targetted {
            select: lights().with_id(FeatureId::new("F2")).unwrap(),
            payload: Exactly::Exactly(Range::Eq(Value::Integer(1))),
        },
        Targetted { select: lights(), payload: Exactly::Always },
    ];
    m.register_watch(&both).unwrap();
    assert_eq!(told(&m.take_events()), vec!["0 added F2", "0 added F1", "0 added F2"]);
    m.value_changed(&FeatureId::new("F2"), Value::Integer(1));
    m.value_changed(&FeatureId::new("F2"), Value::Integer(2));
    m.value_changed(&FeatureId::new("F1"), Value::Integer(1));
    assert_eq!(
        told(&m.take_events()),
        vec![
            "0 value F2 Integer(1)",
            "0 value F2 Integer(1)",
            "0 value F2 Integer(2)",
            "0 value F1 Integer(1)"
        ]
    );
}

#[test]
fn taking_the_events_empties_the_queue() {
    let mut m = house();
    m.register_watch(&watch(lights(), Exactly::Always)).unwrap();
    assert_eq!(m.take_events().len(), 2);
    assert!(m.take_events().is_empty());
}

#[test]
fn the_interface_for_clients_registers_and_releases_watches() {
    let mut api = API::new(house());
    assert!(api.can_watch());
    let guard = api.register_watch(watch(lights(), Exactly::Always)).unwrap();
    assert_eq!(told(&api.take_events()), vec!["0 added F1", "0 added F2"]);
    let other = api.try_register_watch(watch(lights(), Exactly::Never)).unwrap().unwrap();
    assert_eq!(other.key(), 1);
    api.manager().value_changed(&FeatureId::new("F2"), Value::Unit);
    assert_eq!(
        told(&api.take_events()),
        vec!["1 added F1", "1 added F2", "0 value F2 Unit"]
    );
    assert!(api.release_watch(&guard));
    assert!(!api.release_watch(&guard));
    api.manager().value_changed(&FeatureId::new("F2"), Value::Unit);
    assert!(api.take_events().is_empty());
}

#[test]
fn a_watch_on_everything_is_refused_and_leaves_no_trace() {
    let mut api = API::new(house());
    let refused = api.register_watch(watch(FeatureSelector::new(), Exactly::Always));
    assert_eq!(refused.err(), Some(ConfigurationError::EmptySelector));
    let refused = api.try_register_watch(watch(FeatureSelector::new(), Exactly::Never));
    assert_eq!(refused.err(), Some(ConfigurationError::EmptySelector));
    let nested = FeatureSelector::new().with_service(&[ServiceSelector::new()]);
    let both: TargetMap<FeatureSelector, Exactly<Range>> = vec![
        Targetted { select: lights(), payload: Exactly::Always },
        Targetted { select: nested, payload: Exactly::Always },
    ];
    assert_eq!(api.register_watch(both).err(), Some(ConfigurationError::EmptySelector));
    assert!(api.take_events().is_empty());
    api.manager().value_changed(&FeatureId::new("F1"), Value::Unit);
    assert!(api.take_events().is_empty());
    // No key was used up.
    let guard = api.register_watch(watch(lights(), Exactly::Never)).unwrap();
    assert_eq!(guard.key(), 0);
}

#[test]
fn unregistering_tells_each_entry_that_held_the_feature_once() {
    let mut m = house();
    m.register_service(service("S2")).unwrap();
    m.add_feature(feature("F9", "S2")).unwrap();
    let both: TargetMap<FeatureSelector, Exactly<Range>> = vec![
        Targetted { select: lights(), payload: Exactly::Never },
        Targetted {
            select: lights().with_id(FeatureId::new("F1")).unwrap(),
            payload: Exactly::Always,
        },
        Targetted {
            select: lights().with_id(FeatureId::new("F9")).unwrap(),
            payload: Exactly::Always,
        },
    ];
    m.register_watch(&both).unwrap();
    m.register_watch(&watch(lights().with_id(FeatureId::new("F9")).unwrap(), Exactly::Always))
        .unwrap();
    m.take_events();
    m.unregister_service(&ServiceId::new("S1"));
    assert_eq!(told(&m.take_events()), vec!["0 removed F1", "0 removed F2", "0 removed F1"]);
    // A second look at the same catalog tells nothing.
    m.unregister_service(&ServiceId::new("S1"));
    assert!(m.take_events().is_empty());
}
