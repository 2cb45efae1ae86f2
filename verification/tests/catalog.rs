use foxbox_taxonomy::api::API;
use foxbox_taxonomy::exactly::ConfigurationError;
use foxbox_taxonomy::ids::{AdapterId, CapabilityId, FeatureId, ServiceId, TagId};
use foxbox_taxonomy::manager::AdapterManager;
use foxbox_taxonomy::registry::{DuplicateId, Registry};
use foxbox_taxonomy::selector::{FeatureSelector, ServiceSelector, SimpleFeatureSelector};
use foxbox_taxonomy::services::{Feature, Mechanism, Service};
use foxbox_taxonomy::tag_store::TagStore;
use foxbox_taxonomy::tags::TagSet;
use foxbox_taxonomy::value::Value;

fn tags(names: &[&str]) -> Vec<TagId> {
    names.iter().map(|n| TagId::new(n)).collect()
}

fn service(id: &str, names: &[&str]) -> Service {
    let mut s = Service::new(ServiceId::new(id), AdapterId::new("adapter"));
    s.tags = TagSet::from_slice(&tags(names));
    s
}

fn feature(id: &str, service: &str, names: &[&str]) -> Feature {
    let mut f = Feature::new(
        FeatureId::new(id),
        ServiceId::new(service),
        CapabilityId::new("light"),
        Mechanism::Both,
    );
    f.tags = TagSet::from_slice(&tags(names));
    f
}

fn service_ids(services: &[Service]) -> Vec<String> {
    services.iter().map(|s| s.id.as_str().to_string()).collect()
}

fn feature_ids(features: &[Feature]) -> Vec<String> {
    features.iter().map(|f| f.id.as_str().to_string()).collect()
}

fn names(ids: &[FeatureId]) -> Vec<String> {
    ids.iter().map(|f| f.as_str().to_string()).collect()
}

fn doors() -> Registry {
    let mut r = Registry::new();
    r.register_service(service("S1", &["door", "entrance", "lock"])).unwrap();
    r.register_service(service("S2", &["door"])).unwrap();
    r
}

#[test]
fn selecting_doors_of_the_entrance_returns_the_first_service_only() {
    let r = doors();
    let selectors = vec![ServiceSelector::new().with_tags(&tags(&["door", "entrance"]))];
    let found = r.get_services(&selectors).unwrap();
    assert_eq!(service_ids(&found), vec!["S1"]);
}

#[test]
fn registering_an_id_twice_fails_and_changes_nothing() {
    let mut r = doors();
    match r.register_service(service("S1", &["other"])) {
        Err(DuplicateId::Service(id)) => assert_eq!(id.as_str(), "S1"),
        other => panic!("unexpected result {:?}", other),
    }
    assert_eq!(r.services().len(), 2);
    assert!(r.services()[0].tags.contains(&TagId::new("door")));
    assert!(!r.services()[0].tags.contains(&TagId::new("other")));

    r.add_feature(feature("F1", "S1", &[])).unwrap();
    match r.add_feature(feature("F1", "S2", &[])) {
        Err(DuplicateId::Feature(id)) => assert_eq!(id.as_str(), "F1"),
        other => panic!("unexpected result {:?}", other),
    }
    assert_eq!(r.features().len(), 1);
    assert_eq!(r.features()[0].service.as_str(), "S1");
}

#[test]
fn a_service_and_a_feature_may_share_a_name() {
    let mut r = Registry::new();
    r.register_service(service("x", &[])).unwrap();
    assert!(r.add_feature(feature("x", "x", &[])).is_ok());
    assert_eq!(r.find_service(&ServiceId::new("x")), Some(0));
    assert_eq!(r.find_feature(&FeatureId::new("x")), Some(0));
    assert_eq!(r.find_feature(&FeatureId::new("y")), None);
}

#[test]
fn a_service_lists_the_features_that_name_it() {
    let mut r = doors();
    r.add_feature(feature("F1", "S1", &[])).unwrap();
    r.add_feature(feature("F2", "S2", &[])).unwrap();
    r.add_feature(feature("F3", "S1", &[])).unwrap();
    let mut given = service("S3", &[]);
    given.features = vec![FeatureId::new("F1")];
    r.register_service(given).unwrap();
    let all = vec![
        ServiceSelector::new().with_tags(&tags(&["door"])),
        ServiceSelector::new().with_id(ServiceId::new("S3")).unwrap(),
    ];
    let found = r.get_services(&all).unwrap();
    assert_eq!(service_ids(&found), vec!["S1", "S2", "S3"]);
    assert_eq!(names(&found[0].features), vec!["F1", "F3"]);
    assert_eq!(names(&found[1].features), vec!["F2"]);
    assert_eq!(names(&found[2].features), Vec::<String>::new());
    assert_eq!(found[0].adapter.as_str(), "adapter");
    assert_eq!(found[0].tags.len(), 3);
    assert_eq!(names(&r.features_of(&ServiceId::new("S1"))), vec!["F1", "F3"]);
}

#[test]
fn unregistering_removes_the_service_and_its_features() {
    let mut r = doors();
    r.add_feature(feature("F1", "S1", &[])).unwrap();
    r.add_feature(feature("F2", "S2", &[])).unwrap();
    r.add_feature(feature("F3", "S1", &[])).unwrap();
    let removed = r.unregister_service(&ServiceId::new("S1"));
    assert_eq!(names(&removed), vec!["F1", "F3"]);
    assert_eq!(r.services().len(), 1);
    assert_eq!(r.services()[0].id.as_str(), "S2");
    assert_eq!(feature_ids(r.features()), vec!["F2"]);
    let all = vec![FeatureSelector::new().with_implements(CapabilityId::new("light")).unwrap()];
    assert_eq!(feature_ids(&r.get_features(&all).unwrap()), vec!["F2"]);
    // The id is free again.
    assert!(r.register_service(service("S1", &[])).is_ok());
}

#[test]
fn unregistering_an_unknown_service_changes_nothing() {
    let mut r = doors();
    r.add_feature(feature("F1", "S9", &[])).unwrap();
    let removed = r.unregister_service(&ServiceId::new("S9"));
    assert!(removed.is_empty());
    assert_eq!(r.services().len(), 2);
    assert_eq!(r.features().len(), 1);
}

#[test]
fn a_list_of_selectors_is_a_union_in_first_match_order() {
    let mut r = doors();
    r.register_service(service("S3", &["window"])).unwrap();
    let selectors = vec![
        ServiceSelector::new().with_tags(&tags(&["window"])),
        ServiceSelector::new().with_tags(&tags(&["door"])),
        ServiceSelector::new().with_id(ServiceId::new("S1")).unwrap(),
        ServiceSelector::new().with_id(ServiceId::new("nobody")).unwrap(),
    ];
    assert_eq!(service_ids(&r.get_services(&selectors).unwrap()), vec!["S3", "S1", "S2"]);
    let selectors = vec![
        ServiceSelector::new().with_id(ServiceId::new("S2")).unwrap(),
        ServiceSelector::new().with_tags(&tags(&["door"])),
    ];
    assert_eq!(service_ids(&r.get_services(&selectors).unwrap()), vec!["S2", "S1"]);
}

#[test]
fn each_accepted_entity_is_returned_exactly_once() {
    let mut r = Registry::new();
    for i in 0..6 {
        let name = format!("S{}", i);
        let t: &[&str] = if i % 2 == 0 { &["even"] } else { &["odd"] };
        r.register_service(service(&name, t)).unwrap();
        r.add_feature(feature(&format!("F{}", i), &name, t)).unwrap();
    }
    let selectors = vec![
        ServiceSelector::new().with_tags(&tags(&["even"])),
        ServiceSelector::new().with_id(ServiceId::new("S3")).unwrap(),
        ServiceSelector::new().with_id(ServiceId::new("S2")).unwrap(),
        ServiceSelector::new().with_tags(&tags(&["even"])),
    ];
    let found = service_ids(&r.get_services(&selectors).unwrap());
    assert_eq!(found, vec!["S0", "S2", "S4", "S3"]);
    for (j, record) in r.services().iter().enumerate() {
        let accepted = selectors.iter().any(|s| s.matches(record, r.features()));
        let times = found.iter().filter(|id| id.as_str() == record.id.as_str()).count();
        assert_eq!(times, if accepted { 1 } else { 0 }, "service {}", j);
    }
    let selectors = vec![
        FeatureSelector::new().with_tags(&tags(&["odd"])),
        FeatureSelector::new()
            .with_service(&[ServiceSelector::new().with_id(ServiceId::new("S1")).unwrap()]),
        FeatureSelector::new().with_id(FeatureId::new("F4")).unwrap(),
    ];
    assert_eq!(feature_ids(&r.get_features(&selectors).unwrap()), vec!["F1", "F3", "F5", "F4"]);
}

#[test]
fn no_selector_and_no_match_give_nothing() {
    let r = doors();
    assert!(r.get_services(&vec![]).unwrap().is_empty());
    assert!(r.get_features(&vec![]).unwrap().is_empty());
    let none = vec![ServiceSelector::new().with_tags(&tags(&["cellar"]))];
    assert!(r.get_services(&none).unwrap().is_empty());
    let mut r = doors();
    assert_eq!(r.add_service_tags(&none, &tags(&["x"])), Ok(0));
    assert_eq!(r.remove_service_tags(&none, &tags(&["door"])), Ok(0));
    assert!(r.services()[0].tags.contains(&TagId::new("door")));
}

#[test]
fn adding_tags_counts_the_matched_and_is_idempotent() {
    let mut r = doors();
    let selectors = vec![
        ServiceSelector::new().with_tags(&tags(&["door"])),
        ServiceSelector::new().with_tags(&tags(&["new"])),
    ];
    let first = r.add_service_tags(&selectors, &tags(&["door", "new"]));
    assert_eq!(first, Ok(2));
    let after_first: Vec<usize> = r.services().iter().map(|s| s.tags.len()).collect();
    assert_eq!(after_first, vec![4, 2]);
    let second = r.add_service_tags(&selectors, &tags(&["door", "new"]));
    assert_eq!(second, first);
    let after_second: Vec<usize> = r.services().iter().map(|s| s.tags.len()).collect();
    assert_eq!(after_second, after_first);
    for s in r.services() {
        assert!(s.tags.contains(&TagId::new("new")));
    }
}

#[test]
fn removing_tags_counts_the_matched_whether_they_had_the_tag_or_not() {
    let mut r = doors();
    let selectors = vec![ServiceSelector::new().with_tags(&tags(&["door"]))];
    assert_eq!(r.remove_service_tags(&selectors, &tags(&["lock", "absent"])), Ok(2));
    assert!(!r.services()[0].tags.contains(&TagId::new("lock")));
    assert_eq!(r.services()[0].tags.len(), 2);
    assert_eq!(r.services()[1].tags.len(), 1);
    // Taking the tag that selected them: the next call matches nothing.
    assert_eq!(r.remove_service_tags(&selectors, &tags(&["door"])), Ok(2));
    assert_eq!(r.remove_service_tags(&selectors, &tags(&["door"])), Ok(0));
}

#[test]
fn feature_tags_are_edited_as_of_the_catalog_at_the_call() {
    let mut r = doors();
    r.add_feature(feature("F1", "S1", &["a"])).unwrap();
    r.add_feature(feature("F2", "S1", &[])).unwrap();
    // The second selector accepts a feature whose service has a feature
    // tagged `b`: none has before the call.
    let selectors = vec![
        FeatureSelector::new().with_tags(&tags(&["a"])),
        FeatureSelector::new().with_service(&[ServiceSelector::new()
            .with_features(&[SimpleFeatureSelector::new().with_tags(&tags(&["b"]))])]),
    ];
    assert_eq!(r.add_feature_tags(&selectors, &tags(&["b"])), Ok(1));
    assert!(r.features()[0].tags.contains(&TagId::new("b")));
    assert!(!r.features()[1].tags.contains(&TagId::new("b")));
    assert_eq!(r.add_feature_tags(&selectors, &tags(&["b"])), Ok(2));
    assert!(r.features()[1].tags.contains(&TagId::new("b")));
    assert_eq!(r.remove_feature_tags(&selectors, &tags(&["a", "b"])), Ok(2));
    assert!(r.features()[0].tags.is_empty());
    assert!(r.features()[1].tags.is_empty());
}

#[test]
fn a_reported_value_is_kept_as_the_last() {
    let mut r = doors();
    r.add_feature(feature("F1", "S1", &[])).unwrap();
    assert_eq!(r.features()[0].last_value, None);
    assert!(r.set_value(&FeatureId::new("F1"), Value::Integer(4)));
    assert_eq!(r.features()[0].last_value, Some(Value::Integer(4)));
    assert!(!r.set_value(&FeatureId::new("F9"), Value::Integer(5)));
    assert_eq!(r.features()[0].last_value, Some(Value::Integer(4)));
}

#[test]
fn the_interface_for_clients_answers_as_the_catalog() {
    let mut manager = AdapterManager::new(TagStore::new());
    manager.register_service(service("S1", &["door", "entrance", "lock"])).unwrap();
    manager.register_service(service("S2", &["door"])).unwrap();
    manager.add_feature(feature("F1", "S1", &[])).unwrap();
    let mut api = API::new(manager);
    let found = api
        .get_services(vec![ServiceSelector::new().with_tags(&tags(&["door", "entrance"]))])
        .unwrap();
    assert_eq!(service_ids(&found), vec!["S1"]);
    let doors = || vec![ServiceSelector::new().with_tags(&tags(&["door"]))];
    assert_eq!(api.add_service_tags(doors(), tags(&["wood"])), Ok(2));
    assert_eq!(api.add_service_tags(doors(), tags(&["wood"])), Ok(2));
    assert_eq!(api.remove_service_tags(doors(), tags(&["wood"])), Ok(2));
    let lights = || vec![FeatureSelector::new().with_implements(CapabilityId::new("light")).unwrap()];
    assert_eq!(feature_ids(&api.get_features(lights()).unwrap()), vec!["F1"]);
    assert_eq!(api.add_feature_tags(lights(), tags(&["bright"])), Ok(1));
    assert!(api.get_features(lights()).unwrap()[0].tags.contains(&TagId::new("bright")));
    assert_eq!(api.remove_feature_tags(lights(), tags(&["bright"])), Ok(1));
    assert!(api.get_features(lights()).unwrap()[0].tags.is_empty());
    api.manager().register_service(service("S3", &["door"])).unwrap();
    assert_eq!(api.get_services(doors()).unwrap().len(), 3);
    let manager = api.into_manager();
    assert_eq!(manager.catalog().services().len(), 3);
}

fn house() -> API {
    let mut manager = AdapterManager::new(TagStore::new());
    manager.register_service(service("S1", &["door"])).unwrap();
    manager.register_service(service("S2", &[])).unwrap();
    manager.add_feature(feature("F1", "S1", &["bright"])).unwrap();
    API::new(manager)
}

fn all_tags(api: &mut API) -> Vec<Vec<String>> {
    let catalog = api.manager().catalog();
    let mut all = Vec::new();
    for s in catalog.services() {
        let mut names: Vec<String> = s.tags.to_vec().iter().map(|t| t.as_str().to_string()).collect();
        names.sort();
        all.push(names);
    }
    for f in catalog.features() {
        let mut names: Vec<String> = f.tags.to_vec().iter().map(|t| t.as_str().to_string()).collect();
        names.sort();
        all.push(names);
    }
    all
}

#[test]
fn a_selector_that_constrains_nothing_is_never_answered_with_everything() {
    let api = house();
    let refused = api.get_services(vec![ServiceSelector::new()]);
    assert_eq!(refused.err(), Some(ConfigurationError::EmptySelector));
    let refused = api.get_features(vec![FeatureSelector::new()]);
    assert_eq!(refused.err(), Some(ConfigurationError::EmptySelector));
    // Members that are set to what they are by default constrain nothing.
    let refused = api.get_services(vec![ServiceSelector::new().with_tags(&[]).with_features(&[])]);
    assert_eq!(refused.err(), Some(ConfigurationError::EmptySelector));
}

#[test]
fn one_empty_selector_fails_the_whole_request() {
    let api = house();
    let doors = ServiceSelector::new().with_tags(&tags(&["door"]));
    assert_eq!(api.get_services(vec![doors.clone()]).unwrap().len(), 1);
    let refused = api.get_services(vec![doors.clone(), ServiceSelector::new()]);
    assert_eq!(refused.err(), Some(ConfigurationError::EmptySelector));
    let refused = api.get_services(vec![ServiceSelector::new(), doors]);
    assert_eq!(refused.err(), Some(ConfigurationError::EmptySelector));
    let bright = FeatureSelector::new().with_tags(&tags(&["bright"]));
    let refused = api.get_features(vec![bright, FeatureSelector::new()]);
    assert_eq!(refused.err(), Some(ConfigurationError::EmptySelector));
}

#[test]
fn a_nested_selector_that_constrains_nothing_is_refused_too() {
    let api = house();
    let any_feature = ServiceSelector::new().with_features(&[SimpleFeatureSelector::new()]);
    assert_eq!(
        api.get_services(vec![any_feature.clone()]).err(),
        Some(ConfigurationError::EmptySelector)
    );
    let any_service = FeatureSelector::new().with_service(&[ServiceSelector::new()]);
    assert_eq!(
        api.get_features(vec![any_service]).err(),
        Some(ConfigurationError::EmptySelector)
    );
    let deep = FeatureSelector::new().with_service(&[any_feature]);
    assert_eq!(api.get_features(vec![deep]).err(), Some(ConfigurationError::EmptySelector));
    let fine = FeatureSelector::new().with_service(&[ServiceSelector::new()
        .with_features(&[SimpleFeatureSelector::new().with_tags(&tags(&["bright"]))])]);
    assert_eq!(feature_ids(&api.get_features(vec![fine]).unwrap()), vec!["F1"]);
}

#[test]
fn a_refused_tag_edit_changes_nothing() {
    let mut api = house();
    let before = all_tags(&mut api);
    let empty = ConfigurationError::EmptySelector;
    assert_eq!(api.add_service_tags(vec![ServiceSelector::new()], tags(&["x"])), Err(empty));
    assert_eq!(api.remove_service_tags(vec![ServiceSelector::new()], tags(&["door"])), Err(empty));
    assert_eq!(api.add_feature_tags(vec![FeatureSelector::new()], tags(&["x"])), Err(empty));
    assert_eq!(api.remove_feature_tags(vec![FeatureSelector::new()], tags(&["bright"])), Err(empty));
    let doors = ServiceSelector::new().with_tags(&tags(&["door"]));
    assert_eq!(api.add_service_tags(vec![doors, ServiceSelector::new()], tags(&["x"])), Err(empty));
    assert_eq!(all_tags(&mut api), before);
    assert!(api.manager().tags().tags_of("S1").is_empty());
    assert!(api.manager().tags().tags_of("F1").is_empty());
    assert!(api.take_events().is_empty());
}

#[test]
fn the_catalog_and_the_manager_refuse_as_the_interface_does() {
    let mut api = house();
    let empty = ConfigurationError::EmptySelector;
    let manager = api.manager();
    assert_eq!(manager.get_services(&vec![ServiceSelector::new()]).err(), Some(empty));
    assert_eq!(manager.get_features(&vec![FeatureSelector::new()]).err(), Some(empty));
    assert_eq!(manager.add_service_tags(&vec![ServiceSelector::new()], &tags(&["x"])), Err(empty));
    assert_eq!(manager.remove_feature_tags(&vec![FeatureSelector::new()], &tags(&["x"])), Err(empty));
    let mut r = doors();
    assert_eq!(r.get_services(&vec![ServiceSelector::new()]).err(), Some(empty));
    assert_eq!(r.get_features(&vec![FeatureSelector::new()]).err(), Some(empty));
    assert_eq!(r.add_service_tags(&vec![ServiceSelector::new()], &tags(&["x"])), Err(empty));
    assert_eq!(r.remove_service_tags(&vec![ServiceSelector::new()], &tags(&["door"])), Err(empty));
    assert_eq!(r.add_feature_tags(&vec![FeatureSelector::new()], &tags(&["x"])), Err(empty));
    assert_eq!(r.remove_feature_tags(&vec![FeatureSelector::new()], &tags(&["x"])), Err(empty));
    assert!(r.services()[0].tags.contains(&TagId::new("door")));
    assert!(!r.services()[0].tags.contains(&TagId::new("x")));
}
