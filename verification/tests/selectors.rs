use foxbox_taxonomy::exactly::{ConfigurationError, Exactly};
use foxbox_taxonomy::ids::{AdapterId, CapabilityId, FeatureId, ServiceId, TagId};
use foxbox_taxonomy::selector::{FeatureSelector, ServiceSelector, SimpleFeatureSelector};
use foxbox_taxonomy::services::{Feature, Mechanism, ServiceRecord};
use foxbox_taxonomy::tags::TagSet;

fn tags(names: &[&str]) -> Vec<TagId> {
    names.iter().map(|n| TagId::new(n)).collect()
}

fn record(id: &str, names: &[&str]) -> ServiceRecord {
    ServiceRecord {
        id: ServiceId::new(id),
        tags: TagSet::from_slice(&tags(names)),
        adapter: AdapterId::new("adapter"),
    }
}

fn feature(id: &str, service: &str, capability: &str, names: &[&str]) -> Feature {
    let mut f = Feature::new(
        FeatureId::new(id),
        ServiceId::new(service),
        CapabilityId::new(capability),
        Mechanism::Getter,
    );
    f.tags = TagSet::from_slice(&tags(names));
    f
}

#[test]
fn a_new_selector_constrains_nothing() {
    let s = ServiceSelector::new();
    assert!(s.is_unconstrained());
    assert_eq!(s.validate(), Err(ConfigurationError::EmptySelector));
    let f = FeatureSelector::new();
    assert!(f.is_unconstrained());
    assert_eq!(f.validate(), Err(ConfigurationError::EmptySelector));
    assert!(SimpleFeatureSelector::new().is_unconstrained());
}

#[test]
fn a_selector_with_a_condition_is_valid() {
    let s = ServiceSelector::new().with_tags(&tags(&["door"]));
    assert!(!s.is_unconstrained());
    assert_eq!(s.validate(), Ok(()));
    let s = ServiceSelector::new().with_id(ServiceId::new("a")).unwrap();
    assert_eq!(s.validate(), Ok(()));
    let bright = SimpleFeatureSelector::new().with_tags(&tags(&["bright"]));
    assert_eq!(bright.validate(), Ok(()));
    let s = ServiceSelector::new().with_features(&[bright]);
    assert_eq!(s.validate(), Ok(()));
    let f = FeatureSelector::new().with_implements(CapabilityId::new("light")).unwrap();
    assert_eq!(f.validate(), Ok(()));
    let f = FeatureSelector::new().with_service(&[s.clone()]);
    assert_eq!(f.validate(), Ok(()));
    let f = FeatureSelector::new().with_tags(&[]);
    assert_eq!(f.validate(), Err(ConfigurationError::EmptySelector));
}

#[test]
fn a_selector_that_holds_an_empty_one_is_not_valid() {
    let empty = Err(ConfigurationError::EmptySelector);
    assert_eq!(SimpleFeatureSelector::new().validate(), empty);
    let s = ServiceSelector::new()
        .with_tags(&tags(&["door"]))
        .with_features(&[SimpleFeatureSelector::new()]);
    assert!(!s.is_unconstrained());
    assert_eq!(s.validate(), empty);
    let f = FeatureSelector::new().with_id(FeatureId::new("f")).unwrap().with_service(&[s]);
    assert_eq!(f.validate(), empty);
    let f = FeatureSelector::new().with_service(&[ServiceSelector::new()]);
    assert_eq!(f.validate(), empty);
}

#[test]
fn with_id_keeps_an_equal_id_and_refuses_another() {
    let s = ServiceSelector::new().with_id(ServiceId::new("a")).unwrap();
    assert_eq!(s.id, Exactly::Exactly(ServiceId::new("a")));
    let s = s.with_id(ServiceId::new("a")).unwrap();
    assert_eq!(s.id, Exactly::Exactly(ServiceId::new("a")));
    let r = s.with_id(ServiceId::new("b"));
    assert_eq!(r.err(), Some(ConfigurationError::ConflictingConstraint));

    let f = FeatureSelector::new().with_id(FeatureId::new("f")).unwrap();
    assert_eq!(f.id, Exactly::Exactly(FeatureId::new("f")));
    assert_eq!(
        f.with_id(FeatureId::new("g")).err(),
        Some(ConfigurationError::ConflictingConstraint)
    );
    let f = SimpleFeatureSelector::new().with_implements(CapabilityId::new("x")).unwrap();
    assert_eq!(f.implements, Exactly::Exactly(CapabilityId::new("x")));
    assert_eq!(
        f.with_implements(CapabilityId::new("y")).err(),
        Some(ConfigurationError::ConflictingConstraint)
    );
}

#[test]
fn with_tags_merges() {
    let s = ServiceSelector::new().with_tags(&tags(&["a", "b"])).with_tags(&tags(&["b", "c"]));
    assert_eq!(s.tags.len(), 3);
    for name in ["a", "b", "c"] {
        assert!(s.tags.contains(&TagId::new(name)));
    }
    let f = FeatureSelector::new().with_tags(&tags(&["a"])).with_tags(&tags(&["a"]));
    assert_eq!(f.tags.len(), 1);
}

#[test]
fn with_features_and_with_service_append() {
    let one = SimpleFeatureSelector::new().with_id(FeatureId::new("f1")).unwrap();
    let two = SimpleFeatureSelector::new().with_id(FeatureId::new("f2")).unwrap();
    let s = ServiceSelector::new().with_features(&[one]).with_features(&[two]);
    assert_eq!(s.features.len(), 2);
    assert_eq!(s.features[0].id, Exactly::Exactly(FeatureId::new("f1")));
    assert_eq!(s.features[1].id, Exactly::Exactly(FeatureId::new("f2")));

    let a = ServiceSelector::new().with_id(ServiceId::new("a")).unwrap();
    let b = ServiceSelector::new().with_tags(&tags(&["t"]));
    let f = FeatureSelector::new().with_service(&[a]).with_service(&[b]);
    assert_eq!(f.services.len(), 2);
    assert_eq!(f.services[0].id, Exactly::Exactly(ServiceId::new("a")));
    assert!(f.services[1].tags.contains(&TagId::new("t")));
}

#[test]
fn and_combines_all_fields() {
    let a = ServiceSelector::new()
        .with_id(ServiceId::new("s"))
        .unwrap()
        .with_tags(&tags(&["a"]))
        .with_features(&[SimpleFeatureSelector::new().with_tags(&tags(&["x"]))]);
    let b = ServiceSelector::new()
        .with_tags(&tags(&["b"]))
        .with_features(&[SimpleFeatureSelector::new().with_tags(&tags(&["y"]))]);
    let both = a.and(b).unwrap();
    assert_eq!(both.id, Exactly::Exactly(ServiceId::new("s")));
    assert_eq!(both.tags.len(), 2);
    assert_eq!(both.features.len(), 2);
    assert!(both.features[0].tags.contains(&TagId::new("x")));
    assert!(both.features[1].tags.contains(&TagId::new("y")));
}

#[test]
fn and_refuses_two_ids() {
    let a = ServiceSelector::new().with_id(ServiceId::new("s")).unwrap();
    let b = ServiceSelector::new().with_id(ServiceId::new("t")).unwrap();
    assert_eq!(a.and(b).err(), Some(ConfigurationError::ConflictingConstraint));
}

#[test]
fn and_accepts_what_both_accept() {
    let features = vec![feature("f", "s1", "light", &["x"])];
    let doors = ServiceSelector::new().with_tags(&tags(&["door"]));
    let locks = ServiceSelector::new().with_tags(&tags(&["lock"]));
    let both = doors.clone().and(locks.clone()).unwrap();
    for names in [&["door"][..], &["lock"][..], &["door", "lock"][..], &[][..]] {
        let service = record("s1", names);
        assert_eq!(
            both.matches(&service, &features),
            doors.matches(&service, &features) && locks.matches(&service, &features)
        );
    }
}

#[test]
fn a_service_selector_demands_id_tags_and_features() {
    let features = vec![
        feature("f1", "s1", "light", &["bright"]),
        feature("f2", "s2", "light", &[]),
    ];
    let s1 = record("s1", &["door", "entrance"]);
    let s2 = record("s2", &["door"]);

    let by_id = ServiceSelector::new().with_id(ServiceId::new("s1")).unwrap();
    assert!(by_id.matches(&s1, &features));
    assert!(!by_id.matches(&s2, &features));

    let by_tags = ServiceSelector::new().with_tags(&tags(&["door", "entrance"]));
    assert!(by_tags.matches(&s1, &features));
    assert!(!by_tags.matches(&s2, &features));

    let bright = SimpleFeatureSelector::new().with_tags(&tags(&["bright"]));
    let by_feature = ServiceSelector::new().with_features(&[bright.clone()]);
    assert!(by_feature.matches(&s1, &features));
    assert!(!by_feature.matches(&s2, &features));

    // Every nested selector needs a feature; one feature may serve several.
    let light = SimpleFeatureSelector::new().with_implements(CapabilityId::new("light")).unwrap();
    let two = ServiceSelector::new().with_features(&[bright.clone(), light.clone()]);
    assert!(two.matches(&s1, &features));
    assert!(!two.matches(&s2, &features));
    let heat = SimpleFeatureSelector::new().with_implements(CapabilityId::new("heat")).unwrap();
    let three = ServiceSelector::new().with_features(&[light, heat]);
    assert!(!three.matches(&s1, &features));
}

#[test]
fn never_matches_nothing() {
    let features = vec![feature("f1", "s1", "light", &[])];
    let mut s = ServiceSelector::new();
    s.id = Exactly::Never;
    assert!(!s.matches(&record("s1", &[]), &features));
    let mut f = SimpleFeatureSelector::new();
    f.implements = Exactly::Never;
    assert!(!f.matches(&features[0]));
}

#[test]
fn a_feature_selector_demands_id_tags_capability_and_service() {
    let services = vec![record("s1", &["door"]), record("s2", &[])];
    let features = vec![
        feature("f1", "s1", "light", &["bright"]),
        feature("f2", "s2", "light", &["bright"]),
        feature("f3", "s9", "heat", &[]),
    ];
    let by_id = FeatureSelector::new().with_id(FeatureId::new("f1")).unwrap();
    assert!(by_id.matches(&features[0], &services, &features));
    assert!(!by_id.matches(&features[1], &services, &features));

    let by_kind = FeatureSelector::new().with_implements(CapabilityId::new("heat")).unwrap();
    assert!(by_kind.matches(&features[2], &services, &features));
    assert!(!by_kind.matches(&features[0], &services, &features));

    let by_tags = FeatureSelector::new().with_tags(&tags(&["bright"]));
    assert!(by_tags.matches(&features[0], &services, &features));
    assert!(!by_tags.matches(&features[2], &services, &features));

    let of_door = FeatureSelector::new()
        .with_service(&[ServiceSelector::new().with_tags(&tags(&["door"]))]);
    assert!(of_door.matches(&features[0], &services, &features));
    assert!(!of_door.matches(&features[1], &services, &features));
    // A feature whose service is not registered meets no condition on it.
    assert!(!of_door.matches(&features[2], &services, &features));
    let of_any = FeatureSelector::new().with_service(&[ServiceSelector::new()]);
    assert!(of_any.matches(&features[0], &services, &features));
    assert!(!of_any.matches(&features[2], &services, &features));
}

#[test]
fn an_empty_tag_demand_is_always_met() {
    let f = SimpleFeatureSelector::new().with_tags(&[]);
    assert!(f.matches(&feature("f", "s", "c", &[])));
    assert!(f.matches(&feature("f", "s", "c", &["a"])));
}

#[test]
fn descriptions_name_the_selectors() {
    assert_eq!(ServiceSelector::description(), "ServiceSelector");
    assert_eq!(FeatureSelector::description(), "FeatureSelector");
    assert_eq!(SimpleFeatureSelector::description(), "SimpleFeatureSelector");
}
