use foxbox_taxonomy::api::API;
use foxbox_taxonomy::exactly::ConfigurationError;
use foxbox_taxonomy::ids::{AdapterId, CapabilityId, FeatureId, ServiceId, TagId};
use foxbox_taxonomy::manager::AdapterManager;
use foxbox_taxonomy::method_call::{pair_results, AdapterError, Call, MethodCall, User};
use foxbox_taxonomy::selector::FeatureSelector;
use foxbox_taxonomy::services::{Feature, Mechanism, Service};
use foxbox_taxonomy::tag_store::TagStore;
use foxbox_taxonomy::tags::TagSet;
use foxbox_taxonomy::value::Value;
use foxbox_taxonomy::watch::{TargetMap, Targetted};

fn feature(id: &str, service: &str, names: &[&str]) -> Feature {
    let mut f = Feature::new(
        FeatureId::new(id),
        ServiceId::new(service),
        CapabilityId::new("light"),
        Mechanism::Setter,
    );
    let tags: Vec<TagId> = names.iter().map(|n| TagId::new(n)).collect();
    f.tags = TagSet::from_slice(&tags);
    f
}

fn house() -> AdapterManager {
    let mut m = AdapterManager::new(TagStore::new());
    m.register_service(Service::new(ServiceId::new("S1"), AdapterId::new("zigbee"))).unwrap();
    m.register_service(Service::new(ServiceId::new("S2"), AdapterId::new("wifi"))).unwrap();
    m.add_feature(feature("F1", "S1", &["bright"])).unwrap();
    m.add_feature(feature("F2", "S2", &["bright", "far"])).unwrap();
    m.add_feature(feature("F3", "S9", &["far"])).unwrap();
    m
}

fn target(select: FeatureSelector, payload: Option<Value>) -> Targetted<FeatureSelector, Option<Value>> {
    Targetted { select, payload }
}

fn tagged(name: &str) -> FeatureSelector {
    FeatureSelector::new().with_tags(&[TagId::new(name)])
}

fn brief(calls: &[Call]) -> Vec<(String, Option<String>, Option<Value>)> {
    calls
        .iter()
        .map(|c| {
            (
                c.feature.as_str().to_string(),
                c.adapter.as_ref().map(|a| a.as_str().to_string()),
                c.payload,
            )
        })
        .collect()
}

#[test]
fn a_feature_that_two_targets_accept_gets_one_call() {
    let api = API::new(house());
    let request: TargetMap<FeatureSelector, Option<Value>> = vec![
        target(tagged("far"), Some(Value::Integer(1))),
        target(tagged("bright"), Some(Value::Integer(2))),
    ];
    let calls = api.place_method_call(MethodCall::Send, request, User::Id(7)).unwrap();
    assert_eq!(
        brief(&calls),
        vec![
            ("F2".to_string(), Some("wifi".to_string()), Some(Value::Integer(1))),
            ("F3".to_string(), None, Some(Value::Integer(1))),
            ("F1".to_string(), Some("zigbee".to_string()), Some(Value::Integer(2))),
        ]
    );
    for call in &calls {
        assert_eq!(call.method, MethodCall::Send);
        assert_eq!(call.user, User::Id(7));
    }
}

#[test]
fn a_call_without_targets_or_matches_asks_nothing() {
    let api = API::new(house());
    assert!(api.place_method_call(MethodCall::Fetch, vec![], User::Anonymous).unwrap().is_empty());
    let request = vec![target(tagged("cellar"), None)];
    assert!(api.place_method_call(MethodCall::Fetch, request, User::Anonymous).unwrap().is_empty());
}

#[test]
fn a_fetch_carries_no_payload_if_none_is_given() {
    let m = house();
    let request = vec![target(FeatureSelector::new().with_id(FeatureId::new("F1")).unwrap(), None)];
    let calls = m.place_method_call(MethodCall::Fetch, &request, User::Anonymous).unwrap();
    assert_eq!(brief(&calls), vec![("F1".to_string(), Some("zigbee".to_string()), None)]);
    assert_eq!(calls[0].method, MethodCall::Fetch);
    assert_eq!(calls[0].user, User::Anonymous);
}

#[test]
fn each_feature_has_a_result_of_its_own() {
    let m = house();
    let request = vec![target(tagged("bright"), None)];
    let calls = m.place_method_call(MethodCall::Fetch, &request, User::Anonymous).unwrap();
    let outcomes = vec![
        Err(AdapterError { message: "unreachable".to_string() }),
        Ok(Some(Value::Integer(3))),
    ];
    let results = pair_results(&calls, outcomes).unwrap();
    assert_eq!(results.len(), 2);
    assert_eq!(results[0].0.as_str(), "F1");
    match &results[0].1 {
        Err(e) => assert_eq!(e.message, "unreachable"),
        other => panic!("unexpected result {:?}", other),
    }
    assert_eq!(results[1].0.as_str(), "F2");
    match &results[1].1 {
        Ok(v) => assert_eq!(*v, Some(Value::Integer(3))),
        other => panic!("unexpected result {:?}", other),
    }
}

#[test]
fn outcomes_must_be_as_many_as_calls() {
    let m = house();
    let request = vec![target(tagged("bright"), None)];
    let calls = m.place_method_call(MethodCall::Fetch, &request, User::Anonymous).unwrap();
    assert!(pair_results(&calls, vec![Ok(None)]).is_none());
    assert!(pair_results(&calls, vec![Ok(None), Ok(None), Ok(None)]).is_none());
    assert_eq!(pair_results(&Vec::new(), vec![]).map(|r| r.len()), Some(0));
}

#[test]
fn a_call_to_everything_is_refused() {
    let api = API::new(house());
    let request = vec![target(FeatureSelector::new(), Some(Value::Integer(1)))];
    let refused = api.place_method_call(MethodCall::Send, request, User::Anonymous);
    assert_eq!(refused.err(), Some(ConfigurationError::EmptySelector));
    let request = vec![target(tagged("bright"), None), target(FeatureSelector::new(), None)];
    let refused = api.place_method_call(MethodCall::Fetch, request, User::Anonymous);
    assert_eq!(refused.err(), Some(ConfigurationError::EmptySelector));
}
