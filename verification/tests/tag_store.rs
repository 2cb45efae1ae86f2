use foxbox_taxonomy::ids::{AdapterId, CapabilityId, FeatureId, ServiceId, TagId};
use foxbox_taxonomy::json::{Json, Member};
use foxbox_taxonomy::manager::AdapterManager;
use foxbox_taxonomy::parse::{Field, ParseError};
use foxbox_taxonomy::selector::{FeatureSelector, ServiceSelector};
use foxbox_taxonomy::services::{Feature, Mechanism, Service};
use foxbox_taxonomy::tag_store::TagStore;
use foxbox_taxonomy::tags::TagSet;

fn tags(names: &[&str]) -> Vec<TagId> {
    names.iter().map(|n| TagId::new(n)).collect()
}

fn sorted(set: &TagSet) -> Vec<String> {
    let mut v: Vec<String> = set.to_vec().iter().map(|t| t.as_str().to_string()).collect();
    v.sort();
    v
}

fn member(name: &str, items: &[&str]) -> Member {
    Member {
        name: name.to_string(),
        value: Json::Array(items.iter().map(|s| Json::Text(s.to_string())).collect()),
    }
}

#[test]
fn the_store_keeps_tags_by_id() {
    let mut store = TagStore::new();
    assert!(store.tags_of("a").is_empty());
    store.add_tags("a", &tags(&["x", "y"]));
    store.add_tags("b", &tags(&["z"]));
    store.add_tags("a", &tags(&["y", "w"]));
    assert_eq!(sorted(&store.tags_of("a")), vec!["w", "x", "y"]);
    assert_eq!(sorted(&store.tags_of("b")), vec!["z"]);
    store.remove_tags("a", &tags(&["x", "nothing"]));
    assert_eq!(sorted(&store.tags_of("a")), vec!["w", "y"]);
    store.remove_tags("c", &tags(&["x"]));
    assert!(store.tags_of("c").is_empty());
}

#[test]
fn the_store_is_written_as_a_flat_object_and_read_back() {
    let mut store = TagStore::new();
    store.add_tags("service 1", &tags(&["x", "y"]));
    store.add_tags("feature 1", &tags(&["z"]));
    store.add_tags("bare", &[]);
    let written = store.to_json();
    match &written {
        Json::Object(members) => {
            assert_eq!(members.len(), 3);
            assert_eq!(members[0].name, "service 1");
            match &members[0].value {
                Json::Array(items) => assert_eq!(items.len(), 2),
                other => panic!("unexpected value {:?}", other),
            }
            assert_eq!(members[1].name, "feature 1");
            assert_eq!(members[2].name, "bare");
        },
        other => panic!("unexpected document {:?}", other),
    }
    let read = TagStore::from_json(&written).unwrap();
    assert_eq!(sorted(&read.tags_of("service 1")), vec!["x", "y"]);
    assert_eq!(sorted(&read.tags_of("feature 1")), vec!["z"]);
    assert!(read.tags_of("bare").is_empty());
    assert!(read.tags_of("other").is_empty());
}

#[test]
fn reading_a_store_keeps_the_first_of_two_members_with_one_name() {
    let source = Json::Object(vec![member("a", &["x"]), member("a", &["y"]), member("b", &[])]);
    let store = TagStore::from_json(&source).unwrap();
    assert_eq!(sorted(&store.tags_of("a")), vec!["x"]);
}

#[test]
fn a_store_that_cannot_be_read() {
    assert_eq!(TagStore::from_json(&Json::Null).err(), Some(ParseError::NotAnObject));
    assert_eq!(TagStore::from_json(&Json::Array(vec![])).err(), Some(ParseError::NotAnObject));
    let source = Json::Object(vec![
        member("a", &["x"]),
        Member { name: "b".to_string(), value: Json::Text("x".to_string()) },
    ]);
    assert_eq!(TagStore::from_json(&source).err(), Some(ParseError::WrongType(Field::Tags)));
    let source = Json::Object(vec![Member {
        name: "a".to_string(),
        value: Json::Array(vec![Json::Integer(1)]),
    }]);
    assert_eq!(TagStore::from_json(&source).err(), Some(ParseError::WrongType(Field::Tags)));
    assert!(TagStore::from_json(&Json::Object(vec![])).is_ok());
}

#[test]
fn kept_tags_are_merged_at_registration() {
    let mut store = TagStore::new();
    store.add_tags("S1", &tags(&["kept"]));
    store.add_tags("F1", &tags(&["marked"]));
    let mut manager = AdapterManager::new(store);
    let mut s = Service::new(ServiceId::new("S1"), AdapterId::new("a"));
    s.tags = TagSet::from_slice(&tags(&["own"]));
    manager.register_service(s).unwrap();
    manager.register_service(Service::new(ServiceId::new("S2"), AdapterId::new("a"))).unwrap();
    manager
        .add_feature(Feature::new(
            FeatureId::new("F1"),
            ServiceId::new("S1"),
            CapabilityId::new("light"),
            Mechanism::Getter,
        ))
        .unwrap();
    let records = manager.catalog().services();
    assert_eq!(sorted(&records[0].tags), vec!["kept", "own"]);
    assert!(records[1].tags.is_empty());
    assert_eq!(sorted(&manager.catalog().features()[0].tags), vec!["marked"]);
    // The store itself keeps what was given by hand only.
    assert_eq!(sorted(&manager.tags().tags_of("S1")), vec!["kept"]);
}

#[test]
fn tag_edits_are_written_through_to_the_store() {
    let mut manager = AdapterManager::new(TagStore::new());
    manager.register_service(Service::new(ServiceId::new("S1"), AdapterId::new("a"))).unwrap();
    manager.register_service(Service::new(ServiceId::new("S2"), AdapterId::new("a"))).unwrap();
    manager
        .add_feature(Feature::new(
            FeatureId::new("F1"),
            ServiceId::new("S1"),
            CapabilityId::new("light"),
            Mechanism::Getter,
        ))
        .unwrap();
    let one = vec![ServiceSelector::new().with_id(ServiceId::new("S1")).unwrap()];
    assert_eq!(manager.add_service_tags(&one, &tags(&["a", "b"])), Ok(1));
    assert_eq!(sorted(&manager.tags().tags_of("S1")), vec!["a", "b"]);
    assert!(manager.tags().tags_of("S2").is_empty());
    assert_eq!(manager.remove_service_tags(&one, &tags(&["a"])), Ok(1));
    assert_eq!(sorted(&manager.tags().tags_of("S1")), vec!["b"]);
    let lights = vec![FeatureSelector::new().with_id(FeatureId::new("F1")).unwrap()];
    assert_eq!(manager.add_feature_tags(&lights, &tags(&["c"])), Ok(1));
    assert_eq!(sorted(&manager.tags().tags_of("F1")), vec!["c"]);
    assert_eq!(manager.remove_feature_tags(&lights, &tags(&["c"])), Ok(1));
    assert!(manager.tags().tags_of("F1").is_empty());

    // What was written survives a restart.
    let written = manager.tags().to_json();
    let mut restarted = AdapterManager::new(TagStore::from_json(&written).unwrap());
    restarted.register_service(Service::new(ServiceId::new("S1"), AdapterId::new("a"))).unwrap();
    assert_eq!(sorted(&restarted.catalog().services()[0].tags), vec!["b"]);
}
