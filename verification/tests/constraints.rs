use foxbox_taxonomy::exactly::{ConfigurationError, Exactly};
use foxbox_taxonomy::ids::{FeatureId, Named, ServiceId, TagId};
use foxbox_taxonomy::tags::TagSet;

fn sid(name: &str) -> ServiceId {
    ServiceId::new(name)
}

#[test]
fn always_is_neutral() {
    let r = Exactly::Always.and(Exactly::Exactly(sid("a"))).unwrap();
    assert_eq!(r, Exactly::Exactly(sid("a")));
    let r = Exactly::Exactly(sid("a")).and(Exactly::Always).unwrap();
    assert_eq!(r, Exactly::Exactly(sid("a")));
    let r: Exactly<ServiceId> = Exactly::Always.and(Exactly::Always).unwrap();
    assert_eq!(r, Exactly::Always);
}

#[test]
fn never_absorbs() {
    let r = Exactly::Never.and(Exactly::Exactly(sid("a"))).unwrap();
    assert_eq!(r, Exactly::Never);
    let r = Exactly::Exactly(sid("a")).and(Exactly::Never).unwrap();
    assert_eq!(r, Exactly::Never);
    let r: Exactly<ServiceId> = Exactly::Always.and(Exactly::Never).unwrap();
    assert_eq!(r, Exactly::Never);
}

#[test]
fn equal_demands_compose() {
    let r = Exactly::Exactly(sid("a")).and(Exactly::Exactly(sid("a"))).unwrap();
    assert_eq!(r, Exactly::Exactly(sid("a")));
}

#[test]
fn different_demands_conflict() {
    let r = Exactly::Exactly(sid("a")).and(Exactly::Exactly(sid("b")));
    assert_eq!(r, Err(ConfigurationError::ConflictingConstraint));
}

#[test]
fn a_constraint_matches_as_its_state_says() {
    let always: Exactly<FeatureId> = Exactly::Always;
    let never: Exactly<FeatureId> = Exactly::Never;
    let one = Exactly::Exactly(FeatureId::new("f"));
    assert!(always.matches(&FeatureId::new("f")));
    assert!(!never.matches(&FeatureId::new("f")));
    assert!(one.matches(&FeatureId::new("f")));
    assert!(!one.matches(&FeatureId::new("g")));
    assert!(always.is_always());
    assert!(!one.is_always());
    assert_eq!(one.duplicate(), one);
}

#[test]
fn ids_compare_by_name() {
    assert!(sid("a").same(&sid("a")));
    assert!(!sid("a").same(&sid("b")));
    assert_eq!(sid("a").as_str(), "a");
    assert_eq!(sid("a").duplicate().as_str(), "a");
    assert_eq!(ServiceId::named("a"), sid("a"));
    assert_eq!(sid("a").clone(), sid("a"));
}

#[test]
fn a_tag_set_holds_each_tag_once() {
    let mut tags = TagSet::new();
    assert!(tags.is_empty());
    assert!(tags.insert(TagId::new("door")));
    assert!(!tags.insert(TagId::new("door")));
    assert!(tags.insert(TagId::new("lock")));
    assert_eq!(tags.len(), 2);
    assert!(tags.contains(&TagId::new("door")));
    assert!(!tags.contains(&TagId::new("window")));
    assert!(tags.remove(&TagId::new("door")));
    assert!(!tags.remove(&TagId::new("door")));
    assert_eq!(tags.len(), 1);
    assert!(!tags.contains(&TagId::new("door")));
}

#[test]
fn tag_sets_extend_subtract_and_unite() {
    let a = TagSet::from_slice(&[TagId::new("a"), TagId::new("b"), TagId::new("a")]);
    assert_eq!(a.len(), 2);
    let b = TagSet::from_slice(&[TagId::new("b"), TagId::new("c")]);
    let both = a.union(&b);
    assert_eq!(both.len(), 3);
    assert!(both.includes(&a));
    assert!(both.includes(&b));
    assert!(!a.includes(&b));
    assert!(a.includes(&TagSet::new()));
    let mut rest = both.clone();
    rest.subtract(&[TagId::new("a"), TagId::new("z")]);
    assert_eq!(rest.len(), 2);
    assert!(!rest.contains(&TagId::new("a")));
    let mut names: Vec<String> = rest.to_vec().iter().map(|t| t.as_str().to_string()).collect();
    names.sort();
    assert_eq!(names, vec!["b".to_string(), "c".to_string()]);
}
