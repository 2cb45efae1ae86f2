use foxbox_taxonomy::exactly::{ConfigurationError, Exactly};
use foxbox_taxonomy::ids::{CapabilityId, FeatureId, ServiceId, TagId};
use foxbox_taxonomy::json::{Json, Member};
use foxbox_taxonomy::parse::{Field, ParseError};
use foxbox_taxonomy::range::Range;
use foxbox_taxonomy::selector::{FeatureSelector, ServiceSelector, SimpleFeatureSelector};
use foxbox_taxonomy::value::{OnOff, OpenClosed, Value};

fn text(s: &str) -> Json {
    Json::Text(s.to_string())
}

fn object(members: Vec<(&str, Json)>) -> Json {
    Json::Object(
        members.into_iter().map(|(name, value)| Member { name: name.to_string(), value }).collect(),
    )
}

fn texts(items: &[&str]) -> Json {
    Json::Array(items.iter().map(|s| text(s)).collect())
}

#[test]
fn a_service_selector_with_all_members() {
    let source = object(vec![
        ("id", text("service 1")),
        ("tags", texts(&["tag 1", "tag 2"])),
        ("features", Json::Array(vec![object(vec![("implements", text("light"))])])),
    ]);
    let s = ServiceSelector::parse(&source).unwrap();
    assert_eq!(s.id, Exactly::Exactly(ServiceId::new("service 1")));
    assert_eq!(s.tags.len(), 2);
    assert!(s.tags.contains(&TagId::new("tag 1")));
    assert!(s.tags.contains(&TagId::new("tag 2")));
    assert_eq!(s.features.len(), 1);
    assert_eq!(s.features[0].implements, Exactly::Exactly(CapabilityId::new("light")));
    assert_eq!(s.features[0].id, Exactly::Always);
}

#[test]
fn absent_members_constrain_nothing() {
    let s = ServiceSelector::parse(&object(vec![("tags", texts(&["door"]))])).unwrap();
    assert_eq!(s.id, Exactly::Always);
    assert_eq!(s.features.len(), 0);
    let f = FeatureSelector::parse(&object(vec![("id", text("f"))])).unwrap();
    assert_eq!(f.id, Exactly::Exactly(FeatureId::new("f")));
    assert!(f.tags.is_empty());
    assert_eq!(f.implements, Exactly::Always);
    assert_eq!(f.services.len(), 0);
}

#[test]
fn an_object_without_known_members_is_refused() {
    assert_eq!(ServiceSelector::parse(&object(vec![])).err(), Some(ParseError::EmptyObject));
    assert_eq!(FeatureSelector::parse(&object(vec![])).err(), Some(ParseError::EmptyObject));
    assert_eq!(SimpleFeatureSelector::parse(&object(vec![])).err(), Some(ParseError::EmptyObject));
    let unknown = object(vec![("colour", text("red"))]);
    assert_eq!(ServiceSelector::parse(&unknown).err(), Some(ParseError::EmptyObject));
    // `services` says nothing to a simple feature selector, `implements`
    // nothing to a service selector.
    let services = object(vec![("services", Json::Array(vec![]))]);
    assert_eq!(SimpleFeatureSelector::parse(&services).err(), Some(ParseError::EmptyObject));
    let implements = object(vec![("implements", text("x"))]);
    assert_eq!(ServiceSelector::parse(&implements).err(), Some(ParseError::EmptyObject));
}

#[test]
fn members_that_constrain_nothing_are_refused() {
    let empty = ParseError::Configuration(ConfigurationError::EmptySelector);
    let source = object(vec![("tags", texts(&[]))]);
    assert_eq!(ServiceSelector::parse(&source).err(), Some(empty));
    assert_eq!(FeatureSelector::parse(&source).err(), Some(empty));
    assert_eq!(SimpleFeatureSelector::parse(&source).err(), Some(empty));
    let source = object(vec![("features", Json::Array(vec![]))]);
    assert_eq!(ServiceSelector::parse(&source).err(), Some(empty));
    let source = object(vec![("services", Json::Array(vec![]))]);
    assert_eq!(FeatureSelector::parse(&source).err(), Some(empty));
}

#[test]
fn what_is_no_object_is_refused() {
    for source in [Json::Null, Json::Bool(true), Json::Integer(1), Json::Fraction, text("x"), texts(&[])] {
        assert_eq!(ServiceSelector::parse(&source).err(), Some(ParseError::NotAnObject));
        assert_eq!(FeatureSelector::parse(&source).err(), Some(ParseError::NotAnObject));
        assert_eq!(SimpleFeatureSelector::parse(&source).err(), Some(ParseError::NotAnObject));
        assert_eq!(Range::parse(&source).err(), Some(ParseError::NotAnObject));
        assert_eq!(Value::parse(&source).err(), Some(ParseError::NotAnObject));
    }
}

#[test]
fn members_of_the_wrong_type_are_refused() {
    let source = object(vec![("id", Json::Integer(3))]);
    assert_eq!(ServiceSelector::parse(&source).err(), Some(ParseError::WrongType(Field::Id)));
    assert_eq!(FeatureSelector::parse(&source).err(), Some(ParseError::WrongType(Field::Id)));
    let source = object(vec![("tags", text("door"))]);
    assert_eq!(ServiceSelector::parse(&source).err(), Some(ParseError::WrongType(Field::Tags)));
    let source = object(vec![("tags", Json::Array(vec![text("door"), Json::Null]))]);
    assert_eq!(FeatureSelector::parse(&source).err(), Some(ParseError::WrongType(Field::Tags)));
    let source = object(vec![("features", text("x"))]);
    assert_eq!(ServiceSelector::parse(&source).err(), Some(ParseError::WrongType(Field::Features)));
    let source = object(vec![("services", Json::Bool(false))]);
    assert_eq!(FeatureSelector::parse(&source).err(), Some(ParseError::WrongType(Field::Services)));
    let source = object(vec![("implements", Json::Null)]);
    assert_eq!(
        FeatureSelector::parse(&source).err(),
        Some(ParseError::WrongType(Field::Implements))
    );
    let source = object(vec![("capability", Json::Null)]);
    assert_eq!(
        SimpleFeatureSelector::parse(&source).err(),
        Some(ParseError::WrongType(Field::Capability))
    );
}

#[test]
fn the_first_member_in_reading_order_decides_the_error() {
    let source = object(vec![("tags", text("x")), ("id", Json::Null)]);
    assert_eq!(ServiceSelector::parse(&source).err(), Some(ParseError::WrongType(Field::Id)));
    // A feature selector reads `services` before `id`.
    let source = object(vec![("id", Json::Null), ("services", Json::Null)]);
    assert_eq!(FeatureSelector::parse(&source).err(), Some(ParseError::WrongType(Field::Services)));
}

#[test]
fn nested_selectors_are_read_and_their_errors_passed_on() {
    let source = object(vec![(
        "services",
        Json::Array(vec![
            object(vec![("id", text("s1"))]),
            object(vec![(
                "features",
                Json::Array(vec![object(vec![("tags", texts(&["bright"]))])]),
            )]),
        ]),
    )]);
    let f = FeatureSelector::parse(&source).unwrap();
    assert_eq!(f.services.len(), 2);
    assert_eq!(f.services[0].id, Exactly::Exactly(ServiceId::new("s1")));
    assert_eq!(f.services[1].features.len(), 1);
    assert!(f.services[1].features[0].tags.contains(&TagId::new("bright")));

    let source = object(vec![(
        "services",
        Json::Array(vec![object(vec![("id", text("s1"))]), object(vec![])]),
    )]);
    assert_eq!(FeatureSelector::parse(&source).err(), Some(ParseError::EmptyObject));
    let source = object(vec![("features", Json::Array(vec![Json::Null]))]);
    assert_eq!(ServiceSelector::parse(&source).err(), Some(ParseError::NotAnObject));
    let source = object(vec![(
        "features",
        Json::Array(vec![object(vec![("id", Json::Integer(1))]), Json::Null]),
    )]);
    assert_eq!(ServiceSelector::parse(&source).err(), Some(ParseError::WrongType(Field::Id)));
}

#[test]
fn implements_and_capability_state_one_condition() {
    let source = object(vec![("capability", text("light"))]);
    let f = FeatureSelector::parse(&source).unwrap();
    assert_eq!(f.implements, Exactly::Exactly(CapabilityId::new("light")));
    let source = object(vec![("implements", text("light")), ("capability", text("light"))]);
    let f = FeatureSelector::parse(&source).unwrap();
    assert_eq!(f.implements, Exactly::Exactly(CapabilityId::new("light")));
    let source = object(vec![("implements", text("light")), ("capability", text("heat"))]);
    assert_eq!(
        FeatureSelector::parse(&source).err(),
        Some(ParseError::Configuration(ConfigurationError::ConflictingConstraint))
    );
}

#[test]
fn the_first_of_two_members_with_one_name_counts() {
    let source = object(vec![("id", text("a")), ("id", text("b"))]);
    let s = ServiceSelector::parse(&source).unwrap();
    assert_eq!(s.id, Exactly::Exactly(ServiceId::new("a")));
}

#[test]
fn values_are_read_by_kind() {
    assert_eq!(Value::parse(&object(vec![("Unit", Json::Null)])), Ok(Value::Unit));
    assert_eq!(Value::parse(&object(vec![("OnOff", text("On"))])), Ok(Value::OnOff(OnOff::On)));
    assert_eq!(Value::parse(&object(vec![("OnOff", text("Off"))])), Ok(Value::OnOff(OnOff::Off)));
    assert_eq!(
        Value::parse(&object(vec![("OpenClosed", text("Open"))])),
        Ok(Value::OpenClosed(OpenClosed::Open))
    );
    assert_eq!(
        Value::parse(&object(vec![("OpenClosed", text("Closed"))])),
        Ok(Value::OpenClosed(OpenClosed::Closed))
    );
    assert_eq!(Value::parse(&object(vec![("Integer", Json::Integer(-4))])), Ok(Value::Integer(-4)));
}

#[test]
fn values_that_cannot_be_read() {
    let wrong = Err(ParseError::WrongType(Field::Value));
    assert_eq!(Value::parse(&object(vec![("Unit", text("x"))])), wrong);
    assert_eq!(Value::parse(&object(vec![("OnOff", text("on"))])), wrong);
    assert_eq!(Value::parse(&object(vec![("OnOff", Json::Bool(true))])), wrong);
    assert_eq!(Value::parse(&object(vec![("OpenClosed", text("Ajar"))])), wrong);
    assert_eq!(Value::parse(&object(vec![("Integer", Json::Fraction)])), wrong);
    assert_eq!(Value::parse(&object(vec![("Integer", text("4"))])), wrong);
    assert_eq!(Value::parse(&object(vec![("Colour", text("red"))])), Err(ParseError::UnknownName));
    assert_eq!(Value::parse(&object(vec![])), Err(ParseError::NotOneMember));
    assert_eq!(
        Value::parse(&object(vec![("Unit", Json::Null), ("Integer", Json::Integer(1))])),
        Err(ParseError::NotOneMember)
    );
}

fn whole(n: i64) -> Json {
    object(vec![("Integer", Json::Integer(n))])
}

#[test]
fn ranges_are_read_by_variant() {
    assert_eq!(Range::parse(&object(vec![("Leq", whole(3))])), Ok(Range::Leq(Value::Integer(3))));
    assert_eq!(Range::parse(&object(vec![("Geq", whole(3))])), Ok(Range::Geq(Value::Integer(3))));
    assert_eq!(Range::parse(&object(vec![("Eq", whole(3))])), Ok(Range::Eq(Value::Integer(3))));
    let bounds = object(vec![("max", whole(9)), ("min", whole(1))]);
    assert_eq!(
        Range::parse(&object(vec![("BetweenEq", bounds)])),
        Ok(Range::BetweenEq { min: Value::Integer(1), max: Value::Integer(9) })
    );
    let bounds = object(vec![("min", whole(1)), ("max", whole(9))]);
    assert_eq!(
        Range::parse(&object(vec![("OutOfStrict", bounds)])),
        Ok(Range::OutOfStrict { min: Value::Integer(1), max: Value::Integer(9) })
    );
    let leq = Range::parse(&object(vec![("Leq", object(vec![("OnOff", text("On"))]))]));
    assert_eq!(leq, Ok(Range::Leq(Value::OnOff(OnOff::On))));
}

#[test]
fn ranges_that_cannot_be_read() {
    assert_eq!(Range::parse(&object(vec![])), Err(ParseError::NotOneMember));
    assert_eq!(
        Range::parse(&object(vec![("Leq", whole(1)), ("Geq", whole(1))])),
        Err(ParseError::NotOneMember)
    );
    assert_eq!(Range::parse(&object(vec![("Near", whole(1))])), Err(ParseError::UnknownName));
    assert_eq!(Range::parse(&object(vec![("Leq", Json::Integer(1))])), Err(ParseError::NotAnObject));
    assert_eq!(
        Range::parse(&object(vec![("BetweenEq", object(vec![("max", whole(1))]))])),
        Err(ParseError::Missing(Field::Min))
    );
    assert_eq!(
        Range::parse(&object(vec![("OutOfStrict", object(vec![("min", whole(1))]))])),
        Err(ParseError::Missing(Field::Max))
    );
    assert_eq!(
        Range::parse(&object(vec![("BetweenEq", whole(1))])),
        Err(ParseError::Missing(Field::Min))
    );
    assert_eq!(
        Range::parse(&object(vec![("Eq", object(vec![("Integer", Json::Null)]))])),
        Err(ParseError::WrongType(Field::Value))
    );
}
