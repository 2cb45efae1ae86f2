use foxbox_taxonomy::range::Range;
use foxbox_taxonomy::value::{Kind, OnOff, OpenClosed, Value};

fn whole(n: i64) -> Value {
    Value::Integer(n)
}

#[test]
fn leq_accepts_its_bound_and_what_is_below() {
    assert!(Range::Leq(whole(5)).contains(&whole(5)));
    assert!(Range::Leq(whole(5)).contains(&whole(-7)));
    assert!(!Range::Leq(whole(5)).contains(&whole(6)));
}

#[test]
fn geq_accepts_its_bound_and_what_is_above() {
    assert!(Range::Geq(whole(5)).contains(&whole(5)));
    assert!(Range::Geq(whole(5)).contains(&whole(i64::MAX)));
    assert!(!Range::Geq(whole(5)).contains(&whole(4)));
}

#[test]
fn eq_accepts_only_its_operand() {
    assert!(Range::Eq(whole(5)).contains(&whole(5)));
    assert!(!Range::Eq(whole(5)).contains(&whole(4)));
    assert!(Range::Eq(Value::Unit).contains(&Value::Unit));
    assert!(!Range::Eq(Value::OnOff(OnOff::On)).contains(&Value::OnOff(OnOff::Off)));
}

#[test]
fn between_is_inclusive_on_both_sides() {
    let range = Range::BetweenEq { min: whole(3), max: whole(8) };
    for v in [3, 4, 8] {
        assert!(range.contains(&whole(v)));
    }
    for v in [2, 9, i64::MIN, i64::MAX] {
        assert!(!range.contains(&whole(v)));
    }
}

#[test]
fn between_with_inverted_bounds_accepts_nothing() {
    let range = Range::BetweenEq { min: whole(10), max: whole(5) };
    for v in [i64::MIN, 0, 4, 5, 7, 10, 11, i64::MAX] {
        assert!(!range.contains(&whole(v)));
    }
    assert!(!range.contains(&Value::Unit));
}

#[test]
fn out_of_is_the_complement_of_between_within_a_kind() {
    let between = Range::BetweenEq { min: whole(3), max: whole(8) };
    let out_of = Range::OutOfStrict { min: whole(3), max: whole(8) };
    for v in -2..14 {
        assert_eq!(out_of.contains(&whole(v)), !between.contains(&whole(v)));
    }
    let between = Range::BetweenEq { min: whole(8), max: whole(3) };
    let out_of = Range::OutOfStrict { min: whole(8), max: whole(3) };
    for v in -2..14 {
        assert_eq!(out_of.contains(&whole(v)), !between.contains(&whole(v)));
    }
}

#[test]
fn out_of_is_strict() {
    let range = Range::OutOfStrict { min: whole(3), max: whole(8) };
    assert!(range.contains(&whole(2)));
    assert!(!range.contains(&whole(3)));
    assert!(!range.contains(&whole(8)));
    assert!(range.contains(&whole(9)));
}

#[test]
fn values_of_another_kind_are_never_accepted() {
    let others = [Value::Unit, Value::OnOff(OnOff::On), Value::OpenClosed(OpenClosed::Closed)];
    let ranges = [
        Range::Leq(whole(5)),
        Range::Geq(whole(5)),
        Range::Eq(whole(5)),
        Range::BetweenEq { min: whole(0), max: whole(9) },
        Range::OutOfStrict { min: whole(0), max: whole(9) },
    ];
    for range in ranges {
        for other in others {
            assert!(!range.contains(&other));
        }
    }
}

#[test]
fn switches_and_doors_are_ordered_as_declared() {
    let on = Value::OnOff(OnOff::On);
    let off = Value::OnOff(OnOff::Off);
    assert!(on.lt(&off));
    assert!(on.le(&off));
    assert!(!off.le(&on));
    assert!(on.le(&on));
    let open = Value::OpenClosed(OpenClosed::Open);
    let closed = Value::OpenClosed(OpenClosed::Closed);
    assert!(open.lt(&closed));
    assert!(!closed.lt(&open));
    assert!(Range::Leq(on).contains(&on));
    assert!(!Range::Leq(on).contains(&off));
    assert!(Range::Geq(open).contains(&closed));
}

#[test]
fn kinds_do_not_compare() {
    let on = Value::OnOff(OnOff::On);
    let open = Value::OpenClosed(OpenClosed::Open);
    assert!(!on.le(&open));
    assert!(!open.le(&on));
    assert!(!on.lt(&open));
    assert!(!on.same(&open));
    assert!(!Value::Unit.lt(&Value::Unit));
    assert!(Value::Unit.le(&Value::Unit));
    assert_eq!(on.kind(), Kind::OnOff);
    assert_eq!(open.kind(), Kind::OpenClosed);
    assert_eq!(Value::Unit.kind(), Kind::Unit);
    assert_eq!(whole(1).kind(), Kind::Integer);
}
