use wander::preludes::common;
use wander::{NoHostType, WanderValue, run, write_value};

#[test]
fn basic_record() {
    let input = "(a: 24)";
    let res = run(input, &mut common::<NoHostType>()).unwrap();
    let res = write_value(&res);
    let res = run(&res, &mut common::<NoHostType>()).unwrap();
    let expected = WanderValue::Record(vec![("a".to_owned(), WanderValue::Int(24))]);
    assert_eq!(res, expected);
}

#[test]
fn missing_record_field_access() {
    let input = "val x = (a: 24 b: true) x.c";
    let res = run(input, &mut common::<NoHostType>());
    assert!(res.is_err());
}

#[test]
fn nested_missing_record_field_access() {
    let input = "val x = (a: 24 b: (a: [], b: (c: 45))) x.b.b.d";
    let res = run(input, &mut common::<NoHostType>());
    assert!(res.is_err());
}

#[test]
fn nested_missing_record_field_access2() {
    let input = "val x = (a: 24 b: (a: [], b: (c: 45))) x.c.b.d";
    let res = run(input, &mut common::<NoHostType>());
    assert!(res.is_err());
}

#[test]
fn record_field_access() {
    let input = "let val x = (a: 24 b: true) in x.b end";
    let res = run(input, &mut common::<NoHostType>()).unwrap();
    assert_eq!(res, WanderValue::Boolean(true));
}

#[test]
fn nested_record_field_access() {
    let input = "let val x = (a: 45 b: (a: 46)) in x.b.a end";
    let res = run(input, &mut common::<NoHostType>()).unwrap();
    assert_eq!(res, WanderValue::Int(46));
}

#[test]
fn missing_field_is_a_field_error() {
    let input = "let val x = (a: 24) in x.c end";
    let res = run(input, &mut common::<NoHostType>());
    assert_eq!(res.unwrap_err().0, "record has no field: c");
}

#[test]
fn field_access_into_non_record_is_its_own_error() {
    let input = "let val x = 5 in x.c end";
    let res = run(input, &mut common::<NoHostType>());
    assert_eq!(
        res.unwrap_err().0,
        "cannot access a field of a value that is not a record: x.c"
    );
}

#[test]
fn duplicate_record_fields_last_write_wins() {
    let res = run("(a: 1 a: 2)", &mut common::<NoHostType>()).unwrap();
    assert_eq!(
        res,
        WanderValue::Record(vec![("a".to_owned(), WanderValue::Int(2))])
    );
}

#[test]
fn empty_braced_record_round_trips() {
    let v = run("{}", &mut common::<NoHostType>()).unwrap();
    assert_eq!(v, WanderValue::Record(vec![]));
    assert_eq!(write_value(&v), "{}");
    let again = run(&write_value(&v), &mut common::<NoHostType>()).unwrap();
    assert_eq!(v, again);
}

#[test]
fn braced_record_form_parses_too() {
    let res = run("{a: 24}", &mut common::<NoHostType>()).unwrap();
    assert_eq!(
        res,
        WanderValue::Record(vec![("a".to_owned(), WanderValue::Int(24))])
    );
}
