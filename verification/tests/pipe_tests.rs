use wander::interpreter::Expression;
use wander::lexer::tokenize_and_filter;
use wander::parser::{Element, parse};
use wander::preludes::common;
use wander::translation::translate;
use wander::{NoHostType, WanderValue, introspect, run};

fn parse_str(s: &str) -> Element {
    parse(tokenize_and_filter(s).unwrap()).unwrap()
}

#[test]
fn parse_forward_value_to_name() {
    let res = introspect("false >> not", &common::<NoHostType>()).unwrap();
    let expected = Element::Grouping(vec![
        Element::Grouping(vec![Element::Boolean(false)]),
        Element::Pipe,
        Element::Grouping(vec![Element::Name("not".to_owned())]),
    ]);
    assert_eq!(res.element, expected);
    let expected = Expression::Application(vec![
        Expression::Name("not".to_owned()),
        Expression::Boolean(false),
    ]);
    assert_eq!(res.expression, expected);
}

#[test]
fn parse_forward_value_to_application() {
    let res = parse_str("false >> Bool.and true");
    let expected = Element::Grouping(vec![
        Element::Grouping(vec![Element::Boolean(false)]),
        Element::Pipe,
        Element::Grouping(vec![
            Element::Name("Bool.and".to_owned()),
            Element::Boolean(true),
        ]),
    ]);
    assert_eq!(res, expected);
    let res = translate(res).unwrap();
    let expected = Expression::Application(vec![
        Expression::Name("Bool.and".to_owned()),
        Expression::Boolean(true),
        Expression::Boolean(false),
    ]);
    assert_eq!(res, expected);
}

#[test]
fn parse_forward_application_to_application() {
    let res = parse_str("Bool.not false >> Bool.and true");
    let expected = Element::Grouping(vec![
        Element::Grouping(vec![
            Element::Name("Bool.not".to_owned()),
            Element::Boolean(false),
        ]),
        Element::Pipe,
        Element::Grouping(vec![
            Element::Name("Bool.and".to_owned()),
            Element::Boolean(true),
        ]),
    ]);
    assert_eq!(res, expected);
    let res = translate(res).unwrap();
    let expected = Expression::Application(vec![
        Expression::Name("Bool.and".to_owned()),
        Expression::Boolean(true),
        Expression::Application(vec![
            Expression::Name("Bool.not".to_owned()),
            Expression::Boolean(false),
        ]),
    ]);
    assert_eq!(res, expected);
}

#[test]
fn run_forward_value_to_name() {
    let res = run("false >> Bool.not", &mut common::<NoHostType>());
    let expected = Ok(WanderValue::Boolean(true));
    assert_eq!(res, expected);
}

#[test]
fn run_forward_value_to_application() {
    let res = run("false >> Bool.and true", &mut common::<NoHostType>());
    let expected = Ok(WanderValue::Boolean(false));
    assert_eq!(res, expected);
}

#[test]
fn run_forward_application_to_application() {
    let res = run(
        "Bool.not false >> Bool.and true",
        &mut common::<NoHostType>(),
    );
    let expected = Ok(WanderValue::Boolean(true));
    assert_eq!(res, expected);
}

#[test]
fn run_multiple_forwards() {
    let res = run(
        "Bool.not false >> Bool.and true >> Bool.not",
        &mut common::<NoHostType>(),
    );
    let expected = Ok(WanderValue::Boolean(false));
    assert_eq!(res, expected);
}

#[test]
fn trailing_forward_is_an_error() {
    let res = run("false >>", &mut common::<NoHostType>());
    assert_eq!(
        res.unwrap_err().0,
        "invalid pipe: a forward marker must be followed by a grouping"
    );
}
