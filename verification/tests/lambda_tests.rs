use wander::preludes::common;
use wander::{NoHostType, WanderValue, run};

#[test]
fn currying_twice_with_lambda() {
    let input = r#"
        let
            val and3 = \x y z -> Bool.and x (Bool.and y z)
            val and = and3 true 
            val isTrue = and true
        in
            and (isTrue true) (isTrue false)
        end
    "#;
    let res = run(input, &mut common::<NoHostType>()).unwrap();
    let expected: WanderValue<NoHostType> = WanderValue::Boolean(false);
    assert_eq!(res, expected);
}

#[test]
fn saturated_and_curried_application_agree() {
    let all_at_once = run("(\\x y -> x) 1 2", &mut common::<NoHostType>()).unwrap();
    let one_at_a_time = run("((\\x y -> x) 1) 2", &mut common::<NoHostType>()).unwrap();
    assert_eq!(all_at_once, WanderValue::Int(1));
    assert_eq!(one_at_a_time, WanderValue::Int(1));
}

#[test]
fn over_applying_a_host_function_is_an_error() {
    let res = run("Bool.and true true true", &mut common::<NoHostType>());
    assert!(res.is_err());
    assert_eq!(res.unwrap_err().0, "invalid function call");
}

#[test]
fn short_circuit_conditional() {
    let res = run(
        "if true then 1 else thisNameIsUnbound end",
        &mut common::<NoHostType>(),
    )
    .unwrap();
    assert_eq!(res, WanderValue::Int(1));
}

#[test]
fn conditional_guard_must_be_boolean() {
    let res = run("if 1 then 2 else 3 end", &mut common::<NoHostType>());
    assert!(res.is_err());
    assert_eq!(res.unwrap_err().0, "conditional guard is not a boolean value");
}

#[test]
fn partial_application_returns_a_lambda() {
    let res = run("(\\x y -> 31) 5", &mut common::<NoHostType>()).unwrap();
    assert!(matches!(res, WanderValue::Lambda(_, _, _, _)));
}
