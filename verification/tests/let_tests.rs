use wander::preludes::common;
use wander::{NoHostType, WanderValue, run};

#[test]
fn basic_let() {
    let input = "let val x = 5 in x end";
    let res = run(input, &mut common::<NoHostType>()).unwrap();
    let expected: WanderValue<NoHostType> = WanderValue::Int(5);
    assert_eq!(res, expected);
}

#[test]
fn basic_let_multiple_vals() {
    // Sequential declarations may use earlier ones, and a partially applied
    // host function saturates through a bare-name call: `y` is `Bool.and`
    // applied to `true`, and `y x` supplies the second `true`.
    let input = "let val x = true val y = Bool.and x in y x end";
    let res = run(input, &mut common::<NoHostType>()).unwrap();
    let expected: WanderValue<NoHostType> = WanderValue::Boolean(true);
    assert_eq!(res, expected);
}

#[test]
fn nested_lets() {
    let input = r#"
    let 
        val x = true 
        val y = let 
            val y = Bool.and(x false) 
            in Bool.and(x y) 
        end 
        in y 
    end"#;
    let res = run(input, &mut common::<NoHostType>()).unwrap();
    let expected: WanderValue<NoHostType> = WanderValue::Boolean(false);
    assert_eq!(res, expected);
}

#[test]
fn let_without_in_is_nothing() {
    let input = "let val x = 1";
    let res = run(input, &mut common::<NoHostType>()).unwrap();
    let expected: WanderValue<NoHostType> = WanderValue::Nothing;
    assert_eq!(res, expected);
}

#[test]
fn scope_is_popped_after_let() {
    let mut bindings = common::<NoHostType>();
    let res = run("let val x = 5 in x end", &mut bindings).unwrap();
    assert_eq!(res, WanderValue::Int(5));
    let outer = run("x", &mut bindings);
    assert!(outer.is_err());
    assert_eq!(outer.unwrap_err().0, "could not resolve name: x");
}
