use wander::preludes::common;
use wander::{NoHostType, WanderValue, run, write_integer, write_string};

#[test]
fn core_eq_compares_values() {
    assert_eq!(
        run("Core.eq 5 5", &mut common::<NoHostType>()).unwrap(),
        WanderValue::Boolean(true)
    );
    assert_eq!(
        run("Core.eq 5 6", &mut common::<NoHostType>()).unwrap(),
        WanderValue::Boolean(false)
    );
}

#[test]
fn assert_eq_fails_on_difference() {
    assert_eq!(
        run("Assert.assertEq 1 1", &mut common::<NoHostType>()).unwrap(),
        WanderValue::Nothing
    );
    let res = run("Assert.assertEq 1 2", &mut common::<NoHostType>());
    assert_eq!(res.unwrap_err().0, "Assertion failed!");
}

#[test]
fn list_at_indexes() {
    assert_eq!(
        run("List.at 1 [10 20 30]", &mut common::<NoHostType>()).unwrap(),
        WanderValue::Int(20)
    );
    let res = run("List.at 5 [10]", &mut common::<NoHostType>());
    assert!(res.is_err());
}

#[test]
fn unknown_name_reports_resolution_error() {
    let res = run("missingThing", &mut common::<NoHostType>());
    assert_eq!(res.unwrap_err().0, "could not resolve name: missingThing");
}

#[test]
fn bound_names_lists_hosts_and_scopes() {
    let bindings = common::<NoHostType>();
    let names = bindings.bound_names();
    assert!(names.iter().any(|n| n == "Core.eq"));
    assert!(names.iter().any(|n| n == "Bool.and"));
    assert!(names.iter().any(|n| n == "List.at"));
}

#[test]
fn environment_reports_registered_metadata() {
    let bindings = common::<NoHostType>();
    let env = bindings.environment();
    assert_eq!(env.len(), 5);
    assert_eq!(env[0].name, "Core.eq");
    assert_eq!(env[4].name, "List.at");
    assert_eq!(env[2].parameters.len(), 2);
}

#[test]
fn write_helpers_render_primitives() {
    assert_eq!(write_integer(&-42), "-42");
    assert_eq!(write_integer(&0), "0");
    assert_eq!(write_string("a\nb"), "\"a\\nb\"");
    assert_eq!(write_string("q\"q"), "\"q\\\"q\"");
}
