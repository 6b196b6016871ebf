use wander::preludes::common;
use wander::{NoHostType, WanderValue, run, write_value};

#[test]
fn read_write_test_strings() {
    let input = vec![
        "\"\"".to_owned(),
        "\"hello, world\"".to_owned(),
        "\"hello,\\nworld\"".to_owned(),
    ];
    let res: Vec<WanderValue<NoHostType>> = input
        .iter()
        .map(|s| run(s, &mut common()).unwrap())
        .collect();
    let res: Vec<String> = res.iter().map(|s| write_value(s)).collect();
    assert_eq!(input, res);
}

#[test]
fn boolean_literal_round_trip() {
    let v = run("true", &mut common::<NoHostType>()).unwrap();
    let again = run(&write_value(&v), &mut common::<NoHostType>()).unwrap();
    assert_eq!(v, again);
}

#[test]
fn integer_literal_round_trip() {
    for s in ["0", "7", "-100", "9223372036854775807", "-9223372036854775808"] {
        let v = run(s, &mut common::<NoHostType>()).unwrap();
        let again = run(&write_value(&v), &mut common::<NoHostType>()).unwrap();
        assert_eq!(v, again);
    }
}

#[test]
fn string_escapes_evaluate() {
    let v = run("\"a\\tb\\\\c\\\"d\"", &mut common::<NoHostType>()).unwrap();
    assert_eq!(v, WanderValue::String("a\tb\\c\"d".to_owned()));
}

#[test]
fn unterminated_string_is_a_lex_error() {
    let res = run("\"abc", &mut common::<NoHostType>());
    assert_eq!(res.unwrap_err().0, "unterminated string literal");
}

#[test]
fn invalid_escape_is_a_lex_error() {
    let res = run("\"a\\qb\"", &mut common::<NoHostType>());
    assert_eq!(res.unwrap_err().0, "invalid escape sequence in string literal");
}

#[test]
fn oversized_integer_is_a_lex_error() {
    let res = run("9223372036854775808", &mut common::<NoHostType>());
    assert_eq!(res.unwrap_err().0, "integer literal out of range");
}

#[test]
fn stray_character_is_a_lex_error() {
    let res = run("5 @ 6", &mut common::<NoHostType>());
    assert_eq!(res.unwrap_err().0, "unexpected character in script");
}

#[test]
fn nothing_renders_as_its_keyword() {
    let v = run("nothing", &mut common::<NoHostType>()).unwrap();
    assert_eq!(write_value(&v), "nothing");
    let q = run("?", &mut common::<NoHostType>()).unwrap();
    assert_eq!(q, WanderValue::Nothing);
}

#[test]
fn collections_render_in_source_form() {
    let v = run("[1 2 3]", &mut common::<NoHostType>()).unwrap();
    assert_eq!(write_value(&v), "[1 2 3]");
    let t = run("'(1 true)", &mut common::<NoHostType>()).unwrap();
    assert_eq!(write_value(&t), "'(1 true)");
    let s = run("#(1 2 1)", &mut common::<NoHostType>()).unwrap();
    assert_eq!(write_value(&s), "#(1 2)");
}

#[test]
fn set_members_deduplicate_by_value() {
    let s: WanderValue<NoHostType> = run("#(1 2 1 2 3)", &mut common()).unwrap();
    assert_eq!(
        s,
        WanderValue::SetOf(vec![
            WanderValue::Int(1),
            WanderValue::Int(2),
            WanderValue::Int(3),
        ])
    );
}
