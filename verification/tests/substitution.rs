use fs_test_harness::json::{JsonValue, Number};
use fs_test_harness::string_map::StringMap;
use fs_test_harness::substitution::{is_truthy, parse_placeholder, value_to_string};
use fs_test_harness::Substitution;

fn text(s: &str) -> JsonValue {
    JsonValue::String(s.to_string())
}

fn number(n: u64) -> JsonValue {
    JsonValue::Number(Number::Unsigned(n))
}

fn object(fields: Vec<(&str, JsonValue)>) -> JsonValue {
    let mut map = StringMap::new();
    for (key, value) in fields {
        map.insert(key.to_string(), value);
    }
    JsonValue::Object(map)
}

fn fixture() -> Substitution {
    let mut flat = StringMap::new();
    flat.insert("binary".to_string(), "/usr/local/bin/myfs".to_string());
    flat.insert("image".to_string(), "/srv/images/test.img".to_string());
    flat.insert("drive".to_string(), "Z:".to_string());
    flat.insert("tools.fsck".to_string(), "fsck.myfs -fn".to_string());
    Substitution {
        flat,
        scenario: object(vec![
            ("image", text("/srv/images/test.img")),
            (
                "volume_params",
                object(vec![
                    ("size_mib", number(256)),
                    ("label", text("TEST")),
                    ("alloc_unit_size", number(4096)),
                ]),
            ),
            ("fixtures", JsonValue::Array(vec![object(vec![("name", text("a.txt"))])])),
        ]),
        step: object(vec![
            ("host", text("host")),
            ("op", text("format")),
            ("params", object(vec![("label", text("STEP-LABEL"))])),
            ("path", text("/hello.txt")),
        ]),
    }
}

#[test]
fn expands_flat_v1_tokens() {
    let s = fixture();
    assert_eq!(s.expand("ls {image} {drive}"), "ls /srv/images/test.img Z:");
    assert_eq!(s.expand("{binary} format"), "/usr/local/bin/myfs format");
    assert_eq!(s.expand("{tools.fsck} {image}"), "fsck.myfs -fn /srv/images/test.img");
}

#[test]
fn expands_dotted_scenario_paths() {
    let s = fixture();
    assert_eq!(
        s.expand("size={scenario.volume_params.size_mib} label={scenario.volume_params.label}"),
        "size=256 label=TEST"
    );
}

#[test]
fn expands_dotted_step_paths() {
    let s = fixture();
    assert_eq!(s.expand("--label {step.params.label}"), "--label STEP-LABEL");
    assert_eq!(s.expand("op={step.op} path={step.path}"), "op=format path=/hello.txt");
}

#[test]
fn optional_suffix_yields_empty_when_missing() {
    let s = fixture();
    assert_eq!(s.expand("--cluster {step.params.alloc_unit_size?}"), "--cluster ");
    assert_eq!(s.expand("--journal {step.params.journal_mode?}"), "--journal ");
}

#[test]
fn missing_required_path_collapses_to_empty() {
    let s = fixture();
    assert_eq!(s.expand("--unknown {step.params.nope}"), "--unknown ");
}

#[test]
fn unbalanced_brace_passes_through_literally() {
    let s = fixture();
    assert_eq!(s.expand("a { b"), "a { b");
    assert_eq!(s.expand("plain {3invalid}"), "plain {3invalid}");
}

#[test]
fn when_predicate_truthy_paths() {
    let s = fixture();
    assert!(s.evaluate_when("scenario.fixtures"));
    assert!(s.evaluate_when("scenario.volume_params.size_mib"));
    assert!(s.evaluate_when("step.op"));
}

#[test]
fn when_predicate_falsy_paths() {
    let s = fixture();
    assert!(!s.evaluate_when("scenario.does_not_exist"));
    assert!(!s.evaluate_when("scenario.volume_params.journal_mode"));
    assert!(s.evaluate_when(""));
    assert!(s.evaluate_when("   "));
}

#[test]
fn when_zero_and_empty_string_are_falsy() {
    let mut s = fixture();
    s.scenario = object(vec![
        ("zero", number(0)),
        ("empty", text("")),
        ("false", JsonValue::Bool(false)),
        ("null", JsonValue::Null),
    ]);
    assert!(!s.evaluate_when("scenario.zero"));
    assert!(!s.evaluate_when("scenario.empty"));
    assert!(!s.evaluate_when("scenario.false"));
    assert!(!s.evaluate_when("scenario.null"));
}

#[test]
fn arrays_are_walked_by_number() {
    let s = fixture();
    assert_eq!(s.expand("{scenario.fixtures.0.name}"), "a.txt");
    assert_eq!(s.expand("<{scenario.fixtures.1.name}>"), "<>");
    assert_eq!(s.expand("<{scenario.fixtures.name}>"), "<>");
    assert!(s.evaluate_when("scenario.fixtures.0"));
    assert!(s.evaluate_when("scenario.fixtures.+0"));
    assert!(!s.evaluate_when("scenario.fixtures.1"));
}

#[test]
fn flat_tokens_hide_dotted_paths() {
    let mut s = fixture();
    s.flat.insert("step.op".to_string(), "flat".to_string());
    assert_eq!(s.expand("{step.op}"), "flat");
    // A predicate looks at the value itself.
    s.step = JsonValue::Null;
    assert!(!s.evaluate_when("step.op"));
}

#[test]
fn predicates_may_be_marked_optional_and_name_flat_tokens() {
    let s = fixture();
    assert!(s.evaluate_when(" step.op? "));
    assert!(s.evaluate_when("binary"));
    assert!(!s.evaluate_when("nothing"));
    assert!(s.evaluate_when("step"));
}

#[test]
fn arrays_and_objects_expand_to_json_text() {
    let s = fixture();
    assert_eq!(s.expand("{scenario.fixtures}"), "[{\"name\":\"a.txt\"}]");
    assert_eq!(
        s.expand("{scenario.volume_params}"),
        "{\"alloc_unit_size\":4096,\"label\":\"TEST\",\"size_mib\":256}"
    );
}

#[test]
fn scalars_expand_to_their_text() {
    assert_eq!(value_to_string(&JsonValue::Null), "");
    assert_eq!(value_to_string(&JsonValue::Bool(true)), "true");
    assert_eq!(value_to_string(&JsonValue::Bool(false)), "false");
    assert_eq!(value_to_string(&number(18446744073709551615)), "18446744073709551615");
    assert_eq!(
        value_to_string(&JsonValue::Number(Number::Signed(i64::MIN))),
        "-9223372036854775808"
    );
    assert_eq!(value_to_string(&JsonValue::Number(Number::Float("1.5".to_string()))), "1.5");
    assert_eq!(value_to_string(&text("a \"b\"")), "a \"b\"");
    let nested = JsonValue::Array(vec![
        JsonValue::Null,
        JsonValue::Bool(true),
        JsonValue::Number(Number::Signed(-3)),
        JsonValue::Number(Number::Float("2.5e-8".to_string())),
        text("a \"b\"\n"),
        object(vec![]),
        JsonValue::Array(vec![]),
    ]);
    assert_eq!(value_to_string(&nested), "[null,true,-3,2.5e-8,\"a \\\"b\\\"\\n\",{},[]]");
}

#[test]
fn truthiness_of_values() {
    assert!(!is_truthy(&JsonValue::Array(vec![])));
    assert!(!is_truthy(&object(vec![])));
    assert!(is_truthy(&object(vec![("a", JsonValue::Null)])));
    assert!(is_truthy(&JsonValue::Bool(true)));
    assert!(is_truthy(&JsonValue::Number(Number::Signed(-1))));
    assert!(!is_truthy(&JsonValue::Number(Number::Signed(0))));
    assert!(!is_truthy(&JsonValue::Number(Number::Float("0.0".to_string()))));
    assert!(!is_truthy(&JsonValue::Number(Number::Float("-0.0".to_string()))));
    assert!(is_truthy(&JsonValue::Number(Number::Float("1e-9".to_string()))));
}

#[test]
fn placeholder_bodies() {
    assert_eq!(parse_placeholder("binary"), Some(("binary".to_string(), false)));
    assert_eq!(parse_placeholder("a-b._c.d2?"), Some(("a-b._c.d2".to_string(), true)));
    assert_eq!(parse_placeholder("scenario.items.10"), Some(("scenario.items.10".to_string(), false)));
    assert_eq!(parse_placeholder(""), None);
    assert_eq!(parse_placeholder("?"), None);
    assert_eq!(parse_placeholder("a."), None);
    assert_eq!(parse_placeholder(".a"), None);
    assert_eq!(parse_placeholder("a..b"), None);
    assert_eq!(parse_placeholder("-a"), None);
    assert_eq!(parse_placeholder("a??"), None);
    assert_eq!(parse_placeholder("a b"), None);
    assert_eq!(parse_placeholder("é"), None);
    assert_eq!(parse_placeholder("3a"), None);
    assert_eq!(parse_placeholder("a.3b"), None);
}

#[test]
fn braces_that_are_no_placeholder_stay() {
    let s = fixture();
    assert_eq!(s.expand("{}"), "{}");
    assert_eq!(s.expand("{ {binary} }"), "{ /usr/local/bin/myfs }");
    assert_eq!(s.expand("a } b {binary}"), "a } b /usr/local/bin/myfs");
    assert_eq!(s.expand(""), "");
}

#[test]
fn the_optional_mark_changes_nothing() {
    let s = fixture();
    assert_eq!(s.expand("{binary?} x"), s.expand("{binary} x"));
    assert_eq!(s.expand("{nope?} x"), s.expand("{nope} x"));
}

#[test]
fn substituted_text_is_not_expanded_again() {
    let mut s = fixture();
    s.flat.insert("outer".to_string(), "{binary} \u{e9}".to_string());
    assert_eq!(s.expand("{outer}"), "{binary} \u{e9}");
}

#[test]
fn text_around_placeholders_is_kept() {
    let mut s = Substitution::default();
    s.flat.insert("x".to_string(), "ü".to_string());
    assert_eq!(s.expand("é {x}"), "é ü");
    assert_eq!(s.expand("{é} 日本 {x?}"), "{é} 日本 ü");
    assert_eq!(s.expand("é"), "é");
    assert!(!s.evaluate_when("é"));
}

#[test]
fn an_empty_substitution_knows_nothing() {
    let s = Substitution::default();
    assert_eq!(s.expand("<{binary}{scenario.a}{step.a}>"), "<>");
    assert_eq!(s.lookup("binary"), None);
    assert!(!s.evaluate_when("scenario"));
}
