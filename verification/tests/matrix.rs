use fs_test_harness::config::{expected_exit, OpDefRaw};
use fs_test_harness::json::{JsonValue, Number};
use fs_test_harness::string_map::StringMap;
use fs_test_harness::{
    Harness, HarnessConfig, Matrix, MaxParallel, MountSpec, OpDef, OpHost, PostVerifySpec,
    Scenario, ScenarioMap,
};

fn text(s: &str) -> JsonValue {
    JsonValue::String(s.to_string())
}

fn object(fields: Vec<(&str, JsonValue)>) -> JsonValue {
    let mut map = StringMap::new();
    for (key, value) in fields {
        map.insert(key.to_string(), value);
    }
    JsonValue::Object(map)
}

#[test]
fn a_scenario_as_json() {
    let mut scenario = Scenario {
        image: "a.img".to_string(),
        mount: Some(MountSpec { command: "m".to_string(), ready_line: "r".to_string() }),
        mount_args: vec!["--rw".to_string()],
        ops: vec![object(vec![("type", text("ls"))])],
        recipe: vec![object(vec![("op", text("noop"))])],
        post_verify: Some(Some(PostVerifySpec { command: "v".to_string(), expect_exit: Some(-1) })),
        status: Some("pending".to_string()),
        attempts: Some(JsonValue::Array(vec![])),
        notes: Some("n".to_string()),
        evidence_link: Some("e".to_string()),
        ..Default::default()
    };
    scenario.extra.insert("verdict_shape".to_string(), text("clean"));
    let expected = object(vec![
        ("image", text("a.img")),
        ("mount", object(vec![("command", text("m")), ("ready_line", text("r"))])),
        ("mount_args", JsonValue::Array(vec![text("--rw")])),
        ("ops", JsonValue::Array(vec![object(vec![("type", text("ls"))])])),
        ("recipe", JsonValue::Array(vec![object(vec![("op", text("noop"))])])),
        (
            "post_verify",
            object(vec![
                ("command", text("v")),
                ("expect_exit", JsonValue::Number(Number::Signed(-1))),
            ]),
        ),
        ("verdict_shape", text("clean")),
    ]);
    assert_eq!(scenario.to_value(), expected);
}

#[test]
fn an_empty_scenario_as_json() {
    let expected = object(vec![
        ("image", text("")),
        ("mount", JsonValue::Null),
        ("mount_args", JsonValue::Array(vec![])),
        ("ops", JsonValue::Array(vec![])),
        ("recipe", JsonValue::Array(vec![])),
        ("post_verify", JsonValue::Null),
    ]);
    assert_eq!(Scenario::default().to_value(), expected);
    assert!(!Scenario::default().is_runnable());
    let disabled = Scenario { post_verify: Some(None), ..Default::default() };
    assert_eq!(disabled.to_value(), expected);
}

#[test]
fn scenario_preserves_unknown_consumer_fields_through_round_trip() {
    let number = |n: u64| JsonValue::Number(Number::Unsigned(n));
    let mut scn = Scenario {
        recipe: vec![object(vec![("op", text("noop"))])],
        ..Default::default()
    };
    scn.extra.insert(
        "volume_params".to_string(),
        object(vec![
            ("size_mib", number(256)),
            ("label", text("T")),
            ("alloc_unit_size", number(4096)),
        ]),
    );
    scn.extra.insert(
        "fixtures".to_string(),
        JsonValue::Array(vec![object(vec![("name", text("a.txt")), ("size", number(16))])]),
    );
    scn.extra.insert("verdict_shape".to_string(), text("clean"));

    assert_eq!(
        scn.extra.get("volume_params").and_then(|v| v.get("size_mib")),
        Some(&number(256))
    );
    assert_eq!(scn.extra.get("verdict_shape").and_then(|v| v.as_str()), Some("clean"));
    assert!(scn.extra.contains_key("fixtures"));

    let re_emitted = scn.to_value();
    assert_eq!(re_emitted.get("volume_params").unwrap().get("size_mib"), Some(&number(256)));
    assert_eq!(re_emitted.str_field("verdict_shape"), Some("clean"));
    match re_emitted.get("fixtures") {
        Some(JsonValue::Array(items)) => assert_eq!(items[0].str_field("name"), Some("a.txt")),
        other => panic!("unexpected fixtures {other:?}"),
    }
}

#[test]
fn scenarios_keep_the_order_of_declaration() {
    let mut scenarios = ScenarioMap::new();
    assert_eq!(scenarios.len(), 0);
    scenarios.insert("zeta".to_string(), Scenario::default());
    scenarios.insert("alpha".to_string(), Scenario::default());
    scenarios.insert(
        "zeta".to_string(),
        Scenario { image: "z.img".to_string(), ..Default::default() },
    );
    let harness = Harness {
        config: HarnessConfig::default(),
        matrix: Matrix { format: None, doc: None, scenarios },
        config_path: "harness.toml".to_string(),
        matrix_path: "test-matrix.json".to_string(),
        consumer_root: ".".to_string(),
    };
    let scenarios = harness.scenarios();
    assert_eq!(scenarios.len(), 2);
    assert_eq!(scenarios.name_at(0), "zeta");
    assert_eq!(scenarios.name_at(1), "alpha");
    assert_eq!(scenarios.scenario_at(0).image, "z.img");
    assert!(scenarios.contains_key("alpha"));
    assert!(!scenarios.contains_key("beta"));
    assert!(scenarios.get("beta").is_none());
    assert_eq!(scenarios.get("zeta").unwrap().image, "z.img");
    let copy = harness.matrix.clone();
    assert_eq!(copy.scenarios.name_at(0), "zeta");
    assert_eq!(copy.scenarios.scenario_at(0).to_value(), scenarios.scenario_at(0).to_value());
    let names: Vec<String> =
        harness.matrix.scenarios.into_entries().into_iter().map(|(name, _)| name).collect();
    assert_eq!(names, vec!["zeta", "alpha"]);
}

#[test]
fn ops_are_declared_in_two_forms() {
    let bare = OpDef::from(OpDefRaw::BareCommand("{binary} ls {image} {path}".to_string()));
    assert_eq!(bare.host, OpHost::Vm);
    assert_eq!(bare.command, "{binary} ls {image} {path}");
    assert_eq!(bare.expect_exit, None);
    assert_eq!(bare.when, None);

    let table = OpDef::from(OpDefRaw::Table {
        host: OpHost::Host,
        command: "{binary} format".to_string(),
        expect_exit: Some(3),
        when: Some("scenario.fixtures".to_string()),
    });
    assert_eq!(table.host, OpHost::Host);
    assert_eq!(table.expect_exit, Some(3));
    assert_eq!(table.when.as_deref(), Some("scenario.fixtures"));

    let again = OpDef::from(OpDefRaw::from(table.clone()));
    assert_eq!(again.host, table.host);
    assert_eq!(again.command, table.command);
    assert_eq!(again.expect_exit, table.expect_exit);
    assert_eq!(again.when, table.when);
}

#[test]
fn defaults_of_the_configuration() {
    let config = HarnessConfig::default();
    assert_eq!(config.matrix_path(), "test-matrix.json");
    assert!(config.mount.is_none());
    assert!(matches!(config.runner.max_parallel, MaxParallel::Explicit(1)));
    let mut named = HarnessConfig::default();
    named.project.matrix_path = Some("other.json".to_string());
    assert_eq!(named.matrix_path(), "other.json");
    let op = OpDef::default();
    assert_eq!(op.host, OpHost::Vm);
    assert_eq!(OpHost::default(), OpHost::Vm);
    assert_eq!(expected_exit(&op.expect_exit), 0);
    assert_eq!(expected_exit(&Some(7)), 7);
}
