use fs_test_harness::config::{MountSection, PostVerifySection};
use fs_test_harness::json::{JsonValue, Number};
use fs_test_harness::string_map::StringMap;
use fs_test_harness::{
    Adapter, HarnessConfig, MountSpec, OpDef, PostVerifySpec, Scenario, TomlAdapter,
};

#[test]
fn expand_template_substitutes_known_and_collapses_unknown_tokens() {
    let vars = [
        ("path", "/hello.txt"),
        ("image", "/srv/images/test.img"),
        ("drive", "Z:"),
    ];

    // Known tokens get substituted.
    let out = TomlAdapter::expand_template("ls {image} {path}", &vars);
    assert_eq!(out, "ls /srv/images/test.img /hello.txt");

    // Drive substitution preserves the trailing colon.
    let out = TomlAdapter::expand_template("cd {drive}\\foo", &vars);
    assert_eq!(out, "cd Z:\\foo");

    // An undeclared token collapses to nothing; the text around it stays.
    let out = TomlAdapter::expand_template("run {image} {undeclared} end", &vars);
    assert_eq!(out, "run /srv/images/test.img  end");

    // Declared and undeclared tokens in the same template.
    let out = TomlAdapter::expand_template("{drive} {path} extra={extra}", &vars);
    assert_eq!(out, "Z: /hello.txt extra=");

    // Text without tokens passes through unchanged.
    let out = TomlAdapter::expand_template("plain text", &vars);
    assert_eq!(out, "plain text");
}

#[test]
fn expand_template_edge_cases() {
    // Variables are substituted one after the other.
    let vars = [("a", "{b}"), ("b", "B")];
    assert_eq!(TomlAdapter::expand_template("{a}", &vars), "B");
    // What is no identifier stays.
    assert_eq!(TomlAdapter::expand_template("{3x} {} {a.b} {", &[]), "{3x} {} {a.b} {");
    assert_eq!(TomlAdapter::expand_template("{_x1}{X}", &[]), "");
    // A declared name need not be an identifier.
    assert_eq!(TomlAdapter::expand_template("{tools.fsck}", &[("tools.fsck", "fsck")]), "fsck");
    // Literal text and supplied values are kept.
    assert_eq!(TomlAdapter::expand_template("é {x}", &[("x", "ü")]), "é ü");
    assert_eq!(TomlAdapter::expand_template("é {é}", &[]), "é {é}");
    assert_eq!(TomlAdapter::expand_template("{é}", &[("é", "e")]), "e");
}

fn text(s: &str) -> JsonValue {
    JsonValue::String(s.to_string())
}

fn object(fields: Vec<(&str, JsonValue)>) -> JsonValue {
    let mut map = StringMap::new();
    for (key, value) in fields {
        map.insert(key.to_string(), value);
    }
    JsonValue::Object(map)
}

fn adapter() -> TomlAdapter {
    let mut config = HarnessConfig::default();
    config.project.binary = Some("target/myfs".to_string());
    config.mount = Some(MountSection {
        command: "{binary} mount {image} {extra}".to_string(),
        ready_line: "mounted".to_string(),
        default_extra: Some("--ro".to_string()),
        rw_extra: Some("--write".to_string()),
    });
    config.post_verify = Some(PostVerifySection {
        command: "{tools.fsck} {image}".to_string(),
        expect_exit: Some(4),
    });
    config.tools.insert("fsck".to_string(), "/sbin/fsck".to_string());
    config.ops.insert(
        "ls".to_string(),
        OpDef {
            command: "{binary} ls {path} {tools.fsck} {tools.other}".to_string(),
            ..Default::default()
        },
    );
    TomlAdapter::new(
        config,
        "/harness".to_string(),
        "/consumer".to_string(),
        "/images/".to_string(),
    )
}

#[test]
fn the_scenario_json_holds_all_that_the_script_needs() {
    let scenario = Scenario {
        image: "a.img".to_string(),
        ops: vec![object(vec![("type", text("ls"))])],
        ..Default::default()
    };
    let value = adapter().build_scenario_json("one", &scenario);
    let expected = object(vec![
        ("name", text("one")),
        ("image", text("/images/a.img")),
        ("rw", JsonValue::Bool(false)),
        (
            "mount",
            object(vec![
                ("command", text("/consumer/target/myfs mount {image} {extra}")),
                ("ready_line", text("mounted")),
                ("extra", text("--ro")),
            ]),
        ),
        ("ops", JsonValue::Array(vec![object(vec![("type", text("ls"))])])),
        (
            "templates",
            object(vec![(
                "ls",
                text("/consumer/target/myfs ls {path} /sbin/fsck {tools.other}"),
            )]),
        ),
        (
            "post_verify",
            object(vec![
                ("command", text("/sbin/fsck {image}")),
                ("expect_exit", JsonValue::Number(Number::Unsigned(4))),
            ]),
        ),
    ]);
    assert_eq!(value, expected);
}

#[test]
fn the_scenario_goes_before_the_configuration() {
    let scenario = Scenario {
        mount: Some(MountSpec {
            command: "own {binary}".to_string(),
            ready_line: "up".to_string(),
        }),
        mount_args: vec!["--rw".to_string()],
        post_verify: Some(Some(PostVerifySpec {
            command: "check {binary}".to_string(),
            expect_exit: None,
        })),
        ..Default::default()
    };
    let value = adapter().scenario_value("two", &scenario, "", "/bin/x");
    assert_eq!(value.get("image"), Some(&text("")));
    assert_eq!(value.get("rw"), Some(&JsonValue::Bool(true)));
    let mount = value.get("mount").unwrap();
    assert_eq!(mount.str_field("command"), Some("own /bin/x"));
    assert_eq!(mount.str_field("ready_line"), Some("up"));
    assert_eq!(mount.str_field("extra"), Some(""));
    let verification = value.get("post_verify").unwrap();
    assert_eq!(verification.str_field("command"), Some("check /bin/x"));
    assert_eq!(verification.get("expect_exit"), Some(&JsonValue::Number(Number::Unsigned(0))));
}

#[test]
fn mount_arguments_become_the_extra_arguments() {
    let adapter = adapter();
    let mut scenario = Scenario {
        mount_args: vec!["--rw".to_string(), "-v".to_string()],
        ..Default::default()
    };
    let value = adapter.scenario_value("x", &scenario, "", "");
    assert_eq!(value.get("mount").unwrap().str_field("extra"), Some("--rw -v"));
    scenario.mount_args = vec![String::new()];
    let value = adapter.scenario_value("x", &scenario, "", "");
    assert_eq!(value.get("mount").unwrap().str_field("extra"), Some("--ro"));
}

#[test]
fn a_null_verification_disables_the_configured_one() {
    let scenario = Scenario { post_verify: Some(None), ..Default::default() };
    let value = adapter().scenario_value("x", &scenario, "", "");
    assert_eq!(value.get("post_verify"), Some(&JsonValue::Null));
    let scenario = Scenario::default();
    let value = adapter().scenario_value("x", &scenario, "", "");
    assert!(value.get("post_verify").unwrap().get("command").is_some());
}

#[test]
fn nothing_configured_leaves_nothing() {
    let adapter = TomlAdapter::new(
        HarnessConfig::default(),
        String::new(),
        String::new(),
        String::new(),
    );
    let value = adapter.build_scenario_json("x", &Scenario::default());
    assert_eq!(value.get("image"), Some(&text("")));
    assert_eq!(
        value.get("mount"),
        Some(&object(vec![
            ("command", text("")),
            ("ready_line", text("")),
            ("extra", text("")),
        ]))
    );
    assert_eq!(value.get("templates"), Some(&object(vec![])));
    assert_eq!(value.get("post_verify"), Some(&JsonValue::Null));
}

#[test]
fn absolute_paths_stay_as_they_are() {
    let mut adapter = adapter();
    adapter.config.project.binary = Some("/bin/myfs".to_string());
    let scenario = Scenario { image: "/abs.img".to_string(), ..Default::default() };
    let value = adapter.build_scenario_json("x", &scenario);
    assert_eq!(value.get("image"), Some(&text("/abs.img")));
    assert_eq!(
        value.get("mount").unwrap().str_field("command"),
        Some("/bin/myfs mount {image} {extra}")
    );
}

#[test]
fn the_script_lies_in_the_harness() {
    assert_eq!(adapter().run_scenario_ps_path(), "/harness/scripts/run-scenario.ps1");
    let mut other = adapter();
    other.harness_root = "harness/".to_string();
    assert_eq!(other.run_scenario_ps_path(), "harness/scripts/run-scenario.ps1");
}

#[test]
fn single_ops_are_refused() {
    let adapter = adapter();
    let scenario = Scenario::default();
    assert_eq!(adapter.pre_fixture(&scenario, "/diag"), Ok(()));
    assert_eq!(adapter.post_verify(&scenario, "/diag"), Ok(()));
    let refused = adapter.run_op(&scenario, &JsonValue::Null, "/diag");
    assert_eq!(
        refused.unwrap_err(),
        "TomlAdapter does not support per-op invocation; the whole-scenario flow is in run-matrix.rs"
    );
}
