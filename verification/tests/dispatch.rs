use fs_test_harness::config::{OpDef, OpHost, ProjectSection, VmSection};
use fs_test_harness::dispatch::{
    begin_recipe, exit_matches, host_name, run_recipe, step_passed, Action, RecipeResult,
};
use fs_test_harness::invocation::Environment;
use fs_test_harness::json::JsonValue;
use fs_test_harness::string_map::StringMap;
use fs_test_harness::{HarnessConfig, Scenario, StepResult};

fn text(s: &str) -> JsonValue {
    JsonValue::String(s.to_string())
}

fn step(fields: Vec<(&str, &str)>) -> JsonValue {
    let mut map = StringMap::new();
    for (key, value) in fields {
        map.insert(key.to_string(), text(value));
    }
    JsonValue::Object(map)
}

fn host_op(command: &str) -> OpDef {
    OpDef {
        host: OpHost::Host,
        command: command.to_string(),
        expect_exit: Some(0),
        when: None,
    }
}

fn config_with_ops(ops: Vec<(&str, OpDef)>) -> HarnessConfig {
    let mut config = HarnessConfig {
        project: ProjectSection {
            name: "test".to_string(),
            binary: Some("/usr/bin/true".to_string()),
            matrix_path: None,
        },
        ..Default::default()
    };
    for (name, def) in ops {
        config.ops.insert(name.to_string(), def);
    }
    config
}

fn scenario_with_recipe(recipe: Vec<JsonValue>) -> Scenario {
    Scenario { recipe, ..Default::default() }
}

/// The command line of an invocation.
fn line(program: &str, args: &[String]) -> String {
    format!("{program} {}", args.join(" "))
}

/// Runs a recipe, with `/usr/bin/true` ending with 0 and `/usr/bin/false` with 1.
/// Returns the command lines that were started, too.
fn drive_in(
    name: &str,
    scenario: &Scenario,
    config: &HarnessConfig,
    environment: &Environment,
) -> Result<(RecipeResult, Vec<String>), String> {
    let binary = config.project.binary.clone();
    let mut run = run_recipe(name, scenario, config, environment, "/consumer", &binary)?;
    let mut started = Vec::new();
    loop {
        match run.begin_step()? {
            Action::Finish => break,
            Action::Proceed => {}
            Action::Run(invocation) => {
                let command = line(&invocation.program, &invocation.args);
                let outcome = if command.ends_with("/usr/bin/true") {
                    Ok(Some(0))
                } else if command.ends_with("/usr/bin/false") {
                    Ok(Some(1))
                } else if command.ends_with("/killed") {
                    Ok(None)
                } else if command.ends_with("/missing") {
                    Err("spawn: no such file".to_string())
                } else {
                    Ok(Some(0))
                };
                started.push(command);
                run.end_step(outcome, 7);
            }
        }
    }
    Ok((run.finish(), started))
}

fn drive(name: &str, scenario: &Scenario, config: &HarnessConfig) -> Result<RecipeResult, String> {
    drive_in(name, scenario, config, &Environment::default()).map(|(result, _)| result)
}

#[test]
fn empty_recipe_errors() {
    let cfg = config_with_ops(vec![]);
    let scn = scenario_with_recipe(vec![]);
    let result = drive("empty", &scn, &cfg);
    assert!(result.is_err());
    assert_eq!(result.unwrap_err(), "run_recipe called with empty recipe");
}

#[test]
fn host_step_runs_locally_and_records_exit() {
    let cfg = config_with_ops(vec![("noop", host_op("/usr/bin/true"))]);
    let scn = scenario_with_recipe(vec![step(vec![("op", "noop")])]);
    let result = drive("host-noop", &scn, &cfg).expect("recipe runs");
    assert!(result.overall_passed);
    assert_eq!(result.steps.len(), 1);
    assert_eq!(result.steps[0].host, "host");
    assert_eq!(result.steps[0].exit_code, Some(0));
    assert!(!result.steps[0].skipped);
}

#[test]
fn step_skipped_when_predicate_false() {
    let cfg = config_with_ops(vec![(
        "needs-fixtures",
        OpDef {
            host: OpHost::Host,
            command: "/usr/bin/false".to_string(), // would fail if run
            expect_exit: Some(0),
            when: Some("scenario.fixtures".to_string()),
        },
    )]);
    let scn = scenario_with_recipe(vec![step(vec![("op", "needs-fixtures")])]);
    let result = drive("skipped", &scn, &cfg).expect("recipe runs");
    assert!(result.overall_passed);
    assert_eq!(result.steps.len(), 1);
    assert!(result.steps[0].skipped);
    assert!(result.steps[0].skip_reason.is_some());
    assert_eq!(result.steps[0].skip_reason.as_deref(), Some("when=scenario.fixtures false"));
    assert_eq!(result.steps[0].command, "");
}

#[test]
fn unknown_op_returns_error() {
    let cfg = config_with_ops(vec![]);
    let scn = scenario_with_recipe(vec![step(vec![("op", "doesnt-exist")])]);
    let err = drive("unknown", &scn, &cfg).unwrap_err();
    assert!(err.contains("doesnt-exist"));
    assert_eq!(
        err,
        "scenario 'unknown' step 0: op 'doesnt-exist' not declared in harness.toml [ops]"
    );
}

#[test]
fn step_failure_stops_recipe() {
    let cfg = config_with_ops(vec![
        ("fail", host_op("/usr/bin/false")),
        ("after", host_op("/usr/bin/true")),
    ]);
    let scn = scenario_with_recipe(vec![step(vec![("op", "fail")]), step(vec![("op", "after")])]);
    let result = drive("fail-fast", &scn, &cfg).expect("recipe runs");
    assert!(!result.overall_passed);
    assert_eq!(result.steps.len(), 1);
}

#[test]
fn builtin_ship_recognised_without_ops_table_entry() {
    let cfg = HarnessConfig {
        project: ProjectSection {
            name: "test".to_string(),
            binary: None,
            matrix_path: None,
        },
        vm: VmSection { host: None, ..Default::default() },
        ..Default::default()
    };
    let scn = scenario_with_recipe(vec![step(vec![
        ("op", "ship-to-vm"),
        ("src", "/tmp/a"),
        ("dest", "/tmp/b"),
    ])]);
    let err = drive("ship-no-vm", &scn, &cfg).unwrap_err();
    assert!(
        err.contains("[vm].host") && err.contains("ship-to-vm"),
        "expected vm.host error, got: {err}"
    );
    assert_eq!(err, "step 0: 'ship-to-vm' requires VM_HOST env or harness.toml [vm].host");
}

#[test]
fn builtin_ship_requires_src_and_dest_fields() {
    let cfg = config_with_ops(vec![]);
    let scn = scenario_with_recipe(vec![step(vec![("op", "ship-to-vm"), ("dest", "/x")])]);
    let err = drive("no-src", &scn, &cfg).unwrap_err();
    assert!(err.contains("'src' field"), "expected src error, got: {err}");
    assert_eq!(err, "step 0: 'ship-to-vm' requires a 'src' field");

    let scn = scenario_with_recipe(vec![step(vec![("op", "ship-to-host"), ("src", "/x")])]);
    let err = drive("no-dest", &scn, &cfg).unwrap_err();
    assert!(err.contains("'dest' field"), "expected dest error, got: {err}");
    assert_eq!(err, "step 0: 'ship-to-host' requires a 'dest' field");
}

#[test]
fn a_step_has_to_name_its_op() {
    let cfg = config_with_ops(vec![("noop", host_op("/usr/bin/true"))]);
    let scn = scenario_with_recipe(vec![
        step(vec![("type", "noop")]),
        step(vec![("path", "/")]),
    ]);
    let err = drive("nameless", &scn, &cfg).unwrap_err();
    assert_eq!(err, "scenario 'nameless' step 1: missing 'op' or 'type' field");
}

#[test]
fn steps_run_in_order_until_one_fails() {
    let cfg = config_with_ops(vec![
        ("pass", host_op("{binary}")),
        ("fail", host_op("/usr/bin/false")),
    ]);
    let scn = scenario_with_recipe(vec![
        step(vec![("op", "pass")]),
        step(vec![("op", "pass")]),
        step(vec![("op", "fail")]),
        step(vec![("op", "pass")]),
    ]);
    let (result, started) =
        drive_in("order", &scn, &cfg, &Environment::default()).expect("recipe runs");
    assert_eq!(
        started,
        vec!["sh -c /usr/bin/true", "sh -c /usr/bin/true", "sh -c /usr/bin/false"]
    );
    assert!(!result.overall_passed);
    let indices: Vec<usize> = result.steps.iter().map(|s| s.index).collect();
    assert_eq!(indices, vec![0, 1, 2]);
    assert_eq!(result.steps[1].duration_ms, 7);
    assert_eq!(result.steps[2].exit_code, Some(1));
    assert_eq!(result.steps[2].expected_exit, 0);
}

#[test]
fn an_expected_exit_code_may_differ_from_zero() {
    let mut def = host_op("/usr/bin/false");
    def.expect_exit = Some(1);
    let cfg = config_with_ops(vec![("fail", def)]);
    let scn = scenario_with_recipe(vec![step(vec![("op", "fail")])]);
    let result = drive("expected", &scn, &cfg).expect("recipe runs");
    assert!(result.overall_passed);
    assert!(exit_matches(&result.steps[0]));
    assert!(step_passed(&result.steps[0]));
}

#[test]
fn a_command_without_exit_code_or_start_fails() {
    let cfg = config_with_ops(vec![("killed", host_op("/killed")), ("missing", host_op("/missing"))]);
    let scn = scenario_with_recipe(vec![step(vec![("op", "killed")])]);
    let result = drive("killed", &scn, &cfg).expect("recipe runs");
    assert!(!result.overall_passed);
    assert_eq!(result.steps[0].exit_code, None);
    assert_eq!(result.steps[0].error, None);

    let scn = scenario_with_recipe(vec![step(vec![("op", "missing")])]);
    let result = drive("missing", &scn, &cfg).expect("recipe runs");
    assert!(!result.overall_passed);
    assert_eq!(result.steps[0].error.as_deref(), Some("spawn: no such file"));
    assert!(!step_passed(&result.steps[0]));
}

#[test]
fn the_step_says_where_it_runs() {
    let mut config = config_with_ops(vec![
        ("here", host_op("/usr/bin/true")),
        ("there", OpDef { command: "dir".to_string(), ..Default::default() }),
    ]);
    config.vm.host = Some("user@vm".to_string());
    let scn = scenario_with_recipe(vec![
        step(vec![("op", "here"), ("host", "vm")]),
        step(vec![("op", "there")]),
        step(vec![("op", "there"), ("host", "host")]),
        step(vec![("op", "there"), ("host", "elsewhere")]),
    ]);
    let (result, started) =
        drive_in("hosts", &scn, &config, &Environment::default()).expect("recipe runs");
    let hosts: Vec<&str> = result.steps.iter().map(|s| s.host).collect();
    assert_eq!(hosts, vec!["vm", "vm", "host", "vm"]);
    let ssh = "ssh -o BatchMode=yes -o ConnectTimeout=10 -o ServerAliveInterval=15 \
               -o ServerAliveCountMax=4 user@vm";
    assert_eq!(started[0], format!("{ssh} /usr/bin/true"));
    assert_eq!(started[1], format!("{ssh} dir"));
    assert_eq!(started[2], "sh -c dir");
    assert_eq!(host_name(OpHost::Host), "host");
    assert_eq!(host_name(OpHost::Vm), "vm");
}

#[test]
fn a_vm_step_without_a_vm_fails() {
    let cfg = config_with_ops(vec![(
        "there",
        OpDef { command: "dir {step.path}".to_string(), ..Default::default() },
    )]);
    let scn = scenario_with_recipe(vec![step(vec![("op", "there"), ("path", "/x")])]);
    let (result, started) =
        drive_in("no-vm", &scn, &cfg, &Environment::default()).expect("recipe runs");
    assert!(started.is_empty());
    assert!(!result.overall_passed);
    assert_eq!(result.steps[0].host, "vm");
    assert_eq!(result.steps[0].command, "dir /x");
    assert_eq!(
        result.steps[0].error.as_deref(),
        Some("vm-step requires VM_HOST env or harness.toml [vm].host")
    );
}

#[test]
fn the_environment_goes_before_the_configuration() {
    let mut config = config_with_ops(vec![(
        "there",
        OpDef { command: "dir".to_string(), ..Default::default() },
    )]);
    config.vm.host = Some("user@vm".to_string());
    config.vm.ssh_key = Some("key".to_string());
    let scn = scenario_with_recipe(vec![step(vec![("op", "there")])]);
    let environment = Environment {
        vm_host: Some("me@mine".to_string()),
        ssh_key: Some("my-key".to_string()),
        ..Default::default()
    };
    let (_, started) = drive_in("env", &scn, &config, &environment).expect("recipe runs");
    assert_eq!(
        started[0],
        "ssh -o BatchMode=yes -o ConnectTimeout=10 -o ServerAliveInterval=15 \
         -o ServerAliveCountMax=4 -i my-key -o IdentitiesOnly=yes me@mine dir"
    );

    // An empty variable counts as not set, and so does an empty setting.
    let environment = Environment { vm_host: Some(String::new()), ..Default::default() };
    config.vm.ssh_key = Some(String::new());
    let (_, started) = drive_in("env", &scn, &config, &environment).expect("recipe runs");
    assert!(started[0].ends_with("ServerAliveCountMax=4 user@vm dir"));
    config.vm.host = Some(String::new());
    let (result, started) = drive_in("env", &scn, &config, &environment).expect("recipe runs");
    assert!(started.is_empty());
    assert!(result.steps[0].error.is_some());
}

#[test]
fn copies_go_both_ways() {
    let mut config = config_with_ops(vec![]);
    config.vm.host = Some("user@vm".to_string());
    config.vm.ssh_key = Some("key".to_string());
    let mut scn = scenario_with_recipe(vec![
        step(vec![("op", "ship-to-vm"), ("src", "{scenario.image}"), ("dest", "C:/x")]),
        step(vec![("op", "ship-to-host"), ("src", "C:/x"), ("dest", "/tmp/{step.op}")]),
    ]);
    scn.image = "/img/a.img".to_string();
    let (result, started) =
        drive_in("ship", &scn, &config, &Environment::default()).expect("recipe runs");
    let scp = "scp -o BatchMode=yes -o ConnectTimeout=10 -i /consumer/key \
               -o IdentitiesOnly=yes -r";
    assert_eq!(started[0], format!("{scp} /img/a.img user@vm:C:/x"));
    assert_eq!(started[1], format!("{scp} user@vm:C:/x /tmp/ship-to-host"));
    assert!(result.overall_passed);
    assert_eq!(result.steps[0].op, "ship-to-vm");
    assert_eq!(result.steps[0].host, "host");
    assert_eq!(result.steps[0].command, "scp /img/a.img user@vm:C:/x");
    assert_eq!(result.steps[1].command, "scp user@vm:C:/x /tmp/ship-to-host");
    assert_eq!(result.steps[0].expected_exit, 0);
}

#[test]
fn the_key_of_the_environment_holds_for_copies_too() {
    let config = config_with_ops(vec![]);
    let scn = scenario_with_recipe(vec![step(vec![
        ("op", "ship-to-vm"),
        ("src", "a"),
        ("dest", "b"),
    ])]);
    let environment = Environment {
        vm_host: Some("me@mine".to_string()),
        ssh_key: Some("my-key".to_string()),
        ..Default::default()
    };
    let (_, started) = drive_in("ship", &scn, &config, &environment).expect("recipe runs");
    assert_eq!(
        started[0],
        "scp -o BatchMode=yes -o ConnectTimeout=10 -i my-key -o IdentitiesOnly=yes -r a me@mine:b"
    );
}

#[test]
fn windows_has_its_own_shell() {
    let config = config_with_ops(vec![("noop", host_op("dir"))]);
    let scn = scenario_with_recipe(vec![step(vec![("op", "noop")])]);
    let environment = Environment { windows: true, ..Default::default() };
    let (_, started) = drive_in("win", &scn, &config, &environment).expect("recipe runs");
    assert_eq!(started[0], "cmd.exe /C dir");
}

#[test]
fn unknown_scenario_fields_reach_the_templates() {
    let config = config_with_ops(vec![("show", host_op("show {scenario.label} {scenario.recipe.0.op}"))]);
    let mut scn = scenario_with_recipe(vec![step(vec![("op", "show")])]);
    scn.extra.insert("label".to_string(), text("T"));
    let result = drive("fields", &scn, &config).expect("recipe runs");
    assert_eq!(result.steps[0].command, "show T show");
}

#[test]
fn an_outcome_without_a_step_is_ignored() {
    let config = config_with_ops(vec![("noop", host_op("/usr/bin/true"))]);
    let scn = scenario_with_recipe(vec![step(vec![("op", "noop")])]);
    let mut run = begin_recipe("x", &scn, &config, &Environment::default(), None, StringMap::new())
        .expect("recipe begins");
    assert!(run.last_result().is_none());
    assert_eq!(run.next_op().as_deref(), Some("noop"));
    run.end_step(Ok(Some(0)), 1);
    assert!(!run.is_finished());
    assert!(matches!(run.begin_step(), Ok(Action::Run(_))));
    run.end_step(Ok(Some(0)), 1);
    run.end_step(Ok(Some(9)), 1);
    assert!(run.is_finished());
    assert_eq!(run.next_op(), None);
    assert!(matches!(run.begin_step(), Ok(Action::Finish)));
    assert_eq!(run.last_result().map(|r: &StepResult| r.exit_code), Some(Some(0)));
    let result = run.finish();
    assert_eq!(result.steps.len(), 1);
    assert!(result.overall_passed);
}

#[test]
fn a_recipe_that_is_not_over_has_not_passed() {
    let config = config_with_ops(vec![("noop", host_op("/usr/bin/true"))]);
    let scn = scenario_with_recipe(vec![step(vec![("type", "noop")]), step(vec![])]);
    let begin = || {
        begin_recipe("x", &scn, &config, &Environment::default(), None, StringMap::new())
            .expect("recipe begins")
    };
    assert!(!begin().finish().overall_passed);
    let mut run = begin();
    assert_eq!(run.next_op().as_deref(), Some("noop"));
    assert!(matches!(run.begin_step(), Ok(Action::Run(_))));
    run.end_step(Ok(Some(0)), 1);
    assert_eq!(run.next_op(), None);
    let result = run.finish();
    assert_eq!(result.steps.len(), 1);
    assert!(!result.overall_passed);
}

#[test]
fn a_configured_key_lies_beside_the_configuration() {
    let mut config = config_with_ops(vec![(
        "there",
        OpDef { command: "dir".to_string(), ..Default::default() },
    )]);
    config.vm.host = Some("user@vm".to_string());
    config.vm.ssh_key = Some("keys/id".to_string());
    let scn = scenario_with_recipe(vec![step(vec![("op", "there")])]);
    let (_, started) =
        drive_in("key", &scn, &config, &Environment::default()).expect("recipe runs");
    assert!(started[0].ends_with(" -i /consumer/keys/id -o IdentitiesOnly=yes user@vm dir"));
    config.vm.ssh_key = Some("/keys/id".to_string());
    let (_, started) =
        drive_in("key", &scn, &config, &Environment::default()).expect("recipe runs");
    assert!(started[0].ends_with(" -i /keys/id -o IdentitiesOnly=yes user@vm dir"));
}
