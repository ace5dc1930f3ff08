use fs_test_harness::dispatch::{RecipeResult, StepResult};
use fs_test_harness::invocation::Environment;
use fs_test_harness::json::JsonValue;
use fs_test_harness::outcome::{
    clock_text, fmt_elapsed, outcome_status, read_tail, step_detail, step_dir_name,
};
use fs_test_harness::report::{ordered_results, RunManifest, RunReport, ScenarioResult};
use fs_test_harness::runner::{
    drive_letter_count, drive_letter_invocation, drive_letter_query, matrix_diag_root, partition_scenarios, pass_label,
    permit_count, resolve_max_parallel, selected, Parallelism, PassEnd, Passes, SemState,
};
use fs_test_harness::{MaxParallel, Scenario, VmSection};

fn step(op: &str, command: &str) -> StepResult {
    StepResult {
        index: 3,
        op: op.to_string(),
        host: "host",
        command: command.to_string(),
        exit_code: Some(-2),
        expected_exit: 0,
        duration_ms: 1,
        skipped: false,
        skip_reason: None,
        error: None,
    }
}

#[test]
fn permits_are_counted() {
    let mut state = SemState::new(2);
    assert!(state.try_acquire());
    assert!(state.try_acquire());
    assert!(!state.try_acquire());
    state.release();
    assert!(state.try_acquire());
    assert!(!state.try_acquire());
    state.release();
    state.release();
    state.release();
    assert!(state.try_acquire());
    assert!(state.try_acquire());
    assert!(!state.try_acquire());
}

#[test]
fn permits_are_bounded() {
    assert_eq!(permit_count(0), 1);
    assert_eq!(permit_count(1), 1);
    assert_eq!(permit_count(7), 7);
    assert_eq!(permit_count(24), 24);
    assert_eq!(permit_count(25), 24);
}

#[test]
fn parallelism_is_given_or_asked_for() {
    assert!(matches!(resolve_max_parallel(&MaxParallel::Explicit(3)), Parallelism::Fixed(3)));
    assert!(matches!(
        resolve_max_parallel(&MaxParallel::Named("drive-letters".to_string())),
        Parallelism::DriveLetters
    ));
    match resolve_max_parallel(&MaxParallel::Named("cores".to_string())) {
        Parallelism::Unknown(message) => {
            assert_eq!(message, "runner: unknown max_parallel value 'cores', defaulting to 1")
        }
        other => panic!("unexpected {other:?}"),
    }
}

#[test]
fn the_vm_is_asked_for_drive_letters() {
    assert!(drive_letter_query(&VmSection::default(), &Environment::default(), "/c").is_none());
    let vm = VmSection {
        host: Some("user@vm".to_string()),
        ssh_key: Some("key".to_string()),
        ..Default::default()
    };
    let query = drive_letter_query(&vm, &Environment::default(), "/consumer").unwrap();
    assert_eq!(query.program, "ssh");
    assert_eq!(
        query.args,
        vec![
            "-o",
            "BatchMode=yes",
            "-o",
            "ConnectTimeout=15",
            "-o",
            "ServerAliveInterval=10",
            "-o",
            "ServerAliveCountMax=2",
            "-i",
            "/consumer/key",
            "-o",
            "IdentitiesOnly=yes",
            "user@vm",
            "powershell -NoProfile -NonInteractive -Command \
             (26 - (Get-PSDrive -PSProvider FileSystem | Measure-Object).Count)",
        ]
    );
}

#[test]
fn the_call_for_drive_letters_takes_the_key_as_given() {
    let with_key = drive_letter_invocation("user@vm", &Some("key".to_string()));
    assert_eq!(with_key.args[8..13], ["-i", "key", "-o", "IdentitiesOnly=yes", "user@vm"]);
    let without = drive_letter_invocation("user@vm", &None);
    assert_eq!(without.args[8], "user@vm");
    assert_eq!(without.args.len(), 10);
}

#[test]
fn replies_are_counted() {
    let (n, message) = drive_letter_count(Some(" 21\r\n"));
    assert_eq!(n, 21);
    assert_eq!(message, "runner: 21 drive letters available on VM — using as max_parallel");
    let (n, message) = drive_letter_count(Some("0"));
    assert_eq!(n, 1);
    assert_eq!(
        message,
        "runner: unexpected drive-letter count '0' — defaulting max_parallel to 1"
    );
    assert_eq!(drive_letter_count(Some("many")).0, 1);
    assert_eq!(drive_letter_count(Some("")).0, 1);
    assert_eq!(drive_letter_count(Some("-3")).0, 1);
    assert_eq!(drive_letter_count(Some("99999999999999999999999")).0, 1);
    let (n, message) = drive_letter_count(None);
    assert_eq!(n, 1);
    assert_eq!(
        message,
        "runner: could not query VM drive letters — defaulting max_parallel to 1"
    );
}

#[test]
fn scenarios_are_selected_by_name() {
    assert!(selected("ro-list", "", true));
    assert!(selected("ro-list", "list", false));
    assert!(!selected("ro-list", "list", true));
    assert!(selected("list", "list", true));
    assert!(!selected("ro-list", "write", false));
}

#[test]
fn scenarios_without_a_recipe_are_ignored() {
    let runs = || Scenario { recipe: vec![JsonValue::Null], ..Default::default() };
    let entries = vec![
        ("b-run".to_string(), runs()),
        ("a-wait".to_string(), Scenario::default()),
        ("a-run".to_string(), runs()),
        ("other".to_string(), runs()),
        ("b-wait".to_string(), Scenario::default()),
    ];
    let (runnable, ignored) = partition_scenarios(entries, "-", false);
    let names = |list: Vec<(String, Scenario)>| -> Vec<String> {
        list.into_iter().map(|(name, _)| name).collect()
    };
    assert_eq!(names(runnable), vec!["b-run", "a-run"]);
    assert_eq!(names(ignored), vec!["a-wait", "b-wait"]);
}

fn names(list: &[&str]) -> Vec<String> {
    list.iter().map(|s| s.to_string()).collect()
}

#[test]
fn what_failed_is_tried_again() {
    let mut passes = Passes::new(names(&["c", "a", "b"]));
    assert_eq!(passes.pending(), &names(&["a", "b", "c"]));
    assert_eq!(passes.attempt(), 0);
    assert_eq!(passes.end_pass(&names(&["c", "a"])), PassEnd::Retry);
    assert_eq!(passes.pending(), &names(&["a", "c"]));
    assert_eq!(passes.attempt(), 1);
    assert!(!passes.is_over());
    assert_eq!(passes.end_pass(&names(&["b", "c"])), PassEnd::Retry);
    assert_eq!(passes.pending(), &names(&["c"]));
    assert_eq!(passes.end_pass(&names(&[])), PassEnd::AllPassed);
    assert!(passes.is_over());
    assert!(passes.broken().is_empty());
    assert_eq!(passes.exit_code(), 0);
    assert_eq!(passes.end_pass(&names(&["c"])), PassEnd::AllPassed);
    assert_eq!(passes.exit_code(), 0);
}

#[test]
fn what_fails_five_times_is_broken() {
    let mut passes = Passes::new(names(&["bad", "flaky", "good"]));
    assert_eq!(passes.end_pass(&names(&["bad", "flaky"])), PassEnd::Retry);
    for _ in 0..3 {
        assert_eq!(passes.end_pass(&names(&["flaky", "bad"])), PassEnd::Retry);
    }
    assert_eq!(passes.end_pass(&names(&["bad"])), PassEnd::GaveUp);
    assert!(passes.is_over());
    assert_eq!(passes.broken(), &names(&["bad"]));
    assert!(passes.pending().is_empty());
    assert_eq!(passes.exit_code(), 101);
    assert_eq!(passes.end_pass(&names(&[])), PassEnd::GaveUp);
    assert_eq!(passes.exit_code(), 101);
}

#[test]
fn nothing_to_run_passes() {
    let mut passes = Passes::new(vec![]);
    assert_eq!(passes.end_pass(&vec![]), PassEnd::AllPassed);
}

#[test]
fn passes_have_labels() {
    assert_eq!(pass_label(0), "pass 1/5");
    assert_eq!(pass_label(1), "retry 2/5");
    assert_eq!(pass_label(4), "retry 5/5");
}

#[test]
fn status_of_an_outcome() {
    let passed = Ok(RecipeResult { steps: vec![step("a", "b")], overall_passed: true });
    assert_eq!(outcome_status(&passed, "x", "y"), ("passed", None));

    let failed = Ok(RecipeResult { steps: vec![step("a", "b")], overall_passed: false });
    let (status, message) = outcome_status(&failed, "err", "out");
    assert_eq!(status, "failed");
    assert_eq!(
        message.unwrap(),
        "step 3 (a) exit Some(-2) != expected 0\n--- stderr ---\nerr\n--- stdout ---\nout"
    );
    let (_, message) = outcome_status(&failed, "", "out");
    assert_eq!(
        message.unwrap(),
        "step 3 (a) exit Some(-2) != expected 0\n--- stdout ---\nout"
    );

    let mut killed = step("a", "b");
    killed.exit_code = None;
    let outcome = Ok(RecipeResult { steps: vec![killed.clone()], overall_passed: false });
    let (status, message) = outcome_status(&outcome, "", "");
    assert_eq!(status, "failed");
    assert_eq!(message.unwrap(), "step 3 (a) exit None != expected 0");
    killed.error = Some("spawn: x".to_string());
    let outcome = Ok(RecipeResult { steps: vec![killed], overall_passed: false });
    let (status, message) = outcome_status(&outcome, "", "out");
    assert_eq!(status, "errored");
    assert_eq!(message.unwrap(), "step 3 (a) errored: spawn: x\n--- stdout ---\nout");

    let none = Ok(RecipeResult { steps: vec![], overall_passed: false });
    assert_eq!(
        outcome_status(&none, "", ""),
        ("failed", Some("recipe failed (no step results)".to_string()))
    );
    assert_eq!(
        outcome_status(&Err("broken".to_string()), "", ""),
        ("errored", Some("broken".to_string()))
    );
}

#[test]
fn outputs_are_cut() {
    assert_eq!(read_tail("  a b \n", 10), "a b");
    assert_eq!(read_tail(" \n", 10), "");
    assert_eq!(read_tail("0123456789", 10), "0123456789");
    assert_eq!(read_tail(" 0123456789\n", 4), "...(truncated)\n6789");
    assert_eq!(read_tail("ab\u{e9}\u{e9}", 4), "...(truncated)\n\u{e9}\u{e9}");
    assert_eq!(read_tail("ab\u{e9}\u{e9}", 3), "...(truncated)\n\u{e9}");
    assert_eq!(read_tail("éa", 2), "...(truncated)\na");
    assert_eq!(read_tail("日本", 2), "...(truncated)\n");
    assert_eq!(read_tail("a\u{1f600}b", 5), "...(truncated)\n\u{1f600}b");
    assert_eq!(read_tail("abc", 0), "...(truncated)\n");
    let long = "x".repeat(5000);
    let tail = read_tail(&long, 4096);
    assert_eq!(tail.len(), 4096 + "...(truncated)\n".len());
}

#[test]
fn steps_show_a_file() {
    assert_eq!(step_detail(&step("ship-to-vm", "scp /img/a.img user@vm:C:/x")), "  (a.img)");
    assert_eq!(step_detail(&step("ship-to-vm", "scp -r  plain b")), "  (plain)");
    assert_eq!(step_detail(&step("ship-to-vm", "scp -r")), "");
    assert_eq!(step_detail(&step("list", "/usr/local/bin/myfs")), "  (myfs)");
    assert_eq!(step_detail(&step("format", "mkfs /img/a.img")), "  (a.img)");
    assert_eq!(step_detail(&step("format", "mkfs")), "  (mkfs)");
    assert_eq!(step_detail(&step("ship-to-vm", "")), "");
    let mut skipped = step("ship-to-vm", "scp a b");
    skipped.skipped = true;
    assert_eq!(step_detail(&skipped), "");
}

#[test]
fn times() {
    assert_eq!(fmt_elapsed(0), "0s");
    assert_eq!(fmt_elapsed(59), "59s");
    assert_eq!(fmt_elapsed(60), "1m 0s");
    assert_eq!(fmt_elapsed(3725), "62m 5s");
    assert_eq!(clock_text(0), "00:00:00");
    assert_eq!(clock_text(86399), "23:59:59");
    assert_eq!(clock_text(86400 + 3661), "01:01:01");
}

#[test]
fn directories() {
    assert_eq!(step_dir_name(0, "ls"), "step-00-ls");
    assert_eq!(step_dir_name(12, "ship-to-vm"), "step-12-ship-to-vm");
    assert_eq!(step_dir_name(123, ""), "step-123-");
    assert_eq!(matrix_diag_root("/consumer"), "/consumer/test-diagnostics/matrix");
    assert_eq!(matrix_diag_root("/consumer/"), "/consumer/test-diagnostics/matrix");
    assert_eq!(matrix_diag_root(""), "test-diagnostics/matrix");
}

fn result(name: &str, status: &str) -> ScenarioResult {
    ScenarioResult {
        name: name.to_string(),
        status: status.to_string(),
        error: None,
        diag_dir: format!("/diag/{name}"),
        duration_secs: "1.5".to_string(),
    }
}

#[test]
fn results_are_ordered_by_name() {
    let results = vec![result("b", "1"), result("a", "2"), result("b", "3"), result("B", "4")];
    let report = RunReport {
        manifest: RunManifest {
            timestamp_utc: "0".to_string(),
            host_os: "linux",
            git_sha: None,
            project_name: "p".to_string(),
            scenario_count_total: 4,
            scenario_count_runnable: 4,
        },
        results: ordered_results(results),
    };
    let order: Vec<(&str, &str)> =
        report.results.iter().map(|r| (r.name.as_str(), r.status.as_str())).collect();
    assert_eq!(order, vec![("B", "4"), ("a", "2"), ("b", "1"), ("b", "3")]);
}
