use fs_test_harness::invocation::{effective_setting, Environment};
use fs_test_harness::vocab::{
    binary_alternative, binary_candidate, build_flat_vocab, choose_binary_path, flat_vocab,
    strip_windows_extended_prefix,
};
use fs_test_harness::paths::resolved_path;
use fs_test_harness::HarnessConfig;

fn some(s: &str) -> Option<String> {
    Some(s.to_string())
}

#[test]
fn all_flat_tokens() {
    let mut config = HarnessConfig::default();
    config.vm.workdir = some("C:/work//");
    config.vm.image_dir = some("images");
    config.tools.insert("fsck".to_string(), "fsck -fn".to_string());
    let flat =
        build_flat_vocab(&config, &Environment::default(), "/consumer", &some("/bin/myfs"));
    assert_eq!(flat.len(), 5);
    assert_eq!(flat.get("binary").map(|s| s.as_str()), Some("/bin/myfs"));
    assert_eq!(flat.get("image_dir").map(|s| s.as_str()), Some("/consumer/images"));
    assert_eq!(flat.get("vm.workdir").map(|s| s.as_str()), Some("C:/work//"));
    assert_eq!(
        flat.get("vm.harness_root").map(|s| s.as_str()),
        Some("C:/work/vendor/fs-test-harness")
    );
    assert_eq!(flat.get("tools.fsck").map(|s| s.as_str()), Some("fsck -fn"));
}

#[test]
fn tokens_without_a_value_are_missing() {
    let flat = build_flat_vocab(&HarnessConfig::default(), &Environment::default(), "/c", &None);
    assert_eq!(flat.len(), 0);
    let mut config = HarnessConfig::default();
    config.vm.workdir = some("");
    let flat = build_flat_vocab(&config, &Environment::default(), "/c", &None);
    assert_eq!(flat.len(), 0);
}

#[test]
fn the_environment_supplies_tokens() {
    let mut config = HarnessConfig::default();
    config.vm.workdir = some("C:/work");
    config.vm.image_dir = some("images");
    let environment = Environment {
        image_dir: some("/my/images"),
        vm_workdir: some("D:/mine"),
        harness_dir: some("//harness"),
        ..Default::default()
    };
    let flat = build_flat_vocab(&config, &environment, "/consumer", &None);
    assert_eq!(flat.get("image_dir").map(|s| s.as_str()), Some("/my/images"));
    assert_eq!(flat.get("vm.workdir").map(|s| s.as_str()), Some("D:/mine"));
    assert_eq!(flat.get("vm.harness_root").map(|s| s.as_str()), Some("D:/mine/harness"));
}

#[test]
fn given_paths_become_tokens() {
    let config = HarnessConfig::default();
    let flat = flat_vocab(&config, &Environment::default(), &some("b"), &some("i"));
    assert_eq!(flat.get("binary").map(|s| s.as_str()), Some("b"));
    assert_eq!(flat.get("image_dir").map(|s| s.as_str()), Some("i"));
    assert!(!flat.contains_key("vm.workdir"));
}

#[test]
fn settings() {
    assert_eq!(effective_setting(&some("e"), &some("c")), some("e"));
    assert_eq!(effective_setting(&some(""), &some("c")), some("c"));
    assert_eq!(effective_setting(&None, &some("c")), some("c"));
    assert_eq!(effective_setting(&None, &some("")), None);
    assert_eq!(effective_setting(&None, &None), None);
}

#[test]
fn the_binary_is_looked_for_under_two_names() {
    assert_eq!(binary_candidate("target/x.exe", "/c"), "/c/target/x.exe");
    assert_eq!(binary_candidate("/x", "/c"), "/x");
    assert_eq!(binary_alternative("target/x.exe", false), some("target/x"));
    assert_eq!(binary_alternative("target/x.exe", true), None);
    assert_eq!(binary_alternative("target/x", false), None);
    assert_eq!(choose_binary_path("c".to_string(), some("d"), some("e"), false), "d");
    assert_eq!(choose_binary_path("c".to_string(), None, some("e"), false), "e");
    assert_eq!(choose_binary_path("c".to_string(), None, None, false), "c");
    assert_eq!(
        choose_binary_path("c".to_string(), some(r"\\?\C:\x"), None, true),
        r"C:\x"
    );
}

#[test]
fn the_verbatim_prefix_goes_on_windows() {
    let path = || r"\\?\C:\x".to_string();
    assert_eq!(strip_windows_extended_prefix(path(), true), r"C:\x");
    assert_eq!(strip_windows_extended_prefix(path(), false), r"\\?\C:\x");
    let share = r"\\?\UNC\server\x".to_string();
    assert_eq!(strip_windows_extended_prefix(share, true), r"\\?\UNC\server\x");
    assert_eq!(strip_windows_extended_prefix("/x".to_string(), true), "/x");
}

#[test]
fn absolute_paths_are_kept() {
    assert_eq!(resolved_path("/x", true, "/c/x"), "/x");
    assert_eq!(resolved_path("x", false, "/c/x"), "/c/x");
    let mut config = HarnessConfig::default();
    config.vm.image_dir = some("/srv/images");
    let flat = build_flat_vocab(&config, &Environment::default(), "/consumer", &None);
    assert_eq!(flat.get("image_dir").map(|s| s.as_str()), Some("/srv/images"));
}
