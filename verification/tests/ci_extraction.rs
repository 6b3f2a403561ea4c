use tater::ci::command::{Ignored, Invocation};
use tater::ci::{
    default_args, default_spawn, extract_tarpaulin_commands, init_command, patterns_compile,
    populate_from_commands, populate_from_lines, rewrite_matches, try_extract_tarpaulin_commands,
    try_to_populate_command,
};
use tater::runner::{Context, CrateSpec};
use tater::strmap::StringMap;

fn strings(items: &[&str]) -> Vec<String> {
    items.iter().map(|s| s.to_string()).collect()
}

fn project() -> CrateSpec {
    CrateSpec {
        repository_url: "https://example.com/group/demo".to_string(),
        args: strings(&["--workspace"]),
        env: StringMap::new(),
        setup: None,
        teardown: None,
    }
}

#[test]
fn command_regex_test() {
    assert_eq!(
        extract_tarpaulin_commands("cargo test"),
        vec!["cargo tarpaulin".to_string()]
    );
    assert_eq!(
        extract_tarpaulin_commands("cargo test --all-features"),
        vec!["cargo tarpaulin --all-features".to_string()]
    );
    assert_eq!(
        extract_tarpaulin_commands("cargo test --all-features -- --test-threads 8"),
        vec!["cargo tarpaulin --all-features -- --test-threads 8".to_string()]
    );
    assert_eq!(
        extract_tarpaulin_commands("cargo test -- --skip \"this\""),
        vec!["cargo tarpaulin -- --skip \"this\"".to_string()]
    );
    assert_eq!(
        extract_tarpaulin_commands("cargo test ; -- --skip \"this\""),
        vec!["cargo tarpaulin ;".to_string()]
    );
    assert_eq!(
        extract_tarpaulin_commands("cargo test \\ \n -- hello"),
        vec!["cargo tarpaulin   -- hello".to_string()]
    );
    assert_eq!(
        extract_tarpaulin_commands("cargo test\n -- hello"),
        vec!["cargo tarpaulin".to_string()]
    );
}

#[test]
fn patterns_are_accepted_by_the_engine() {
    assert!(patterns_compile());
    assert_eq!(
        try_extract_tarpaulin_commands("cargo test --doc"),
        Some(vec!["cargo tarpaulin --doc".to_string()])
    );
}

#[test]
fn extraction_finds_nothing_without_the_test_command() {
    assert_eq!(extract_tarpaulin_commands(""), Vec::<String>::new());
    assert_eq!(extract_tarpaulin_commands("cargo build --release"), Vec::<String>::new());
    assert_eq!(extract_tarpaulin_commands("cargotest"), Vec::<String>::new());
}

#[test]
fn extraction_stops_at_pipes_and_redirects() {
    assert_eq!(
        extract_tarpaulin_commands("cargo test --all | tee log.txt"),
        vec!["cargo tarpaulin --all ".to_string()]
    );
    assert_eq!(
        extract_tarpaulin_commands("cd sub && cargo test --lib > out"),
        vec!["cargo tarpaulin --lib ".to_string()]
    );
}

#[test]
fn extraction_keeps_interpolation_and_quotes() {
    assert_eq!(
        extract_tarpaulin_commands("cargo test --target ${{ matrix.target }} -- \"a.b\" ~"),
        vec!["cargo tarpaulin --target ${{ matrix.target }} -- \"a.b\" ~".to_string()]
    );
}

#[test]
fn extraction_returns_matches_in_line_order() {
    assert_eq!(
        extract_tarpaulin_commands("cargo test --lib\necho done\ncargo test --doc;\n"),
        vec!["cargo tarpaulin --lib".to_string(), "cargo tarpaulin --doc;".to_string()]
    );
}

#[test]
fn extraction_of_its_own_output_finds_nothing() {
    for input in ["cargo test", "cargo test --all-features", "cargo test ; more", "cargo test \\\n --doc"] {
        for command in extract_tarpaulin_commands(input) {
            assert_eq!(extract_tarpaulin_commands(&command), Vec::<String>::new());
        }
    }
}

#[test]
fn rewrite_replaces_every_keyword() {
    assert_eq!(
        rewrite_matches(&strings(&["cargo test -- cargo test", "cargo  test"])),
        strings(&["cargo tarpaulin -- cargo tarpaulin", "cargo  test"])
    );
    assert_eq!(rewrite_matches(&Vec::new()), Vec::<String>::new());
}

#[test]
fn default_args_are_fixed() {
    assert_eq!(default_args(), strings(&["tarpaulin", "--debug", "--color", "never"]));
}

#[test]
fn populate_uses_only_the_first_command() {
    let mut cmd = Invocation::new("cargo").unwrap();
    populate_from_commands(
        &strings(&["cargo tarpaulin --all-features -- --nocapture", "cargo tarpaulin --doc"]),
        &mut cmd,
    );
    assert_eq!(cmd.get_args(), &strings(&["--all-features", "--", "--nocapture"]));
    assert_eq!(cmd.get_ignored(), &vec![Ignored::Command("cargo tarpaulin --doc".to_string())]);
    let mut untouched = Invocation::new("cargo").unwrap();
    populate_from_commands(&Vec::new(), &mut untouched);
    assert!(untouched.get_args().is_empty());
    let mut short = Invocation::new("cargo").unwrap();
    populate_from_commands(&strings(&["cargo"]), &mut short);
    assert!(short.get_args().is_empty());
}

#[test]
fn try_to_populate_needs_the_keyword() {
    let mut cmd = Invocation::new("cargo").unwrap();
    assert!(!try_to_populate_command("cargo build", &mut cmd));
    assert!(cmd.get_args().is_empty());
    assert!(!try_to_populate_command("cargo tarpaulin --all", &mut cmd));
    assert!(cmd.get_args().is_empty());
    assert!(try_to_populate_command("cargo test --features foo", &mut cmd));
    assert_eq!(cmd.get_args(), &strings(&["--features", "foo"]));
}

#[test]
fn populate_from_lines_takes_the_first_line_with_the_keyword() {
    let mut cmd = Invocation::new("cargo").unwrap();
    let lines = strings(&["cargo clean", "cargo build", "cargo test --lib", "cargo test --doc"]);
    assert!(populate_from_lines(&lines, &mut cmd));
    assert_eq!(cmd.get_args(), &strings(&["--lib"]));
    let mut none = Invocation::new("cargo").unwrap();
    assert!(!populate_from_lines(&strings(&["make", "make check"]), &mut none));
    assert!(none.get_args().is_empty());
}

#[test]
fn init_command_orders_arguments_and_environment() {
    let mut context = Context::default();
    context.args = strings(&["--skip-clean"]);
    context.env.insert("SHARED".to_string(), "batch".to_string());
    context.env.insert("RUST_LOG".to_string(), "trace".to_string());
    let mut spec = project();
    spec.env.insert("SHARED".to_string(), "project".to_string());
    spec.env.insert("ONLY".to_string(), "project".to_string());
    let mut cmd = Invocation::new("cargo").unwrap();
    let jobs: usize = 4;
    init_command("/work/demo", Some(&jobs), &context, &spec, &mut cmd);
    assert_eq!(cmd.get_program(), "cargo");
    assert_eq!(
        cmd.get_args(),
        &strings(&[
            "--jobs",
            "4",
            "tarpaulin",
            "--debug",
            "--color",
            "never",
            "--skip-clean",
            "--workspace"
        ])
    );
    assert_eq!(cmd.get_root(), "/work/demo");
    assert_eq!(cmd.get_working_directory(), None);
    assert_eq!(cmd.get_envs().get("SHARED"), Some(&"batch".to_string()));
    assert_eq!(cmd.get_envs().get("ONLY"), Some(&"project".to_string()));
    assert_eq!(cmd.get_envs().get("RUST_LOG"), Some(&"trace".to_string()));
    assert_eq!(cmd.get_envs().len(), 3);
}

#[test]
fn default_spawn_uses_only_batch_and_project_settings() {
    let context = Context::default();
    let cmd = default_spawn("/work/demo", None, &context, &project());
    assert_eq!(cmd.get_program(), "cargo");
    assert_eq!(
        cmd.get_args(),
        &strings(&["tarpaulin", "--debug", "--color", "never", "--workspace"])
    );
    assert_eq!(
        cmd.get_envs().get("RUST_LOG"),
        Some(&"cargo_tarpaulin=info".to_string())
    );
    assert_eq!(cmd.get_envs().len(), 1);
}

#[test]
fn invocation_needs_a_program() {
    assert!(Invocation::new("").is_none());
    let mut cmd = Invocation::new("sh").unwrap();
    cmd.arg("-c");
    cmd.working_directory("sub");
    cmd.env("A", "1");
    cmd.env("A", "2");
    assert_eq!(cmd.get_program(), "sh");
    assert_eq!(cmd.get_args(), &strings(&["-c"]));
    assert_eq!(cmd.get_working_directory(), Some("sub"));
    assert_eq!(cmd.get_envs().get("A"), Some(&"2".to_string()));
    assert_eq!(cmd.get_envs().len(), 1);
}

#[test]
fn only_the_keyword_itself_is_matched_and_every_match_is_rewritten() {
    assert_eq!(extract_tarpaulin_commands("cargo  test --lib"), Vec::<String>::new());
    assert_eq!(extract_tarpaulin_commands("cargo\ttest"), Vec::<String>::new());
    assert_eq!(
        extract_tarpaulin_commands("cargo test cargo\ttest"),
        vec!["cargo tarpaulin cargo\ttest".to_string()]
    );
    assert_eq!(
        extract_tarpaulin_commands("cargo test cargo test --doc"),
        vec!["cargo tarpaulin cargo tarpaulin --doc".to_string()]
    );
    let mut cmd = Invocation::new("cargo").unwrap();
    assert!(!try_to_populate_command("cargo  test --lib", &mut cmd));
    assert!(!try_to_populate_command("cargo tarpaulin cargo\ttest", &mut cmd));
    assert!(cmd.get_args().is_empty());
}

#[test]
fn extraction_of_any_output_finds_nothing() {
    let inputs = [
        "cargo test",
        "cargo test cargo\ttest",
        "cargo test -- cargo  test; cargo test",
        "a && cargo test --lib && cargo test --doc\ncargo test \\\n  --all\n",
        "cargo test\r\ncargo test --x\r",
        "cargo testcargo test",
        "cargo cargo test test",
    ];
    for input in inputs {
        for command in extract_tarpaulin_commands(input) {
            assert_eq!(
                extract_tarpaulin_commands(&command),
                Vec::<String>::new(),
                "{:?} gave {:?}",
                input,
                command
            );
        }
    }
}

#[test]
fn commands_after_the_first_are_noted_as_ignored() {
    let mut cmd = Invocation::new("cargo").unwrap();
    assert!(try_to_populate_command("cargo test --lib; cargo test --doc; cargo test", &mut cmd));
    assert_eq!(cmd.get_args(), &strings(&["--lib;"]));
    assert_eq!(
        cmd.get_ignored(),
        &vec![
            Ignored::Command("cargo tarpaulin --doc;".to_string()),
            Ignored::Command("cargo tarpaulin".to_string()),
        ]
    );
    let mut single = Invocation::new("cargo").unwrap();
    assert!(try_to_populate_command("cargo test --lib", &mut single));
    assert!(single.get_ignored().is_empty());
}
