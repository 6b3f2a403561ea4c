use tater::ci::command::{Ignored, Invocation};
use tater::ci::github::{
    choose_file, find_job, get_command, process_arg_string, read_workflow, resolve_included,
    split_reference, apply_parameters, Defaults, Job, Matrix, MatrixValue, Step, Strategy,
    Workflow, WorkflowFile,
};
use tater::ci::{DiscoveryError, ProviderFile};
use tater::runner::{Context, CrateSpec};
use tater::strmap::StringMap;
use tater::yaml::{YamlNumber, YamlValue};

fn text(s: &str) -> YamlValue {
    YamlValue::String(s.to_string())
}

fn strings(items: &[&str]) -> Vec<String> {
    items.iter().map(|s| s.to_string()).collect()
}

fn params(pairs: &[(&str, YamlValue)]) -> StringMap<YamlValue> {
    let mut map = StringMap::new();
    for (key, value) in pairs {
        map.insert(key.to_string(), value.clone());
    }
    map
}

fn mapping(pairs: &[(&str, YamlValue)]) -> YamlValue {
    YamlValue::Mapping(pairs.iter().map(|(k, v)| (text(k), v.clone())).collect())
}

fn step(name: &str, uses: &str, with: &[(&str, YamlValue)], run: &str) -> Step {
    Step { name: name.to_string(), uses: uses.to_string(), with: params(with), run: run.to_string() }
}

fn job(steps: Vec<Step>) -> Job {
    Job {
        name: String::new(),
        runs_on: "ubuntu-latest".to_string(),
        steps,
        strategy: Strategy::default(),
    }
}

fn jobs(list: Vec<(&str, Job)>) -> StringMap<Job> {
    let mut map = StringMap::new();
    for (key, job) in list {
        map.insert(key.to_string(), job);
    }
    map
}

fn workflow(list: Vec<(&str, Job)>) -> Workflow {
    Workflow { jobs: jobs(list), defaults: Defaults::default(), env: StringMap::new() }
}

fn project() -> CrateSpec {
    CrateSpec {
        repository_url: "https://example.com/group/demo".to_string(),
        args: Vec::new(),
        env: StringMap::new(),
        setup: None,
        teardown: None,
    }
}

fn file(name: &str, content: ProviderFile<Workflow>) -> WorkflowFile {
    WorkflowFile { name: name.to_string(), content }
}

const BASE_ARGS: [&str; 4] = ["tarpaulin", "--debug", "--color", "never"];

fn with_base(extra: &[&str]) -> Vec<String> {
    let mut all = strings(&BASE_ARGS);
    all.extend(strings(extra));
    all
}

#[test]
fn openmls_yaml() {
    let mut matrix = Matrix::default();
    matrix.elements.insert(
        "os".to_string(),
        vec![text("macos-latest"), text("ubuntu-latest"), text("windows-latest")],
    );
    let tests = Job {
        name: String::new(),
        runs_on: "${{ matrix.os }}".to_string(),
        steps: vec![
            step(
                "",
                "actions/checkout@v2",
                &[("ref", text("${{ github.event.pull_request.head.sha }}"))],
                "",
            ),
            step("Tests debug build", "", &[], "cargo test --verbose\n"),
            step("Tests release build", "", &[], "cargo test --verbose --release\n"),
            step(
                "Install rust target",
                "actions-rs/toolchain@v1",
                &[
                    ("toolchain", text("stable")),
                    ("profile", text("minimal")),
                    ("override", YamlValue::Bool(true)),
                    ("target", text("i686-pc-windows-msvc")),
                ],
                "",
            ),
            step(
                "Tests 32bit windows release build",
                "",
                &[],
                "cargo test --verbose --target i686-pc-windows-msvc\ncargo test --verbose --release --target i686-pc-windows-msvc\n",
            ),
        ],
        strategy: Strategy { matrix },
    };
    let result = Workflow {
        jobs: jobs(vec![("tests", tests)]),
        defaults: Defaults { run: params(&[("working-directory", text("openmls"))]) },
        env: params(&[("CARGO_TERM_COLOR", text("always"))]),
    };
    assert_eq!(result.defaults.working_directory(), Some("openmls"));

    assert_eq!(result.jobs.get("tests").unwrap().steps.len(), 5);
}

fn hyper_job() -> Job {
    let mut matrix = Matrix::default();
    matrix.elements.insert(
        "rust".to_string(),
        vec![text("stable"), text("beta"), text("nightly")],
    );
    matrix.elements.insert(
        "os".to_string(),
        vec![text("ubuntu-latest"), text("windows-latest"), text("macOS-latest")],
    );
    matrix.includes = vec![
        mapping(&[("rust", text("stable")), ("features", text("--features full"))]),
        mapping(&[("rust", text("beta")), ("features", text("--features full"))]),
        mapping(&[
            ("rust", text("nightly")),
            ("features", text("--features full,nightly")),
            ("benches", YamlValue::Bool(true)),
        ]),
    ];
    Job {
        name: "Test ${{ matrix.rust }} on ${{ matrix.os }}".to_string(),
        runs_on: "${{ matrix.os }}".to_string(),
        steps: vec![
            step("Checkout", "actions/checkout@v1", &[], ""),
            step(
                "Install Rust (${{ matrix.rust }})",
                "actions-rs/toolchain@v1",
                &[
                    ("profile", text("minimal")),
                    ("toolchain", text("${{ matrix.rust }}")),
                    ("override", YamlValue::Bool(true)),
                ],
                "",
            ),
            step(
                "Test",
                "actions-rs/cargo@v1",
                &[("command", text("test")), ("args", text("${{ matrix.features }}"))],
                "",
            ),
            step(
                "Test all benches",
                "actions-rs/cargo@v1",
                &[("command", text("test")), ("args", text("--benches ${{ matrix.features }}"))],
                "",
            ),
        ],
        strategy: Strategy { matrix },
    }
}

#[test]
fn hyper_yaml() {
    let result = Workflow {
        jobs: jobs(vec![("test", hyper_job())]),
        defaults: Defaults::default(),
        env: params(&[("RUST_BACKTRACE", YamlValue::Number(YamlNumber::Unsigned(1)))]),
    };
    let job = result.jobs.get("test").unwrap();

    let rust_versions = job.get_possible_matrix_values("matrix.rust").unwrap();
    assert!(rust_versions.iter().all(|x| x.preconditions.is_empty()));
    assert!(rust_versions
        .iter()
        .all(|x| x.data.iter().all(|y| y.is_string())));
    assert_eq!(
        rust_versions[0]
            .data
            .iter()
            .filter_map(|x| x.as_str())
            .collect::<Vec<_>>(),
        vec!["stable", "beta", "nightly"]
    );

    let os_versions = job.get_possible_matrix_values("matrix.os").unwrap();
    assert!(os_versions.iter().all(|x| x.preconditions.is_empty()));
    assert!(os_versions
        .iter()
        .all(|x| x.data.iter().all(|y| y.is_string())));
    assert_eq!(
        os_versions[0]
            .data
            .iter()
            .filter_map(|x| x.as_str())
            .collect::<Vec<_>>(),
        vec!["ubuntu-latest", "windows-latest", "macOS-latest"]
    );

    let mut preconditions = StringMap::new();
    preconditions.insert("rust".to_string(), text("stable"));

    let features_stable = MatrixValue {
        data: vec![text("--features full")],
        preconditions,
    };

    let features = job.get_possible_matrix_values("matrix.features").unwrap();
    assert_eq!(features[0], features_stable);
    assert_eq!(features.len(), 3);

    assert_eq!(job.get_possible_matrix_values("maatrix.foo"), None);
    assert_eq!(job.get_possible_matrix_values("matrix.foo"), Some(vec![]));
    assert_eq!(job.get_possible_matrix_values("matrix"), None);
}

#[test]
fn declared_axis_gives_one_result_with_all_candidates() {
    let job = hyper_job();
    let values = job.get_possible_matrix_values("matrix.rust").unwrap();
    assert_eq!(values.len(), 1);
    assert_eq!(values[0].data, vec![text("stable"), text("beta"), text("nightly")]);
    assert!(values[0].preconditions.is_empty());
}

#[test]
fn included_axis_gives_one_result_per_entry() {
    let job = hyper_job();
    let benches = job.get_possible_matrix_values("matrix.benches").unwrap();
    assert_eq!(benches.len(), 1);
    assert_eq!(benches[0].data, vec![YamlValue::Bool(true)]);
    assert_eq!(benches[0].preconditions.get("rust"), Some(&text("nightly")));
    assert_eq!(
        benches[0].preconditions.get("features"),
        Some(&text("--features full,nightly"))
    );
    assert_eq!(benches[0].preconditions.len(), 2);
    assert!(!benches[0].preconditions.contains_key("benches"));

    let features = job.get_possible_matrix_values("matrix.features").unwrap();
    assert_eq!(features.len(), 3);
    assert_eq!(features[1].preconditions.get("rust"), Some(&text("beta")));
    assert_eq!(features[2].data, vec![text("--features full,nightly")]);
    assert_eq!(features[2].preconditions.get("benches"), Some(&YamlValue::Bool(true)));
}

#[test]
fn axis_declared_nowhere_is_applicable_and_empty() {
    let plain = job(Vec::new());
    assert_eq!(plain.get_possible_matrix_values("matrix.foo"), Some(vec![]));
    assert_eq!(plain.get_possible_matrix_values("matrix."), Some(vec![]));
    assert_eq!(plain.get_possible_matrix_values("other.foo"), None);
    assert_eq!(plain.get_possible_matrix_values(""), None);
}

#[test]
fn reference_uses_its_first_two_segments() {
    assert_eq!(
        split_reference("matrix.rust.extra"),
        Some(("matrix".to_string(), "rust".to_string()))
    );
    assert_eq!(split_reference("matrix"), None);
    assert_eq!(split_reference(".x"), Some((String::new(), "x".to_string())));
    let job = hyper_job();
    assert_eq!(job.get_possible_matrix_values("matrix.rust.extra").unwrap().len(), 1);
}

#[test]
fn included_sequence_is_taken_as_the_candidates() {
    let entry = mapping(&[
        ("os", YamlValue::Sequence(vec![text("linux"), text("mac")])),
        ("rust", text("stable")),
    ]);
    let value = resolve_included(&entry, "os").unwrap();
    assert_eq!(value.data, vec![text("linux"), text("mac")]);
    assert_eq!(value.preconditions.get("rust"), Some(&text("stable")));
    assert_eq!(resolve_included(&entry, "missing"), None);
    assert_eq!(resolve_included(&text("os"), "os"), None);
    let odd = YamlValue::Mapping(vec![
        (YamlValue::Bool(true), text("dropped")),
        (text("os"), YamlValue::Null),
    ]);
    let value = resolve_included(&odd, "os").unwrap();
    assert_eq!(value.data, vec![YamlValue::Null]);
    assert!(value.preconditions.is_empty());
}

#[test]
fn find_job_ignores_case_of_the_file_name() {
    assert!(find_job("Coverage.yml", "coverage"));
    assert!(find_job("CI.yaml", "ci"));
    assert!(find_job("unit-tests.yml", "test"));
    assert!(!find_job("build.yml", "coverage"));
    assert!(!find_job("coverage.yml", "Coverage"));
}

#[test]
fn colour_flag_and_its_value_are_stripped() {
    let mut cmd = Invocation::new("cargo").unwrap();
    process_arg_string(&mut cmd, "--all --color always  --lib --color");
    assert_eq!(cmd.get_args(), &strings(&["--all", "--lib"]));
    let mut second = Invocation::new("cargo").unwrap();
    process_arg_string(&mut second, "--color --color --color x y");
    assert_eq!(second.get_args(), &strings(&["y"]));
    let mut empty = Invocation::new("cargo").unwrap();
    process_arg_string(&mut empty, "   ");
    assert!(empty.get_args().is_empty());
}

#[test]
fn coverage_action_parameters_become_arguments() {
    let mut cmd = Invocation::new("cargo").unwrap();
    apply_parameters(
        &mut cmd,
        &params(&[("run-types", text("Tests Doctests")), ("timeout", text("120"))]),
    );
    assert_eq!(
        cmd.get_args(),
        &strings(&["--run-types", "Tests", "Doctests", "--timeout", "120"])
    );
    let mut other = Invocation::new("cargo").unwrap();
    apply_parameters(
        &mut other,
        &params(&[
            ("out-type", text("Lcov")),
            ("unknown", text("dropped")),
            ("timeout", YamlValue::Number(YamlNumber::Unsigned(60))),
            ("args", text("--workspace --color always --no-fail-fast")),
            ("version", text("0.18.0")),
        ]),
    );
    assert_eq!(
        other.get_args(),
        &strings(&["--out", "--workspace", "--no-fail-fast", "0.18.0"])
    );
    assert_eq!(other.get_ignored(), &vec![Ignored::Parameter("unknown".to_string())]);
    assert!(cmd.get_ignored().is_empty());
}

#[test]
fn workflow_with_coverage_action_yields_its_arguments() {
    let chosen = workflow(vec![(
        "coverage",
        job(vec![
            step("Checkout", "actions/checkout@v2", &[], ""),
            step(
                "Coverage",
                "actions-rs/tarpaulin@v0.1",
                &[("run-types", text("Tests Doctests")), ("timeout", text("120"))],
                "",
            ),
        ]),
    )]);
    let files = vec![file("coverage.yml", ProviderFile::Parsed(chosen))];
    let cmd = get_command("/work/demo", None, &Context::default(), &project(), Some(&files))
        .unwrap();
    let args = cmd.get_args();
    let wanted = strings(&["--run-types", "Tests", "Doctests", "--timeout", "120"]);
    assert!(args.windows(wanted.len()).any(|w| w == wanted.as_slice()));
    assert_eq!(args, &with_base(&["--run-types", "Tests", "Doctests", "--timeout", "120"]));
}

#[test]
fn build_action_with_test_command_uses_default_directory_and_args() {
    let mut flow = workflow(vec![("test", hyper_job())]);
    flow.defaults = Defaults { run: params(&[("working-directory", text("openmls"))]) };
    let mut cmd = Invocation::new("cargo").unwrap();
    assert!(read_workflow(&flow, &mut cmd));
    assert_eq!(cmd.get_working_directory(), Some("openmls"));
    assert_eq!(cmd.get_args(), &strings(&["${{", "matrix.features", "}}"]));

    let build_then_script = workflow(vec![(
        "build",
        job(vec![
            step("Build", "actions-rs/cargo@v1", &[("command", text("build"))], ""),
            step("Script", "", &[], "cargo test --lib"),
        ]),
    )]);
    let mut other = Invocation::new("cargo").unwrap();
    assert!(read_workflow(&build_then_script, &mut other));
    assert_eq!(other.get_args(), &strings(&["--lib"]));
    assert_eq!(other.get_working_directory(), None);

    let build_then_test = workflow(vec![(
        "build",
        job(vec![
            step("Build", "actions-rs/cargo@v1", &[("command", text("build"))], "cargo test -x"),
            step(
                "Test",
                "actions-rs/cargo@v1",
                &[("command", text("test")), ("args", text("--all --color never"))],
                "",
            ),
        ]),
    )]);
    let mut later = Invocation::new("cargo").unwrap();
    assert!(read_workflow(&build_then_test, &mut later));
    assert_eq!(later.get_args(), &strings(&["--all"]));

    let build_only = workflow(vec![(
        "build",
        job(vec![step("Build", "actions-rs/cargo@v1", &[("command", text("build"))], "")]),
    )]);
    let mut none = Invocation::new("cargo").unwrap();
    assert!(!read_workflow(&build_only, &mut none));
    assert!(none.get_args().is_empty());
    assert!(none.get_ignored().is_empty());
}

#[test]
fn script_steps_are_searched_when_no_action_fits() {
    let flow = workflow(vec![
        ("lint", job(vec![step("Lint", "", &[], "cargo clippy")])),
        (
            "tests",
            job(vec![
                step("Build", "", &[], "cargo build"),
                step("Test", "", &[], "cargo test --all-features -- --nocapture\ncargo test --doc"),
            ]),
        ),
    ]);
    let mut cmd = Invocation::new("cargo").unwrap();
    assert!(read_workflow(&flow, &mut cmd));
    assert_eq!(cmd.get_args(), &strings(&["--all-features", "--", "--nocapture"]));
}

#[test]
fn file_names_decide_which_workflow_is_read() {
    let with_tests = workflow(vec![("t", job(vec![step("", "", &[], "cargo test --lib")]))]);
    let empty = workflow(Vec::new());
    let files = vec![
        file("ci.yml", ProviderFile::Parsed(with_tests.clone())),
        file("Tests.yml", ProviderFile::Parsed(empty.clone())),
        file("release.yml", ProviderFile::Parsed(with_tests.clone())),
    ];
    assert_eq!(choose_file(&files), Some(1));
    let context = Context::default();
    assert_eq!(
        get_command("/w", None, &context, &project(), Some(&files)),
        Err(DiscoveryError::NotFound)
    );

    let malformed = vec![
        file("build.yml", ProviderFile::Parsed(with_tests.clone())),
        file("coverage.yaml", ProviderFile::Malformed("bad indentation".to_string())),
    ];
    assert_eq!(
        get_command("/w", None, &context, &project(), Some(&malformed)),
        Err(DiscoveryError::Parse("bad indentation".to_string()))
    );

    let unnamed = vec![
        file("a.yml", ProviderFile::Malformed("broken".to_string())),
        file("b.yml", ProviderFile::Parsed(empty)),
        file("c.yml", ProviderFile::Parsed(with_tests)),
    ];
    assert_eq!(choose_file(&unnamed), None);
    let cmd = get_command("/w", None, &context, &project(), Some(&unnamed)).unwrap();
    assert_eq!(cmd.get_args(), &with_base(&["--lib"]));
    assert_eq!(cmd.get_root(), "/w");

    assert_eq!(
        get_command("/w", None, &context, &project(), None),
        Err(DiscoveryError::NotFound)
    );
    assert_eq!(
        get_command("/w", None, &context, &project(), Some(&Vec::new())),
        Err(DiscoveryError::NotFound)
    );
}
