use tater::ci::gitlab::{Pipeline, Stage};
use tater::ci::types::SingleOrMultiString;
use tater::ci::{
    gitlab, spawn_tarpaulin, travis, try_spawn_tarpaulin, github::Job, github::Step,
    github::Strategy, github::Workflow, github::WorkflowFile, github::Defaults, CiSources,
    DiscoveryError, ProviderFile,
};
use tater::runner::{Context, CrateSpec};
use tater::strmap::StringMap;
use tater::yaml::YamlValue;

fn strings(items: &[&str]) -> Vec<String> {
    items.iter().map(|s| s.to_string()).collect()
}

fn project() -> CrateSpec {
    CrateSpec {
        repository_url: "https://example.com/group/demo".to_string(),
        args: Vec::new(),
        env: StringMap::new(),
        setup: None,
        teardown: None,
    }
}

fn with_base(extra: &[&str]) -> Vec<String> {
    let mut all = strings(&["tarpaulin", "--debug", "--color", "never"]);
    all.extend(strings(extra));
    all
}

fn pipeline(stages: Vec<(&str, Vec<&str>)>) -> Pipeline {
    Pipeline {
        image: Some("rust:latest".to_string()),
        variables: StringMap::new(),
        stages: stages
            .into_iter()
            .map(|(key, script)| {
                (YamlValue::String(key.to_string()), Stage { script: strings(&script) })
            })
            .collect(),
        includes: StringMap::new(),
    }
}

fn travis_file() -> travis::Workflow {
    travis::Workflow {
        language: Some("rust".to_string()),
        script: strings(&["cargo clean", "cargo build", "cargo test"]),
        after_success: Some(SingleOrMultiString::Single(
            "if [[ \"$TRAVIS_RUST_VERSION\" == nightly ]]; then\n    cargo tarpaulin --ciserver travis-ci --coveralls $TRAVIS_JOB_ID\nfi \n"
                .to_string(),
        )),
    }
}

#[test]
fn simple_ci_config() {
    let _result: Pipeline = pipeline(vec![("test:cargo", vec!["cargo test --features foo"])]);
}

#[test]
fn deserialize_config() {
    let result = travis_file();
    assert_eq!(result.after_success.unwrap().lines().len(), 3);
    assert_eq!(result.script.len(), 3);
}

#[test]
fn single_or_multi_projects_to_lines() {
    let single = SingleOrMultiString::Single("a\r\nb\n\nc".to_string());
    assert_eq!(single.lines(), strings(&["a", "b", "", "c"]));
    assert_eq!(single.joined(), "a\r\nb\n\nc");
    let multi = SingleOrMultiString::Multi(strings(&["one", "two\nstill two", "three"]));
    assert_eq!(multi.lines(), strings(&["one", "two\nstill two", "three"]));
    assert_eq!(multi.joined(), "one\ntwo\nstill two\nthree");
    assert_eq!(SingleOrMultiString::Multi(Vec::new()).joined(), "");
    assert_eq!(SingleOrMultiString::Single(String::new()).lines(), Vec::<String>::new());
}

#[test]
fn gitlab_takes_the_first_stage_line_with_the_test_command() {
    let context = Context::default();
    let file = ProviderFile::Parsed(pipeline(vec![
        ("build", vec!["cargo build"]),
        ("test:cargo", vec!["rustc --version", "cargo test --features foo"]),
        ("later", vec!["cargo test --doc"]),
    ]));
    let cmd = gitlab::get_command("/w", None, &context, &project(), &file).unwrap();
    assert_eq!(cmd.get_args(), &with_base(&["--features", "foo"]));
    assert_eq!(
        gitlab::get_command("/w", None, &context, &project(), &ProviderFile::Absent),
        Err(DiscoveryError::NotFound)
    );
    assert_eq!(
        gitlab::get_command(
            "/w",
            None,
            &context,
            &project(),
            &ProviderFile::Malformed("no mapping".to_string())
        ),
        Err(DiscoveryError::Parse("no mapping".to_string()))
    );
    let nothing = ProviderFile::Parsed(pipeline(vec![("build", vec!["make"])]));
    assert_eq!(
        gitlab::get_command("/w", None, &context, &project(), &nothing),
        Err(DiscoveryError::NotFound)
    );
}

#[test]
fn travis_prefers_the_post_success_block() {
    let context = Context::default();
    let declared = ProviderFile::Parsed(travis_file());
    assert_eq!(
        travis::get_command("/w", None, &context, &project(), &declared),
        Err(DiscoveryError::NotFound)
    );
    let mut plain = travis_file();
    plain.after_success = None;
    let cmd =
        travis::get_command("/w", None, &context, &project(), &ProviderFile::Parsed(plain))
            .unwrap();
    assert_eq!(cmd.get_args(), &with_base(&[]));
    let mut block = travis_file();
    block.after_success = Some(SingleOrMultiString::Multi(strings(&[
        "echo ok",
        "cargo test --release -- --ignored",
    ])));
    let cmd =
        travis::get_command("/w", None, &context, &project(), &ProviderFile::Parsed(block))
            .unwrap();
    assert_eq!(cmd.get_args(), &with_base(&["--release", "--", "--ignored"]));
    assert_eq!(
        travis::get_command("/w", None, &context, &project(), &ProviderFile::Absent),
        Err(DiscoveryError::NotFound)
    );
    assert_eq!(
        travis::get_command(
            "/w",
            None,
            &context,
            &project(),
            &ProviderFile::Malformed("tabs".to_string())
        ),
        Err(DiscoveryError::Parse("tabs".to_string()))
    );
}

fn github_files(run: &str) -> Vec<WorkflowFile> {
    let step = Step {
        name: "Test".to_string(),
        uses: String::new(),
        with: StringMap::new(),
        run: run.to_string(),
    };
    let job = Job {
        name: String::new(),
        runs_on: "ubuntu-latest".to_string(),
        steps: vec![step],
        strategy: Strategy::default(),
    };
    let mut jobs = StringMap::new();
    jobs.insert("build".to_string(), job);
    vec![WorkflowFile {
        name: "main.yml".to_string(),
        content: ProviderFile::Parsed(Workflow {
            jobs,
            defaults: Defaults::default(),
            env: StringMap::new(),
        }),
    }]
}

#[test]
fn providers_are_asked_in_a_fixed_order() {
    let context = Context::default();
    let mut plain_travis = travis_file();
    plain_travis.after_success = None;
    plain_travis.script = strings(&["cargo test --travis"]);
    let all = CiSources {
        github: Some(github_files("cargo test --github")),
        gitlab: ProviderFile::Parsed(pipeline(vec![("t", vec!["cargo test --gitlab"])])),
        travis: ProviderFile::Parsed(plain_travis.clone()),
    };
    let cmd = spawn_tarpaulin("/w", None, &context, &project(), &all);
    assert_eq!(cmd.get_args(), &with_base(&["--github"]));

    let no_github = CiSources {
        github: Some(github_files("make")),
        gitlab: ProviderFile::Parsed(pipeline(vec![("t", vec!["cargo test --gitlab"])])),
        travis: ProviderFile::Parsed(plain_travis.clone()),
    };
    let cmd = spawn_tarpaulin("/w", None, &context, &project(), &no_github);
    assert_eq!(cmd.get_args(), &with_base(&["--gitlab"]));

    let only_travis = CiSources {
        github: None,
        gitlab: ProviderFile::Malformed("broken".to_string()),
        travis: ProviderFile::Parsed(plain_travis),
    };
    let cmd = spawn_tarpaulin("/w", None, &context, &project(), &only_travis);
    assert_eq!(cmd.get_args(), &with_base(&["--travis"]));

    let none = CiSources {
        github: None,
        gitlab: ProviderFile::Absent,
        travis: ProviderFile::Absent,
    };
    let jobs: usize = 2;
    let cmd = try_spawn_tarpaulin("/w", Some(&jobs), &context, &project(), &none).unwrap();
    let mut wanted = strings(&["--jobs", "2"]);
    wanted.extend(with_base(&[]));
    assert_eq!(cmd.get_args(), &wanted);
    assert_eq!(cmd.get_program(), "cargo");
    assert_eq!(cmd.get_root(), "/w");
}
