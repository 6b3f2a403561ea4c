//! The projects of a batch, and the life of one project's run as a machine
//! that is fed what was observed and answers with what to do next. The caller
//! performs the work: cloning, shell snippets, spawning, sleeping, killing and
//! cleanup.

use vstd::prelude::*;
use vstd::string::StringExecFns;
use crate::ci::command::{Invocation, InvocationView};
use crate::strmap::StringMap;
use crate::text::{chars_of, occurs_at, starts_with, string_of_range};

verus! {

/// What is shared by every project of a batch.
#[derive(Debug, Clone, PartialEq, Eq)]
pub struct Context {
    pub toolchain: String,
    pub target: Option<String>,
    /// The projects, in the order in which they are run.
    pub crates: Vec<CrateSpec>,
    /// Arguments passed to every coverage run.
    pub args: Vec<String>,
    /// Environment variables set for every coverage run.
    pub env: StringMap<String>,
}

impl Default for Context {
    fn default() -> (out: Self)
        ensures
            out.toolchain@.len() == 0,
            out.target is None,
            out.crates@.len() == 0,
            out.args@.len() == 0,
            out.env.deep_view().len() == 0,
    {
        Context {
            toolchain: String::new(),
            target: None,
            crates: Vec::new(),
            args: Vec::new(),
            env: StringMap::new(),
        }
    }
}

/// One project of a batch.
#[derive(Debug, Clone, PartialEq, Eq)]
pub struct CrateSpec {
    /// The address the project is cloned from.
    pub repository_url: String,
    /// Arguments passed to this project's coverage run.
    pub args: Vec<String>,
    /// Environment variables set for this project's coverage run.
    pub env: StringMap<String>,
    /// A shell snippet run in the project directory before the coverage run.
    pub setup: Option<String>,
    /// A shell snippet run in the project directory after the coverage run.
    pub teardown: Option<String>,
}

/// The path component of the URL that `url` writes; none where it writes no URL.
pub uninterp spec fn url_path(url: Seq<char>) -> Option<Seq<char>>;

/// Parses `url` with `url::Url::parse` and reads the path of what was parsed
/// with `url::Url::path`; none where the text is refused. Nothing is proved
/// of the path: the contract gives it a name that depends on the text alone.
#[verifier::external_body]
fn path_of_url(url: &str) -> (path: Option<String>)
    ensures
        match path {
            Some(p) => url_path(url@) == Some(p@),
            None => url_path(url@) is None,
        },
{
    url::Url::parse(url).ok().map(|parsed| parsed.path().to_string())
}

/// Where the last segment of `path` begins, looking back from `end`: just
/// after the last `/` before `end`, or at the start.
pub open spec fn segment_start(path: Seq<char>, end: int) -> int
    decreases end,
{
    if 0 < end <= path.len() && path[end - 1] != '/' {
        segment_start(path, end - 1)
    } else {
        end
    }
}

/// What follows the last `/` of `path`: all of it where it holds none.
pub open spec fn last_segment(path: Seq<char>) -> Seq<char> {
    path.skip(segment_start(path, path.len() as int))
}

/// The name that a URL path gives a project: its last segment.
pub fn name_from_path(path: &str) -> (name: String)
    ensures
        name@ == last_segment(path@),
{
    let chars = chars_of(path);
    let mut start: usize = chars.len();
    while start > 0 && chars[start - 1] != '/'
        invariant
            start <= chars.len(),
            chars@ == path@,
            segment_start(path@, path@.len() as int) == segment_start(path@, start as int),
        decreases start,
    {
        start -= 1;
    }
    string_of_range(&chars, start, chars.len())
}

/// The name used for a project whose address gives none.
pub const UNNAMED_PROJECT: &'static str = "unnamed_project";

impl CrateSpec {
    /// Whether the project declares a setup and a teardown snippet.
    pub fn plan(&self) -> (plan: RunPlan)
        ensures
            plan.has_setup == self.setup is Some,
            plan.has_teardown == self.teardown is Some,
    {
        RunPlan { has_setup: self.setup.is_some(), has_teardown: self.teardown.is_some() }
    }

    /// The project's name: the last segment of its URL's path, where the
    /// address writes a URL.
    pub fn name(&self) -> (name: Option<String>)
        ensures
            match url_path(self.repository_url@) {
                Some(path) => name matches Some(n) && n@ == last_segment(path),
                None => name is None,
            },
    {
        match path_of_url(self.repository_url.as_str()) {
            Some(path) => Some(name_from_path(path.as_str())),
            None => None,
        }
    }
}

/// The arguments of the clone: shallow, and with the submodules.
pub open spec fn clone_args(repository_url: Seq<char>, proj_name: Seq<char>) -> Seq<Seq<char>> {
    seq!["clone"@, "--recurse-submodules"@, "--depth"@, "1"@, repository_url, proj_name]
}

/// The invocation that clones `repository_url` into the directory
/// `proj_name` below `projects`.
pub fn clone_project(projects: &str, repository_url: &str, proj_name: &str) -> (git: Invocation)
    ensures
        git@ == (InvocationView {
            program: "git"@,
            args: clone_args(repository_url@, proj_name@),
            root: projects@,
            working_directory: None,
            env: Map::empty(),
            ignored: Seq::empty(),
        }),
{
    proof {
        reveal_strlit("git");
    }
    let mut git = match Invocation::new("git") {
        Some(git) => git,
        None => vstd::pervasive::unreached(),
    };
    git.arg("clone");
    git.arg("--recurse-submodules");
    git.arg("--depth");
    git.arg("1");
    git.arg(repository_url);
    git.arg(proj_name);
    git.current_dir(projects);
    assert(git@.args =~= clone_args(repository_url@, proj_name@));
    git
}

/// What a failed clone is reported with.
pub open spec fn clone_failure_text(repository_url: Seq<char>) -> Seq<char> {
    "Git clone of "@ + repository_url + " failed"@
}

/// The failure that the clone's exit status stands for, if any.
pub fn clone_failure(repository_url: &str, exit_success: bool) -> (failure: Option<String>)
    ensures
        exit_success ==> failure is None,
        !exit_success ==> (failure matches Some(text) && text@ == clone_failure_text(
            repository_url@,
        )),
{
    if exit_success {
        None
    } else {
        let text = String::from_str("Git clone of ").concat(repository_url).concat(" failed");
        Some(text)
    }
}

/// The marker in a project directory that tells that it was cloned.
pub const SOURCE_MARKER: &'static str = ".git";

/// The directory in a project directory that holds what the build left.
pub const BUILD_DIR: &'static str = "target";

/// What the name of a coverage report begins with.
pub const REPORT_PREFIX: &'static str = "tarpaulin-run";

/// The name under which a coverage report is kept with the results.
pub const REPORT_NAME: &'static str = "tarpaulin-run.json";

/// Whether a file of the project directory is a coverage report, by its name.
pub fn is_report(file_name: &str) -> (yes: bool)
    ensures
        yes == occurs_at(file_name@, REPORT_PREFIX@, 0),
{
    starts_with(file_name, REPORT_PREFIX)
}

/// The name of the log that is written for a project.
pub fn log_file_name(proj_name: &str) -> (name: String)
    ensures
        name@ == proj_name@ + ".log"@,
{
    String::from_str(proj_name).concat(".log")
}

/// The content of a project's log: what the coverage tool wrote to its
/// standard output and to its standard error, each under its heading.
pub open spec fn log_bytes(
    stdout_heading: Seq<u8>,
    stdout: Seq<u8>,
    stderr_heading: Seq<u8>,
    stderr: Seq<u8>,
) -> Seq<u8> {
    stdout_heading + stdout + stderr_heading + stderr
}

/// The heading of the standard output in a log: `stdout:` and a line feed.
pub open spec fn stdout_heading() -> Seq<u8> {
    seq![115u8, 116u8, 100u8, 111u8, 117u8, 116u8, 58u8, 10u8]
}

/// The heading of the standard error in a log: two line feeds, `stderr:`
/// and a line feed.
pub open spec fn stderr_heading() -> Seq<u8> {
    seq![10u8, 10u8, 115u8, 116u8, 100u8, 101u8, 114u8, 114u8, 58u8, 10u8]
}

fn push_bytes(out: &mut Vec<u8>, bytes: &[u8])
    ensures
        final(out)@ == old(out)@ + bytes@,
{
    let mut i: usize = 0;
    while i < bytes.len()
        invariant
            i <= bytes.len(),
            out@ == old(out)@ + bytes@.take(i as int),
        decreases bytes.len() - i,
    {
        out.push(bytes[i]);
        assert(bytes@.take(i + 1) =~= bytes@.take(i as int).push(bytes@[i as int]));
        assert(out@ =~= old(out)@ + bytes@.take(i + 1));
        i += 1;
    }
    assert(bytes@.take(bytes.len() as int) =~= bytes@);
}

/// Frames the captured output of a run as the content of its log.
pub fn log_content(stdout: &Vec<u8>, stderr: &Vec<u8>) -> (out: Vec<u8>)
    ensures
        out@ == log_bytes(stdout_heading(), stdout@, stderr_heading(), stderr@),
{
    let mut out: Vec<u8> = Vec::new();
    let first: [u8; 8] = [115, 116, 100, 111, 117, 116, 58, 10];
    let second: [u8; 10] = [10, 10, 115, 116, 100, 101, 114, 114, 58, 10];
    assert(first@ =~= stdout_heading());
    assert(second@ =~= stderr_heading());
    push_bytes(&mut out, first.as_slice());
    push_bytes(&mut out, stdout.as_slice());
    push_bytes(&mut out, second.as_slice());
    push_bytes(&mut out, stderr.as_slice());
    assert(out@ =~= log_bytes(stdout_heading(), stdout@, stderr_heading(), stderr@));
    out
}

/// Why a project's run failed.
#[derive(Debug, Clone, PartialEq, Eq)]
pub enum RunError {
    /// The repository could not be cloned.
    Git(String),
    /// The setup snippet could not be launched.
    Setup(String),
    /// The coverage tool could not be spawned, or waiting on it failed.
    Tarpaulin(String),
    /// The coverage tool sat idle for too long and was killed.
    Stalled,
    /// The coverage tool ran to its end and reported failure.
    Failed,
}

impl RunError {
    /// What the failure reads as.
    pub open spec fn message_text(self) -> Seq<char> {
        match self {
            RunError::Git(reason) => "Issue cloning repo: "@ + reason@,
            RunError::Setup(reason) => "Failed to run setup script: "@ + reason@,
            RunError::Tarpaulin(reason) => "Failed to run tarpaulin: "@ + reason@,
            RunError::Stalled => "Tarpaulin seems to have stalled"@,
            RunError::Failed => "Tarpaulin exited with a failure"@,
        }
    }

    /// Renders the failure for a reader.
    pub fn message(&self) -> (text: String)
        ensures
            text@ == self.message_text(),
    {
        match self {
            RunError::Git(reason) => String::from_str("Issue cloning repo: ").concat(
                reason.as_str(),
            ),
            RunError::Setup(reason) => String::from_str("Failed to run setup script: ").concat(
                reason.as_str(),
            ),
            RunError::Tarpaulin(reason) => String::from_str("Failed to run tarpaulin: ").concat(
                reason.as_str(),
            ),
            RunError::Stalled => String::from_str("Tarpaulin seems to have stalled"),
            RunError::Failed => String::from_str("Tarpaulin exited with a failure"),
        }
    }
}

/// Seconds to sleep before each observation of the running process.
pub const POLL_INTERVAL_SECS: u64 = 10;

/// Consecutive idle samples after which the process counts as stalled.
pub const STALL_LIMIT: u32 = 5;

/// Bit pattern of the single-precision float `0.1`: utilisation below it is idle.
pub const IDLE_THRESHOLD_BITS: u32 = 0x3DCC_CCCD;

/// Whether a single-precision bit pattern is a NaN.
pub open spec fn is_nan_bits(bits: u32) -> bool {
    (bits & 0x7F80_0000u32) == 0x7F80_0000u32 && (bits & 0x007F_FFFFu32) != 0
}

/// Whether a CPU utilisation, given as the bit pattern of a single-precision
/// float, lies below the idle threshold. A NaN is never below it; any other
/// value with the sign bit set is; a non-negative value is when its pattern is
/// smaller than the threshold's, since patterns of non-negative floats are
/// ordered as the floats are.
pub open spec fn is_idle_sample(bits: u32) -> bool {
    !is_nan_bits(bits) && ((bits & 0x8000_0000u32) != 0 || bits < IDLE_THRESHOLD_BITS)
}

/// Decides whether one CPU sample counts as idle.
pub fn sample_is_idle(bits: u32) -> (idle: bool)
    ensures
        idle == is_idle_sample(bits),
{
    let nan = (bits & 0x7F80_0000u32) == 0x7F80_0000u32 && (bits & 0x007F_FFFFu32) != 0;
    !nan && ((bits & 0x8000_0000u32) != 0 || bits < IDLE_THRESHOLD_BITS)
}

/// What the caller saw when it looked at the spawned process.
#[derive(Debug, Clone, PartialEq, Eq)]
pub enum Poll {
    /// The process has ended; `success` is its exit status.
    Exited { success: bool },
    /// The process is alive; `cpu` is its utilisation sample, where one was had.
    Alive { cpu: Option<u32> },
    /// Looking at the process failed.
    WaitFailed(String),
}

/// What the caller reports back to the machine.
#[derive(Debug, Clone, PartialEq, Eq)]
pub enum RunEvent {
    /// The run begins; `already_cloned` tells whether the project directory
    /// bears a source-control marker.
    Begin { already_cloned: bool },
    /// The clone ended; `failure` holds the reason where it failed.
    CloneDone { failure: Option<String> },
    /// The setup snippet ended; `failure` holds the reason where it could not
    /// be launched.
    SetupDone { failure: Option<String> },
    /// The coverage tool was spawned and both of its streams are being drained.
    Launched,
    /// The coverage tool could not be spawned, for the reason given.
    LaunchFailed(String),
    /// One observation of the spawned process.
    Polled(Poll),
    /// The teardown snippet ended; `launched` is false where it could not be run.
    TeardownDone { launched: bool },
    /// Cleanup ended; `artifact_found` tells whether a report was relocated.
    Finalized { artifact_found: bool },
}

/// Where one project's run stands.
#[derive(Debug, Clone, PartialEq, Eq)]
pub enum RunState {
    Idle,
    Cloning,
    SettingUp,
    Launching,
    /// The process runs; `idle` counts the idle samples seen in a row.
    Running { idle: u32 },
    /// The teardown snippet runs; `success` is the exit status that was seen.
    TearingDown { success: bool },
    /// Cleanup runs; `failure` is what the run will fail with, if it will.
    Finalizing { failure: Option<RunError> },
    Passed,
    Failed(RunError),
}

/// What the caller does next.
#[derive(Debug, Clone, Copy, PartialEq, Eq)]
pub enum RunAction {
    /// Clone the repository, shallow and with its submodules.
    Clone,
    /// Run the setup snippet through a shell in the project directory.
    RunSetup,
    /// Resolve the invocation, spawn it with piped output, start both
    /// readers; report a launch that failed with its reason.
    Launch,
    /// Sleep for the poll interval, then observe the process.
    Poll,
    /// Run the teardown snippet through a shell in the project directory.
    RunTeardown,
    /// Delete the build directory, join the readers, write the log, move the report.
    Finalize,
    /// Kill the process, then do as for `Finalize`.
    KillThenFinalize,
    /// The run is over: the state says how it ended.
    Stop,
    /// The event does not belong to the state; nothing changed.
    Rejected,
}

/// Which optional snippets a project declares.
#[derive(Debug, Clone, Copy, PartialEq, Eq)]
pub struct RunPlan {
    pub has_setup: bool,
    pub has_teardown: bool,
}

/// The failure that an exit status stands for, if any.
pub open spec fn exit_failure(success: bool) -> Option<RunError> {
    if success {
        None
    } else {
        Some(RunError::Failed)
    }
}

/// The step taken once the project directory is in place.
pub open spec fn after_clone(plan: RunPlan) -> (RunState, RunAction) {
    if plan.has_setup {
        (RunState::SettingUp, RunAction::RunSetup)
    } else {
        (RunState::Launching, RunAction::Launch)
    }
}

/// The idle count after one more sample.
pub open spec fn next_idle(idle: u32, bits: u32) -> int {
    if is_idle_sample(bits) {
        idle + 1
    } else {
        0
    }
}

/// The step taken on one observation of the running process.
pub open spec fn on_poll(plan: RunPlan, idle: u32, poll: Poll) -> (RunState, RunAction) {
    match poll {
        Poll::Exited { success } => if plan.has_teardown {
            (RunState::TearingDown { success }, RunAction::RunTeardown)
        } else {
            (RunState::Finalizing { failure: exit_failure(success) }, RunAction::Finalize)
        },
        Poll::Alive { cpu: None } => (RunState::Running { idle }, RunAction::Poll),
        Poll::Alive { cpu: Some(bits) } => if next_idle(idle, bits) >= STALL_LIMIT {
            (RunState::Finalizing { failure: Some(RunError::Stalled) }, RunAction::KillThenFinalize)
        } else {
            (RunState::Running { idle: next_idle(idle, bits) as u32 }, RunAction::Poll)
        },
        Poll::WaitFailed(reason) => (
            RunState::Finalizing { failure: Some(RunError::Tarpaulin(reason)) },
            RunAction::Finalize,
        ),
    }
}

/// The machine's transition: the state and action that follow `state` on `event`.
pub open spec fn step(plan: RunPlan, state: RunState, event: RunEvent) -> (RunState, RunAction) {
    match (state, event) {
        (RunState::Idle, RunEvent::Begin { already_cloned }) => if already_cloned {
            after_clone(plan)
        } else {
            (RunState::Cloning, RunAction::Clone)
        },
        (RunState::Cloning, RunEvent::CloneDone { failure: None }) => after_clone(plan),
        (RunState::Cloning, RunEvent::CloneDone { failure: Some(reason) }) => (
            RunState::Failed(RunError::Git(reason)),
            RunAction::Stop,
        ),
        (RunState::SettingUp, RunEvent::SetupDone { failure: None }) => (
            RunState::Launching,
            RunAction::Launch,
        ),
        (RunState::SettingUp, RunEvent::SetupDone { failure: Some(reason) }) => (
            RunState::Finalizing { failure: Some(RunError::Setup(reason)) },
            RunAction::Finalize,
        ),
        (RunState::Launching, RunEvent::Launched) => (
            RunState::Running { idle: 0 },
            RunAction::Poll,
        ),
        (RunState::Launching, RunEvent::LaunchFailed(reason)) => (
            RunState::Finalizing { failure: Some(RunError::Tarpaulin(reason)) },
            RunAction::Finalize,
        ),
        (RunState::Running { idle }, RunEvent::Polled(poll)) => on_poll(plan, idle, poll),
        (RunState::TearingDown { success }, RunEvent::TeardownDone { .. }) => (
            RunState::Finalizing { failure: exit_failure(success) },
            RunAction::Finalize,
        ),
        (RunState::Finalizing { failure: None }, RunEvent::Finalized { .. }) => (
            RunState::Passed,
            RunAction::Stop,
        ),
        (RunState::Finalizing { failure: Some(e) }, RunEvent::Finalized { .. }) => (
            RunState::Failed(e),
            RunAction::Stop,
        ),
        (RunState::Passed, _) => (RunState::Passed, RunAction::Stop),
        (RunState::Failed(e), _) => (RunState::Failed(e), RunAction::Stop),
        (s, _) => (s, RunAction::Rejected),
    }
}

/// Advances one project's run by one reported event and says what to do next.
pub fn run_test(plan: RunPlan, state: RunState, event: RunEvent) -> (next: (RunState, RunAction))
    ensures
        next == step(plan, state, event),
{
    match (state, event) {
        (RunState::Idle, RunEvent::Begin { already_cloned }) => {
            if already_cloned {
                start_project(plan)
            } else {
                (RunState::Cloning, RunAction::Clone)
            }
        },
        (RunState::Cloning, RunEvent::CloneDone { failure: None }) => start_project(plan),
        (RunState::Cloning, RunEvent::CloneDone { failure: Some(reason) }) => (
            RunState::Failed(RunError::Git(reason)),
            RunAction::Stop,
        ),
        (RunState::SettingUp, RunEvent::SetupDone { failure: None }) => (
            RunState::Launching,
            RunAction::Launch,
        ),
        (RunState::SettingUp, RunEvent::SetupDone { failure: Some(reason) }) => (
            RunState::Finalizing { failure: Some(RunError::Setup(reason)) },
            RunAction::Finalize,
        ),
        (RunState::Launching, RunEvent::Launched) => (
            RunState::Running { idle: 0 },
            RunAction::Poll,
        ),
        (RunState::Launching, RunEvent::LaunchFailed(reason)) => (
            RunState::Finalizing { failure: Some(RunError::Tarpaulin(reason)) },
            RunAction::Finalize,
        ),
        (RunState::Running { idle }, RunEvent::Polled(poll)) => observe(plan, idle, poll),
        (RunState::TearingDown { success }, RunEvent::TeardownDone { .. }) => (
            RunState::Finalizing { failure: failure_of_exit(success) },
            RunAction::Finalize,
        ),
        (RunState::Finalizing { failure: None }, RunEvent::Finalized { .. }) => (
            RunState::Passed,
            RunAction::Stop,
        ),
        (RunState::Finalizing { failure: Some(e) }, RunEvent::Finalized { .. }) => (
            RunState::Failed(e),
            RunAction::Stop,
        ),
        (RunState::Passed, _) => (RunState::Passed, RunAction::Stop),
        (RunState::Failed(e), _) => (RunState::Failed(e), RunAction::Stop),
        (s, _) => (s, RunAction::Rejected),
    }
}

fn start_project(plan: RunPlan) -> (next: (RunState, RunAction))
    ensures
        next == after_clone(plan),
{
    if plan.has_setup {
        (RunState::SettingUp, RunAction::RunSetup)
    } else {
        (RunState::Launching, RunAction::Launch)
    }
}

fn failure_of_exit(success: bool) -> (failure: Option<RunError>)
    ensures
        failure == exit_failure(success),
{
    if success {
        None
    } else {
        Some(RunError::Failed)
    }
}

fn observe(plan: RunPlan, idle: u32, poll: Poll) -> (next: (RunState, RunAction))
    ensures
        next == on_poll(plan, idle, poll),
{
    match poll {
        Poll::Exited { success } => {
            if plan.has_teardown {
                (RunState::TearingDown { success }, RunAction::RunTeardown)
            } else {
                (RunState::Finalizing { failure: failure_of_exit(success) }, RunAction::Finalize)
            }
        },
        Poll::Alive { cpu: None } => (RunState::Running { idle }, RunAction::Poll),
        Poll::Alive { cpu: Some(bits) } => {
            if sample_is_idle(bits) {
                if idle >= STALL_LIMIT - 1 {
                    (
                        RunState::Finalizing { failure: Some(RunError::Stalled) },
                        RunAction::KillThenFinalize,
                    )
                } else {
                    (RunState::Running { idle: idle + 1 }, RunAction::Poll)
                }
            } else {
                (RunState::Running { idle: 0 }, RunAction::Poll)
            }
        },
        Poll::WaitFailed(reason) => (
            RunState::Finalizing { failure: Some(RunError::Tarpaulin(reason)) },
            RunAction::Finalize,
        ),
    }
}

/// Whether a state is one of the two ends of a run.
pub open spec fn is_end(state: RunState) -> bool {
    state is Passed || state is Failed
}

/// A run ends only after cleanup, but for a failed clone: a step that
/// reaches an end starts from cleanup, and then the end is the one that
/// cleanup was entered with, whether or not a report was found; or it starts
/// from the clone with its failure. An end is never left again.
pub proof fn law_end_follows_cleanup(plan: RunPlan, state: RunState, event: RunEvent)
    ensures
        ({
            let next = step(plan, state, event).0;
            &&& is_end(state) ==> next == state
            &&& !is_end(state) && is_end(next) ==> {
                ||| state matches RunState::Finalizing { failure: None } && next
                    == RunState::Passed
                ||| state matches RunState::Finalizing { failure: Some(e) } && next
                    == RunState::Failed(e)
                ||| state is Cloning && (next matches RunState::Failed(e) && e is Git)
            }
        }),
{
}

/// A project directory that bears a source-control marker is never cloned
/// again: the only step that asks for a clone is the first step of a run
/// whose directory bears none.
pub proof fn law_marked_directory_is_not_cloned(plan: RunPlan, state: RunState, event: RunEvent)
    requires
        step(plan, state, event).1 == RunAction::Clone,
    ensures
        state is Idle,
        event == (RunEvent::Begin { already_cloned: false }),
{
}

/// The process is only looked at once it was spawned and its output is
/// being drained: a step asks to sleep and observe only when the launch was
/// just reported, or while the process is running.
pub proof fn law_poll_follows_launch(plan: RunPlan, state: RunState, event: RunEvent)
    requires
        step(plan, state, event).1 == RunAction::Poll,
    ensures
        state is Launching && event == RunEvent::Launched || state is Running,
        step(plan, state, event).0 is Running,
{
}

/// A launch that fails becomes the project's outcome: it leads to cleanup,
/// and after cleanup the run has failed with the reason of the launch,
/// whether or not a report was found.
pub proof fn law_failed_launch_is_an_outcome(plan: RunPlan, reason: String, artifact_found: bool)
    ensures
        ({
            let failed = step(plan, RunState::Launching, RunEvent::LaunchFailed(reason));
            let ended = step(plan, failed.0, RunEvent::Finalized { artifact_found });
            &&& failed == (
                RunState::Finalizing { failure: Some(RunError::Tarpaulin(reason)) },
                RunAction::Finalize,
            )
            &&& ended == (RunState::Failed(RunError::Tarpaulin(reason)), RunAction::Stop)
        }),
{
}

/// Every report of the caller that belongs to the state it is made in is
/// taken, so that no failure of the outside work is left without a step:
/// the clone, the setup, the launch, each observation, the teardown and
/// cleanup all lead on, whatever they report.
pub proof fn law_every_report_is_taken(plan: RunPlan, state: RunState, event: RunEvent)
    requires
        match state {
            RunState::Idle => event is Begin,
            RunState::Cloning => event is CloneDone,
            RunState::SettingUp => event is SetupDone,
            RunState::Launching => event is Launched || event is LaunchFailed,
            RunState::Running { .. } => event is Polled,
            RunState::TearingDown { .. } => event is TeardownDone,
            RunState::Finalizing { .. } => event is Finalized,
            RunState::Passed => true,
            RunState::Failed(_) => true,
        },
    ensures
        step(plan, state, event).1 != RunAction::Rejected,
{
}

/// A teardown that fails never changes how a run ends: the step after the
/// teardown is the same whether or not the snippet could be run.
pub proof fn law_teardown_never_escalates(plan: RunPlan, success: bool)
    ensures
        step(plan, RunState::TearingDown { success }, RunEvent::TeardownDone { launched: true })
            == step(
            plan,
            RunState::TearingDown { success },
            RunEvent::TeardownDone { launched: false },
        ),
{
}

/// The state reached from `state` by feeding `events` in order.
pub open spec fn run_all(plan: RunPlan, state: RunState, events: Seq<RunEvent>) -> RunState
    decreases events.len(),
{
    if events.len() == 0 {
        state
    } else {
        run_all(plan, step(plan, state, events[0]).0, events.subrange(1, events.len() as int))
    }
}

/// An observation of a live process with an idle sample.
pub open spec fn is_idle_poll(event: RunEvent) -> bool {
    event matches RunEvent::Polled(Poll::Alive { cpu: Some(bits) }) && is_idle_sample(bits)
}

/// An observation of a live process with a sample at or above the threshold.
pub open spec fn is_busy_poll(event: RunEvent) -> bool {
    event matches RunEvent::Polled(Poll::Alive { cpu: Some(bits) }) && !is_idle_sample(bits)
}

/// A process that is sampled idle at every one of `STALL_LIMIT` observations
/// in a row is killed and its run ends as stalled: from a running state with
/// no idle sample counted, the last of the observations asks for the kill,
/// and after cleanup the run has failed with `Stalled`.
pub proof fn law_idle_run_stalls(plan: RunPlan, events: Seq<RunEvent>, artifact_found: bool)
    requires
        events.len() == STALL_LIMIT,
        forall|i: int| 0 <= i < events.len() ==> is_idle_poll(#[trigger] events[i]),
    ensures
        run_all(plan, RunState::Running { idle: 0 }, events.take(STALL_LIMIT - 1))
            == (RunState::Running { idle: (STALL_LIMIT - 1) as u32 }),
        step(plan, RunState::Running { idle: (STALL_LIMIT - 1) as u32 }, events[STALL_LIMIT - 1])
            == (RunState::Finalizing { failure: Some(RunError::Stalled) }, RunAction::KillThenFinalize),
        run_all(
            plan,
            RunState::Running { idle: 0 },
            events.push(RunEvent::Finalized { artifact_found }),
        ) == RunState::Failed(RunError::Stalled),
{
    let all = events.push(RunEvent::Finalized { artifact_found });
    let s0 = RunState::Running { idle: 0 };
    lemma_idle_prefix(plan, events, 0, 4);
    assert(is_idle_poll(events[4]));
    let s4 = RunState::Running { idle: 4 };
    assert(run_all(plan, s0, events.take(4)) == s4);
    lemma_run_all_split(plan, s0, all, 4);
    assert(all.take(4) =~= events.take(4));
    let rest = all.skip(4);
    assert(rest.len() == 2);
    assert(rest[0] == events[4]);
    let s5 = step(plan, s4, rest[0]).0;
    assert(s5 == RunState::Finalizing { failure: Some(RunError::Stalled) });
    let rest1 = rest.subrange(1, 2);
    assert(rest1[0] == RunEvent::Finalized { artifact_found });
    assert(rest1.subrange(1, 1).len() == 0);
    assert(run_all(plan, s5, rest1) == run_all(
        plan,
        step(plan, s5, rest1[0]).0,
        rest1.subrange(1, 1),
    ));
    assert(run_all(plan, s4, rest) == run_all(plan, s5, rest1));
}

/// Feeding a sequence is feeding its first `n` events and then the rest.
pub proof fn lemma_run_all_split(plan: RunPlan, state: RunState, events: Seq<RunEvent>, n: int)
    requires
        0 <= n <= events.len(),
    ensures
        run_all(plan, state, events) == run_all(
            plan,
            run_all(plan, state, events.take(n)),
            events.skip(n),
        ),
    decreases n,
{
    if n == 0 {
        assert(events.skip(0) =~= events);
        assert(events.take(0).len() == 0);
    } else {
        let next = step(plan, state, events[0]).0;
        let tail = events.subrange(1, events.len() as int);
        lemma_run_all_split(plan, next, tail, n - 1);
        assert(events.take(n)[0] == events[0]);
        assert(events.take(n).subrange(1, n) =~= tail.take(n - 1));
        assert(tail.skip(n - 1) =~= events.skip(n));
    }
}

/// Idle samples below the limit only raise the idle count.
proof fn lemma_idle_prefix(plan: RunPlan, events: Seq<RunEvent>, idle: u32, n: int)
    requires
        0 <= n <= events.len(),
        idle + n < STALL_LIMIT,
        forall|i: int| 0 <= i < n ==> is_idle_poll(#[trigger] events[i]),
    ensures
        run_all(plan, RunState::Running { idle }, events.take(n)) == (RunState::Running {
            idle: (idle + n) as u32,
        }),
    decreases n,
{
    let prefix = events.take(n);
    if n > 0 {
        assert(is_idle_poll(events[0]));
        assert(prefix[0] == events[0]);
        let tail = events.subrange(1, events.len() as int);
        assert forall|i: int| 0 <= i < n - 1 implies is_idle_poll(#[trigger] tail[i]) by {
            assert(tail[i] == events[i + 1]);
        }
        lemma_idle_prefix(plan, tail, (idle + 1) as u32, n - 1);
        assert(prefix.subrange(1, n) =~= tail.take(n - 1));
    }
}

/// A process that ends after any number of samples at or above the threshold
/// ends with its own exit status: without a teardown snippet cleanup follows
/// at once, with one the teardown runs first, and in both cases the run has
/// passed exactly when the exit status was success, whatever the teardown
/// and the search for a report gave.
pub proof fn law_busy_run_reports_exit(
    plan: RunPlan,
    idle: u32,
    samples: Seq<RunEvent>,
    success: bool,
    teardown_launched: bool,
    artifact_found: bool,
)
    requires
        forall|i: int| 0 <= i < samples.len() ==> is_busy_poll(#[trigger] samples[i]),
    ensures
        ({
            let exited = RunEvent::Polled(Poll::Exited { success });
            let finalized = RunEvent::Finalized { artifact_found };
            let teardown = RunEvent::TeardownDone { launched: teardown_launched };
            let events = if plan.has_teardown {
                samples.push(exited).push(teardown).push(finalized)
            } else {
                samples.push(exited).push(finalized)
            };
            let end = run_all(plan, RunState::Running { idle }, events);
            &&& success ==> end == RunState::Passed
            &&& !success ==> end == RunState::Failed(RunError::Failed)
        }),
    decreases samples.len(),
{
    let exited = RunEvent::Polled(Poll::Exited { success });
    let finalized = RunEvent::Finalized { artifact_found };
    let teardown = RunEvent::TeardownDone { launched: teardown_launched };
    let tail_events = if plan.has_teardown {
        seq![exited, teardown, finalized]
    } else {
        seq![exited, finalized]
    };
    let events = samples + tail_events;
    assert(events =~= if plan.has_teardown {
        samples.push(exited).push(teardown).push(finalized)
    } else {
        samples.push(exited).push(finalized)
    });
    let start = RunState::Running { idle };
    lemma_busy_prefix(plan, samples, idle);
    lemma_run_all_split(plan, start, events, samples.len() as int);
    assert(events.take(samples.len() as int) =~= samples);
    assert(events.skip(samples.len() as int) =~= tail_events);
    let mid = run_all(plan, start, samples);
    assert(mid is Running);
    reveal_with_fuel(run_all, 4);
    if plan.has_teardown {
        assert(tail_events.subrange(1, 3) =~= seq![teardown, finalized]);
        assert(seq![teardown, finalized].subrange(1, 2) =~= seq![finalized]);
        assert(seq![finalized].subrange(1, 1) =~= Seq::<RunEvent>::empty());
    } else {
        assert(tail_events.subrange(1, 2) =~= seq![finalized]);
        assert(seq![finalized].subrange(1, 1) =~= Seq::<RunEvent>::empty());
    }
}

/// Samples at or above the threshold keep the process running.
proof fn lemma_busy_prefix(plan: RunPlan, samples: Seq<RunEvent>, idle: u32)
    requires
        forall|i: int| 0 <= i < samples.len() ==> is_busy_poll(#[trigger] samples[i]),
    ensures
        run_all(plan, RunState::Running { idle }, samples) is Running,
    decreases samples.len(),
{
    if samples.len() > 0 {
        assert(is_busy_poll(samples[0]));
        let tail = samples.subrange(1, samples.len() as int);
        assert forall|i: int| 0 <= i < tail.len() implies is_busy_poll(#[trigger] tail[i]) by {
            assert(tail[i] == samples[i + 1]);
        }
        lemma_busy_prefix(plan, tail, 0);
    }
}

} // verus!
