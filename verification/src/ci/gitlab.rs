//! The GitLab-style provider: one pipeline file at the project's root.

use vstd::prelude::*;
use crate::ci::command::{Invocation, InvocationView};
use crate::ci::{
    base_invocation, default_spawn, first_test_line, jobs_value, patterns_accepted,
    populate_from_lines, populated_from_lines, discovery_of, Discovery, DiscoveryError,
    ProviderFile,
};
use crate::runner::{Context, CrateSpec};
use crate::strmap::StringMap;
use crate::yaml::YamlValue;

verus! {

/// The name of the pipeline file at a project's root.
pub const PIPELINE_FILE: &'static str = ".gitlab-ci.yml";

/// One stage of a pipeline.
#[derive(Debug, Clone, PartialEq, Eq)]
pub struct Stage {
    /// The stage's script lines.
    pub script: Vec<String>,
}

/// The part of a pipeline file that is read.
#[derive(Debug, Clone, PartialEq, Eq)]
pub struct Pipeline {
    pub image: Option<String>,
    pub variables: StringMap<YamlValue>,
    /// The stages with their keys, in the order in which they are searched.
    pub stages: Vec<(YamlValue, Stage)>,
    /// References to other pipeline files, which are not followed.
    pub includes: StringMap<String>,
}

/// The index of the first stage at or after `from` with a script line that
/// holds the test command.
pub open spec fn first_test_stage(stages: Seq<(YamlValue, Stage)>, from: int) -> Option<int>
    decreases stages.len() - from,
{
    if from < 0 || from >= stages.len() {
        None
    } else if first_test_line(stages[from].1.script.deep_view(), 0) is Some {
        Some(from)
    } else {
        first_test_stage(stages, from + 1)
    }
}

/// What a pipeline file gives: the base invocation with the arguments of
/// the first script line, stage after stage, that holds the test command.
pub open spec fn gitlab_discovery(file: &ProviderFile<Pipeline>, base: InvocationView) -> Discovery {
    match *file {
        ProviderFile::Absent => Discovery::NotFound,
        ProviderFile::Malformed(reason) => Discovery::Parse(reason@),
        ProviderFile::Parsed(pipeline) => match first_test_stage(pipeline.stages@, 0) {
            Some(i) => Discovery::Found(
                populated_from_lines(base, pipeline.stages@[i].1.script.deep_view()),
            ),
            None => Discovery::NotFound,
        },
    }
}

/// Reads the invocation out of a pipeline file.
pub fn get_command(
    root: &str,
    jobs: Option<&usize>,
    context: &Context,
    spec: &CrateSpec,
    file: &ProviderFile<Pipeline>,
) -> (res: Result<Invocation, DiscoveryError>)
    requires
        patterns_accepted(),
    ensures
        discovery_of(res) == gitlab_discovery(
            file,
            base_invocation(root@, jobs_value(jobs), context, spec),
        ),
{
    match file {
        ProviderFile::Absent => Err(DiscoveryError::NotFound),
        ProviderFile::Malformed(reason) => Err(DiscoveryError::Parse(reason.clone())),
        ProviderFile::Parsed(pipeline) => {
            let mut cmd = default_spawn(root, jobs, context, spec);
            let ghost base = cmd@;
            let mut i: usize = 0;
            while i < pipeline.stages.len()
                invariant
                    i <= pipeline.stages.len(),
                    patterns_accepted(),
                    *file == ProviderFile::Parsed(*pipeline),
                    base == base_invocation(root@, jobs_value(jobs), context, spec),
                    cmd@ == base,
                    first_test_stage(pipeline.stages@, 0) == first_test_stage(
                        pipeline.stages@,
                        i as int,
                    ),
                decreases pipeline.stages.len() - i,
            {
                if populate_from_lines(&pipeline.stages[i].1.script, &mut cmd) {
                    return Ok(cmd);
                }
                i += 1;
            }
            Err(DiscoveryError::NotFound)
        },
    }
}

} // verus!
