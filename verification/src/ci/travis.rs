//! The Travis-style provider: one file at the project's root.

use vstd::prelude::*;
use crate::ci::command::{Invocation, InvocationView};
use crate::ci::types::SingleOrMultiString;
use crate::ci::{
    base_invocation, default_spawn, first_test_line, jobs_value, patterns_accepted,
    populate_from_lines, populated_from_lines, discovery_of, Discovery, DiscoveryError,
    ProviderFile,
};
use crate::runner::{Context, CrateSpec};

verus! {

/// The name of the Travis file at a project's root.
pub const TRAVIS_FILE: &'static str = ".travis.yml";

/// The part of a Travis file that is read.
#[derive(Debug, Clone, PartialEq, Eq)]
pub struct Workflow {
    pub language: Option<String>,
    /// The top-level script lines.
    pub script: Vec<String>,
    /// What runs after a successful build.
    pub after_success: Option<SingleOrMultiString>,
}

impl Workflow {
    /// The lines that are searched: those of the post-success block where
    /// one is declared, else the script's.
    pub open spec fn command_lines(self) -> Seq<Seq<char>> {
        match self.after_success {
            Some(block) => block.lines_view(),
            None => self.script.deep_view(),
        }
    }
}

/// What a Travis file gives: the base invocation with the arguments of the
/// first searched line that holds the test command.
pub open spec fn travis_discovery(file: &ProviderFile<Workflow>, base: InvocationView) -> Discovery {
    match *file {
        ProviderFile::Absent => Discovery::NotFound,
        ProviderFile::Malformed(reason) => Discovery::Parse(reason@),
        ProviderFile::Parsed(workflow) => if first_test_line(workflow.command_lines(), 0) is Some {
            Discovery::Found(populated_from_lines(base, workflow.command_lines()))
        } else {
            Discovery::NotFound
        },
    }
}

/// Reads the invocation out of a Travis file.
pub fn get_command(
    root: &str,
    jobs: Option<&usize>,
    context: &Context,
    spec: &CrateSpec,
    file: &ProviderFile<Workflow>,
) -> (res: Result<Invocation, DiscoveryError>)
    requires
        patterns_accepted(),
    ensures
        discovery_of(res) == travis_discovery(
            file,
            base_invocation(root@, jobs_value(jobs), context, spec),
        ),
{
    match file {
        ProviderFile::Absent => Err(DiscoveryError::NotFound),
        ProviderFile::Malformed(reason) => Err(DiscoveryError::Parse(reason.clone())),
        ProviderFile::Parsed(workflow) => {
            let mut cmd = default_spawn(root, jobs, context, spec);
            let found = match &workflow.after_success {
                Some(block) => {
                    let lines = block.lines();
                    populate_from_lines(&lines, &mut cmd)
                },
                None => populate_from_lines(&workflow.script, &mut cmd),
            };
            if found {
                Ok(cmd)
            } else {
                Err(DiscoveryError::NotFound)
            }
        },
    }
}

} // verus!
