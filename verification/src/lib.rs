//! Batch-drives coverage runs across repositories: interprets a project's CI
//! configuration into a coverage-tool invocation, supervises one run, and
//! keeps the resumable batch ledger.

pub mod batch;
pub mod ci;
pub mod runner;
pub mod strmap;
pub mod text;
pub mod yaml;
