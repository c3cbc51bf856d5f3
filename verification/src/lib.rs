//! A batch data pipeline: paginated collection of remote metadata, JSON
//! snapshots on disk, encrypted archives of those snapshots, and an
//! idempotent reconciliation of the snapshots into a document store.
//!
//! The crate holds the pipeline's decision logic, verified; the surrounding
//! binary performs the remote calls, file handling and process invocations
//! that the decisions ask for.

use vstd::prelude::*;

pub mod artifact;
pub mod configuration;
pub mod documents;
pub mod environment;
pub mod github;
pub mod mongo;
pub mod pagination;
pub mod rate_limit_handler;
pub mod text;

use crate::text::str_eq;

verus! {

/// The run mode selected by the operator.
#[derive(Clone, Copy, PartialEq, Eq, Structural, Debug)]
pub enum RunPlan {
    /// Collect pages from the remote API, then archive, then sync the store.
    CollectArchiveSync,
    /// Skip collection: archive (create or restore) and sync only.
    ArchiveThenSync,
    /// The selected context is not supported; nothing to execute.
    Unsupported,
}

/// Maps the selected context index to the pipeline phases to run.
pub fn run_plan(context_index: usize) -> (r: RunPlan)
    ensures
        context_index == 0 ==> r == RunPlan::CollectArchiveSync,
        context_index == 1 ==> r == RunPlan::ArchiveThenSync,
        context_index > 1 ==> r == RunPlan::Unsupported,
{
    if context_index == 0 {
        RunPlan::CollectArchiveSync
    } else if context_index == 1 {
        RunPlan::ArchiveThenSync
    } else {
        RunPlan::Unsupported
    }
}

/// Which collector a collection name selects.
#[derive(Clone, Copy, PartialEq, Eq, Structural, Debug)]
pub enum CollectorKind {
    /// Collect repository metadata page by page.
    Repos,
    /// Collect workflow runs, one fetch per owning repository record.
    Workflows,
    /// The collection is not supported; the run aborts.
    Unsupported,
}

/// Maps the selected collection name to the collector that runs.
pub fn collection_dispatch(collection: &str) -> (r: CollectorKind)
    ensures
        collection@ == "repos"@ ==> r == CollectorKind::Repos,
        collection@ != "repos"@ && collection@ == "workflows"@ ==> r == CollectorKind::Workflows,
        collection@ != "repos"@ && collection@ != "workflows"@ ==> r
            == CollectorKind::Unsupported,
{
    if str_eq(collection, "repos") {
        CollectorKind::Repos
    } else if str_eq(collection, "workflows") {
        CollectorKind::Workflows
    } else {
        CollectorKind::Unsupported
    }
}

} // verus!
