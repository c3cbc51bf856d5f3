//! The remote-collection side of the pipeline: fetch-result shapes, the
//! decision taken on a failed request, and the snapshot files written for
//! successful pages.
//!
//! The HTTP calls themselves live with the binary; what stands here is
//! everything the run decides around them: how a failure classifies into
//! retry-or-fatal, what a fetch result carries, and exactly which file a
//! page's documents are written to.

use vstd::prelude::*;
use vstd::string::*;

use crate::documents::Document;
use crate::rate_limit_handler::{classified_wait, error_handler};
use crate::text::{dec_digits, trim_str, trimmed, u64_to_dec};

verus! {

/// The category output directories, relative to the working tree.
pub struct DataPipelineGitHubFsConfiguration {
    pub repos_output: String,
    pub workflows_output: String,
}

/// GitHub repos fetch result.
pub struct ReposFetchResult {
    pub items: Vec<Document>,
    pub total: i64,
    pub retry: bool,
}

/// GitHub repo workflow runs fetch result.
pub struct WorkflowRunsFetchResult {
    pub items: Vec<Document>,
    pub total: i64,
    pub retry: bool,
}

/// What a failed request comes to once its message is classified.
#[derive(Debug, PartialEq, Eq, Structural)]
pub enum FetchErrorAction {
    /// A throttling failure: wait this many seconds, then retry the same
    /// page or parent.
    RetryAfter(i64),
    /// Any other failure: fatal, the run halts.
    Fatal,
}

/// Classifies a failed request's message: a positive cooldown means wait
/// and retry, anything else is fatal.
pub fn classify_failure(message: &str) -> (r: FetchErrorAction)
    ensures
        classified_wait(message@) > 0 ==> r == FetchErrorAction::RetryAfter(
            classified_wait(message@) as i64,
        ),
        classified_wait(message@) == 0 ==> r is Fatal,
{
    let wait = error_handler(message);
    if wait > 0 {
        FetchErrorAction::RetryAfter(wait)
    } else {
        FetchErrorAction::Fatal
    }
}

/// Fetch-request context for the repository search category.
pub struct DataPipelineGitHubRepos {}

impl DataPipelineGitHubRepos {
    /// Decision on a failed repository request, from the error message.
    pub fn handle_request_error(&self, message: &str) -> (r: FetchErrorAction)
        ensures
            classified_wait(message@) > 0 ==> r == FetchErrorAction::RetryAfter(
                classified_wait(message@) as i64,
            ),
            classified_wait(message@) == 0 ==> r is Fatal,
    {
        classify_failure(message)
    }

    /// The result handed back for a throttled request: empty, with the
    /// caller told to retry the same page.
    pub fn retry_result(&self) -> (r: ReposFetchResult)
        ensures
            r.items@.len() == 0,
            r.total == 0,
            r.retry,
    {
        ReposFetchResult { items: Vec::new(), total: 0, retry: true }
    }

    /// The result handed back for a successful request.
    pub fn success_result(&self, items: Vec<Document>, total: i64) -> (r: ReposFetchResult)
        ensures
            r.items == items,
            r.total == total,
            !r.retry,
    {
        ReposFetchResult { items, total, retry: false }
    }
}

/// Fetch-request context for the workflow-run category.
pub struct DataPipelineGitHubWorkflows {}

impl DataPipelineGitHubWorkflows {
    /// Decision on a failed workflow-run request, from the error message.
    pub fn handle_request_error(&self, message: &str) -> (r: FetchErrorAction)
        ensures
            classified_wait(message@) > 0 ==> r == FetchErrorAction::RetryAfter(
                classified_wait(message@) as i64,
            ),
            classified_wait(message@) == 0 ==> r is Fatal,
    {
        classify_failure(message)
    }

    /// The result handed back for a throttled request: empty, with the
    /// caller told to retry the same parent.
    pub fn retry_result(&self) -> (r: WorkflowRunsFetchResult)
        ensures
            r.items@.len() == 0,
            r.total == 0,
            r.retry,
    {
        WorkflowRunsFetchResult { items: Vec::new(), total: 0, retry: true }
    }

    /// The result handed back for a successful request.
    pub fn success_result(&self, items: Vec<Document>, total: i64) -> (r: WorkflowRunsFetchResult)
        ensures
            r.items == items,
            r.total == total,
            !r.retry,
    {
        WorkflowRunsFetchResult { items, total, retry: false }
    }
}

impl WorkflowRunsFetchResult {
    /// Whether a snapshot file is written for this parent: a parent with
    /// no workflow runs gets no file at all, not an empty one.
    pub fn should_write_snapshot(&self) -> (r: bool)
        ensures
            r <==> self.items@.len() > 0,
    {
        self.items.len() > 0
    }
}

/// The GitHub side of a run: its file-system layout and the per-category
/// request contexts.
pub struct DataPipelineGitHub {
    pub configuration: DataPipelineGitHubFsConfiguration,
    pub repos_ctx: DataPipelineGitHubRepos,
    pub workflows_ctx: DataPipelineGitHubWorkflows,
}

impl DataPipelineGitHub {
    /// Program constructor.
    pub fn new() -> (r: DataPipelineGitHub)
        ensures
            r.configuration.repos_output@ == "/.data/output/github/repos"@,
            r.configuration.workflows_output@ == "/.data/output/github/workflows"@,
    {
        let configuration = DataPipelineGitHubFsConfiguration {
            repos_output: String::from_str("/.data/output/github/repos"),
            workflows_output: String::from_str("/.data/output/github/workflows"),
        };
        DataPipelineGitHub {
            configuration,
            repos_ctx: DataPipelineGitHubRepos {  },
            workflows_ctx: DataPipelineGitHubWorkflows {  },
        }
    }
}

/// The query string of a repository search: the fixed search scope with
/// the trimmed search term appended.
pub fn repos_query(search_term: &str) -> (r: String)
    ensures
        r@ == "  in:name in:description in:readme user:"@ + trimmed(search_term@),
{
    let mut q = String::from_str("  in:name in:description in:readme user:");
    let term = trim_str(search_term);
    q.append(term.as_str());
    q
}

/// The snapshot file for one page of repository search results.
pub fn repos_snapshot_path(base_path: &str, page: i64) -> (r: String)
    requires
        1 <= page,
    ensures
        r@ == base_path@ + "/github-repos-"@ + dec_digits(page as int) + ".json"@,
{
    let mut p = String::from_str(base_path);
    p.append("/github-repos-");
    let digits = u64_to_dec(page as u64);
    p.append(digits.as_str());
    p.append(".json");
    p
}

/// The snapshot file for one parent record's workflow runs.
pub fn workflows_snapshot_path(base_path: &str, record_name: &str) -> (r: String)
    ensures
        r@ == base_path@ + "/"@ + record_name@ + ".json"@,
{
    let mut p = String::from_str(base_path);
    p.append("/");
    p.append(record_name);
    p.append(".json");
    p
}

} // verus!
