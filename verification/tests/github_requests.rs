use data_pipeline::collection_dispatch;
use data_pipeline::documents::Document;
use data_pipeline::github::{
    repos_query, repos_snapshot_path, workflows_snapshot_path, DataPipelineGitHub,
    FetchErrorAction,
};
use data_pipeline::run_plan;
use data_pipeline::CollectorKind;
use data_pipeline::RunPlan;

#[test]
fn fs_configuration_points_at_the_category_directories() {
    let github = DataPipelineGitHub::new();
    assert_eq!(github.configuration.repos_output, "/.data/output/github/repos");
    assert_eq!(
        github.configuration.workflows_output,
        "/.data/output/github/workflows"
    );
}

#[test]
fn failed_requests_classify_into_retry_or_fatal() {
    let github = DataPipelineGitHub::new();
    let action = github
        .repos_ctx
        .handle_request_error("Rate limited for the next 30 seconds");
    assert_eq!(action, FetchErrorAction::RetryAfter(30));
    let action = github.repos_ctx.handle_request_error("500 server error");
    assert_eq!(action, FetchErrorAction::Fatal);
    let action = github
        .workflows_ctx
        .handle_request_error("Rate limited for the next 12 seconds");
    assert_eq!(action, FetchErrorAction::RetryAfter(12));
}

#[test]
fn retry_results_are_empty_and_marked() {
    let github = DataPipelineGitHub::new();
    let r = github.repos_ctx.retry_result();
    assert!(r.retry);
    assert_eq!(r.total, 0);
    assert!(r.items.is_empty());
    let w = github.workflows_ctx.retry_result();
    assert!(w.retry);
    assert_eq!(w.total, 0);
    assert!(w.items.is_empty());
}

#[test]
fn success_results_carry_the_page() {
    let github = DataPipelineGitHub::new();
    let items = vec![Document {
        url: String::from("u"),
        body: String::from("{}"),
    }];
    let r = github.repos_ctx.success_result(items, 57);
    assert!(!r.retry);
    assert_eq!(r.total, 57);
    assert_eq!(r.items.len(), 1);
}

#[test]
fn empty_workflow_pages_write_no_snapshot() {
    let github = DataPipelineGitHub::new();
    let w = github.workflows_ctx.success_result(Vec::new(), 0);
    assert!(!w.should_write_snapshot());
    let w = github.workflows_ctx.success_result(
        vec![Document {
            url: String::from("u"),
            body: String::from("{}"),
        }],
        1,
    );
    assert!(w.should_write_snapshot());
}

#[test]
fn snapshot_paths_name_category_and_position() {
    assert_eq!(
        repos_snapshot_path("/w/.data/output/github/repos", 1),
        "/w/.data/output/github/repos/github-repos-1.json"
    );
    assert_eq!(
        repos_snapshot_path("/w/.data/output/github/repos", 40),
        "/w/.data/output/github/repos/github-repos-40.json"
    );
    assert_eq!(
        workflows_snapshot_path("/w/.data/output/github/workflows", "my-repo"),
        "/w/.data/output/github/workflows/my-repo.json"
    );
}

#[test]
fn the_query_scopes_the_trimmed_search_term() {
    assert_eq!(
        repos_query(" someuser\n"),
        "  in:name in:description in:readme user:someuser"
    );
}

#[test]
fn contexts_dispatch_to_the_pipeline_phases() {
    assert_eq!(run_plan(0), RunPlan::CollectArchiveSync);
    assert_eq!(run_plan(1), RunPlan::ArchiveThenSync);
    assert_eq!(run_plan(7), RunPlan::Unsupported);
}

#[test]
fn collections_dispatch_to_their_collector() {
    assert_eq!(collection_dispatch("repos"), CollectorKind::Repos);
    assert_eq!(collection_dispatch("workflows"), CollectorKind::Workflows);
    assert_eq!(collection_dispatch("gists"), CollectorKind::Unsupported);
}
