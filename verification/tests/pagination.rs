use data_pipeline::pagination::{
    count_fetches_all_success, FetchOutcome, ReposPager, StepDecision, WorkflowsCursor,
};

#[test]
fn scenario_total_twelve_page_size_five() {
    // total = 12, pageSize = 5: fetches for pages 1, 2, 3, stopping after
    // page 3 since 15 >= 12.
    let mut pager = ReposPager::new(5);
    let mut pages = Vec::new();
    loop {
        let page = pager.begin_fetch();
        pages.push(page);
        let decision = pager.apply(&FetchOutcome::Fetched { total: 12 });
        match decision {
            StepDecision::Continue => {}
            StepDecision::Done => break,
            _ => panic!("unexpected decision"),
        }
    }
    assert_eq!(pages, vec![1, 2, 3]);
    assert_eq!(count_fetches_all_success(12, 5), 3);
}

#[test]
fn scenario_rate_limited_page_two() {
    // The fetch for page 2 is throttled for 30 seconds: the orchestrator
    // is told to wait 30 seconds and the next fetch issued is page 2 again.
    let mut pager = ReposPager::new(5);
    assert_eq!(pager.begin_fetch(), 1);
    assert!(matches!(
        pager.apply(&FetchOutcome::Fetched { total: 12 }),
        StepDecision::Continue
    ));
    assert_eq!(pager.begin_fetch(), 2);
    let decision = pager.apply(&FetchOutcome::RateLimited { wait: 30 });
    assert_eq!(decision, StepDecision::RetryAfter { wait: 30 });
    assert_eq!(pager.begin_fetch(), 2);
}

#[test]
fn fetch_counts_match_the_rounded_up_quotient() {
    assert_eq!(count_fetches_all_success(0, 5), 1);
    assert_eq!(count_fetches_all_success(1, 5), 1);
    assert_eq!(count_fetches_all_success(5, 5), 1);
    assert_eq!(count_fetches_all_success(6, 5), 2);
    assert_eq!(count_fetches_all_success(10, 5), 2);
    assert_eq!(count_fetches_all_success(11, 5), 3);
    assert_eq!(count_fetches_all_success(100, 1), 100);
    assert_eq!(count_fetches_all_success(7, 100), 1);
}

#[test]
fn any_other_failure_is_fatal() {
    let mut pager = ReposPager::new(5);
    pager.begin_fetch();
    assert!(matches!(
        pager.apply(&FetchOutcome::Failed),
        StepDecision::Fatal
    ));
}

#[test]
fn workflows_cursor_advances_only_on_success() {
    let mut cursor = WorkflowsCursor::new(2);
    assert_eq!(cursor.current(), Some(0));
    // A throttled parent fetch holds the cursor for a retry.
    let decision = cursor.apply(&FetchOutcome::RateLimited { wait: 30 });
    assert_eq!(decision, StepDecision::RetryAfter { wait: 30 });
    assert_eq!(cursor.current(), Some(0));
    // Success advances to the next parent.
    assert!(matches!(
        cursor.apply(&FetchOutcome::Fetched { total: 4 }),
        StepDecision::Continue
    ));
    assert_eq!(cursor.current(), Some(1));
    // The last parent finishes the run.
    assert!(matches!(
        cursor.apply(&FetchOutcome::Fetched { total: 4 }),
        StepDecision::Done
    ));
    assert_eq!(cursor.current(), None);
}
