//! The orchestrator's pagination policy.
//!
//! Repository collection walks a rate-limited search page by page: the
//! loop starts at page zero, advances before each fetch, keeps the
//! running progress `page * pageSize`, and continues while the progress
//! is short of the total the remote reports.  A rate-limited fetch steps
//! the page back so the same page is fetched again after the cooldown;
//! any other failure is fatal.
//!
//! Workflow-run collection is paginated per owning record instead: one
//! fetch per parent, a retry re-processing the same parent without
//! advancing the cursor.

use vstd::prelude::*;

verus! {

/// What one remote fetch came to, as the orchestrator sees it.
pub enum FetchOutcome {
    /// The fetch succeeded; the remote reported this total match count.
    Fetched { total: i64 },
    /// The fetch was throttled; retry the same position after `wait`
    /// seconds.
    RateLimited { wait: i64 },
    /// The fetch failed for any other reason.
    Failed,
}

/// What the orchestrator does next.
#[derive(Debug, PartialEq, Eq, Structural)]
pub enum StepDecision {
    /// Fetch the next position.
    Continue,
    /// Sleep `wait` seconds, then fetch the same position again.
    RetryAfter { wait: i64 },
    /// The run is complete.
    Done,
    /// The run is fatal; halt.
    Fatal,
}

/// The page counter after advancing to fetch the next page.
pub open spec fn page_after_begin(page: int) -> int {
    page + 1
}

/// The page counter after a fetch outcome is applied: a throttled fetch
/// steps back so the next advance reproduces the same page.
pub open spec fn page_after_outcome(page: int, outcome: FetchOutcome) -> int {
    match outcome {
        FetchOutcome::RateLimited { .. } => page - 1,
        _ => page,
    }
}

/// Whether the pagination loop continues after a successful fetch:
/// exactly when the progress `page * per_page` is short of the total.
pub open spec fn fetch_continues(page: int, per_page: int, total: int) -> bool {
    total > page * per_page
}

/// How many fetches a run issues when every fetch succeeds with total
/// `total`: one fetch always happens, then one per page still short.
pub open spec fn pages_needed(total: int, per_page: int) -> int {
    if total <= per_page {
        1
    } else {
        (total + per_page - 1) / per_page
    }
}

/// The page-by-page position of a repository collection run.
pub struct ReposPager {
    pub page: i64,
    pub per_page: i64,
}

impl ReposPager {
    /// A run about to fetch its first page.
    pub fn new(per_page: i64) -> (r: ReposPager)
        requires
            1 <= per_page,
        ensures
            r.page == 0,
            r.per_page == per_page,
    {
        ReposPager { page: 0, per_page }
    }

    /// Advances to the next page and returns it: the page to fetch now.
    pub fn begin_fetch(&mut self) -> (p: i64)
        requires
            old(self).page < i64::MAX,
        ensures
            final(self).page == page_after_begin(old(self).page as int),
            final(self).per_page == old(self).per_page,
            p == final(self).page,
    {
        self.page = self.page + 1;
        self.page
    }

    /// Applies the outcome of the fetch for the current page and decides
    /// what the orchestrator does next.
    pub fn apply(&mut self, outcome: &FetchOutcome) -> (d: StepDecision)
        requires
            1 <= old(self).page,
            1 <= old(self).per_page,
            old(self).page * old(self).per_page <= i64::MAX,
        ensures
            final(self).per_page == old(self).per_page,
            final(self).page == page_after_outcome(old(self).page as int, *outcome),
            match *outcome {
                FetchOutcome::Fetched { total } => (d is Continue <==> fetch_continues(
                    old(self).page as int,
                    old(self).per_page as int,
                    total as int,
                )) && (d is Done <==> !fetch_continues(
                    old(self).page as int,
                    old(self).per_page as int,
                    total as int,
                )),
                FetchOutcome::RateLimited { wait } => d == (StepDecision::RetryAfter { wait }),
                FetchOutcome::Failed => d is Fatal,
            },
    {
        match outcome {
            FetchOutcome::Fetched { total } => {
                proof {
                    assert(self.page * self.per_page >= 0) by (nonlinear_arith)
                        requires
                            self.page >= 1,
                            self.per_page >= 1,
                    ;
                }
                let progress: i64 = self.page * self.per_page;
                if *total > progress {
                    StepDecision::Continue
                } else {
                    StepDecision::Done
                }
            },
            FetchOutcome::RateLimited { wait } => {
                self.page = self.page - 1;
                StepDecision::RetryAfter { wait: *wait }
            },
            FetchOutcome::Failed => StepDecision::Fatal,
        }
    }
}

/// Law: a rate-limited page is retried, not skipped — after the step
/// back, the next advance issues exactly the page that was throttled.
pub proof fn lemma_retry_repeats_page(page: int, wait: i64)
    ensures
        page_after_begin(
            page_after_outcome(
                page_after_begin(page),
                FetchOutcome::RateLimited { wait },
            ),
        ) == page_after_begin(page),
{
}

/// Law: the first page count whose progress reaches the total is the
/// rounded-up quotient, and the page before it was still short.
pub proof fn lemma_pages_needed_is_ceil(total: int, per_page: int)
    requires
        1 <= per_page,
        1 <= total,
    ensures
        pages_needed(total, per_page) == (total + per_page - 1) / per_page,
        pages_needed(total, per_page) * per_page >= total,
        (pages_needed(total, per_page) - 1) * per_page < total,
{
    let s = per_page;
    let q = (total + s - 1) / s;
    let r = (total + s - 1) % s;
    vstd::arithmetic::div_mod::lemma_fundamental_div_mod(total + s - 1, s);
    assert(total + s - 1 == s * q + r);
    vstd::arithmetic::div_mod::lemma_mod_bound(total + s - 1, s);
    assert(0 <= r < s);
    if total <= s {
        assert(q == 1) by (nonlinear_arith)
            requires
                total + s - 1 == s * q + r,
                0 <= r < s,
                1 <= total <= s,
        ;
        assert(pages_needed(total, s) == 1);
        assert(1 * s >= total && (1 - 1) * s < total) by (nonlinear_arith)
            requires
                1 <= total <= s,
        ;
    } else {
        assert(pages_needed(total, s) == q);
        assert(q * s >= total && (q - 1) * s < total) by (nonlinear_arith)
            requires
                total + s - 1 == s * q + r,
                0 <= r < s,
                1 <= s,
        ;
    }
}

/// Law: any page count that first reaches the total is that quotient —
/// the stopping page of the pagination loop is unique.
pub proof fn lemma_stopping_page_unique(total: int, per_page: int, q: int)
    requires
        1 <= per_page,
        1 <= total,
        1 <= q,
        q * per_page >= total,
        (q - 1) * per_page < total,
    ensures
        q == pages_needed(total, per_page),
{
    lemma_pages_needed_is_ceil(total, per_page);
    let p = pages_needed(total, per_page);
    assert(q == p) by (nonlinear_arith)
        requires
            1 <= per_page,
            q * per_page >= total,
            (q - 1) * per_page < total,
            p * per_page >= total,
            (p - 1) * per_page < total,
    ;
}

/// Drives the pagination policy over a run in which every fetch
/// succeeds with the same reported total, and counts the fetch calls
/// issued: exactly one when nothing matches, otherwise exactly the
/// total divided by the page size, rounded up.
pub fn count_fetches_all_success(total: i64, per_page: i64) -> (n: u64)
    requires
        1 <= per_page,
        0 <= total,
        total + per_page <= i64::MAX,
    ensures
        1 <= total ==> n == pages_needed(total as int, per_page as int),
        total == 0 ==> n == 1,
{
    let mut pager = ReposPager::new(per_page);
    let mut fetches: u64 = 0;
    loop
        invariant_except_break
            pager.page == 0 || pager.page as int * per_page < total,
        invariant
            pager.per_page == per_page,
            1 <= per_page,
            0 <= total,
            total + per_page <= i64::MAX,
            0 <= pager.page,
            fetches == pager.page,
        ensures
            1 <= fetches == pager.page,
            pager.page as int * per_page >= total,
            pager.page == 1 || (pager.page as int - 1) * per_page < total,
        decreases total - pager.page as int * per_page,
    {
        let ghost p0 = pager.page as int;
        proof {
            assert(pager.page < i64::MAX && (p0 + 1) * per_page == p0 * per_page + per_page && p0
                <= p0 * per_page) by (nonlinear_arith)
                requires
                    0 <= p0 == pager.page,
                    1 <= per_page,
                    total + per_page <= i64::MAX,
                    p0 == 0 || p0 * per_page < total,
            ;
        }
        let p = pager.begin_fetch();
        fetches = fetches + 1;
        proof {
            assert(pager.page as int * per_page <= i64::MAX);
        }
        let outcome = FetchOutcome::Fetched { total };
        let decision = pager.apply(&outcome);
        match decision {
            StepDecision::Continue => {
            },
            _ => {
                break ;
            },
        }
    }
    proof {
        if total >= 1 {
            if pager.page == 1 {
                assert((1 - 1) * (per_page as int) == 0) by (nonlinear_arith);
            }
            lemma_stopping_page_unique(total as int, per_page as int, pager.page as int);
        } else {
            if pager.page != 1 {
                assert((pager.page as int - 1) * per_page >= 0) by (nonlinear_arith)
                    requires
                        1 <= pager.page,
                        1 <= per_page,
                ;
            }
        }
    }
    fetches
}

/// The per-parent position of a workflow-run collection: one fetch per
/// owning record loaded from the repository snapshots.
pub struct WorkflowsCursor {
    pub index: usize,
    pub count: usize,
}

/// The cursor after a fetch outcome is applied: only a successful fetch
/// advances to the next parent.
pub open spec fn index_after_outcome(index: int, outcome: FetchOutcome) -> int {
    match outcome {
        FetchOutcome::Fetched { .. } => index + 1,
        _ => index,
    }
}

impl WorkflowsCursor {
    /// A run over `count` parent records, about to process the first.
    pub fn new(count: usize) -> (r: WorkflowsCursor)
        ensures
            r.index == 0,
            r.count == count,
    {
        WorkflowsCursor { index: 0, count }
    }

    /// The parent to fetch now, `None` when every parent is processed.
    pub fn current(&self) -> (r: Option<usize>)
        ensures
            match r {
                Some(i) => self.index < self.count && i == self.index,
                None => self.index >= self.count,
            },
    {
        if self.index < self.count {
            Some(self.index)
        } else {
            None
        }
    }

    /// Applies the outcome of the fetch for the current parent: success
    /// advances the cursor, a throttled fetch holds it for a retry of
    /// the same parent, any other failure is fatal.
    pub fn apply(&mut self, outcome: &FetchOutcome) -> (d: StepDecision)
        requires
            old(self).index < old(self).count,
        ensures
            final(self).count == old(self).count,
            final(self).index == index_after_outcome(old(self).index as int, *outcome),
            match *outcome {
                FetchOutcome::Fetched { .. } => (d is Continue <==> final(self).index
                    < final(self).count) && (d is Done <==> final(self).index == final(
                    self).count),
                FetchOutcome::RateLimited { wait } => d == (StepDecision::RetryAfter { wait }),
                FetchOutcome::Failed => d is Fatal,
            },
    {
        match outcome {
            FetchOutcome::Fetched { .. } => {
                self.index = self.index + 1;
                if self.index < self.count {
                    StepDecision::Continue
                } else {
                    StepDecision::Done
                }
            },
            FetchOutcome::RateLimited { wait } => StepDecision::RetryAfter { wait: *wait },
            FetchOutcome::Failed => StepDecision::Fatal,
        }
    }
}

/// Law: a throttled parent fetch re-processes the same parent; the
/// cursor does not advance past it.
pub proof fn lemma_retry_same_parent(index: int, wait: i64)
    ensures
        index_after_outcome(index, FetchOutcome::RateLimited { wait }) == index,
{
}

} // verus!
