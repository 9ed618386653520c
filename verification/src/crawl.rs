//! The crawl loop's decision core: a state machine over fetch outcomes.
//!
//! The loop itself performs the blocking work (the fetch, the backoff
//! sleep, the persistence calls); this module decides, from the current
//! cursor and the outcome of one fetch attempt, what the loop does next.
//! The cursor only moves forward on confirmed success, so a transient
//! remote failure never skips data, and after a fixed ceiling of
//! consecutive failures on the same query the crawl stops.

use vstd::prelude::*;
use crate::data::{OpendictData, OpendictResult, ResultView};
use crate::query::{OpendictQuery, QueryView};
use crate::sequencer::{get_next_query, spec_next_query};

verus! {

/// Consecutive failures on one query after which the crawl gives up.
pub const RETRY_CEILING: u8 = 10;

/// Seconds the loop sleeps before retrying a failed fetch.
pub const BACKOFF_SECONDS: u64 = 3;

/// Why a crawl stopped.
#[derive(Debug, Clone, Copy, PartialEq, Eq, Structural)]
pub enum StopReason {
    /// The retry ceiling was reached on a single query.
    Exhausted,
    /// An external cancellation ended the crawl.
    Manual,
}

/// The crawl loop's state.
#[derive(Debug, Clone, Copy, PartialEq, Eq, Structural)]
pub enum CrawlState {
    /// The last attempt succeeded (or the crawl just started).
    Running,
    /// The last `failures` attempts on the current query failed.
    BackingOff { failures: u8 },
    /// The crawl ended.
    Stopped { reason: StopReason },
}

/// What one fetch attempt came to.
pub enum FetchOutcome {
    /// The page decoded; it carries the page result and its entries.
    Success(OpendictResult, Vec<OpendictData>),
    /// Transport failure, bad status, or a response that failed to
    /// decode: the loop treats them all alike.
    Failure,
    /// An external cancellation was observed between iterations.
    Cancelled,
}

/// What the loop must do after a step.
#[derive(Debug, Clone, Copy, PartialEq, Eq, Structural)]
pub enum CrawlDirective {
    /// Persist the page, its entries and the new checkpoint, then fetch
    /// the next query.
    PersistAndContinue,
    /// Sleep for the backoff interval, then retry the same query.
    SleepAndRetry,
    /// Stop; perform no further fetch and no further write.
    Halt,
}

/// The position of a crawl between two fetch attempts: the query to
/// attempt next and how often it has failed in a row.
pub struct CrawlCursor {
    pub query: OpendictQuery,
    pub failures: u8,
}

/// The mathematical value of a cursor.
#[verifier::ext_equal]
pub struct CursorView {
    pub query: QueryView,
    pub failures: u8,
}

impl View for CrawlCursor {
    type V = CursorView;

    open spec fn view(&self) -> CursorView {
        CursorView { query: self.query@, failures: self.failures }
    }
}

/// The outcome of a step on a failed fetch: the query is kept, the
/// failure count rises, and at the ceiling the crawl stops exhausted.
pub open spec fn spec_step_failure(c: CursorView) -> (CursorView, CrawlState, CrawlDirective) {
    let failures = if c.failures < RETRY_CEILING {
        (c.failures + 1) as u8
    } else {
        c.failures
    };
    if failures >= RETRY_CEILING {
        (
            CursorView { query: c.query, failures },
            CrawlState::Stopped { reason: StopReason::Exhausted },
            CrawlDirective::Halt,
        )
    } else {
        (
            CursorView { query: c.query, failures },
            CrawlState::BackingOff { failures },
            CrawlDirective::SleepAndRetry,
        )
    }
}

/// The outcome of a step on a successful fetch: the failure count resets
/// and the sequencer, fed the page result just fetched, yields the next
/// query.
pub open spec fn spec_step_success(c: CursorView, fetched: ResultView) -> (
    CursorView,
    CrawlState,
    CrawlDirective,
) {
    (
        CursorView { query: spec_next_query(c.query, Some(fetched)), failures: 0 },
        CrawlState::Running,
        CrawlDirective::PersistAndContinue,
    )
}

/// Decide the loop's next move from one fetch outcome.
///
/// On success the caller persists the page result, its entries and the
/// checkpoint, and continues with the returned cursor. On failure the
/// same query is retried after a backoff sleep, until the retry ceiling
/// stops the crawl. On cancellation the crawl stops at once.
pub fn crawl_step(cursor: CrawlCursor, outcome: FetchOutcome) -> (r: (
    CrawlCursor,
    CrawlState,
    CrawlDirective,
))
    requires
        cursor@.query.wf(),
    ensures
        r.0@.query.wf(),
        outcome matches FetchOutcome::Success(data, _) ==> (r.0@, r.1, r.2)
            == spec_step_success(cursor@, data@),
        outcome is Failure ==> (r.0@, r.1, r.2) == spec_step_failure(cursor@),
        outcome is Cancelled ==> r.0@ == cursor@ && r.1 == (CrawlState::Stopped {
            reason: StopReason::Manual,
        }) && r.2 == CrawlDirective::Halt,
{
    match outcome {
        FetchOutcome::Success(data, _entries) => {
            let next = get_next_query(cursor.query, Some(&data));
            let c = CrawlCursor { query: next, failures: 0 };
            proof {
                assert(c@ =~= spec_step_success(cursor@, data@).0);
            }
            (c, CrawlState::Running, CrawlDirective::PersistAndContinue)
        },
        FetchOutcome::Failure => {
            let failures: u8 = if cursor.failures < RETRY_CEILING {
                cursor.failures + 1
            } else {
                cursor.failures
            };
            let c = CrawlCursor { query: cursor.query, failures };
            proof {
                assert(c@ =~= spec_step_failure(cursor@).0);
            }
            if failures >= RETRY_CEILING {
                (c, CrawlState::Stopped { reason: StopReason::Exhausted }, CrawlDirective::Halt)
            } else {
                (c, CrawlState::BackingOff { failures }, CrawlDirective::SleepAndRetry)
            }
        },
        FetchOutcome::Cancelled => {
            let c = CrawlCursor { query: cursor.query, failures: cursor.failures };
            proof {
                assert(c@ =~= cursor@);
            }
            (c, CrawlState::Stopped { reason: StopReason::Manual }, CrawlDirective::Halt)
        },
    }
}

/// The query a crawl starts from: the sequencer's step past the stored
/// checkpoint where one exists and is well formed, else the fixed first
/// query.
pub fn initial_crawl_query(checkpoint: Option<OpendictQuery>, stored: Option<&OpendictResult>) -> (
    r: OpendictQuery)
    ensures
        r@.wf(),
        match checkpoint {
            Some(q) => {
                &&& q@.wf() ==> r@ == spec_next_query(
                    q@,
                    crate::sequencer::opt_result_view(stored),
                )
                &&& !q@.wf() ==> r@ == crate::sequencer::spec_first_query()
            },
            None => r@ == crate::sequencer::spec_first_query(),
        },
{
    match checkpoint {
        Some(q) => {
            if crate::query::query_wf(&q) {
                get_next_query(q, stored)
            } else {
                crate::sequencer::get_first_query()
            }
        },
        None => crate::sequencer::get_first_query(),
    }
}

/// The cursor, state and directive after `n` consecutive failed attempts
/// starting from cursor `c`.
pub open spec fn spec_after_failures(c: CursorView, n: nat) -> (CursorView, CrawlState,
    CrawlDirective)
    decreases n,
{
    if n == 0 {
        (c, CrawlState::Running, CrawlDirective::PersistAndContinue)
    } else {
        spec_step_failure(spec_after_failures(c, (n - 1) as nat).0)
    }
}

/// Failed attempts never move the cursor's query: however many failures
/// accumulate, the query under retry is the one that was failing, so the
/// checkpoint (written only on `PersistAndContinue`) never advances past
/// the last successful query.
pub proof fn lemma_failures_keep_query(c: CursorView, n: nat)
    ensures
        spec_after_failures(c, n).0.query == c.query,
        forall|k: nat| 1 <= k <= n ==> #[trigger] spec_after_failures(c, k).2
            != CrawlDirective::PersistAndContinue,
    decreases n,
{
    if n > 0 {
        lemma_failures_keep_query(c, (n - 1) as nat);
    }
}

/// The retry ceiling: starting from a fresh cursor (no failures yet),
/// exactly `RETRY_CEILING` consecutive failures on the same query leave
/// the crawl stopped as exhausted, with the query never advanced and no
/// step in between having asked for a checkpoint write.
pub proof fn lemma_retry_ceiling_stops_crawl(c: CursorView)
    requires
        c.failures == 0,
    ensures
        spec_after_failures(c, RETRY_CEILING as nat).1 == (CrawlState::Stopped {
            reason: StopReason::Exhausted,
        }),
        spec_after_failures(c, RETRY_CEILING as nat).2 == CrawlDirective::Halt,
        spec_after_failures(c, RETRY_CEILING as nat).0.query == c.query,
        forall|k: nat| 1 <= k < RETRY_CEILING ==> #[trigger] spec_after_failures(c, k).1
            == (CrawlState::BackingOff { failures: k as u8 }),
{
    lemma_failures_keep_query(c, RETRY_CEILING as nat);
    assert forall|k: nat| 1 <= k < RETRY_CEILING implies #[trigger] spec_after_failures(c, k).1
        == (CrawlState::BackingOff { failures: k as u8 }) by {
        lemma_failures_count_up(c, k);
    }
    lemma_failures_count_up(c, (RETRY_CEILING - 1) as nat);
}

/// Below the ceiling, each failed attempt raises the failure count by
/// exactly one and leaves the loop backing off.
proof fn lemma_failures_count_up(c: CursorView, n: nat)
    requires
        c.failures == 0,
        n < RETRY_CEILING,
    ensures
        spec_after_failures(c, n).0.failures == n,
        n >= 1 ==> spec_after_failures(c, n).1 == (CrawlState::BackingOff { failures: n as u8 }),
    decreases n,
{
    if n > 0 {
        lemma_failures_count_up(c, (n - 1) as nat);
    }
}

} // verus!
