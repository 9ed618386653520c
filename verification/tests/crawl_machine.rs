use opendict_crawler::crawl::{
    crawl_step, initial_crawl_query, CrawlCursor, CrawlDirective, CrawlState, FetchOutcome,
    StopReason, BACKOFF_SECONDS, RETRY_CEILING,
};
use opendict_crawler::data::{OpendictDateTime, OpendictResult};
use opendict_crawler::query::OpendictQuery;
use opendict_crawler::sequencer::get_first_query;

fn query(keyword: char, page: u16, amount: u8) -> OpendictQuery {
    OpendictQuery {
        keyword,
        page,
        amount,
        pos: vec![],
        region: vec![],
        category: vec![],
    }
}

fn full_page(page: u32) -> OpendictResult {
    OpendictResult {
        total: 1000,
        size: 100,
        page,
        data_index: vec![],
        datetime: OpendictDateTime { year: 2024, month: 6, day: 1, hour: 0, minute: 0, second: 0 },
    }
}

#[test]
fn constants_match_policy() {
    assert_eq!(RETRY_CEILING, 10);
    assert_eq!(BACKOFF_SECONDS, 3);
}

#[test]
fn success_advances_and_resets() {
    let cursor = CrawlCursor { query: query('\u{AC00}', 1, 100), failures: 7 };
    let outcome = FetchOutcome::Success(full_page(1), vec![]);
    let (next, state, directive) = crawl_step(cursor, outcome);
    assert_eq!(next.query, query('\u{AC00}', 2, 100));
    assert_eq!(next.failures, 0);
    assert_eq!(state, CrawlState::Running);
    assert_eq!(directive, CrawlDirective::PersistAndContinue);
}

#[test]
fn failure_backs_off_same_query() {
    let cursor = CrawlCursor { query: query('\u{AC00}', 4, 100), failures: 0 };
    let (next, state, directive) = crawl_step(cursor, FetchOutcome::Failure);
    assert_eq!(next.query, query('\u{AC00}', 4, 100));
    assert_eq!(next.failures, 1);
    assert_eq!(state, CrawlState::BackingOff { failures: 1 });
    assert_eq!(directive, CrawlDirective::SleepAndRetry);
}

#[test]
fn ten_failures_stop_exhausted() {
    // Ten consecutive failures on the same query end the crawl without
    // ever moving the cursor.
    let start = query('\u{B098}', 12, 100);
    let mut cursor = CrawlCursor { query: start.clone(), failures: 0 };
    for round in 1..=10u8 {
        let (next, state, directive) = crawl_step(cursor, FetchOutcome::Failure);
        assert_eq!(next.query, start);
        assert_eq!(next.failures, round);
        if round < 10 {
            assert_eq!(state, CrawlState::BackingOff { failures: round });
            assert_eq!(directive, CrawlDirective::SleepAndRetry);
        } else {
            assert_eq!(state, CrawlState::Stopped { reason: StopReason::Exhausted });
            assert_eq!(directive, CrawlDirective::Halt);
        }
        cursor = next;
    }
}

#[test]
fn cancellation_stops_manually() {
    let cursor = CrawlCursor { query: query('\u{AC00}', 2, 100), failures: 3 };
    let (next, state, directive) = crawl_step(cursor, FetchOutcome::Cancelled);
    assert_eq!(next.query, query('\u{AC00}', 2, 100));
    assert_eq!(state, CrawlState::Stopped { reason: StopReason::Manual });
    assert_eq!(directive, CrawlDirective::Halt);
}

#[test]
fn initial_query_without_checkpoint_is_first() {
    let q = initial_crawl_query(None, None);
    assert_eq!(q, get_first_query());
}

#[test]
fn initial_query_reoffers_unattempted_checkpoint() {
    let checkpoint = query('\u{C544}', 30, 100);
    let q = initial_crawl_query(Some(checkpoint.clone()), None);
    assert_eq!(q, checkpoint);
}

#[test]
fn initial_query_steps_past_fetched_checkpoint() {
    let checkpoint = query('\u{C544}', 30, 100);
    let stored = full_page(30);
    let q = initial_crawl_query(Some(checkpoint), Some(&stored));
    assert_eq!(q, query('\u{C544}', 31, 100));
}
