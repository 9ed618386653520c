//! The query sequencer: the next query from the previous query's outcome.
//!
//! Pure and deterministic. Given the query just attempted and the page
//! result stored for it (if any), the sequencer decides whether to retry
//! the same query, turn to the next page, or advance to the next keyword.
//! A query that was never fetched is re-offered verbatim, which makes the
//! function safe to call repeatedly with the same checkpoint after a
//! restart.

use vstd::prelude::*;
use crate::alphabet::{advance_keyword, next_keyword, FIRST_KEYWORD};
use crate::data::{OpendictResult, ResultView};
use crate::query::{OpendictQuery, QueryView, MAX_AMOUNT, PAGE_CEILING};

verus! {

/// The fixed query a fresh crawl starts from: first keyword, first page,
/// a full page requested, no filters.
pub open spec fn spec_first_query() -> QueryView {
    QueryView {
        keyword: FIRST_KEYWORD,
        page: 1,
        amount: MAX_AMOUNT,
        pos: Seq::empty(),
        region: Seq::empty(),
        category: Seq::empty(),
    }
}

/// A keyword advance: the next keyword of the circular alphabet, page
/// reset to 1, everything else kept.
pub open spec fn spec_next_word_query(q: QueryView) -> QueryView {
    QueryView { keyword: next_keyword(q.keyword), page: 1, ..q }
}

/// The sequencer's decision, given the query just attempted and the page
/// result stored for it, if any:
/// - a page beyond the ceiling always forces a keyword advance;
/// - an unattempted query (no stored result) is returned unchanged;
/// - a full page (`size == amount`) turns to the next page, unless that
///   would pass the ceiling, in which case the keyword advances;
/// - a short page signals exhaustion and advances the keyword.
pub open spec fn spec_next_query(q: QueryView, searched: Option<ResultView>) -> QueryView {
    if q.page > PAGE_CEILING {
        spec_next_word_query(q)
    } else {
        match searched {
            None => q,
            Some(s) => {
                if s.size != q.amount {
                    spec_next_word_query(q)
                } else if q.page + 1 > PAGE_CEILING {
                    spec_next_word_query(q)
                } else {
                    QueryView { page: (q.page + 1) as u16, ..q }
                }
            },
        }
    }
}

/// The view of an optional borrowed page result.
pub open spec fn opt_result_view(r: Option<&OpendictResult>) -> Option<ResultView> {
    match r {
        Some(s) => Some(s@),
        None => None,
    }
}

/// The fixed first query of a crawl.
pub fn get_first_query() -> (q: OpendictQuery)
    ensures
        q@ == spec_first_query(),
        q@.wf(),
{
    let q = OpendictQuery {
        keyword: FIRST_KEYWORD,
        page: 1,
        amount: MAX_AMOUNT,
        pos: Vec::new(),
        region: Vec::new(),
        category: Vec::new(),
    };
    proof {
        assert(q@ =~= spec_first_query());
    }
    q
}

/// Advance to the next keyword of the circular alphabet, resetting the
/// page to 1 and keeping the amount and the filters.
pub fn get_next_word_query(query: OpendictQuery) -> (r: OpendictQuery)
    requires
        query@.wf(),
    ensures
        r@ == spec_next_word_query(query@),
        r@.wf(),
{
    let ghost orig = query@;
    let mut query = query;
    query.page = 1;
    query.keyword = advance_keyword(query.keyword);
    proof {
        assert(query@ =~= spec_next_word_query(orig));
    }
    query
}

/// The next query to attempt after `query`, whose stored page result, if
/// one exists, is `searched`. An unattempted query comes back unchanged.
pub fn get_next_query(query: OpendictQuery, searched: Option<&OpendictResult>) -> (r:
    OpendictQuery)
    requires
        query@.wf(),
    ensures
        r@ == spec_next_query(query@, opt_result_view(searched)),
        r@.wf(),
{
    if query.page > PAGE_CEILING {
        return get_next_word_query(query);
    }
    let searched = match searched {
        Some(s) => s,
        None => {
            return query;
        },
    };
    if searched.size != query.amount as u32 {
        get_next_word_query(query)
    } else {
        let ghost before = query@;
        let mut query = query;
        query.page = query.page + 1;
        proof {
            assert(query@ =~= QueryView { page: (before.page + 1) as u16, ..before });
        }
        if query.page > PAGE_CEILING {
            query = get_next_word_query(query);
        }
        query
    }
}

/// A page beyond the ceiling always forces a keyword advance: whatever
/// was or was not stored for the query, the next query starts page 1 of
/// the next keyword in the cyclic alphabet.
pub proof fn lemma_page_ceiling_forces_keyword_advance(q: QueryView, searched: Option<ResultView>)
    requires
        q.page > PAGE_CEILING,
    ensures
        spec_next_query(q, searched).page == 1,
        spec_next_query(q, searched).keyword == next_keyword(q.keyword),
        spec_next_query(q, searched).amount == q.amount,
        spec_next_query(q, searched).pos == q.pos,
        spec_next_query(q, searched).region == q.region,
        spec_next_query(q, searched).category == q.category,
{
}

/// A full page (stored `size` equal to the requested `amount`) turns to
/// the next page of the same keyword with the filters kept, unless that
/// would pass the ceiling, in which case the keyword advances.
pub proof fn lemma_full_page_increments_page(q: QueryView, s: ResultView)
    requires
        q.page <= PAGE_CEILING,
        s.size == q.amount,
    ensures
        q.page < PAGE_CEILING ==> spec_next_query(q, Some(s)) == (QueryView {
            page: (q.page + 1) as u16,
            ..q
        }),
        q.page == PAGE_CEILING ==> spec_next_query(q, Some(s)) == spec_next_word_query(q),
{
}

/// A short page (stored `size` strictly below the requested `amount`,
/// however small, including zero) advances to the next keyword with page
/// 1, keeping the amount and the filters.
pub proof fn lemma_short_page_advances_keyword(q: QueryView, s: ResultView)
    requires
        q.page <= PAGE_CEILING,
        s.size < q.amount,
    ensures
        spec_next_query(q, Some(s)) == spec_next_word_query(q),
        spec_next_query(q, Some(s)).page == 1,
        spec_next_query(q, Some(s)).keyword == next_keyword(q.keyword),
{
}

/// Idempotence on unattempted queries: a query within the page ceiling
/// that has no stored page result is re-offered verbatim, so asking twice
/// gives the identical query both times.
pub proof fn lemma_unattempted_query_unchanged(q: QueryView)
    requires
        q.page <= PAGE_CEILING,
    ensures
        spec_next_query(q, None) == q,
        spec_next_query(spec_next_query(q, None), None) == q,
{
}

} // verus!
