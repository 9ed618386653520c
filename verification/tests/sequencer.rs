use opendict_crawler::data::{OpendictDateTime, OpendictResult};
use opendict_crawler::query::{Category, OpendictQuery, Pos, Region};
use opendict_crawler::sequencer::{get_first_query, get_next_query, get_next_word_query};

fn query(keyword: char, page: u16, amount: u8) -> OpendictQuery {
    OpendictQuery {
        keyword,
        page,
        amount,
        pos: vec![],
        region: vec![],
        category: vec![],
    }
}

fn result_with_size(size: u32, page: u32) -> OpendictResult {
    OpendictResult {
        total: 4242,
        size,
        page,
        data_index: vec![],
        datetime: OpendictDateTime { year: 2024, month: 1, day: 2, hour: 3, minute: 4, second: 5 },
    }
}

#[test]
fn first_query_is_fixed() {
    let q = get_first_query();
    assert_eq!(q.keyword, '\u{AC00}');
    assert_eq!(q.page, 1);
    assert_eq!(q.amount, 100);
    assert!(q.pos.is_empty());
    assert!(q.region.is_empty());
    assert!(q.category.is_empty());
}

#[test]
fn full_page_increments_page() {
    // Starting query (keyword "ga", page 1, amount 100); a full page
    // moves to page 2 of the same keyword.
    let q = query('\u{AC00}', 1, 100);
    let r = result_with_size(100, 1);
    let next = get_next_query(q, Some(&r));
    assert_eq!(next, query('\u{AC00}', 2, 100));
}

#[test]
fn short_page_advances_keyword() {
    // A short page (43 of 100) exhausts the keyword: next keyword, page 1.
    let q = query('\u{AC00}', 7, 100);
    let r = result_with_size(43, 7);
    let next = get_next_query(q, Some(&r));
    assert_eq!(next, query('\u{AC01}', 1, 100));
}

#[test]
fn page_ceiling_advances_keyword_without_fetch() {
    // Page 1001 advances the keyword no matter what; no stored result is
    // consulted.
    let q = query('\u{AC00}', 1001, 100);
    let next = get_next_query(q, None);
    assert_eq!(next, query('\u{AC01}', 1, 100));
}

#[test]
fn unattempted_query_is_returned_verbatim() {
    let q = query('\u{B098}', 17, 50);
    let once = get_next_query(q.clone(), None);
    assert_eq!(once, q);
    let twice = get_next_query(once, None);
    assert_eq!(twice, q);
}

#[test]
fn zero_size_page_advances_keyword() {
    let q = query('\u{AC00}', 3, 100);
    let r = result_with_size(0, 3);
    let next = get_next_query(q, Some(&r));
    assert_eq!(next, query('\u{AC01}', 1, 100));
}

#[test]
fn full_page_at_ceiling_advances_keyword() {
    let q = query('\u{AC00}', 1000, 100);
    let r = result_with_size(100, 1000);
    let next = get_next_query(q, Some(&r));
    assert_eq!(next, query('\u{AC01}', 1, 100));
}

#[test]
fn keyword_advance_wraps_at_last_syllable() {
    let q = query('\u{D7A3}', 5, 100);
    let next = get_next_word_query(q);
    assert_eq!(next, query('\u{AC00}', 1, 100));
}

#[test]
fn keyword_advance_keeps_filters() {
    let q = OpendictQuery {
        keyword: '\u{AC00}',
        page: 9,
        amount: 20,
        pos: vec![Pos(1), Pos(5)],
        region: vec![Region(2)],
        category: vec![Category(66)],
    };
    let next = get_next_word_query(q.clone());
    assert_eq!(next.keyword, '\u{AC01}');
    assert_eq!(next.page, 1);
    assert_eq!(next.amount, 20);
    assert_eq!(next.pos, q.pos);
    assert_eq!(next.region, q.region);
    assert_eq!(next.category, q.category);
}

#[test]
fn filter_codes_are_closed_sets() {
    assert_eq!(Pos::from_code(0), None);
    assert_eq!(Pos::from_code(1), Some(Pos(1)));
    assert_eq!(Pos::from_code(27), Some(Pos(27)));
    assert_eq!(Pos::from_code(28), None);
    assert_eq!(Region::from_code(23), Some(Region(23)));
    assert_eq!(Region::from_code(24), None);
    assert_eq!(Category::from_code(66), Some(Category(66)));
    assert_eq!(Category::from_code(67), None);
}
