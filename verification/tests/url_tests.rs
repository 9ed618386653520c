use opendict_crawler::query::{Category, OpendictQuery, Pos, Region};
use opendict_crawler::url::build_search_url;

#[test]
fn url_with_empty_filters_uses_sentinel_zero() {
    let q = OpendictQuery {
        keyword: '\u{AC00}',
        page: 1,
        amount: 100,
        pos: vec![],
        region: vec![],
        category: vec![],
    };
    let url = build_search_url(&q, "api-key-value");
    assert_eq!(
        url,
        "https://opendict.korean.go.kr/api/search?key=api-key-value&q=\u{AC00}&req_type=json&start=1&num=100&method=include&advanced=y&pos=0&region=0&cat=0"
    );
}

#[test]
fn url_joins_filter_codes_with_commas() {
    let q = OpendictQuery {
        keyword: '\u{D7A3}',
        page: 1000,
        amount: 7,
        pos: vec![Pos(1), Pos(12), Pos(27)],
        region: vec![Region(23)],
        category: vec![Category(5), Category(66)],
    };
    let url = build_search_url(&q, "k");
    assert_eq!(
        url,
        "https://opendict.korean.go.kr/api/search?key=k&q=\u{D7A3}&req_type=json&start=1000&num=7&method=include&advanced=y&pos=1,12,27&region=23&cat=5,66"
    );
}
