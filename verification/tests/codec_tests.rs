use opendict_crawler::codec::{
    decode_data, decode_query, decode_result, encode_data, encode_query, encode_result,
};
use opendict_crawler::data::{OpendictData, OpendictDateTime, OpendictResult};
use opendict_crawler::query::{Category, OpendictQuery, Pos, Region};

#[test]
fn query_round_trips() {
    let q = OpendictQuery {
        keyword: '\u{AC00}',
        page: 777,
        amount: 100,
        pos: vec![Pos(1), Pos(27)],
        region: vec![Region(23)],
        category: vec![Category(5), Category(6), Category(7)],
    };
    let bytes = encode_query(&q);
    let back = decode_query(bytes.as_slice());
    assert_eq!(back, Some(q));
}

#[test]
fn query_without_filters_round_trips() {
    let q = OpendictQuery {
        keyword: '\u{D7A3}',
        page: 1,
        amount: 1,
        pos: vec![],
        region: vec![],
        category: vec![],
    };
    let bytes = encode_query(&q);
    assert_eq!(decode_query(bytes.as_slice()), Some(q));
}

#[test]
fn truncated_query_is_rejected() {
    let q = OpendictQuery {
        keyword: '\u{AC00}',
        page: 3,
        amount: 10,
        pos: vec![Pos(2)],
        region: vec![],
        category: vec![],
    };
    let mut bytes = encode_query(&q);
    bytes.pop();
    assert_eq!(decode_query(bytes.as_slice()), None);
    assert_eq!(decode_query(&[]), None);
}

#[test]
fn trailing_bytes_are_rejected() {
    let q = OpendictQuery {
        keyword: '\u{AC00}',
        page: 3,
        amount: 10,
        pos: vec![],
        region: vec![],
        category: vec![],
    };
    let mut bytes = encode_query(&q);
    bytes.push(0);
    assert_eq!(decode_query(bytes.as_slice()), None);
}

#[test]
fn result_round_trips() {
    let r = OpendictResult {
        total: 123456,
        size: 100,
        page: 42,
        data_index: vec![10, 20, 4294967295, 0],
        datetime: OpendictDateTime {
            year: 2024,
            month: 12,
            day: 31,
            hour: 23,
            minute: 59,
            second: 59,
        },
    };
    let bytes = encode_result(&r);
    assert_eq!(decode_result(bytes.as_slice()), Some(r));
}

#[test]
fn entry_round_trips() {
    let d = OpendictData {
        syntactic_annotation: Some("annotation".to_string()),
        syntactic_argument: None,
        word: "\u{AC00}\u{B098}\u{B2E4}".to_string(),
        definition: "the first syllables".to_string(),
        code: 987654,
        kind: "word class".to_string(),
        pos: "noun".to_string(),
        origin: Some("origin note".to_string()),
    };
    let bytes = encode_data(&d);
    assert_eq!(decode_data(bytes.as_slice()), Some(d));
}

#[test]
fn entry_with_empty_strings_round_trips() {
    let d = OpendictData {
        syntactic_annotation: None,
        syntactic_argument: None,
        word: String::new(),
        definition: String::new(),
        code: 0,
        kind: String::new(),
        pos: String::new(),
        origin: None,
    };
    let bytes = encode_data(&d);
    assert_eq!(decode_data(bytes.as_slice()), Some(d));
}

#[test]
fn truncated_entry_is_rejected() {
    let d = OpendictData {
        syntactic_annotation: None,
        syntactic_argument: None,
        word: "w".to_string(),
        definition: "d".to_string(),
        code: 7,
        kind: "k".to_string(),
        pos: "p".to_string(),
        origin: None,
    };
    let mut bytes = encode_data(&d);
    bytes.pop();
    assert_eq!(decode_data(bytes.as_slice()), None);
}
