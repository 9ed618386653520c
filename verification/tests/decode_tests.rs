use opendict_crawler::data::OpendictDateTime;
use opendict_crawler::decode::{parse_datetime, parse_u32, string_to_result, DecodeError};

fn sense_json(code: u32) -> String {
    format!(
        "{{\"sense\":[{{\"definition\":\"a meaning\",\"link\":\"https://example\",\"origin\":\"hanja\",\"pos\":\"noun\",\"sense_no\":\"1\",\"target_code\":\"{}\",\"type\":\"general\",\"cat\":\"\",\"syntacticAnnotation\":\"note\"}}],\"word\":\"\u{AC00}\u{B098}\"}}",
        code
    )
}

fn channel_json(items: &[String]) -> String {
    format!(
        "{{\"channel\":{{\"lastbuilddate\":\"20240102030405\",\"total\":5000,\"num\":100,\"start\":7,\"item\":[{}]}}}}",
        items.join(",")
    )
}

#[test]
fn response_decodes_to_page_and_entries() {
    let body = channel_json(&[sense_json(12345), sense_json(67890)]);
    let (result, items) = string_to_result(body.as_str()).unwrap();
    assert_eq!(result.total, 5000);
    assert_eq!(result.size, 100);
    assert_eq!(result.page, 7);
    assert_eq!(result.data_index, vec![12345, 67890]);
    assert_eq!(
        result.datetime,
        OpendictDateTime { year: 2024, month: 1, day: 2, hour: 3, minute: 4, second: 5 }
    );
    assert_eq!(items.len(), 2);
    assert_eq!(items[0].code, 12345);
    assert_eq!(items[0].word, "\u{AC00}\u{B098}");
    assert_eq!(items[0].definition, "a meaning");
    assert_eq!(items[0].kind, "general");
    assert_eq!(items[0].pos, "noun");
    assert_eq!(items[0].origin, Some("hanja".to_string()));
    assert_eq!(items[0].syntactic_annotation, Some("note".to_string()));
    assert_eq!(items[0].syntactic_argument, None);
    assert_eq!(items[1].code, 67890);
}

#[test]
fn not_json_is_rejected() {
    assert_eq!(string_to_result("no json here"), Err(DecodeError::BadJson));
}

#[test]
fn missing_channel_is_rejected() {
    assert_eq!(string_to_result("{\"other\":1}"), Err(DecodeError::MissingField));
}

#[test]
fn two_senses_are_rejected() {
    let item = "{\"sense\":[{\"definition\":\"a\",\"pos\":\"n\",\"target_code\":\"1\",\"type\":\"t\"},{\"definition\":\"b\",\"pos\":\"n\",\"target_code\":\"2\",\"type\":\"t\"}],\"word\":\"w\"}".to_string();
    let body = channel_json(&[item]);
    assert_eq!(string_to_result(body.as_str()), Err(DecodeError::SenseCount));
}

#[test]
fn unknown_sense_key_is_rejected() {
    let item = "{\"sense\":[{\"definition\":\"a\",\"pos\":\"n\",\"target_code\":\"1\",\"type\":\"t\",\"surprise\":\"x\"}],\"word\":\"w\"}".to_string();
    let body = channel_json(&[item]);
    assert_eq!(string_to_result(body.as_str()), Err(DecodeError::UnknownKey));
}

#[test]
fn bad_target_code_is_rejected() {
    let item = "{\"sense\":[{\"definition\":\"a\",\"pos\":\"n\",\"target_code\":\"12x\",\"type\":\"t\"}],\"word\":\"w\"}".to_string();
    let body = channel_json(&[item]);
    assert_eq!(string_to_result(body.as_str()), Err(DecodeError::BadNumber));
}

#[test]
fn missing_word_is_rejected() {
    let item = "{\"sense\":[{\"definition\":\"a\",\"pos\":\"n\",\"target_code\":\"1\",\"type\":\"t\"}]}".to_string();
    let body = channel_json(&[item]);
    assert_eq!(string_to_result(body.as_str()), Err(DecodeError::MissingField));
}

#[test]
fn bad_build_date_is_rejected() {
    let body = "{\"channel\":{\"lastbuilddate\":\"2024-01-02\",\"total\":1,\"num\":1,\"start\":1,\"item\":[]}}";
    assert_eq!(string_to_result(body), Err(DecodeError::BadDatetime));
}

#[test]
fn empty_item_list_decodes() {
    let body = channel_json(&[]);
    let (result, items) = string_to_result(body.as_str()).unwrap();
    assert_eq!(result.data_index, Vec::<u32>::new());
    assert!(items.is_empty());
}

#[test]
fn parse_u32_exact_values() {
    assert_eq!(parse_u32("0"), Some(0));
    assert_eq!(parse_u32("123"), Some(123));
    assert_eq!(parse_u32("007"), Some(7));
    assert_eq!(parse_u32("4294967295"), Some(4294967295));
    assert_eq!(parse_u32("4294967296"), None);
    assert_eq!(parse_u32("99999999999999999999"), None);
    assert_eq!(parse_u32(""), None);
    assert_eq!(parse_u32("12a"), None);
    assert_eq!(parse_u32("-1"), None);
    assert_eq!(parse_u32(" 1"), None);
}

#[test]
fn parse_datetime_exact_values() {
    assert_eq!(
        parse_datetime("20240229123456"),
        Some(OpendictDateTime { year: 2024, month: 2, day: 29, hour: 12, minute: 34, second: 56 })
    );
    // 2023 is no leap year.
    assert_eq!(parse_datetime("20230229000000"), None);
    // Month 13, hour 24, and wrong lengths do not name a time.
    assert_eq!(parse_datetime("20231301000000"), None);
    assert_eq!(parse_datetime("20230101240000"), None);
    assert_eq!(parse_datetime("2023010100000"), None);
    assert_eq!(parse_datetime("202301010000000"), None);
    assert_eq!(parse_datetime("2023010100000x"), None);
    // A century year that is no leap year.
    assert_eq!(parse_datetime("19000229000000"), None);
    assert_eq!(
        parse_datetime("20000229000000"),
        Some(OpendictDateTime { year: 2000, month: 2, day: 29, hour: 0, minute: 0, second: 0 })
    );
}

#[test]
fn decoding_is_deterministic() {
    let body = channel_json(&[sense_json(31415)]);
    let first = string_to_result(body.as_str());
    let second = string_to_result(body.as_str());
    assert_eq!(first, second);
    let bad = string_to_result("][");
    assert_eq!(bad, string_to_result("]["));
}
