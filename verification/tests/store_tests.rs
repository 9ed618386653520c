use opendict_crawler::data::{OpendictData, OpendictDateTime, OpendictResult};
use opendict_crawler::gzip::{gzip_compress, gzip_decompress, gzip_round_trip};
use opendict_crawler::query::{OpendictQuery, Pos};
use opendict_crawler::store::{
    checkpoint_round_trip, credential_round_trip, persist_and_reload_item,
    persist_and_reload_page, OpendictStore,
};

fn query(keyword: char, page: u16) -> OpendictQuery {
    OpendictQuery {
        keyword,
        page,
        amount: 100,
        pos: vec![Pos(3)],
        region: vec![],
        category: vec![],
    }
}

fn page_result() -> OpendictResult {
    OpendictResult {
        total: 250,
        size: 100,
        page: 1,
        data_index: vec![11, 22, 33],
        datetime: OpendictDateTime { year: 2024, month: 3, day: 9, hour: 8, minute: 7, second: 6 },
    }
}

fn entry(code: u32, word: &str) -> OpendictData {
    OpendictData {
        syntactic_annotation: None,
        syntactic_argument: Some("argument".to_string()),
        word: word.to_string(),
        definition: format!("definition of {}", word),
        code,
        kind: "general".to_string(),
        pos: "noun".to_string(),
        origin: None,
    }
}

#[test]
fn gzip_round_trips_any_payload() {
    let payload = b"some bytes, compressed and restored".to_vec();
    let restored = gzip_round_trip(payload.as_slice());
    assert_eq!(restored, Some(payload));

    let empty: Vec<u8> = vec![];
    assert_eq!(gzip_round_trip(empty.as_slice()), Some(empty));
}

#[test]
fn gzip_compress_then_decompress_is_identity() {
    let payload: Vec<u8> = (0u16..2000).map(|i| (i % 251) as u8).collect();
    let compressed = gzip_compress(payload.as_slice());
    assert_eq!(gzip_decompress(compressed.as_slice()), Some(payload));
}

#[test]
fn gzip_rejects_garbage() {
    assert_eq!(gzip_decompress(b"not a gzip stream"), None);
}

#[test]
fn credential_is_stored_and_read_back() {
    let mut store = OpendictStore::open_temporary().unwrap();
    assert_eq!(store.get_opendict_key().unwrap(), None);
    store.set_opendict_key("SECRET-REDACTED").unwrap();
    assert_eq!(store.get_opendict_key().unwrap(), Some("SECRET-REDACTED".to_string()));
    store.set_opendict_key("another-key").unwrap();
    assert_eq!(store.get_opendict_key().unwrap(), Some("another-key".to_string()));
}

#[test]
fn checkpoint_is_stored_and_read_back() {
    let mut store = OpendictStore::open_temporary().unwrap();
    assert_eq!(store.get_opendict_last_inserted().unwrap(), None);
    let q = query('\u{BC14}', 88);
    store.set_opendict_last_inserted(&q).unwrap();
    assert_eq!(store.get_opendict_last_inserted().unwrap(), Some(q));
}

#[test]
fn page_result_is_saved_and_opened() {
    let mut store = OpendictStore::open_temporary().unwrap();
    let q = query('\u{AC00}', 1);
    let result = page_result();

    store.insert_opendict_data::<false>(&q, result.clone()).unwrap();
    let queries = store.get_opendict_saved_queries().unwrap();
    assert!(queries.contains(&q));
    let saved = store.get_opendict_data(&q).unwrap();
    assert_eq!(saved, Some(result));
    // The checkpoint was not asked for, so none was written.
    assert_eq!(store.get_opendict_last_inserted().unwrap(), None);
}

#[test]
fn page_result_insert_can_log_checkpoint() {
    let mut store = OpendictStore::open_temporary().unwrap();
    let q = query('\u{AC01}', 2);
    store.insert_opendict_data::<true>(&q, page_result()).unwrap();
    assert_eq!(store.get_opendict_last_inserted().unwrap(), Some(q));
}

#[test]
fn absent_page_result_reads_as_none() {
    let store = OpendictStore::open_temporary().unwrap();
    assert_eq!(store.get_opendict_data(&query('\u{AC00}', 9)).unwrap(), None);
}

#[test]
fn entries_are_saved_and_opened_by_code() {
    let mut store = OpendictStore::open_temporary().unwrap();
    let items = vec![entry(11, "first"), entry(22, "second"), entry(33, "third")];
    for item in &items {
        store.insert_opendict_item(item).unwrap();
        assert_eq!(store.get_opendict_item(item.code).unwrap(), Some(item.clone()));
    }
    assert_eq!(store.get_opendict_item(44).unwrap(), None);
}

#[test]
fn entry_overwrite_by_code_supersedes() {
    let mut store = OpendictStore::open_temporary().unwrap();
    store.insert_opendict_item(&entry(7, "old")).unwrap();
    store.insert_opendict_item(&entry(7, "new")).unwrap();
    assert_eq!(store.get_opendict_item(7).unwrap(), Some(entry(7, "new")));
}

#[test]
fn saved_queries_are_deduplicated() {
    let mut store = OpendictStore::open_temporary().unwrap();
    let q1 = query('\u{AC00}', 1);
    let q2 = query('\u{AC00}', 2);
    store.insert_opendict_data::<false>(&q1, page_result()).unwrap();
    store.insert_opendict_data::<false>(&q2, page_result()).unwrap();
    // Writing the same query again supersedes, it does not duplicate.
    store.insert_opendict_data::<false>(&q1, page_result()).unwrap();
    let queries = store.get_opendict_saved_queries().unwrap();
    assert_eq!(queries.len(), 2);
    assert!(queries.contains(&q1));
    assert!(queries.contains(&q2));
}

#[test]
fn round_trip_laws_hold_on_real_storage() {
    let mut store = OpendictStore::open_temporary().unwrap();
    let q = query('\u{C0AC}', 250);
    let result = page_result();
    let item = entry(909, "word");

    assert_eq!(persist_and_reload_page(&mut store, &q, result.clone()), Ok(result));
    assert_eq!(persist_and_reload_item(&mut store, &item), Ok(item));
    assert_eq!(checkpoint_round_trip(&mut store, &q), Ok(q));
    assert_eq!(
        credential_round_trip(&mut store, "some-api-key"),
        Ok("some-api-key".to_string())
    );
}

#[test]
fn item_codes_come_back_sorted() {
    let mut store = OpendictStore::open_temporary().unwrap();
    for code in [300u32, 5, 4294967295, 17, 256] {
        store.insert_opendict_item(&entry(code, "w")).unwrap();
    }
    let codes = store.get_opendict_item_codes().unwrap();
    assert_eq!(codes, vec![5, 17, 256, 300, 4294967295]);
}
