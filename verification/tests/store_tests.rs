use snippets_store::chars::{chars_of, string_from_chars};
use snippets_store::clock::now_timestamp;
use snippets_store::config::{parse_storage_config, StorageConfig};
use snippets_store::error::StoreError;
use snippets_store::json::JsonStorage;
use snippets_store::rows::{from_rows, to_rows, Row};
use snippets_store::store::{Snippet, SnippetMap};
use snippets_store::timestamp::{parse_rfc3339, render_rfc3339, Timestamp};

fn ts(year: u16, month: u8, day: u8, hour: u8, minute: u8, second: u8, nanosecond: u32) -> Timestamp {
    Timestamp { year, month, day, hour, minute, second, nanosecond, offset_minutes: 0 }
}

#[test]
fn test_snippet_creation() {
    let s = Snippet { content: "hello".into(), created_at: now_timestamp() };
    assert_eq!(s.content, "hello");
}

#[test]
fn test_json_storage_save_load() {
    let storage = JsonStorage::new("snippets.json".to_string());
    let mut map = SnippetMap::new();
    map.insert(
        "test".into(),
        Snippet { content: "content".into(), created_at: now_timestamp() },
    );
    let text = storage.encode(&map);

    let storage = JsonStorage::new("snippets.json".to_string());
    let loaded = storage.decode(Some(&text)).unwrap();

    assert_eq!(loaded.len(), 1);
    assert_eq!(loaded.get("test").unwrap().content, "content");
}

#[test]
fn now_timestamp_is_calendar_valid() {
    let t = now_timestamp();
    assert!(t.year >= 1970);
    assert!((1..=12).contains(&t.month));
    assert!((1..=31).contains(&t.day));
    assert!(t.hour <= 23 && t.minute <= 59 && t.second <= 59);
    assert!(t.nanosecond < 1_000_000_000);
    assert_eq!(t.offset_minutes, 0);
}

#[test]
fn timestamp_renders_canonical_rfc3339() {
    let t = ts(2023, 1, 15, 12, 34, 56, 123000000);
    let s = string_from_chars(&render_rfc3339(&t));
    assert_eq!(s, "2023-01-15T12:34:56.123000000+00:00");
}

#[test]
fn timestamp_renders_negative_offset() {
    let mut t = ts(1999, 12, 31, 23, 59, 59, 0);
    t.offset_minutes = -90;
    let s = string_from_chars(&render_rfc3339(&t));
    assert_eq!(s, "1999-12-31T23:59:59.000000000-01:30");
}

#[test]
fn timestamp_parse_inverts_render() {
    let mut t = ts(2024, 2, 29, 0, 0, 7, 999999999);
    t.offset_minutes = 330;
    let v = render_rfc3339(&t);
    assert_eq!(parse_rfc3339(&v), Some(t));
}

#[test]
fn timestamp_parse_rejects_malformed() {
    assert_eq!(parse_rfc3339(&chars_of("2023-01-15")), None);
    assert_eq!(parse_rfc3339(&chars_of("2023-13-15T12:34:56.000000000+00:00")), None);
    assert_eq!(parse_rfc3339(&chars_of("2023-02-30T12:34:56.000000000+00:00")), None);
    assert_eq!(parse_rfc3339(&chars_of("2023-01-15T12:34:56.000000000-00:00")), None);
    assert_eq!(parse_rfc3339(&chars_of("2023-01-15 12:34:56.000000000+00:00")), None);
}

#[test]
fn json_text_exact() {
    let storage = JsonStorage::new("s.json".to_string());
    let mut map = SnippetMap::new();
    map.insert("a".into(), Snippet { content: "b".into(), created_at: ts(2023, 1, 15, 12, 34, 56, 1) });
    let text = storage.encode(&map);
    assert_eq!(
        text,
        "{\n  \"a\": {\n    \"content\": \"b\",\n    \"created_at\": \"2023-01-15T12:34:56.000000001+00:00\"\n  }\n}"
    );
}

#[test]
fn json_empty_renders_braces() {
    let storage = JsonStorage::new("s.json".to_string());
    let map = SnippetMap::new();
    assert_eq!(storage.encode(&map), "{}");
    let loaded = storage.decode(Some(&"{}".to_string())).unwrap();
    assert_eq!(loaded.len(), 0);
}

#[test]
fn json_round_trip_escapes() {
    let storage = JsonStorage::new("s.json".to_string());
    let mut map = SnippetMap::new();
    let wild = "he said \"hi\"\nline2\ttab\\end\u{1}bel";
    map.insert("q\"uote".into(), Snippet { content: wild.into(), created_at: ts(2020, 6, 1, 8, 0, 0, 0) });
    map.insert("plain".into(), Snippet { content: "text".into(), created_at: ts(2021, 7, 2, 9, 30, 0, 42) });
    let text = storage.encode(&map);
    let loaded = storage.decode(Some(&text)).unwrap();
    assert_eq!(loaded.len(), 2);
    assert_eq!(loaded.get("q\"uote").unwrap().content, wild);
    assert_eq!(loaded.get("q\"uote").unwrap().created_at, ts(2020, 6, 1, 8, 0, 0, 0));
    assert_eq!(loaded.get("plain").unwrap().content, "text");
    assert_eq!(loaded.get("plain").unwrap().created_at, ts(2021, 7, 2, 9, 30, 0, 42));
}

#[test]
fn json_decode_missing_file_is_empty() {
    let storage = JsonStorage::new("fresh.json".to_string());
    let loaded = storage.decode(None).unwrap();
    assert_eq!(loaded.len(), 0);
}

#[test]
fn json_decode_rejects_garbage() {
    let storage = JsonStorage::new("s.json".to_string());
    assert_eq!(storage.decode(Some(&"not json".to_string())).unwrap_err(), StoreError::StorageReadError);
    assert_eq!(storage.decode(Some(&"".to_string())).unwrap_err(), StoreError::StorageReadError);
    assert_eq!(
        storage
            .decode(Some(&"{\n  \"a\": {\n    \"content\": \"b\",\n    \"created_at\": \"nope\"\n  }\n}".to_string()))
            .unwrap_err(),
        StoreError::StorageReadError
    );
}

#[test]
fn rows_round_trip() {
    let mut map = SnippetMap::new();
    map.insert("hello".into(), Snippet { content: "world".into(), created_at: ts(2022, 3, 4, 5, 6, 7, 8) });
    map.insert("bye".into(), Snippet { content: "moon".into(), created_at: ts(2023, 4, 5, 6, 7, 8, 9) });
    let rows = to_rows(&map);
    assert_eq!(rows.len(), 2);
    let loaded = from_rows(&rows).unwrap();
    assert_eq!(loaded.len(), 2);
    assert_eq!(loaded.get("hello").unwrap().content, "world");
    assert_eq!(loaded.get("hello").unwrap().created_at, ts(2022, 3, 4, 5, 6, 7, 8));
    assert_eq!(loaded.get("bye").unwrap().content, "moon");
}

#[test]
fn rows_reject_bad_timestamp() {
    let rows = vec![Row {
        name: "x".to_string(),
        content: "y".to_string(),
        created_at: "yesterday".to_string(),
    }];
    assert_eq!(from_rows(&rows).unwrap_err(), StoreError::StorageReadError);
}

#[test]
fn selector_no_separator_fails() {
    match parse_storage_config("JSONpath") {
        Err(StoreError::ConfigurationError) => {}
        other => panic!("expected a configuration error, got {:?}", other),
    }
}

#[test]
fn selector_unknown_kind_fails() {
    match parse_storage_config("XML:/tmp/x") {
        Err(StoreError::ConfigurationError) => {}
        other => panic!("expected a configuration error, got {:?}", other),
    }
}

#[test]
fn selector_selects_backends() {
    match parse_storage_config("JSON:/tmp/a.json") {
        Ok(StorageConfig::Json(p)) => assert_eq!(p, "/tmp/a.json"),
        other => panic!("expected the file backend, got {:?}", other),
    }
    match parse_storage_config("SQLITE:/tmp/b:with:colons") {
        Ok(StorageConfig::Sqlite(p)) => assert_eq!(p, "/tmp/b:with:colons"),
        other => panic!("expected the relational backend, got {:?}", other),
    }
}
