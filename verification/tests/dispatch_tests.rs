use snippets_store::dispatch::{dispatch, Command};
use snippets_store::json::JsonStorage;
use snippets_store::rows::{from_rows, to_rows};
use snippets_store::store::SnippetMap;
use snippets_store::timestamp::Timestamp;

fn ts(year: u16, month: u8, day: u8, hour: u8, minute: u8, second: u8, nanosecond: u32) -> Timestamp {
    Timestamp { year, month, day, hour, minute, second, nanosecond, offset_minutes: 0 }
}

#[test]
fn dispatch_create_then_read() {
    let map = SnippetMap::new();
    let t = ts(2023, 1, 15, 12, 0, 0, 0);
    let r = dispatch(map, Command::Create { name: "greeting".into(), content: "hello world".into() }, t);
    assert!(r.save);
    assert_eq!(r.output, vec!["Snippet saved.".to_string()]);

    let r2 = dispatch(r.map, Command::Read { name: "greeting".into() }, ts(2023, 1, 16, 0, 0, 0, 0));
    assert!(!r2.save);
    assert_eq!(r2.output.len(), 2);
    assert_eq!(r2.output[0], "Created at: 2023-01-15T12:00:00.000000000+00:00");
    assert_eq!(r2.output[1], "hello world");
}

#[test]
fn dispatch_create_saves_through_json() {
    let storage = match snippets_store::config::parse_storage_config("JSON:/tmp/s.json") {
        Ok(snippets_store::config::StorageConfig::Json(p)) => JsonStorage::new(p),
        other => panic!("expected the file backend, got {:?}", other),
    };
    assert_eq!(storage.path, "/tmp/s.json");
    let t = ts(2023, 1, 15, 12, 0, 0, 0);
    let r = dispatch(
        SnippetMap::new(),
        Command::Create { name: "greeting".into(), content: "hello world".into() },
        t,
    );
    let text = storage.encode(&r.map);
    let loaded = storage.decode(Some(&text)).unwrap();
    assert_eq!(loaded.get("greeting").unwrap().content, "hello world");
    assert_eq!(loaded.get("greeting").unwrap().created_at, t);
}

#[test]
fn dispatch_read_missing() {
    let map = SnippetMap::new();
    let r = dispatch(map, Command::Read { name: "missing".into() }, ts(2023, 1, 1, 0, 0, 0, 0));
    assert!(!r.save);
    assert_eq!(r.output, vec!["Snippet not found.".to_string()]);
}

#[test]
fn dispatch_create_create_delete_leaves_rest() {
    let t = ts(2023, 5, 5, 5, 5, 5, 5);
    let r1 = dispatch(SnippetMap::new(), Command::Create { name: "a".into(), content: "one".into() }, t);
    let r2 = dispatch(r1.map, Command::Create { name: "b".into(), content: "two".into() }, t);
    let r3 = dispatch(r2.map, Command::Delete { name: "a".into() }, t);
    assert!(r3.save);
    assert_eq!(r3.output, vec!["Snippet deleted.".to_string()]);

    let reloaded = from_rows(&to_rows(&r3.map)).unwrap();
    assert_eq!(reloaded.len(), 1);
    assert!(reloaded.get("a").is_none());
    assert_eq!(reloaded.get("b").unwrap().content, "two");
}

#[test]
fn dispatch_delete_missing_is_no_op() {
    let t = ts(2023, 5, 5, 5, 5, 5, 5);
    let r1 = dispatch(SnippetMap::new(), Command::Create { name: "keep".into(), content: "v".into() }, t);
    let storage = JsonStorage::new("s.json".to_string());
    let before = storage.encode(&r1.map);

    let r2 = dispatch(r1.map, Command::Delete { name: "absent".into() }, t);
    assert!(!r2.save);
    assert_eq!(r2.output, vec!["Snippet not found.".to_string()]);
    assert_eq!(storage.encode(&r2.map), before);
}

#[test]
fn dispatch_overwrite_replaces_content_and_timestamp() {
    let t1 = ts(2023, 1, 1, 1, 1, 1, 1);
    let t2 = ts(2024, 2, 2, 2, 2, 2, 2);
    let r1 = dispatch(SnippetMap::new(), Command::Create { name: "x".into(), content: "old".into() }, t1);
    let r2 = dispatch(r1.map, Command::Create { name: "x".into(), content: "new".into() }, t2);
    assert_eq!(r2.map.len(), 1);
    let s = r2.map.get("x").unwrap();
    assert_eq!(s.content, "new");
    assert_eq!(s.created_at, t2);
}

#[test]
fn dispatch_usage_lines() {
    let r = dispatch(SnippetMap::new(), Command::Usage, ts(2023, 1, 1, 0, 0, 0, 0));
    assert!(!r.save);
    assert_eq!(
        r.output,
        vec![
            "Usage:".to_string(),
            "  --name <name> [--download URL]".to_string(),
            "  --read <name>".to_string(),
            "  --delete <name>".to_string(),
        ]
    );
}
