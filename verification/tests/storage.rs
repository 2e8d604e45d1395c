use bettercpt::json::{JsonNumber, JsonValue};
use bettercpt::storage::{PluginStorage, StorageError, STORAGE_QUOTA_BYTES};
use serde_json::Value;

fn test_storage(plugin_id: &str) -> PluginStorage {
    PluginStorage::new(plugin_id)
}

fn text_of(v: &Value) -> String {
    serde_json::to_string(v).unwrap()
}

fn value_of(t: &str) -> Value {
    serde_json::from_str(t).unwrap()
}

#[test]
fn set_and_get() {
    let mut s = test_storage("test");
    s.set("key1", text_of(&Value::from("value1"))).unwrap();
    assert_eq!(s.get("key1").map(|t| value_of(t)), Some(Value::from("value1")));
}

#[test]
fn delete_key() {
    let mut s = test_storage("test");
    s.set("temp", text_of(&Value::from(42))).unwrap();
    s.delete("temp");
    assert_eq!(s.get("temp"), None);
}

#[test]
fn quota_exceeded() {
    let mut s = test_storage("test");
    let big = "x".repeat(800_000);
    assert!(s.set("big", text_of(&Value::from(big))).is_ok());
    let more = "y".repeat(300_000);
    assert!(s.set("more", text_of(&Value::from(more))).is_err());
}

#[test]
fn check_quota_rejects_over_limit() {
    let s = test_storage("test");
    assert!(s.check_quota(STORAGE_QUOTA_BYTES + 1).is_err());
    assert!(s.check_quota(STORAGE_QUOTA_BYTES).is_ok());
}

#[test]
fn size_counts_key_and_value_bytes() {
    let mut s = test_storage("test");
    s.set("k", "\"é\"".to_string()).unwrap();
    assert_eq!(s.current_size(), 1 + 4);
    s.set("k", "12".to_string()).unwrap();
    assert_eq!(s.current_size(), 1 + 2);
    s.set("other", "true".to_string()).unwrap();
    assert_eq!(s.current_size(), 3 + 9);
    s.delete("k");
    assert_eq!(s.current_size(), 9);
    s.delete("absent");
    assert_eq!(s.current_size(), 9);
}

#[test]
fn refused_write_changes_nothing() {
    let mut s = test_storage("test");
    s.set("a", "1".to_string()).unwrap();
    let too_big = format!("\"{}\"", "z".repeat(STORAGE_QUOTA_BYTES as usize));
    assert_eq!(s.set("a", too_big), Err(StorageError::QuotaExceeded));
    assert_eq!(s.get("a").map(|t| t.as_str()), Some("1"));
    assert_eq!(s.current_size(), 2);
}

#[test]
fn write_exactly_to_the_quota_is_accepted() {
    let mut s = test_storage("test");
    let value = "v".repeat(STORAGE_QUOTA_BYTES as usize - 1);
    assert!(s.set("k", value).is_ok());
    assert_eq!(s.current_size(), STORAGE_QUOTA_BYTES);
    assert!(s.set("j", "1".to_string()).is_err());
}

#[test]
fn load_recomputes_size() {
    let mut s = test_storage("test");
    s.set("old", "1".to_string()).unwrap();
    s.load(vec![("a".to_string(), "[1,2]".to_string()), ("bb".to_string(), "null".to_string())]);
    assert_eq!(s.current_size(), 1 + 5 + 2 + 4);
    assert_eq!(s.get("old"), None);
    assert_eq!(s.get("bb").map(|t| t.as_str()), Some("null"));
    let entries = s.entries();
    assert_eq!(entries.len(), 2);
}

#[test]
fn a_value_is_stored_as_its_compact_text() {
    let mut s = PluginStorage::new("p");
    let v = JsonValue::Object(vec![
        ("b".to_string(), JsonValue::Array(vec![JsonValue::Number(JsonNumber::PosInt(1)), JsonValue::Null])),
        ("a".to_string(), JsonValue::String("x".to_string())),
    ]);
    s.set_value("k", &v).unwrap();
    assert_eq!(s.get("k").map(|t| t.as_str()), Some("{\"a\":\"x\",\"b\":[1,null]}"));
    assert_eq!(s.current_size(), 1 + 22);
}
