use bettercpt::json::{JsonNumber, JsonValue};
use bettercpt::registry::{RegistryError, RuntimeEntry, RuntimeRegistry};

fn entry(id: &str, runtime: &str, status: &str) -> RuntimeEntry {
    RuntimeEntry { id: id.into(), runtime_type: runtime.into(), status: status.into() }
}

#[test]
fn register_get_and_unregister() {
    let mut reg = RuntimeRegistry::new();
    reg.register(entry("@a/one", "widget", "starting")).unwrap();
    assert_eq!(reg.register(entry("@a/one", "script", "x")), Err(RegistryError::AlreadyRegistered));
    assert_eq!(reg.count(), 1);
    assert_eq!(reg.get("@a/one").unwrap().runtime_type, "widget");
    reg.update_status("@a/one", "running").unwrap();
    assert_eq!(reg.get("@a/one").unwrap().status, "running");
    assert_eq!(reg.update_status("@a/two", "running"), Err(RegistryError::NotFound));
    reg.unregister("@a/one").unwrap();
    assert!(reg.get("@a/one").is_none());
    assert_eq!(reg.unregister("@a/one"), Err(RegistryError::NotFound));
    assert_eq!(reg.count(), 0);
}

#[test]
fn monitoring_data() {
    let mut reg = RuntimeRegistry::new();
    assert_eq!(reg.crash_count("p"), 0);
    reg.record_crash("p");
    reg.record_crash("p");
    assert_eq!(reg.crash_count("p"), 2);
    reg.update_memory("p", 4096);
    reg.update_heartbeat("p", "1700000000");
    reg.register(entry("p", "widget", "running")).unwrap();
    let snap = reg.snapshot();
    assert_eq!(snap.len(), 1);
    assert_eq!(snap[0].memory_bytes, 4096);
    assert_eq!(snap[0].crash_count, 2);
    assert_eq!(snap[0].last_heartbeat.as_deref(), Some("1700000000"));
}

#[test]
fn runtime_snapshot_json() {
    let mut reg = RuntimeRegistry::new();
    reg.register(entry("@a/one", "widget", "running")).unwrap();
    reg.register(entry("@a/two", "script", "stopped")).unwrap();
    reg.update_memory("@a/two", 10);
    let v = reg.get_runtime_snapshot();
    assert!(matches!(v.get("total"), Some(JsonValue::Number(JsonNumber::PosInt(2)))));
    let plugins = match v.get("plugins") {
        Some(JsonValue::Array(items)) => items,
        _ => panic!("plugins is not an array"),
    };
    assert_eq!(plugins.len(), 2);
    assert_eq!(plugins[0].get("id").and_then(|x| x.as_str()), Some("@a/one"));
    assert_eq!(plugins[0].get("memory_bytes").and_then(|x| x.as_u64()), Some(0));
    assert!(matches!(plugins[0].get("last_heartbeat"), Some(JsonValue::Null)));
    assert_eq!(plugins[1].get("status").and_then(|x| x.as_str()), Some("stopped"));
    assert_eq!(plugins[1].get("memory_bytes").and_then(|x| x.as_u64()), Some(10));
    assert_eq!(plugins[1].get("crash_count").and_then(|x| x.as_u64()), Some(0));
}

#[test]
fn list_returns_each_entry_once() {
    let mut reg = RuntimeRegistry::new();
    reg.register(entry("x", "widget", "a")).unwrap();
    reg.register(entry("y", "widget", "b")).unwrap();
    let l = reg.list().unwrap();
    let mut ids: Vec<String> = l.iter().map(|e| e.id.clone()).collect();
    ids.sort();
    assert_eq!(ids, vec!["x", "y"]);
}
