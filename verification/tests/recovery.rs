use bettercpt::recovery::{chrono_like_now, timestamp_from, RecoveryError, RecoveryManager, MAX_RESTARTS};
use bettercpt::registry::{RegistryError, RuntimeEntry, RuntimeRegistry};

fn registry_with(id: &str) -> RuntimeRegistry {
    let mut reg = RuntimeRegistry::new();
    reg.register(RuntimeEntry { id: id.into(), runtime_type: "widget".into(), status: "running".into() }).unwrap();
    reg
}

#[test]
fn five_restarts_then_refused() {
    let mut rm = RecoveryManager::new();
    let mut reg = registry_with("@a/p");
    for n in 1..=MAX_RESTARTS {
        let (report, outcome) = rm.on_crash_at("@a/p", "boom", "at x", n.to_string(), &mut reg);
        assert_eq!(outcome, Ok(()));
        assert_eq!(report.crash_count, n);
        assert_eq!(report.timestamp, n.to_string());
        assert_eq!(reg.get("@a/p").unwrap().status, "recovering");
        assert!(!rm.exceeded("@a/p"));
    }
    let (report, outcome) = rm.on_crash_at("@a/p", "boom", "at x", "t".into(), &mut reg);
    assert_eq!(outcome, Err(RecoveryError::MaxRestartsExceeded));
    assert_eq!(report.crash_count, 6);
    assert_eq!(reg.get("@a/p").unwrap().status, "crashed (max restarts exceeded)");
    assert!(rm.exceeded("@a/p"));
    assert_eq!(reg.crash_count("@a/p"), 6);
}

#[test]
fn report_of_unregistered_plugin() {
    let mut rm = RecoveryManager::new();
    let mut reg = RuntimeRegistry::new();
    let (report, outcome) = rm.on_crash_at("@a/q", "why", "stack", "1".into(), &mut reg);
    assert_eq!(outcome, Err(RecoveryError::Registry(RegistryError::NotFound)));
    assert_eq!(report.runtime, "unknown");
    assert_eq!(report.isolate_state, "unknown");
    assert_eq!(report.reason, "why");
    assert_eq!(report.stack_trace, "stack");
    assert_eq!(rm.crash_count("@a/q"), 1);
    assert_eq!(reg.crash_count("@a/q"), 1);
}

#[test]
fn report_times() {
    assert_eq!(timestamp_from(Some(1700000000)), "1700000000");
    assert_eq!(timestamp_from(None), "unknown");
    let now = chrono_like_now();
    assert!(now == "unknown" || now.chars().all(|c| c.is_ascii_digit()));
    let mut rm = RecoveryManager::new();
    let mut reg = registry_with("p");
    let (report, _) = rm.on_crash("p", "r", "s", &mut reg);
    assert!(report.timestamp.chars().all(|c| c.is_ascii_digit()));
    assert_eq!(report.runtime, "widget");
    assert_eq!(report.isolate_state, "running");
}
