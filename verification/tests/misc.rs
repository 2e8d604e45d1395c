use bettercpt::crash_report::{is_crash_log_name, plugin_dir_name, CrashReport};
use bettercpt::ipc::{IpcError, IpcResponse};
use bettercpt::json::JsonValue;
use bettercpt::settings::AppSettings;
use bettercpt::splash::{advance, centered_pos, progress_bar_origin};

#[test]
fn error_codes_and_messages() {
    assert_eq!(IpcError::ParseError.code(), -32700);
    assert_eq!(IpcError::Timeout.code(), -32003);
    assert_eq!(IpcError::WidgetNotFound.message(), "Widget not found");
    assert_eq!(IpcError::InvalidRequest.message(), "Invalid request");
    let r = IpcResponse::error(4, IpcError::PermissionDenied, None);
    let e = r.error.unwrap();
    assert_eq!((e.code, e.message.as_str()), (-32000, "Permission denied"));
    let ok = IpcResponse::success(5, JsonValue::Bool(true));
    assert!(ok.error.is_none() && ok.id == 5);
}

#[test]
fn crash_file_names() {
    let report = CrashReport {
        plugin_id: "@bettercpt/dock".into(),
        timestamp: "1700000000".into(),
        runtime: "widget".into(),
        reason: "x".into(),
        stack_trace: "y".into(),
        isolate_state: "running".into(),
        crash_count: 1,
    };
    assert_eq!(report.file_name(), "bettercpt-dock-1700000000.json");
    assert_eq!(plugin_dir_name("@a/b/c"), "a-b-c");
    assert!(is_crash_log_name("a-1.json"));
    assert!(is_crash_log_name("a..json"));
    assert!(!is_crash_log_name(".json"));
    assert!(!is_crash_log_name("a.json.bak"));
    assert!(!is_crash_log_name("json"));
    assert!(!is_crash_log_name("a.JSON"));
}

#[test]
fn default_settings() {
    let s = AppSettings::default();
    assert!(s.auto_start && !s.minimize_to_tray && !s.dev_mode);
    assert_eq!(s.theme, "light");
    assert_eq!(s.max_crash_restart, 5);
    assert_eq!(s.storage_quota, "1 MB");
    assert_eq!(s.log_level, "Info");
}

#[test]
fn splash_geometry() {
    assert_eq!(centered_pos(1920, 1080), (460, 200));
    assert_eq!(centered_pos(999, 679), (0, 0));
    assert_eq!(centered_pos(997, 677), (-1, -1));
    assert_eq!(progress_bar_origin(), (300, 338));
    assert_eq!(advance(0), 16);
    assert_eq!(advance(496), 512);
    assert_eq!(advance(512), 512);
}
