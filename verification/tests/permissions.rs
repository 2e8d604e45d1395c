use bettercpt::permissions::{check_ceilings, CeilingError};

fn strings(v: &[&str]) -> Vec<String> {
    v.iter().map(|s| s.to_string()).collect()
}

#[test]
fn widget_can_use_widget_overlay() {
    assert!(check_ceilings("widget", &["widget:overlay".into()], &["storage".into()]).is_ok());
}

#[test]
fn widget_cannot_fs_write() {
    assert!(check_ceilings("widget", &[], &["fs:write".into()]).is_err());
}

#[test]
fn widget_cannot_fs_read() {
    assert!(check_ceilings("widget", &[], &["fs:read".into()]).is_err());
}

#[test]
fn script_can_fs_read_write() {
    assert!(check_ceilings(
        "script",
        &["window:create".into()],
        &["fs:read".into(), "fs:write".into(), "network:fetch".into()]
    )
    .is_ok());
}

#[test]
fn script_cannot_widget_overlay() {
    assert!(check_ceilings("script", &["widget:overlay".into()], &[]).is_err());
}

#[test]
fn unknown_runtime_rejected() {
    assert!(check_ceilings("native", &[], &[]).is_err());
}

#[test]
fn first_offender_is_reported() {
    assert_eq!(check_ceilings("native", &strings(&["x"]), &[]), Err(CeilingError::UnknownRuntime));
    assert_eq!(
        check_ceilings("widget", &strings(&["notification", "fs:admin", "other"]), &strings(&["fs:write"])),
        Err(CeilingError::CapabilityExceedsCeiling("fs:admin".to_string()))
    );
    assert_eq!(
        check_ceilings("script", &strings(&["notification"]), &strings(&["storage", "system:info", "clipboard", "x"])),
        Err(CeilingError::PermissionExceedsCeiling("clipboard".to_string()))
    );
}

#[test]
fn full_script_ceiling_accepted() {
    assert!(check_ceilings(
        "script",
        &strings(&["window:create", "notification"]),
        &strings(&["fs:read", "fs:write", "network:fetch", "storage", "dialog:open", "dialog:save", "system:info"])
    )
    .is_ok());
}
