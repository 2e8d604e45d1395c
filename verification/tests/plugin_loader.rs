use bettercpt::capability::CapabilityRegistry;
use bettercpt::manifest::Manifest;
use bettercpt::permissions::CeilingError;
use bettercpt::plugin_loader::{
    check_admission, install_dir_name, register_installed, register_starting, LoadError, Observation, PluginLoader,
};
use bettercpt::registry::{RegistryError, RuntimeRegistry};

fn manifest(runtime: &str, caps: &[&str], perms: &[&str]) -> Manifest {
    Manifest {
        id: "@local/test".into(),
        runtime: runtime.into(),
        capabilities: caps.iter().map(|s| s.to_string()).collect(),
        permissions: perms.iter().map(|s| s.to_string()).collect(),
        entry: "main.js".into(),
        engine: String::new(),
        name: "Test".into(),
        version: "1.0.0".into(),
    }
}

#[test]
fn admission_checks_ceilings_then_registration() {
    let mut caps = CapabilityRegistry::new();
    assert_eq!(check_admission(&manifest("widget", &["widget:overlay"], &["storage"]), &caps), Ok(()));
    assert_eq!(
        check_admission(&manifest("widget", &["custom:x"], &[]), &caps),
        Err(LoadError::Ceiling(CeilingError::CapabilityExceedsCeiling("custom:x".into())))
    );
    assert_eq!(
        check_admission(&manifest("native", &[], &[]), &caps),
        Err(LoadError::Ceiling(CeilingError::UnknownRuntime))
    );
    let fresh = CapabilityRegistry::new();
    assert!(fresh.has("notification"));
    caps.register_capability("window:create", "again").unwrap();
    assert_eq!(check_admission(&manifest("script", &["window:create", "notification"], &["fs:read"]), &caps), Ok(()));
}

#[test]
fn registration_statuses() {
    let mut reg = RuntimeRegistry::new();
    let m = manifest("widget", &[], &[]);
    register_starting("@local/test", &m, &mut reg).unwrap();
    assert_eq!(reg.get("@local/test").unwrap().status, "starting");
    assert_eq!(register_installed(&m, &mut reg), Err(LoadError::Registry(RegistryError::AlreadyRegistered)));
    let mut reg2 = RuntimeRegistry::new();
    register_installed(&m, &mut reg2).unwrap();
    assert_eq!(reg2.get("@local/test").unwrap().status, "installed");
    assert_eq!(reg2.get("@local/test").unwrap().runtime_type, "widget");
}

#[test]
fn install_directory_names() {
    assert_eq!(install_dir_name("@bettercpt/dock"), "bettercpt-dock");
    assert_eq!(install_dir_name("plain"), "plain");
}

fn obs(id: &str, mtime: u128, code: &str) -> Observation {
    Observation { plugin_id: id.into(), mtime, code: code.into() }
}

#[test]
fn hot_reload_only_newer_files() {
    let mut w = PluginLoader::new("/builtin".into(), "/user".into());
    assert_eq!(w.builtin_dir(), "/builtin");
    assert_eq!(w.user_dir(), "/user");
    w.watch("a", "/p/a.js".into(), 10);
    w.watch("b", "/p/b.js".into(), 10);
    let changed = w.check_hot_reload(&vec![obs("a", 10, "same"), obs("b", 11, "new b"), obs("c", 99, "unwatched")]);
    assert_eq!(changed, vec![("b".to_string(), "new b".to_string())]);
    let again = w.check_hot_reload(&vec![obs("b", 11, "new b")]);
    assert!(again.is_empty());
    let watched = w.watched();
    assert_eq!(watched.len(), 2);
    assert!(watched.contains(&("b".to_string(), "/p/b.js".to_string(), 11)));
}
