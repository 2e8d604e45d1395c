use bettercpt::capability::CapabilityRegistry;

#[test]
fn pre_registered_capabilities_present() {
    let reg = CapabilityRegistry::new();
    assert!(reg.has("widget:overlay"));
    assert!(reg.has("window:create"));
    assert!(reg.has("notification"));
}

#[test]
fn register_new_capability() {
    let mut reg = CapabilityRegistry::new();
    reg.register_capability("custom:test", "Test capability").unwrap();
    assert!(reg.has("custom:test"));
}

#[test]
fn unknown_capability_not_present() {
    let reg = CapabilityRegistry::new();
    assert!(!reg.has("unknown:power"));
}

#[test]
fn registered_capability_keeps_its_description() {
    let mut reg = CapabilityRegistry::new();
    reg.register_capability("custom:test", "Test capability").unwrap();
    let b = reg.get("custom:test").unwrap();
    assert_eq!(b.name, "custom:test");
    assert_eq!(b.description, "Test capability");
    assert!(reg.get("custom:other").is_none());
}

#[test]
fn list_holds_each_capability_once() {
    let mut reg = CapabilityRegistry::new();
    assert_eq!(reg.list().len(), 3);
    reg.register_capability("custom:test", "Test").unwrap();
    assert_eq!(reg.list().len(), 4);
    reg.register_capability("custom:test", "Replaced").unwrap();
    assert_eq!(reg.list().len(), 4);
    assert_eq!(reg.get("custom:test").unwrap().description, "Replaced");
}
