use bettercpt::manifest::{
    check_engine_version, parse_semver, semver_gte, validate_manifest, validate_plugin_id, EngineError, Manifest,
    ManifestError, SemverError, HOST_VERSION,
};

#[test]
fn valid_plugin_ids() {
    assert!(validate_plugin_id("@local/test").is_ok());
    assert!(validate_plugin_id("@bettercpt/dock").is_ok());
    assert!(validate_plugin_id("@a/b").is_ok());
    assert!(validate_plugin_id("@foo-bar/my-plugin-2").is_ok());
}

#[test]
fn invalid_plugin_ids() {
    assert!(validate_plugin_id("no-at-sign").is_err());
    assert!(validate_plugin_id("@").is_err());
    assert!(validate_plugin_id("@/name").is_err());
    assert!(validate_plugin_id("@author/").is_err());
    assert!(validate_plugin_id("@Author/name").is_err());
    assert!(validate_plugin_id("@author/Name").is_err());
    assert!(validate_plugin_id("@author/n@me").is_err());
    assert!(validate_plugin_id("@author/pkg/sub").is_err());
}

#[test]
fn engine_version_star_or_empty() {
    assert!(check_engine_version("*").is_ok());
    assert!(check_engine_version("").is_ok());
    assert!(check_engine_version(">=0.1.0").is_ok());
}

#[test]
fn plugin_id_must_start_with_letters() {
    assert!(validate_plugin_id("@1a/b").is_err());
    assert!(validate_plugin_id("@a/-b").is_err());
    assert!(validate_plugin_id("@a/b1-").is_ok());
    assert_eq!(validate_plugin_id("x"), Err(ManifestError::InvalidPluginId));
}

#[test]
fn semver_parsing() {
    assert_eq!(parse_semver("1.2.3"), Ok((1, 2, 3)));
    assert_eq!(parse_semver("  10.0.42 \n"), Ok((10, 0, 42)));
    assert_eq!(parse_semver("+1.2.3"), Ok((1, 2, 3)));
    assert_eq!(parse_semver("1.2"), Err(SemverError::PartCount));
    assert_eq!(parse_semver("1.2.3.4"), Err(SemverError::PartCount));
    assert_eq!(parse_semver("a.2.3"), Err(SemverError::InvalidMajor));
    assert_eq!(parse_semver("1..3"), Err(SemverError::InvalidMinor));
    assert_eq!(parse_semver("1.2.4294967296"), Err(SemverError::InvalidPatch));
    assert_eq!(parse_semver("1.2.4294967295"), Ok((1, 2, 4294967295)));
}

#[test]
fn semver_comparison() {
    assert!(semver_gte((1, 0, 0), (1, 0, 0)));
    assert!(semver_gte((1, 0, 0), (0, 9, 9)));
    assert!(semver_gte((1, 2, 0), (1, 1, 9)));
    assert!(!semver_gte((1, 0, 0), (1, 0, 1)));
    assert!(!semver_gte((0, 9, 9), (1, 0, 0)));
}

#[test]
fn engine_requirements_against_host_version() {
    assert_eq!(HOST_VERSION, "1.0.0");
    assert!(check_engine_version(" >=1.0.0 ").is_ok());
    assert_eq!(check_engine_version(">=1.0.1"), Err(EngineError::NotSatisfied));
    assert_eq!(check_engine_version(">=2.0.0"), Err(EngineError::NotSatisfied));
    assert_eq!(check_engine_version("^1.0.0"), Err(EngineError::Unsupported));
    assert_eq!(check_engine_version(">=1.x.0"), Err(EngineError::InvalidSemver(SemverError::InvalidMinor)));
}

fn manifest(id: &str, runtime: &str, engine: &str) -> Manifest {
    Manifest {
        id: id.to_string(),
        runtime: runtime.to_string(),
        capabilities: vec![],
        permissions: vec![],
        entry: "main.js".to_string(),
        engine: engine.to_string(),
        name: String::new(),
        version: String::new(),
    }
}

#[test]
fn manifest_checks_id_runtime_and_engine() {
    assert!(validate_manifest(&manifest("@local/test", "widget", "")).is_ok());
    assert!(validate_manifest(&manifest("@local/test", "script", ">=0.5.0")).is_ok());
    assert_eq!(validate_manifest(&manifest("bad", "widget", "")), Err(ManifestError::InvalidPluginId));
    assert_eq!(validate_manifest(&manifest("@local/test", "native", "")), Err(ManifestError::InvalidRuntime));
    assert_eq!(
        validate_manifest(&manifest("@local/test", "widget", ">=9.0.0")),
        Err(ManifestError::Engine(EngineError::NotSatisfied))
    );
}
