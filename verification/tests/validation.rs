use mesc::validate::is_version_str;
use mesc::validate_config;
use mesc::ChainId;
use mesc::Endpoint;
use mesc::MescError;
use mesc::Profile;
use mesc::RpcConfig;
use mesc::SortedMap;
use mesc::TryIntoChainId;
use mesc::MESC_VERSION;
use std::collections::HashMap;

fn id(text: &str) -> ChainId {
    text.try_into_chain_id().unwrap()
}

fn endpoint(name: &str, chain: Option<&str>) -> Endpoint {
    Endpoint {
        name: name.to_string(),
        url: format!("https://{}.example", name),
        chain_id: chain.map(id),
        endpoint_metadata: HashMap::new(),
    }
}

fn sound() -> RpcConfig {
    let mut config = RpcConfig::default();
    config.endpoints.insert("a".to_string(), endpoint("a", Some("1")));
    config.endpoints.insert("b".to_string(), endpoint("b", None));
    config.default_endpoint = Some("a".to_string());
    config.network_defaults.insert(id("1"), "a".to_string());
    config.network_defaults.insert(id("5"), "b".to_string());
    let mut overrides: SortedMap<ChainId, String> = SortedMap::new();
    overrides.insert(id("1"), "a".to_string());
    config.profiles.insert(
        "ci".to_string(),
        Profile { default_endpoint: Some("b".to_string()), network_defaults: overrides },
    );
    config
}

fn detail(r: Result<(), MescError>) -> String {
    match r {
        Err(MescError::IntegrityError(detail)) => detail,
        other => panic!("unexpected: {:?}", other),
    }
}

#[test]
fn a_configuration_without_dangling_references_passes() {
    assert!(sound().validate().is_ok());
    assert!(validate_config(&sound()).is_ok());
    assert!(sound().validate_strict().is_ok());
    assert!(RpcConfig::default().validate().is_ok());
}

#[test]
fn a_dangling_default_endpoint_fails() {
    let mut config = sound();
    config.default_endpoint = Some("ghost".to_string());
    assert_eq!(detail(config.validate()), "unknown endpoint: ghost");
    assert_eq!(detail(config.validate_strict()), "unknown endpoint: ghost");
    let mut config = RpcConfig::default();
    config.default_endpoint = Some("a".to_string());
    assert_eq!(detail(validate_config(&config)), "unknown endpoint: a");
}

#[test]
fn a_dangling_network_default_fails() {
    let mut config = sound();
    config.network_defaults.insert(id("10"), "ten".to_string());
    assert_eq!(detail(config.validate()), "unknown endpoint: ten");
}

#[test]
fn a_dangling_reference_in_a_profile_fails() {
    let mut config = sound();
    config.profiles.insert(
        "dev".to_string(),
        Profile { default_endpoint: Some("lost".to_string()), network_defaults: SortedMap::new() },
    );
    assert_eq!(detail(config.validate()), "unknown endpoint: lost");
    let mut config = sound();
    let mut overrides: SortedMap<ChainId, String> = SortedMap::new();
    overrides.insert(id("7"), "seven".to_string());
    config.profiles.insert(
        "dev".to_string(),
        Profile { default_endpoint: None, network_defaults: overrides },
    );
    assert_eq!(detail(config.validate()), "unknown endpoint: seven");
}

#[test]
fn the_version_has_to_be_a_version() {
    for version in ["", "v1", "1.", ".1", "1..0", "1.0-beta", "MESC 1.0", "１.0"] {
        let mut config = sound();
        config.mesc_version = version.to_string();
        assert_eq!(detail(config.validate()), format!("invalid mesc_version: {}", version));
    }
    for version in ["1", "1.0", "0.1.0", "10.20.30.40"] {
        let mut config = sound();
        config.mesc_version = version.to_string();
        assert!(config.validate().is_ok());
    }
}

#[test]
fn versions_are_told_apart() {
    assert!(is_version_str("0.1.0"));
    assert!(is_version_str("7"));
    assert!(!is_version_str(""));
    assert!(!is_version_str("."));
    assert!(!is_version_str("1.a"));
    assert!(!is_version_str("1 0"));
    assert!(is_version_str(MESC_VERSION));
}

#[test]
fn the_chain_of_a_network_default_may_differ_unless_strict() {
    let mut config = sound();
    config.network_defaults.insert(id("10"), "a".to_string());
    assert!(config.validate().is_ok());
    assert_eq!(detail(config.validate_strict()), "chain id mismatch: a");
    let mut config = sound();
    let mut overrides: SortedMap<ChainId, String> = SortedMap::new();
    overrides.insert(id("01"), "a".to_string());
    config.profiles.insert(
        "dev".to_string(),
        Profile { default_endpoint: None, network_defaults: overrides },
    );
    assert!(config.validate().is_ok());
    assert_eq!(detail(config.validate_strict()), "chain id mismatch: a");
}

#[test]
fn an_endpoint_without_chain_takes_any_network_default() {
    let mut config = sound();
    config.network_defaults.insert(id("42"), "b".to_string());
    assert!(config.validate_strict().is_ok());
}

#[test]
fn the_default_configuration_holds_nothing() {
    let config = RpcConfig::default();
    assert_eq!(config.mesc_version, "0.1.0");
    assert_eq!(config.mesc_version, MESC_VERSION);
    assert!(config.default_endpoint.is_none());
    assert!(config.network_defaults.is_empty());
    assert!(config.endpoints.is_empty());
    assert!(config.network_names.is_empty());
    assert!(config.profiles.is_empty());
    assert!(config.global_metadata.is_empty());
}

#[test]
fn the_first_unsound_thing_is_named() {
    let mut config = sound();
    config.mesc_version = "x".to_string();
    config.default_endpoint = Some("ghost".to_string());
    assert_eq!(detail(config.validate()), "invalid mesc_version: x");
    let mut config = sound();
    config.default_endpoint = Some("ghost".to_string());
    config.network_defaults.insert(id("2"), "lost".to_string());
    assert_eq!(detail(config.validate()), "unknown endpoint: ghost");
    let mut config = sound();
    config.network_defaults.insert(id("9"), "nine".to_string());
    config.network_defaults.insert(id("10"), "ten".to_string());
    assert_eq!(detail(config.validate()), "unknown endpoint: ten");
    let mut config = sound();
    config.network_defaults.insert(id("9"), "nine".to_string());
    config.profiles.insert(
        "aa".to_string(),
        Profile { default_endpoint: Some("early".to_string()), network_defaults: SortedMap::new() },
    );
    assert_eq!(detail(config.validate()), "unknown endpoint: nine");
    let mut config = sound();
    let mut overrides: SortedMap<ChainId, String> = SortedMap::new();
    overrides.insert(id("3"), "three".to_string());
    config.profiles.insert(
        "zz".to_string(),
        Profile { default_endpoint: Some("late".to_string()), network_defaults: SortedMap::new() },
    );
    config.profiles.insert(
        "aa".to_string(),
        Profile { default_endpoint: None, network_defaults: overrides },
    );
    assert_eq!(detail(config.validate()), "unknown endpoint: three");
}

#[test]
fn under_strict_a_mismatch_before_an_unknown_endpoint_is_named() {
    let mut config = sound();
    config.network_defaults.insert(id("10"), "a".to_string());
    config.network_defaults.insert(id("11"), "ghost".to_string());
    assert_eq!(detail(config.validate()), "unknown endpoint: ghost");
    assert_eq!(detail(config.validate_strict()), "chain id mismatch: a");
}
