use mesc::document::ConfigDocument;
use mesc::document::EndpointDocument;
use mesc::document::ProfileDocument;
use mesc::ChainId;
use mesc::Endpoint;
use mesc::MescError;
use mesc::Profile;
use mesc::RpcConfig;
use mesc::SortedMap;
use mesc::TryIntoChainId;
use std::collections::HashMap;

fn id(text: &str) -> ChainId {
    text.try_into_chain_id().unwrap()
}

fn pair(a: &str, b: &str) -> (String, String) {
    (a.to_string(), b.to_string())
}

fn endpoint_document(name: &str, chain: Option<&str>) -> EndpointDocument {
    let mut endpoint_metadata = HashMap::new();
    endpoint_metadata.insert("label".to_string(), serde_json::Value::String(name.to_string()));
    EndpointDocument {
        name: name.to_string(),
        url: format!("https://{}.example", name),
        chain_id: chain.map(|c| c.to_string()),
        endpoint_metadata,
    }
}

fn document() -> ConfigDocument {
    let mut global_metadata = HashMap::new();
    global_metadata.insert("unknown".to_string(), serde_json::Value::Bool(true));
    ConfigDocument {
        mesc_version: "0.1.0".to_string(),
        default_endpoint: Some("b".to_string()),
        network_defaults: vec![pair("5", "b"), pair("1", "a")],
        endpoints: vec![
            ("b".to_string(), endpoint_document("b", Some("5"))),
            ("a".to_string(), endpoint_document("a", Some("1"))),
            ("c".to_string(), endpoint_document("c", None)),
        ],
        network_names: vec![pair("mainnet", "1"), pair("goerli", "5")],
        profiles: vec![(
            "ci".to_string(),
            ProfileDocument { default_endpoint: None, network_defaults: vec![pair("1", "c")] },
        )],
        global_metadata,
    }
}

fn is_invalid(r: Result<RpcConfig, MescError>, text: &str) {
    match r {
        Err(MescError::InvalidChainId(raw)) => assert_eq!(raw, text),
        Err(other) => panic!("unexpected: {:?}", other),
        Ok(_) => panic!("unexpected: a configuration"),
    }
}

#[test]
fn a_document_is_read_into_a_configuration() {
    let config = RpcConfig::from_document(&document()).unwrap();
    assert_eq!(config.mesc_version, "0.1.0");
    assert_eq!(config.default_endpoint, Some("b".to_string()));
    assert_eq!(config.network_defaults.len(), 2);
    assert_eq!(config.network_defaults.get("1").unwrap(), "a");
    assert_eq!(config.network_defaults.get("5").unwrap(), "b");
    assert_eq!(config.endpoints.len(), 3);
    assert_eq!(config.endpoints.get("a").unwrap().url, "https://a.example");
    assert_eq!(config.endpoints.get("a").unwrap().chain_id_string(), "1");
    assert!(config.endpoints.get("c").unwrap().chain_id.is_none());
    assert_eq!(
        config.endpoints.get("b").unwrap().endpoint_metadata["label"],
        serde_json::Value::String("b".to_string())
    );
    assert_eq!(config.network_names.get("mainnet").unwrap().to_string(), "1");
    assert_eq!(config.network_names.get("goerli").unwrap().to_string(), "5");
    assert_eq!(config.profiles.len(), 1);
    let profile = config.profiles.get("ci").unwrap();
    assert!(profile.default_endpoint.is_none());
    assert_eq!(profile.network_defaults.get("1").unwrap(), "c");
    assert_eq!(config.global_metadata["unknown"], serde_json::Value::Bool(true));
    assert!(config.validate().is_ok());
}

#[test]
fn of_two_entries_with_one_key_the_later_counts() {
    let mut given = document();
    given.network_defaults.push(pair("1", "c"));
    given.endpoints.push(("a".to_string(), endpoint_document("other", None)));
    let config = RpcConfig::from_document(&given).unwrap();
    assert_eq!(config.network_defaults.len(), 2);
    assert_eq!(config.network_defaults.get("1").unwrap(), "c");
    assert_eq!(config.endpoints.len(), 3);
    assert_eq!(config.endpoints.get("a").unwrap().name, "other");
}

#[test]
fn a_text_that_is_no_chain_id_fails_the_reading() {
    let mut given = document();
    given.network_defaults.push(pair("0x1", "a"));
    is_invalid(RpcConfig::from_document(&given), "0x1");
    let mut given = document();
    given.endpoints.push(("d".to_string(), endpoint_document("d", Some("mainnet"))));
    is_invalid(RpcConfig::from_document(&given), "mainnet");
    let mut given = document();
    given.network_names.push(pair("empty", ""));
    is_invalid(RpcConfig::from_document(&given), "");
    let mut given = document();
    given.profiles.push((
        "dev".to_string(),
        ProfileDocument { default_endpoint: None, network_defaults: vec![pair("1", "a"), pair("-5", "a")] },
    ));
    is_invalid(RpcConfig::from_document(&given), "-5");
}

#[test]
fn an_endpoint_document_with_a_bad_chain_id_is_rejected() {
    match Endpoint::from_document(&endpoint_document("x", Some("1e3"))) {
        Err(MescError::InvalidChainId(raw)) => assert_eq!(raw, "1e3"),
        other => panic!("unexpected: {:?}", other),
    }
    let endpoint = Endpoint::from_document(&endpoint_document("x", Some("1000"))).unwrap();
    assert_eq!(endpoint.chain_id_string(), "1000");
    assert_eq!(endpoint.name, "x");
}

#[test]
fn a_profile_document_with_a_bad_key_is_rejected() {
    let given = ProfileDocument { default_endpoint: Some("a".to_string()), network_defaults: vec![pair("one", "a")] };
    match Profile::from_document(&given) {
        Err(MescError::InvalidChainId(raw)) => assert_eq!(raw, "one"),
        other => panic!("unexpected: {:?}", other),
    }
}

fn same_endpoint(a: &Endpoint, b: &Endpoint) {
    assert_eq!(a.name, b.name);
    assert_eq!(a.url, b.url);
    assert!(a.chain_id == b.chain_id);
    assert_eq!(a.endpoint_metadata, b.endpoint_metadata);
}

fn same_defaults(a: &SortedMap<ChainId, String>, b: &SortedMap<ChainId, String>) {
    assert_eq!(a.len(), b.len());
    for i in 0..a.len() {
        assert!(a.key_at(i) == b.key_at(i));
        assert_eq!(a.value_at(i), b.value_at(i));
    }
}

fn same_config(a: &RpcConfig, b: &RpcConfig) {
    assert_eq!(a.mesc_version, b.mesc_version);
    assert_eq!(a.default_endpoint, b.default_endpoint);
    same_defaults(&a.network_defaults, &b.network_defaults);
    assert_eq!(a.endpoints.len(), b.endpoints.len());
    for i in 0..a.endpoints.len() {
        assert_eq!(a.endpoints.key_at(i), b.endpoints.key_at(i));
        same_endpoint(a.endpoints.value_at(i), b.endpoints.value_at(i));
    }
    assert_eq!(a.network_names.len(), b.network_names.len());
    for i in 0..a.network_names.len() {
        assert_eq!(a.network_names.key_at(i), b.network_names.key_at(i));
        assert!(a.network_names.value_at(i) == b.network_names.value_at(i));
    }
    assert_eq!(a.profiles.len(), b.profiles.len());
    for i in 0..a.profiles.len() {
        assert_eq!(a.profiles.key_at(i), b.profiles.key_at(i));
        assert_eq!(a.profiles.value_at(i).default_endpoint, b.profiles.value_at(i).default_endpoint);
        same_defaults(&a.profiles.value_at(i).network_defaults, &b.profiles.value_at(i).network_defaults);
    }
    assert_eq!(a.global_metadata, b.global_metadata);
}

#[test]
fn what_is_written_is_read_back_the_same() {
    let config = RpcConfig::from_document(&document()).unwrap();
    let written = config.to_document();
    assert_eq!(written.network_defaults, vec![pair("1", "a"), pair("5", "b")]);
    assert_eq!(written.network_names, vec![pair("goerli", "5"), pair("mainnet", "1")]);
    let names: Vec<&str> = written.endpoints.iter().map(|e| e.0.as_str()).collect();
    assert_eq!(names, vec!["a", "b", "c"]);
    let back = RpcConfig::from_document(&written).unwrap();
    same_config(&config, &back);
    let twice = RpcConfig::from_document(&back.to_document()).unwrap();
    same_config(&config, &twice);
}

#[test]
fn the_empty_configuration_is_read_back_the_same() {
    let config = RpcConfig::default();
    let back = RpcConfig::from_document(&config.to_document()).unwrap();
    same_config(&config, &back);
}

#[test]
fn unknown_metadata_is_kept() {
    let mut config = RpcConfig::default();
    let mut nested = serde_json::Map::new();
    nested.insert("depth".to_string(), serde_json::Value::from(2));
    nested.insert("tags".to_string(), serde_json::Value::Array(vec![serde_json::Value::Null]));
    config.global_metadata.insert("extra".to_string(), serde_json::Value::Object(nested.clone()));
    let mut endpoint = Endpoint {
        name: "a".to_string(),
        url: "u".to_string(),
        chain_id: Some(id("1")),
        endpoint_metadata: HashMap::new(),
    };
    endpoint.endpoint_metadata.insert("rate".to_string(), serde_json::Value::from(10));
    config.endpoints.insert("a".to_string(), endpoint);
    let back = RpcConfig::from_document(&config.to_document()).unwrap();
    same_config(&config, &back);
    assert_eq!(back.global_metadata["extra"], serde_json::Value::Object(nested));
    assert_eq!(back.endpoints.get("a").unwrap().endpoint_metadata["rate"], serde_json::Value::from(10));
}

#[test]
fn an_endpoint_is_written_as_it_is() {
    let endpoint = Endpoint::from_document(&endpoint_document("n", Some("42"))).unwrap();
    let written = endpoint.to_document();
    assert_eq!(written.name, "n");
    assert_eq!(written.url, "https://n.example");
    assert_eq!(written.chain_id, Some("42".to_string()));
    assert_eq!(written.endpoint_metadata["label"], serde_json::Value::String("n".to_string()));
    let bare = Endpoint::from_document(&endpoint_document("n", None)).unwrap().to_document();
    assert_eq!(bare.chain_id, None);
}

#[test]
fn the_first_text_that_is_no_chain_id_is_named() {
    let mut given = document();
    given.network_defaults.push(pair("x9", "a"));
    given.network_defaults.push(pair("x1", "a"));
    given.endpoints.push(("d".to_string(), endpoint_document("d", Some("bad"))));
    is_invalid(RpcConfig::from_document(&given), "x9");
    let mut given = document();
    given.endpoints.push(("z".to_string(), endpoint_document("z", Some("later"))));
    given.endpoints.insert(0, ("y".to_string(), endpoint_document("y", Some("sooner"))));
    given.network_names.push(pair("alias", "name"));
    is_invalid(RpcConfig::from_document(&given), "sooner");
    let mut given = document();
    given.network_names.push(pair("alias", "name"));
    given.profiles.push((
        "p".to_string(),
        ProfileDocument { default_endpoint: None, network_defaults: vec![pair("key", "a")] },
    ));
    is_invalid(RpcConfig::from_document(&given), "name");
    let mut given = document();
    given.profiles.push((
        "p".to_string(),
        ProfileDocument { default_endpoint: None, network_defaults: vec![pair("1", "a"), pair("k1", "a")] },
    ));
    given.profiles.push((
        "o".to_string(),
        ProfileDocument { default_endpoint: None, network_defaults: vec![pair("k0", "a")] },
    ));
    is_invalid(RpcConfig::from_document(&given), "k1");
}
