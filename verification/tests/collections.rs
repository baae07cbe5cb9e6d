use mesc::defaults_table;
use mesc::endpoint_table;
use mesc::tables::list_by_chain;
use mesc::ChainId;
use mesc::Endpoint;
use mesc::MescError;
use mesc::RpcConfig;
use mesc::SortedMap;
use mesc::TryIntoChainId;
use std::collections::HashMap;

fn id(text: &str) -> ChainId {
    text.try_into_chain_id().unwrap()
}

fn endpoint(name: &str, chain: Option<&str>) -> Endpoint {
    Endpoint {
        name: name.to_string(),
        url: format!("https://{}.example", name),
        chain_id: chain.map(id),
        endpoint_metadata: HashMap::new(),
    }
}

#[test]
fn a_sorted_map_finds_what_was_put() {
    let mut map: SortedMap<String, u32> = SortedMap::new();
    assert!(map.is_empty());
    assert_eq!(map.insert("b".to_string(), 2), None);
    assert_eq!(map.insert("a".to_string(), 1), None);
    assert_eq!(map.insert("c".to_string(), 3), None);
    assert_eq!(map.len(), 3);
    assert_eq!(map.get("a"), Some(&1));
    assert_eq!(map.get("b"), Some(&2));
    assert_eq!(map.get("c"), Some(&3));
    assert_eq!(map.get("d"), None);
    assert_eq!(map.get(""), None);
    assert!(map.contains_key("a"));
    assert!(!map.contains_key("ab"));
}

#[test]
fn a_sorted_map_keeps_one_value_for_a_key() {
    let mut map: SortedMap<String, u32> = SortedMap::new();
    assert_eq!(map.insert("k".to_string(), 1), None);
    assert_eq!(map.insert("k".to_string(), 2), Some(1));
    assert_eq!(map.len(), 1);
    assert_eq!(map.get("k"), Some(&2));
}

#[test]
fn a_sorted_map_goes_through_its_keys_in_order() {
    let mut map: SortedMap<String, usize> = SortedMap::new();
    let given = ["pear", "apple", "fig", "banana", "cherry", "apple", "Zebra", "é", ""];
    for (i, key) in given.iter().enumerate() {
        map.insert(key.to_string(), i);
    }
    let mut expected: Vec<&str> = given.to_vec();
    expected.sort();
    expected.dedup();
    assert_eq!(map.len(), expected.len());
    for (i, key) in expected.iter().enumerate() {
        assert_eq!(map.key_at(i), key);
        let last = given.iter().rposition(|k| k == key).unwrap();
        assert_eq!(*map.value_at(i), last);
    }
}

#[test]
fn a_sorted_map_of_many_keys() {
    let mut map: SortedMap<String, u32> = SortedMap::new();
    for i in 0..200u32 {
        let key = format!("k{}", (i * 37) % 200);
        map.insert(key, i);
    }
    assert_eq!(map.len(), 200);
    for i in 0..200u32 {
        assert_eq!(map.get(&format!("k{}", (i * 37) % 200)), Some(&i));
    }
    assert_eq!(map.get("k200"), None);
}

#[test]
fn chain_ids_are_keys_by_their_digits() {
    let mut map: SortedMap<ChainId, String> = SortedMap::new();
    map.insert(id("10"), "ten".to_string());
    map.insert(id("9"), "nine".to_string());
    map.insert(id("010"), "padded ten".to_string());
    assert_eq!(map.len(), 3);
    assert_eq!(map.get("10").unwrap(), "ten");
    assert_eq!(map.get("010").unwrap(), "padded ten");
    assert_eq!(map.get("9").unwrap(), "nine");
    assert_eq!(map.key_at(0).to_string(), "010");
    assert_eq!(map.key_at(1).to_string(), "10");
    assert_eq!(map.key_at(2).to_string(), "9");
}

#[test]
fn a_clone_of_a_sorted_map_holds_the_same() {
    let mut map: SortedMap<String, u32> = SortedMap::new();
    map.insert("x".to_string(), 1);
    map.insert("y".to_string(), 2);
    let copy = map.clone();
    assert_eq!(copy.len(), 2);
    assert_eq!(copy.get("x"), Some(&1));
    assert_eq!(copy.get("y"), Some(&2));
}

#[test]
fn endpoints_are_listed_by_chain() {
    let given = vec![
        endpoint("ten", Some("10")),
        endpoint("nine", Some("9")),
        endpoint("none", None),
        endpoint("one", Some("1")),
        endpoint("big", Some("100000000000000000000")),
        endpoint("nine again", Some("9")),
        endpoint("zero", Some("0")),
    ];
    let listed: Vec<&str> = list_by_chain(&given).iter().map(|e| e.name.as_str()).collect();
    assert_eq!(listed, vec!["none", "zero", "one", "nine", "nine again", "ten", "big"]);
    let mut expected: Vec<&Endpoint> = given.iter().collect();
    expected.sort_by(|a, b| {
        a.chain_id
            .clone()
            .unwrap_or(ChainId::null_chain_id())
            .cmp(&b.chain_id.clone().unwrap_or(ChainId::null_chain_id()))
    });
    let expected: Vec<&str> = expected.iter().map(|e| e.name.as_str()).collect();
    assert_eq!(listed, expected);
}

#[test]
fn the_table_of_endpoints_hides_urls_unless_asked() {
    let given = vec![endpoint("b", Some("5")), endpoint("a", None), endpoint("c", Some("1"))];
    let table = endpoint_table(&given, false);
    assert_eq!(table.names, vec!["a", "c", "b"]);
    assert_eq!(table.networks, vec!["-", "1", "5"]);
    assert_eq!(table.urls, vec!["********", "********", "********"]);
    let table = endpoint_table(&given, true);
    assert_eq!(table.names, vec!["a", "c", "b"]);
    assert_eq!(table.urls, vec!["https://a.example", "https://c.example", "https://b.example"]);
    let table = endpoint_table(&Vec::new(), true);
    assert!(table.names.is_empty() && table.networks.is_empty() && table.urls.is_empty());
}

#[test]
fn the_table_of_defaults_lists_the_default_and_the_network_defaults() {
    let mut config = RpcConfig::default();
    config.endpoints.insert("a".to_string(), endpoint("a", Some("1")));
    config.endpoints.insert("b".to_string(), endpoint("b", None));
    config.default_endpoint = Some("b".to_string());
    config.network_defaults.insert(id("5"), "b".to_string());
    config.network_defaults.insert(id("1"), "a".to_string());
    let table = defaults_table(&config).unwrap();
    assert_eq!(table.classes, vec!["global default", "network default", "network default"]);
    assert_eq!(table.networks, vec!["-", "1", "5"]);
    assert_eq!(table.names, vec!["b", "a", "b"]);
}

#[test]
fn the_table_of_defaults_without_a_default() {
    let mut config = RpcConfig::default();
    config.network_defaults.insert(id("1"), "a".to_string());
    let table = defaults_table(&config).unwrap();
    assert_eq!(table.classes, vec!["global default", "network default"]);
    assert_eq!(table.networks, vec!["1"]);
    assert_eq!(table.names, vec!["a"]);
    config.default_endpoint = Some("ghost".to_string());
    match defaults_table(&config) {
        Err(MescError::MissingEndpoint(detail)) => assert_eq!(detail, "ghost"),
        other => panic!("unexpected: {:?}", other),
    }
}

#[test]
fn clones_hold_what_was_cloned() {
    let mut config = RpcConfig::default();
    let mut e = endpoint("a", Some("1"));
    e.endpoint_metadata.insert("k".to_string(), serde_json::Value::from("v"));
    config.endpoints.insert("a".to_string(), e.clone());
    config.default_endpoint = Some("a".to_string());
    config.network_defaults.insert(id("1"), "a".to_string());
    config.network_names.insert("mainnet".to_string(), id("1"));
    let mut overrides: SortedMap<ChainId, String> = SortedMap::new();
    overrides.insert(id("1"), "a".to_string());
    config.profiles.insert(
        "ci".to_string(),
        mesc::Profile { default_endpoint: None, network_defaults: overrides },
    );
    config.global_metadata.insert("g".to_string(), serde_json::Value::Null);
    let copy = config.clone();
    assert_eq!(copy.mesc_version, config.mesc_version);
    assert_eq!(copy.default_endpoint, Some("a".to_string()));
    assert_eq!(copy.network_defaults.get("1").unwrap(), "a");
    assert_eq!(copy.network_names.get("mainnet").unwrap().to_string(), "1");
    assert_eq!(copy.endpoints.get("a").unwrap().url, e.url);
    assert_eq!(copy.endpoints.get("a").unwrap().endpoint_metadata, e.endpoint_metadata);
    assert_eq!(copy.profiles.get("ci").unwrap().network_defaults.get("1").unwrap(), "a");
    assert_eq!(copy.global_metadata, config.global_metadata);
    let profile = config.profiles.get("ci").unwrap().clone();
    assert!(profile.default_endpoint.is_none());
    assert_eq!(profile.network_defaults.len(), 1);
    let query = mesc::EndpointQuery::new().chain_id(1u8).unwrap().name("a").unwrap();
    let same = query.clone();
    assert!(same.chain_id == query.chain_id);
    assert_eq!(same.name_contains, query.name_contains);
    assert_eq!(same.url_contains, None);
}

#[test]
fn an_empty_list_of_endpoints_is_one_line() {
    match mesc::endpoint_listing(&Vec::new(), true) {
        mesc::EndpointListing::Line(line) => assert_eq!(line, "[none]"),
        other => panic!("unexpected: {:?}", other),
    }
    match mesc::endpoint_listing(&Vec::new(), false) {
        mesc::EndpointListing::Line(line) => assert_eq!(line, "[none]"),
        other => panic!("unexpected: {:?}", other),
    }
    let given = vec![endpoint("b", Some("5")), endpoint("a", Some("1"))];
    match mesc::endpoint_listing(&given, false) {
        mesc::EndpointListing::Table(table) => {
            assert_eq!(table.names, vec!["a", "b"]);
            assert_eq!(table.networks, vec!["1", "5"]);
            assert_eq!(table.urls, vec!["********", "********"]);
        }
        other => panic!("unexpected: {:?}", other),
    }
}

#[test]
fn endpoints_of_one_chain_keep_their_order() {
    let given = vec![
        endpoint("z", Some("7")),
        endpoint("m", Some("007")),
        endpoint("a", Some("7")),
        endpoint("k", Some("6")),
        endpoint("b", Some("07")),
    ];
    let listed: Vec<&str> = list_by_chain(&given).iter().map(|e| e.name.as_str()).collect();
    assert_eq!(listed, vec!["k", "z", "m", "a", "b"]);
}
