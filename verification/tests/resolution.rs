use mesc::find_endpoints;
use mesc::get_default_endpoint;
use mesc::get_endpoint_by_name;
use mesc::get_endpoint_by_network;
use mesc::resolve_endpoint;
use mesc::ChainId;
use mesc::ConfigMode;
use mesc::Endpoint;
use mesc::EndpointQuery;
use mesc::MescError;
use mesc::Profile;
use mesc::Resolver;
use mesc::RpcConfig;
use mesc::SortedMap;
use mesc::TryIntoChainId;
use std::collections::HashMap;

fn id(text: &str) -> ChainId {
    text.try_into_chain_id().unwrap()
}

fn endpoint(name: &str, chain: Option<&str>) -> Endpoint {
    Endpoint {
        name: name.to_string(),
        url: format!("https://{}.example", name),
        chain_id: chain.map(id),
        endpoint_metadata: HashMap::new(),
    }
}

fn add(config: &mut RpcConfig, e: Endpoint) {
    config.endpoints.insert(e.name.clone(), e);
}

fn scenario() -> RpcConfig {
    let mut config = RpcConfig::default();
    add(&mut config, endpoint("a", Some("1")));
    add(&mut config, endpoint("b", Some("1")));
    config.network_defaults.insert(id("1"), "a".to_string());
    config.default_endpoint = Some("b".to_string());
    config.profiles.insert(
        "ci".to_string(),
        Profile { default_endpoint: Some("b".to_string()), network_defaults: SortedMap::new() },
    );
    config
}

fn names(found: &[Endpoint]) -> Vec<String> {
    found.iter().map(|e| e.name.clone()).collect()
}

#[test]
fn the_global_network_default_wins_over_the_profile_default() {
    let config = scenario();
    let found = get_endpoint_by_network(&config, &id("1"), Some("ci")).unwrap().unwrap();
    assert_eq!(found.name, "a");
    let query = EndpointQuery::new().chain_id("1").unwrap();
    let found = resolve_endpoint(&config, Some("ci"), Some(&query)).unwrap();
    assert_eq!(found.name, "a");
}

#[test]
fn the_profile_default_answers_where_no_chain_is_asked() {
    let config = scenario();
    let found = resolve_endpoint(&config, Some("ci"), None).unwrap();
    assert_eq!(found.name, "b");
    let found = get_default_endpoint(&config, Some("ci")).unwrap().unwrap();
    assert_eq!(found.name, "b");
}

#[test]
fn the_network_default_is_not_the_first_by_name() {
    let mut config = scenario();
    config.network_defaults.insert(id("1"), "b".to_string());
    let found = get_endpoint_by_network(&config, &id("1"), Some("ci")).unwrap().unwrap();
    assert_eq!(found.name, "b");
    let found = get_endpoint_by_network(&config, &id("1"), None).unwrap().unwrap();
    assert_eq!(found.name, "b");
    let query = EndpointQuery::new().chain_id("1").unwrap();
    assert_eq!(resolve_endpoint(&config, Some("ci"), Some(&query)).unwrap().name, "b");
    assert_eq!(resolve_endpoint(&config, None, Some(&query)).unwrap().name, "b");
    assert_eq!(names(&find_endpoints(&config, &query)), vec!["a", "b"]);
}

#[test]
fn a_default_that_passes_the_query_is_preferred() {
    let config = scenario();
    let query = EndpointQuery::new().url("example").unwrap();
    assert_eq!(resolve_endpoint(&config, None, Some(&query)).unwrap().name, "b");
    assert_eq!(resolve_endpoint(&config, Some("ci"), Some(&query)).unwrap().name, "b");
    let query = EndpointQuery::new().name("a").unwrap();
    assert_eq!(resolve_endpoint(&config, None, Some(&query)).unwrap().name, "a");
}

#[test]
fn a_default_that_does_not_pass_the_query_leaves_the_first_by_name() {
    let mut config = scenario();
    add(&mut config, endpoint("c", Some("5")));
    add(&mut config, endpoint("d", Some("5")));
    let query = EndpointQuery::new().chain_id("5").unwrap();
    assert_eq!(resolve_endpoint(&config, Some("ci"), Some(&query)).unwrap().name, "c");
    config.default_endpoint = Some("d".to_string());
    assert_eq!(resolve_endpoint(&config, None, Some(&query)).unwrap().name, "d");
    config.default_endpoint = Some("ghost".to_string());
    assert_eq!(resolve_endpoint(&config, None, Some(&query)).unwrap().name, "c");
}

#[test]
fn the_network_default_of_the_profile_comes_first() {
    let mut config = scenario();
    add(&mut config, endpoint("c", Some("1")));
    let mut overrides: SortedMap<ChainId, String> = SortedMap::new();
    overrides.insert(id("1"), "c".to_string());
    config.profiles.insert(
        "dev".to_string(),
        Profile { default_endpoint: Some("b".to_string()), network_defaults: overrides },
    );
    let found = get_endpoint_by_network(&config, &id("1"), Some("dev")).unwrap().unwrap();
    assert_eq!(found.name, "c");
    let found = get_endpoint_by_network(&config, &id("1"), Some("ci")).unwrap().unwrap();
    assert_eq!(found.name, "a");
    let found = get_endpoint_by_network(&config, &id("1"), Some("nobody")).unwrap().unwrap();
    assert_eq!(found.name, "a");
}

#[test]
fn a_chain_without_network_default_falls_back_to_the_defaults() {
    let mut config = scenario();
    add(&mut config, endpoint("z", Some("5")));
    config.profiles.insert(
        "z".to_string(),
        Profile { default_endpoint: Some("z".to_string()), network_defaults: SortedMap::new() },
    );
    let found = get_endpoint_by_network(&config, &id("10"), Some("z")).unwrap().unwrap();
    assert_eq!(found.name, "z");
    let found = get_endpoint_by_network(&config, &id("10"), None).unwrap().unwrap();
    assert_eq!(found.name, "b");
}

#[test]
fn the_global_default_answers_without_a_profile() {
    let mut config = scenario();
    config.default_endpoint = Some("a".to_string());
    assert_eq!(get_default_endpoint(&config, None).unwrap().unwrap().name, "a");
    assert_eq!(get_default_endpoint(&config, Some("unknown")).unwrap().unwrap().name, "a");
    assert_eq!(get_default_endpoint(&config, Some("ci")).unwrap().unwrap().name, "b");
    assert_eq!(resolve_endpoint(&config, None, None).unwrap().name, "a");
}

#[test]
fn a_profile_without_default_leaves_the_global_default() {
    let mut config = scenario();
    config.profiles.insert(
        "bare".to_string(),
        Profile { default_endpoint: None, network_defaults: SortedMap::new() },
    );
    assert_eq!(get_default_endpoint(&config, Some("bare")).unwrap().unwrap().name, "b");
}

#[test]
fn without_defaults_there_is_no_default() {
    let mut config = RpcConfig::default();
    add(&mut config, endpoint("a", Some("1")));
    assert!(get_default_endpoint(&config, None).unwrap().is_none());
    assert!(get_endpoint_by_network(&config, &id("1"), None).unwrap().is_none());
    match resolve_endpoint(&config, None, None) {
        Err(MescError::MissingEndpoint(detail)) => assert_eq!(detail, "no default endpoint"),
        other => panic!("unexpected: {:?}", other),
    }
}

#[test]
fn a_default_that_is_not_held_is_missing() {
    let mut config = RpcConfig::default();
    config.default_endpoint = Some("ghost".to_string());
    match get_default_endpoint(&config, None) {
        Err(MescError::MissingEndpoint(detail)) => assert_eq!(detail, "ghost"),
        other => panic!("unexpected: {:?}", other),
    }
    match resolve_endpoint(&config, None, None) {
        Err(MescError::MissingEndpoint(detail)) => assert_eq!(detail, "ghost"),
        other => panic!("unexpected: {:?}", other),
    }
}

#[test]
fn lookup_by_name() {
    let config = scenario();
    let found = get_endpoint_by_name(&config, "a").unwrap();
    assert_eq!(found.name, "a");
    assert_eq!(found.url, "https://a.example");
    assert_eq!(found.chain_id_string(), "1");
    match get_endpoint_by_name(&config, "nope") {
        Err(MescError::MissingEndpoint(detail)) => assert_eq!(detail, "nope"),
        other => panic!("unexpected: {:?}", other),
    }
}

fn greek() -> RpcConfig {
    let mut config = RpcConfig::default();
    add(&mut config, endpoint("gamma", Some("1")));
    add(&mut config, endpoint("alpha", Some("5")));
    add(&mut config, endpoint("beta", None));
    config
}

#[test]
fn the_name_filter_lists_what_holds_the_text() {
    let config = greek();
    let query = EndpointQuery::new().name("am").unwrap();
    assert_eq!(names(&find_endpoints(&config, &query)), vec!["gamma"]);
    let query = EndpointQuery::new().name("al").unwrap();
    assert_eq!(names(&find_endpoints(&config, &query)), vec!["alpha"]);
    let query = EndpointQuery::new().name("a").unwrap().name("et").unwrap();
    assert_eq!(names(&find_endpoints(&config, &query)), vec!["beta"]);
    let query = EndpointQuery::new().name("x").unwrap();
    assert!(find_endpoints(&config, &query).is_empty());
}

#[test]
fn querying_name_contains_a_is_the_same_on_repeated_calls() {
    let mut config = RpcConfig::default();
    add(&mut config, endpoint("gamma", None));
    add(&mut config, endpoint("beta", None));
    add(&mut config, endpoint("alpha", None));
    let query = EndpointQuery::new().name("a").unwrap();
    for _ in 0..5 {
        assert_eq!(names(&find_endpoints(&config, &query)), vec!["alpha", "beta", "gamma"]);
    }
    let mut other = RpcConfig::default();
    add(&mut other, endpoint("alpha", None));
    add(&mut other, endpoint("gamma", None));
    add(&mut other, endpoint("beta", None));
    assert_eq!(names(&find_endpoints(&other, &query)), vec!["alpha", "beta", "gamma"]);
}

#[test]
fn the_filters_together_give_alpha_and_gamma() {
    let mut config = RpcConfig::default();
    add(&mut config, endpoint("gamma", Some("1")));
    add(&mut config, endpoint("beta", Some("5")));
    add(&mut config, endpoint("alpha", Some("1")));
    let query = EndpointQuery::new().name("a").unwrap().chain_id("1").unwrap();
    for _ in 0..3 {
        assert_eq!(names(&find_endpoints(&config, &query)), vec!["alpha", "gamma"]);
    }
    assert_eq!(resolve_endpoint(&config, None, Some(&query)).unwrap().name, "alpha");
    let query = EndpointQuery::new().name("a").unwrap().url("ma.example").unwrap();
    assert_eq!(names(&find_endpoints(&config, &query)), vec!["gamma"]);
}

#[test]
fn an_empty_query_passes_every_endpoint_in_the_order_of_names() {
    let config = greek();
    let query = EndpointQuery::new();
    assert_eq!(names(&find_endpoints(&config, &query)), vec!["alpha", "beta", "gamma"]);
    assert_eq!(resolve_endpoint(&config, None, Some(&query)).unwrap().name, "alpha");
}

#[test]
fn the_chain_filter_asks_for_the_same_digits() {
    let config = greek();
    let query = EndpointQuery::new().chain_id(5u64).unwrap();
    assert_eq!(names(&find_endpoints(&config, &query)), vec!["alpha"]);
    let query = EndpointQuery::new().chain_id("05").unwrap();
    assert!(find_endpoints(&config, &query).is_empty());
    let query = EndpointQuery::new().chain_id(id("1")).unwrap();
    assert_eq!(resolve_endpoint(&config, None, Some(&query)).unwrap().name, "gamma");
}

#[test]
fn every_field_of_the_query_has_to_pass() {
    let config = greek();
    let query = EndpointQuery::new().chain_id("1").unwrap().name("alpha").unwrap();
    assert!(find_endpoints(&config, &query).is_empty());
    match resolve_endpoint(&config, None, Some(&query)) {
        Err(MescError::MissingEndpoint(detail)) => assert_eq!(detail, "no endpoint matches the query"),
        other => panic!("unexpected: {:?}", other),
    }
    let query = EndpointQuery::new().chain_id("1").unwrap().name("gam").unwrap().url("https://").unwrap();
    assert_eq!(names(&find_endpoints(&config, &query)), vec!["gamma"]);
}

#[test]
fn the_filter_reads_the_name_of_the_endpoint() {
    let mut config = RpcConfig::default();
    let mut e = endpoint("inner", None);
    e.url = "wss://socket".to_string();
    config.endpoints.insert("key".to_string(), e);
    let query = EndpointQuery::new().name("inn").unwrap();
    assert_eq!(names(&find_endpoints(&config, &query)), vec!["inner"]);
    let query = EndpointQuery::new().name("key").unwrap();
    assert!(find_endpoints(&config, &query).is_empty());
    let query = EndpointQuery::new().url("socket").unwrap();
    assert_eq!(names(&find_endpoints(&config, &query)), vec!["inner"]);
}

#[test]
fn an_invalid_chain_id_fails_when_the_query_is_built() {
    match EndpointQuery::new().chain_id("one") {
        Err(MescError::InvalidChainId(raw)) => assert_eq!(raw, "one"),
        other => panic!("unexpected: {:?}", other),
    }
    let bytes: &[u8] = &[1];
    assert!(matches!(EndpointQuery::new().chain_id(bytes), Err(MescError::NotImplemented(_))));
}

#[test]
fn the_builder_steps_commute() {
    let one = EndpointQuery::new().chain_id("1").unwrap().name("n").unwrap().url("u").unwrap();
    let two = EndpointQuery::new().url("u").unwrap().name("n").unwrap().chain_id("1").unwrap();
    assert!(one.chain_id == two.chain_id);
    assert_eq!(one.name_contains, two.name_contains);
    assert_eq!(one.url_contains, two.url_contains);
    assert_eq!(one.chain_id.unwrap().to_string(), "1");
    assert_eq!(one.name_contains.unwrap(), "n");
    assert_eq!(one.url_contains.unwrap(), "u");
}

#[test]
fn a_new_query_asks_nothing() {
    let query = EndpointQuery::new();
    assert!(query.chain_id.is_none());
    assert!(query.name_contains.is_none());
    assert!(query.url_contains.is_none());
    let query = EndpointQuery::default();
    assert!(query.chain_id.is_none() && query.name_contains.is_none() && query.url_contains.is_none());
    assert!(query.accepts(&endpoint("any", None)));
}

#[test]
fn disabled_mode_fails_every_call() {
    let resolver = Resolver::new(ConfigMode::Disabled, scenario());
    assert!(!resolver.is_enabled());
    assert!(matches!(resolver.resolve_endpoint(None, None), Err(MescError::MescNotEnabled)));
    assert!(matches!(resolver.resolve_endpoint(Some("ci"), None), Err(MescError::MescNotEnabled)));
    let query = EndpointQuery::new();
    assert!(matches!(resolver.resolve_endpoint(None, Some(&query)), Err(MescError::MescNotEnabled)));
    assert!(matches!(resolver.get_default_endpoint(None), Err(MescError::MescNotEnabled)));
    assert!(matches!(resolver.get_endpoint_by_network(&id("1"), None), Err(MescError::MescNotEnabled)));
    assert!(matches!(resolver.get_endpoint_by_name("a"), Err(MescError::MescNotEnabled)));
    assert!(matches!(resolver.find_endpoints(&query), Err(MescError::MescNotEnabled)));
    let resolver = Resolver::disabled();
    assert!(matches!(resolver.get_default_endpoint(None), Err(MescError::MescNotEnabled)));
}

#[test]
fn an_enabled_resolver_answers_as_the_configuration_does() {
    for mode in [ConfigMode::Path, ConfigMode::Env] {
        let resolver = Resolver::new(mode, scenario());
        assert!(resolver.is_enabled());
        assert_eq!(resolver.resolve_endpoint(Some("ci"), None).unwrap().name, "b");
        assert_eq!(resolver.get_default_endpoint(None).unwrap().unwrap().name, "b");
        assert_eq!(resolver.get_endpoint_by_network(&id("1"), Some("ci")).unwrap().unwrap().name, "a");
        assert_eq!(resolver.get_endpoint_by_name("a").unwrap().name, "a");
        let query = EndpointQuery::new().name("b").unwrap();
        assert_eq!(names(&resolver.find_endpoints(&query).unwrap()), vec!["b"]);
    }
}

#[test]
fn metadata_comes_back_with_the_endpoint() {
    let mut config = RpcConfig::default();
    let mut e = endpoint("a", Some("1"));
    e.endpoint_metadata.insert("api_key".to_string(), serde_json::Value::String("k".to_string()));
    e.endpoint_metadata.insert("cloud".to_string(), serde_json::Value::Bool(true));
    add(&mut config, e);
    let found = get_endpoint_by_name(&config, "a").unwrap();
    assert_eq!(found.endpoint_metadata.len(), 2);
    assert_eq!(found.endpoint_metadata["api_key"], serde_json::Value::String("k".to_string()));
    assert_eq!(found.endpoint_metadata["cloud"], serde_json::Value::Bool(true));
}

#[test]
fn chain_id_string_shows_a_dash_for_no_chain() {
    assert_eq!(endpoint("a", None).chain_id_string(), "-");
    assert_eq!(endpoint("a", Some("10")).chain_id_string(), "10");
}

#[test]
fn disabled_mode_refuses_the_table_of_defaults() {
    let resolver = Resolver::new(ConfigMode::Disabled, scenario());
    assert!(matches!(resolver.defaults_table(), Err(MescError::MescNotEnabled)));
    let resolver = Resolver::disabled();
    assert!(matches!(resolver.defaults_table(), Err(MescError::MescNotEnabled)));
    let mut config = scenario();
    config.default_endpoint = Some("ghost".to_string());
    let resolver = Resolver::new(ConfigMode::Disabled, config);
    assert!(matches!(resolver.defaults_table(), Err(MescError::MescNotEnabled)));
}

#[test]
fn an_enabled_resolver_gives_the_table_of_defaults() {
    let resolver = Resolver::new(ConfigMode::Env, scenario());
    let table = resolver.defaults_table().unwrap();
    assert_eq!(table.classes, vec!["global default", "network default"]);
    assert_eq!(table.networks, vec!["1", "1"]);
    assert_eq!(table.names, vec!["b", "a"]);
    let mut config = scenario();
    config.default_endpoint = Some("ghost".to_string());
    let resolver = Resolver::new(ConfigMode::Path, config);
    match resolver.defaults_table() {
        Err(MescError::MissingEndpoint(detail)) => assert_eq!(detail, "ghost"),
        other => panic!("unexpected: {:?}", other),
    }
}

#[test]
fn the_disabled_resolver_holds_the_empty_configuration() {
    let resolver = Resolver::disabled();
    assert_eq!(resolver.mode, ConfigMode::Disabled);
    assert_eq!(resolver.config.mesc_version, "0.1.0");
    assert!(resolver.config.default_endpoint.is_none());
    assert!(resolver.config.endpoints.is_empty());
    assert!(resolver.config.network_defaults.is_empty());
    assert!(resolver.config.network_names.is_empty());
    assert!(resolver.config.profiles.is_empty());
    assert!(resolver.config.global_metadata.is_empty());
}

#[test]
fn the_resolver_for_what_the_loading_gave() {
    let resolver = Resolver::from_loaded(Ok((ConfigMode::Path, scenario()))).unwrap();
    assert_eq!(resolver.mode, ConfigMode::Path);
    assert_eq!(resolver.config.endpoints.len(), 2);
    let resolver = Resolver::from_loaded(Err(MescError::MescNotEnabled)).unwrap();
    assert_eq!(resolver.mode, ConfigMode::Disabled);
    assert!(resolver.config.endpoints.is_empty());
    assert!(matches!(resolver.get_default_endpoint(None), Err(MescError::MescNotEnabled)));
    assert!(matches!(
        Resolver::from_loaded(Err(MescError::InvalidConfigMode)),
        Err(MescError::InvalidConfigMode)
    ));
    assert!(matches!(Resolver::from_loaded(Err(MescError::InvalidJson)), Err(MescError::InvalidJson)));
    match Resolver::from_loaded(Err(MescError::IntegrityError("d".to_string()))) {
        Err(MescError::IntegrityError(detail)) => assert_eq!(detail, "d"),
        other => panic!("unexpected: {:?}", other),
    }
}
