//! The resolution engine: from a configuration, a profile and a request to
//! the one endpoint that answers it.

use crate::chain_ids::ChainId;
use crate::error::MescError;
use crate::sorted_map::increasing;
use crate::text::text_order;
use crate::text::Order;
use crate::types::query_matches;
use crate::types::Endpoint;
use crate::types::EndpointQuery;
use crate::types::EndpointQueryView;
use crate::types::EndpointView;
use crate::types::RpcConfig;
use crate::types::RpcConfigView;
use vstd::prelude::*;
use vstd::string::StringExecFns;

verus! {

/// The text of an optional string slice.
pub open spec fn text_of(o: Option<&str>) -> Option<Seq<char>> {
    match o {
        Some(s) => Some(s@),
        None => None,
    }
}

/// The digits of an optional chain id.
pub open spec fn digits_of(o: Option<&ChainId>) -> Option<Seq<char>> {
    match o {
        Some(c) => Some(c@),
        None => None,
    }
}

/// The endpoint that the profile `profile` names for the chain `chain`.
pub open spec fn profile_network_default(
    config: RpcConfigView,
    profile: Option<Seq<char>>,
    chain: Option<Seq<char>>,
) -> Option<Seq<char>> {
    if profile is Some && chain is Some && config.profiles.contains_key(profile->0)
        && config.profiles[profile->0].network_defaults.contains_key(chain->0) {
        Some(config.profiles[profile->0].network_defaults[chain->0])
    } else {
        None
    }
}

/// The endpoint that the configuration itself names for the chain `chain`.
pub open spec fn global_network_default(config: RpcConfigView, chain: Option<Seq<char>>) -> Option<
    Seq<char>,
> {
    if chain is Some && config.network_defaults.contains_key(chain->0) {
        Some(config.network_defaults[chain->0])
    } else {
        None
    }
}

/// The default endpoint that the profile `profile` names.
pub open spec fn profile_default(config: RpcConfigView, profile: Option<Seq<char>>) -> Option<
    Seq<char>,
> {
    if profile is Some && config.profiles.contains_key(profile->0) {
        config.profiles[profile->0].default_endpoint
    } else {
        None
    }
}

/// The name of the endpoint that the defaults give, by precedence: what
/// is said of the requested chain comes before what is said of no chain,
/// and of two such the profile's word comes before the configuration's own.
/// So, from first to last: the profile's network default for the chain, the
/// configuration's network default for the chain, the profile's default
/// endpoint, the configuration's default endpoint.
pub open spec fn default_name(
    config: RpcConfigView,
    profile: Option<Seq<char>>,
    chain: Option<Seq<char>>,
) -> Option<Seq<char>> {
    if profile_network_default(config, profile, chain) is Some {
        profile_network_default(config, profile, chain)
    } else if global_network_default(config, chain) is Some {
        global_network_default(config, chain)
    } else if profile_default(config, profile) is Some {
        profile_default(config, profile)
    } else {
        config.default_endpoint
    }
}

/// Those of `names`, in their order, whose endpoints pass `query`.
pub open spec fn matching_names(
    names: Seq<Seq<char>>,
    endpoints: Map<Seq<char>, EndpointView>,
    query: EndpointQueryView,
) -> Seq<Seq<char>> {
    names.filter(|name: Seq<char>| query_matches(query, endpoints[name]))
}

/// The names of the endpoints of `config` that pass `query`, in the order
/// of texts.
pub open spec fn matches_of(config: &RpcConfig, query: EndpointQueryView) -> Seq<Seq<char>> {
    matching_names(config.endpoints.key_texts(), config@.endpoints, query)
}

/// What looking up `name` owes: the endpoint that stands under the name,
/// or `MissingEndpoint` with the name where none does.
pub open spec fn named_outcome(
    config: RpcConfigView,
    name: Seq<char>,
    r: Result<Endpoint, MescError>,
) -> bool {
    if config.endpoints.contains_key(name) {
        r matches Ok(endpoint) && endpoint@ == config.endpoints[name]
    } else {
        r matches Err(MescError::MissingEndpoint(detail)) && detail@ == name
    }
}

/// What asking for a default owes: nothing where the defaults name no
/// endpoint, else what looking up the name owes.
pub open spec fn default_outcome(
    config: RpcConfigView,
    profile: Option<Seq<char>>,
    chain: Option<Seq<char>>,
    r: Result<Option<Endpoint>, MescError>,
) -> bool {
    match default_name(config, profile, chain) {
        None => r matches Ok(None),
        Some(name) => if config.endpoints.contains_key(name) {
            r matches Ok(Some(endpoint)) && endpoint@ == config.endpoints[name]
        } else {
            r matches Err(MescError::MissingEndpoint(detail)) && detail@ == name
        },
    }
}

/// What a list of the endpoints that pass `query` owes: the endpoints under
/// the matching names, one for one and in their order.
pub open spec fn found_outcome(
    config: &RpcConfig,
    query: EndpointQueryView,
    found: Seq<Endpoint>,
) -> bool {
    &&& found.len() == matches_of(config, query).len()
    &&& forall|i: int|
        0 <= i < found.len() ==> (#[trigger] found[i])@ == config@.endpoints[matches_of(
            config,
            query,
        )[i]]
}

/// The endpoint that the defaults name for the chain of `query`, if it is
/// held and passes `query`.
pub open spec fn preferred_match(
    config: RpcConfigView,
    profile: Option<Seq<char>>,
    query: EndpointQueryView,
) -> Option<Seq<char>> {
    match default_name(config, profile, query.chain_id) {
        Some(name) => if config.endpoints.contains_key(name) && query_matches(
            query,
            config.endpoints[name],
        ) {
            Some(name)
        } else {
            None
        },
        None => None,
    }
}

/// What resolving owes. Without a query, the endpoint that the defaults
/// name for no chain, and `MissingEndpoint` where they name none or name one
/// that is not held. With a query, an endpoint that passes it: the one that
/// the defaults name for the chain of the query, if that one passes; else
/// the first in the order of names of those that pass; and `MissingEndpoint`
/// where none passes.
pub open spec fn resolve_outcome(
    config: &RpcConfig,
    profile: Option<Seq<char>>,
    query: Option<EndpointQueryView>,
    r: Result<Endpoint, MescError>,
) -> bool {
    match query {
        None => match default_name(config@, profile, None) {
            Some(name) => named_outcome(config@, name, r),
            None => r matches Err(MescError::MissingEndpoint(detail)) && detail@
                == "no default endpoint"@,
        },
        Some(query) => match preferred_match(config@, profile, query) {
            Some(name) => r matches Ok(endpoint) && endpoint@ == config@.endpoints[name],
            None => if matches_of(config, query).len() > 0 {
                r matches Ok(endpoint) && endpoint@ == config@.endpoints[matches_of(
                    config,
                    query,
                )[0]]
            } else {
                r matches Err(MescError::MissingEndpoint(detail)) && detail@
                    == "no endpoint matches the query"@
            },
        },
    }
}

/// With a query, resolving gives an endpoint exactly when some endpoint
/// passes the query, and the endpoint that it gives is held and passes the
/// query.
pub proof fn lemma_resolved_passes(
    config: &RpcConfig,
    profile: Option<Seq<char>>,
    query: EndpointQueryView,
    r: Result<Endpoint, MescError>,
)
    requires
        increasing(config.endpoints.key_texts()),
        resolve_outcome(config, profile, Some(query), r),
    ensures
        r is Ok <==> exists|name: Seq<char>| #[trigger]
            config@.endpoints.contains_key(name) && query_matches(query, config@.endpoints[name]),
        r matches Ok(endpoint) ==> query_matches(query, endpoint@) && exists|name: Seq<char>| #[trigger]
            config@.endpoints.contains_key(name) && config@.endpoints[name] == endpoint@,
{
    let names = config.endpoints.key_texts();
    let found = matches_of(config, query);
    config.endpoints.lemma_view();
    lemma_matching_names(names, config@.endpoints, query);
    if preferred_match(config@, profile, query) is None {
        if found.len() > 0 {
            assert(found.contains(found[0]));
            assert(names.contains(found[0]));
            assert(config@.endpoints.contains_key(found[0]));
        } else {
            assert forall|name: Seq<char>| #[trigger]
                config@.endpoints.contains_key(name) implies !query_matches(
                query,
                config@.endpoints[name],
            ) by {
                if query_matches(query, config@.endpoints[name]) {
                    assert(names.contains(name));
                    assert(found.contains(name));
                }
            }
        }
    }
}

/// One more name at the end adds itself to the matching names if its
/// endpoint passes the query, and nothing if not.
pub proof fn lemma_matching_step(
    names: Seq<Seq<char>>,
    endpoints: Map<Seq<char>, EndpointView>,
    query: EndpointQueryView,
    i: int,
)
    requires
        0 <= i < names.len(),
    ensures
        matching_names(names.take(i + 1), endpoints, query) == if query_matches(
            query,
            endpoints[names[i]],
        ) {
            matching_names(names.take(i), endpoints, query).push(names[i])
        } else {
            matching_names(names.take(i), endpoints, query)
        },
{
    reveal(Seq::filter);
    assert(names.take(i + 1).drop_last() =~= names.take(i));
    assert(names.take(i + 1).last() == names[i]);
}

/// The matching names are those of `names` whose endpoints pass the query,
/// and they are increasing where `names` is.
pub proof fn lemma_matching_names(
    names: Seq<Seq<char>>,
    endpoints: Map<Seq<char>, EndpointView>,
    query: EndpointQueryView,
)
    ensures
        forall|name: Seq<char>| #[trigger]
            matching_names(names, endpoints, query).contains(name) <==> names.contains(name)
                && query_matches(query, endpoints[name]),
        increasing(names) ==> increasing(matching_names(names, endpoints, query)),
    decreases names.len(),
{
    reveal(Seq::filter);
    let found = matching_names(names, endpoints, query);
    if names.len() == 0 {
    } else {
        let head = names.drop_last();
        let last = names.last();
        let before = matching_names(head, endpoints, query);
        lemma_matching_names(head, endpoints, query);
        assert forall|name: Seq<char>| #[trigger]
            found.contains(name) <==> names.contains(name) && query_matches(
                query,
                endpoints[name],
            ) by {
            if found.contains(name) {
                let k = choose|k: int| 0 <= k < found.len() && found[k] == name;
                if k < before.len() {
                    assert(before[k] == name);
                    assert(before.contains(name));
                    let j = choose|j: int| 0 <= j < head.len() && head[j] == name;
                    assert(names[j] == name);
                } else {
                    assert(name == last);
                    assert(names[names.len() - 1] == name);
                }
            }
            if names.contains(name) && query_matches(query, endpoints[name]) {
                let j = choose|j: int| 0 <= j < names.len() && names[j] == name;
                if j < head.len() {
                    assert(head[j] == name);
                    assert(head.contains(name));
                    assert(before.contains(name));
                    let k = choose|k: int| 0 <= k < before.len() && before[k] == name;
                    assert(found[k] == before[k]);
                } else {
                    assert(found[found.len() - 1] == name);
                }
            }
        }
        if increasing(names) {
            assert(increasing(head)) by {
                assert forall|i: int, j: int| 0 <= i < j < head.len() implies text_order(
                    #[trigger] head[i],
                    #[trigger] head[j],
                ) == Order::Less by {
                    assert(head[i] == names[i] && head[j] == names[j]);
                }
            }
            assert forall|i: int, j: int| 0 <= i < j < found.len() implies text_order(
                #[trigger] found[i],
                #[trigger] found[j],
            ) == Order::Less by {
                if j < before.len() {
                    assert(found[i] == before[i] && found[j] == before[j]);
                } else {
                    assert(found[j] == last);
                    assert(found[i] == before[i]);
                    assert(before.contains(before[i]));
                    let k = choose|k: int| 0 <= k < head.len() && head[k] == before[i];
                    assert(names[k] == before[i]);
                    assert(names[names.len() - 1] == last);
                }
            }
        }
    }
}

/// The first of the matching names of a configuration comes before every
/// other name whose endpoint passes the query.
pub proof fn lemma_first_match_is_least(
    config: &RpcConfig,
    query: EndpointQueryView,
    other: Seq<char>,
)
    requires
        increasing(config.endpoints.key_texts()),
        config.endpoints@.contains_key(other),
        query_matches(query, config@.endpoints[other]),
    ensures
        matches_of(config, query).len() > 0,
        other == matches_of(config, query)[0] || text_order(matches_of(config, query)[0], other)
            == Order::Less,
{
    let names = config.endpoints.key_texts();
    let found = matches_of(config, query);
    config.endpoints.lemma_view();
    lemma_matching_names(names, config@.endpoints, query);
    assert(names.contains(other));
    assert(found.contains(other));
    let k = choose|k: int| 0 <= k < found.len() && found[k] == other;
    if k > 0 {
        assert(text_order(found[0], found[k]) == Order::Less);
    }
}

/// The endpoint that stands under `name`.
pub fn get_endpoint_by_name(config: &RpcConfig, name: &str) -> (r: Result<Endpoint, MescError>)
    ensures
        named_outcome(config@, name@, r),
{
    match config.endpoints.get(name) {
        Some(endpoint) => Ok(endpoint.clone()),
        None => Err(MescError::MissingEndpoint(String::from_str(name))),
    }
}

/// The name that the defaults give for `profile` and `chain_id`.
pub fn get_default_name<'a>(
    config: &'a RpcConfig,
    profile: Option<&str>,
    chain_id: Option<&ChainId>,
) -> (r: Option<&'a String>)
    ensures
        match r {
            Some(name) => default_name(config@, text_of(profile), digits_of(chain_id)) == Some(
                name@,
            ),
            None => default_name(config@, text_of(profile), digits_of(chain_id)) is None,
        },
{
    let chosen = match profile {
        Some(profile_name) => config.profiles.get(profile_name),
        None => None,
    };
    if let Some(chain) = chain_id {
        if let Some(overrides) = chosen {
            if let Some(name) = overrides.network_defaults.get(chain.as_str()) {
                return Some(name);
            }
        }
        if let Some(name) = config.network_defaults.get(chain.as_str()) {
            return Some(name);
        }
    }
    if let Some(overrides) = chosen {
        if let Some(name) = &overrides.default_endpoint {
            return Some(name);
        }
    }
    match &config.default_endpoint {
        Some(name) => Some(name),
        None => None,
    }
}

/// The endpoint that the defaults give for `profile` and `chain_id`, if
/// they give one.
fn get_default(config: &RpcConfig, profile: Option<&str>, chain_id: Option<&ChainId>) -> (r:
    Result<Option<Endpoint>, MescError>)
    ensures
        default_outcome(config@, text_of(profile), digits_of(chain_id), r),
{
    match get_default_name(config, profile, chain_id) {
        None => Ok(None),
        Some(name) => match get_endpoint_by_name(config, name.as_str()) {
            Ok(endpoint) => Ok(Some(endpoint)),
            Err(error) => Err(error),
        },
    }
}

/// The default endpoint: that of the profile, else that of the
/// configuration, if either names one.
pub fn get_default_endpoint(config: &RpcConfig, profile: Option<&str>) -> (r: Result<
    Option<Endpoint>,
    MescError,
>)
    ensures
        default_outcome(config@, text_of(profile), None, r),
{
    get_default(config, profile, None)
}

/// The endpoint for the chain `chain_id`: what the network defaults of the
/// profile say, else those of the configuration, else the default endpoint.
pub fn get_endpoint_by_network(config: &RpcConfig, chain_id: &ChainId, profile: Option<&str>) -> (r:
    Result<Option<Endpoint>, MescError>)
    ensures
        default_outcome(config@, text_of(profile), Some(chain_id@), r),
{
    get_default(config, profile, Some(chain_id))
}

/// The endpoints that pass `query`, in the order of their names.
pub fn find_endpoints(config: &RpcConfig, query: &EndpointQuery) -> (r: Vec<Endpoint>)
    ensures
        found_outcome(config, query@, r@),
{
    let n = config.endpoints.len();
    let ghost names = config.endpoints.key_texts();
    let ghost held = config@.endpoints;
    proof {
        config.endpoints.lemma_view();
        reveal(Seq::filter);
        assert(names.take(0) =~= Seq::<Seq<char>>::empty());
    }
    let mut found: Vec<Endpoint> = Vec::new();
    let mut i: usize = 0;
    while i < n
        invariant
            i <= n,
            n == names.len(),
            names == config.endpoints.key_texts(),
            held == config@.endpoints,
            n == config.endpoints.values().len(),
            forall|j: int|
                0 <= j < n ==> {
                    &&& config.endpoints@.contains_key(#[trigger] names[j])
                    &&& config.endpoints@[names[j]] == config.endpoints.values()[j]
                },
            found@.len() == matching_names(names.take(i as int), held, query@).len(),
            forall|j: int|
                0 <= j < found@.len() ==> (#[trigger] found@[j])@ == held[matching_names(
                    names.take(i as int),
                    held,
                    query@,
                )[j]],
        decreases n - i,
    {
        let endpoint = config.endpoints.value_at(i);
        proof {
            lemma_matching_step(names, held, query@, i as int);
            assert(endpoint@ == held[names[i as int]]);
        }
        if query.accepts(endpoint) {
            found.push(endpoint.clone());
        }
        i += 1;
    }
    assert(names.take(n as int) =~= names);
    found
}

/// The one endpoint that answers. Without a query it is the default
/// endpoint. With a query it is an endpoint that passes the query: the one
/// that the defaults name for the chain of the query, if that one passes,
/// else the first in the order of names of those that pass.
pub fn resolve_endpoint(config: &RpcConfig, profile: Option<&str>, query: Option<&EndpointQuery>) -> (r:
    Result<Endpoint, MescError>)
    ensures
        resolve_outcome(
            config,
            text_of(profile),
            match query {
                Some(q) => Some(q@),
                None => None,
            },
            r,
        ),
{
    match query {
        None => match get_default_name(config, profile, None) {
            Some(name) => get_endpoint_by_name(config, name.as_str()),
            None => Err(MescError::MissingEndpoint(String::from_str("no default endpoint"))),
        },
        Some(query) => {
            let chain_id = match &query.chain_id {
                Some(chain_id) => Some(chain_id),
                None => None,
            };
            if let Some(name) = get_default_name(config, profile, chain_id) {
                if let Some(endpoint) = config.endpoints.get(name.as_str()) {
                    if query.accepts(endpoint) {
                        return Ok(endpoint.clone());
                    }
                }
            }
            let mut found = find_endpoints(config, query);
            if found.len() > 0 {
                Ok(found.remove(0))
            } else {
                Err(MescError::MissingEndpoint(String::from_str("no endpoint matches the query")))
            }
        },
    }
}

} // verus!
