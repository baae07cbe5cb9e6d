//! The integrity rules of a configuration: its version is a version, and
//! every endpoint that it refers to is one that it holds.

use crate::chain_ids::ChainId;
use crate::digits::is_digit;
use crate::error::MescError;
use crate::sorted_map::SortedMap;
use crate::text::str_equal;
use crate::types::texts;
use crate::types::view_option;
use crate::types::view_values;
use crate::types::Endpoint;
use crate::types::EndpointView;
use crate::types::Profile;
use crate::types::RpcConfig;
use crate::types::RpcConfigView;
use vstd::prelude::*;
use vstd::string::StringExecFns;
use vstd::utf8::is_ascii_chars_encode_utf8;

verus! {

/// `s` is a version: groups of decimal digits with single dots between them.
pub open spec fn is_version_text(s: Seq<char>) -> bool {
    &&& s.len() > 0
    &&& forall|i: int| 0 <= i < s.len() ==> is_digit(#[trigger] s[i]) || s[i] == '.'
    &&& is_digit(s[0])
    &&& is_digit(s[s.len() - 1])
    &&& forall|i: int, j: int|
        0 <= i && j == i + 1 && j < s.len() ==> !(#[trigger] s[i] == '.' && #[trigger] s[j] == '.')
}

/// A default endpoint and the network defaults beside it refer to the
/// endpoint `name`.
pub open spec fn block_refers(
    default_endpoint: Option<Seq<char>>,
    network_defaults: Map<Seq<char>, Seq<char>>,
    name: Seq<char>,
) -> bool {
    ||| default_endpoint == Some(name)
    ||| exists|chain: Seq<char>| #[trigger]
        network_defaults.contains_key(chain) && network_defaults[chain] == name
}

/// The endpoint `name` is held and has a chain id other than `chain`.
pub open spec fn mismatch(
    endpoints: Map<Seq<char>, EndpointView>,
    chain: Seq<char>,
    name: Seq<char>,
) -> bool {
    &&& endpoints.contains_key(name)
    &&& endpoints[name].chain_id matches Some(digits)
    &&& digits != chain
}

/// A default endpoint and the network defaults beside it are sound: every
/// endpoint that they refer to is held; and, under `strict`, no network
/// default gives a chain an endpoint of another chain.
pub open spec fn block_valid(
    endpoints: Map<Seq<char>, EndpointView>,
    default_endpoint: Option<Seq<char>>,
    network_defaults: Map<Seq<char>, Seq<char>>,
    strict: bool,
) -> bool {
    &&& forall|name: Seq<char>| #[trigger]
        block_refers(default_endpoint, network_defaults, name) ==> endpoints.contains_key(name)
    &&& strict ==> forall|chain: Seq<char>| #[trigger]
        network_defaults.contains_key(chain) ==> !mismatch(
            endpoints,
            chain,
            network_defaults[chain],
        )
}

/// `detail` names something that is unsound in a default endpoint and the
/// network defaults beside it.
pub open spec fn block_violation(
    endpoints: Map<Seq<char>, EndpointView>,
    default_endpoint: Option<Seq<char>>,
    network_defaults: Map<Seq<char>, Seq<char>>,
    strict: bool,
    detail: Seq<char>,
) -> bool {
    ||| exists|name: Seq<char>|
        {
            &&& #[trigger] block_refers(default_endpoint, network_defaults, name)
            &&& !endpoints.contains_key(name)
            &&& detail == "unknown endpoint: "@ + name
        }
    ||| strict && exists|chain: Seq<char>|
        {
            &&& #[trigger] network_defaults.contains_key(chain)
            &&& mismatch(endpoints, chain, network_defaults[chain])
            &&& detail == "chain id mismatch: "@ + network_defaults[chain]
        }
}

/// What is unsound in the network default that gives the chain `chain` the
/// endpoint `name`, if anything is: that the endpoint is not held, or, under
/// `strict`, that it is of another chain.
pub open spec fn entry_detail(
    endpoints: Map<Seq<char>, EndpointView>,
    chain: Seq<char>,
    name: Seq<char>,
    strict: bool,
) -> Option<Seq<char>> {
    if !endpoints.contains_key(name) {
        Some("unknown endpoint: "@ + name)
    } else if strict && mismatch(endpoints, chain, name) {
        Some("chain id mismatch: "@ + name)
    } else {
        None
    }
}

/// Nothing is unsound in a default endpoint and the network defaults beside
/// it, which give the chains `chains`, in this order, the endpoints `names`.
pub open spec fn block_sound(
    endpoints: Map<Seq<char>, EndpointView>,
    default_endpoint: Option<Seq<char>>,
    chains: Seq<Seq<char>>,
    names: Seq<Seq<char>>,
    strict: bool,
) -> bool {
    &&& default_endpoint matches Some(name) ==> endpoints.contains_key(name)
    &&& forall|i: int|
        0 <= i < chains.len() ==> (#[trigger] entry_detail(endpoints, chains[i], names[i], strict))
            is None
}

/// `detail` names the first thing that is unsound in a default endpoint and
/// the network defaults beside it: the default endpoint, if it is not held;
/// else the first network default, in the order of the chains, in which
/// something is unsound.
pub open spec fn block_first(
    endpoints: Map<Seq<char>, EndpointView>,
    default_endpoint: Option<Seq<char>>,
    chains: Seq<Seq<char>>,
    names: Seq<Seq<char>>,
    strict: bool,
    detail: Seq<char>,
) -> bool {
    if default_endpoint is Some && !endpoints.contains_key(default_endpoint->0) {
        detail == "unknown endpoint: "@ + default_endpoint->0
    } else {
        exists|i: int|
            {
                &&& 0 <= i < chains.len()
                &&& #[trigger] entry_detail(endpoints, chains[i], names[i], strict) == Some(detail)
                &&& forall|j: int|
                    0 <= j < i ==> (#[trigger] entry_detail(endpoints, chains[j], names[j], strict))
                        is None
            }
    }
}

/// Nothing is unsound in the profile `profile`.
pub open spec fn profile_sound(
    endpoints: Map<Seq<char>, EndpointView>,
    profile: Profile,
    strict: bool,
) -> bool {
    block_sound(
        endpoints,
        view_option(profile.default_endpoint),
        profile.network_defaults.key_texts(),
        texts(profile.network_defaults.values()),
        strict,
    )
}

/// `detail` names the first thing that is unsound in the configuration, in
/// this order: the version; the default endpoint; the network defaults, by
/// their chains; then the profiles, by their names, each with its default
/// endpoint and then its network defaults.
pub open spec fn first_violation(config: &RpcConfig, strict: bool, detail: Seq<char>) -> bool {
    if !is_version_text(config@.mesc_version) {
        detail == "invalid mesc_version: "@ + config@.mesc_version
    } else if !block_sound(
        config@.endpoints,
        config@.default_endpoint,
        config.network_defaults.key_texts(),
        texts(config.network_defaults.values()),
        strict,
    ) {
        block_first(
            config@.endpoints,
            config@.default_endpoint,
            config.network_defaults.key_texts(),
            texts(config.network_defaults.values()),
            strict,
            detail,
        )
    } else {
        exists|p: int|
            {
                &&& 0 <= p < config.profiles.values().len()
                &&& !profile_sound(config@.endpoints, #[trigger] config.profiles.values()[p], strict)
                &&& block_first(
                    config@.endpoints,
                    view_option(config.profiles.values()[p].default_endpoint),
                    config.profiles.values()[p].network_defaults.key_texts(),
                    texts(config.profiles.values()[p].network_defaults.values()),
                    strict,
                    detail,
                )
                &&& forall|q: int|
                    0 <= q < p ==> profile_sound(
                        config@.endpoints,
                        #[trigger] config.profiles.values()[q],
                        strict,
                    )
            }
    }
}

/// A block has at most one first unsound thing.
pub proof fn lemma_block_first_is_one(
    endpoints: Map<Seq<char>, EndpointView>,
    default_endpoint: Option<Seq<char>>,
    chains: Seq<Seq<char>>,
    names: Seq<Seq<char>>,
    strict: bool,
    a: Seq<char>,
    b: Seq<char>,
)
    requires
        block_first(endpoints, default_endpoint, chains, names, strict, a),
        block_first(endpoints, default_endpoint, chains, names, strict, b),
    ensures
        a == b,
{
    if !(default_endpoint is Some && !endpoints.contains_key(default_endpoint->0)) {
        let i = choose|i: int|
            {
                &&& 0 <= i < chains.len()
                &&& #[trigger] entry_detail(endpoints, chains[i], names[i], strict) == Some(a)
                &&& forall|j: int|
                    0 <= j < i ==> (#[trigger] entry_detail(endpoints, chains[j], names[j], strict))
                        is None
            };
        let k = choose|k: int|
            {
                &&& 0 <= k < chains.len()
                &&& #[trigger] entry_detail(endpoints, chains[k], names[k], strict) == Some(b)
                &&& forall|j: int|
                    0 <= j < k ==> (#[trigger] entry_detail(endpoints, chains[j], names[j], strict))
                        is None
            };
        assert(i == k);
    }
}

/// A configuration has at most one first unsound thing: what the test of
/// the configuration names is fixed by the configuration.
pub proof fn lemma_first_violation_is_one(config: &RpcConfig, strict: bool, a: Seq<char>, b: Seq<char>)
    requires
        first_violation(config, strict, a),
        first_violation(config, strict, b),
    ensures
        a == b,
{
    let held = config@.endpoints;
    if !is_version_text(config@.mesc_version) {
    } else if !block_sound(
        held,
        config@.default_endpoint,
        config.network_defaults.key_texts(),
        texts(config.network_defaults.values()),
        strict,
    ) {
        lemma_block_first_is_one(
            held,
            config@.default_endpoint,
            config.network_defaults.key_texts(),
            texts(config.network_defaults.values()),
            strict,
            a,
            b,
        );
    } else {
        let profiles = config.profiles.values();
        let p = choose|p: int|
            {
                &&& 0 <= p < profiles.len()
                &&& !profile_sound(held, #[trigger] profiles[p], strict)
                &&& block_first(
                    held,
                    view_option(profiles[p].default_endpoint),
                    profiles[p].network_defaults.key_texts(),
                    texts(profiles[p].network_defaults.values()),
                    strict,
                    a,
                )
                &&& forall|q: int| 0 <= q < p ==> profile_sound(held, #[trigger] profiles[q], strict)
            };
        let r = choose|r: int|
            {
                &&& 0 <= r < profiles.len()
                &&& !profile_sound(held, #[trigger] profiles[r], strict)
                &&& block_first(
                    held,
                    view_option(profiles[r].default_endpoint),
                    profiles[r].network_defaults.key_texts(),
                    texts(profiles[r].network_defaults.values()),
                    strict,
                    b,
                )
                &&& forall|q: int| 0 <= q < r ==> profile_sound(held, #[trigger] profiles[q], strict)
            };
        assert(p == r);
        lemma_block_first_is_one(
            held,
            view_option(profiles[p].default_endpoint),
            profiles[p].network_defaults.key_texts(),
            texts(profiles[p].network_defaults.values()),
            strict,
            a,
            b,
        );
    }
}

/// The configuration refers to the endpoint `name`: as its default endpoint,
/// in its network defaults, or in those of one of its profiles.
pub open spec fn referenced(config: RpcConfigView, name: Seq<char>) -> bool {
    ||| block_refers(config.default_endpoint, config.network_defaults, name)
    ||| exists|profile: Seq<char>|
        {
            &&& #[trigger] config.profiles.contains_key(profile)
            &&& block_refers(
                config.profiles[profile].default_endpoint,
                config.profiles[profile].network_defaults,
                name,
            )
        }
}

/// The configuration is sound: its version is a version, and its own
/// defaults and those of each profile are sound.
pub open spec fn config_valid(config: RpcConfigView, strict: bool) -> bool {
    &&& is_version_text(config.mesc_version)
    &&& block_valid(config.endpoints, config.default_endpoint, config.network_defaults, strict)
    &&& forall|profile: Seq<char>| #[trigger]
        config.profiles.contains_key(profile) ==> block_valid(
            config.endpoints,
            config.profiles[profile].default_endpoint,
            config.profiles[profile].network_defaults,
            strict,
        )
}

/// `detail` names something that is unsound in the configuration.
pub open spec fn is_violation(config: RpcConfigView, strict: bool, detail: Seq<char>) -> bool {
    ||| !is_version_text(config.mesc_version) && detail == "invalid mesc_version: "@
        + config.mesc_version
    ||| block_violation(
        config.endpoints,
        config.default_endpoint,
        config.network_defaults,
        strict,
        detail,
    )
    ||| exists|profile: Seq<char>|
        {
            &&& #[trigger] config.profiles.contains_key(profile)
            &&& block_violation(
                config.endpoints,
                config.profiles[profile].default_endpoint,
                config.profiles[profile].network_defaults,
                strict,
                detail,
            )
        }
}

/// What is unsound is not sound.
pub proof fn lemma_violation_is_invalid(config: RpcConfigView, strict: bool, detail: Seq<char>)
    requires
        is_violation(config, strict, detail),
    ensures
        !config_valid(config, strict),
{
}

/// A configuration whose default endpoint is not among its endpoints is not
/// sound, strict or not.
pub proof fn lemma_dangling_default_is_invalid(config: RpcConfigView, strict: bool)
    requires
        config.default_endpoint matches Some(name) && !config.endpoints.contains_key(name),
    ensures
        !config_valid(config, strict),
{
    let name = config.default_endpoint->0;
    assert(block_refers(config.default_endpoint, config.network_defaults, name));
}

/// A configuration with a version for its version, in which every endpoint
/// that is referred to is held, is sound where chains need not agree.
pub proof fn lemma_resolved_references_are_valid(config: RpcConfigView)
    requires
        is_version_text(config.mesc_version),
        forall|name: Seq<char>| #[trigger]
            referenced(config, name) ==> config.endpoints.contains_key(name),
    ensures
        config_valid(config, false),
{
    assert forall|name: Seq<char>| #[trigger]
        block_refers(
            config.default_endpoint,
            config.network_defaults,
            name,
        ) implies config.endpoints.contains_key(name) by {
        assert(referenced(config, name));
    }
    assert forall|profile: Seq<char>| #[trigger]
        config.profiles.contains_key(profile) implies block_valid(
        config.endpoints,
        config.profiles[profile].default_endpoint,
        config.profiles[profile].network_defaults,
        false,
    ) by {
        assert forall|name: Seq<char>| #[trigger]
            block_refers(
                config.profiles[profile].default_endpoint,
                config.profiles[profile].network_defaults,
                name,
            ) implies config.endpoints.contains_key(name) by {
            assert(referenced(config, name));
        }
    }
}

/// Whether `s` is a version.
pub fn is_version_str(s: &str) -> (r: bool)
    ensures
        r == is_version_text(s@),
{
    if !s.is_ascii() {
        assert(!is_version_text(s@)) by {
            if is_version_text(s@) {
                assert forall|i: int| 0 <= i < s@.len() implies '\0' <= #[trigger] s@[i]
                    <= '\u{7f}' by {
                    assert(is_digit(s@[i]) || s@[i] == '.');
                }
            }
        }
        return false;
    }
    let bytes = s.as_bytes();
    proof {
        is_ascii_chars_encode_utf8(s@);
    }
    let n = bytes.len();
    if n == 0 {
        return false;
    }
    let mut after_dot: bool = true;
    let mut i: usize = 0;
    while i < n
        invariant
            i <= n,
            n == bytes.len(),
            n == s@.len(),
            forall|j: int| 0 <= j < s@.len() ==> s@[j] as u8 == #[trigger] bytes@[j],
            forall|j: int| 0 <= j < s@.len() ==> '\0' <= #[trigger] s@[j] <= '\u{7f}',
            forall|j: int| 0 <= j < i ==> is_digit(#[trigger] s@[j]) || s@[j] == '.',
            i > 0 ==> is_digit(s@[0]),
            after_dot == (i == 0 || s@[i - 1] == '.'),
            forall|j: int, k: int|
                0 <= j && k == j + 1 && k < i ==> !(#[trigger] s@[j] == '.' && #[trigger] s@[k]
                    == '.'),
        decreases n - i,
    {
        let b: u8 = bytes[i];
        assert(b == s@[i as int] as u8);
        if b == 46 {
            assert(s@[i as int] == '.');
            if after_dot {
                assert(!is_version_text(s@)) by {
                    if i > 0 {
                        assert(s@[i - 1] == '.' && s@[i as int] == '.');
                    }
                }
                return false;
            }
            after_dot = true;
        } else if b >= 48 && b <= 57 {
            assert(is_digit(s@[i as int]));
            after_dot = false;
        } else {
            assert(!(is_digit(s@[i as int]) || s@[i as int] == '.'));
            return false;
        }
        i += 1;
    }
    !after_dot
}

/// The first thing that is unsound in a default endpoint and the network
/// defaults beside it, if anything is.
fn check_block(
    endpoints: &SortedMap<String, Endpoint>,
    default_endpoint: &Option<String>,
    network_defaults: &SortedMap<ChainId, String>,
    strict: bool,
) -> (r: Option<String>)
    ensures
        match r {
            None => block_valid(
                view_values(endpoints@),
                view_option(*default_endpoint),
                view_values(network_defaults@),
                strict,
            ),
            Some(detail) => block_violation(
                view_values(endpoints@),
                view_option(*default_endpoint),
                view_values(network_defaults@),
                strict,
                detail@,
            ),
        },
        r is None <==> block_sound(
            view_values(endpoints@),
            view_option(*default_endpoint),
            network_defaults.key_texts(),
            texts(network_defaults.values()),
            strict,
        ),
        r matches Some(detail) ==> block_first(
            view_values(endpoints@),
            view_option(*default_endpoint),
            network_defaults.key_texts(),
            texts(network_defaults.values()),
            strict,
            detail@,
        ),
{
    let ghost held = view_values(endpoints@);
    let ghost chains = network_defaults.key_texts();
    let ghost names = texts(network_defaults.values());
    let ghost first = view_option(*default_endpoint);
    let ghost defaults = view_values(network_defaults@);
    if let Some(name) = default_endpoint {
        if !endpoints.contains_key(name.as_str()) {
            assert(block_refers(first, defaults, name@));
            return Some(String::from_str("unknown endpoint: ").concat(name.as_str()));
        }
    }
    let n = network_defaults.len();
    proof {
        network_defaults.lemma_view();
        network_defaults.lemma_entries();
    }
    let mut i: usize = 0;
    while i < n
        invariant
            i <= n,
            n == network_defaults.key_texts().len(),
            n == network_defaults.values().len(),
            held == view_values(endpoints@),
            first == view_option(*default_endpoint),
            defaults == view_values(network_defaults@),
            forall|j: int|
                0 <= j < n ==> {
                    &&& network_defaults@.contains_key(#[trigger] network_defaults.key_texts()[j])
                    &&& network_defaults@[network_defaults.key_texts()[j]]
                        == network_defaults.values()[j]
                },
            forall|j: int|
                0 <= j < i ==> held.contains_key((#[trigger] network_defaults.values()[j])@),
            strict ==> forall|j: int|
                0 <= j < i ==> !mismatch(
                    held,
                    #[trigger] network_defaults.key_texts()[j],
                    network_defaults.values()[j]@,
                ),
            chains == network_defaults.key_texts(),
            names == texts(network_defaults.values()),
            first matches Some(name) ==> held.contains_key(name),
            forall|j: int|
                0 <= j < i ==> (#[trigger] entry_detail(held, chains[j], names[j], strict)) is None,
        decreases n - i,
    {
        let chain = network_defaults.key_at(i);
        let name = network_defaults.value_at(i);
        let ghost key = network_defaults.key_texts()[i as int];
        assert(defaults.contains_key(key) && defaults[key] == name@);
        assert(chains[i as int] == key && names[i as int] == name@);
        match endpoints.get(name.as_str()) {
            None => {
                assert(block_refers(first, defaults, name@));
                let detail = String::from_str("unknown endpoint: ").concat(name.as_str());
                assert(entry_detail(held, chains[i as int], names[i as int], strict) == Some(
                    detail@,
                ));
                return Some(detail);
            },
            Some(endpoint) => {
                if strict {
                    if let Some(own) = &endpoint.chain_id {
                        if !str_equal(own.as_str(), chain.as_str()) {
                            assert(mismatch(held, key, defaults[key]));
                            let detail = String::from_str("chain id mismatch: ").concat(
                                name.as_str(),
                            );
                            assert(entry_detail(held, chains[i as int], names[i as int], strict)
                                == Some(detail@));
                            return Some(detail);
                        }
                    }
                }
            },
        }
        assert(entry_detail(held, chains[i as int], names[i as int], strict) is None);
        i += 1;
    }
    proof {
        assert forall|name: Seq<char>| #[trigger]
            block_refers(first, defaults, name) implies held.contains_key(name) by {
            if first != Some(name) {
                let chain = choose|chain: Seq<char>| #[trigger]
                    defaults.contains_key(chain) && defaults[chain] == name;
                let at = network_defaults.key_texts().index_of(chain);
                assert(network_defaults.key_texts()[at] == chain);
                assert(network_defaults.values()[at]@ == name);
            }
        }
        if strict {
            assert forall|chain: Seq<char>| #[trigger] defaults.contains_key(chain) implies !mismatch(
                held,
                chain,
                defaults[chain],
            ) by {
                let at = network_defaults.key_texts().index_of(chain);
                assert(network_defaults.key_texts()[at] == chain);
                assert(network_defaults.values()[at]@ == defaults[chain]);
            }
        }
    }
    None
}

/// Tests the configuration against the integrity rules. With `strict`, a
/// network default must also lead to an endpoint of its own chain, or to
/// one without a chain id.
pub fn check_config(config: &RpcConfig, strict: bool) -> (r: Result<(), MescError>)
    ensures
        r is Ok <==> config_valid(config@, strict),
        r matches Err(error) ==> error matches MescError::IntegrityError(detail) && is_violation(
            config@,
            strict,
            detail@,
        ) && first_violation(config, strict, detail@),
{
    if !is_version_str(config.mesc_version.as_str()) {
        return Err(
            MescError::IntegrityError(
                String::from_str("invalid mesc_version: ").concat(config.mesc_version.as_str()),
            ),
        );
    }
    if let Some(detail) = check_block(
        &config.endpoints,
        &config.default_endpoint,
        &config.network_defaults,
        strict,
    ) {
        proof {
            lemma_violation_is_invalid(config@, strict, detail@);
        }
        return Err(MescError::IntegrityError(detail));
    }
    let n = config.profiles.len();
    proof {
        config.profiles.lemma_view();
    }
    let mut i: usize = 0;
    while i < n
        invariant
            i <= n,
            n == config.profiles.key_texts().len(),
            n == config.profiles.values().len(),
            forall|j: int|
                0 <= j < n ==> {
                    &&& config.profiles@.contains_key(#[trigger] config.profiles.key_texts()[j])
                    &&& config.profiles@[config.profiles.key_texts()[j]]
                        == config.profiles.values()[j]
                },
            forall|j: int|
                0 <= j < i ==> block_valid(
                    config@.endpoints,
                    (#[trigger] config.profiles.values()[j])@.default_endpoint,
                    config.profiles.values()[j]@.network_defaults,
                    strict,
                ),
            forall|j: int|
                0 <= j < i ==> profile_sound(
                    config@.endpoints,
                    #[trigger] config.profiles.values()[j],
                    strict,
                ),
            is_version_text(config@.mesc_version),
            block_sound(
                config@.endpoints,
                config@.default_endpoint,
                config.network_defaults.key_texts(),
                texts(config.network_defaults.values()),
                strict,
            ),
        decreases n - i,
    {
        let profile = config.profiles.value_at(i);
        let ghost key = config.profiles.key_texts()[i as int];
        assert(config@.profiles.contains_key(key) && config@.profiles[key] == profile@);
        if let Some(detail) = check_block(
            &config.endpoints,
            &profile.default_endpoint,
            &profile.network_defaults,
            strict,
        ) {
            proof {
                lemma_violation_is_invalid(config@, strict, detail@);
                assert(!profile_sound(config@.endpoints, config.profiles.values()[i as int], strict));
            }
            return Err(MescError::IntegrityError(detail));
        }
        assert(profile_sound(config@.endpoints, config.profiles.values()[i as int], strict));
        i += 1;
    }
    proof {
        assert forall|profile: Seq<char>| #[trigger]
            config@.profiles.contains_key(profile) implies block_valid(
            config@.endpoints,
            config@.profiles[profile].default_endpoint,
            config@.profiles[profile].network_defaults,
            strict,
        ) by {
            let at = config.profiles.key_texts().index_of(profile);
            assert(config.profiles.key_texts()[at] == profile);
            assert(config.profiles.values()[at]@ == config@.profiles[profile]);
        }
    }
    Ok(())
}

/// Tests the configuration against the integrity rules; chains need not
/// agree.
pub fn validate_config(config: &RpcConfig) -> (r: Result<(), MescError>)
    ensures
        r is Ok <==> config_valid(config@, false),
        r matches Err(error) ==> error matches MescError::IntegrityError(detail) && is_violation(
            config@,
            false,
            detail@,
        ) && first_violation(config, false, detail@),
{
    check_config(config, false)
}

impl RpcConfig {
    /// Tests the configuration against the integrity rules; chains need not
    /// agree.
    pub fn validate(&self) -> (r: Result<(), MescError>)
        ensures
            r is Ok <==> config_valid(self@, false),
            r matches Err(error) ==> error matches MescError::IntegrityError(detail)
                && is_violation(self@, false, detail@) && first_violation(self, false, detail@),
    {
        validate_config(self)
    }

    /// Tests the configuration against the integrity rules, and asks that
    /// chains agree.
    pub fn validate_strict(&self) -> (r: Result<(), MescError>)
        ensures
            r is Ok <==> config_valid(self@, true),
            r matches Err(error) ==> error matches MescError::IntegrityError(detail)
                && is_violation(self@, true, detail@) && first_violation(self, true, detail@),
    {
        check_config(self, true)
    }
}

} // verus!
