//! The configuration document in memory, and the query that filters its
//! endpoints.

use crate::chain_ids::chain_id_outcome;
use crate::chain_ids::ChainId;
use crate::chain_ids::TryIntoChainId;
use crate::digits::is_decimal;
use crate::error::MescError;
use crate::sorted_map::MapKey;
use crate::sorted_map::SortedMap;
use crate::text::str_contains;
use crate::text::str_equal;
use crate::text::text_contains;
use std::collections::HashMap;
use vstd::prelude::*;
use vstd::string::StringExecFns;

verus! {

/// `serde_json::Value`, a JSON value of any shape. Nothing is said of what
/// it holds: metadata is carried through as it came.
#[verifier::external_type_specification]
#[verifier::external_body]
pub struct ExJsonValue(serde_json::Value);

/// The version of the document format that this library writes.
pub const MESC_VERSION: &'static str = "0.1.0";

/// The views of the values of `m`, under the same keys.
pub open spec fn view_values<T: View>(m: Map<Seq<char>, T>) -> Map<Seq<char>, T::V> {
    m.map_values(|value: T| value@)
}

/// The texts of `strings`, place by place.
pub open spec fn texts(strings: Seq<String>) -> Seq<Seq<char>> {
    Seq::new(strings.len(), |i: int| strings[i]@)
}

/// The view of an optional text.
pub open spec fn view_option<T: View>(o: Option<T>) -> Option<T::V> {
    match o {
        Some(value) => Some(value@),
        None => None,
    }
}

/// Two maps with the same key texts, of which each value of the second has
/// the view of the value at its place in the first, hold the same.
pub proof fn lemma_same_entries<K: MapKey, T: View>(a: &SortedMap<K, T>, b: &SortedMap<K, T>)
    requires
        a.key_texts() == b.key_texts(),
        a.values().len() == b.values().len(),
        a.values().len() == a.key_texts().len(),
        forall|i: int| 0 <= i < a.values().len() ==> (#[trigger] a.values()[i])@ == b.values()[i]@,
    ensures
        view_values(a@) == view_values(b@),
{
    assert(view_values(a@) =~= view_values(b@));
}

/// A named RPC address.
#[derive(Debug)]
pub struct Endpoint {
    pub name: String,
    pub url: String,
    pub chain_id: Option<ChainId>,
    pub endpoint_metadata: HashMap<String, serde_json::Value>,
}

/// What an `Endpoint` holds.
pub struct EndpointView {
    pub name: Seq<char>,
    pub url: Seq<char>,
    pub chain_id: Option<Seq<char>>,
    pub endpoint_metadata: Map<String, serde_json::Value>,
}

impl View for Endpoint {
    type V = EndpointView;

    open spec fn view(&self) -> EndpointView {
        EndpointView {
            name: self.name@,
            url: self.url@,
            chain_id: view_option(self.chain_id),
            endpoint_metadata: self.endpoint_metadata@,
        }
    }
}

impl Clone for Endpoint {
    fn clone(&self) -> (r: Self)
        ensures
            r@ == self@,
    {
        Endpoint {
            name: self.name.clone(),
            url: self.url.clone(),
            chain_id: match &self.chain_id {
                Some(chain_id) => Some(chain_id.clone()),
                None => None,
            },
            endpoint_metadata: self.endpoint_metadata.clone(),
        }
    }
}

impl Endpoint {
    /// The digits of the chain id, or `-` where the endpoint has none.
    pub fn chain_id_string(&self) -> (r: String)
        ensures
            r@ == match self@.chain_id {
                Some(digits) => digits,
                None => "-"@,
            },
    {
        match &self.chain_id {
            Some(chain_id) => chain_id.to_string(),
            None => String::from_str("-"),
        }
    }
}

/// A named context that overrides the defaults of the configuration.
#[derive(Debug)]
pub struct Profile {
    pub default_endpoint: Option<String>,
    pub network_defaults: SortedMap<ChainId, String>,
}

/// What a `Profile` holds.
pub struct ProfileView {
    pub default_endpoint: Option<Seq<char>>,
    pub network_defaults: Map<Seq<char>, Seq<char>>,
}

impl View for Profile {
    type V = ProfileView;

    open spec fn view(&self) -> ProfileView {
        ProfileView {
            default_endpoint: view_option(self.default_endpoint),
            network_defaults: view_values(self.network_defaults@),
        }
    }
}

impl Clone for Profile {
    fn clone(&self) -> (r: Self)
        ensures
            r@ == self@,
    {
        let r = Profile {
            default_endpoint: match &self.default_endpoint {
                Some(name) => Some(name.clone()),
                None => None,
            },
            network_defaults: self.network_defaults.clone(),
        };
        proof {
            lemma_same_entries(&self.network_defaults, &r.network_defaults);
        }
        r
    }
}

/// Where the configuration document comes from.
#[derive(Debug, Clone, Copy, PartialEq, Eq, Structural)]
pub enum ConfigMode {
    /// The document is a file, whose path is given from outside.
    Path,
    /// The document is the text of a value of the environment.
    Env,
    /// There is no configuration.
    Disabled,
}

/// The whole configuration document.
#[derive(Debug)]
pub struct RpcConfig {
    pub mesc_version: String,
    pub default_endpoint: Option<String>,
    pub network_defaults: SortedMap<ChainId, String>,
    pub endpoints: SortedMap<String, Endpoint>,
    pub network_names: SortedMap<String, ChainId>,
    pub profiles: SortedMap<String, Profile>,
    pub global_metadata: HashMap<String, serde_json::Value>,
}

/// What an `RpcConfig` holds.
pub struct RpcConfigView {
    pub mesc_version: Seq<char>,
    pub default_endpoint: Option<Seq<char>>,
    pub network_defaults: Map<Seq<char>, Seq<char>>,
    pub endpoints: Map<Seq<char>, EndpointView>,
    pub network_names: Map<Seq<char>, Seq<char>>,
    pub profiles: Map<Seq<char>, ProfileView>,
    pub global_metadata: Map<String, serde_json::Value>,
}

impl View for RpcConfig {
    type V = RpcConfigView;

    open spec fn view(&self) -> RpcConfigView {
        RpcConfigView {
            mesc_version: self.mesc_version@,
            default_endpoint: view_option(self.default_endpoint),
            network_defaults: view_values(self.network_defaults@),
            endpoints: view_values(self.endpoints@),
            network_names: view_values(self.network_names@),
            profiles: view_values(self.profiles@),
            global_metadata: self.global_metadata@,
        }
    }
}

impl Clone for RpcConfig {
    fn clone(&self) -> (r: Self)
        ensures
            r@ == self@,
    {
        let r = RpcConfig {
            mesc_version: self.mesc_version.clone(),
            default_endpoint: match &self.default_endpoint {
                Some(name) => Some(name.clone()),
                None => None,
            },
            network_defaults: self.network_defaults.clone(),
            endpoints: self.endpoints.clone(),
            network_names: self.network_names.clone(),
            profiles: self.profiles.clone(),
            global_metadata: self.global_metadata.clone(),
        };
        proof {
            lemma_same_entries(&self.network_defaults, &r.network_defaults);
            lemma_same_entries(&self.endpoints, &r.endpoints);
            lemma_same_entries(&self.network_names, &r.network_names);
            lemma_same_entries(&self.profiles, &r.profiles);
        }
        r
    }
}

/// What the configuration holds that holds nothing: the version of the
/// format that this library writes, and no entry of any kind.
pub open spec fn empty_config() -> RpcConfigView {
    RpcConfigView {
        mesc_version: MESC_VERSION@,
        default_endpoint: None,
        network_defaults: Map::empty(),
        endpoints: Map::empty(),
        network_names: Map::empty(),
        profiles: Map::empty(),
        global_metadata: Map::empty(),
    }
}

impl Default for RpcConfig {
    /// The configuration that holds nothing, in this library's version of
    /// the format.
    fn default() -> (r: Self)
        ensures
            r@ == empty_config(),
            r.network_defaults.key_texts().len() == 0,
            r.endpoints.key_texts().len() == 0,
            r.network_names.key_texts().len() == 0,
            r.profiles.key_texts().len() == 0,
    {
        let r = RpcConfig {
            mesc_version: String::from_str(MESC_VERSION),
            default_endpoint: None,
            network_defaults: SortedMap::new(),
            endpoints: SortedMap::new(),
            network_names: SortedMap::new(),
            profiles: SortedMap::new(),
            global_metadata: HashMap::new(),
        };
        assert(r@.network_defaults =~= Map::<Seq<char>, Seq<char>>::empty());
        assert(r@.endpoints =~= Map::<Seq<char>, EndpointView>::empty());
        assert(r@.network_names =~= Map::<Seq<char>, Seq<char>>::empty());
        assert(r@.profiles =~= Map::<Seq<char>, ProfileView>::empty());
        r
    }
}

/// A filter on endpoints. A field that is `None` lets every endpoint pass.
#[derive(Debug)]
pub struct EndpointQuery {
    pub chain_id: Option<ChainId>,
    pub name_contains: Option<String>,
    pub url_contains: Option<String>,
}

/// What an `EndpointQuery` asks for.
pub struct EndpointQueryView {
    pub chain_id: Option<Seq<char>>,
    pub name_contains: Option<Seq<char>>,
    pub url_contains: Option<Seq<char>>,
}

impl View for EndpointQuery {
    type V = EndpointQueryView;

    open spec fn view(&self) -> EndpointQueryView {
        EndpointQueryView {
            chain_id: view_option(self.chain_id),
            name_contains: view_option(self.name_contains),
            url_contains: view_option(self.url_contains),
        }
    }
}

/// `endpoint` passes `query`: it has the chain id that the query names, and
/// its name and its URL hold the texts that the query names.
pub open spec fn query_matches(query: EndpointQueryView, endpoint: EndpointView) -> bool {
    &&& query.chain_id matches Some(digits) ==> endpoint.chain_id == Some(digits)
    &&& query.name_contains matches Some(part) ==> text_contains(endpoint.name, part)
    &&& query.url_contains matches Some(part) ==> text_contains(endpoint.url, part)
}

/// The query `query` with the chain id `digits`.
pub open spec fn with_chain_id(query: EndpointQueryView, digits: Seq<char>) -> EndpointQueryView {
    EndpointQueryView { chain_id: Some(digits), ..query }
}

/// The query `query` with `part` asked of the name.
pub open spec fn with_name(query: EndpointQueryView, part: Seq<char>) -> EndpointQueryView {
    EndpointQueryView { name_contains: Some(part), ..query }
}

/// The query `query` with `part` asked of the URL.
pub open spec fn with_url(query: EndpointQueryView, part: Seq<char>) -> EndpointQueryView {
    EndpointQueryView { url_contains: Some(part), ..query }
}

/// The steps that build a query can be taken in any order: each sets one
/// field and leaves the others.
pub proof fn lemma_builder_steps_commute(
    query: EndpointQueryView,
    digits: Seq<char>,
    name: Seq<char>,
    url: Seq<char>,
)
    ensures
        with_name(with_chain_id(query, digits), name) == with_chain_id(
            with_name(query, name),
            digits,
        ),
        with_url(with_chain_id(query, digits), url) == with_chain_id(with_url(query, url), digits),
        with_url(with_name(query, name), url) == with_name(with_url(query, url), name),
{
}

impl Default for EndpointQuery {
    fn default() -> (r: Self)
        ensures
            r@ == (EndpointQueryView { chain_id: None, name_contains: None, url_contains: None }),
    {
        EndpointQuery { chain_id: None, name_contains: None, url_contains: None }
    }
}

impl Clone for EndpointQuery {
    fn clone(&self) -> (r: Self)
        ensures
            r@ == self@,
    {
        EndpointQuery {
            chain_id: match &self.chain_id {
                Some(chain_id) => Some(chain_id.clone()),
                None => None,
            },
            name_contains: match &self.name_contains {
                Some(part) => Some(part.clone()),
                None => None,
            },
            url_contains: match &self.url_contains {
                Some(part) => Some(part.clone()),
                None => None,
            },
        }
    }
}

impl EndpointQuery {
    /// The query that every endpoint passes.
    pub fn new() -> (r: Self)
        ensures
            r@ == (EndpointQueryView { chain_id: None, name_contains: None, url_contains: None }),
    {
        EndpointQuery { chain_id: None, name_contains: None, url_contains: None }
    }

    /// Asks for the chain id that `chain_id` offers. What is offered is
    /// tested here: where it is no chain id, the error of the conversion
    /// comes back and no query.
    pub fn chain_id<T: TryIntoChainId>(self, chain_id: T) -> (r: Result<Self, MescError>)
        ensures
            match chain_id.offered() {
                Some(text) => if is_decimal(text) {
                    r matches Ok(query) && query@ == with_chain_id(self@, text)
                } else {
                    r matches Err(MescError::InvalidChainId(raw)) && raw@ == text
                },
                None => r matches Err(MescError::NotImplemented(what)) && what@
                    == "binary chain_id"@,
            },
    {
        let ghost offered = chain_id.offered();
        let converted = chain_id.try_into_chain_id();
        assert(chain_id_outcome(offered, converted));
        match converted {
            Ok(id) => {
                let mut query = self;
                query.chain_id = Some(id);
                Ok(query)
            },
            Err(error) => Err(error),
        }
    }

    /// Asks that the name of the endpoint hold `query`.
    pub fn name(self, query: &str) -> (r: Result<Self, MescError>)
        ensures
            r matches Ok(built) && built@ == with_name(self@, query@),
    {
        let mut built = self;
        built.name_contains = Some(String::from_str(query));
        Ok(built)
    }

    /// Asks that the URL of the endpoint hold `query`.
    pub fn url(self, query: &str) -> (r: Result<Self, MescError>)
        ensures
            r matches Ok(built) && built@ == with_url(self@, query@),
    {
        let mut built = self;
        built.url_contains = Some(String::from_str(query));
        Ok(built)
    }

    /// Whether `endpoint` passes the query.
    pub fn accepts(&self, endpoint: &Endpoint) -> (r: bool)
        ensures
            r == query_matches(self@, endpoint@),
    {
        let chain_ok = match &self.chain_id {
            None => true,
            Some(wanted) => match &endpoint.chain_id {
                None => false,
                Some(found) => str_equal(wanted.as_str(), found.as_str()),
            },
        };
        let name_ok = match &self.name_contains {
            None => true,
            Some(part) => str_contains(endpoint.name.as_str(), part.as_str()),
        };
        let url_ok = match &self.url_contains {
            None => true,
            Some(part) => str_contains(endpoint.url.as_str(), part.as_str()),
        };
        chain_ok && name_ok && url_ok
    }
}

} // verus!
