//! The configuration as the document holds it: texts where the
//! configuration holds chain ids, and lists of entries where it holds maps.
//! Reading a document tests its chain ids; writing a configuration and
//! reading it back gives the configuration.

use crate::chain_ids::ChainId;
use crate::digits::is_decimal;
use crate::error::MescError;
use crate::sorted_map::increasing;
use crate::sorted_map::MapKey;
use crate::sorted_map::SortedMap;
use crate::types::view_option;
use crate::types::view_values;
use crate::types::Endpoint;
use crate::types::EndpointView;
use crate::types::Profile;
use crate::types::ProfileView;
use crate::types::RpcConfig;
use crate::types::RpcConfigView;
use std::collections::HashMap;
use vstd::prelude::*;

verus! {

/// An endpoint as the document holds it.
#[derive(Debug)]
pub struct EndpointDocument {
    pub name: String,
    pub url: String,
    pub chain_id: Option<String>,
    pub endpoint_metadata: HashMap<String, serde_json::Value>,
}

/// A profile as the document holds it.
#[derive(Debug)]
pub struct ProfileDocument {
    pub default_endpoint: Option<String>,
    pub network_defaults: Vec<(String, String)>,
}

/// The whole document.
#[derive(Debug)]
pub struct ConfigDocument {
    pub mesc_version: String,
    pub default_endpoint: Option<String>,
    pub network_defaults: Vec<(String, String)>,
    pub endpoints: Vec<(String, EndpointDocument)>,
    pub network_names: Vec<(String, String)>,
    pub profiles: Vec<(String, ProfileDocument)>,
    pub global_metadata: HashMap<String, serde_json::Value>,
}

/// The map that a list of entries stands for: of two entries with one key
/// the later one counts.
pub open spec fn entries_map<T>(entries: Seq<(Seq<char>, T)>) -> Map<Seq<char>, T>
    decreases entries.len(),
{
    if entries.len() == 0 {
        Map::empty()
    } else {
        entries_map(entries.drop_last()).insert(entries.last().0, entries.last().1)
    }
}

/// The entries of a list of pairs of texts.
pub open spec fn text_entries(pairs: Seq<(String, String)>) -> Seq<(Seq<char>, Seq<char>)> {
    Seq::new(pairs.len(), |i: int| (pairs[i].0@, pairs[i].1@))
}

impl View for EndpointDocument {
    type V = EndpointView;

    open spec fn view(&self) -> EndpointView {
        EndpointView {
            name: self.name@,
            url: self.url@,
            chain_id: view_option(self.chain_id),
            endpoint_metadata: self.endpoint_metadata@,
        }
    }
}

impl View for ProfileDocument {
    type V = ProfileView;

    open spec fn view(&self) -> ProfileView {
        ProfileView {
            default_endpoint: view_option(self.default_endpoint),
            network_defaults: entries_map(text_entries(self.network_defaults@)),
        }
    }
}

/// The entries of the endpoints of a document.
pub open spec fn endpoint_entries(entries: Seq<(String, EndpointDocument)>) -> Seq<
    (Seq<char>, EndpointView),
> {
    Seq::new(entries.len(), |i: int| (entries[i].0@, entries[i].1@))
}

/// The entries of the profiles of a document.
pub open spec fn profile_entries(entries: Seq<(String, ProfileDocument)>) -> Seq<
    (Seq<char>, ProfileView),
> {
    Seq::new(entries.len(), |i: int| (entries[i].0@, entries[i].1@))
}

impl View for ConfigDocument {
    type V = RpcConfigView;

    open spec fn view(&self) -> RpcConfigView {
        RpcConfigView {
            mesc_version: self.mesc_version@,
            default_endpoint: view_option(self.default_endpoint),
            network_defaults: entries_map(text_entries(self.network_defaults@)),
            endpoints: entries_map(endpoint_entries(self.endpoints@)),
            network_names: entries_map(text_entries(self.network_names@)),
            profiles: entries_map(profile_entries(self.profiles@)),
            global_metadata: self.global_metadata@,
        }
    }
}

/// `text` stands as the key of one of `pairs`.
pub open spec fn is_key_of(pairs: Seq<(String, String)>, text: Seq<char>) -> bool {
    exists|i: int| 0 <= i < pairs.len() && (#[trigger] pairs[i]).0@ == text
}

/// `text` stands as the value of one of `pairs`.
pub open spec fn is_value_of(pairs: Seq<(String, String)>, text: Seq<char>) -> bool {
    exists|i: int| 0 <= i < pairs.len() && (#[trigger] pairs[i]).1@ == text
}

/// Every key of `pairs` is a chain id.
pub open spec fn keys_valid(pairs: Seq<(String, String)>) -> bool {
    forall|i: int| 0 <= i < pairs.len() ==> is_decimal((#[trigger] pairs[i]).0@)
}

/// Every value of `pairs` is a chain id.
pub open spec fn values_valid(pairs: Seq<(String, String)>) -> bool {
    forall|i: int| 0 <= i < pairs.len() ==> is_decimal((#[trigger] pairs[i]).1@)
}

/// The chain id of the endpoint, if it has one, is a chain id.
pub open spec fn chain_valid(endpoint: EndpointView) -> bool {
    endpoint.chain_id matches Some(text) ==> is_decimal(text)
}

/// The chain id of each of the endpoints, if it has one, is a chain id.
pub open spec fn chains_valid(entries: Seq<(String, EndpointDocument)>) -> bool {
    forall|i: int| 0 <= i < entries.len() ==> chain_valid((#[trigger] entries[i]).1@)
}

/// The keys of the network defaults of each of the profiles are chain ids.
pub open spec fn profiles_valid(entries: Seq<(String, ProfileDocument)>) -> bool {
    forall|i: int| 0 <= i < entries.len() ==> keys_valid((#[trigger] entries[i]).1.network_defaults@)
}

/// `raw` is the first key of `pairs` that is no chain id.
pub open spec fn first_bad_key(pairs: Seq<(String, String)>, raw: Seq<char>) -> bool {
    exists|i: int|
        {
            &&& 0 <= i < pairs.len()
            &&& (#[trigger] pairs[i]).0@ == raw
            &&& !is_decimal(raw)
            &&& keys_valid(pairs.take(i))
        }
}

/// `raw` is the first value of `pairs` that is no chain id.
pub open spec fn first_bad_value(pairs: Seq<(String, String)>, raw: Seq<char>) -> bool {
    exists|i: int|
        {
            &&& 0 <= i < pairs.len()
            &&& (#[trigger] pairs[i]).1@ == raw
            &&& !is_decimal(raw)
            &&& values_valid(pairs.take(i))
        }
}

/// `raw` is the first chain id of the endpoints that is none.
pub open spec fn first_bad_chain(entries: Seq<(String, EndpointDocument)>, raw: Seq<char>) -> bool {
    exists|i: int|
        {
            &&& 0 <= i < entries.len()
            &&& (#[trigger] entries[i]).1@.chain_id == Some(raw)
            &&& !is_decimal(raw)
            &&& chains_valid(entries.take(i))
        }
}

/// `raw` is the first key of the network defaults of the profiles that is
/// no chain id.
pub open spec fn first_bad_profile_key(
    entries: Seq<(String, ProfileDocument)>,
    raw: Seq<char>,
) -> bool {
    exists|i: int|
        {
            &&& 0 <= i < entries.len()
            &&& first_bad_key((#[trigger] entries[i]).1.network_defaults@, raw)
            &&& profiles_valid(entries.take(i))
        }
}

/// `raw` is the first text of the document that stands for a chain id and
/// is none, in this order: the keys of the network defaults, the chain ids
/// of the endpoints, what the network names stand for, and the keys of the
/// network defaults of the profiles.
pub open spec fn first_bad_text(document: &ConfigDocument, raw: Seq<char>) -> bool {
    if !keys_valid(document.network_defaults@) {
        first_bad_key(document.network_defaults@, raw)
    } else if !chains_valid(document.endpoints@) {
        first_bad_chain(document.endpoints@, raw)
    } else if !values_valid(document.network_names@) {
        first_bad_value(document.network_names@, raw)
    } else {
        first_bad_profile_key(document.profiles@, raw)
    }
}

/// A list of pairs has at most one first key that is no chain id.
pub proof fn lemma_first_bad_key_is_one(pairs: Seq<(String, String)>, a: Seq<char>, b: Seq<char>)
    requires
        first_bad_key(pairs, a),
        first_bad_key(pairs, b),
    ensures
        a == b,
        !keys_valid(pairs),
{
    let i = choose|i: int|
        {
            &&& 0 <= i < pairs.len()
            &&& (#[trigger] pairs[i]).0@ == a
            &&& !is_decimal(a)
            &&& keys_valid(pairs.take(i))
        };
    let k = choose|k: int|
        {
            &&& 0 <= k < pairs.len()
            &&& (#[trigger] pairs[k]).0@ == b
            &&& !is_decimal(b)
            &&& keys_valid(pairs.take(k))
        };
    if i < k {
        assert(pairs.take(k)[i] == pairs[i]);
    }
    if k < i {
        assert(pairs.take(i)[k] == pairs[k]);
    }
}

/// A document has at most one first text that stands for a chain id and is
/// none: what the reading of the document names is fixed by the document.
pub proof fn lemma_first_bad_text_is_one(document: &ConfigDocument, a: Seq<char>, b: Seq<char>)
    requires
        first_bad_text(document, a),
        first_bad_text(document, b),
    ensures
        a == b,
{
    if !keys_valid(document.network_defaults@) {
        lemma_first_bad_key_is_one(document.network_defaults@, a, b);
    } else if !chains_valid(document.endpoints@) {
        let entries = document.endpoints@;
        let i = choose|i: int|
            {
                &&& 0 <= i < entries.len()
                &&& (#[trigger] entries[i]).1@.chain_id == Some(a)
                &&& !is_decimal(a)
                &&& chains_valid(entries.take(i))
            };
        let k = choose|k: int|
            {
                &&& 0 <= k < entries.len()
                &&& (#[trigger] entries[k]).1@.chain_id == Some(b)
                &&& !is_decimal(b)
                &&& chains_valid(entries.take(k))
            };
        if i < k {
            assert(entries.take(k)[i] == entries[i]);
        }
        if k < i {
            assert(entries.take(i)[k] == entries[k]);
        }
    } else if !values_valid(document.network_names@) {
        let pairs = document.network_names@;
        let i = choose|i: int|
            {
                &&& 0 <= i < pairs.len()
                &&& (#[trigger] pairs[i]).1@ == a
                &&& !is_decimal(a)
                &&& values_valid(pairs.take(i))
            };
        let k = choose|k: int|
            {
                &&& 0 <= k < pairs.len()
                &&& (#[trigger] pairs[k]).1@ == b
                &&& !is_decimal(b)
                &&& values_valid(pairs.take(k))
            };
        if i < k {
            assert(pairs.take(k)[i] == pairs[i]);
        }
        if k < i {
            assert(pairs.take(i)[k] == pairs[k]);
        }
    } else {
        let entries = document.profiles@;
        let i = choose|i: int|
            {
                &&& 0 <= i < entries.len()
                &&& first_bad_key((#[trigger] entries[i]).1.network_defaults@, a)
                &&& profiles_valid(entries.take(i))
            };
        let k = choose|k: int|
            {
                &&& 0 <= k < entries.len()
                &&& first_bad_key((#[trigger] entries[k]).1.network_defaults@, b)
                &&& profiles_valid(entries.take(k))
            };
        lemma_first_bad_key_is_one(entries[i].1.network_defaults@, a, a);
        lemma_first_bad_key_is_one(entries[k].1.network_defaults@, b, b);
        if i < k {
            assert(entries.take(k)[i] == entries[i]);
        }
        if k < i {
            assert(entries.take(i)[k] == entries[k]);
        }
        lemma_first_bad_key_is_one(entries[i].1.network_defaults@, a, b);
    }
}

/// `text` stands where the document has a chain id: as the key of a
/// network default, of the document or of a profile; as the chain id of an
/// endpoint; or as what a network name stands for.
pub open spec fn is_chain_text(document: &ConfigDocument, text: Seq<char>) -> bool {
    ||| is_key_of(document.network_defaults@, text)
    ||| is_value_of(document.network_names@, text)
    ||| exists|i: int|
        0 <= i < document.endpoints@.len() && (#[trigger] document.endpoints@[i]).1@.chain_id
            == Some(text)
    ||| exists|i: int|
        0 <= i < document.profiles@.len() && is_key_of(
            (#[trigger] document.profiles@[i]).1.network_defaults@,
            text,
        )
}

/// Every chain id of the document is a non-empty string of decimal digits.
pub open spec fn chain_texts_valid(document: &ConfigDocument) -> bool {
    forall|text: Seq<char>| #[trigger] is_chain_text(document, text) ==> is_decimal(text)
}

/// What reading a document owes: the configuration that holds what the
/// document holds, if every chain id of the document is one; else
/// `InvalidChainId` with the first text of the document that is none.
pub open spec fn read_outcome(document: &ConfigDocument, r: Result<RpcConfig, MescError>) -> bool {
    if chain_texts_valid(document) {
        r matches Ok(config) && config@ == document@
    } else {
        r matches Err(MescError::InvalidChainId(raw)) && is_chain_text(document, raw@)
            && !is_decimal(raw@) && first_bad_text(document, raw@)
    }
}

/// What writing a configuration owes: a document that holds what the
/// configuration holds, and whose chain ids are chain ids.
pub open spec fn written(config: &RpcConfig, document: &ConfigDocument) -> bool {
    &&& document@ == config@
    &&& chain_texts_valid(document)
}

/// Reading what was written gives a configuration that holds what the
/// written one held, in every field.
pub proof fn lemma_round_trip(
    config: &RpcConfig,
    document: &ConfigDocument,
    back: Result<RpcConfig, MescError>,
)
    requires
        written(config, document),
        read_outcome(document, back),
    ensures
        back matches Ok(read) && read@ == config@,
{
}

/// One more entry at the end puts its value under its key.
pub proof fn lemma_entries_map_step<T>(entries: Seq<(Seq<char>, T)>, i: int)
    requires
        0 <= i < entries.len(),
    ensures
        entries_map(entries.take(i + 1)) == entries_map(entries.take(i)).insert(
            entries[i].0,
            entries[i].1,
        ),
{
    assert(entries.take(i + 1).drop_last() =~= entries.take(i));
    assert(entries.take(i + 1).last() == entries[i]);
}

/// Entries whose keys are increasing stand for the map that has each key
/// with the value beside it, and no other key.
pub proof fn lemma_entries_map_increasing<T>(entries: Seq<(Seq<char>, T)>, keys: Seq<Seq<char>>)
    requires
        keys.len() == entries.len(),
        forall|i: int| 0 <= i < keys.len() ==> keys[i] == (#[trigger] entries[i]).0,
        increasing(keys),
    ensures
        forall|i: int|
            0 <= i < keys.len() ==> {
                &&& entries_map(entries).contains_key(#[trigger] keys[i])
                &&& entries_map(entries)[keys[i]] == entries[i].1
            },
        forall|key: Seq<char>| #[trigger]
            entries_map(entries).contains_key(key) ==> keys.contains(key),
    decreases entries.len(),
{
    if entries.len() > 0 {
        let n = entries.len() - 1;
        let head = entries.drop_last();
        let head_keys = keys.drop_last();
        assert forall|i: int, j: int| 0 <= i < j < head_keys.len() implies crate::text::text_order(
            #[trigger] head_keys[i],
            #[trigger] head_keys[j],
        ) == crate::text::Order::Less by {
            assert(head_keys[i] == keys[i] && head_keys[j] == keys[j]);
        }
        assert forall|i: int| 0 <= i < head_keys.len() implies head_keys[i] == (
        #[trigger] head[i]).0 by {
            assert(head[i] == entries[i]);
        }
        lemma_entries_map_increasing(head, head_keys);
        assert forall|i: int| 0 <= i < keys.len() implies {
            &&& entries_map(entries).contains_key(#[trigger] keys[i])
            &&& entries_map(entries)[keys[i]] == entries[i].1
        } by {
            if i < n {
                assert(head_keys[i] == keys[i]);
                assert(head[i] == entries[i]);
                crate::text::lemma_text_order_total(keys[i], keys[n], keys[n]);
                assert(crate::text::text_order(keys[i], keys[n]) == crate::text::Order::Less);
                assert(keys[i] != keys[n]);
            }
        }
        assert forall|key: Seq<char>| #[trigger]
            entries_map(entries).contains_key(key) implies keys.contains(key) by {
            if key == keys[n] {
            } else {
                assert(entries_map(head).contains_key(key));
                assert(head_keys.contains(key));
                let j = choose|j: int| 0 <= j < head_keys.len() && head_keys[j] == key;
                assert(keys[j] == key);
            }
        }
    }
}

/// Entries that hold, place by place, the key texts of a map and what its
/// values hold stand for what the map holds.
proof fn lemma_written_entries<K: MapKey, T: View>(
    map: &SortedMap<K, T>,
    entries: Seq<(Seq<char>, T::V)>,
)
    requires
        increasing(map.key_texts()),
        entries.len() == map.key_texts().len(),
        forall|j: int| 0 <= j < entries.len() ==> (#[trigger] entries[j]).0 == map.key_texts()[j],
        forall|j: int| 0 <= j < entries.len() ==> (#[trigger] entries[j]).1 == map.values()[j]@,
    ensures
        entries_map(entries) == view_values(map@),
{
    map.lemma_view();
    lemma_entries_map_increasing(entries, map.key_texts());
    assert forall|key: Seq<char>| #[trigger]
        view_values(map@).contains_key(key) implies entries_map(entries).contains_key(key)
        && entries_map(entries)[key] == view_values(map@)[key] by {
        let at = map.key_texts().index_of(key);
        assert(map.key_texts()[at] == key);
    }
    assert forall|key: Seq<char>| #[trigger]
        entries_map(entries).contains_key(key) implies view_values(map@).contains_key(key) by {
        assert(map.key_texts().contains(key));
    }
    assert(entries_map(entries) =~= view_values(map@));
}

/// The endpoint that the document holds, if its chain id is one; else the
/// text that stands for it.
fn read_endpoint(document: &EndpointDocument) -> (r: Result<Endpoint, String>)
    ensures
        match document@.chain_id {
            Some(text) => if is_decimal(text) {
                r matches Ok(endpoint) && endpoint@ == document@
            } else {
                r matches Err(raw) && raw@ == text
            },
            None => r matches Ok(endpoint) && endpoint@ == document@,
        },
{
    let chain_id = match &document.chain_id {
        None => None,
        Some(text) => match ChainId::parse(text.as_str()) {
            Some(chain_id) => Some(chain_id),
            None => {
                return Err(text.clone());
            },
        },
    };
    Ok(
        Endpoint {
            name: document.name.clone(),
            url: document.url.clone(),
            chain_id,
            endpoint_metadata: document.endpoint_metadata.clone(),
        },
    )
}

impl Endpoint {
    /// The endpoint that the document holds, if its chain id is one;
    /// else `InvalidChainId` with the text that stands for it.
    pub fn from_document(document: &EndpointDocument) -> (r: Result<Endpoint, MescError>)
        ensures
            match document@.chain_id {
                Some(text) => if is_decimal(text) {
                    r matches Ok(endpoint) && endpoint@ == document@
                } else {
                    r matches Err(MescError::InvalidChainId(raw)) && raw@ == text
                },
                None => r matches Ok(endpoint) && endpoint@ == document@,
            },
    {
        match read_endpoint(document) {
            Ok(endpoint) => Ok(endpoint),
            Err(raw) => Err(MescError::InvalidChainId(raw)),
        }
    }

    /// The endpoint as the document holds it.
    pub fn to_document(&self) -> (r: EndpointDocument)
        ensures
            r@ == self@,
            chain_valid(r@),
    {
        EndpointDocument {
            name: self.name.clone(),
            url: self.url.clone(),
            chain_id: match &self.chain_id {
                Some(chain_id) => Some(chain_id.to_string()),
                None => None,
            },
            endpoint_metadata: self.endpoint_metadata.clone(),
        }
    }
}

/// The network defaults that `pairs` hold, if every key is a chain id; else
/// the first key that is none.
fn read_network_defaults(pairs: &Vec<(String, String)>) -> (r: Result<
    SortedMap<ChainId, String>,
    String,
>)
    ensures
        match r {
            Ok(map) => view_values(map@) == entries_map(text_entries(pairs@)) && keys_valid(
                pairs@,
            ),
            Err(raw) => first_bad_key(pairs@, raw@),
        },
{
    let ghost entries = text_entries(pairs@);
    let mut map: SortedMap<ChainId, String> = SortedMap::new();
    let n = pairs.len();
    let mut i: usize = 0;
    assert(entries.take(0) =~= Seq::<(Seq<char>, Seq<char>)>::empty());
    assert(view_values(map@) =~= entries_map(entries.take(0)));
    while i < n
        invariant
            i <= n,
            n == pairs@.len(),
            entries == text_entries(pairs@),
            view_values(map@) == entries_map(entries.take(i as int)),
            forall|j: int| 0 <= j < i ==> is_decimal((#[trigger] pairs@[j]).0@),
        decreases n - i,
    {
        match ChainId::parse(pairs[i].0.as_str()) {
            None => {
                assert(keys_valid(pairs@.take(i as int)));
                return Err(pairs[i].0.clone());
            },
            Some(chain_id) => {
                proof {
                    lemma_entries_map_step(entries, i as int);
                }
                let ghost before = map@;
                let value = pairs[i].1.clone();
                map.insert(chain_id, value);
                assert(view_values(map@) =~= view_values(before).insert(chain_id@, value@));
            },
        }
        i += 1;
    }
    assert(entries.take(n as int) =~= entries);
    Ok(map)
}

/// The network defaults as a list of pairs of texts.
fn write_network_defaults(map: &SortedMap<ChainId, String>) -> (r: Vec<(String, String)>)
    ensures
        entries_map(text_entries(r@)) == view_values(map@),
        keys_valid(r@),
{
    let n = map.len();
    let mut pairs: Vec<(String, String)> = Vec::new();
    let mut i: usize = 0;
    while i < n
        invariant
            i <= n,
            n == map.key_texts().len(),
            n == map.values().len(),
            pairs@.len() == i,
            forall|j: int| 0 <= j < i ==> (#[trigger] pairs@[j]).0@ == map.key_texts()[j],
            forall|j: int| 0 <= j < i ==> (#[trigger] pairs@[j]).1@ == map.values()[j]@,
            forall|j: int| 0 <= j < i ==> is_decimal((#[trigger] pairs@[j]).0@),
        decreases n - i,
    {
        let key = map.key_at(i).to_string();
        let value = map.value_at(i).clone();
        pairs.push((key, value));
        i += 1;
    }
    proof {
        lemma_written_entries(map, text_entries(pairs@));
    }
    pairs
}

/// The network names that `pairs` hold, if every value is a chain id; else
/// the first value that is none.
fn read_network_names(pairs: &Vec<(String, String)>) -> (r: Result<
    SortedMap<String, ChainId>,
    String,
>)
    ensures
        match r {
            Ok(map) => view_values(map@) == entries_map(text_entries(pairs@)) && values_valid(
                pairs@,
            ),
            Err(raw) => first_bad_value(pairs@, raw@),
        },
{
    let ghost entries = text_entries(pairs@);
    let mut map: SortedMap<String, ChainId> = SortedMap::new();
    let n = pairs.len();
    let mut i: usize = 0;
    assert(entries.take(0) =~= Seq::<(Seq<char>, Seq<char>)>::empty());
    assert(view_values(map@) =~= entries_map(entries.take(0)));
    while i < n
        invariant
            i <= n,
            n == pairs@.len(),
            entries == text_entries(pairs@),
            view_values(map@) == entries_map(entries.take(i as int)),
            forall|j: int| 0 <= j < i ==> is_decimal((#[trigger] pairs@[j]).1@),
        decreases n - i,
    {
        match ChainId::parse(pairs[i].1.as_str()) {
            None => {
                assert(values_valid(pairs@.take(i as int)));
                return Err(pairs[i].1.clone());
            },
            Some(chain_id) => {
                proof {
                    lemma_entries_map_step(entries, i as int);
                }
                let ghost before = map@;
                let key = pairs[i].0.clone();
                map.insert(key, chain_id);
                assert(view_values(map@) =~= view_values(before).insert(key@, chain_id@));
            },
        }
        i += 1;
    }
    assert(entries.take(n as int) =~= entries);
    Ok(map)
}

/// The network names as a list of pairs of texts.
fn write_network_names(map: &SortedMap<String, ChainId>) -> (r: Vec<(String, String)>)
    ensures
        entries_map(text_entries(r@)) == view_values(map@),
        values_valid(r@),
{
    let n = map.len();
    let mut pairs: Vec<(String, String)> = Vec::new();
    let mut i: usize = 0;
    while i < n
        invariant
            i <= n,
            n == map.key_texts().len(),
            n == map.values().len(),
            pairs@.len() == i,
            forall|j: int| 0 <= j < i ==> (#[trigger] pairs@[j]).0@ == map.key_texts()[j],
            forall|j: int| 0 <= j < i ==> (#[trigger] pairs@[j]).1@ == map.values()[j]@,
            forall|j: int| 0 <= j < i ==> is_decimal((#[trigger] pairs@[j]).1@),
        decreases n - i,
    {
        let key = map.key_at(i).clone();
        let value = map.value_at(i).to_string();
        pairs.push((key, value));
        i += 1;
    }
    proof {
        lemma_written_entries(map, text_entries(pairs@));
    }
    pairs
}

/// The profile that the document holds, if the keys of its network defaults
/// are chain ids; else the first key that is none.
fn read_profile(document: &ProfileDocument) -> (r: Result<Profile, String>)
    ensures
        match r {
            Ok(profile) => profile@ == document@ && keys_valid(document.network_defaults@),
            Err(raw) => first_bad_key(document.network_defaults@, raw@),
        },
{
    match read_network_defaults(&document.network_defaults) {
        Err(raw) => Err(raw),
        Ok(network_defaults) => Ok(
            Profile {
                default_endpoint: match &document.default_endpoint {
                    Some(name) => Some(name.clone()),
                    None => None,
                },
                network_defaults,
            },
        ),
    }
}

impl Profile {
    /// The profile that the document holds, if the keys of its network
    /// defaults are chain ids; else `InvalidChainId` with a key that is none.
    pub fn from_document(document: &ProfileDocument) -> (r: Result<Profile, MescError>)
        ensures
            match r {
                Ok(profile) => profile@ == document@ && keys_valid(document.network_defaults@),
                Err(error) => error matches MescError::InvalidChainId(raw) && first_bad_key(
                    document.network_defaults@,
                    raw@,
                ),
            },
    {
        match read_profile(document) {
            Ok(profile) => Ok(profile),
            Err(raw) => Err(MescError::InvalidChainId(raw)),
        }
    }

    /// The profile as the document holds it.
    pub fn to_document(&self) -> (r: ProfileDocument)
        ensures
            r@ == self@,
            keys_valid(r.network_defaults@),
    {
        ProfileDocument {
            default_endpoint: match &self.default_endpoint {
                Some(name) => Some(name.clone()),
                None => None,
            },
            network_defaults: write_network_defaults(&self.network_defaults),
        }
    }
}

/// The endpoints that `entries` hold, if the chain id of each is one; else
/// the first text that is none.
fn read_endpoints(entries: &Vec<(String, EndpointDocument)>) -> (r: Result<
    SortedMap<String, Endpoint>,
    String,
>)
    ensures
        match r {
            Ok(map) => view_values(map@) == entries_map(endpoint_entries(entries@))
                && chains_valid(entries@),
            Err(raw) => first_bad_chain(entries@, raw@),
        },
{
    let ghost listed = endpoint_entries(entries@);
    let mut map: SortedMap<String, Endpoint> = SortedMap::new();
    let n = entries.len();
    let mut i: usize = 0;
    assert(listed.take(0) =~= Seq::<(Seq<char>, EndpointView)>::empty());
    assert(view_values(map@) =~= entries_map(listed.take(0)));
    while i < n
        invariant
            i <= n,
            n == entries@.len(),
            listed == endpoint_entries(entries@),
            view_values(map@) == entries_map(listed.take(i as int)),
            forall|j: int| 0 <= j < i ==> chain_valid((#[trigger] entries@[j]).1@),
        decreases n - i,
    {
        match read_endpoint(&entries[i].1) {
            Err(raw) => {
                assert(chains_valid(entries@.take(i as int)));
                return Err(raw);
            },
            Ok(endpoint) => {
                proof {
                    lemma_entries_map_step(listed, i as int);
                }
                let ghost before = map@;
                let key = entries[i].0.clone();
                map.insert(key, endpoint);
                assert(view_values(map@) =~= view_values(before).insert(key@, endpoint@));
            },
        }
        i += 1;
    }
    assert(listed.take(n as int) =~= listed);
    Ok(map)
}

/// The endpoints as a list of entries.
fn write_endpoints(map: &SortedMap<String, Endpoint>) -> (r: Vec<(String, EndpointDocument)>)
    ensures
        entries_map(endpoint_entries(r@)) == view_values(map@),
        chains_valid(r@),
{
    let n = map.len();
    let mut entries: Vec<(String, EndpointDocument)> = Vec::new();
    let mut i: usize = 0;
    while i < n
        invariant
            i <= n,
            n == map.key_texts().len(),
            n == map.values().len(),
            entries@.len() == i,
            forall|j: int| 0 <= j < i ==> (#[trigger] entries@[j]).0@ == map.key_texts()[j],
            forall|j: int| 0 <= j < i ==> (#[trigger] entries@[j]).1@ == map.values()[j]@,
            forall|j: int| 0 <= j < i ==> chain_valid((#[trigger] entries@[j]).1@),
        decreases n - i,
    {
        let key = map.key_at(i).clone();
        let value = map.value_at(i).to_document();
        entries.push((key, value));
        i += 1;
    }
    proof {
        lemma_written_entries(map, endpoint_entries(entries@));
    }
    entries
}

/// The profiles that `entries` hold, if the keys of the network defaults of
/// each are chain ids; else the first key that is none.
fn read_profiles(entries: &Vec<(String, ProfileDocument)>) -> (r: Result<
    SortedMap<String, Profile>,
    String,
>)
    ensures
        match r {
            Ok(map) => view_values(map@) == entries_map(profile_entries(entries@))
                && profiles_valid(entries@),
            Err(raw) => first_bad_profile_key(entries@, raw@),
        },
{
    let ghost listed = profile_entries(entries@);
    let mut map: SortedMap<String, Profile> = SortedMap::new();
    let n = entries.len();
    let mut i: usize = 0;
    assert(listed.take(0) =~= Seq::<(Seq<char>, ProfileView)>::empty());
    assert(view_values(map@) =~= entries_map(listed.take(0)));
    while i < n
        invariant
            i <= n,
            n == entries@.len(),
            listed == profile_entries(entries@),
            view_values(map@) == entries_map(listed.take(i as int)),
            forall|j: int| 0 <= j < i ==> keys_valid((#[trigger] entries@[j]).1.network_defaults@),
        decreases n - i,
    {
        match read_profile(&entries[i].1) {
            Err(raw) => {
                assert(profiles_valid(entries@.take(i as int)));
                return Err(raw);
            },
            Ok(profile) => {
                proof {
                    lemma_entries_map_step(listed, i as int);
                }
                let ghost before = map@;
                let key = entries[i].0.clone();
                map.insert(key, profile);
                assert(view_values(map@) =~= view_values(before).insert(key@, profile@));
            },
        }
        i += 1;
    }
    assert(listed.take(n as int) =~= listed);
    Ok(map)
}

/// The profiles as a list of entries.
fn write_profiles(map: &SortedMap<String, Profile>) -> (r: Vec<(String, ProfileDocument)>)
    ensures
        entries_map(profile_entries(r@)) == view_values(map@),
        profiles_valid(r@),
{
    let n = map.len();
    let mut entries: Vec<(String, ProfileDocument)> = Vec::new();
    let mut i: usize = 0;
    while i < n
        invariant
            i <= n,
            n == map.key_texts().len(),
            n == map.values().len(),
            entries@.len() == i,
            forall|j: int| 0 <= j < i ==> (#[trigger] entries@[j]).0@ == map.key_texts()[j],
            forall|j: int| 0 <= j < i ==> (#[trigger] entries@[j]).1@ == map.values()[j]@,
            forall|j: int| 0 <= j < i ==> keys_valid((#[trigger] entries@[j]).1.network_defaults@),
        decreases n - i,
    {
        let key = map.key_at(i).clone();
        let value = map.value_at(i).to_document();
        entries.push((key, value));
        i += 1;
    }
    proof {
        lemma_written_entries(map, profile_entries(entries@));
    }
    entries
}

impl RpcConfig {
    /// The configuration that the document holds, if every chain id of the
    /// document is one.
    pub fn from_document(document: &ConfigDocument) -> (r: Result<RpcConfig, MescError>)
        ensures
            read_outcome(document, r),
    {
        let network_defaults = match read_network_defaults(&document.network_defaults) {
            Ok(map) => map,
            Err(raw) => {
                return Err(MescError::InvalidChainId(raw));
            },
        };
        let endpoints = match read_endpoints(&document.endpoints) {
            Ok(map) => map,
            Err(raw) => {
                return Err(MescError::InvalidChainId(raw));
            },
        };
        let network_names = match read_network_names(&document.network_names) {
            Ok(map) => map,
            Err(raw) => {
                return Err(MescError::InvalidChainId(raw));
            },
        };
        let profiles = match read_profiles(&document.profiles) {
            Ok(map) => map,
            Err(raw) => {
                return Err(MescError::InvalidChainId(raw));
            },
        };
        Ok(
            RpcConfig {
                mesc_version: document.mesc_version.clone(),
                default_endpoint: match &document.default_endpoint {
                    Some(name) => Some(name.clone()),
                    None => None,
                },
                network_defaults,
                endpoints,
                network_names,
                profiles,
                global_metadata: document.global_metadata.clone(),
            },
        )
    }

    /// The configuration as the document holds it.
    pub fn to_document(&self) -> (r: ConfigDocument)
        ensures
            written(self, &r),
    {
        ConfigDocument {
            mesc_version: self.mesc_version.clone(),
            default_endpoint: match &self.default_endpoint {
                Some(name) => Some(name.clone()),
                None => None,
            },
            network_defaults: write_network_defaults(&self.network_defaults),
            endpoints: write_endpoints(&self.endpoints),
            network_names: write_network_names(&self.network_names),
            profiles: write_profiles(&self.profiles),
            global_metadata: self.global_metadata.clone(),
        }
    }
}

} // verus!
