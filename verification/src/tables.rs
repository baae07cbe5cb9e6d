//! The columns of the tables that show endpoints and defaults.

use crate::chain_ids::ChainId;
use crate::digits::chain_order;
use crate::error::MescError;
use crate::query::default_name;
use crate::query::get_default_endpoint;
use crate::text::lemma_text_order_total;
use crate::text::Order;
use crate::types::texts;
use crate::types::Endpoint;
use crate::types::EndpointView;
use crate::types::RpcConfig;
use vstd::prelude::*;
use vstd::seq_lib::to_multiset_insert;
use vstd::string::StringExecFns;

verus! {

/// What `endpoints` hold, place by place.
pub open spec fn views(endpoints: Seq<Endpoint>) -> Seq<EndpointView> {
    Seq::new(endpoints.len(), |i: int| endpoints[i]@)
}

/// What the endpoints behind `endpoints` hold, place by place.
pub open spec fn views_of(endpoints: Seq<&Endpoint>) -> Seq<EndpointView> {
    Seq::new(endpoints.len(), |i: int| endpoints[i]@)
}

/// The chain by which an endpoint is listed: its own, or zero if it has
/// none.
pub open spec fn listing_chain(endpoint: EndpointView) -> Seq<char> {
    match endpoint.chain_id {
        Some(digits) => digits,
        None => seq!['0'],
    }
}

/// `a` is listed after `b`: its chain is the greater.
pub open spec fn listed_after(a: EndpointView, b: EndpointView) -> bool {
    chain_order(listing_chain(a), listing_chain(b)) == Order::Greater
}

/// `listed` is in the order of the chains.
pub open spec fn in_chain_order(listed: Seq<EndpointView>) -> bool {
    forall|i: int, j: int| 0 <= i < j < listed.len() ==> !listed_after(listed[i], listed[j])
}

/// Where `endpoint` goes into `listed`: before the endpoints at the end
/// that are listed after it.
pub open spec fn listing_place(listed: Seq<EndpointView>, endpoint: EndpointView) -> int
    decreases listed.len(),
{
    if listed.len() > 0 && listed_after(listed.last(), endpoint) {
        listing_place(listed.drop_last(), endpoint)
    } else {
        listed.len() as int
    }
}

/// `endpoints` in the order of their chains; endpoints of one chain stay
/// in the order in which they came.
pub open spec fn listed_by_chain(endpoints: Seq<EndpointView>) -> Seq<EndpointView>
    decreases endpoints.len(),
{
    if endpoints.len() == 0 {
        endpoints
    } else {
        let before = listed_by_chain(endpoints.drop_last());
        before.insert(listing_place(before, endpoints.last()), endpoints.last())
    }
}

/// What is shown of the URL of an endpoint: the URL, or eight stars where
/// it is to stay hidden.
pub open spec fn shown_url(endpoint: EndpointView, reveal: bool) -> Seq<char> {
    if reveal {
        endpoint.url
    } else {
        "********"@
    }
}

/// What is shown of the chain of an endpoint: its digits, or a dash.
pub open spec fn shown_chain(endpoint: EndpointView) -> Seq<char> {
    match endpoint.chain_id {
        Some(digits) => digits,
        None => "-"@,
    }
}

/// The place where an endpoint goes is a place of the list; what stands
/// from there on is listed after the endpoint, and what stands just before
/// is not.
pub proof fn lemma_listing_place(listed: Seq<EndpointView>, endpoint: EndpointView)
    ensures
        0 <= listing_place(listed, endpoint) <= listed.len(),
        forall|j: int|
            listing_place(listed, endpoint) <= j < listed.len() ==> listed_after(
                #[trigger] listed[j],
                endpoint,
            ),
        listing_place(listed, endpoint) > 0 ==> !listed_after(
            listed[listing_place(listed, endpoint) - 1],
            endpoint,
        ),
    decreases listed.len(),
{
    if listed.len() > 0 && listed_after(listed.last(), endpoint) {
        let head = listed.drop_last();
        lemma_listing_place(head, endpoint);
        let place = listing_place(head, endpoint);
        assert forall|j: int| place <= j < listed.len() implies listed_after(
            #[trigger] listed[j],
            endpoint,
        ) by {
            if j < head.len() {
                assert(listed[j] == head[j]);
            }
        }
        if place > 0 {
            assert(listed[place - 1] == head[place - 1]);
        }
    }
}

/// A place from which on everything is listed after the endpoint, and before
/// which the neighbour is not, is the place where the endpoint goes.
pub proof fn lemma_listing_place_is(listed: Seq<EndpointView>, endpoint: EndpointView, place: int)
    requires
        0 <= place <= listed.len(),
        forall|j: int| place <= j < listed.len() ==> listed_after(#[trigger] listed[j], endpoint),
        place > 0 ==> !listed_after(listed[place - 1], endpoint),
    ensures
        listing_place(listed, endpoint) == place,
    decreases listed.len(),
{
    if place < listed.len() {
        let head = listed.drop_last();
        assert(listed_after(listed[listed.len() - 1], endpoint));
        assert forall|j: int| place <= j < head.len() implies listed_after(
            #[trigger] head[j],
            endpoint,
        ) by {
            assert(head[j] == listed[j]);
        }
        if place > 0 {
            assert(head[place - 1] == listed[place - 1]);
        }
        lemma_listing_place_is(head, endpoint, place);
    }
}

/// What is not listed after its neighbour is not listed after what the
/// neighbour is not listed after.
pub proof fn lemma_not_after_transitive(a: EndpointView, b: EndpointView, c: EndpointView)
    requires
        !listed_after(a, b),
        !listed_after(b, c),
    ensures
        !listed_after(a, c),
{
    let x = crate::digits::padded(listing_chain(a));
    let y = crate::digits::padded(listing_chain(b));
    let z = crate::digits::padded(listing_chain(c));
    lemma_text_order_total(x, y, z);
    lemma_text_order_total(y, z, z);
    lemma_text_order_total(x, z, z);
    lemma_text_order_total(z, x, x);
    lemma_text_order_total(y, x, x);
    lemma_text_order_total(z, y, y);
}

/// The list by chain holds what was given, each as often as it was given,
/// and is in the order of the chains.
pub proof fn lemma_listed_by_chain(endpoints: Seq<EndpointView>)
    ensures
        listed_by_chain(endpoints).len() == endpoints.len(),
        listed_by_chain(endpoints).to_multiset() == endpoints.to_multiset(),
        in_chain_order(listed_by_chain(endpoints)),
    decreases endpoints.len(),
{
    if endpoints.len() > 0 {
        let head = endpoints.drop_last();
        let last = endpoints.last();
        let before = listed_by_chain(head);
        let place = listing_place(before, last);
        let after = listed_by_chain(endpoints);
        lemma_listed_by_chain(head);
        lemma_listing_place(before, last);
        to_multiset_insert(before, place, last);
        assert(endpoints =~= head.push(last));
        vstd::seq_lib::to_multiset_build(head, last);
        assert forall|i: int, j: int| 0 <= i < j < after.len() implies !listed_after(
            after[i],
            after[j],
        ) by {
            let y = crate::digits::padded(listing_chain(last));
            if j < place {
                assert(after[i] == before[i] && after[j] == before[j]);
            } else if j == place {
                assert(after[i] == before[i]);
                if i < place - 1 {
                    lemma_not_after_transitive(before[i], before[place - 1], last);
                }
            } else if i < place {
                assert(after[i] == before[i] && after[j] == before[j - 1]);
            } else if i == place {
                assert(after[j] == before[j - 1]);
                assert(listed_after(before[j - 1], last));
                let x = crate::digits::padded(listing_chain(before[j - 1]));
                lemma_text_order_total(x, y, y);
                lemma_text_order_total(y, x, x);
            } else {
                assert(after[i] == before[i - 1] && after[j] == before[j - 1]);
            }
        }
    }
}

/// The place in the list by chain of the endpoint that came at place `at`.
pub open spec fn place_of(endpoints: Seq<EndpointView>, at: int) -> int
    decreases endpoints.len(),
{
    if endpoints.len() == 0 {
        0
    } else {
        let before = listed_by_chain(endpoints.drop_last());
        let place = listing_place(before, endpoints.last());
        if at == endpoints.len() - 1 {
            place
        } else {
            let old = place_of(endpoints.drop_last(), at);
            if old < place {
                old
            } else {
                old + 1
            }
        }
    }
}

/// The endpoint that came at place `at` stands at its place in the list by
/// chain.
pub proof fn lemma_place_of(endpoints: Seq<EndpointView>, at: int)
    requires
        0 <= at < endpoints.len(),
    ensures
        0 <= place_of(endpoints, at) < endpoints.len(),
        listed_by_chain(endpoints).len() == endpoints.len(),
        listed_by_chain(endpoints)[place_of(endpoints, at)] == endpoints[at],
    decreases endpoints.len(),
{
    let head = endpoints.drop_last();
    let before = listed_by_chain(head);
    lemma_listed_by_chain(head);
    lemma_listed_by_chain(endpoints);
    lemma_listing_place(before, endpoints.last());
    if at < endpoints.len() - 1 {
        lemma_place_of(head, at);
        assert(head[at] == endpoints[at]);
    }
}

/// The list by chain is stable: two endpoints have two places in it, and of
/// two endpoints of which the later is not listed before the earlier, the
/// earlier stands before the later. So the endpoints of one chain keep the
/// order in which they came.
pub proof fn lemma_listing_is_stable(endpoints: Seq<EndpointView>, i: int, j: int)
    requires
        0 <= i < j < endpoints.len(),
    ensures
        place_of(endpoints, i) != place_of(endpoints, j),
        !listed_after(endpoints[i], endpoints[j]) ==> place_of(endpoints, i) < place_of(
            endpoints,
            j,
        ),
    decreases endpoints.len(),
{
    let head = endpoints.drop_last();
    let last = endpoints.last();
    let before = listed_by_chain(head);
    lemma_listing_place(before, last);
    lemma_place_of(head, i);
    assert(head[i] == endpoints[i]);
    if j < endpoints.len() - 1 {
        assert(head[j] == endpoints[j]);
        lemma_listing_is_stable(head, i, j);
    } else {
        let old = place_of(head, i);
        assert(before[old] == endpoints[i]);
    }
}

/// The columns of the table of endpoints: one row for each endpoint.
#[derive(Debug)]
pub struct EndpointTable {
    pub names: Vec<String>,
    pub networks: Vec<String>,
    pub urls: Vec<String>,
}

/// The columns of the table of defaults.
#[derive(Debug)]
pub struct DefaultsTable {
    pub classes: Vec<String>,
    pub networks: Vec<String>,
    pub names: Vec<String>,
}

/// Whether `a` is listed after `b`.
fn is_listed_after(a: &Endpoint, b: &Endpoint, zero: &ChainId) -> (r: bool)
    requires
        zero@ == seq!['0'],
    ensures
        r == listed_after(a@, b@),
{
    let x = match &a.chain_id {
        Some(chain) => chain,
        None => zero,
    };
    let y = match &b.chain_id {
        Some(chain) => chain,
        None => zero,
    };
    match x.order(y) {
        Order::Greater => true,
        _ => false,
    }
}

/// The endpoints in the order of their chains; endpoints of one chain stay
/// in the order in which they came.
pub fn list_by_chain<'a>(endpoints: &'a Vec<Endpoint>) -> (r: Vec<&'a Endpoint>)
    ensures
        views_of(r@) == listed_by_chain(views(endpoints@)),
{
    let zero = ChainId::null_chain_id();
    let mut listed: Vec<&Endpoint> = Vec::new();
    let mut i: usize = 0;
    assert(views(endpoints@).take(0) =~= Seq::<EndpointView>::empty());
    assert(views_of(listed@) =~= listed_by_chain(views(endpoints@).take(0)));
    while i < endpoints.len()
        invariant
            i <= endpoints.len(),
            zero@ == seq!['0'],
            views_of(listed@) == listed_by_chain(views(endpoints@).take(i as int)),
        decreases endpoints.len() - i,
    {
        let endpoint = &endpoints[i];
        let ghost before = views_of(listed@);
        let mut place: usize = listed.len();
        while place > 0 && is_listed_after(listed[place - 1], endpoint, &zero)
            invariant
                place <= listed.len(),
                zero@ == seq!['0'],
                before == views_of(listed@),
                forall|j: int|
                    place <= j < listed.len() ==> listed_after(#[trigger] before[j], endpoint@),
            decreases place,
        {
            assert(before[place - 1] == listed@[place - 1]@);
            place -= 1;
        }
        proof {
            if place > 0 {
                assert(before[place - 1] == listed@[place - 1]@);
            }
            lemma_listing_place_is(before, endpoint@, place as int);
            let given = views(endpoints@).take(i + 1);
            assert(given.drop_last() =~= views(endpoints@).take(i as int));
            assert(given.last() == endpoint@);
        }
        listed.insert(place, endpoint);
        assert(views_of(listed@) =~= before.insert(place as int, endpoint@));
        i += 1;
    }
    assert(views(endpoints@).take(endpoints.len() as int) =~= views(endpoints@));
    listed
}

/// What the table of `endpoints` owes: one row for each endpoint, in the
/// order of their chains, with the name, the chain or a dash, and the URL
/// or, where `reveal` is not set, eight stars.
pub open spec fn table_outcome(endpoints: Seq<Endpoint>, reveal: bool, table: EndpointTable) -> bool {
    &&& table.names@.len() == endpoints.len()
    &&& table.networks@.len() == endpoints.len()
    &&& table.urls@.len() == endpoints.len()
    &&& forall|i: int|
        0 <= i < endpoints.len() ==> {
            &&& (#[trigger] table.names@[i])@ == listed_by_chain(views(endpoints))[i].name
            &&& table.networks@[i]@ == shown_chain(listed_by_chain(views(endpoints))[i])
            &&& table.urls@[i]@ == shown_url(listed_by_chain(views(endpoints))[i], reveal)
        }
}

/// What is shown of a list of endpoints.
#[derive(Debug)]
pub enum EndpointListing {
    /// The one line that stands for a list without endpoints.
    Line(String),
    /// The table of the endpoints.
    Table(EndpointTable),
}

/// What is shown of `endpoints`: the line `[none]` where there is none, else
/// their table.
pub fn endpoint_listing(endpoints: &Vec<Endpoint>, reveal: bool) -> (r: EndpointListing)
    ensures
        match r {
            EndpointListing::Line(line) => endpoints@.len() == 0 && line@ == "[none]"@,
            EndpointListing::Table(table) => endpoints@.len() > 0 && table_outcome(
                endpoints@,
                reveal,
                table,
            ),
        },
{
    if endpoints.len() == 0 {
        EndpointListing::Line(String::from_str("[none]"))
    } else {
        EndpointListing::Table(endpoint_table(endpoints, reveal))
    }
}

/// The columns of the table of `endpoints`, in the order of their chains:
/// the name, the chain or a dash, and the URL or, where `reveal` is not set,
/// eight stars.
pub fn endpoint_table(endpoints: &Vec<Endpoint>, reveal: bool) -> (r: EndpointTable)
    ensures
        table_outcome(endpoints@, reveal, r),
{
    let listed = list_by_chain(endpoints);
    let ghost shown = listed_by_chain(views(endpoints@));
    proof {
        lemma_listed_by_chain(views(endpoints@));
    }
    let mut names: Vec<String> = Vec::new();
    let mut networks: Vec<String> = Vec::new();
    let mut urls: Vec<String> = Vec::new();
    let mut i: usize = 0;
    while i < listed.len()
        invariant
            i <= listed.len(),
            listed@.len() == endpoints@.len(),
            shown == views_of(listed@),
            names@.len() == i,
            networks@.len() == i,
            urls@.len() == i,
            forall|j: int| 0 <= j < i ==> (#[trigger] names@[j])@ == shown[j].name,
            forall|j: int| 0 <= j < i ==> (#[trigger] networks@[j])@ == shown_chain(shown[j]),
            forall|j: int| 0 <= j < i ==> (#[trigger] urls@[j])@ == shown_url(shown[j], reveal),
        decreases listed.len() - i,
    {
        let endpoint = listed[i];
        assert(endpoint@ == shown[i as int]);
        names.push(endpoint.name.clone());
        networks.push(endpoint.chain_id_string());
        if reveal {
            urls.push(endpoint.url.clone());
        } else {
            urls.push(String::from_str("********"));
        }
        i += 1;
    }
    EndpointTable { names, networks, urls }
}

/// The chains of the network defaults of a configuration, in their order.
pub open spec fn default_chains(config: &RpcConfig) -> Seq<Seq<char>> {
    config.network_defaults.key_texts()
}

/// The endpoint names of the network defaults of a configuration, in the
/// order of their chains.
pub open spec fn default_names(config: &RpcConfig) -> Seq<Seq<char>> {
    texts(config.network_defaults.values())
}

/// What the table of defaults owes. Its first row is the default endpoint
/// of the configuration, of which the class says "global default" and, if
/// there is one, the other columns its chain and name; then one row for
/// each network default, with its chain and the name of its endpoint. A
/// default endpoint that is not held is `MissingEndpoint` with its name.
pub open spec fn defaults_outcome(config: &RpcConfig, r: Result<DefaultsTable, MescError>) -> bool {
    let rows = default_chains(config).len();
    match default_name(config@, None, None) {
        None => {
            &&& r matches Ok(table)
            &&& texts(table.classes@) == seq!["global default"@] + Seq::new(
                rows,
                |i: int| "network default"@,
            )
            &&& texts(table.networks@) == default_chains(config)
            &&& texts(table.names@) == default_names(config)
        },
        Some(name) => if config@.endpoints.contains_key(name) {
            &&& r matches Ok(table)
            &&& texts(table.classes@) == seq!["global default"@] + Seq::new(
                rows,
                |i: int| "network default"@,
            )
            &&& texts(table.networks@) == seq![shown_chain(config@.endpoints[name])]
                + default_chains(config)
            &&& texts(table.names@) == seq![config@.endpoints[name].name] + default_names(config)
        } else {
            r matches Err(MescError::MissingEndpoint(detail)) && detail@ == name
        },
    }
}

/// The columns of the table of the defaults of `config`.
pub fn defaults_table(config: &RpcConfig) -> (r: Result<DefaultsTable, MescError>)
    ensures
        defaults_outcome(config, r),
{
    let mut classes: Vec<String> = Vec::new();
    let mut networks: Vec<String> = Vec::new();
    let mut names: Vec<String> = Vec::new();
    classes.push(String::from_str("global default"));
    match get_default_endpoint(config, None) {
        Err(error) => {
            return Err(error);
        },
        Ok(None) => {},
        Ok(Some(endpoint)) => {
            names.push(endpoint.name.clone());
            networks.push(endpoint.chain_id_string());
        },
    }
    let lead: usize = names.len();
    let ghost lead_networks = texts(networks@);
    let ghost lead_names = texts(names@);
    let n = config.network_defaults.len();
    proof {
        config.network_defaults.lemma_entries();
    }
    let mut i: usize = 0;
    while i < n
        invariant
            i <= n,
            lead <= 1,
            n == config.network_defaults.key_texts().len(),
            n == config.network_defaults.values().len(),
            lead_networks.len() == lead,
            lead_names.len() == lead,
            classes@.len() == i + 1,
            networks@.len() == lead + i,
            names@.len() == lead + i,
            classes@[0]@ == "global default"@,
            forall|j: int| 1 <= j <= i ==> (#[trigger] classes@[j])@ == "network default"@,
            forall|j: int| 0 <= j < lead ==> (#[trigger] networks@[j])@ == lead_networks[j],
            forall|j: int| 0 <= j < lead ==> (#[trigger] names@[j])@ == lead_names[j],
            forall|j: int|
                0 <= j < i ==> (#[trigger] networks@[lead + j])@ == default_chains(config)[j],
            forall|j: int| 0 <= j < i ==> (#[trigger] names@[lead + j])@ == default_names(config)[j],
        decreases n - i,
    {
        let chain = config.network_defaults.key_at(i);
        let name = config.network_defaults.value_at(i);
        classes.push(String::from_str("network default"));
        networks.push(chain.to_string());
        names.push(name.clone());
        i += 1;
    }
    proof {
        assert(texts(classes@) =~= seq!["global default"@] + Seq::new(
            n as nat,
            |k: int| "network default"@,
        ));
        assert forall|j: int| 0 <= j < networks@.len() implies texts(networks@)[j] == (lead_networks
            + default_chains(config))[j] by {
            if j >= lead {
                assert(networks@[lead + (j - lead)]@ == default_chains(config)[j - lead]);
            }
        }
        assert(texts(networks@) =~= lead_networks + default_chains(config));
        assert forall|j: int| 0 <= j < names@.len() implies texts(names@)[j] == (lead_names
            + default_names(config))[j] by {
            if j >= lead {
                assert(names@[lead + (j - lead)]@ == default_names(config)[j - lead]);
            }
        }
        assert(texts(names@) =~= lead_names + default_names(config));
        if lead == 0 {
            assert(lead_networks + default_chains(config) =~= default_chains(config));
            assert(lead_names + default_names(config) =~= default_names(config));
        } else {
            assert(lead_networks =~= seq![lead_networks[0]]);
            assert(lead_names =~= seq![lead_names[0]]);
        }
    }
    Ok(DefaultsTable { classes, networks, names })
}

} // verus!
