//! A configuration together with the mode it was selected under: the calls
//! that a client makes, which all fail where the mode is `Disabled`.

use crate::chain_ids::ChainId;
use crate::error::MescError;
use crate::query::default_outcome;
use crate::query::find_endpoints;
use crate::query::found_outcome;
use crate::query::get_default_endpoint;
use crate::query::get_endpoint_by_name;
use crate::query::get_endpoint_by_network;
use crate::query::named_outcome;
use crate::query::resolve_endpoint;
use crate::query::resolve_outcome;
use crate::query::text_of;
use crate::tables::defaults_outcome;
use crate::tables::defaults_table;
use crate::tables::DefaultsTable;
use crate::types::empty_config;
use crate::types::ConfigMode;
use crate::types::Endpoint;
use crate::types::EndpointQuery;
use crate::types::EndpointQueryView;
use crate::types::RpcConfig;
use vstd::prelude::*;

verus! {

/// What an optional query asks for.
pub open spec fn asked(query: Option<&EndpointQuery>) -> Option<EndpointQueryView> {
    match query {
        Some(q) => Some(q@),
        None => None,
    }
}

/// A configuration and the mode it was selected under.
#[derive(Debug)]
pub struct Resolver {
    pub mode: ConfigMode,
    pub config: RpcConfig,
}

impl Resolver {
    /// The resolver of `config` under `mode`.
    pub fn new(mode: ConfigMode, config: RpcConfig) -> (r: Self)
        ensures
            r.mode == mode,
            r.config == config,
    {
        Resolver { mode, config }
    }

    /// The resolver of the mode `Disabled`, which holds the configuration
    /// that holds nothing.
    pub fn disabled() -> (r: Self)
        ensures
            r.mode == ConfigMode::Disabled,
            r.config@ == empty_config(),
    {
        Resolver { mode: ConfigMode::Disabled, config: RpcConfig::default() }
    }

    /// The resolver for what the loading gave: of a configuration and its
    /// mode, their resolver; of the refusal `MescNotEnabled`, the resolver of
    /// the mode `Disabled`; of any other error, that error.
    pub fn from_loaded(loaded: Result<(ConfigMode, RpcConfig), MescError>) -> (r: Result<
        Resolver,
        MescError,
    >)
        ensures
            match loaded {
                Ok((mode, config)) => r matches Ok(resolver) && resolver.mode == mode
                    && resolver.config == config,
                Err(MescError::MescNotEnabled) => r matches Ok(resolver) && resolver.mode
                    == ConfigMode::Disabled && resolver.config@ == empty_config(),
                Err(error) => r == Err::<Resolver, MescError>(error),
            },
    {
        match loaded {
            Ok((mode, config)) => Ok(Resolver::new(mode, config)),
            Err(MescError::MescNotEnabled) => Ok(Resolver::disabled()),
            Err(error) => Err(error),
        }
    }

    /// Whether the mode is another than `Disabled`.
    pub fn is_enabled(&self) -> (r: bool)
        ensures
            r == (self.mode != ConfigMode::Disabled),
    {
        self.mode != ConfigMode::Disabled
    }

    /// The one endpoint that answers, as `resolve_endpoint` of the
    /// configuration gives it; `MescNotEnabled` in the mode `Disabled`.
    pub fn resolve_endpoint(&self, profile: Option<&str>, query: Option<&EndpointQuery>) -> (r:
        Result<Endpoint, MescError>)
        ensures
            self.mode == ConfigMode::Disabled ==> r matches Err(MescError::MescNotEnabled),
            self.mode != ConfigMode::Disabled ==> resolve_outcome(
                &self.config,
                text_of(profile),
                asked(query),
                r,
            ),
    {
        if self.mode == ConfigMode::Disabled {
            return Err(MescError::MescNotEnabled);
        }
        resolve_endpoint(&self.config, profile, query)
    }

    /// The default endpoint, if the defaults name one; `MescNotEnabled` in
    /// the mode `Disabled`.
    pub fn get_default_endpoint(&self, profile: Option<&str>) -> (r: Result<
        Option<Endpoint>,
        MescError,
    >)
        ensures
            self.mode == ConfigMode::Disabled ==> r matches Err(MescError::MescNotEnabled),
            self.mode != ConfigMode::Disabled ==> default_outcome(
                self.config@,
                text_of(profile),
                None,
                r,
            ),
    {
        if self.mode == ConfigMode::Disabled {
            return Err(MescError::MescNotEnabled);
        }
        get_default_endpoint(&self.config, profile)
    }

    /// The endpoint for the chain `chain_id`, if the defaults name one;
    /// `MescNotEnabled` in the mode `Disabled`.
    pub fn get_endpoint_by_network(&self, chain_id: &ChainId, profile: Option<&str>) -> (r: Result<
        Option<Endpoint>,
        MescError,
    >)
        ensures
            self.mode == ConfigMode::Disabled ==> r matches Err(MescError::MescNotEnabled),
            self.mode != ConfigMode::Disabled ==> default_outcome(
                self.config@,
                text_of(profile),
                Some(chain_id@),
                r,
            ),
    {
        if self.mode == ConfigMode::Disabled {
            return Err(MescError::MescNotEnabled);
        }
        get_endpoint_by_network(&self.config, chain_id, profile)
    }

    /// The endpoint that stands under `name`; `MescNotEnabled` in the mode
    /// `Disabled`.
    pub fn get_endpoint_by_name(&self, name: &str) -> (r: Result<Endpoint, MescError>)
        ensures
            self.mode == ConfigMode::Disabled ==> r matches Err(MescError::MescNotEnabled),
            self.mode != ConfigMode::Disabled ==> named_outcome(self.config@, name@, r),
    {
        if self.mode == ConfigMode::Disabled {
            return Err(MescError::MescNotEnabled);
        }
        get_endpoint_by_name(&self.config, name)
    }

    /// The columns of the table of the defaults; `MescNotEnabled` in the
    /// mode `Disabled`, whatever the configuration holds.
    pub fn defaults_table(&self) -> (r: Result<DefaultsTable, MescError>)
        ensures
            self.mode == ConfigMode::Disabled ==> r matches Err(MescError::MescNotEnabled),
            self.mode != ConfigMode::Disabled ==> defaults_outcome(&self.config, r),
    {
        if self.mode == ConfigMode::Disabled {
            return Err(MescError::MescNotEnabled);
        }
        defaults_table(&self.config)
    }

    /// The endpoints that pass `query`, in the order of their names;
    /// `MescNotEnabled` in the mode `Disabled`.
    pub fn find_endpoints(&self, query: &EndpointQuery) -> (r: Result<Vec<Endpoint>, MescError>)
        ensures
            self.mode == ConfigMode::Disabled ==> r matches Err(MescError::MescNotEnabled),
            self.mode != ConfigMode::Disabled ==> (r matches Ok(found) && found_outcome(
                &self.config,
                query@,
                found@,
            )),
    {
        if self.mode == ConfigMode::Disabled {
            return Err(MescError::MescNotEnabled);
        }
        Ok(find_endpoints(&self.config, query))
    }
}

} // verus!
