//! Shared configuration of RPC endpoints: the data model, its integrity
//! rules, the order of chain ids, and the resolution of one endpoint.

pub mod chain_ids;
pub mod digits;
pub mod document;
pub mod error;
pub mod interface;
pub mod load;
pub mod query;
pub mod sorted_map;
pub mod tables;
pub mod text;
pub mod types;
pub mod validate;

pub use chain_ids::ChainId;
pub use chain_ids::TryIntoChainId;
pub use error::EnvFailure;
pub use error::MescError;
pub use interface::Resolver;
pub use load::after_file;
pub use load::after_indicator;
pub use load::after_parse;
pub use load::after_read;
pub use load::config_source;
pub use load::select_mode;
pub use load::ConfigSource;
pub use load::LoadStep;
pub use query::find_endpoints;
pub use query::get_default_endpoint;
pub use query::get_endpoint_by_name;
pub use query::get_endpoint_by_network;
pub use query::resolve_endpoint;
pub use sorted_map::MapKey;
pub use sorted_map::SortedMap;
pub use tables::defaults_table;
pub use tables::endpoint_listing;
pub use tables::endpoint_table;
pub use tables::DefaultsTable;
pub use tables::EndpointListing;
pub use tables::EndpointTable;
pub use text::Order;
pub use types::ConfigMode;
pub use types::Endpoint;
pub use types::EndpointQuery;
pub use types::Profile;
pub use types::RpcConfig;
pub use types::MESC_VERSION;
pub use validate::validate_config;
