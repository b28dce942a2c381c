//! Client-side building blocks for talking to LND nodes over gRPC: node
//! configurations and the checks on a set of them, the collection of
//! connected clients and the step that fills it, the endpoint and the
//! security of a node's channel, and the macaroon interceptor.

mod config;
mod connect;
mod endpoint;
mod error;
mod interceptor;
mod nodes;
mod validate;

pub use config::LndNodeConfig;
pub use connect::{
    connected_map, lemma_accepted_iff_distinct_nonempty, lemma_all_connected, ConnectNodes,
};
pub use endpoint::{
    channel_endpoint, channel_security, channel_security_outcome, hex_decoded, hex_digit_value, is_hex_digit, is_hex_text,
    is_pem_certificate, lemma_channel_security, lnd_address, parses_as_uri, security_from_certificate, uri_of,
    ChannelEndpoint, ChannelSecurity, ChannelSetupError,
};
pub use error::{connect_error_text, LndConnectError};
pub use interceptor::MacaroonInterceptor;
pub use nodes::{lemma_insert_then_get, string_views, LndNodeClients};
pub use validate::{
    alias_accepted, all_aliases_accepted, config_aliases, first_rejected, validate_node_configs,
};
