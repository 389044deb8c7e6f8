//! Routing, failover and stream termination rules of a local API proxy.

pub mod delivery_laws;
pub mod ending_laws;
pub mod failover;
pub mod header_laws;
pub mod headers;
pub mod json;
pub mod keyed;
pub mod picking;
pub mod provider;
pub mod provider_laws;
pub mod relay;
pub mod relay_laws;
pub mod response;
pub mod router;
pub mod router_laws;
pub mod run_laws;
pub mod sse;
pub mod stream;
pub mod stream_laws;
pub mod switch;
pub mod switch_laws;
pub mod terminal;
pub mod text;
pub mod text_laws;
pub mod toggle;
pub mod toggle_laws;
pub mod turn;
pub mod turn_laws;
pub mod usage;
pub mod usage_laws;
pub mod view_laws;
