//! Peer-topology tracking for a fleet of blockchain nodes: the sidecar's
//! polling decisions, the filtering and reporting of observed peers, and the
//! tracker's registries of peer addresses and chain specifications.
pub mod address;
pub mod registry;
pub mod keeper;
pub mod sidecar;
pub mod query;
