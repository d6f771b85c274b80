//! The polling agent of one chain: what it reports of the peers that its
//! node returned, and the report itself.
use vstd::prelude::*;

use crate::address::{addrs, exposed, filter_exposed};

verus! {

/// A blockchain layer. It labels reports and changes nothing else.
#[derive(Clone, Copy, Debug, PartialEq, Eq, Structural)]
pub enum BlockchainLayer {
    Rootchain,
    Leafchain,
}

/// The endpoint of a node or a service, carried through as it was given.
#[verifier::external_type_specification]
#[verifier::external_body]
pub struct ExUri(http::Uri);

/// One observation of a chain's peers, as sent to the tracker.
pub struct PeerReport {
    pub chain_id: String,
    pub layer: BlockchainLayer,
    pub peers: Vec<String>,
}

/// The polling agent of one (chain, layer) pair. It keeps nothing between
/// polls.
pub struct NetworkKeeper {
    pub chain_id: String,
    pub layer: BlockchainLayer,
    pub websocket_endpoint: http::Uri,
    pub allow_loopback_ip: bool,
}

impl NetworkKeeper {
    pub fn new(
        chain_id: String,
        layer: BlockchainLayer,
        websocket_endpoint: http::Uri,
        allow_loopback_ip: bool,
    ) -> (r: NetworkKeeper)
        ensures
            r.chain_id@ == chain_id@,
            r.layer == layer,
            r.websocket_endpoint == websocket_endpoint,
            r.allow_loopback_ip == allow_loopback_ip,
    {
        NetworkKeeper { chain_id, layer, websocket_endpoint, allow_loopback_ip }
    }

    /// The report of one poll whose node returned `raw_peers`: this keeper's
    /// chain and layer, and the peers that may be exposed, in their order.
    /// An empty list is still a report.
    pub fn prepare_report(&self, raw_peers: &Vec<String>) -> (r: PeerReport)
        ensures
            r.chain_id@ == self.chain_id@,
            r.layer == self.layer,
            addrs(r.peers@) == exposed(addrs(raw_peers@), self.allow_loopback_ip),
    {
        PeerReport {
            chain_id: self.chain_id.clone(),
            layer: self.layer,
            peers: filter_exposed(raw_peers, self.allow_loopback_ip),
        }
    }
}

} // verus!
