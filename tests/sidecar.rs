use std::time::Duration;

use kallax::keeper::{BlockchainLayer, NetworkKeeper};
use kallax::registry::PeerAddressBook;
use kallax::sidecar::{Action, ChainEndpoint, Config, Event, Phase, Sidecar};

fn uri(s: &str) -> http::Uri {
    s.parse().unwrap()
}

fn config(with_leafchain: bool, allow_loopback_ip: bool) -> Config {
    Config {
        tracker_grpc_endpoint: uri("http://kallax-tracker.mainnet.svc.cluster.local:80"),
        polling_interval: Duration::from_millis(10),
        rootchain_endpoint: ChainEndpoint {
            chain_id: "mainnet".to_string(),
            websocket_endpoint: uri("ws://127.0.0.1:50002"),
        },
        leafchain_endpoint: if with_leafchain {
            Some(ChainEndpoint {
                chain_id: "leaf".to_string(),
                websocket_endpoint: uri("ws://127.0.0.1:50003"),
            })
        } else {
            None
        },
        allow_loopback_ip,
    }
}

#[test]
fn new_sidecar_labels_its_keepers() {
    let sidecar = Sidecar::new(config(true, false));
    assert_eq!(sidecar.current_phase(), Phase::Idle);
    assert_eq!(sidecar.polling_interval(), Duration::from_millis(10));
    let root = sidecar.rootchain_network_keeper();
    assert_eq!(root.chain_id, "mainnet");
    assert_eq!(root.layer, BlockchainLayer::Rootchain);
    assert_eq!(root.websocket_endpoint, uri("ws://127.0.0.1:50002"));
    assert!(!root.allow_loopback_ip);
    let leaf = sidecar.leafchain_network_keeper().unwrap();
    assert_eq!(leaf.chain_id, "leaf");
    assert_eq!(leaf.layer, BlockchainLayer::Leafchain);
    assert!(Sidecar::new(config(false, false)).leafchain_network_keeper().is_none());
}

#[test]
fn shutdown_before_first_tick_runs_no_keeper() {
    let mut sidecar = Sidecar::new(config(true, false));
    assert_eq!(sidecar.step(Event::Shutdown), Action::Stop);
    assert_eq!(sidecar.current_phase(), Phase::Stopped);
    assert_eq!(sidecar.step(Event::TimerElapsed), Action::Stop);
    assert_eq!(sidecar.step(Event::KeeperDone { succeeded: true }), Action::Stop);
}

#[test]
fn rootchain_failure_does_not_skip_leafchain() {
    let mut sidecar = Sidecar::new(config(true, false));
    assert_eq!(sidecar.step(Event::TimerElapsed), Action::Execute(BlockchainLayer::Rootchain));
    assert_eq!(
        sidecar.step(Event::KeeperDone { succeeded: false }),
        Action::Execute(BlockchainLayer::Leafchain)
    );
    assert_eq!(sidecar.step(Event::KeeperDone { succeeded: false }), Action::Wait);
    assert_eq!(sidecar.current_phase(), Phase::Idle);
    assert_eq!(sidecar.step(Event::TimerElapsed), Action::Execute(BlockchainLayer::Rootchain));
}

#[test]
fn rootchain_only_cycle() {
    let mut sidecar = Sidecar::new(config(false, false));
    assert_eq!(sidecar.step(Event::TimerElapsed), Action::Execute(BlockchainLayer::Rootchain));
    assert_eq!(sidecar.step(Event::KeeperDone { succeeded: true }), Action::Wait);
    assert_eq!(sidecar.current_phase(), Phase::Idle);
}

#[test]
fn shutdown_is_heeded_only_between_cycles() {
    let mut sidecar = Sidecar::new(config(true, false));
    sidecar.step(Event::TimerElapsed);
    assert_eq!(sidecar.step(Event::Shutdown), Action::Wait);
    assert_eq!(sidecar.current_phase(), Phase::PollingRootchain);
    sidecar.step(Event::KeeperDone { succeeded: true });
    sidecar.step(Event::KeeperDone { succeeded: true });
    assert_eq!(sidecar.step(Event::Shutdown), Action::Stop);
}

#[test]
fn keeper_report_filters_loopback() {
    let keeper = NetworkKeeper::new(
        "mainnet".to_string(),
        BlockchainLayer::Rootchain,
        uri("ws://127.0.0.1:50002"),
        false,
    );
    let raw = vec!["/ip4/127.0.0.1/tcp/1".to_string(), "/ip4/10.0.0.1/tcp/1".to_string()];
    let report = keeper.prepare_report(&raw);
    assert_eq!(report.chain_id, "mainnet");
    assert_eq!(report.layer, BlockchainLayer::Rootchain);
    assert_eq!(report.peers, vec!["/ip4/10.0.0.1/tcp/1".to_string()]);
    let empty = keeper.prepare_report(&vec!["localhost:1".to_string()]);
    assert!(empty.peers.is_empty());
}

#[test]
fn end_to_end_first_tick_then_shutdown() {
    let mut sidecar = Sidecar::new(config(false, false));
    let mut book = PeerAddressBook::new();
    let node_peers = vec!["p1".to_string(), "p2".to_string()];
    let mut executed = 0;
    let mut event = Event::TimerElapsed;
    loop {
        match sidecar.step(event) {
            Action::Execute(layer) => {
                executed += 1;
                let keeper = sidecar.network_keeper(layer).unwrap();
                book.apply_report(keeper.prepare_report(&node_peers));
                let mut got = book.fetch(&"mainnet".to_string());
                got.sort();
                assert_eq!(got, vec!["p1".to_string(), "p2".to_string()]);
                event = Event::KeeperDone { succeeded: true };
            }
            Action::Wait => event = Event::Shutdown,
            Action::Stop => break,
        }
    }
    assert_eq!(executed, 1);
    assert_eq!(sidecar.current_phase(), Phase::Stopped);
}
