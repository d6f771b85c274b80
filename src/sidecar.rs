//! The sidecar: one rootchain keeper, an optional leafchain keeper, and the
//! decisions of its polling loop. The loop itself (timer, shutdown signal,
//! node and tracker calls) is driven from outside; it hands each event to
//! [`Sidecar::step`] and performs the action that comes back.
use vstd::prelude::*;

use crate::keeper::{BlockchainLayer, NetworkKeeper};

verus! {

/// A node to poll.
pub struct ChainEndpoint {
    pub chain_id: String,
    pub websocket_endpoint: http::Uri,
}

/// What a sidecar is made from.
pub struct Config {
    pub tracker_grpc_endpoint: http::Uri,
    pub polling_interval: std::time::Duration,
    pub rootchain_endpoint: ChainEndpoint,
    pub leafchain_endpoint: Option<ChainEndpoint>,
    pub allow_loopback_ip: bool,
}

/// Where the polling loop stands.
#[derive(Clone, Copy, Debug, PartialEq, Eq, Structural)]
pub enum Phase {
    /// Between cycles: waiting for the timer or the shutdown signal.
    Idle,
    /// The rootchain keeper is running.
    PollingRootchain,
    /// The leafchain keeper is running.
    PollingLeafchain,
    /// The loop has ended.
    Stopped,
}

/// What happened.
#[derive(Clone, Copy, Debug, PartialEq, Eq, Structural)]
pub enum Event {
    /// The shutdown signal fired.
    Shutdown,
    /// The polling interval elapsed.
    TimerElapsed,
    /// The running keeper finished, well or not.
    KeeperDone { succeeded: bool },
}

/// What the loop does next.
#[derive(Clone, Copy, Debug, PartialEq, Eq, Structural)]
pub enum Action {
    /// Run the keeper of this layer, then report back with `KeeperDone`.
    Execute(BlockchainLayer),
    /// Start nothing; wait for the next event.
    Wait,
    /// Leave the loop.
    Stop,
}

/// A sidecar between polls: its keepers, its interval, and where its loop
/// stands.
pub struct Sidecar {
    polling_interval: std::time::Duration,
    rootchain_network_keeper: NetworkKeeper,
    leafchain_network_keeper: Option<NetworkKeeper>,
    phase: Phase,
}

impl Sidecar {
    /// Where the loop stands.
    pub closed spec fn phase(&self) -> Phase {
        self.phase
    }

    /// The rootchain keeper.
    pub closed spec fn rootchain(&self) -> NetworkKeeper {
        self.rootchain_network_keeper
    }

    /// The leafchain keeper, where one is configured.
    pub closed spec fn leafchain(&self) -> Option<NetworkKeeper> {
        self.leafchain_network_keeper
    }

    /// The time between two polling cycles.
    pub closed spec fn interval(&self) -> std::time::Duration {
        self.polling_interval
    }

    /// Whether a leafchain is configured.
    pub open spec fn has_leafchain(&self) -> bool {
        self.leafchain() is Some
    }

    /// A sidecar whose loop has not started: a rootchain keeper, and a
    /// leafchain keeper exactly where a leafchain is configured, each labelled
    /// with its layer and sharing the loopback rule of the configuration.
    /// Connecting to the tracker is the caller's part, done before.
    pub fn new(config: Config) -> (r: Sidecar)
        ensures
            r.phase() == Phase::Idle,
            r.interval() == config.polling_interval,
            r.rootchain().chain_id@ == config.rootchain_endpoint.chain_id@,
            r.rootchain().layer == BlockchainLayer::Rootchain,
            r.rootchain().websocket_endpoint == config.rootchain_endpoint.websocket_endpoint,
            r.rootchain().allow_loopback_ip == config.allow_loopback_ip,
            r.has_leafchain() == config.leafchain_endpoint is Some,
            config.leafchain_endpoint is Some ==> {
                let e = config.leafchain_endpoint.unwrap();
                let k = r.leafchain().unwrap();
                &&& k.chain_id@ == e.chain_id@
                &&& k.layer == BlockchainLayer::Leafchain
                &&& k.websocket_endpoint == e.websocket_endpoint
                &&& k.allow_loopback_ip == config.allow_loopback_ip
            },
    {
        let Config {
            tracker_grpc_endpoint: _,
            polling_interval,
            rootchain_endpoint,
            leafchain_endpoint,
            allow_loopback_ip,
        } = config;
        let rootchain_network_keeper = NetworkKeeper::new(
            rootchain_endpoint.chain_id,
            BlockchainLayer::Rootchain,
            rootchain_endpoint.websocket_endpoint,
            allow_loopback_ip,
        );
        let leafchain_network_keeper = match leafchain_endpoint {
            Some(e) => Some(
                NetworkKeeper::new(
                    e.chain_id,
                    BlockchainLayer::Leafchain,
                    e.websocket_endpoint,
                    allow_loopback_ip,
                ),
            ),
            None => None,
        };
        Sidecar {
            polling_interval,
            rootchain_network_keeper,
            leafchain_network_keeper,
            phase: Phase::Idle,
        }
    }

    pub fn polling_interval(&self) -> (r: std::time::Duration)
        ensures
            r == self.interval(),
    {
        self.polling_interval
    }

    pub fn current_phase(&self) -> (r: Phase)
        ensures
            r == self.phase(),
    {
        self.phase
    }

    pub fn rootchain_network_keeper(&self) -> (r: &NetworkKeeper)
        ensures
            *r == self.rootchain(),
    {
        &self.rootchain_network_keeper
    }

    pub fn leafchain_network_keeper(&self) -> (r: Option<&NetworkKeeper>)
        ensures
            match r {
                Some(k) => self.leafchain() == Some(*k),
                None => self.leafchain() is None,
            },
    {
        match &self.leafchain_network_keeper {
            Some(k) => Some(k),
            None => None,
        }
    }

    /// The keeper of `layer`, where there is one.
    pub fn network_keeper(&self, layer: BlockchainLayer) -> (r: Option<&NetworkKeeper>)
        ensures
            match layer {
                BlockchainLayer::Rootchain => r == Some(&self.rootchain()),
                BlockchainLayer::Leafchain => match r {
                    Some(k) => self.leafchain() == Some(*k),
                    None => self.leafchain() is None,
                },
            },
    {
        match layer {
            BlockchainLayer::Rootchain => Some(&self.rootchain_network_keeper),
            BlockchainLayer::Leafchain => self.leafchain_network_keeper(),
        }
    }

    /// Takes in one event and returns what to do next, as [`next`] says.
    /// The keepers and the interval stay as they were.
    pub fn step(&mut self, event: Event) -> (r: Action)
        ensures
            (final(self).phase(), r) == next(old(self).phase(), event, old(self).has_leafchain()),
            final(self).rootchain() == old(self).rootchain(),
            final(self).leafchain() == old(self).leafchain(),
            final(self).interval() == old(self).interval(),
    {
        let has_leafchain = self.leafchain_network_keeper.is_some();
        let (phase, action) = match (self.phase, event) {
            (Phase::Idle, Event::Shutdown) => (Phase::Stopped, Action::Stop),
            (Phase::Idle, Event::TimerElapsed) => (
                Phase::PollingRootchain,
                Action::Execute(BlockchainLayer::Rootchain),
            ),
            (Phase::PollingRootchain, Event::KeeperDone { .. }) => if has_leafchain {
                (Phase::PollingLeafchain, Action::Execute(BlockchainLayer::Leafchain))
            } else {
                (Phase::Idle, Action::Wait)
            },
            (Phase::PollingLeafchain, Event::KeeperDone { .. }) => (Phase::Idle, Action::Wait),
            (Phase::Stopped, _) => (Phase::Stopped, Action::Stop),
            (p, _) => (p, Action::Wait),
        };
        self.phase = phase;
        action
    }
}

/// One decision of the loop. The shutdown signal is heeded only between
/// cycles; a cycle once started runs the rootchain keeper, then the leafchain
/// keeper if there is one, whatever the outcome of the first. An event that
/// does not belong to the phase changes nothing.
pub open spec fn next(phase: Phase, event: Event, has_leafchain: bool) -> (Phase, Action) {
    match (phase, event) {
        (Phase::Idle, Event::Shutdown) => (Phase::Stopped, Action::Stop),
        (Phase::Idle, Event::TimerElapsed) => (
            Phase::PollingRootchain,
            Action::Execute(BlockchainLayer::Rootchain),
        ),
        (Phase::PollingRootchain, Event::KeeperDone { .. }) => if has_leafchain {
            (Phase::PollingLeafchain, Action::Execute(BlockchainLayer::Leafchain))
        } else {
            (Phase::Idle, Action::Wait)
        },
        (Phase::PollingLeafchain, Event::KeeperDone { .. }) => (Phase::Idle, Action::Wait),
        (Phase::Stopped, _) => (Phase::Stopped, Action::Stop),
        _ => (phase, Action::Wait),
    }
}

/// The phase reached and the actions taken when the loop, standing at
/// `phase`, receives `events` in turn.
pub open spec fn run(phase: Phase, events: Seq<Event>, has_leafchain: bool) -> (Phase, Seq<Action>)
    decreases events.len(),
{
    if events.len() == 0 {
        (phase, Seq::empty())
    } else {
        let (p, a) = next(phase, events[0], has_leafchain);
        let (last, rest) = run(p, events.drop_first(), has_leafchain);
        (last, seq![a] + rest)
    }
}

/// The keepers that a sequence of actions runs, in order.
pub open spec fn executed(actions: Seq<Action>) -> Seq<BlockchainLayer> {
    actions.filter_map(
        |a: Action|
            match a {
                Action::Execute(l) => Some(l),
                _ => None,
            },
    )
}

/// Once stopped, the loop stays stopped and only stops.
pub proof fn lemma_stopped_stays(events: Seq<Event>, has_leafchain: bool)
    ensures
        run(Phase::Stopped, events, has_leafchain).0 == Phase::Stopped,
        run(Phase::Stopped, events, has_leafchain).1 == Seq::new(events.len(), |i: int| Action::Stop),
    decreases events.len(),
{
    if events.len() > 0 {
        lemma_stopped_stays(events.drop_first(), has_leafchain);
        assert(run(Phase::Stopped, events, has_leafchain).1 =~= Seq::new(
            events.len(),
            |i: int| Action::Stop,
        ));
    }
}

/// A shutdown that comes before the first tick ends the loop with no keeper
/// run, whatever follows it.
pub proof fn lemma_shutdown_before_first_tick(events: Seq<Event>, has_leafchain: bool)
    requires
        events.len() > 0,
        events[0] == Event::Shutdown,
    ensures
        run(Phase::Idle, events, has_leafchain).0 == Phase::Stopped,
        run(Phase::Idle, events, has_leafchain).1[0] == Action::Stop,
        executed(run(Phase::Idle, events, has_leafchain).1) == Seq::<BlockchainLayer>::empty(),
{
    let acts = run(Phase::Idle, events, has_leafchain).1;
    lemma_stopped_stays(events.drop_first(), has_leafchain);
    assert(acts =~= Seq::new(events.len(), |i: int| Action::Stop));
    lemma_no_execute(acts);
}

proof fn lemma_no_execute(actions: Seq<Action>)
    requires
        forall|i: int| 0 <= i < actions.len() ==> actions[i] == Action::Stop,
    ensures
        executed(actions) == Seq::<BlockchainLayer>::empty(),
    decreases actions.len(),
{
    if actions.len() > 0 {
        lemma_no_execute(actions.drop_last());
        assert(actions == actions.drop_last().push(actions.last()));
        assert(actions.drop_last().push(actions.last()).filter_map(
            |a: Action|
                match a {
                    Action::Execute(l) => Some(l),
                    _ => None,
                },
        ) == actions.drop_last().filter_map(
            |a: Action|
                match a {
                    Action::Execute(l) => Some(l),
                    _ => None,
                },
        ));
    }
}

/// With a leafchain configured, every cycle runs the rootchain keeper and
/// then the leafchain keeper, whether or not the rootchain keeper failed,
/// and ends back between cycles.
pub proof fn lemma_cycle_with_leafchain(root_ok: bool, leaf_ok: bool)
    ensures
        ({
            let (p, acts) = run(
                Phase::Idle,
                seq![
                    Event::TimerElapsed,
                    Event::KeeperDone { succeeded: root_ok },
                    Event::KeeperDone { succeeded: leaf_ok },
                ],
                true,
            );
            p == Phase::Idle && acts == seq![
                Action::Execute(BlockchainLayer::Rootchain),
                Action::Execute(BlockchainLayer::Leafchain),
                Action::Wait,
            ]
        }),
{
    let evs = seq![
        Event::TimerElapsed,
        Event::KeeperDone { succeeded: root_ok },
        Event::KeeperDone { succeeded: leaf_ok },
    ];
    let e1 = evs.drop_first();
    let e2 = e1.drop_first();
    let e3 = e2.drop_first();
    assert(e3 =~= Seq::<Event>::empty());
    assert(e2 =~= seq![Event::KeeperDone { succeeded: leaf_ok }]);
    assert(e1 =~= seq![
        Event::KeeperDone { succeeded: root_ok },
        Event::KeeperDone { succeeded: leaf_ok },
    ]);
    let r3 = run(Phase::Idle, e3, true);
    assert(r3.1 =~= Seq::<Action>::empty());
    let r2 = run(Phase::PollingLeafchain, e2, true);
    assert(r2.0 == Phase::Idle);
    assert(r2.1 =~= seq![Action::Wait]);
    let r1 = run(Phase::PollingRootchain, e1, true);
    assert(r1.0 == Phase::Idle);
    assert(r1.1 =~= seq![Action::Execute(BlockchainLayer::Leafchain), Action::Wait]);
    assert(run(Phase::Idle, evs, true).1 =~= seq![
        Action::Execute(BlockchainLayer::Rootchain),
        Action::Execute(BlockchainLayer::Leafchain),
        Action::Wait,
    ]);
}

/// Without a leafchain, a cycle runs the rootchain keeper alone.
pub proof fn lemma_cycle_rootchain_only(root_ok: bool)
    ensures
        ({
            let (p, acts) = run(
                Phase::Idle,
                seq![Event::TimerElapsed, Event::KeeperDone { succeeded: root_ok }],
                false,
            );
            p == Phase::Idle && acts == seq![
                Action::Execute(BlockchainLayer::Rootchain),
                Action::Wait,
            ]
        }),
{
    let evs = seq![Event::TimerElapsed, Event::KeeperDone { succeeded: root_ok }];
    let e1 = evs.drop_first();
    let e2 = e1.drop_first();
    assert(e2 =~= Seq::<Event>::empty());
    assert(e1 =~= seq![Event::KeeperDone { succeeded: root_ok }]);
    let r2 = run(Phase::Idle, e2, false);
    assert(r2.1 =~= Seq::<Action>::empty());
    let r1 = run(Phase::PollingRootchain, e1, false);
    assert(r1.0 == Phase::Idle);
    assert(r1.1 =~= seq![Action::Wait]);
    assert(run(Phase::Idle, evs, false).1 =~= seq![
        Action::Execute(BlockchainLayer::Rootchain),
        Action::Wait,
    ]);
}

} // verus!
