use vstd::prelude::*;

use crate::types::PeerId;
use crate::types::PeerReputation;
use crate::types::SimTime;

pub mod laws;
pub mod simple;

verus! {

/// What a peer-list manager asks of its node or tells it.
#[derive(Clone, Copy, Debug, PartialEq, Eq)]
pub enum PeerListManagerEvent {
    PeerAdded(PeerId, PeerReputation),
    PeerRemoved(PeerId),
    PeerReputationUpdated(PeerId, PeerReputation),
    /// Send this peer a sample of the connected peers.
    SyncPeerList(PeerId),
    /// Tear the connection to this peer down.
    Disconnect(PeerId),
    /// Dial this peer.
    Dial(PeerId),
}

/// The settings of a peer-list manager. Intervals are in milliseconds.
#[derive(Clone, Copy, Debug, PartialEq, Eq)]
pub struct PeerListManagerConfig {
    /// Maximum number of peers to maintain.
    pub max_peers: usize,
    /// The peer churn threshold.
    pub churn_threshold: usize,
    /// The number of peers handed over in one peer list exchange.
    pub exchange_peers: usize,
    /// The interval at which peer lists are exchanged.
    pub exchange_peers_interval: SimTime,
    /// The interval at which new peers are dialed.
    pub dial_interval: SimTime,
    /// The interval at which peers are churned.
    pub churn_interval: SimTime,
    /// The number of dials that may be under way at once.
    pub dial_max_in_flight: usize,
}

impl PeerListManagerConfig {
    /// Ten peers at most, four per exchange, an exchange every two seconds,
    /// a dial every second, two dials under way at most, and a churn of two
    /// every ten seconds.
    pub open spec fn standard() -> PeerListManagerConfig {
        PeerListManagerConfig {
            max_peers: 10,
            churn_threshold: 2,
            exchange_peers: 4,
            exchange_peers_interval: 2000,
            dial_interval: 1000,
            churn_interval: 10000,
            dial_max_in_flight: 2,
        }
    }
}

impl Default for PeerListManagerConfig {
    fn default() -> (config: PeerListManagerConfig)
        ensures
            config == PeerListManagerConfig::standard(),
    {
        PeerListManagerConfig {
            max_peers: 10,
            churn_threshold: 2,
            exchange_peers: 4,
            exchange_peers_interval: 2000,
            dial_interval: 1000,
            churn_interval: 10000,
            dial_max_in_flight: 2,
        }
    }
}

/// Keeps the list of known peers and decides when to gossip and whom to
/// dial. The node tells it what the network reports and polls it once per
/// tick for what to do next.
pub trait PeerListManager {
    /// The manager's invariant.
    spec fn wf(&self) -> bool;

    /// Whether adding `reputation_delta` to the peer's reputation stays
    /// within the range of a reputation.
    spec fn accepts_reputation(&self, peer_id: PeerId, reputation_delta: PeerReputation) -> bool;

    /// Called when a peer has been discovered.
    fn register_peer(&mut self, peer_id: PeerId)
        requires
            old(self).wf(),
        ensures
            final(self).wf(),
    ;

    /// Called when the network reports a connection to a peer.
    fn register_peer_connected(&mut self, peer_id: PeerId)
        requires
            old(self).wf(),
        ensures
            final(self).wf(),
    ;

    /// Called when the network reports that a peer is gone.
    fn register_peer_disconnected(&mut self, peer_id: PeerId)
        requires
            old(self).wf(),
        ensures
            final(self).wf(),
    ;

    /// Bars a peer from the list for good.
    fn exclude_peer(&mut self, peer_id: PeerId)
        requires
            old(self).wf(),
        ensures
            final(self).wf(),
    ;

    /// One connected peer picked at random.
    fn get_random_connected_peer(&mut self) -> (picked: Option<PeerId>)
        requires
            old(self).wf(),
        ensures
            final(self).wf(),
    ;

    /// Up to `n` connected peers picked at random, none of them twice.
    fn get_random_peers(&mut self, n: usize) -> (picked: Vec<PeerId>)
        requires
            old(self).wf(),
        ensures
            final(self).wf(),
    ;

    /// Forgets a peer.
    fn remove_peer(&mut self, peer_id: &PeerId)
        requires
            old(self).wf(),
        ensures
            final(self).wf(),
    ;

    /// Adds `reputation_delta` to the reputation of a peer.
    fn update_peer_reputation(&mut self, peer_id: &PeerId, reputation_delta: PeerReputation)
        requires
            old(self).wf(),
            old(self).accepts_reputation(*peer_id, reputation_delta),
        ensures
            final(self).wf(),
    ;

    /// The connected peers.
    fn connections(&self) -> (connected: Vec<PeerId>)
        requires
            self.wf(),
    ;

    /// What to do next at time `now`, if anything.
    fn poll(&mut self, now: SimTime) -> (event: Option<PeerListManagerEvent>)
        requires
            old(self).wf(),
        ensures
            final(self).wf(),
    ;
}

} // verus!
