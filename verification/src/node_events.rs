use vstd::prelude::*;

use crate::types::PeerId;

verus! {

/// What a node reports to whoever polls it.
#[derive(Clone, Copy, Debug, PartialEq, Eq)]
pub enum NodeEvent {
    /// A peer has dialed the node and the connection stands.
    InboundEstablished { peer_id: PeerId },
    /// The node has lost a peer.
    PeerDisconnected { peer_id: PeerId },
    /// The node has discovered a new peer.
    Discovered { peer_id: PeerId },
    /// The node has entered a new state of its lifecycle.
    StateChanged { new_state: NodeState },
    /// Something happened that the caller need not act on; the node wants to
    /// be polled again.
    Noop,
}

/// The coarse lifecycle of a node as events report it.
#[derive(Clone, Copy, Debug, PartialEq, Eq)]
pub enum NodeState {
    /// The node is starting up.
    Starting,
    /// The node is running and processing events.
    Running,
    /// The node is shutting down.
    Stopping,
}

} // verus!
