use vstd::prelude::*;

use crate::primitives::Pubkey;
use crate::types::NodeAddress;
use crate::types::PeerId;

pub mod laws;
pub mod memory;
pub mod sim;

verus! {

/// What can go wrong when a node talks to the network.
#[derive(Debug, PartialEq, Eq)]
pub enum NetworkError {
    /// A connection to this peer exists already.
    AlreadyConnected(PeerId),
    /// The fabric knows no endpoint under the peer's identity.
    PeerNotFound,
    /// No connection to the peer was ever established.
    NotConnected,
}

impl NetworkError {
    /// A short description of the error.
    pub fn message(&self) -> (text: &'static str)
        ensures
            text@ == match self {
                NetworkError::AlreadyConnected(_) => "already connected"@,
                NetworkError::PeerNotFound => "peer not found"@,
                NetworkError::NotConnected => "not connected"@,
            },
    {
        match self {
            NetworkError::AlreadyConnected(_) => "already connected",
            NetworkError::PeerNotFound => "peer not found",
            NetworkError::NotConnected => "not connected",
        }
    }
}

pub type NetworkResult<T> = Result<T, NetworkError>;

/// A network endpoint that can dial peers, send them messages and report
/// what happened, one event per poll. The endpoint works on a fabric that is
/// handed to each call, so that many endpoints can share one fabric without
/// shared ownership.
pub trait Network {
    /// What the endpoints of this kind of network share.
    type Fabric;

    /// The endpoint's own invariant.
    spec fn wf(&self) -> bool;

    /// The fabric's invariant.
    spec fn fabric_wf(fabric: &Self::Fabric) -> bool;

    /// Tells the endpoint at which address a peer lives.
    fn add_peer(&mut self, peer_id: Pubkey, addr: NodeAddress)
        requires
            old(self).wf(),
        ensures
            final(self).wf(),
    ;

    /// Starts a dial to the peer.
    fn connect(&mut self, fabric: &mut Self::Fabric, peer_id: PeerId) -> (result: NetworkResult<()>)
        requires
            old(self).wf(),
            Self::fabric_wf(old(fabric)),
        ensures
            final(self).wf(),
            Self::fabric_wf(final(fabric)),
    ;

    /// Tears the connection to the peer down.
    fn disconnect(&mut self, fabric: &mut Self::Fabric, peer_id: PeerId) -> (result: NetworkResult<()>)
        requires
            old(self).wf(),
            Self::fabric_wf(old(fabric)),
        ensures
            final(self).wf(),
            Self::fabric_wf(final(fabric)),
    ;

    /// Sends the message to the peer.
    fn send(&mut self, fabric: &mut Self::Fabric, peer_id: PeerId, message: ProtocolMessage) -> (result:
        NetworkResult<()>)
        requires
            old(self).wf(),
            Self::fabric_wf(old(fabric)),
        ensures
            final(self).wf(),
            Self::fabric_wf(final(fabric)),
    ;

    /// The next event, if there is one.
    fn poll(&mut self, fabric: &mut Self::Fabric) -> (event: Option<NetworkEvent>)
        requires
            old(self).wf(),
            Self::fabric_wf(old(fabric)),
        ensures
            final(self).wf(),
            Self::fabric_wf(final(fabric)),
    ;
}

/// The messages that peers exchange.
#[derive(Debug, PartialEq, Eq)]
pub enum ProtocolMessage {
    /// A sample of the peers that the sender is connected to. The list stands
    /// for a set: the order carries no meaning and a repeated entry says no
    /// more than a single one.
    PeerList { peers: Vec<PeerId> },
    /// Opaque bytes. No part of the membership protocol produces or reads
    /// them; the fabric carries them unchanged.
    Data { bytes: Vec<u8> },
}

/// What an endpoint reports to its node.
#[derive(Debug, PartialEq, Eq)]
pub enum NetworkEvent {
    /// A dial that this endpoint started has succeeded.
    OutboundEstablished { peer_id: PeerId },
    /// A dial that this endpoint started has failed.
    OutboundFailure { peer_id: PeerId },
    /// A peer has dialed this endpoint and the connection stands.
    InboundEstablished { peer_id: PeerId },
    /// A peer has gone away.
    PeerDisconnected { peer_id: PeerId },
    /// A message has arrived from a peer.
    MessageReceived { peer_id: PeerId, message: ProtocolMessage },
}

} // verus!
