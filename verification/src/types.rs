use vstd::prelude::*;

pub use crate::primitives::Pubkey;

verus! {

/// A public key that names a peer.
pub type PeerId = Pubkey;

/// An additive score of how well a peer has behaved.
pub type PeerReputation = i32;

/// A peer together with the path at which its endpoint lives, such as
/// `/memory/0`. The path is never interpreted: only the identity is routed on.
pub type NodeAddress = (Pubkey, String);

/// The public key by which a node names itself.
pub type NodeIdentity = Pubkey;

/// Simulated time, in milliseconds since the start of the simulation.
pub type SimTime = u64;

} // verus!
