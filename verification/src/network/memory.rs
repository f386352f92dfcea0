use vstd::prelude::*;

use crate::network::Network;
use crate::network::NetworkEvent;
use crate::network::NetworkResult;
use crate::network::ProtocolMessage;
use crate::primitives::Pubkey;
use crate::types::NodeAddress;
use crate::types::PeerId;

verus! {

/// A network that accepts everything and delivers nothing: every dial and
/// every send is acknowledged and dropped, and no event ever arrives.
pub struct MemoryNetwork {}

impl Default for MemoryNetwork {
    fn default() -> (network: MemoryNetwork)
        ensures
            network == (MemoryNetwork {  }),
    {
        MemoryNetwork::new()
    }
}

impl MemoryNetwork {
    pub fn new() -> (network: MemoryNetwork)
        ensures
            network == (MemoryNetwork {  }),
    {
        MemoryNetwork {  }
    }
}

impl Network for MemoryNetwork {
    type Fabric = ();

    open spec fn wf(&self) -> bool {
        true
    }

    open spec fn fabric_wf(fabric: &()) -> bool {
        true
    }

    fn add_peer(&mut self, _peer_id: Pubkey, _addr: NodeAddress)
        ensures
            *final(self) == *old(self),
    {
    }

    fn connect(&mut self, _fabric: &mut (), _peer_id: PeerId) -> (result: NetworkResult<()>)
        ensures
            result is Ok,
            *final(self) == *old(self),
    {
        Ok(())
    }

    fn disconnect(&mut self, _fabric: &mut (), _peer_id: PeerId) -> (result: NetworkResult<()>)
        ensures
            result is Ok,
            *final(self) == *old(self),
    {
        Ok(())
    }

    fn send(&mut self, _fabric: &mut (), _peer_id: PeerId, _message: ProtocolMessage) -> (result:
        NetworkResult<()>)
        ensures
            result is Ok,
            *final(self) == *old(self),
    {
        Ok(())
    }

    fn poll(&mut self, _fabric: &mut ()) -> (event: Option<NetworkEvent>)
        ensures
            event is None,
            *final(self) == *old(self),
    {
        None
    }
}

} // verus!
