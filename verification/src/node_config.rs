use vstd::prelude::*;

use crate::peer_list_manager::PeerListManagerConfig;
use crate::primitives::Pubkey;
use crate::rng::SimRng;
use crate::types::NodeAddress;
use crate::types::NodeIdentity;
use crate::types::PeerId;

verus! {

/// Whether two addresses name the same peer at the same path.
pub open spec fn same_address(a: NodeAddress, b: NodeAddress) -> bool {
    a.0 == b.0 && a.1@ == b.1@
}

/// Whether the list holds the address.
pub open spec fn lists_address(list: Seq<NodeAddress>, address: NodeAddress) -> bool {
    exists|i: int| 0 <= i < list.len() && same_address(#[trigger] list[i], address)
}

/// What a node is built from.
pub struct NodeConfig {
    /// The peers that the node dials when it boots. The list stands for a
    /// set; one made by the builder holds no address twice.
    pub bootnodes: Vec<NodeAddress>,
    pub identity: NodeIdentity,
    /// The path of the node's endpoint, such as `/memory/0`.
    pub address: String,
    pub peer_list_manager: PeerListManagerConfig,
}

impl NodeConfig {
    pub fn builder() -> (builder: NodeConfigBuilder)
        ensures
            builder.bootnodes() == Seq::<NodeAddress>::empty(),
            builder.identity() is None,
            builder.address() is None,
    {
        NodeConfigBuilder::new()
    }

    pub fn bootnodes(&self) -> (bootnodes: &Vec<NodeAddress>)
        ensures
            *bootnodes == self.bootnodes,
    {
        &self.bootnodes
    }

    pub fn identity(&self) -> (identity: &PeerId)
        ensures
            *identity == self.identity,
    {
        &self.identity
    }

    /// The node's identity with the path of its endpoint.
    pub fn node_address(&self) -> (address: NodeAddress)
        ensures
            address.0 == self.identity,
            address.1 == self.address,
    {
        (self.identity, self.address.clone())
    }
}

/// Collects what a node is built from. The identity and the address have to
/// be given; the bootnodes may stay empty, as they do for a bootnode itself.
pub struct NodeConfigBuilder {
    bootnodes: Vec<NodeAddress>,
    identity: Option<NodeIdentity>,
    address: Option<String>,
    peer_list_manager: PeerListManagerConfig,
}

impl Default for NodeConfigBuilder {
    fn default() -> (builder: NodeConfigBuilder)
        ensures
            builder.bootnodes() == Seq::<NodeAddress>::empty(),
            builder.identity() is None,
            builder.address() is None,
    {
        NodeConfigBuilder::new()
    }
}

impl NodeConfigBuilder {
    /// The bootnodes given so far, in the order in which they were given.
    pub closed spec fn bootnodes(&self) -> Seq<NodeAddress> {
        self.bootnodes@
    }

    /// The identity, if one was given.
    pub closed spec fn identity(&self) -> Option<NodeIdentity> {
        self.identity
    }

    /// The address, if one was given.
    pub closed spec fn address(&self) -> Option<String> {
        self.address
    }

    /// Whether a node can be built: the identity and the address were given.
    pub open spec fn complete(&self) -> bool {
        self.identity() is Some && self.address() is Some
    }

    pub fn new() -> (builder: NodeConfigBuilder)
        ensures
            builder.bootnodes() == Seq::<NodeAddress>::empty(),
            builder.identity() is None,
            builder.address() is None,
    {
        NodeConfigBuilder {
            bootnodes: Vec::new(),
            identity: None,
            address: None,
            peer_list_manager: PeerListManagerConfig::default(),
        }
    }

    /// Adds a bootnode, unless the same address was given before.
    pub fn with_bootnode(self, bootnode: NodeAddress) -> (builder: NodeConfigBuilder)
        ensures
            builder.identity() == self.identity(),
            builder.address() == self.address(),
            builder.bootnodes() == if lists_address(self.bootnodes(), bootnode) {
                self.bootnodes()
            } else {
                self.bootnodes().push(bootnode)
            },
    {
        let mut builder = self;
        let mut i: usize = 0;
        while i < builder.bootnodes.len()
            invariant
                builder == self,
                i <= builder.bootnodes.len(),
                forall|j: int| 0 <= j < i ==> !same_address(#[trigger] builder.bootnodes[j], bootnode),
            decreases builder.bootnodes.len() - i,
        {
            if builder.bootnodes[i].0 == bootnode.0 && builder.bootnodes[i].1 == bootnode.1 {
                return builder;
            }
            i += 1;
        }
        builder.bootnodes.push(bootnode);
        builder
    }

    pub fn with_identity(self, identity: NodeIdentity) -> (builder: NodeConfigBuilder)
        ensures
            builder.identity() == Some(identity),
            builder.address() == self.address(),
            builder.bootnodes() == self.bootnodes(),
    {
        let mut builder = self;
        builder.identity = Some(identity);
        builder
    }

    pub fn with_address(self, address: String) -> (builder: NodeConfigBuilder)
        ensures
            builder.identity() == self.identity(),
            builder.address() == Some(address),
            builder.bootnodes() == self.bootnodes(),
    {
        let mut builder = self;
        builder.address = Some(address);
        builder
    }

    /// Gives the node a fresh identity drawn from `rng`.
    pub fn with_unique_identity(self, rng: &mut SimRng) -> (builder: NodeConfigBuilder)
        ensures
            builder.identity() is Some,
            builder.address() == self.address(),
            builder.bootnodes() == self.bootnodes(),
    {
        let mut builder = self;
        builder.identity = Some(Pubkey::unique(rng));
        builder
    }

    /// Whether a node can be built: see `complete`.
    pub fn is_complete(&self) -> (complete: bool)
        ensures
            complete == self.complete(),
    {
        self.identity.is_some() && self.address.is_some()
    }

    /// The configuration of the node. Its peer-list manager gets the default
    /// settings.
    pub fn build(self) -> (config: NodeConfig)
        requires
            self.complete(),
        ensures
            config.identity == self.identity()->0,
            config.address == self.address()->0,
            config.bootnodes@ == self.bootnodes(),
            config.peer_list_manager == PeerListManagerConfig::standard(),
    {
        NodeConfig {
            bootnodes: self.bootnodes,
            identity: self.identity.unwrap(),
            address: self.address.unwrap(),
            peer_list_manager: PeerListManagerConfig::default(),
        }
    }
}

} // verus!
