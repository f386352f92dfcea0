use vstd::prelude::*;

use crate::network::Network;
use crate::network::NetworkError;
use crate::network::NetworkEvent;
use crate::network::NetworkResult;
use crate::network::ProtocolMessage;
use crate::network::sim::NetView;
use crate::network::sim::SimNetwork;
use crate::network::sim::SimNetworkClient;
use crate::network::sim::poll_established;
use crate::network::sim::poll_fabric;
use crate::network::sim::poll_result;
use crate::node_config::NodeConfig;
use crate::node_config::NodeConfigBuilder;
use crate::node_events::NodeEvent;
use crate::peer_list_manager::PeerListManager;
use crate::peer_list_manager::PeerListManagerEvent;
use crate::peer_list_manager::laws::lemma_connected_after_connection;
use crate::peer_list_manager::laws::lemma_connected_after_loss;
use crate::peer_list_manager::laws::lemma_connected_after_lost_dial;
use crate::peer_list_manager::laws::lemma_connected_after_poll;
use crate::peer_list_manager::laws::lemma_connected_after_register_all;
use crate::peer_list_manager::laws::lemma_connected_after_remove;
use crate::peer_list_manager::laws::lemma_has_first_disconnected;
use crate::peer_list_manager::simple::PeerState;
use crate::peer_list_manager::simple::PlmView;
use crate::peer_list_manager::simple::SimplePeerListManager;
use crate::peer_list_manager::simple::lemma_connected_ids;
use crate::rng::SimRng;
use crate::storage::Storage;
use crate::storage::sim::SimStorage;
use crate::types::NodeAddress;
use crate::types::PeerId;
use crate::types::SimTime;

verus! {

/// Where a node stands in its life. A node starts in `Booting` and moves to
/// `Connecting` with its first poll; the later states are reserved and no
/// poll reaches or leaves them.
#[derive(Clone, Copy, Debug, PartialEq, Eq)]
pub enum NodeState {
    Booting,
    Connecting,
    Joining,
    Running,
    Leaving,
    Stopped,
}

impl Default for NodeState {
    fn default() -> (state: NodeState)
        ensures
            state is Booting,
    {
        NodeState::Booting
    }
}

/// A node as plain values: the state on which its contracts are stated.
pub struct NodeView {
    pub identity: PeerId,
    pub state: NodeState,
    /// The node's peer-list manager.
    pub plm: PlmView,
    /// The peers for which the node's endpoint has reported a connection.
    pub established: Set<PeerId>,
    /// The identities of the bootnodes, in the order of the configuration.
    pub bootnodes: Seq<PeerId>,
    /// How many peers the node hands over when it gossips.
    pub exchange_peers: usize,
    /// The path of the node as its configuration gives it.
    pub address: Seq<char>,
    /// The path for which the node's endpoint was built.
    pub endpoint: Seq<char>,
}

impl NodeView {
    /// The manager is well-formed and bars the node's own identity.
    pub open spec fn wf(self) -> bool {
        self.plm.wf() && self.plm.excluded.contains(self.identity)
    }

    /// Every peer that the manager holds as connected is one for which the
    /// endpoint has reported a connection.
    pub open spec fn linked(self) -> bool {
        forall|peer: PeerId| #[trigger] self.plm.is_connected(peer) ==> self.established.contains(peer)
    }

    /// The same node with another manager.
    pub open spec fn with_plm(self, plm: PlmView) -> NodeView {
        NodeView { plm, ..self }
    }
}

/// Whether the node can boot on the fabric: the fabric knows the node and
/// every bootnode, and the node's endpoint has no connection to any
/// bootnode yet. A node that boots otherwise has been set up wrongly.
pub open spec fn can_boot(node: NodeView, net: NetView) -> bool {
    &&& net.clients.contains_key(node.identity)
    &&& forall|i: int|
        0 <= i < node.bootnodes.len() ==> {
            &&& net.clients.contains_key(#[trigger] node.bootnodes[i])
            &&& !node.established.contains(node.bootnodes[i])
        }
}

/// Whether `post` is the fabric `pre` with one more dial from `me` to each
/// of `targets`, in their order, each scheduled at the fabric's time with a
/// delay that its settings allow.
pub open spec fn dialed_all(pre: NetView, post: NetView, me: PeerId, targets: Seq<PeerId>) -> bool {
    &&& post.clients == pre.clients
    &&& post.now == pre.now
    &&& post.config == pre.config
    &&& post.pending.len() == pre.pending.len() + targets.len()
    &&& post.pending.subrange(0, pre.pending.len() as int) == pre.pending
    &&& forall|k: int|
        0 <= k < targets.len() ==> {
            let dial = #[trigger] post.pending[pre.pending.len() + k];
            &&& dial.outcome.from() == me
            &&& dial.outcome.to() == targets[k]
            &&& dial.scheduled_at == pre.now
            &&& pre.config.admits_delay(dial.delay)
        }
}

/// Whether a manager in state `plm` may hand out `sample` when asked for up
/// to `n` peers: connected peers without repeats, all of them where there
/// are no more than `n`, else `n` of them.
pub open spec fn is_sample(plm: PlmView, n: usize, sample: Seq<PeerId>) -> bool {
    &&& sample.no_duplicates()
    &&& forall|i: int| 0 <= i < sample.len() ==> plm.connected().contains(#[trigger] sample[i])
    &&& sample.len() == if n <= plm.connected().len() {
        n as int
    } else {
        plm.connected().len() as int
    }
    &&& plm.connected().len() <= n ==> sample == plm.connected()
}

/// Whether `post` is the fabric `pre` after the node `me` tried to send `to`
/// a sample of the peers it is connected to. Where the node's endpoint has
/// a connection to `to` and the fabric knows `to`, one `PeerList` message
/// with such a sample has joined the end of the inbox of `to`; otherwise the
/// send has failed and nothing has changed.
pub open spec fn gossiped(
    pre: NetView,
    post: NetView,
    me: PeerId,
    to: PeerId,
    established: Set<PeerId>,
    plm: PlmView,
    n: usize,
) -> bool {
    if established.contains(to) && pre.clients.contains_key(to) {
        &&& post.inbox(to).len() > 0
        &&& post == pre.deliver(me, to, post.inbox(to).last().1)
        &&& post.inbox(to).last().1 matches ProtocolMessage::PeerList { peers }
        &&& is_sample(plm, n, peers@)
    } else {
        post == pre
    }
}

/// Whether the dial that the manager asks for with `event` cannot be made:
/// the node has no connection to the peer yet, and the fabric does not know
/// the node or does not know the peer.
pub open spec fn dial_is_lost(node: NodeView, net: NetView, event: PeerListManagerEvent) -> bool {
    event matches PeerListManagerEvent::Dial(peer) && !node.established.contains(peer) && !(
    net.clients.contains_key(node.identity) && net.clients.contains_key(peer))
}

/// How a node and the fabric change when the node carries out what its
/// manager asked for.
///
/// `SyncPeerList(peer)`: the node gossips to `peer`. `Dial(peer)`: where a
/// connection to `peer` stands already nothing changes; where the dial
/// cannot be made it is given up, and the manager drops the peer if it had
/// marked it as being dialed; otherwise the fabric holds one more dial, from
/// the node to `peer`. Every other event changes nothing. No event of the
/// manager changes who is held as connected.
pub open spec fn plm_step(
    pre: NodeView,
    pre_net: NetView,
    event: PeerListManagerEvent,
    post: NodeView,
    post_net: NetView,
) -> bool {
    match event {
        PeerListManagerEvent::SyncPeerList(peer) => {
            &&& post == pre
            &&& gossiped(
                pre_net,
                post_net,
                pre.identity,
                peer,
                pre.established,
                pre.plm,
                pre.exchange_peers,
            )
        },
        PeerListManagerEvent::Dial(peer) => {
            if pre.established.contains(peer) {
                post == pre && post_net == pre_net
            } else if dial_is_lost(pre, pre_net, event) {
                post == pre.with_plm(pre.plm.abandon_dial(peer)) && post_net == pre_net
            } else {
                let dial = post_net.pending.last();
                &&& post == pre
                &&& post_net == pre_net.schedule(dial)
                &&& dial.outcome.from() == pre.identity
                &&& dial.outcome.to() == peer
                &&& dial.scheduled_at == pre_net.now
                &&& pre_net.config.admits_delay(dial.delay)
                &&& pre_net.config.fail_numerator == 0 ==> dial.outcome is Success
                &&& pre_net.config.fail_numerator == pre_net.config.fail_denominator
                    ==> dial.outcome is Failure
            }
        },
        _ => post == pre && post_net == pre_net,
    }
}

/// What a node reports for an event of its endpoint.
pub open spec fn report_for(event: NetworkEvent) -> NodeEvent {
    match event {
        NetworkEvent::InboundEstablished { peer_id } => NodeEvent::InboundEstablished { peer_id },
        NetworkEvent::PeerDisconnected { peer_id } => NodeEvent::PeerDisconnected { peer_id },
        _ => NodeEvent::Noop,
    }
}

/// How a node and the fabric change when the node reacts to an event of its
/// endpoint.
///
/// `OutboundEstablished`: the manager holds the peer as connected.
/// `InboundEstablished`: the same, and the node gossips to the peer.
/// `OutboundFailure`: the manager tracks the peer, as disconnected, so that
/// it is dialed again; a peer that it holds as connected stays so.
/// `PeerDisconnected`: the manager holds the peer as disconnected. A
/// `PeerList` message: the manager registers every peer of the list. A
/// `Data` message: nothing changes.
pub open spec fn network_step(
    pre: NodeView,
    pre_net: NetView,
    event: NetworkEvent,
    post: NodeView,
    post_net: NetView,
) -> bool {
    match event {
        NetworkEvent::OutboundEstablished { peer_id } => {
            &&& post == pre.with_plm(pre.plm.register_connected(peer_id))
            &&& post_net == pre_net
        },
        NetworkEvent::InboundEstablished { peer_id } => {
            &&& post == pre.with_plm(pre.plm.register_connected(peer_id))
            &&& gossiped(
                pre_net,
                post_net,
                pre.identity,
                peer_id,
                pre.established,
                post.plm,
                pre.exchange_peers,
            )
        },
        NetworkEvent::OutboundFailure { peer_id } => {
            &&& post == pre.with_plm(pre.plm.dial_failed(peer_id))
            &&& post_net == pre_net
        },
        NetworkEvent::PeerDisconnected { peer_id } => {
            &&& post == pre.with_plm(pre.plm.register_disconnected(peer_id))
            &&& post_net == pre_net
        },
        NetworkEvent::MessageReceived { peer_id, message } => {
            &&& post == match message {
                ProtocolMessage::PeerList { peers } => pre.with_plm(pre.plm.register_all(peers@)),
                ProtocolMessage::Data { bytes } => pre,
            }
            &&& post_net == pre_net
        },
    }
}

/// Whether the endpoint has reported the connection that the event speaks
/// of, if it speaks of one.
pub open spec fn is_backed(node: NodeView, event: Option<NetworkEvent>) -> bool {
    match event {
        Some(NetworkEvent::OutboundEstablished { peer_id }) => node.established.contains(peer_id),
        Some(NetworkEvent::InboundEstablished { peer_id }) => node.established.contains(peer_id),
        _ => true,
    }
}

/// Whether the manager holds `peer` as connected once the node has reacted
/// to what its endpoint reported, if it reported anything. An event that
/// establishes a connection connects its peer, unless the peer is excluded;
/// `PeerDisconnected` disconnects its peer; nothing else changes who is
/// connected.
pub open spec fn connected_after(before: PlmView, heard: Option<NetworkEvent>, peer: PeerId) -> bool {
    match heard {
        Some(NetworkEvent::OutboundEstablished { peer_id }) => if peer == peer_id {
            !before.excluded.contains(peer)
        } else {
            before.is_connected(peer)
        },
        Some(NetworkEvent::InboundEstablished { peer_id }) => if peer == peer_id {
            !before.excluded.contains(peer)
        } else {
            before.is_connected(peer)
        },
        Some(NetworkEvent::PeerDisconnected { peer_id }) => peer != peer_id && before.is_connected(
            peer,
        ),
        _ => before.is_connected(peer),
    }
}

/// Whether the connections of the manager have changed from `before` to
/// `after` as the event that the endpoint reported asks, and in no other
/// way: see `connected_after`.
pub open spec fn connections_follow(
    before: PlmView,
    heard: Option<NetworkEvent>,
    after: PlmView,
) -> bool {
    forall|peer: PeerId| #[trigger] after.is_connected(peer) == connected_after(before, heard, peer)
}

/// How a booting node and the fabric change with a poll: the node has
/// dialed every bootnode, itself too if it is its own bootnode, and is
/// `Connecting`. Nothing else about the node has changed.
pub open spec fn booting_step(
    pre: NodeView,
    pre_net: NetView,
    post: NodeView,
    post_net: NetView,
    result: NetworkResult<Option<NodeEvent>>,
) -> bool {
    &&& post == (NodeView { state: NodeState::Connecting, ..pre })
    &&& dialed_all(pre_net, post_net, pre.identity, pre.bootnodes)
    &&& result == Ok::<Option<NodeEvent>, NetworkError>(Some(NodeEvent::Noop))
}

/// Whether a poll ends on a dial that the manager asked for and that cannot
/// be made.
pub open spec fn ends_on_lost_dial(
    polled: NodeView,
    pre_net: NetView,
    asked: Option<PeerListManagerEvent>,
) -> bool {
    match asked {
        Some(event) => dial_is_lost(polled, pre_net, event),
        None => false,
    }
}

/// A poll of a connecting node at time `now`, with what the manager asked
/// for, what the endpoint reported, and the node and fabric as they stood
/// once the manager's wish was carried out.
///
/// The manager is polled first and what it asks for is carried out. A dial
/// that cannot be made ends the poll with `PeerNotFound`, and the endpoint
/// is not polled. Otherwise the endpoint is polled and the node reacts to
/// what it reports. The result names what the endpoint reported; where it
/// reported nothing the result is `Noop` if the manager asked for
/// something, and nothing if not. The connections of the manager change as
/// the endpoint's event asks and in no other way.
pub open spec fn connecting_via(
    pre: NodeView,
    pre_net: NetView,
    now: SimTime,
    asked: Option<PeerListManagerEvent>,
    heard: Option<NetworkEvent>,
    mid: NodeView,
    mid_net: NetView,
    post: NodeView,
    post_net: NetView,
    result: NetworkResult<Option<NodeEvent>>,
) -> bool {
    let polled = pre.with_plm(pre.plm.after_poll(now));
    &&& pre.plm.poll_admits(now, asked)
    &&& match asked {
        Some(event) => plm_step(polled, pre_net, event, mid, mid_net),
        None => mid == polled && mid_net == pre_net,
    }
    &&& heard == if ends_on_lost_dial(polled, pre_net, asked) {
        None
    } else {
        poll_result(mid_net, mid.identity)
    }
    &&& connections_follow(pre.plm, heard, post.plm)
    &&& if ends_on_lost_dial(polled, pre_net, asked) {
        &&& post == mid
        &&& post_net == mid_net
        &&& result == Err::<Option<NodeEvent>, NetworkError>(NetworkError::PeerNotFound)
    } else {
        let listening = NodeView {
            established: poll_established(mid_net, mid.identity, mid.established),
            ..mid
        };
        let listening_net = poll_fabric(mid_net, mid.identity);
        match heard {
            Some(event) => {
                &&& network_step(listening, listening_net, event, post, post_net)
                &&& result == Ok::<Option<NodeEvent>, NetworkError>(Some(report_for(event)))
            },
            None => {
                &&& post == listening
                &&& post_net == listening_net
                &&& result == Ok::<Option<NodeEvent>, NetworkError>(
                    if asked is Some {
                        Some(NodeEvent::Noop)
                    } else {
                        None
                    },
                )
            },
        }
    }
}

/// What a poll of a node did.
#[derive(Debug, PartialEq, Eq)]
pub struct PollReport {
    /// What the manager asked for, if it asked for anything.
    pub asked: Option<PeerListManagerEvent>,
    /// What the endpoint reported, if it reported anything.
    pub heard: Option<NetworkEvent>,
    /// What the node reports in turn, or the error on which the poll ended.
    pub result: NetworkResult<Option<NodeEvent>>,
}

/// How a node and the fabric change with a poll at time `now` of which
/// `report` tells. A booting node boots and a connecting node does what
/// `connecting_via` says; neither the manager nor the endpoint of a booting
/// node is polled. In the reserved states a poll changes nothing and reports
/// nothing.
pub open spec fn report_step(
    pre: NodeView,
    pre_net: NetView,
    now: SimTime,
    post: NodeView,
    post_net: NetView,
    report: PollReport,
) -> bool {
    match pre.state {
        NodeState::Booting => {
            &&& report.asked is None
            &&& report.heard is None
            &&& booting_step(pre, pre_net, post, post_net, report.result)
        },
        NodeState::Connecting => exists|mid: NodeView, mid_net: NetView| #[trigger]
            connecting_via(
                pre,
                pre_net,
                now,
                report.asked,
                report.heard,
                mid,
                mid_net,
                post,
                post_net,
                report.result,
            ),
        _ => {
            &&& report.asked is None
            &&& report.heard is None
            &&& post == pre
            &&& post_net == pre_net
            &&& report.result == Ok::<Option<NodeEvent>, NetworkError>(None)
        },
    }
}

/// How a node and the fabric change with a poll at time `now` that ends in
/// `result`: see `report_step`.
pub open spec fn poll_step(
    pre: NodeView,
    pre_net: NetView,
    now: SimTime,
    post: NodeView,
    post_net: NetView,
    result: NetworkResult<Option<NodeEvent>>,
) -> bool {
    exists|report: PollReport|
        report.result == result && #[trigger] report_step(pre, pre_net, now, post, post_net, report)
}

/// What a poll leaves alone whatever happens: who the node is and where,
/// whom it boots from, how much it gossips, whom the fabric knows, the
/// fabric's clock and settings and the connections that the endpoint has
/// reported.
pub open spec fn poll_keeps(pre: NodeView, pre_net: NetView, post: NodeView, post_net: NetView) -> bool {
    &&& post.identity == pre.identity
    &&& post.bootnodes == pre.bootnodes
    &&& post.exchange_peers == pre.exchange_peers
    &&& post.address == pre.address
    &&& post.endpoint == pre.endpoint
    &&& post_net.clients.dom() == pre_net.clients.dom()
    &&& post_net.now == pre_net.now
    &&& post_net.config == pre_net.config
    &&& pre.established.subset_of(post.established)
}

/// A node of the simulation: an endpoint on the fabric, a peer-list
/// manager, a storage sink and the configuration they were built from.
pub struct Node {
    config: NodeConfig,
    network: SimNetworkClient,
    storage: SimStorage,
    peer_list_manager: SimplePeerListManager,
    state: NodeState,
}

impl View for Node {
    type V = NodeView;

    closed spec fn view(&self) -> NodeView {
        NodeView {
            identity: self.config.identity,
            state: self.state,
            plm: self.peer_list_manager@,
            established: self.network.established(),
            bootnodes: self.config.bootnodes@.map_values(|address: NodeAddress| address.0),
            exchange_peers: self.config.peer_list_manager.exchange_peers,
            address: self.config.address@,
            endpoint: self.network.home().1@,
        }
    }
}

/// A well-formed node does not track itself, so it never holds itself as
/// connected and its manager never asks it to dial itself.
pub proof fn lemma_node_never_tracks_itself(node: NodeView, now: SimTime)
    requires
        node.wf(),
    ensures
        !node.plm.tracks(node.identity),
        !node.plm.is_connected(node.identity),
        !node.plm.connected().contains(node.identity),
        !node.plm.poll_admits(now, Some(PeerListManagerEvent::Dial(node.identity))),
{
    if node.plm.tracks(node.identity) {
        let i = node.plm.position(node.identity);
        assert(!node.plm.excluded.contains(node.plm.peers[i].peer_id));
    }
    lemma_connected_ids(node.plm.peers);
    if node.plm.dials(now) {
        let i = choose|i: int|
            0 <= i < node.plm.peers.len() && (#[trigger] node.plm.peers[i]).info.state
                is Disconnected;
        lemma_has_first_disconnected(node.plm, i);
        let first = node.plm.first_disconnected();
        assert(node.plm.is_first_disconnected(first));
        assert(!node.plm.excluded.contains(node.plm.peers[first].peer_id));
    }
}

/// A manager whose connections have changed as an event of the endpoint
/// asks, and in no other way, holds no peer as connected for which the
/// endpoint has not reported a connection, if that was so before.
proof fn lemma_linked_follows(node: NodeView, heard: Option<NetworkEvent>, after: PlmView)
    requires
        node.linked(),
        is_backed(node, heard),
        connections_follow(node.plm, heard, after),
    ensures
        node.with_plm(after).linked(),
{
    assert forall|peer: PeerId| #[trigger] after.is_connected(peer) implies node.established.contains(
        peer,
    ) by {
        assert(connected_after(node.plm, heard, peer));
        if node.plm.is_connected(peer) {
        }
    }
}

/// How the connections of a manager change when the node reacts to an
/// event of its endpoint: as `connected_after` says.
pub proof fn lemma_network_step_changes_connections(
    pre: NodeView,
    pre_net: NetView,
    event: NetworkEvent,
    post: NodeView,
    post_net: NetView,
)
    requires
        pre.plm.wf(),
        network_step(pre, pre_net, event, post, post_net),
    ensures
        post.plm.wf(),
        post.plm.excluded == pre.plm.excluded,
        connections_follow(pre.plm, Some(event), post.plm),
{
    assert forall|peer: PeerId| #[trigger] post.plm.is_connected(peer) == connected_after(
        pre.plm,
        Some(event),
        peer,
    ) by {
        match event {
            NetworkEvent::OutboundEstablished { peer_id } => {
                lemma_connected_after_connection(pre.plm, peer_id, peer);
            },
            NetworkEvent::InboundEstablished { peer_id } => {
                lemma_connected_after_connection(pre.plm, peer_id, peer);
            },
            NetworkEvent::OutboundFailure { peer_id } => {
                lemma_connected_after_lost_dial(pre.plm, peer_id, peer);
            },
            NetworkEvent::PeerDisconnected { peer_id } => {
                lemma_connected_after_loss(pre.plm, peer_id, peer);
            },
            NetworkEvent::MessageReceived { peer_id, message } => {
                match message {
                    ProtocolMessage::PeerList { peers } => {
                        lemma_connected_after_register_all(pre.plm, peers@, peer);
                    },
                    ProtocolMessage::Data { bytes } => {},
                }
            },
        }
    }
    let me = pre.identity;
    match event {
        NetworkEvent::OutboundEstablished { peer_id } => {
            lemma_connected_after_connection(pre.plm, peer_id, me);
        },
        NetworkEvent::InboundEstablished { peer_id } => {
            lemma_connected_after_connection(pre.plm, peer_id, me);
        },
        NetworkEvent::OutboundFailure { peer_id } => {
            lemma_connected_after_lost_dial(pre.plm, peer_id, me);
        },
        NetworkEvent::PeerDisconnected { peer_id } => {
            lemma_connected_after_loss(pre.plm, peer_id, me);
        },
        NetworkEvent::MessageReceived { peer_id, message } => {
            match message {
                ProtocolMessage::PeerList { peers } => {
                    lemma_connected_after_register_all(pre.plm, peers@, me);
                },
                ProtocolMessage::Data { bytes } => {},
            }
        },
    }
}

/// No wish of the manager changes who is held as connected when the node
/// carries it out.
pub proof fn lemma_plm_step_keeps_connections(
    pre: NodeView,
    pre_net: NetView,
    event: PeerListManagerEvent,
    post: NodeView,
    post_net: NetView,
)
    requires
        pre.plm.wf(),
        plm_step(pre, pre_net, event, post, post_net),
    ensures
        post.plm.wf(),
        post.plm.excluded == pre.plm.excluded,
        connections_follow(pre.plm, None, post.plm),
{
    assert forall|peer: PeerId| #[trigger] post.plm.is_connected(peer) == pre.plm.is_connected(
        peer,
    ) by {
        if let PeerListManagerEvent::Dial(target) = event {
            lemma_connected_after_lost_dial(pre.plm, target, peer);
        }
    }
    if let PeerListManagerEvent::Dial(target) = event {
        lemma_connected_after_lost_dial(pre.plm, target, target);
    }
}

impl Node {
    /// The configuration that the node was built from.
    pub closed spec fn settings(&self) -> NodeConfig {
        self.config
    }

    /// The node's storage sink.
    pub closed spec fn sink(&self) -> SimStorage {
        self.storage
    }

    /// The generator that the node's endpoint holds.
    pub closed spec fn endpoint_generator(&self) -> SimRng {
        self.network.generator()
    }

    /// The generator from which the node's manager draws.
    pub closed spec fn manager_generator(&self) -> SimRng {
        self.peer_list_manager.generator()
    }

    /// The endpoint is well-formed and is registered under the node's
    /// identity.
    pub closed spec fn inv(&self) -> bool {
        self.network.wf() && self.network.id() == self.config.identity
    }

    /// The node's invariant.
    pub open spec fn wf(&self) -> bool {
        self.inv() && self@.wf()
    }

    /// A builder to which no part of the node has been given yet.
    pub fn builder() -> (builder: NodeBuilder)
        ensures
            builder.given_config() is None,
            builder.given_network() is None,
            builder.given_manager() is None,
            !builder.has_storage(),
    {
        NodeBuilder::new()
    }

    pub fn config_builder() -> (builder: NodeConfigBuilder)
        ensures
            builder.bootnodes() == Seq::<NodeAddress>::empty(),
            builder.identity() is None,
            builder.address() is None,
    {
        NodeConfigBuilder::new()
    }

    /// The configuration that the node was built from, as a whole.
    pub fn config(&self) -> (config: &NodeConfig)
        ensures
            *config == self.settings(),
            config.identity == self@.identity,
            config.bootnodes@.map_values(|address: NodeAddress| address.0) == self@.bootnodes,
            config.peer_list_manager.exchange_peers == self@.exchange_peers,
            config.address@ == self@.address,
    {
        &self.config
    }

    /// The peers that the node's manager holds as connected, in the order in
    /// which it first heard of them.
    pub fn connections(&self) -> (connected: Vec<PeerId>)
        requires
            self.wf(),
        ensures
            connected@ == self@.plm.connected(),
    {
        self.peer_list_manager.connections()
    }

    pub fn identity(&self) -> (identity: &PeerId)
        ensures
            *identity == self@.identity,
    {
        self.config.identity()
    }

    pub fn state(&self) -> (state: NodeState)
        ensures
            state == self@.state,
    {
        self.state
    }

    /// The node's peer-list manager, to look at.
    pub fn peer_list_manager(&self) -> (manager: &SimplePeerListManager)
        ensures
            manager@ == self@.plm,
            manager.generator() == self.manager_generator(),
    {
        &self.peer_list_manager
    }

    /// The node's endpoint, to look at.
    pub fn network(&self) -> (endpoint: &SimNetworkClient)
        ensures
            endpoint.established() == self@.established,
            endpoint.home().1@ == self@.endpoint,
            endpoint.generator() == self.endpoint_generator(),
    {
        &self.network
    }

    /// Whether the node can boot on the fabric: see `can_boot`.
    pub fn ready_to_boot(&self, fabric: &SimNetwork) -> (ready: bool)
        requires
            self.wf(),
        ensures
            ready == can_boot(self@, fabric@),
    {
        if !fabric.is_registered(self.config.identity) {
            return false;
        }
        let ghost ids = self@.bootnodes;
        let mut i: usize = 0;
        while i < self.config.bootnodes.len()
            invariant
                i <= self.config.bootnodes.len(),
                ids == self@.bootnodes,
                ids.len() == self.config.bootnodes.len(),
                fabric@.clients.contains_key(self@.identity),
                forall|j: int|
                    0 <= j < i ==> {
                        &&& fabric@.clients.contains_key(#[trigger] ids[j])
                        &&& !self@.established.contains(ids[j])
                    },
            decreases self.config.bootnodes.len() - i,
        {
            let peer_id = self.config.bootnodes[i].0;
            assert(ids[i as int] == peer_id);
            if !fabric.is_registered(peer_id) || self.network.is_connected(peer_id) {
                return false;
            }
            i += 1;
        }
        true
    }

    /// Sends `peer_id` a sample of the connected peers. A send that fails is
    /// dropped: the peer may have gone in the meantime.
    fn gossip_to(&mut self, fabric: &mut SimNetwork, peer_id: PeerId)
        requires
            old(self).wf(),
            old(fabric).wf(),
        ensures
            final(self).settings() == old(self).settings(),
            final(self).sink() == old(self).sink(),
            final(self).endpoint_generator() == old(self).endpoint_generator(),
            final(self).wf(),
            final(fabric).wf(),
            final(self)@ == old(self)@,
            gossiped(
                old(fabric)@,
                final(fabric)@,
                old(self)@.identity,
                peer_id,
                old(self)@.established,
                old(self)@.plm,
                old(self)@.exchange_peers,
            ),
            poll_keeps(old(self)@, old(fabric)@, final(self)@, final(fabric)@),
    {
        let peers = self.peer_list_manager.get_random_peers(
            self.config.peer_list_manager.exchange_peers,
        );
        let message = ProtocolMessage::PeerList { peers };
        let sent = self.network.send(fabric, peer_id, message);
        proof {
            if sent is Ok {
                let pre = old(fabric)@;
                let post = fabric@;
                assert(post.inbox(peer_id).last() == (old(self)@.identity, message));
                assert(post.clients.dom() =~= pre.clients.dom());
            }
        }
    }

    /// Carries out what the peer-list manager asked for: see `plm_step`. The
    /// answer is `PeerNotFound` where a dial cannot be made, and `Ok` in
    /// every other case; a dial to a peer to which a connection stands
    /// already counts as made and changes nothing.
    pub fn on_plm_event(&mut self, fabric: &mut SimNetwork, event: PeerListManagerEvent) -> (result:
        NetworkResult<()>)
        requires
            old(self).wf(),
            old(fabric).wf(),
        ensures
            final(self).settings() == old(self).settings(),
            final(self).sink() == old(self).sink(),
            final(self).endpoint_generator() == old(self).endpoint_generator(),
            final(self).wf(),
            final(fabric).wf(),
            plm_step(old(self)@, old(fabric)@, event, final(self)@, final(fabric)@),
            result == if dial_is_lost(old(self)@, old(fabric)@, event) {
                Err::<(), NetworkError>(NetworkError::PeerNotFound)
            } else {
                Ok::<(), NetworkError>(())
            },
            poll_keeps(old(self)@, old(fabric)@, final(self)@, final(fabric)@),
            final(self)@.state == old(self)@.state,
            connections_follow(old(self)@.plm, None, final(self)@.plm),
            old(self)@.linked() ==> final(self)@.linked(),
    {
        let result = match event {
            PeerListManagerEvent::SyncPeerList(peer_id) => {
                self.gossip_to(fabric, peer_id);
                Ok(())
            },
            PeerListManagerEvent::Dial(peer_id) => {
                match self.network.connect(fabric, peer_id) {
                    Ok(_) => Ok(()),
                    Err(NetworkError::AlreadyConnected(_)) => Ok(()),
                    Err(e) => {
                        self.abandon_dial(peer_id);
                        Err(e)
                    },
                }
            },
            PeerListManagerEvent::Disconnect(peer_id) => {
                let _ = self.network.disconnect(fabric, peer_id);
                Ok(())
            },
            PeerListManagerEvent::PeerAdded(_, _) => Ok(()),
            PeerListManagerEvent::PeerRemoved(_) => Ok(()),
            PeerListManagerEvent::PeerReputationUpdated(_, _) => Ok(()),
        };
        proof {
            lemma_plm_step_keeps_connections(
                old(self)@,
                old(fabric)@,
                event,
                self@,
                fabric@,
            );
            if old(self)@.linked() {
                lemma_linked_follows(old(self)@, None, self@.plm);
            }
        }
        result
    }

    /// Has the manager give up the dial to the peer: see
    /// `PlmView::abandon_dial`.
    fn abandon_dial(&mut self, peer_id: PeerId)
        requires
            old(self).wf(),
        ensures
            final(self).settings() == old(self).settings(),
            final(self).sink() == old(self).sink(),
            final(self).endpoint_generator() == old(self).endpoint_generator(),
            final(self).wf(),
            final(self)@ == old(self)@.with_plm(old(self)@.plm.abandon_dial(peer_id)),
    {
        let dialing = match self.peer_list_manager.peer_info(peer_id) {
            Some(info) => match info.state {
                PeerState::Dialing(_) => true,
                _ => false,
            },
            None => false,
        };
        if dialing {
            self.peer_list_manager.remove_peer(&peer_id);
        }
    }

    /// Tells the manager that the dial to the peer has failed: see
    /// `PlmView::dial_failed`.
    fn note_failed_dial(&mut self, peer_id: PeerId)
        requires
            old(self).wf(),
        ensures
            final(self).settings() == old(self).settings(),
            final(self).sink() == old(self).sink(),
            final(self).endpoint_generator() == old(self).endpoint_generator(),
            final(self).wf(),
            final(self)@ == old(self)@.with_plm(old(self)@.plm.dial_failed(peer_id)),
    {
        let connected = match self.peer_list_manager.peer_info(peer_id) {
            Some(info) => match info.state {
                PeerState::Connected => true,
                _ => false,
            },
            None => false,
        };
        if !connected {
            self.peer_list_manager.register_peer(peer_id);
            self.peer_list_manager.register_peer_disconnected(peer_id);
        }
    }

    /// Registers every peer of the list with the manager.
    fn learn_peers(&mut self, peers: &Vec<PeerId>)
        requires
            old(self).wf(),
        ensures
            final(self).settings() == old(self).settings(),
            final(self).sink() == old(self).sink(),
            final(self).endpoint_generator() == old(self).endpoint_generator(),
            final(self).wf(),
            final(self)@ == old(self)@.with_plm(old(self)@.plm.register_all(peers@)),
    {
        let mut i: usize = 0;
        assert(peers@.take(0) =~= Seq::<PeerId>::empty());
        while i < peers.len()
            invariant
                i <= peers.len(),
                self.wf(),
                self.settings() == old(self).settings(),
                self.sink() == old(self).sink(),
                self.endpoint_generator() == old(self).endpoint_generator(),
                self@ == old(self)@.with_plm(old(self)@.plm.register_all(peers@.take(i as int))),
            decreases peers.len() - i,
        {
            proof {
                let next = peers@.take(i + 1);
                assert(next.drop_last() =~= peers@.take(i as int));
                assert(next.last() == peers@[i as int]);
            }
            self.peer_list_manager.register_peer(peers[i]);
            i += 1;
        }
        assert(peers@.take(peers.len() as int) =~= peers@);
    }

    /// Reacts to what the endpoint reported: see `network_step`. The answer
    /// is what the node reports in turn.
    pub fn on_network_event(&mut self, fabric: &mut SimNetwork, event: &NetworkEvent) -> (reported:
        NodeEvent)
        requires
            old(self).wf(),
            old(fabric).wf(),
        ensures
            final(self).settings() == old(self).settings(),
            final(self).sink() == old(self).sink(),
            final(self).endpoint_generator() == old(self).endpoint_generator(),
            final(self).wf(),
            final(fabric).wf(),
            network_step(old(self)@, old(fabric)@, *event, final(self)@, final(fabric)@),
            reported == report_for(*event),
            poll_keeps(old(self)@, old(fabric)@, final(self)@, final(fabric)@),
            final(self)@.state == old(self)@.state,
            connections_follow(old(self)@.plm, Some(*event), final(self)@.plm),
            old(self)@.linked() && is_backed(old(self)@, Some(*event)) ==> final(self)@.linked(),
    {
        let reported = match event {
            NetworkEvent::InboundEstablished { peer_id } => {
                self.peer_list_manager.register_peer_connected(*peer_id);
                self.gossip_to(fabric, *peer_id);
                NodeEvent::InboundEstablished { peer_id: *peer_id }
            },
            NetworkEvent::PeerDisconnected { peer_id } => {
                self.peer_list_manager.register_peer_disconnected(*peer_id);
                NodeEvent::PeerDisconnected { peer_id: *peer_id }
            },
            NetworkEvent::MessageReceived { peer_id, message } => {
                match message {
                    ProtocolMessage::PeerList { peers } => {
                        self.learn_peers(peers);
                    },
                    ProtocolMessage::Data { bytes } => {},
                }
                NodeEvent::Noop
            },
            NetworkEvent::OutboundEstablished { peer_id } => {
                self.peer_list_manager.register_peer_connected(*peer_id);
                NodeEvent::Noop
            },
            NetworkEvent::OutboundFailure { peer_id } => {
                self.note_failed_dial(*peer_id);
                NodeEvent::Noop
            },
        };
        proof {
            lemma_network_step_changes_connections(
                old(self)@,
                old(fabric)@,
                *event,
                self@,
                fabric@,
            );
            if old(self)@.linked() && is_backed(old(self)@, Some(*event)) {
                lemma_linked_follows(old(self)@, Some(*event), self@.plm);
            }
        }
        reported
    }
}

/// Collects the parts of a node. All four have to be given.
pub struct NodeBuilder {
    config: Option<NodeConfig>,
    network: Option<SimNetworkClient>,
    storage: Option<SimStorage>,
    peer_list_manager: Option<SimplePeerListManager>,
}

impl Default for NodeBuilder {
    fn default() -> (builder: NodeBuilder)
        ensures
            !builder.complete(),
    {
        NodeBuilder::new()
    }
}

impl NodeBuilder {
    /// The configuration, if one was given.
    pub closed spec fn given_config(&self) -> Option<NodeConfig> {
        self.config
    }

    /// The endpoint, if one was given.
    pub closed spec fn given_network(&self) -> Option<SimNetworkClient> {
        self.network
    }

    /// The peer-list manager, if one was given.
    pub closed spec fn given_manager(&self) -> Option<SimplePeerListManager> {
        self.peer_list_manager
    }

    /// The storage sink, if one was given.
    pub closed spec fn given_storage(&self) -> Option<SimStorage> {
        self.storage
    }

    /// Whether a storage sink was given.
    pub open spec fn has_storage(&self) -> bool {
        self.given_storage() is Some
    }

    /// Whether all four parts were given.
    pub open spec fn complete(&self) -> bool {
        &&& self.given_config() is Some
        &&& self.given_network() is Some
        &&& self.given_manager() is Some
        &&& self.has_storage()
    }

    /// Whether the parts fit: the endpoint and the manager are well-formed
    /// and the endpoint is registered under the identity of the
    /// configuration.
    pub open spec fn fitting(&self) -> bool {
        &&& self.complete()
        &&& self.given_network()->0.wf()
        &&& self.given_manager()->0@.wf()
        &&& self.given_network()->0.id() == self.given_config()->0.identity
    }

    pub fn new() -> (builder: NodeBuilder)
        ensures
            builder.given_config() is None,
            builder.given_network() is None,
            builder.given_manager() is None,
            !builder.has_storage(),
    {
        NodeBuilder { network: None, storage: None, peer_list_manager: None, config: None }
    }

    pub fn network(self, network: SimNetworkClient) -> (builder: NodeBuilder)
        ensures
            builder.given_network() == Some(network),
            builder.given_config() == self.given_config(),
            builder.given_manager() == self.given_manager(),
            builder.given_storage() == self.given_storage(),
    {
        let mut builder = self;
        builder.network = Some(network);
        builder
    }

    pub fn storage(self, storage: SimStorage) -> (builder: NodeBuilder)
        ensures
            builder.given_storage() == Some(storage),
            builder.given_config() == self.given_config(),
            builder.given_network() == self.given_network(),
            builder.given_manager() == self.given_manager(),
    {
        let mut builder = self;
        builder.storage = Some(storage);
        builder
    }

    pub fn with_node_config(self, config: NodeConfig) -> (builder: NodeBuilder)
        ensures
            builder.given_config() == Some(config),
            builder.given_network() == self.given_network(),
            builder.given_manager() == self.given_manager(),
            builder.given_storage() == self.given_storage(),
    {
        let mut builder = self;
        builder.config = Some(config);
        builder
    }

    pub fn peer_list_manager(self, peer_list_manager: SimplePeerListManager) -> (builder: NodeBuilder)
        ensures
            builder.given_manager() == Some(peer_list_manager),
            builder.given_config() == self.given_config(),
            builder.given_network() == self.given_network(),
            builder.given_storage() == self.given_storage(),
    {
        let mut builder = self;
        builder.peer_list_manager = Some(peer_list_manager);
        builder
    }

    /// Whether the parts are all there and the endpoint is registered under
    /// the identity of the configuration.
    pub fn is_ready(&self) -> (ready: bool)
        ensures
            ready == (self.complete() && self.given_network()->0.id()
                == self.given_config()->0.identity),
    {
        match (&self.config, &self.network) {
            (Some(config), Some(network)) => {
                self.storage.is_some() && self.peer_list_manager.is_some() && network.peer_id()
                    == config.identity
            },
            _ => false,
        }
    }

    /// The node, in state `Booting`. Its manager is the one that was given
    /// with the node's own identity excluded, so that the node never tracks
    /// or dials itself.
    pub fn build(self) -> (node: Node)
        requires
            self.fitting(),
        ensures
            node.wf(),
            node@.identity == self.given_config()->0.identity,
            node@.state is Booting,
            node@.plm == self.given_manager()->0@.exclude(node@.identity),
            node@.established == self.given_network()->0.established(),
            node@.bootnodes == self.given_config()->0.bootnodes@.map_values(
                |address: NodeAddress| address.0,
            ),
            node@.exchange_peers == self.given_config()->0.peer_list_manager.exchange_peers,
            node@.address == self.given_config()->0.address@,
            node@.endpoint == self.given_network()->0.home().1@,
            node.settings() == self.given_config()->0,
            node.sink() == self.given_storage()->0,
            node.endpoint_generator() == self.given_network()->0.generator(),
            node.manager_generator() == self.given_manager()->0.generator(),
            (forall|peer: PeerId| #[trigger]
                self.given_manager()->0@.is_connected(peer)
                    ==> self.given_network()->0.established().contains(peer)) ==> node@.linked(),
    {
        let config = self.config.unwrap();
        let mut peer_list_manager = self.peer_list_manager.unwrap();
        let ghost given = peer_list_manager@;
        peer_list_manager.exclude_peer(*config.identity());
        let node = Node {
            state: NodeState::default(),
            config,
            network: self.network.unwrap(),
            storage: self.storage.unwrap(),
            peer_list_manager,
        };
        proof {
            assert forall|peer: PeerId| #[trigger] node@.plm.is_connected(peer) implies given.is_connected(
                peer,
            ) by {
                lemma_connected_after_remove(given, node@.identity, peer);
            }
        }
        node
    }
}

impl Node {
    /// Dials every bootnode, in the order of the configuration, and moves
    /// on to `Connecting`. That every dial is accepted is the caller's duty:
    /// see `can_boot`.
    fn poll_booting(&mut self, fabric: &mut SimNetwork) -> (result: NetworkResult<Option<NodeEvent>>)
        requires
            old(self).wf(),
            old(fabric).wf(),
            old(self)@.state is Booting,
            can_boot(old(self)@, old(fabric)@),
        ensures
            final(self).settings() == old(self).settings(),
            final(self).sink() == old(self).sink(),
            final(self).endpoint_generator() == old(self).endpoint_generator(),
            final(self).wf(),
            final(fabric).wf(),
            booting_step(old(self)@, old(fabric)@, final(self)@, final(fabric)@, result),
            poll_keeps(old(self)@, old(fabric)@, final(self)@, final(fabric)@),
            old(self)@.linked() ==> final(self)@.linked(),
    {
        let ghost ids = self@.bootnodes;
        let ghost me = self@.identity;
        let mut i: usize = 0;
        assert(fabric@.pending.subrange(0, fabric@.pending.len() as int) =~= fabric@.pending);
        while i < self.config.bootnodes.len()
            invariant
                i <= self.config.bootnodes.len(),
                self.wf(),
                fabric.wf(),
                self.sink() == old(self).sink(),
                self.endpoint_generator() == old(self).endpoint_generator(),
                self.settings() == old(self).settings(),
                self@ == old(self)@,
                ids == self@.bootnodes,
                me == self@.identity,
                ids.len() == self.config.bootnodes.len(),
                can_boot(old(self)@, old(fabric)@),
                dialed_all(old(fabric)@, fabric@, me, ids.take(i as int)),
            decreases self.config.bootnodes.len() - i,
        {
            let peer_id = self.config.bootnodes[i].0;
            let ghost before = fabric@;
            let ghost targets = ids.take(i as int);
            proof {
                assert(ids[i as int] == peer_id);
                assert(ids.take(i + 1) =~= targets.push(peer_id));
            }
            match self.network.connect(fabric, peer_id) {
                Ok(_) => {
                    proof {
                        let start = old(fabric)@.pending.len() as int;
                        let after = fabric@;
                        assert(after.pending.subrange(0, start) =~= old(fabric)@.pending) by {
                            assert(before.pending.subrange(0, start) == old(fabric)@.pending);
                        }
                        assert forall|k: int| 0 <= k < targets.push(peer_id).len() implies {
                            let dial = #[trigger] after.pending[start + k];
                            &&& dial.outcome.from() == me
                            &&& dial.outcome.to() == targets.push(peer_id)[k]
                            &&& dial.scheduled_at == old(fabric)@.now
                            &&& old(fabric)@.config.admits_delay(dial.delay)
                        } by {
                            if k < targets.len() {
                                assert(after.pending[start + k] == before.pending[start + k]);
                            }
                        }
                    }
                },
                Err(_) => {
                    assert(false);
                },
            }
            i += 1;
        }
        assert(ids.take(ids.len() as int) =~= ids);
        self.state = NodeState::Connecting;
        Ok(Some(NodeEvent::Noop))
    }

    /// Polls the manager and the endpoint once each and acts on what they
    /// say: see `connecting_via`.
    fn poll_connecting(&mut self, fabric: &mut SimNetwork, now: SimTime) -> (report: PollReport)
        requires
            old(self).wf(),
            old(fabric).wf(),
            old(self)@.state is Connecting,
        ensures
            final(self).settings() == old(self).settings(),
            final(self).sink() == old(self).sink(),
            final(self).endpoint_generator() == old(self).endpoint_generator(),
            final(self).wf(),
            final(fabric).wf(),
            report_step(old(self)@, old(fabric)@, now, final(self)@, final(fabric)@, report),
            poll_keeps(old(self)@, old(fabric)@, final(self)@, final(fabric)@),
            old(self)@.linked() ==> final(self)@.linked(),
    {
        let ghost pre = self@;
        let ghost pre_net = fabric@;
        proof {
            assert forall|peer: PeerId| #[trigger]
                pre.plm.after_poll(now).is_connected(peer) == pre.plm.is_connected(peer) by {
                lemma_connected_after_poll(pre.plm, now, peer);
            }
            lemma_connected_after_poll(pre.plm, now, pre.identity);
        }
        let asked = self.peer_list_manager.poll(now);
        let ghost polled = self@;
        assert(polled == pre.with_plm(pre.plm.after_poll(now)));
        match asked {
            Some(event) => {
                match self.on_plm_event(fabric, event) {
                    Ok(_) => {},
                    Err(e) => {
                        let report = PollReport { asked, heard: None, result: Err(e) };
                        assert(connecting_via(
                            pre,
                            pre_net,
                            now,
                            report.asked,
                            report.heard,
                            self@,
                            fabric@,
                            self@,
                            fabric@,
                            report.result,
                        ));
                        return report;
                    },
                }
            },
            None => {},
        }
        let ghost mid = self@;
        let ghost mid_net = fabric@;
        let heard = self.network.poll(fabric);
        let ghost listening = self@;
        proof {
            assert(fabric@.clients.dom() =~= mid_net.clients.dom());
            assert(mid.established.subset_of(listening.established));
            assert(is_backed(listening, heard));
        }
        let result = match &heard {
            Some(event) => Some(self.on_network_event(fabric, event)),
            None => if asked.is_some() {
                Some(NodeEvent::Noop)
            } else {
                None
            },
        };
        let report = PollReport { asked, heard, result: Ok(result) };
        proof {
            assert forall|peer: PeerId| #[trigger] self@.plm.is_connected(peer) == connected_after(
                pre.plm,
                report.heard,
                peer,
            ) by {
                assert(mid.plm.is_connected(peer) == polled.plm.is_connected(peer));
                assert(polled.plm.is_connected(peer) == pre.plm.is_connected(peer));
                assert(self@.plm.is_connected(peer) == connected_after(
                    mid.plm,
                    report.heard,
                    peer,
                ));
            }
            assert(connecting_via(
                pre,
                pre_net,
                now,
                report.asked,
                report.heard,
                mid,
                mid_net,
                self@,
                fabric@,
                report.result,
            ));
        }
        report
    }

    /// Moves the node on by one step at time `now` and tells what the step
    /// did: see `report_step`.
    ///
    /// A booting node dials its bootnodes and reports `Noop`. A connecting
    /// node polls its manager and its endpoint once each and acts on what
    /// they say; the report holds what the manager asked for and what the
    /// endpoint reported. The result is an error only where the manager
    /// asked for a dial that cannot be made. Whatever happens, the manager
    /// holds no peer as connected for which the endpoint has not reported a
    /// connection, if that was so before.
    pub fn poll_reported(&mut self, fabric: &mut SimNetwork, now: SimTime) -> (report: PollReport)
        requires
            old(self).wf(),
            old(fabric).wf(),
            old(self)@.state is Booting ==> can_boot(old(self)@, old(fabric)@),
        ensures
            final(self).settings() == old(self).settings(),
            final(self).sink() == old(self).sink(),
            final(self).endpoint_generator() == old(self).endpoint_generator(),
            final(self).wf(),
            final(fabric).wf(),
            report_step(old(self)@, old(fabric)@, now, final(self)@, final(fabric)@, report),
            poll_keeps(old(self)@, old(fabric)@, final(self)@, final(fabric)@),
            old(self)@.linked() ==> final(self)@.linked(),
            !(final(self)@.state is Booting),
    {
        match self.state {
            NodeState::Booting => {
                let result = self.poll_booting(fabric);
                PollReport { asked: None, heard: None, result }
            },
            NodeState::Connecting => self.poll_connecting(fabric, now),
            NodeState::Joining => {
                let _ = self.storage.poll();
                PollReport { asked: None, heard: None, result: Ok(None) }
            },
            NodeState::Running => {
                let _ = self.storage.poll();
                PollReport { asked: None, heard: None, result: Ok(None) }
            },
            NodeState::Leaving => {
                let _ = self.storage.poll();
                PollReport { asked: None, heard: None, result: Ok(None) }
            },
            NodeState::Stopped => {
                let _ = self.storage.poll();
                PollReport { asked: None, heard: None, result: Ok(None) }
            },
        }
    }

    /// Moves the node on by one step at time `now`: see `poll_step`. The
    /// answer is what `poll_reported` gives as the result.
    pub fn poll(&mut self, fabric: &mut SimNetwork, now: SimTime) -> (result: NetworkResult<
        Option<NodeEvent>,
    >)
        requires
            old(self).wf(),
            old(fabric).wf(),
            old(self)@.state is Booting ==> can_boot(old(self)@, old(fabric)@),
        ensures
            final(self).settings() == old(self).settings(),
            final(self).sink() == old(self).sink(),
            final(self).endpoint_generator() == old(self).endpoint_generator(),
            final(self).wf(),
            final(fabric).wf(),
            poll_step(old(self)@, old(fabric)@, now, final(self)@, final(fabric)@, result),
            poll_keeps(old(self)@, old(fabric)@, final(self)@, final(fabric)@),
            old(self)@.linked() ==> final(self)@.linked(),
            !(final(self)@.state is Booting),
    {
        let report = self.poll_reported(fabric, now);
        report.result
    }
}

} // verus!
