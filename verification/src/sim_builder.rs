use vstd::prelude::*;

use crate::address::memory_address;
use crate::address::memory_path;
use crate::network::sim::NetView;
use crate::network::sim::SimNetwork;
use crate::network::sim::SimNetworkConfig;
use crate::node::Node;
use crate::node::NodeView;
use crate::node::can_boot;
use crate::node_config::NodeConfigBuilder;
use crate::peer_list_manager::laws::lemma_connected_after_remove;
use crate::peer_list_manager::PeerListManagerConfig;
use crate::peer_list_manager::simple::PeerRecord;
use crate::peer_list_manager::simple::SimplePeerListManager;
use crate::rng::GeneratesRngSeed;
use crate::rng::RngSeed;
use crate::rng::SimRng;
use crate::rng::draw_in_range;
use crate::rng::generator_started_from;
use crate::simulation_executor::ExecutorView;
use crate::simulation_executor::JoinView;
use crate::simulation_executor::SimulationExecutor;
use crate::storage::sim::SimStorage;
use crate::timer::IntervalTimer;
use crate::types::PeerId;
use crate::types::SimTime;

verus! {

/// How long after the start the first node may join at the earliest, less
/// the shortest gap: the bootnode gets a head start of one second.
pub const HEAD_START_MS: SimTime = 1000;

/// The shortest gap between two joins, in milliseconds.
pub const JOIN_GAP_MIN_MS: SimTime = 100;

/// The bound that the gap between two joins stays below, in milliseconds.
pub const JOIN_GAP_MAX_MS: SimTime = 500;

/// Whether `node` is a node as the builder makes it: it and its endpoint
/// live at the in-memory path of the given index, it has not booted, tracks
/// nobody, bars itself alone, has no connection yet and boots from
/// `bootnodes`. Its manager has the default settings and both its timers
/// were armed at time zero, so that it first dials after one second and
/// first gossips after two.
pub open spec fn is_fresh_node(node: NodeView, index: nat, bootnodes: Seq<PeerId>) -> bool {
    &&& node.address == memory_path(index)
    &&& node.endpoint == memory_path(index)
    &&& node.state is Booting
    &&& node.bootnodes == bootnodes
    &&& node.plm.peers == Seq::<PeerRecord>::empty()
    &&& node.plm.excluded == Set::<PeerId>::empty().insert(node.identity)
    &&& node.plm.config == PeerListManagerConfig::standard()
    &&& node.plm.gossip_timer == (IntervalTimer { armed_at: 0, interval: 2000 })
    &&& node.plm.dial_timer == (IntervalTimer { armed_at: 0, interval: 1000 })
    &&& node.established == Set::<PeerId>::empty()
    &&& node.exchange_peers == 4
}

/// Whether `sim` is a simulation of one bootnode and `count` nodes as the
/// builder sets it up.
///
/// Nothing has happened yet: the clock is at zero, no node takes part and no
/// dial is under way. The fabric has the default settings and knows the
/// endpoints of these nodes and no other, each with empty queues. The
/// `count` nodes wait in the order of their making and the bootnode waits
/// last. The bootnode lives at `/memory/0`, joins at once and boots from
/// nobody; the node made as number `k`, counted from zero, lives at
/// `/memory/` and `k + 1` and boots from the bootnode alone. The first node
/// joins a second and a gap after the start, each further node a gap after
/// the one before it, and every gap is at least `JOIN_GAP_MIN_MS` and less
/// than `JOIN_GAP_MAX_MS`.
pub open spec fn set_up(sim: ExecutorView, count: nat) -> bool {
    let bootnode = sim.joining[count as int];
    &&& sim.now == 0
    &&& sim.nodes.len() == 0
    &&& sim.network.pending.len() == 0
    &&& sim.network.now == 0
    &&& sim.network.config == SimNetworkConfig::standard()
    &&& sim.joining.len() == count + 1
    &&& bootnode.delay == 0
    &&& is_fresh_node(bootnode.node, 0, Seq::empty())
    &&& forall|k: int|
        0 <= k <= count ==> {
            &&& (#[trigger] sim.joining[k]).scheduled_at == 0
            &&& sim.network.clients.contains_key(sim.joining[k].node.identity)
        }
    &&& forall|k: int|
        0 <= k < count ==> is_fresh_node(
            (#[trigger] sim.joining[k]).node,
            (k + 1) as nat,
            seq![bootnode.node.identity],
        )
    &&& count > 0 ==> is_gap(sim.joining[0].delay - HEAD_START_MS)
    &&& forall|j: int, k: int|
        0 <= j && j + 1 == k && k < count ==> is_gap(
            (#[trigger] sim.joining[k]).delay - (#[trigger] sim.joining[j]).delay,
        )
    &&& knows_only(sim.network, sim.joining, None)
}

/// Whether one of the waiting nodes has this identity.
pub open spec fn is_waiting(joining: Seq<JoinView>, peer: PeerId) -> bool {
    exists|k: int| 0 <= k < joining.len() && (#[trigger] joining[k]).node.identity == peer
}

/// Whether the fabric knows no endpoint but those of the waiting nodes and,
/// if one is named, of `also`, and holds nothing for any of them: no message
/// and no dial event.
pub open spec fn knows_only(net: NetView, joining: Seq<JoinView>, also: Option<PeerId>) -> bool {
    forall|peer: PeerId| #[trigger]
        net.clients.contains_key(peer) ==> {
            &&& also == Some(peer) || is_waiting(joining, peer)
            &&& net.inbox(peer).len() == 0
            &&& net.events(peer).len() == 0
        }
}

/// A fabric that knows the waiting nodes alone still does so when one more
/// node is registered and waits.
proof fn lemma_knows_one_more(
    net: NetView,
    joining: Seq<JoinView>,
    also: Option<PeerId>,
    join: JoinView,
)
    requires
        knows_only(net, joining, also),
    ensures
        knows_only(net.register(join.node.identity), joining.push(join), also),
{
    let more = joining.push(join);
    let after = net.register(join.node.identity);
    assert forall|peer: PeerId| #[trigger] after.clients.contains_key(peer) implies {
        &&& also == Some(peer) || is_waiting(more, peer)
        &&& after.inbox(peer).len() == 0
        &&& after.events(peer).len() == 0
    } by {
        if peer == join.node.identity {
            assert(more[joining.len() as int].node.identity == peer);
        } else {
            assert(net.clients.contains_key(peer));
            if is_waiting(joining, peer) {
                let k = choose|k: int|
                    0 <= k < joining.len() && (#[trigger] joining[k]).node.identity == peer;
                assert(more[k].node.identity == peer);
            }
        }
    }
}

/// A fabric that knows the waiting nodes and one more node knows the waiting
/// nodes alone once that node waits too.
proof fn lemma_knows_the_last(net: NetView, joining: Seq<JoinView>, join: JoinView)
    requires
        knows_only(net, joining, Some(join.node.identity)),
    ensures
        knows_only(net, joining.push(join), None),
{
    let more = joining.push(join);
    assert forall|peer: PeerId| #[trigger] net.clients.contains_key(peer) implies is_waiting(
        more,
        peer,
    ) by {
        if peer == join.node.identity {
            assert(more[joining.len() as int].node.identity == peer);
        } else {
            let k = choose|k: int|
                0 <= k < joining.len() && (#[trigger] joining[k]).node.identity == peer;
            assert(more[k].node.identity == peer);
        }
    }
}

/// Whether two joins may lie this far apart.
pub open spec fn is_gap(gap: int) -> bool {
    JOIN_GAP_MIN_MS <= gap < JOIN_GAP_MAX_MS
}

/// Sets a simulation up from one generator: a fabric, a bootnode and as many
/// further nodes as asked for, each with generators of its own that are
/// split off the one given.
pub struct SimBuilder {
    rng: SimRng,
    node_count: Option<usize>,
}

impl SimBuilder {
    /// The number of nodes beside the bootnode, if it was given.
    pub closed spec fn node_count(&self) -> Option<usize> {
        self.node_count
    }

    /// Whether the simulation can be built: the number of nodes was given
    /// and the time of the last join fits the clock.
    pub open spec fn ready(&self) -> bool {
        self.node_count() matches Some(count) && HEAD_START_MS + JOIN_GAP_MAX_MS * count
            <= u64::MAX
    }

    /// The generator that all generators of the simulation are split off.
    pub closed spec fn generator(&self) -> SimRng {
        self.rng
    }

    /// A builder that draws on the generator started from the root seed.
    /// The number of nodes is still to be given.
    pub fn new(seed: RngSeed) -> (builder: SimBuilder)
        ensures
            builder.generator() == generator_started_from(seed.0),
            builder.node_count() is None,
    {
        SimBuilder::with_rng(SimRng::new(seed))
    }

    /// A builder that draws on `rng`. The number of nodes is still to be
    /// given.
    pub fn with_rng(rng: SimRng) -> (builder: SimBuilder)
        ensures
            builder.generator() == rng,
            builder.node_count() is None,
    {
        SimBuilder { rng, node_count: None }
    }

    /// The same builder for `node_count` nodes beside the bootnode.
    pub fn with_node_count(self, node_count: usize) -> (builder: SimBuilder)
        ensures
            builder.generator() == self.generator(),
            builder.node_count() == Some(node_count),
    {
        let mut builder = self;
        builder.node_count = Some(node_count);
        builder
    }

    /// Whether the simulation can be built: see `ready`.
    pub fn is_ready(&self) -> (ready: bool)
        ensures
            ready == self.ready(),
    {
        match self.node_count {
            Some(count) => {
                let count_wide: u128 = count as u128;
                1000 + 500 * count_wide <= u64::MAX as u128
            },
            None => false,
        }
    }

    /// A node with a fresh identity at the address of the given index that
    /// boots from `bootnodes`, with its endpoint registered on the fabric of
    /// `simulation`.
    fn make_node(
        rng: &mut SimRng,
        simulation: &mut SimulationExecutor,
        index: usize,
        bootnode: Option<PeerId>,
    ) -> (node: Node)
        requires
            old(simulation).wf(),
            bootnode matches Some(peer) ==> old(simulation)@.network.clients.contains_key(peer),
        ensures
            final(simulation).wf(),
            final(simulation).fabric_generator() == old(simulation).fabric_generator(),
            final(simulation)@ == (ExecutorView {
                network: old(simulation)@.network.register(node@.identity),
                ..old(simulation)@
            }),
            node.wf(),
            node@.linked(),
            is_fresh_node(
                node@,
                index as nat,
                match bootnode {
                    Some(peer) => seq![peer],
                    None => Seq::empty(),
                },
            ),
            can_boot(node@, final(simulation)@.network),
    {
        let mut builder = NodeConfigBuilder::new();
        match bootnode {
            Some(peer) => {
                builder = builder.with_bootnode((peer, memory_address(0)));
            },
            None => {},
        }
        let config = builder.with_unique_identity(rng).with_address(memory_address(index)).build();
        let ghost ids = config.bootnodes@.map_values(|address: (PeerId, String)| address.0);
        proof {
            match bootnode {
                Some(peer) => {
                    assert(ids =~= seq![peer]);
                },
                None => {
                    assert(ids =~= Seq::<PeerId>::empty());
                },
            }
        }
        let client = simulation.build_client(rng.next_rng_seed(), config.node_address());
        let storage = SimStorage::build(rng.next_rng_seed());
        let manager = SimplePeerListManager::build(rng.next_rng_seed());
        let ghost given = manager@;
        let node = Node::builder().network(client).storage(storage).peer_list_manager(
            manager,
        ).with_node_config(config).build();
        proof {
            assert(node@.plm.peers =~= Seq::<PeerRecord>::empty());
            assert forall|peer: PeerId| #[trigger] node@.plm.is_connected(peer) implies false by {
                lemma_connected_after_remove(given, node@.identity, peer);
            }
        }
        node
    }

    /// The simulation, ready for its first tick: see `set_up`. The fabric
    /// draws from a generator of its own, freshly started from a seed that
    /// was read from the builder's generator.
    pub fn build(self) -> (simulation: SimulationExecutor)
        requires
            self.ready(),
        ensures
            simulation.wf(),
            simulation@.all_linked(),
            set_up(simulation@, self.node_count()->0 as nat),
            exists|seed: u64|
                simulation.fabric_generator() == #[trigger] generator_started_from(seed),
    {
        let mut rng = self.rng;
        let count = self.node_count.unwrap();
        let network = SimNetwork::build(rng.next_rng_seed());
        let ghost fabric_rng = network.generator();
        let mut simulation = SimulationExecutor::new(network);
        let bootnode = SimBuilder::make_node(&mut rng, &mut simulation, 0, None);
        let bootnode_id = *bootnode.identity();
        let mut time_offset: SimTime = HEAD_START_MS;
        let mut idx: usize = 0;
        while idx < count
            invariant
                idx <= count,
                HEAD_START_MS + JOIN_GAP_MAX_MS * count <= u64::MAX,
                simulation.wf(),
                simulation@.all_linked(),
                simulation.fabric_generator() == fabric_rng,
                exists|seed: u64| fabric_rng == #[trigger] generator_started_from(seed),
                bootnode.wf(),
                bootnode@.linked(),
                bootnode@.identity == bootnode_id,
                is_fresh_node(bootnode@, 0, Seq::empty()),
                simulation@.network.clients.contains_key(bootnode_id),
                knows_only(simulation@.network, simulation@.joining, Some(bootnode_id)),
                simulation@.now == 0,
                simulation@.nodes.len() == 0,
                simulation@.network.pending.len() == 0,
                simulation@.network.now == 0,
                simulation@.network.config == SimNetworkConfig::standard(),
                simulation@.joining.len() == idx,
                time_offset <= HEAD_START_MS + JOIN_GAP_MAX_MS * idx,
                idx > 0 ==> time_offset == simulation@.joining[idx - 1].delay,
                idx == 0 ==> time_offset == HEAD_START_MS,
                forall|k: int|
                    0 <= k < idx ==> {
                        &&& (#[trigger] simulation@.joining[k]).scheduled_at == 0
                        &&& simulation@.network.clients.contains_key(
                            simulation@.joining[k].node.identity,
                        )
                    },
                forall|k: int|
                    0 <= k < idx ==> is_fresh_node(
                        (#[trigger] simulation@.joining[k]).node,
                        (k + 1) as nat,
                        seq![bootnode_id],
                    ),
                idx > 0 ==> is_gap(simulation@.joining[0].delay - HEAD_START_MS),
                forall|j: int, k: int|
                    0 <= j && j + 1 == k && k < idx ==> is_gap(
                        (#[trigger] simulation@.joining[k]).delay - (
                        #[trigger] simulation@.joining[j]).delay,
                    ),
            decreases count - idx,
        {
            let ghost before = simulation@;
            let mut node_rng = rng.next_rng_seed();
            let node = SimBuilder::make_node(
                &mut node_rng,
                &mut simulation,
                idx + 1,
                Some(bootnode_id),
            );
            assert(JOIN_GAP_MAX_MS * idx + JOIN_GAP_MAX_MS <= JOIN_GAP_MAX_MS * count) by (nonlinear_arith)
                requires
                    idx < count,
            ;
            let gap = draw_in_range(&mut node_rng, JOIN_GAP_MIN_MS, JOIN_GAP_MAX_MS);
            time_offset = time_offset + gap;
            let ghost join = JoinView { node: node@, scheduled_at: 0, delay: time_offset };
            simulation.add_node(time_offset, node);
            proof {
                let cur = simulation@;
                lemma_knows_one_more(before.network, before.joining, Some(bootnode_id), join);
                assert forall|k: int| 0 <= k < idx + 1 implies {
                    &&& (#[trigger] cur.joining[k]).scheduled_at == 0
                    &&& cur.network.clients.contains_key(cur.joining[k].node.identity)
                } by {
                    if k < idx {
                        assert(cur.joining[k] == before.joining[k]);
                    }
                }
                assert forall|k: int| 0 <= k < idx + 1 implies is_fresh_node(
                    (#[trigger] cur.joining[k]).node,
                    (k + 1) as nat,
                    seq![bootnode_id],
                ) by {
                    if k < idx {
                        assert(cur.joining[k] == before.joining[k]);
                    }
                }
                assert forall|j: int, k: int| 0 <= j && j + 1 == k && k < idx + 1 implies is_gap(
                    (#[trigger] cur.joining[k]).delay - (#[trigger] cur.joining[j]).delay,
                ) by {
                    assert(cur.joining[j] == before.joining[j]);
                    if k < idx {
                        assert(cur.joining[k] == before.joining[k]);
                    }
                }
                if idx > 0 {
                    assert(cur.joining[0] == before.joining[0]);
                }
            }
            idx += 1;
        }
        let ghost before = simulation@;
        proof {
            assert(can_boot(bootnode@, simulation@.network));
        }
        let ghost last = JoinView { node: bootnode@, scheduled_at: 0, delay: 0 };
        simulation.add_node(0, bootnode);
        proof {
            let cur = simulation@;
            lemma_knows_the_last(before.network, before.joining, last);
            assert forall|k: int| 0 <= k <= count implies {
                &&& (#[trigger] cur.joining[k]).scheduled_at == 0
                &&& cur.network.clients.contains_key(cur.joining[k].node.identity)
            } by {
                if k < count {
                    assert(cur.joining[k] == before.joining[k]);
                }
            }
            assert forall|k: int| 0 <= k < count implies is_fresh_node(
                (#[trigger] cur.joining[k]).node,
                (k + 1) as nat,
                seq![cur.joining[count as int].node.identity],
            ) by {
                assert(cur.joining[k] == before.joining[k]);
            }
            assert forall|j: int, k: int| 0 <= j && j + 1 == k && k < count implies is_gap(
                (#[trigger] cur.joining[k]).delay - (#[trigger] cur.joining[j]).delay,
            ) by {
                assert(cur.joining[j] == before.joining[j]);
                assert(cur.joining[k] == before.joining[k]);
            }
            if count > 0 {
                assert(cur.joining[0] == before.joining[0]);
            }
        }
        simulation
    }
}

} // verus!
