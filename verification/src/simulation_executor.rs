use vstd::prelude::*;

use crate::network::laws::lemma_settle_extends_events;
use crate::network::sim::NetView;
use crate::network::sim::lemma_same_dials_stay_admitted;
use crate::network::sim::SimNetwork;
use crate::network::sim::SimNetworkClient;
use crate::node::Node;
use crate::node::NodeView;
use crate::node::can_boot;
use crate::node::lemma_node_never_tracks_itself;
use crate::node::report_step;
use crate::node::PollReport;
use crate::rng::SimRng;
use crate::types::NodeAddress;
use crate::types::PeerId;
use crate::types::SimTime;

verus! {

/// How far a tick moves the simulated clock, in milliseconds.
pub const TICK_STEP_MS: SimTime = 10;

/// A node that waits to join the simulation.
pub struct DelayedJoin {
    node: Node,
    scheduled_at: SimTime,
    delay: SimTime,
}

/// A waiting node as plain values.
pub struct JoinView {
    pub node: NodeView,
    /// When the node was handed to the executor.
    pub scheduled_at: SimTime,
    /// How long after that it joins.
    pub delay: SimTime,
}

impl JoinView {
    /// The time from which the node takes part.
    pub open spec fn ripens_at(self) -> int {
        self.scheduled_at + self.delay
    }

    /// Whether the node takes part at time `now`.
    pub open spec fn ripe(self, now: SimTime) -> bool {
        self.ripens_at() <= now
    }
}

impl View for DelayedJoin {
    type V = JoinView;

    closed spec fn view(&self) -> JoinView {
        JoinView { node: self.node@, scheduled_at: self.scheduled_at, delay: self.delay }
    }
}

impl DelayedJoin {
    fn is_ripe(&self, now: SimTime) -> (ripe: bool)
        ensures
            ripe == self@.ripe(now),
    {
        now >= self.scheduled_at && now - self.scheduled_at >= self.delay
    }

    fn ripens_before(&self, other: &DelayedJoin) -> (earlier: bool)
        ensures
            earlier == (self@.ripens_at() < other@.ripens_at()),
    {
        let mine: u128 = self.scheduled_at as u128 + self.delay as u128;
        let theirs: u128 = other.scheduled_at as u128 + other.delay as u128;
        mine < theirs
    }
}

/// The executor as plain values: the state on which its contracts are
/// stated.
pub struct ExecutorView {
    pub network: NetView,
    /// The nodes that wait to join, in the order in which they were handed
    /// over.
    pub joining: Seq<JoinView>,
    /// The nodes that take part, in the order in which they joined.
    pub nodes: Seq<NodeView>,
    /// The simulated time of the next tick.
    pub now: SimTime,
}

/// Whether `post` and `post_net` are what `pre` and `pre_net` become when
/// every node is polled once at time `now`, the first node first, each on
/// the fabric as the node before it has left it, and `reports` tells of
/// these polls in their order.
pub open spec fn polled_all(
    pre: Seq<NodeView>,
    pre_net: NetView,
    now: SimTime,
    post: Seq<NodeView>,
    post_net: NetView,
    reports: Seq<PollReport>,
) -> bool
    decreases pre.len(),
{
    if pre.len() == 0 {
        post.len() == 0 && reports.len() == 0 && post_net == pre_net
    } else {
        &&& post.len() == pre.len()
        &&& reports.len() == pre.len()
        &&& exists|last_net: NetView|
            polled_all(
                pre.drop_last(),
                pre_net,
                now,
                post.drop_last(),
                last_net,
                reports.drop_last(),
            ) && #[trigger] report_step(
                pre.last(),
                last_net,
                now,
                post.last(),
                post_net,
                reports.last(),
            )
    }
}

impl ExecutorView {
    /// The fabric is well-formed, and so is every node; a node that has not
    /// booted yet can boot on the fabric.
    pub open spec fn wf(self) -> bool {
        &&& self.network.wf()
        &&& forall|i: int|
            0 <= i < self.nodes.len() ==> {
                &&& (#[trigger] self.nodes[i]).wf()
                &&& self.nodes[i].state is Booting ==> can_boot(self.nodes[i], self.network)
            }
        &&& forall|i: int|
            0 <= i < self.joining.len() ==> {
                &&& (#[trigger] self.joining[i]).node.wf()
                &&& self.joining[i].node.state is Booting ==> can_boot(
                    self.joining[i].node,
                    self.network,
                )
            }
    }

    /// In every node, the manager holds no peer as connected for which the
    /// node's endpoint has not reported a connection.
    pub open spec fn all_linked(self) -> bool {
        &&& forall|i: int| 0 <= i < self.nodes.len() ==> (#[trigger] self.nodes[i]).linked()
        &&& forall|i: int| 0 <= i < self.joining.len() ==> (#[trigger] self.joining[i]).node.linked()
    }

    /// Whether some waiting node takes part at `now`.
    pub open spec fn has_ripe(self, now: SimTime) -> bool {
        exists|i: int| 0 <= i < self.joining.len() && (#[trigger] self.joining[i]).ripe(now)
    }

    /// Whether the waiting node at `i` is the next to join at `now`: it
    /// takes part by then, none that does was due earlier, and of those due
    /// at the same time it was handed over first.
    pub open spec fn is_next_ripe(self, i: int, now: SimTime) -> bool {
        &&& 0 <= i < self.joining.len()
        &&& self.joining[i].ripe(now)
        &&& forall|j: int|
            0 <= j < self.joining.len() && (#[trigger] self.joining[j]).ripe(now) ==> {
                ||| self.joining[i].ripens_at() < self.joining[j].ripens_at()
                ||| self.joining[i].ripens_at() == self.joining[j].ripens_at() && i <= j
            }
    }

    /// The position of the waiting node that joins next at `now`.
    pub open spec fn next_ripe(self, now: SimTime) -> int {
        choose|i: int| self.is_next_ripe(i, now)
    }

    /// The executor after the waiting node at `i` has joined: it stands at
    /// the end of the nodes that take part.
    pub open spec fn promote(self, i: int) -> ExecutorView {
        ExecutorView {
            joining: self.joining.remove(i),
            nodes: self.nodes.push(self.joining[i].node),
            ..self
        }
    }

    /// The executor after every waiting node that takes part at `now` has
    /// joined, the one due earliest first and those due together in the
    /// order in which they were handed over.
    pub open spec fn admit_all(self, now: SimTime) -> ExecutorView
        decreases self.joining.len(),
    {
        if self.has_ripe(now) && 0 <= self.next_ripe(now) < self.joining.len() {
            self.promote(self.next_ripe(now)).admit_all(now)
        } else {
            self
        }
    }

    /// The executor after the fabric has made its step at the time of the
    /// tick.
    pub open spec fn stepped(self) -> ExecutorView {
        ExecutorView { network: self.network.step(self.now), ..self }
    }
}

/// How a tick changes the executor, with the reports of its polls: the
/// fabric makes its step, the waiting nodes that are due join, every node
/// that takes part is polled once in the order in which the nodes joined,
/// and the clock moves on by one step. There is one report for each node
/// that takes part after the tick, in the order of the nodes.
pub open spec fn tick_reported(pre: ExecutorView, post: ExecutorView, reports: Seq<PollReport>) -> bool {
    let joined = pre.stepped().admit_all(pre.now);
    &&& post.now == pre.now + TICK_STEP_MS
    &&& post.joining == joined.joining
    &&& polled_all(joined.nodes, joined.network, pre.now, post.nodes, post.network, reports)
}

/// How a tick changes the executor: see `tick_reported`.
pub open spec fn tick_step(pre: ExecutorView, post: ExecutorView) -> bool {
    exists|reports: Seq<PollReport>| #[trigger] tick_reported(pre, post, reports)
}

/// Drives a simulation tick by tick on one thread: it owns the fabric and
/// all nodes.
pub struct SimulationExecutor {
    network: SimNetwork,
    delayed_join: Vec<DelayedJoin>,
    nodes: Vec<Node>,
    now: SimTime,
}

impl View for SimulationExecutor {
    type V = ExecutorView;

    closed spec fn view(&self) -> ExecutorView {
        ExecutorView {
            network: self.network@,
            joining: self.delayed_join@.map_values(|join: DelayedJoin| join@),
            nodes: self.nodes@.map_values(|node: Node| node@),
            now: self.now,
        }
    }
}

impl SimulationExecutor {
    /// The generator from which the executor's fabric draws.
    pub closed spec fn fabric_generator(&self) -> SimRng {
        self.network.generator()
    }

    /// What the parts hold beyond their plain values.
    pub closed spec fn inv(&self) -> bool {
        &&& self.network.inv()
        &&& forall|i: int| 0 <= i < self.nodes.len() ==> (#[trigger] self.nodes[i]).inv()
        &&& forall|i: int|
            0 <= i < self.delayed_join.len() ==> (#[trigger] self.delayed_join[i]).node.inv()
    }

    /// The executor's invariant.
    pub open spec fn wf(&self) -> bool {
        self.inv() && self@.wf()
    }

    /// An executor at time zero on the given fabric, without nodes.
    pub fn new(network: SimNetwork) -> (executor: SimulationExecutor)
        requires
            network.wf(),
        ensures
            executor.wf(),
            executor.fabric_generator() == network.generator(),
            executor@.network == network@,
            executor@.joining == Seq::<JoinView>::empty(),
            executor@.nodes == Seq::<NodeView>::empty(),
            executor@.now == 0,
    {
        let executor = SimulationExecutor {
            network,
            delayed_join: Vec::new(),
            nodes: Vec::new(),
            now: 0,
        };
        assert(executor@.joining =~= Seq::<JoinView>::empty());
        assert(executor@.nodes =~= Seq::<NodeView>::empty());
        executor
    }

    /// Hands a node over. It joins `delay` milliseconds from now and is
    /// polled from the tick at which it has joined.
    pub fn add_node(&mut self, delay: SimTime, node: Node)
        requires
            old(self).wf(),
            node.wf(),
            node@.state is Booting ==> can_boot(node@, old(self)@.network),
        ensures
            final(self).wf(),
            final(self).fabric_generator() == old(self).fabric_generator(),
            final(self)@ == (ExecutorView {
                joining: old(self)@.joining.push(
                    JoinView { node: node@, scheduled_at: old(self)@.now, delay },
                ),
                ..old(self)@
            }),
            old(self)@.all_linked() && node@.linked() ==> final(self)@.all_linked(),
    {
        let join = DelayedJoin { node, scheduled_at: self.now, delay };
        self.delayed_join.push(join);
        proof {
            let was = old(self)@;
            let cur = self@;
            assert(cur.joining =~= was.joining.push(join@));
            assert(cur.nodes =~= was.nodes);
            assert forall|i: int| 0 <= i < cur.joining.len() implies {
                &&& (#[trigger] cur.joining[i]).node.wf()
                &&& cur.joining[i].node.state is Booting ==> can_boot(
                    cur.joining[i].node,
                    cur.network,
                )
            } by {
                if i < was.joining.len() {
                    assert(cur.joining[i] == was.joining[i]);
                }
            }
            assert forall|i: int| 0 <= i < self.delayed_join.len() implies (
            #[trigger] self.delayed_join[i]).node.inv() by {
                if i < old(self).delayed_join.len() {
                    assert(self.delayed_join[i] == old(self).delayed_join[i]);
                }
            }
            if was.all_linked() && node@.linked() {
                assert forall|i: int| 0 <= i < cur.joining.len() implies (
                #[trigger] cur.joining[i]).node.linked() by {
                    if i < was.joining.len() {
                        assert(cur.joining[i] == was.joining[i]);
                    }
                }
            }
        }
    }

    /// Builds the endpoint for `address` on the executor's fabric and
    /// registers it there.
    pub fn build_client(&mut self, rng: SimRng, address: NodeAddress) -> (client: SimNetworkClient)
        requires
            old(self).wf(),
        ensures
            final(self).wf(),
            final(self).fabric_generator() == old(self).fabric_generator(),
            final(self)@ == (ExecutorView {
                network: old(self)@.network.register(address.0),
                ..old(self)@
            }),
            client.wf(),
            client.generator() == rng,
            client.home() == address,
            client.id() == address.0,
            client.established() == Set::<PeerId>::empty(),
    {
        let client = SimNetworkClient::build(rng, &mut self.network, address);
        proof {
            let was = old(self)@;
            let cur = self@;
            assert(cur.nodes =~= was.nodes);
            assert(cur.joining =~= was.joining);
            assert(was.network.clients.dom().subset_of(cur.network.clients.dom()));
            lemma_wf_on_more_endpoints(was, cur);
        }
        client
    }

    /// The simulated time of the next tick.
    pub fn now(&self) -> (now: SimTime)
        ensures
            now == self@.now,
    {
        self.now
    }

    /// The nodes that take part, in the order in which they joined.
    pub fn nodes(&self) -> (nodes: &Vec<Node>)
        ensures
            nodes@.map_values(|node: Node| node@) == self@.nodes,
    {
        &self.nodes
    }

    /// The number of nodes that wait to join.
    pub fn waiting(&self) -> (count: usize)
        ensures
            count == self@.joining.len(),
    {
        self.delayed_join.len()
    }

    /// The fabric, to look at.
    pub fn network(&self) -> (network: &SimNetwork)
        ensures
            network@ == self@.network,
            network.generator() == self.fabric_generator(),
    {
        &self.network
    }
}

/// In a well-formed simulation no node tracks itself or holds itself as
/// connected, whether it takes part already or waits to join.
pub proof fn lemma_no_node_tracks_itself(sim: ExecutorView)
    requires
        sim.wf(),
    ensures
        forall|i: int|
            0 <= i < sim.nodes.len() ==> {
                &&& !(#[trigger] sim.nodes[i]).plm.tracks(sim.nodes[i].identity)
                &&& !sim.nodes[i].plm.connected().contains(sim.nodes[i].identity)
            },
        forall|i: int|
            0 <= i < sim.joining.len() ==> {
                &&& !(#[trigger] sim.joining[i]).node.plm.tracks(sim.joining[i].node.identity)
                &&& !sim.joining[i].node.plm.connected().contains(sim.joining[i].node.identity)
            },
{
    assert forall|i: int| 0 <= i < sim.nodes.len() implies {
        &&& !(#[trigger] sim.nodes[i]).plm.tracks(sim.nodes[i].identity)
        &&& !sim.nodes[i].plm.connected().contains(sim.nodes[i].identity)
    } by {
        lemma_node_never_tracks_itself(sim.nodes[i], 0);
    }
    assert forall|i: int| 0 <= i < sim.joining.len() implies {
        &&& !(#[trigger] sim.joining[i]).node.plm.tracks(sim.joining[i].node.identity)
        &&& !sim.joining[i].node.plm.connected().contains(sim.joining[i].node.identity)
    } by {
        lemma_node_never_tracks_itself(sim.joining[i].node, 0);
    }
}

/// At most one waiting node is the next to join.
proof fn lemma_next_join_is_unique(view: ExecutorView, i: int, now: SimTime)
    requires
        view.is_next_ripe(i, now),
    ensures
        view.has_ripe(now),
        view.next_ripe(now) == i,
{
    let j = view.next_ripe(now);
    assert(view.is_next_ripe(j, now));
    assert(view.joining[i].ripe(now) && view.joining[j].ripe(now));
}

/// A node that joins leaves the executor well-formed.
proof fn lemma_promote_keeps_wf(view: ExecutorView, i: int)
    requires
        view.wf(),
        0 <= i < view.joining.len(),
    ensures
        view.promote(i).wf(),
        view.all_linked() ==> view.promote(i).all_linked(),
{
    let after = view.promote(i);
    assert forall|k: int| 0 <= k < after.nodes.len() implies {
        &&& (#[trigger] after.nodes[k]).wf()
        &&& after.nodes[k].state is Booting ==> can_boot(after.nodes[k], after.network)
        &&& view.all_linked() ==> after.nodes[k].linked()
    } by {
        if k < view.nodes.len() {
            assert(after.nodes[k] == view.nodes[k]);
        } else {
            assert(after.nodes[k] == view.joining[i].node);
        }
    }
    assert forall|k: int| 0 <= k < after.joining.len() implies {
        &&& (#[trigger] after.joining[k]).node.wf()
        &&& after.joining[k].node.state is Booting ==> can_boot(
            after.joining[k].node,
            after.network,
        )
        &&& view.all_linked() ==> after.joining[k].node.linked()
    } by {
        if k < i {
            assert(after.joining[k] == view.joining[k]);
        } else {
            assert(after.joining[k] == view.joining[k + 1]);
        }
    }
}

/// An executor stays well-formed when its nodes stay as they are and its
/// fabric stays well-formed and forgets no endpoint.
proof fn lemma_wf_on_more_endpoints(was: ExecutorView, cur: ExecutorView)
    requires
        was.wf(),
        cur.network.wf(),
        cur.nodes == was.nodes,
        cur.joining == was.joining,
        was.network.clients.dom().subset_of(cur.network.clients.dom()),
    ensures
        cur.wf(),
{
    assert forall|i: int| 0 <= i < cur.nodes.len() && (#[trigger] cur.nodes[i]).state
        is Booting implies can_boot(cur.nodes[i], cur.network) by {
        lemma_can_boot_on_same_endpoints(was.nodes[i], was.network, cur.network);
    }
    assert forall|i: int| 0 <= i < cur.joining.len() && (#[trigger] cur.joining[i]).node.state
        is Booting implies can_boot(cur.joining[i].node, cur.network) by {
        lemma_can_boot_on_same_endpoints(was.joining[i].node, was.network, cur.network);
    }
}

/// A fabric that knows the same endpoints, or more, lets the same nodes
/// boot.
proof fn lemma_can_boot_on_same_endpoints(node: NodeView, old_net: NetView, new_net: NetView)
    requires
        can_boot(node, old_net),
        old_net.clients.dom().subset_of(new_net.clients.dom()),
    ensures
        can_boot(node, new_net),
{
    assert forall|peer: PeerId| old_net.clients.contains_key(peer) implies new_net.clients.contains_key(
        peer,
    ) by {
        assert(old_net.clients.dom().contains(peer));
    }
}

impl SimulationExecutor {
    /// Lets the fabric make its step at the time of the tick.
    fn step_network(&mut self)
        requires
            old(self).wf(),
        ensures
            final(self).wf(),
            final(self)@ == old(self)@.stepped(),
            old(self)@.all_linked() ==> final(self)@.all_linked(),
    {
        let now = self.now;
        proof {
            let net = self@.network;
            lemma_same_dials_stay_admitted(net, net.at(now));
            lemma_settle_extends_events(net.at(now), now);
        }
        self.network.step(now);
        proof {
            let was = old(self)@;
            let cur = self@;
            assert(cur.nodes =~= was.nodes);
            assert(cur.joining =~= was.joining);
            lemma_wf_on_more_endpoints(was, cur);
        }
    }

    /// The position of the waiting node that joins next at `now`, if one is
    /// due.
    fn find_next_join(&self, now: SimTime) -> (found: Option<usize>)
        ensures
            match found {
                Some(i) => self@.is_next_ripe(i as int, now),
                None => !self@.has_ripe(now),
            },
    {
        let mut best: Option<usize> = None;
        let mut k: usize = 0;
        let ghost joining = self@.joining;
        assert(joining.len() == self.delayed_join.len());
        assert(forall|j: int| 0 <= j < joining.len() ==> #[trigger] joining[j] == self.delayed_join[j]@);
        while k < self.delayed_join.len()
            invariant
                k <= self.delayed_join.len(),
                joining == self@.joining,
                joining.len() == self.delayed_join.len(),
                forall|j: int|
                    0 <= j < joining.len() ==> #[trigger] joining[j] == self.delayed_join[j]@,
                match best {
                    Some(b) => {
                        &&& b < k
                        &&& joining[b as int].ripe(now)
                        &&& forall|j: int|
                            0 <= j < k && (#[trigger] joining[j]).ripe(now) ==> {
                                ||| joining[b as int].ripens_at() < joining[j].ripens_at()
                                ||| joining[b as int].ripens_at() == joining[j].ripens_at() && b
                                    <= j
                            }
                    },
                    None => forall|j: int| 0 <= j < k ==> !(#[trigger] joining[j]).ripe(now),
                },
            decreases self.delayed_join.len() - k,
        {
            assert(joining[k as int] == self.delayed_join[k as int]@);
            if self.delayed_join[k].is_ripe(now) {
                let better = match best {
                    Some(b) => {
                        assert(joining[b as int] == self.delayed_join[b as int]@);
                        self.delayed_join[k].ripens_before(&self.delayed_join[b])
                    },
                    None => true,
                };
                if better {
                    best = Some(k);
                }
            }
            k += 1;
        }
        best
    }

    /// Lets every waiting node that is due at `now` join.
    fn admit_due(&mut self, now: SimTime)
        requires
            old(self).wf(),
        ensures
            final(self).wf(),
            final(self)@ == old(self)@.admit_all(now),
            old(self)@.all_linked() ==> final(self)@.all_linked(),
    {
        loop
            invariant
                self.wf(),
                self@.admit_all(now) == old(self)@.admit_all(now),
                old(self)@.all_linked() ==> self@.all_linked(),
            ensures
                self.wf(),
                self@ == old(self)@.admit_all(now),
                old(self)@.all_linked() ==> self@.all_linked(),
            decreases self.delayed_join.len(),
        {
            match self.find_next_join(now) {
                Some(i) => {
                    let ghost before = self@;
                    let ghost waiting = self.delayed_join@;
                    let ghost active = self.nodes@;
                    proof {
                        lemma_next_join_is_unique(before, i as int, now);
                        lemma_promote_keeps_wf(before, i as int);
                    }
                    let join = self.delayed_join.remove(i);
                    self.nodes.push(join.node);
                    proof {
                        let cur = self@;
                        assert(cur.joining =~= before.joining.remove(i as int));
                        assert(cur.nodes =~= before.nodes.push(before.joining[i as int].node));
                        assert(cur == before.promote(i as int));
                        assert forall|k: int| 0 <= k < self.nodes.len() implies (
                        #[trigger] self.nodes[k]).inv() by {
                            if k < active.len() {
                                assert(self.nodes[k] == active[k]);
                            } else {
                                assert(self.nodes[k] == waiting[i as int].node);
                            }
                        }
                        assert forall|k: int| 0 <= k < self.delayed_join.len() implies (
                        #[trigger] self.delayed_join[k]).node.inv() by {
                            if k < i {
                                assert(self.delayed_join[k] == waiting[k]);
                            } else {
                                assert(self.delayed_join[k] == waiting[k + 1]);
                            }
                        }
                    }
                },
                None => {
                    break ;
                },
            }
        }
    }

    /// Polls every node that takes part once, the first node first, and
    /// hands back the reports of the polls.
    fn poll_nodes(&mut self, now: SimTime) -> (reports: Vec<PollReport>)
        requires
            old(self).wf(),
        ensures
            final(self).wf(),
            final(self)@.now == old(self)@.now,
            final(self)@.joining == old(self)@.joining,
            polled_all(
                old(self)@.nodes,
                old(self)@.network,
                now,
                final(self)@.nodes,
                final(self)@.network,
                reports@,
            ),
            old(self)@.all_linked() ==> final(self)@.all_linked(),
            forall|i: int|
                0 <= i < final(self)@.nodes.len() ==> !((#[trigger] final(self)@.nodes[i]).state
                    is Booting),
    {
        let ghost start = self@;
        let mut reports: Vec<PollReport> = Vec::new();
        let mut i: usize = 0;
        assert(start.nodes.take(0) =~= Seq::<NodeView>::empty());
        assert(self@.nodes.take(0) =~= Seq::<NodeView>::empty());
        while i < self.nodes.len()
            invariant
                i <= self.nodes.len(),
                start == old(self)@,
                self.wf(),
                self@.now == start.now,
                self@.joining == start.joining,
                self@.nodes.len() == start.nodes.len(),
                self.nodes.len() == start.nodes.len(),
                forall|j: int| i <= j < start.nodes.len() ==> #[trigger] self@.nodes[j] == start.nodes[j],
                reports@.len() == i,
                polled_all(
                    start.nodes.take(i as int),
                    start.network,
                    now,
                    self@.nodes.take(i as int),
                    self@.network,
                    reports@,
                ),
                start.all_linked() ==> self@.all_linked(),
                forall|j: int| 0 <= j < i ==> !((#[trigger] self@.nodes[j]).state is Booting),
            decreases self.nodes.len() - i,
        {
            let ghost before = self@;
            let ghost before_nodes = self.nodes@;
            assert(before.nodes[i as int] == self.nodes[i as int]@);
            assert(before.nodes[i as int].wf());
            let ghost told = reports@;
            let node = &mut self.nodes[i];
            let report = node.poll_reported(&mut self.network, now);
            let ghost last = report;
            reports.push(report);
            proof {
                let cur = self@;
                let polled = self.nodes[i as int]@;
                assert(self.nodes@ =~= before_nodes.update(i as int, self.nodes[i as int]));
                assert(cur.nodes =~= before.nodes.update(i as int, polled));
                assert(cur.joining =~= before.joining);
                assert forall|k: int| 0 <= k < self.nodes.len() implies (
                #[trigger] self.nodes[k]).inv() by {
                    if k != i {
                        assert(self.nodes[k] == before_nodes[k]);
                    }
                }
                assert forall|k: int| 0 <= k < cur.nodes.len() implies {
                    &&& (#[trigger] cur.nodes[k]).wf()
                    &&& cur.nodes[k].state is Booting ==> can_boot(cur.nodes[k], cur.network)
                } by {
                    if k != i {
                        assert(cur.nodes[k] == before.nodes[k]);
                        if before.nodes[k].state is Booting {
                            lemma_can_boot_on_same_endpoints(
                                before.nodes[k],
                                before.network,
                                cur.network,
                            );
                        }
                    }
                }
                assert forall|k: int| 0 <= k < cur.joining.len() implies {
                    &&& (#[trigger] cur.joining[k]).node.wf()
                    &&& cur.joining[k].node.state is Booting ==> can_boot(
                        cur.joining[k].node,
                        cur.network,
                    )
                } by {
                    if before.joining[k].node.state is Booting {
                        lemma_can_boot_on_same_endpoints(
                            before.joining[k].node,
                            before.network,
                            cur.network,
                        );
                    }
                }
                if start.all_linked() {
                    assert forall|k: int| 0 <= k < cur.nodes.len() implies (
                    #[trigger] cur.nodes[k]).linked() by {
                        if k != i {
                            assert(cur.nodes[k] == before.nodes[k]);
                        }
                    }
                }
                let done = start.nodes.take(i + 1);
                let left = cur.nodes.take(i + 1);
                assert(done.drop_last() =~= start.nodes.take(i as int));
                assert(left.drop_last() =~= before.nodes.take(i as int));
                assert(done.last() == before.nodes[i as int]);
                assert(left.last() == polled);
                assert(reports@.drop_last() =~= told);
                assert(reports@.last() == last);
                assert(report_step(done.last(), before.network, now, left.last(), cur.network, last));
                assert(polled_all(done, start.network, now, left, cur.network, reports@));
                assert forall|j: int| 0 <= j < i + 1 implies !((#[trigger] cur.nodes[j]).state
                    is Booting) by {
                    if j < i {
                        assert(cur.nodes[j] == before.nodes[j]);
                    }
                }
            }
            i += 1;
        }
        proof {
            assert(start.nodes.take(start.nodes.len() as int) =~= start.nodes);
            assert(self@.nodes.take(self@.nodes.len() as int) =~= self@.nodes);
        }
        reports
    }

    /// Makes one tick and hands back what its polls did: see
    /// `tick_reported`.
    ///
    /// The fabric makes its step at the current time, which resolves the
    /// dials that are ripe. Then the waiting nodes that are due join. Then
    /// every node that takes part is polled once, in the order in which the
    /// nodes joined. At last the clock moves on by one step. The reports
    /// stand in the order of the nodes: the report at a position tells what
    /// the manager of the node at that position asked for, what its endpoint
    /// reported and what the poll returned, an error too. After a tick every
    /// node that takes part has booted, every node is well-formed, and no
    /// manager holds a peer as connected for which the node's endpoint has
    /// not reported a connection, if that was so before.
    pub fn run_tick_reported(&mut self) -> (reports: Vec<PollReport>)
        requires
            old(self).wf(),
            old(self)@.now + TICK_STEP_MS <= u64::MAX,
        ensures
            final(self).wf(),
            tick_reported(old(self)@, final(self)@, reports@),
            reports@.len() == final(self)@.nodes.len(),
            old(self)@.all_linked() ==> final(self)@.all_linked(),
            forall|i: int|
                0 <= i < final(self)@.nodes.len() ==> !((#[trigger] final(self)@.nodes[i]).state
                    is Booting),
    {
        let now = self.now;
        self.step_network();
        self.admit_due(now);
        let reports = self.poll_nodes(now);
        let ghost before = self@;
        self.now = now + TICK_STEP_MS;
        proof {
            assert(self@.nodes =~= before.nodes);
            assert(self@.joining =~= before.joining);
        }
        reports
    }

    /// Makes one tick: see `tick_step`. What the polls return, an error
    /// too, is dropped; `run_tick_reported` hands it back.
    pub fn run_tick(&mut self)
        requires
            old(self).wf(),
            old(self)@.now + TICK_STEP_MS <= u64::MAX,
        ensures
            final(self).wf(),
            tick_step(old(self)@, final(self)@),
            old(self)@.all_linked() ==> final(self)@.all_linked(),
            forall|i: int|
                0 <= i < final(self)@.nodes.len() ==> !((#[trigger] final(self)@.nodes[i]).state
                    is Booting),
    {
        let reports = self.run_tick_reported();
        assert(tick_reported(old(self)@, self@, reports@));
    }
}

} // verus!
