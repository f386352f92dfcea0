use std::collections::VecDeque;
use vstd::prelude::*;

use crate::network::Network;
use crate::network::NetworkError;
use crate::network::NetworkEvent;
use crate::network::NetworkResult;
use crate::network::ProtocolMessage;
use crate::primitives::Pubkey;
use crate::primitives::find_key;
use crate::primitives::lemma_push_joins_the_set;
use crate::rng::SimRng;
use crate::rng::draw_in_range;
use crate::rng::draw_ratio;
use crate::types::NodeAddress;
use crate::types::PeerId;
use crate::types::SimTime;

verus! {

/// How the fabric treats a dial: how long it takes and how often it fails.
#[derive(Clone, Copy, Debug, PartialEq, Eq)]
pub struct SimNetworkConfig {
    /// The shortest time a dial takes, in milliseconds.
    pub connection_delay_min: SimTime,
    /// The bound that the time of a dial stays below, in milliseconds.
    pub connection_delay_max: SimTime,
    /// A dial fails with chance `fail_numerator / fail_denominator`.
    pub fail_numerator: u32,
    pub fail_denominator: u32,
}

impl SimNetworkConfig {
    /// The delays form a non-empty range and the chance of failure is a
    /// fraction between zero and one.
    pub open spec fn wf(&self) -> bool {
        &&& self.connection_delay_min < self.connection_delay_max
        &&& 0 < self.fail_denominator
        &&& self.fail_numerator <= self.fail_denominator
    }

    /// Whether a dial may take this long.
    pub open spec fn admits_delay(&self, delay: SimTime) -> bool {
        self.connection_delay_min <= delay < self.connection_delay_max
    }

    /// Dials take from 100 ms to below 2000 ms and one in ten fails.
    pub open spec fn standard() -> SimNetworkConfig {
        SimNetworkConfig {
            connection_delay_min: 100,
            connection_delay_max: 2000,
            fail_numerator: 1,
            fail_denominator: 10,
        }
    }

    /// Whether the settings are usable: see `wf`.
    pub fn is_valid(&self) -> (valid: bool)
        ensures
            valid == self.wf(),
    {
        self.connection_delay_min < self.connection_delay_max && 0 < self.fail_denominator
            && self.fail_numerator <= self.fail_denominator
    }
}

impl Default for SimNetworkConfig {
    fn default() -> (config: SimNetworkConfig)
        ensures
            config == SimNetworkConfig::standard(),
    {
        SimNetworkConfig {
            connection_delay_min: 100,
            connection_delay_max: 2000,
            fail_numerator: 1,
            fail_denominator: 10,
        }
    }
}

/// What the fabric tells an endpoint about a dial.
#[derive(Clone, Copy, Debug)]
pub enum SimNetworkEvent {
    /// `from` has dialed this endpoint and the connection stands.
    InboundEstablished { from: PeerId },
    /// This endpoint's dial to `to` has succeeded.
    OutboundEstablished { to: PeerId },
    /// This endpoint's dial to `to` has failed.
    OutboundFailure { to: PeerId },
}

impl SimNetworkEvent {
    /// What the endpoint reports to its node for this event.
    pub open spec fn report(self) -> NetworkEvent {
        match self {
            SimNetworkEvent::InboundEstablished { from } => NetworkEvent::InboundEstablished {
                peer_id: from,
            },
            SimNetworkEvent::OutboundEstablished { to } => NetworkEvent::OutboundEstablished {
                peer_id: to,
            },
            SimNetworkEvent::OutboundFailure { to } => NetworkEvent::OutboundFailure { peer_id: to },
        }
    }

    /// The peer to which the event opens a connection, if it opens one.
    pub open spec fn opens(self) -> Option<PeerId> {
        match self {
            SimNetworkEvent::InboundEstablished { from } => Some(from),
            SimNetworkEvent::OutboundEstablished { to } => Some(to),
            SimNetworkEvent::OutboundFailure { to } => None,
        }
    }
}

/// How a dial from the first peer to the second ends.
#[derive(Clone, Copy, Debug)]
pub enum DialerOutcome {
    Success(PeerId, PeerId),
    Failure(PeerId, PeerId),
}

impl DialerOutcome {
    /// The peer that dialed.
    pub open spec fn from(self) -> PeerId {
        match self {
            DialerOutcome::Success(from, _) => from,
            DialerOutcome::Failure(from, _) => from,
        }
    }

    /// The peer that was dialed.
    pub open spec fn to(self) -> PeerId {
        match self {
            DialerOutcome::Success(_, to) => to,
            DialerOutcome::Failure(_, to) => to,
        }
    }
}

/// A dial that the fabric has accepted and not yet resolved. Its outcome is
/// fixed when it is scheduled and becomes known when it ripens.
#[derive(Clone, Copy, Debug)]
pub struct PendingDial {
    pub outcome: DialerOutcome,
    /// When the dial was scheduled.
    pub scheduled_at: SimTime,
    /// How long after that it ripens.
    pub delay: SimTime,
}

impl PendingDial {
    /// The time from which the outcome is known.
    pub open spec fn ripens_at(self) -> int {
        self.scheduled_at + self.delay
    }

    /// Whether the outcome is known at time `now`.
    pub open spec fn ripe(self, now: SimTime) -> bool {
        self.ripens_at() <= now
    }

    fn is_ripe(&self, now: SimTime) -> (ripe: bool)
        ensures
            ripe == self.ripe(now),
    {
        now >= self.scheduled_at && now - self.scheduled_at >= self.delay
    }

    /// Whether this dial ripens strictly before the other.
    fn ripens_before(&self, other: &PendingDial) -> (earlier: bool)
        ensures
            earlier == (self.ripens_at() < other.ripens_at()),
    {
        let mine: u128 = self.scheduled_at as u128 + self.delay as u128;
        let theirs: u128 = other.scheduled_at as u128 + other.delay as u128;
        mine < theirs
    }
}

/// What the fabric holds for one endpoint, as plain values.
pub struct ClientView {
    /// The messages that have arrived and were not read yet, oldest first,
    /// each with its sender.
    pub inbox: Seq<(PeerId, ProtocolMessage)>,
    /// The dial events that were not read yet, oldest first, each with the
    /// peer at the other end.
    pub events: Seq<(PeerId, SimNetworkEvent)>,
}

/// The fabric as plain values: the state on which its contracts are stated.
pub struct NetView {
    /// The endpoints, by identity.
    pub clients: Map<PeerId, ClientView>,
    /// The dials that were not resolved yet, in the order of their scheduling.
    pub pending: Seq<PendingDial>,
    /// The time of the latest step.
    pub now: SimTime,
    pub config: SimNetworkConfig,
}

impl NetView {
    /// Whether the fabric may hold this dial: both ends are registered and
    /// the delay is one that the settings allow.
    pub open spec fn admits(self, dial: PendingDial) -> bool {
        &&& self.clients.contains_key(dial.outcome.from())
        &&& self.clients.contains_key(dial.outcome.to())
        &&& self.config.admits_delay(dial.delay)
    }

    /// The settings are usable and every pending dial is one that the fabric
    /// may hold.
    pub open spec fn wf(self) -> bool {
        &&& self.config.wf()
        &&& forall|i: int| 0 <= i < self.pending.len() ==> self.admits(#[trigger] self.pending[i])
    }

    /// The unread messages of a peer; none for a peer that is not registered.
    pub open spec fn inbox(self, peer: PeerId) -> Seq<(PeerId, ProtocolMessage)> {
        if self.clients.contains_key(peer) {
            self.clients[peer].inbox
        } else {
            Seq::empty()
        }
    }

    /// The unread dial events of a peer; none for a peer that is not
    /// registered.
    pub open spec fn events(self, peer: PeerId) -> Seq<(PeerId, SimNetworkEvent)> {
        if self.clients.contains_key(peer) {
            self.clients[peer].events
        } else {
            Seq::empty()
        }
    }

    /// The fabric with `peer` registered under fresh, empty queues.
    pub open spec fn register(self, peer: PeerId) -> NetView {
        NetView {
            clients: self.clients.insert(
                peer,
                ClientView { inbox: Seq::empty(), events: Seq::empty() },
            ),
            ..self
        }
    }

    /// The fabric with one more pending dial.
    pub open spec fn schedule(self, dial: PendingDial) -> NetView {
        NetView { pending: self.pending.push(dial), ..self }
    }

    /// The fabric after `message` from `from` was appended to the inbox of
    /// `to`.
    pub open spec fn deliver(self, from: PeerId, to: PeerId, message: ProtocolMessage) -> NetView {
        NetView {
            clients: self.clients.insert(
                to,
                ClientView { inbox: self.inbox(to).push((from, message)), events: self.events(to) },
            ),
            ..self
        }
    }

    /// The fabric after `event`, which concerns `about`, was appended to the
    /// events of `at`.
    pub open spec fn notify(self, at: PeerId, about: PeerId, event: SimNetworkEvent) -> NetView {
        NetView {
            clients: self.clients.insert(
                at,
                ClientView { inbox: self.inbox(at), events: self.events(at).push((about, event)) },
            ),
            ..self
        }
    }

    /// The fabric after `peer` has read its oldest event.
    pub open spec fn take_event(self, peer: PeerId) -> NetView {
        NetView {
            clients: self.clients.insert(
                peer,
                ClientView { inbox: self.inbox(peer), events: self.events(peer).drop_first() },
            ),
            ..self
        }
    }

    /// The fabric after `peer` has read its oldest message.
    pub open spec fn take_message(self, peer: PeerId) -> NetView {
        NetView {
            clients: self.clients.insert(
                peer,
                ClientView { inbox: self.inbox(peer).drop_first(), events: self.events(peer) },
            ),
            ..self
        }
    }

    /// Whether some pending dial is ripe at `now`.
    pub open spec fn has_ripe(self, now: SimTime) -> bool {
        exists|i: int| 0 <= i < self.pending.len() && (#[trigger] self.pending[i]).ripe(now)
    }

    /// Whether the dial at `i` is the one to resolve next at `now`: it is
    /// ripe, no ripe dial ripens earlier, and of those that ripen at the same
    /// time it was scheduled first.
    pub open spec fn is_next_ripe(self, i: int, now: SimTime) -> bool {
        &&& 0 <= i < self.pending.len()
        &&& self.pending[i].ripe(now)
        &&& forall|j: int|
            0 <= j < self.pending.len() && (#[trigger] self.pending[j]).ripe(now) ==> {
                ||| self.pending[i].ripens_at() < self.pending[j].ripens_at()
                ||| self.pending[i].ripens_at() == self.pending[j].ripens_at() && i <= j
            }
    }

    /// The position of the dial to resolve next at `now`.
    pub open spec fn next_ripe(self, now: SimTime) -> int {
        choose|i: int| self.is_next_ripe(i, now)
    }

    /// The fabric after the dial at `i` was resolved: the dial is gone, and
    /// its outcome stands in the events of those it concerns. Success tells
    /// both ends; failure tells the dialer alone.
    pub open spec fn resolve(self, i: int) -> NetView {
        let dial = self.pending[i];
        let rest = NetView { pending: self.pending.remove(i), ..self };
        match dial.outcome {
            DialerOutcome::Success(from, to) => rest.notify(
                from,
                to,
                SimNetworkEvent::OutboundEstablished { to },
            ).notify(to, from, SimNetworkEvent::InboundEstablished { from }),
            DialerOutcome::Failure(from, to) => rest.notify(
                from,
                to,
                SimNetworkEvent::OutboundFailure { to },
            ),
        }
    }

    /// The fabric at time `now` with nothing else changed.
    pub open spec fn at(self, now: SimTime) -> NetView {
        NetView { now, ..self }
    }

    /// The fabric after every dial that is ripe at `now` was resolved, the
    /// earliest first and dials that ripen together in the order of their
    /// scheduling.
    pub open spec fn settle(self, now: SimTime) -> NetView
        decreases self.pending.len(),
    {
        if self.has_ripe(now) && 0 <= self.next_ripe(now) < self.pending.len() {
            self.resolve(self.next_ripe(now)).settle(now)
        } else {
            self
        }
    }

    /// The fabric after a step at time `now`.
    pub open spec fn step(self, now: SimTime) -> NetView {
        self.at(now).settle(now)
    }
}

/// What the fabric keeps for one endpoint: its two queues.
pub struct ClientConnection {
    peer_id: PeerId,
    queue: VecDeque<(PeerId, ProtocolMessage)>,
    events: VecDeque<(PeerId, SimNetworkEvent)>,
}

impl View for ClientConnection {
    type V = ClientView;

    closed spec fn view(&self) -> ClientView {
        ClientView { inbox: self.queue@, events: self.events@ }
    }
}

impl ClientConnection {
    /// The endpoint that reads these queues.
    pub closed spec fn owner(&self) -> PeerId {
        self.peer_id
    }

    /// Appends a message from `from` to the inbox.
    pub fn send_message(&mut self, from: PeerId, message: ProtocolMessage)
        ensures
            final(self).owner() == old(self).owner(),
            final(self)@ == (ClientView {
                inbox: old(self)@.inbox.push((from, message)),
                events: old(self)@.events,
            }),
    {
        self.queue.push_back((from, message));
    }

    /// Appends an event that concerns `from` to the events.
    pub fn push_event(&mut self, from: PeerId, event: SimNetworkEvent)
        ensures
            final(self).owner() == old(self).owner(),
            final(self)@ == (ClientView {
                inbox: old(self)@.inbox,
                events: old(self)@.events.push((from, event)),
            }),
    {
        self.events.push_back((from, event));
    }

    fn pop_event(&mut self) -> (event: Option<(PeerId, SimNetworkEvent)>)
        ensures
            final(self).owner() == old(self).owner(),
            match event {
                Some(e) => {
                    &&& old(self)@.events.len() > 0
                    &&& e == old(self)@.events[0]
                    &&& final(self)@ == (ClientView {
                        inbox: old(self)@.inbox,
                        events: old(self)@.events.drop_first(),
                    })
                },
                None => old(self)@.events.len() == 0 && final(self)@ == old(self)@,
            },
    {
        self.events.pop_front()
    }

    fn pop_message(&mut self) -> (message: Option<(PeerId, ProtocolMessage)>)
        ensures
            final(self).owner() == old(self).owner(),
            match message {
                Some(m) => {
                    &&& old(self)@.inbox.len() > 0
                    &&& m == old(self)@.inbox[0]
                    &&& final(self)@ == (ClientView {
                        inbox: old(self)@.inbox.drop_first(),
                        events: old(self)@.events,
                    })
                },
                None => old(self)@.inbox.len() == 0 && final(self)@ == old(self)@,
            },
    {
        self.queue.pop_front()
    }
}

spec fn has_slot(clients: Seq<ClientConnection>, peer: PeerId) -> bool {
    exists|i: int| 0 <= i < clients.len() && (#[trigger] clients[i]).peer_id == peer
}

spec fn slot_of(clients: Seq<ClientConnection>, peer: PeerId) -> int {
    choose|i: int| 0 <= i < clients.len() && (#[trigger] clients[i]).peer_id == peer
}

spec fn distinct_owners(clients: Seq<ClientConnection>) -> bool {
    forall|i: int, j: int|
        0 <= i < j < clients.len() ==> (#[trigger] clients[i]).peer_id != (
        #[trigger] clients[j]).peer_id
}

/// The records of the fabric as a map from each owner to its queues.
spec fn registry(clients: Seq<ClientConnection>) -> Map<PeerId, ClientView> {
    Map::new(|peer: PeerId| has_slot(clients, peer), |peer: PeerId| clients[slot_of(clients, peer)]@)
}

proof fn lemma_slot(clients: Seq<ClientConnection>, i: int)
    requires
        distinct_owners(clients),
        0 <= i < clients.len(),
    ensures
        has_slot(clients, clients[i].peer_id),
        slot_of(clients, clients[i].peer_id) == i,
{
    let j = slot_of(clients, clients[i].peer_id);
    assert(0 <= j < clients.len() && clients[j].peer_id == clients[i].peer_id);
}

proof fn lemma_registry_update(clients: Seq<ClientConnection>, i: int, record: ClientConnection)
    requires
        distinct_owners(clients),
        0 <= i < clients.len(),
        record.peer_id == clients[i].peer_id,
    ensures
        distinct_owners(clients.update(i, record)),
        registry(clients.update(i, record)) == registry(clients).insert(record.peer_id, record@),
{
    let after = clients.update(i, record);
    assert forall|a: int, b: int| 0 <= a < b < after.len() implies (#[trigger] after[a]).peer_id != (
    #[trigger] after[b]).peer_id by {
        assert(after[a].peer_id == clients[a].peer_id);
        assert(after[b].peer_id == clients[b].peer_id);
    }
    assert forall|peer: PeerId| has_slot(after, peer) == has_slot(clients, peer) by {
        if has_slot(after, peer) {
            let k = slot_of(after, peer);
            assert(clients[k].peer_id == peer);
        }
        if has_slot(clients, peer) {
            let k = slot_of(clients, peer);
            assert(after[k].peer_id == peer);
        }
    }
    assert forall|peer: PeerId| has_slot(clients, peer) implies #[trigger] registry(after)[peer]
        == registry(clients).insert(record.peer_id, record@)[peer] by {
        let k = slot_of(clients, peer);
        lemma_slot(clients, k);
        lemma_slot(after, k);
        assert(after[k].peer_id == peer);
    }
    lemma_slot(clients, i);
    assert(registry(after) =~= registry(clients).insert(record.peer_id, record@));
}

proof fn lemma_registry_push(clients: Seq<ClientConnection>, record: ClientConnection)
    requires
        distinct_owners(clients),
        !has_slot(clients, record.peer_id),
    ensures
        distinct_owners(clients.push(record)),
        registry(clients.push(record)) == registry(clients).insert(record.peer_id, record@),
{
    let after = clients.push(record);
    assert forall|a: int, b: int| 0 <= a < b < after.len() implies (#[trigger] after[a]).peer_id != (
    #[trigger] after[b]).peer_id by {
        if b == clients.len() {
            assert(clients[a].peer_id != record.peer_id);
        } else {
            assert(after[a] == clients[a] && after[b] == clients[b]);
        }
    }
    assert forall|peer: PeerId| has_slot(after, peer) == (has_slot(clients, peer) || peer
        == record.peer_id) by {
        if has_slot(after, peer) {
            let k = slot_of(after, peer);
            if k < clients.len() {
                assert(clients[k].peer_id == peer);
            }
        }
        if has_slot(clients, peer) {
            let k = slot_of(clients, peer);
            assert(after[k].peer_id == peer);
        }
        if peer == record.peer_id {
            assert(after[clients.len() as int].peer_id == peer);
        }
    }
    assert forall|peer: PeerId| has_slot(after, peer) implies #[trigger] registry(after)[peer]
        == registry(clients).insert(record.peer_id, record@)[peer] by {
        let k = slot_of(after, peer);
        lemma_slot(after, k);
        if k < clients.len() {
            assert(clients[k].peer_id == peer);
            lemma_slot(clients, k);
        }
    }
    assert(registry(after) =~= registry(clients).insert(record.peer_id, record@));
}

/// A fabric stays well-formed when its dials and settings stay as they are
/// and it forgets no endpoint.
pub proof fn lemma_same_dials_stay_admitted(was: NetView, cur: NetView)
    requires
        was.wf(),
        cur.pending == was.pending,
        cur.config == was.config,
        was.clients.dom().subset_of(cur.clients.dom()),
    ensures
        cur.wf(),
{
    assert forall|k: int| 0 <= k < cur.pending.len() implies cur.admits(#[trigger] cur.pending[k]) by {
        assert(was.admits(was.pending[k]));
        assert(was.clients.dom().contains(was.pending[k].outcome.from()));
        assert(was.clients.dom().contains(was.pending[k].outcome.to()));
    }
}

/// A fabric stays well-formed when it takes on a dial that it may hold.
pub proof fn lemma_schedule_keeps_wf(net: NetView, dial: PendingDial)
    requires
        net.wf(),
        net.admits(dial),
    ensures
        net.schedule(dial).wf(),
{
    let cur = net.schedule(dial);
    assert forall|k: int| 0 <= k < cur.pending.len() implies cur.admits(#[trigger] cur.pending[k]) by {
        if k < net.pending.len() {
            assert(net.admits(net.pending[k]));
        }
    }
}

/// The fabric that all endpoints of one simulation share: the registry of
/// their queues and the dials that are under way.
pub struct SimNetwork {
    rng: SimRng,
    config: SimNetworkConfig,
    clients: Vec<ClientConnection>,
    dialer: Vec<PendingDial>,
    now: SimTime,
}

impl View for SimNetwork {
    type V = NetView;

    closed spec fn view(&self) -> NetView {
        NetView {
            clients: registry(self.clients@),
            pending: self.dialer@,
            now: self.now,
            config: self.config,
        }
    }
}

impl SimNetwork {
    /// The generator from which the fabric draws the delay and the outcome
    /// of every dial.
    pub closed spec fn generator(&self) -> SimRng {
        self.rng
    }

    /// No identity owns two records.
    pub closed spec fn inv(&self) -> bool {
        distinct_owners(self.clients@)
    }

    /// The fabric's invariant.
    pub open spec fn wf(&self) -> bool {
        self.inv() && self@.wf()
    }

    /// An empty fabric at time zero with the default settings.
    pub fn build(rng: SimRng) -> (network: SimNetwork)
        ensures
            network.wf(),
            network.generator() == rng,
            network@.clients == Map::<PeerId, ClientView>::empty(),
            network@.pending == Seq::<PendingDial>::empty(),
            network@.now == 0,
            network@.config == SimNetworkConfig::standard(),
    {
        SimNetwork::build_with_config(rng, SimNetworkConfig::default())
    }

    /// An empty fabric at time zero with the given settings.
    pub fn build_with_config(rng: SimRng, config: SimNetworkConfig) -> (network: SimNetwork)
        requires
            config.wf(),
        ensures
            network.wf(),
            network.generator() == rng,
            network@.clients == Map::<PeerId, ClientView>::empty(),
            network@.pending == Seq::<PendingDial>::empty(),
            network@.now == 0,
            network@.config == config,
    {
        let network = SimNetwork { rng, config, clients: Vec::new(), dialer: Vec::new(), now: 0 };
        assert(network@.clients =~= Map::<PeerId, ClientView>::empty());
        network
    }

    /// The time of the latest step.
    pub fn now(&self) -> (now: SimTime)
        ensures
            now == self@.now,
    {
        self.now
    }

    /// The settings of the fabric.
    pub fn config(&self) -> (config: SimNetworkConfig)
        ensures
            config == self@.config,
    {
        self.config
    }

    /// The number of dials that are under way.
    pub fn pending_dials(&self) -> (count: usize)
        ensures
            count == self@.pending.len(),
    {
        self.dialer.len()
    }

    fn find_client(&self, peer: PeerId) -> (slot: Option<usize>)
        ensures
            match slot {
                Some(i) => i < self.clients.len() && self.clients[i as int].peer_id == peer,
                None => !has_slot(self.clients@, peer),
            },
    {
        let mut i: usize = 0;
        while i < self.clients.len()
            invariant
                i <= self.clients.len(),
                forall|j: int| 0 <= j < i ==> (#[trigger] self.clients[j]).peer_id != peer,
            decreases self.clients.len() - i,
        {
            if self.clients[i].peer_id == peer {
                return Some(i);
            }
            i += 1;
        }
        None
    }

    /// Whether an endpoint is registered under the identity.
    pub fn is_registered(&self, peer: PeerId) -> (registered: bool)
        ensures
            registered == self@.clients.contains_key(peer),
    {
        self.find_client(peer).is_some()
    }

    /// The identities under which endpoints are registered, each once.
    pub fn registered_peers(&self) -> (peers: Vec<PeerId>)
        requires
            self.wf(),
        ensures
            peers@.no_duplicates(),
            forall|peer: PeerId| peers@.contains(peer) <==> self@.clients.contains_key(peer),
    {
        let mut peers: Vec<PeerId> = Vec::new();
        let mut i: usize = 0;
        while i < self.clients.len()
            invariant
                i <= self.clients.len(),
                peers@.len() == i,
                forall|j: int| 0 <= j < i ==> peers@[j] == (#[trigger] self.clients[j]).peer_id,
            decreases self.clients.len() - i,
        {
            peers.push(self.clients[i].peer_id);
            i += 1;
        }
        proof {
            assert forall|peer: PeerId| peers@.contains(peer) <==> self@.clients.contains_key(
                peer,
            ) by {
                if peers@.contains(peer) {
                    let k = choose|k: int| 0 <= k < peers@.len() && peers@[k] == peer;
                    assert(self.clients[k].peer_id == peer);
                }
                if has_slot(self.clients@, peer) {
                    let k = slot_of(self.clients@, peer);
                    assert(peers@[k] == peer);
                }
            }
            assert forall|a: int, b: int|
                0 <= a < peers@.len() && 0 <= b < peers@.len() && a != b implies peers@[a]
                != peers@[b] by {
                if a < b {
                    assert(self.clients[a].peer_id != self.clients[b].peer_id);
                } else {
                    assert(self.clients[b].peer_id != self.clients[a].peer_id);
                }
            }
        }
        peers
    }

    /// The number of messages that wait for the peer.
    pub fn unread_messages(&self, peer: PeerId) -> (count: usize)
        requires
            self.wf(),
        ensures
            count == self@.inbox(peer).len(),
    {
        match self.find_client(peer) {
            Some(i) => {
                proof {
                    lemma_slot(self.clients@, i as int);
                }
                self.clients[i].queue.len()
            },
            None => 0,
        }
    }

    /// The number of dial events that wait for the peer.
    pub fn unread_events(&self, peer: PeerId) -> (count: usize)
        requires
            self.wf(),
        ensures
            count == self@.events(peer).len(),
    {
        match self.find_client(peer) {
            Some(i) => {
                proof {
                    lemma_slot(self.clients@, i as int);
                }
                self.clients[i].events.len()
            },
            None => 0,
        }
    }
}

impl SimNetwork {
    /// Replaces the record at `slot` or, without a slot, adds the record.
    fn put_record(&mut self, slot: Option<usize>, record: ClientConnection)
        requires
            old(self).inv(),
            match slot {
                Some(i) => i < old(self).clients.len() && old(self).clients[i as int].peer_id
                    == record.peer_id,
                None => !has_slot(old(self).clients@, record.peer_id),
            },
        ensures
            final(self).generator() == old(self).generator(),
            final(self).inv(),
            final(self)@ == (NetView {
                clients: old(self)@.clients.insert(record.peer_id, record@),
                ..old(self)@
            }),
    {
        match slot {
            Some(i) => {
                proof {
                    lemma_registry_update(self.clients@, i as int, record);
                }
                self.clients[i] = record;
            },
            None => {
                proof {
                    lemma_registry_push(self.clients@, record);
                }
                self.clients.push(record);
            },
        }
    }

    /// Registers the endpoint under its identity, with fresh, empty queues.
    /// An identity that was registered before is registered anew: the last
    /// registration wins, and what waited in the old queues is dropped.
    pub fn register_client(&mut self, client: &SimNetworkClient)
        requires
            old(self).wf(),
        ensures
            final(self).generator() == old(self).generator(),
            final(self).wf(),
            final(self)@ == old(self)@.register(client.id()),
    {
        let record = client.connection();
        let slot = self.find_client(record.peer_id);
        self.put_record(slot, record);
        proof {
            lemma_same_dials_stay_admitted(old(self)@, self@);
        }
    }

    /// Appends `event`, which concerns `about`, to the events of `at`.
    fn push_event_to(&mut self, at: PeerId, about: PeerId, event: SimNetworkEvent)
        requires
            old(self).inv(),
            old(self)@.clients.contains_key(at),
        ensures
            final(self).generator() == old(self).generator(),
            final(self).inv(),
            final(self)@ == old(self)@.notify(at, about, event),
    {
        match self.find_client(at) {
            Some(i) => {
                proof {
                    lemma_slot(self.clients@, i as int);
                }
                let ghost before = self.clients@;
                let record = &mut self.clients[i];
                record.push_event(about, event);
                proof {
                    lemma_registry_update(before, i as int, self.clients@[i as int]);
                    assert(self.clients@ =~= before.update(i as int, self.clients@[i as int]));
                }
            },
            None => {
                assert(false);
            },
        }
    }

    /// Appends `message` from `from` to the inbox of `to`, if `to` is
    /// registered, and says whether it was.
    fn deliver(&mut self, from: PeerId, to: PeerId, message: ProtocolMessage) -> (delivered: bool)
        requires
            old(self).wf(),
        ensures
            final(self).generator() == old(self).generator(),
            final(self).wf(),
            delivered == old(self)@.clients.contains_key(to),
            delivered ==> final(self)@ == old(self)@.deliver(from, to, message),
            !delivered ==> final(self)@ == old(self)@,
    {
        match self.find_client(to) {
            Some(i) => {
                proof {
                    lemma_slot(self.clients@, i as int);
                }
                let ghost before = self.clients@;
                let record = &mut self.clients[i];
                record.send_message(from, message);
                proof {
                    lemma_registry_update(before, i as int, self.clients@[i as int]);
                    assert(self.clients@ =~= before.update(i as int, self.clients@[i as int]));
                    let was = old(self)@;
                    let cur = self@;
                    lemma_same_dials_stay_admitted(was, cur);
                }
                true
            },
            None => false,
        }
    }

    /// Hands out the oldest unread event of `peer`, if there is one.
    fn take_event(&mut self, peer: PeerId) -> (event: Option<(PeerId, SimNetworkEvent)>)
        requires
            old(self).wf(),
        ensures
            final(self).generator() == old(self).generator(),
            final(self).wf(),
            match event {
                Some(e) => {
                    &&& old(self)@.events(peer).len() > 0
                    &&& e == old(self)@.events(peer)[0]
                    &&& final(self)@ == old(self)@.take_event(peer)
                },
                None => old(self)@.events(peer).len() == 0 && final(self)@ == old(self)@,
            },
    {
        match self.find_client(peer) {
            Some(i) => {
                proof {
                    lemma_slot(self.clients@, i as int);
                }
                let ghost before = self.clients@;
                let record = &mut self.clients[i];
                let event = record.pop_event();
                proof {
                    lemma_registry_update(before, i as int, self.clients@[i as int]);
                    assert(self.clients@ =~= before.update(i as int, self.clients@[i as int]));
                    let was = old(self)@;
                    let cur = self@;
                    if event is None {
                        assert(cur.clients =~= was.clients);
                    }
                    lemma_same_dials_stay_admitted(was, cur);
                }
                event
            },
            None => None,
        }
    }

    /// Hands out the oldest unread message of `peer`, if there is one.
    fn take_message(&mut self, peer: PeerId) -> (message: Option<(PeerId, ProtocolMessage)>)
        requires
            old(self).wf(),
        ensures
            final(self).generator() == old(self).generator(),
            final(self).wf(),
            match message {
                Some(m) => {
                    &&& old(self)@.inbox(peer).len() > 0
                    &&& m == old(self)@.inbox(peer)[0]
                    &&& final(self)@ == old(self)@.take_message(peer)
                },
                None => old(self)@.inbox(peer).len() == 0 && final(self)@ == old(self)@,
            },
    {
        match self.find_client(peer) {
            Some(i) => {
                proof {
                    lemma_slot(self.clients@, i as int);
                }
                let ghost before = self.clients@;
                let record = &mut self.clients[i];
                let message = record.pop_message();
                proof {
                    lemma_registry_update(before, i as int, self.clients@[i as int]);
                    assert(self.clients@ =~= before.update(i as int, self.clients@[i as int]));
                    let was = old(self)@;
                    let cur = self@;
                    if message is None {
                        assert(cur.clients =~= was.clients);
                    }
                    lemma_same_dials_stay_admitted(was, cur);
                }
                message
            },
            None => None,
        }
    }

    /// Accepts a dial from `from` to `to` that ripens `delay` milliseconds
    /// from now and then fails or succeeds as `fails` says. Both ends have to
    /// be registered: otherwise nothing is scheduled and the answer is
    /// `PeerNotFound`.
    pub fn schedule_dial(&mut self, from: PeerId, to: PeerId, delay: SimTime, fails: bool) -> (result:
        NetworkResult<()>)
        requires
            old(self).wf(),
            old(self)@.config.admits_delay(delay),
        ensures
            final(self).generator() == old(self).generator(),
            final(self).wf(),
            match result {
                Ok(_) => {
                    &&& old(self)@.clients.contains_key(from)
                    &&& old(self)@.clients.contains_key(to)
                    &&& final(self)@ == old(self)@.schedule(
                        PendingDial {
                            outcome: if fails {
                                DialerOutcome::Failure(from, to)
                            } else {
                                DialerOutcome::Success(from, to)
                            },
                            scheduled_at: old(self)@.now,
                            delay,
                        },
                    )
                },
                Err(e) => {
                    &&& e is PeerNotFound
                    &&& !(old(self)@.clients.contains_key(from) && old(self)@.clients.contains_key(
                        to,
                    ))
                    &&& final(self)@ == old(self)@
                },
            },
    {
        if !self.is_registered(from) || !self.is_registered(to) {
            return Err(NetworkError::PeerNotFound);
        }
        let outcome = if fails {
            DialerOutcome::Failure(from, to)
        } else {
            DialerOutcome::Success(from, to)
        };
        let dial = PendingDial { outcome, scheduled_at: self.now, delay };
        self.dialer.push(dial);
        proof {
            assert(self@.pending =~= old(self)@.pending.push(dial));
            lemma_schedule_keeps_wf(old(self)@, dial);
        }
        Ok(())
    }

    /// Starts a dial from `from` to `to`. The fabric draws how long the dial
    /// takes, within the range of its settings, and whether it fails, with
    /// the chance of its settings, and schedules the dial with that outcome.
    /// Both ends have to be registered: otherwise nothing is drawn or
    /// scheduled, the generator is as it was and the answer is
    /// `PeerNotFound`.
    pub fn connect(&mut self, from_peer_id: PeerId, to_peer_id: PeerId) -> (result: NetworkResult<()>)
        requires
            old(self).wf(),
        ensures
            final(self).wf(),
            match result {
                Ok(_) => {
                    let dial = final(self)@.pending.last();
                    &&& old(self)@.clients.contains_key(from_peer_id)
                    &&& old(self)@.clients.contains_key(to_peer_id)
                    &&& final(self)@ == old(self)@.schedule(dial)
                    &&& dial.outcome.from() == from_peer_id
                    &&& dial.outcome.to() == to_peer_id
                    &&& dial.scheduled_at == old(self)@.now
                    &&& old(self)@.config.admits_delay(dial.delay)
                    &&& old(self)@.config.fail_numerator == 0 ==> dial.outcome is Success
                    &&& old(self)@.config.fail_numerator == old(self)@.config.fail_denominator
                        ==> dial.outcome is Failure
                },
                Err(e) => {
                    &&& e is PeerNotFound
                    &&& !(old(self)@.clients.contains_key(from_peer_id) && old(
                        self,
                    )@.clients.contains_key(to_peer_id))
                    &&& final(self)@ == old(self)@
                    &&& final(self).generator() == old(self).generator()
                },
            },
    {
        if !self.is_registered(from_peer_id) || !self.is_registered(to_peer_id) {
            return Err(NetworkError::PeerNotFound);
        }
        let delay = draw_in_range(
            &mut self.rng,
            self.config.connection_delay_min,
            self.config.connection_delay_max,
        );
        let is_failure = draw_ratio(
            &mut self.rng,
            self.config.fail_numerator,
            self.config.fail_denominator,
        );
        assert(self@ == old(self)@);
        self.schedule_dial(from_peer_id, to_peer_id, delay, is_failure)
    }
}

/// One node's endpoint on the fabric. It holds the node's address and the
/// peers to which a connection was established; its queues live in the
/// fabric, under its identity.
pub struct SimNetworkClient {
    rng: SimRng,
    address: NodeAddress,
    connections: Vec<PeerId>,
}

impl SimNetworkClient {
    /// The generator that the endpoint holds. The simulated endpoint never
    /// draws from it.
    pub closed spec fn generator(&self) -> SimRng {
        self.rng
    }

    /// The address that the endpoint was built for.
    pub closed spec fn home(&self) -> NodeAddress {
        self.address
    }

    /// The identity under which the endpoint is registered: the one of its
    /// address.
    pub closed spec fn id(&self) -> PeerId {
        self.address.0
    }

    /// The peers to which a connection was established: those for which the
    /// endpoint has reported `InboundEstablished` or `OutboundEstablished`.
    pub closed spec fn established(&self) -> Set<PeerId> {
        self.connections@.to_set()
    }

    /// No peer is listed twice.
    pub closed spec fn wf(&self) -> bool {
        self.connections@.no_duplicates()
    }

    /// The identity under which the endpoint is registered.
    pub fn peer_id(&self) -> (id: PeerId)
        ensures
            id == self.id(),
    {
        self.address.0
    }

    /// A record for this endpoint with empty queues.
    fn connection(&self) -> (record: ClientConnection)
        ensures
            record.peer_id == self.id(),
            record@ == (ClientView { inbox: Seq::empty(), events: Seq::empty() }),
    {
        ClientConnection { peer_id: self.peer_id(), queue: VecDeque::new(), events: VecDeque::new() }
    }
}

/// At most one dial is the next to resolve.
proof fn lemma_next_ripe_is_unique(net: NetView, i: int, now: SimTime)
    requires
        net.is_next_ripe(i, now),
    ensures
        net.has_ripe(now),
        net.next_ripe(now) == i,
{
    let j = net.next_ripe(now);
    assert(net.is_next_ripe(j, now));
    assert(net.pending[i].ripe(now) && net.pending[j].ripe(now));
}

/// Resolving a dial keeps a well-formed fabric well-formed and registers
/// nobody.
pub proof fn lemma_resolve_keeps_wf(net: NetView, i: int)
    requires
        net.wf(),
        0 <= i < net.pending.len(),
    ensures
        net.resolve(i).wf(),
        net.resolve(i).pending == net.pending.remove(i),
        net.resolve(i).clients.dom() == net.clients.dom(),
        net.resolve(i).now == net.now,
        net.resolve(i).config == net.config,
{
    let after = net.resolve(i);
    assert(net.admits(net.pending[i]));
    assert(after.clients.dom() =~= net.clients.dom());
    assert forall|k: int| 0 <= k < after.pending.len() implies after.admits(
        #[trigger] after.pending[k],
    ) by {
        if k < i {
            assert(net.admits(net.pending[k]));
        } else {
            assert(net.admits(net.pending[k + 1]));
        }
    }
}

impl SimNetwork {
    /// The position of the dial to resolve next at `now`, if any is ripe.
    fn find_next_ripe(&self, now: SimTime) -> (found: Option<usize>)
        ensures
            match found {
                Some(i) => self@.is_next_ripe(i as int, now),
                None => !self@.has_ripe(now),
            },
    {
        let mut best: Option<usize> = None;
        let mut k: usize = 0;
        while k < self.dialer.len()
            invariant
                k <= self.dialer.len(),
                match best {
                    Some(b) => {
                        &&& b < k
                        &&& self.dialer[b as int].ripe(now)
                        &&& forall|j: int|
                            0 <= j < k && (#[trigger] self.dialer[j]).ripe(now) ==> {
                                ||| self.dialer[b as int].ripens_at() < self.dialer[j].ripens_at()
                                ||| self.dialer[b as int].ripens_at() == self.dialer[j].ripens_at()
                                    && b <= j
                            }
                    },
                    None => forall|j: int| 0 <= j < k ==> !(#[trigger] self.dialer[j]).ripe(now),
                },
            decreases self.dialer.len() - k,
        {
            if self.dialer[k].is_ripe(now) {
                let better = match best {
                    Some(b) => self.dialer[k].ripens_before(&self.dialer[b]),
                    None => true,
                };
                if better {
                    best = Some(k);
                }
            }
            k += 1;
        }
        best
    }

    /// Puts the outcome of a dial into the events of those it concerns.
    fn dispatch(&mut self, outcome: DialerOutcome)
        requires
            old(self).inv(),
            old(self)@.clients.contains_key(outcome.from()),
            old(self)@.clients.contains_key(outcome.to()),
        ensures
            final(self).generator() == old(self).generator(),
            final(self).inv(),
            final(self)@ == match outcome {
                DialerOutcome::Success(from, to) => old(self)@.notify(
                    from,
                    to,
                    SimNetworkEvent::OutboundEstablished { to },
                ).notify(to, from, SimNetworkEvent::InboundEstablished { from }),
                DialerOutcome::Failure(from, to) => old(self)@.notify(
                    from,
                    to,
                    SimNetworkEvent::OutboundFailure { to },
                ),
            },
    {
        match outcome {
            DialerOutcome::Success(from, to) => {
                self.push_event_to(from, to, SimNetworkEvent::OutboundEstablished { to });
                self.push_event_to(to, from, SimNetworkEvent::InboundEstablished { from });
            },
            DialerOutcome::Failure(from, to) => {
                self.push_event_to(from, to, SimNetworkEvent::OutboundFailure { to });
            },
        }
    }

    /// Moves the fabric to time `now` and resolves every dial that is ripe
    /// by then, the earliest first and dials that ripen together in the order
    /// of their scheduling. A dial that succeeds tells the dialer
    /// `OutboundEstablished` and the dialed peer `InboundEstablished`; one
    /// that fails tells the dialer `OutboundFailure` and the dialed peer
    /// nothing. Both ends of every pending dial are registered, so an outcome
    /// always finds the queues it is meant for.
    pub fn step(&mut self, now: SimTime)
        requires
            old(self).wf(),
        ensures
            final(self).generator() == old(self).generator(),
            final(self).wf(),
            final(self)@ == old(self)@.step(now),
    {
        self.now = now;
        assert(self@ == old(self)@.at(now));
        loop
            invariant
                self.wf(),
                self.generator() == old(self).generator(),
                self@.settle(now) == old(self)@.step(now),
            ensures
                self.wf(),
                self.generator() == old(self).generator(),
                self@ == old(self)@.step(now),
            decreases self.dialer.len(),
        {
            match self.find_next_ripe(now) {
                Some(i) => {
                    proof {
                        lemma_next_ripe_is_unique(self@, i as int, now);
                        lemma_resolve_keeps_wf(self@, i as int);
                    }
                    let ghost before = self@;
                    assert(before.admits(before.pending[i as int]));
                    let dial = self.dialer.remove(i);
                    self.dispatch(dial.outcome);
                    assert(self@ == before.resolve(i as int));
                },
                None => {
                    break ;
                },
            }
        }
    }
}

/// What a poll of the endpoint `id` returns on the fabric `net`: the oldest
/// dial event if one waits, else the oldest message if one waits, else
/// nothing.
pub open spec fn poll_result(net: NetView, id: PeerId) -> Option<NetworkEvent> {
    if net.events(id).len() > 0 {
        Some(net.events(id)[0].1.report())
    } else if net.inbox(id).len() > 0 {
        Some(
            NetworkEvent::MessageReceived {
                peer_id: net.inbox(id)[0].0,
                message: net.inbox(id)[0].1,
            },
        )
    } else {
        None
    }
}

/// The fabric after a poll of the endpoint `id`: what the poll returned is
/// gone from its queue.
pub open spec fn poll_fabric(net: NetView, id: PeerId) -> NetView {
    if net.events(id).len() > 0 {
        net.take_event(id)
    } else if net.inbox(id).len() > 0 {
        net.take_message(id)
    } else {
        net
    }
}

/// The connections of the endpoint `id` after a poll: an event that
/// establishes a connection adds its peer, and nothing else changes them.
pub open spec fn poll_established(net: NetView, id: PeerId, established: Set<PeerId>) -> Set<PeerId> {
    if net.events(id).len() > 0 {
        match net.events(id)[0].1.opens() {
            Some(peer) => established.insert(peer),
            None => established,
        }
    } else {
        established
    }
}

impl SimNetworkClient {
    /// Builds the endpoint for `address` and registers it with the fabric.
    /// It starts without connections.
    pub fn build(rng: SimRng, network: &mut SimNetwork, address: NodeAddress) -> (client:
        SimNetworkClient)
        requires
            old(network).wf(),
        ensures
            client.wf(),
            client.generator() == rng,
            client.home() == address,
            client.id() == address.0,
            client.established() == Set::<PeerId>::empty(),
            final(network).wf(),
            final(network).generator() == old(network).generator(),
            final(network)@ == old(network)@.register(address.0),
    {
        let client = SimNetworkClient { rng, address, connections: Vec::new() };
        assert(client.connections@.to_set() =~= Set::<PeerId>::empty());
        network.register_client(&client);
        client
    }

    /// The address that the endpoint was built for.
    pub fn address(&self) -> (address: &NodeAddress)
        ensures
            *address == self.home(),
            address.0 == self.id(),
    {
        &self.address
    }

    /// Whether a connection to the peer was established.
    pub fn is_connected(&self, peer_id: PeerId) -> (connected: bool)
        ensures
            connected == self.established().contains(peer_id),
    {
        find_key(&self.connections, peer_id).is_some()
    }

    /// Notes that a connection to the peer stands.
    fn note_established(&mut self, peer_id: PeerId)
        requires
            old(self).wf(),
        ensures
            final(self).generator() == old(self).generator(),
            final(self).wf(),
            final(self).home() == old(self).home(),
            final(self).id() == old(self).id(),
            final(self).established() == old(self).established().insert(peer_id),
    {
        proof {
            lemma_push_joins_the_set(self.connections@, peer_id);
        }
        if find_key(&self.connections, peer_id).is_none() {
            self.connections.push(peer_id);
        }
    }
}

impl Network for SimNetworkClient {
    type Fabric = SimNetwork;

    open spec fn wf(&self) -> bool {
        SimNetworkClient::wf(self)
    }

    open spec fn fabric_wf(fabric: &SimNetwork) -> bool {
        fabric.wf()
    }

    /// The simulated fabric routes on identities alone, so the address is
    /// of no use to it: the endpoint is as it was.
    fn add_peer(&mut self, peer_id: Pubkey, addr: NodeAddress)
        ensures
            final(self).generator() == old(self).generator(),
            final(self).home() == old(self).home(),
            final(self).id() == old(self).id(),
            final(self).established() == old(self).established(),
    {
    }

    /// Starts a dial to the peer through the fabric. Where a connection to
    /// the peer stands already the answer is `AlreadyConnected` and nothing
    /// is scheduled. Otherwise the fabric schedules the dial, or answers
    /// `PeerNotFound` where it does not know one of the two ends. On either
    /// error the fabric has drawn nothing: its generator is as it was.
    fn connect(&mut self, fabric: &mut SimNetwork, peer_id: PeerId) -> (result: NetworkResult<()>)
        ensures
            final(self).generator() == old(self).generator(),
            final(self).home() == old(self).home(),
            final(self).id() == old(self).id(),
            final(self).established() == old(self).established(),
            match result {
                Ok(_) => {
                    let dial = final(fabric)@.pending.last();
                    &&& !old(self).established().contains(peer_id)
                    &&& old(fabric)@.clients.contains_key(old(self).id())
                    &&& old(fabric)@.clients.contains_key(peer_id)
                    &&& final(fabric)@ == old(fabric)@.schedule(dial)
                    &&& dial.outcome.from() == old(self).id()
                    &&& dial.outcome.to() == peer_id
                    &&& dial.scheduled_at == old(fabric)@.now
                    &&& old(fabric)@.config.admits_delay(dial.delay)
                    &&& old(fabric)@.config.fail_numerator == 0 ==> dial.outcome is Success
                    &&& old(fabric)@.config.fail_numerator == old(fabric)@.config.fail_denominator
                        ==> dial.outcome is Failure
                },
                Err(NetworkError::AlreadyConnected(peer)) => {
                    &&& peer == peer_id
                    &&& old(self).established().contains(peer_id)
                    &&& final(fabric)@ == old(fabric)@
                    &&& final(fabric).generator() == old(fabric).generator()
                },
                Err(NetworkError::PeerNotFound) => {
                    &&& !old(self).established().contains(peer_id)
                    &&& !(old(fabric)@.clients.contains_key(old(self).id()) && old(
                        fabric,
                    )@.clients.contains_key(peer_id))
                    &&& final(fabric)@ == old(fabric)@
                    &&& final(fabric).generator() == old(fabric).generator()
                },
                Err(NetworkError::NotConnected) => false,
            },
    {
        if self.is_connected(peer_id) {
            return Err(NetworkError::AlreadyConnected(peer_id));
        }
        fabric.connect(self.peer_id(), peer_id)
    }

    /// The simulated fabric has no teardown: nothing changes and the answer
    /// is `Ok`.
    fn disconnect(&mut self, fabric: &mut SimNetwork, peer_id: PeerId) -> (result: NetworkResult<()>)
        ensures
            final(fabric).generator() == old(fabric).generator(),
            final(self).generator() == old(self).generator(),
            result is Ok,
            final(self).home() == old(self).home(),
            final(self).id() == old(self).id(),
            final(self).established() == old(self).established(),
            final(fabric)@ == old(fabric)@,
    {
        Ok(())
    }

    /// Appends the message to the peer's inbox, behind all that wait there,
    /// where a connection to the peer was established. Without one, nothing
    /// is sent and the answer is `NotConnected`; so it is for a peer that the
    /// fabric does not know.
    fn send(&mut self, fabric: &mut SimNetwork, peer_id: PeerId, message: ProtocolMessage) -> (result:
        NetworkResult<()>)
        ensures
            final(fabric).generator() == old(fabric).generator(),
            final(self).generator() == old(self).generator(),
            final(self).home() == old(self).home(),
            final(self).id() == old(self).id(),
            final(self).established() == old(self).established(),
            match result {
                Ok(_) => {
                    &&& old(self).established().contains(peer_id)
                    &&& old(fabric)@.clients.contains_key(peer_id)
                    &&& final(fabric)@ == old(fabric)@.deliver(old(self).id(), peer_id, message)
                },
                Err(e) => {
                    &&& e is NotConnected
                    &&& !(old(self).established().contains(peer_id) && old(
                        fabric,
                    )@.clients.contains_key(peer_id))
                    &&& final(fabric)@ == old(fabric)@
                },
            },
    {
        if !self.is_connected(peer_id) {
            return Err(NetworkError::NotConnected);
        }
        if fabric.deliver(self.peer_id(), peer_id, message) {
            Ok(())
        } else {
            Err(NetworkError::NotConnected)
        }
    }

    /// Reports at most one event: the oldest dial event that the fabric
    /// holds for this endpoint or, where none waits, the oldest message in
    /// its inbox. What is reported leaves its queue. An event that
    /// establishes a connection adds the peer to the endpoint's connections.
    fn poll(&mut self, fabric: &mut SimNetwork) -> (event: Option<NetworkEvent>)
        ensures
            final(fabric).generator() == old(fabric).generator(),
            final(self).generator() == old(self).generator(),
            final(self).home() == old(self).home(),
            final(self).id() == old(self).id(),
            event == poll_result(old(fabric)@, old(self).id()),
            final(fabric)@ == poll_fabric(old(fabric)@, old(self).id()),
            final(self).established() == poll_established(
                old(fabric)@,
                old(self).id(),
                old(self).established(),
            ),
    {
        let id = self.peer_id();
        match fabric.take_event(id) {
            Some((_, event)) => {
                match event {
                    SimNetworkEvent::InboundEstablished { from } => {
                        self.note_established(from);
                        return Some(NetworkEvent::InboundEstablished { peer_id: from });
                    },
                    SimNetworkEvent::OutboundEstablished { to } => {
                        self.note_established(to);
                        return Some(NetworkEvent::OutboundEstablished { peer_id: to });
                    },
                    SimNetworkEvent::OutboundFailure { to } => {
                        return Some(NetworkEvent::OutboundFailure { peer_id: to });
                    },
                }
            },
            None => {},
        }
        match fabric.take_message(id) {
            Some((from, message)) => Some(NetworkEvent::MessageReceived { peer_id: from, message }),
            None => None,
        }
    }
}

} // verus!
