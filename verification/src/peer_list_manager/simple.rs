use vstd::prelude::*;

use crate::peer_list_manager::PeerListManager;
use crate::peer_list_manager::PeerListManagerConfig;
use crate::peer_list_manager::PeerListManagerEvent;
use crate::peer_list_manager::laws::lemma_list_stays_well_formed;
use crate::primitives::find_key;
use crate::primitives::lemma_push_joins_the_set;
use crate::rng::SimRng;
use crate::rng::choose_one;
use crate::timer::IntervalTimer;
use crate::types::PeerId;
use crate::types::PeerReputation;
use crate::types::SimTime;

verus! {

/// When a peer was last dialed and how often it has been dialed.
#[derive(Clone, Copy, Debug, PartialEq, Eq)]
pub struct DialInfo {
    pub last_dial: Option<SimTime>,
    pub attempts: u64,
}

/// Where the manager stands with a peer.
#[derive(Clone, Copy, Debug, PartialEq, Eq)]
pub enum PeerState {
    Disconnected,
    Connected,
    Dialing(DialInfo),
}

/// What the manager knows about a peer.
#[derive(Clone, Copy, Debug, PartialEq, Eq)]
pub struct PeerInfo {
    pub reputation: PeerReputation,
    pub state: PeerState,
    /// How often the manager has asked for a dial to the peer.
    pub dial_attempts: u64,
}

impl PeerInfo {
    /// What is known of a peer that was just discovered: reputation zero,
    /// disconnected, never dialed.
    pub open spec fn fresh() -> PeerInfo {
        PeerInfo { reputation: 0, state: PeerState::Disconnected, dial_attempts: 0 }
    }

    /// The same with another state.
    pub open spec fn with_state(self, state: PeerState) -> PeerInfo {
        PeerInfo { state, ..self }
    }

    /// The number of dials once one more was asked for. The count stops at
    /// the largest value it can hold.
    pub open spec fn next_attempt(self) -> u64 {
        if self.dial_attempts < u64::MAX {
            (self.dial_attempts + 1) as u64
        } else {
            self.dial_attempts
        }
    }

    /// The same once a dial was asked for at time `now`.
    pub open spec fn dialed(self, now: SimTime) -> PeerInfo {
        PeerInfo {
            reputation: self.reputation,
            state: PeerState::Dialing(
                DialInfo { last_dial: Some(now), attempts: self.next_attempt() },
            ),
            dial_attempts: self.next_attempt(),
        }
    }
}

/// A tracked peer and what is known about it.
#[derive(Clone, Copy, Debug)]
pub struct PeerRecord {
    pub peer_id: PeerId,
    pub info: PeerInfo,
}

/// The connected peers among `peers`, in the order of the list.
pub open spec fn connected_ids(peers: Seq<PeerRecord>) -> Seq<PeerId>
    decreases peers.len(),
{
    if peers.len() == 0 {
        Seq::empty()
    } else if peers.last().info.state is Connected {
        connected_ids(peers.drop_last()).push(peers.last().peer_id)
    } else {
        connected_ids(peers.drop_last())
    }
}

/// The number of peers among `peers` to which a dial is under way.
pub open spec fn dialing_count(peers: Seq<PeerRecord>) -> nat
    decreases peers.len(),
{
    if peers.len() == 0 {
        0
    } else if peers.last().info.state is Dialing {
        dialing_count(peers.drop_last()) + 1
    } else {
        dialing_count(peers.drop_last())
    }
}

/// The manager as plain values: the state on which its contracts are stated.
pub struct PlmView {
    /// The tracked peers, in the order in which they were first registered.
    pub peers: Seq<PeerRecord>,
    /// The peers that are never tracked.
    pub excluded: Set<PeerId>,
    /// Fires when it is time to gossip.
    pub gossip_timer: IntervalTimer,
    /// Fires when it is time to dial.
    pub dial_timer: IntervalTimer,
    pub config: PeerListManagerConfig,
}

impl PlmView {
    /// No peer is tracked twice and no excluded peer is tracked.
    pub open spec fn wf(self) -> bool {
        &&& forall|i: int, j: int|
            0 <= i < j < self.peers.len() ==> (#[trigger] self.peers[i]).peer_id != (
            #[trigger] self.peers[j]).peer_id
        &&& forall|i: int|
            0 <= i < self.peers.len() ==> !self.excluded.contains((#[trigger] self.peers[i]).peer_id)
    }

    /// Whether the peer is tracked.
    pub open spec fn tracks(self, peer: PeerId) -> bool {
        exists|i: int| 0 <= i < self.peers.len() && (#[trigger] self.peers[i]).peer_id == peer
    }

    /// Where the peer stands in the list, if it is tracked.
    pub open spec fn position(self, peer: PeerId) -> int {
        choose|i: int| 0 <= i < self.peers.len() && (#[trigger] self.peers[i]).peer_id == peer
    }

    /// What is known about a tracked peer.
    pub open spec fn info(self, peer: PeerId) -> PeerInfo {
        self.peers[self.position(peer)].info
    }

    /// Whether the peer is tracked and connected.
    pub open spec fn is_connected(self, peer: PeerId) -> bool {
        self.tracks(peer) && self.info(peer).state is Connected
    }

    /// The connected peers, in the order of the list.
    pub open spec fn connected(self) -> Seq<PeerId> {
        connected_ids(self.peers)
    }

    /// The manager after a peer was discovered: the peer joins the end of the
    /// list as a fresh peer, unless it is excluded or tracked already.
    pub open spec fn register(self, peer: PeerId) -> PlmView {
        if self.excluded.contains(peer) || self.tracks(peer) {
            self
        } else {
            PlmView {
                peers: self.peers.push(PeerRecord { peer_id: peer, info: PeerInfo::fresh() }),
                ..self
            }
        }
    }

    /// The manager with the state of a tracked peer replaced; nothing
    /// changes for a peer that is not tracked.
    pub open spec fn set_state(self, peer: PeerId, state: PeerState) -> PlmView {
        if self.tracks(peer) {
            PlmView {
                peers: self.peers.update(
                    self.position(peer),
                    PeerRecord { peer_id: peer, info: self.info(peer).with_state(state) },
                ),
                ..self
            }
        } else {
            self
        }
    }

    /// The manager after the network reported a connection to the peer: the
    /// peer is registered if it was not, and is connected if it is tracked.
    pub open spec fn register_connected(self, peer: PeerId) -> PlmView {
        self.register(peer).set_state(peer, PeerState::Connected)
    }

    /// The manager after the network reported that the peer is gone.
    pub open spec fn register_disconnected(self, peer: PeerId) -> PlmView {
        self.set_state(peer, PeerState::Disconnected)
    }

    /// The manager without the peer in its list.
    pub open spec fn remove(self, peer: PeerId) -> PlmView {
        if self.tracks(peer) {
            PlmView { peers: self.peers.remove(self.position(peer)), ..self }
        } else {
            self
        }
    }

    /// The manager after the peer was excluded: the peer is barred and no
    /// longer tracked.
    pub open spec fn exclude(self, peer: PeerId) -> PlmView {
        PlmView { excluded: self.excluded.insert(peer), ..self.remove(peer) }
    }

    /// The manager after `delta` was added to the reputation of the peer;
    /// nothing changes for a peer that is not tracked.
    pub open spec fn add_reputation(self, peer: PeerId, delta: PeerReputation) -> PlmView {
        if self.tracks(peer) {
            PlmView {
                peers: self.peers.update(
                    self.position(peer),
                    PeerRecord {
                        peer_id: peer,
                        info: PeerInfo {
                            reputation: (self.info(peer).reputation + delta) as PeerReputation,
                            ..self.info(peer)
                        },
                    },
                ),
                ..self
            }
        } else {
            self
        }
    }

    /// The manager after a dial to the peer has failed: the peer is tracked
    /// and disconnected, so that it is dialed again. A peer that is held as
    /// connected is left as it is: its connection stands.
    pub open spec fn dial_failed(self, peer: PeerId) -> PlmView {
        if self.is_connected(peer) {
            self
        } else {
            self.register(peer).register_disconnected(peer)
        }
    }

    /// The manager after a dial to the peer was given up: a peer that was
    /// marked as being dialed is dropped from the list, so that it neither
    /// counts as a dial under way nor is picked again and again; any other
    /// peer is left as it is.
    pub open spec fn abandon_dial(self, peer: PeerId) -> PlmView {
        if self.tracks(peer) && self.info(peer).state is Dialing {
            self.remove(peer)
        } else {
            self
        }
    }

    /// The manager after every peer of `peers` was registered, the first one
    /// first.
    pub open spec fn register_all(self, peers: Seq<PeerId>) -> PlmView
        decreases peers.len(),
    {
        if peers.len() == 0 {
            self
        } else {
            self.register_all(peers.drop_last()).register(peers.last())
        }
    }

    /// Whether a poll at time `now` asks for gossip: the gossip timer has
    /// fired and some peer is connected.
    pub open spec fn gossips(self, now: SimTime) -> bool {
        self.gossip_timer.fired(now) && self.connected().len() > 0
    }

    /// Whether `i` is the first disconnected peer of the list.
    pub open spec fn is_first_disconnected(self, i: int) -> bool {
        &&& 0 <= i < self.peers.len()
        &&& self.peers[i].info.state is Disconnected
        &&& forall|j: int| 0 <= j < i ==> !((#[trigger] self.peers[j]).info.state is Disconnected)
    }

    /// Whether some tracked peer is disconnected.
    pub open spec fn has_disconnected(self) -> bool {
        exists|i: int|
            0 <= i < self.peers.len() && (#[trigger] self.peers[i]).info.state is Disconnected
    }

    /// The position of the first disconnected peer of the list.
    pub open spec fn first_disconnected(self) -> int {
        choose|i: int| self.is_first_disconnected(i)
    }

    /// Whether a poll at time `now` asks for a dial: it asks for no gossip,
    /// the dial timer has fired, fewer dials are under way than may be, and
    /// some peer is disconnected.
    pub open spec fn dials(self, now: SimTime) -> bool {
        &&& !self.gossips(now)
        &&& self.dial_timer.fired(now)
        &&& dialing_count(self.peers) < self.config.dial_max_in_flight
        &&& self.has_disconnected()
    }

    /// Whether a poll at time `now` may return `event`. Gossip goes to some
    /// connected peer; a dial goes to the first disconnected peer.
    pub open spec fn poll_admits(self, now: SimTime, event: Option<PeerListManagerEvent>) -> bool {
        if self.gossips(now) {
            event matches Some(PeerListManagerEvent::SyncPeerList(peer)) && self.is_connected(peer)
        } else if self.dials(now) {
            event == Some(
                PeerListManagerEvent::Dial(self.peers[self.first_disconnected()].peer_id),
            )
        } else {
            event is None
        }
    }

    /// The manager after a poll at time `now`. A timer that has fired is
    /// armed anew, the dial timer only where the poll got as far as looking
    /// at it; a peer that is to be dialed is marked as being dialed.
    pub open spec fn after_poll(self, now: SimTime) -> PlmView {
        if self.gossips(now) {
            PlmView { gossip_timer: self.gossip_timer.observed(now), ..self }
        } else if self.dials(now) {
            let i = self.first_disconnected();
            PlmView {
                peers: self.peers.update(
                    i,
                    PeerRecord { peer_id: self.peers[i].peer_id, info: self.peers[i].info.dialed(now) },
                ),
                gossip_timer: self.gossip_timer.observed(now),
                dial_timer: self.dial_timer.observed(now),
                ..self
            }
        } else {
            PlmView {
                gossip_timer: self.gossip_timer.observed(now),
                dial_timer: self.dial_timer.observed(now),
                ..self
            }
        }
    }
}

/// In a list without repeated peers, a peer stands where it is found.
pub proof fn lemma_position(view: PlmView, i: int)
    requires
        view.wf(),
        0 <= i < view.peers.len(),
    ensures
        view.tracks(view.peers[i].peer_id),
        view.position(view.peers[i].peer_id) == i,
        view.info(view.peers[i].peer_id) == view.peers[i].info,
{
    let j = view.position(view.peers[i].peer_id);
    assert(0 <= j < view.peers.len() && view.peers[j].peer_id == view.peers[i].peer_id);
}

/// The connected peers are exactly the peers of the list whose state is
/// `Connected`, and the dials under way are no more than the list is long.
pub proof fn lemma_connected_ids(peers: Seq<PeerRecord>)
    ensures
        forall|peer: PeerId|
            connected_ids(peers).contains(peer) <==> exists|i: int|
                0 <= i < peers.len() && (#[trigger] peers[i]).peer_id == peer
                    && peers[i].info.state is Connected,
        connected_ids(peers).len() <= peers.len(),
        dialing_count(peers) <= peers.len(),
    decreases peers.len(),
{
    if peers.len() > 0 {
        let front = peers.drop_last();
        let last = peers.last();
        lemma_connected_ids(front);
        assert forall|peer: PeerId|
            connected_ids(peers).contains(peer) <==> exists|i: int|
                0 <= i < peers.len() && (#[trigger] peers[i]).peer_id == peer
                    && peers[i].info.state is Connected by {
            if connected_ids(peers).contains(peer) {
                let k = choose|k: int|
                    0 <= k < connected_ids(peers).len() && connected_ids(peers)[k] == peer;
                if last.info.state is Connected && k == connected_ids(front).len() {
                    assert(peers[peers.len() - 1].peer_id == peer);
                } else {
                    assert(connected_ids(front)[k] == peer);
                    assert(connected_ids(front).contains(peer));
                    let i = choose|i: int|
                        0 <= i < front.len() && (#[trigger] front[i]).peer_id == peer
                            && front[i].info.state is Connected;
                    assert(peers[i].peer_id == peer);
                }
            }
            if exists|i: int|
                0 <= i < peers.len() && (#[trigger] peers[i]).peer_id == peer
                    && peers[i].info.state is Connected {
                let i = choose|i: int|
                    0 <= i < peers.len() && (#[trigger] peers[i]).peer_id == peer
                        && peers[i].info.state is Connected;
                if i == peers.len() - 1 {
                    assert(connected_ids(peers)[connected_ids(front).len() as int] == peer);
                } else {
                    assert(front[i].peer_id == peer);
                    assert(connected_ids(front).contains(peer));
                    let k = choose|k: int|
                        0 <= k < connected_ids(front).len() && connected_ids(front)[k] == peer;
                    assert(connected_ids(peers)[k] == peer);
                }
            }
        }
    }
}

/// Where no peer is tracked twice, none is listed twice as connected.
pub proof fn lemma_connected_ids_distinct(peers: Seq<PeerRecord>)
    requires
        forall|i: int, j: int|
            0 <= i < j < peers.len() ==> (#[trigger] peers[i]).peer_id != (
            #[trigger] peers[j]).peer_id,
    ensures
        connected_ids(peers).no_duplicates(),
    decreases peers.len(),
{
    if peers.len() > 0 {
        let front = peers.drop_last();
        let last = peers.last();
        assert forall|i: int, j: int| 0 <= i < j < front.len() implies (#[trigger] front[i]).peer_id
            != (#[trigger] front[j]).peer_id by {
            assert(front[i] == peers[i] && front[j] == peers[j]);
        }
        lemma_connected_ids_distinct(front);
        lemma_connected_ids(front);
        if last.info.state is Connected {
            if connected_ids(front).contains(last.peer_id) {
                let i = choose|i: int|
                    0 <= i < front.len() && (#[trigger] front[i]).peer_id == last.peer_id
                        && front[i].info.state is Connected;
                assert(peers[i].peer_id == peers[peers.len() - 1].peer_id);
            }
            let ids = connected_ids(front);
            let all = ids.push(last.peer_id);
            assert forall|a: int, b: int| 0 <= a < all.len() && 0 <= b < all.len() && a != b implies all[a]
                != all[b] by {
                if a < ids.len() && b < ids.len() {
                } else if a < ids.len() {
                    assert(ids.contains(all[a]));
                } else {
                    assert(ids.contains(all[b]));
                }
            }
        }
    }
}

/// A peer-list manager that tracks every peer it hears of, gossips to one
/// random connected peer at a time and dials the disconnected peers one by
/// one, in the order in which it first heard of them.
pub struct SimplePeerListManager {
    config: PeerListManagerConfig,
    peers: Vec<PeerRecord>,
    exclude_peers: Vec<PeerId>,
    interval: IntervalTimer,
    dial_interval: IntervalTimer,
    rng: SimRng,
}

impl View for SimplePeerListManager {
    type V = PlmView;

    closed spec fn view(&self) -> PlmView {
        PlmView {
            peers: self.peers@,
            excluded: self.exclude_peers@.to_set(),
            gossip_timer: self.interval,
            dial_timer: self.dial_interval,
            config: self.config,
        }
    }
}

impl SimplePeerListManager {
    /// The generator from which the manager draws whom to gossip to and
    /// whom to hand over.
    pub closed spec fn generator(&self) -> SimRng {
        self.rng
    }

    /// A manager with the default settings that tracks and excludes nobody.
    /// Its timers are armed at time zero.
    pub fn build(rng: SimRng) -> (manager: SimplePeerListManager)
        ensures
            manager@.wf(),
            manager.generator() == rng,
            manager@.peers == Seq::<PeerRecord>::empty(),
            manager@.excluded == Set::<PeerId>::empty(),
            manager@.config == PeerListManagerConfig::standard(),
            manager@.gossip_timer == (IntervalTimer { armed_at: 0, interval: 2000 }),
            manager@.dial_timer == (IntervalTimer { armed_at: 0, interval: 1000 }),
    {
        let config: PeerListManagerConfig = Default::default();
        let manager = SimplePeerListManager {
            interval: IntervalTimer::new(0, config.exchange_peers_interval),
            dial_interval: IntervalTimer::new(0, config.dial_interval),
            exclude_peers: Vec::new(),
            config,
            peers: Vec::new(),
            rng,
        };
        assert(manager@.excluded =~= Set::<PeerId>::empty());
        manager
    }

    fn find_peer(&self, peer_id: PeerId) -> (slot: Option<usize>)
        ensures
            match slot {
                Some(i) => i < self@.peers.len() && self@.peers[i as int].peer_id == peer_id,
                None => !self@.tracks(peer_id),
            },
    {
        let mut i: usize = 0;
        while i < self.peers.len()
            invariant
                i <= self.peers.len(),
                forall|j: int| 0 <= j < i ==> (#[trigger] self.peers[j]).peer_id != peer_id,
            decreases self.peers.len() - i,
        {
            if self.peers[i].peer_id == peer_id {
                return Some(i);
            }
            i += 1;
        }
        None
    }

    /// Whether the peer is tracked.
    pub fn is_tracked(&self, peer_id: PeerId) -> (known: bool)
        ensures
            known == self@.tracks(peer_id),
    {
        self.find_peer(peer_id).is_some()
    }

    /// Whether the peer is excluded.
    pub fn is_excluded(&self, peer_id: PeerId) -> (excluded: bool)
        ensures
            excluded == self@.excluded.contains(peer_id),
    {
        find_key(&self.exclude_peers, peer_id).is_some()
    }

    /// What is known about the peer, if it is tracked.
    pub fn peer_info(&self, peer_id: PeerId) -> (info: Option<PeerInfo>)
        requires
            self@.wf(),
        ensures
            info == if self@.tracks(peer_id) {
                Some(self@.info(peer_id))
            } else {
                None
            },
    {
        match self.find_peer(peer_id) {
            Some(i) => {
                proof {
                    lemma_position(self@, i as int);
                }
                Some(self.peers[i].info)
            },
            None => None,
        }
    }

    /// The tracked peers, in the order in which they were first registered.
    pub fn tracked_peers(&self) -> (known: Vec<PeerId>)
        ensures
            known@.len() == self@.peers.len(),
            forall|i: int| 0 <= i < known@.len() ==> known@[i] == self@.peers[i].peer_id,
    {
        let mut known: Vec<PeerId> = Vec::new();
        let mut i: usize = 0;
        while i < self.peers.len()
            invariant
                i <= self.peers.len(),
                known@.len() == i,
                forall|j: int| 0 <= j < i ==> known@[j] == self.peers[j].peer_id,
            decreases self.peers.len() - i,
        {
            known.push(self.peers[i].peer_id);
            i += 1;
        }
        known
    }

    /// The connected peers, in the order in which they were first
    /// registered.
    pub fn connected_peers(&self) -> (connected: Vec<PeerId>)
        ensures
            connected@ == self@.connected(),
    {
        let mut connected: Vec<PeerId> = Vec::new();
        let mut i: usize = 0;
        assert(self.peers@.take(0) =~= Seq::<PeerRecord>::empty());
        while i < self.peers.len()
            invariant
                i <= self.peers.len(),
                connected@ == connected_ids(self.peers@.take(i as int)),
            decreases self.peers.len() - i,
        {
            proof {
                let next = self.peers@.take(i + 1);
                assert(next.drop_last() =~= self.peers@.take(i as int));
                assert(next.last() == self.peers[i as int]);
            }
            match self.peers[i].info.state {
                PeerState::Connected => {
                    connected.push(self.peers[i].peer_id);
                },
                _ => {},
            }
            i += 1;
        }
        assert(self.peers@.take(self.peers.len() as int) =~= self.peers@);
        connected
    }

    /// The number of peers to which a dial is under way.
    fn count_dialing(&self) -> (count: usize)
        ensures
            count == dialing_count(self@.peers),
    {
        let mut count: usize = 0;
        let mut i: usize = 0;
        assert(self.peers@.take(0) =~= Seq::<PeerRecord>::empty());
        while i < self.peers.len()
            invariant
                i <= self.peers.len(),
                count <= i,
                count == dialing_count(self.peers@.take(i as int)),
            decreases self.peers.len() - i,
        {
            proof {
                let next = self.peers@.take(i + 1);
                assert(next.drop_last() =~= self.peers@.take(i as int));
                assert(next.last() == self.peers[i as int]);
            }
            match self.peers[i].info.state {
                PeerState::Dialing(_) => {
                    count += 1;
                },
                _ => {},
            }
            i += 1;
        }
        assert(self.peers@.take(self.peers.len() as int) =~= self.peers@);
        count
    }

    /// The position of the first disconnected peer, if there is one.
    fn find_first_disconnected(&self) -> (found: Option<usize>)
        ensures
            match found {
                Some(i) => self@.is_first_disconnected(i as int),
                None => !self@.has_disconnected(),
            },
    {
        let mut i: usize = 0;
        while i < self.peers.len()
            invariant
                i <= self.peers.len(),
                forall|j: int| 0 <= j < i ==> !((#[trigger] self.peers[j]).info.state is Disconnected),
            decreases self.peers.len() - i,
        {
            match self.peers[i].info.state {
                PeerState::Disconnected => {
                    return Some(i);
                },
                _ => {},
            }
            i += 1;
        }
        None
    }

    /// Replaces the state of a tracked peer.
    fn set_state(&mut self, peer_id: PeerId, state: PeerState)
        requires
            old(self)@.wf(),
        ensures
            final(self).generator() == old(self).generator(),
            final(self)@.wf(),
            final(self)@ == old(self)@.set_state(peer_id, state),
    {
        match self.find_peer(peer_id) {
            Some(i) => {
                proof {
                    lemma_position(self@, i as int);
                }
                let record = self.peers[i];
                self.peers[i] = PeerRecord {
                    peer_id: record.peer_id,
                    info: PeerInfo {
                        reputation: record.info.reputation,
                        state,
                        dial_attempts: record.info.dial_attempts,
                    },
                };
                proof {
                    lemma_list_stays_well_formed(old(self)@, peer_id, state);
                    assert(self@.peers =~= old(self)@.set_state(peer_id, state).peers);
                }
            },
            None => {},
        }
    }
}

/// Removing one entry from a list without repeats leaves a list without
/// repeats that holds what the list held but for that entry.
proof fn lemma_remove_one(list: Seq<PeerId>, at: int)
    requires
        list.no_duplicates(),
        0 <= at < list.len(),
    ensures
        list.remove(at).no_duplicates(),
        list.remove(at).len() == list.len() - 1,
        !list.remove(at).contains(list[at]),
        forall|peer: PeerId|
            list.contains(peer) && peer != list[at] ==> #[trigger] list.remove(at).contains(peer),
        forall|peer: PeerId| #[trigger] list.remove(at).contains(peer) ==> list.contains(peer),
{
    let rest = list.remove(at);
    assert forall|k: int| 0 <= k < rest.len() implies #[trigger] rest[k] == list[if k < at {
        k
    } else {
        k + 1
    }] by {}
    assert forall|peer: PeerId| list.contains(peer) && peer != list[at] implies #[trigger] rest.contains(
        peer,
    ) by {
        let k = choose|k: int| 0 <= k < list.len() && list[k] == peer;
        if k < at {
            assert(rest[k] == peer);
        } else {
            assert(rest[k - 1] == peer);
        }
    }
}

impl PeerListManager for SimplePeerListManager {
    open spec fn wf(&self) -> bool {
        self@.wf()
    }

    open spec fn accepts_reputation(&self, peer_id: PeerId, reputation_delta: PeerReputation) -> bool {
        self@.tracks(peer_id) ==> i32::MIN <= self@.info(peer_id).reputation + reputation_delta
            <= i32::MAX
    }

    /// Tracks the peer as a fresh one at the end of the list, unless it is
    /// excluded or tracked already: then nothing changes.
    fn register_peer(&mut self, peer_id: PeerId)
        ensures
            final(self).generator() == old(self).generator(),
            final(self)@ == old(self)@.register(peer_id),
    {
        if self.is_excluded(peer_id) {
            return ;
        }
        if self.find_peer(peer_id).is_some() {
            return ;
        }
        self.peers.push(
            PeerRecord {
                peer_id,
                info: PeerInfo { reputation: 0, state: PeerState::Disconnected, dial_attempts: 0 },
            },
        );
        proof {
            lemma_list_stays_well_formed(old(self)@, peer_id, PeerState::Disconnected);
            assert(self@.peers =~= old(self)@.register(peer_id).peers);
        }
    }

    /// Tracks the peer if need be and marks it as connected. Nothing changes
    /// for an excluded peer.
    fn register_peer_connected(&mut self, peer_id: PeerId)
        ensures
            final(self).generator() == old(self).generator(),
            final(self)@ == old(self)@.register_connected(peer_id),
    {
        self.register_peer(peer_id);
        self.set_state(peer_id, PeerState::Connected);
    }

    /// Marks the peer as disconnected if it is tracked. The peer stays in
    /// the list.
    fn register_peer_disconnected(&mut self, peer_id: PeerId)
        ensures
            final(self).generator() == old(self).generator(),
            final(self)@ == old(self)@.register_disconnected(peer_id),
    {
        self.set_state(peer_id, PeerState::Disconnected);
    }

    /// Bars the peer from the list: it is dropped if it is tracked, and
    /// registering it does nothing from now on.
    fn exclude_peer(&mut self, peer_id: PeerId)
        ensures
            final(self).generator() == old(self).generator(),
            final(self)@ == old(self)@.exclude(peer_id),
    {
        self.remove_peer(&peer_id);
        proof {
            lemma_push_joins_the_set(self.exclude_peers@, peer_id);
        }
        if !self.is_excluded(peer_id) {
            self.exclude_peers.push(peer_id);
        }
        proof {
            lemma_list_stays_well_formed(old(self)@, peer_id, PeerState::Disconnected);
        }
    }

    /// One of the connected peers, or nothing where none is connected. The
    /// manager's list is as it was.
    fn get_random_connected_peer(&mut self) -> (picked: Option<PeerId>)
        ensures
            final(self)@ == old(self)@,
            picked is Some <==> old(self)@.connected().len() > 0,
            picked matches Some(peer) ==> old(self)@.connected().contains(peer)
                && old(self)@.is_connected(peer),
    {
        let peer_ids = self.connected_peers();
        let picked = choose_one(&mut self.rng, &peer_ids);
        proof {
            lemma_connected_ids(self@.peers);
            if let Some(peer) = picked {
                let i = choose|i: int|
                    0 <= i < self@.peers.len() && (#[trigger] self@.peers[i]).peer_id == peer
                        && self@.peers[i].info.state is Connected;
                lemma_position(self@, i);
            }
        }
        picked
    }

    /// A sample of the connected peers without repeats: all of them, in the
    /// order of the list, where there are no more than `n`, else `n` of them
    /// drawn at random. The manager's list is as it was.
    fn get_random_peers(&mut self, n: usize) -> (picked: Vec<PeerId>)
        ensures
            final(self)@ == old(self)@,
            picked@.no_duplicates(),
            forall|i: int| 0 <= i < picked@.len() ==> old(self)@.connected().contains(picked@[i]),
            picked@.len() == if n <= old(self)@.connected().len() {
                n as int
            } else {
                old(self)@.connected().len() as int
            },
            old(self)@.connected().len() <= n ==> picked@ == old(self)@.connected(),
    {
        let peer_ids = self.connected_peers();
        proof {
            lemma_connected_ids_distinct(self@.peers);
        }
        if peer_ids.len() <= n {
            return peer_ids;
        }
        let ghost all = peer_ids@;
        let mut remaining = peer_ids;
        let mut selected: Vec<PeerId> = Vec::new();
        while selected.len() < n
            invariant
                self@ == old(self)@,
                all == old(self)@.connected(),
                n < all.len(),
                selected@.len() <= n,
                selected@.len() + remaining@.len() == all.len(),
                selected@.no_duplicates(),
                remaining@.no_duplicates(),
                forall|i: int| 0 <= i < selected@.len() ==> all.contains(#[trigger] selected@[i]),
                forall|i: int| 0 <= i < remaining@.len() ==> all.contains(#[trigger] remaining@[i]),
                forall|i: int| 0 <= i < selected@.len() ==> !remaining@.contains(#[trigger] selected@[i]),
            decreases n - selected@.len(),
        {
            match choose_one(&mut self.rng, &remaining) {
                Some(peer_id) => {
                    match find_key(&remaining, peer_id) {
                        Some(at) => {
                            let ghost before = remaining@;
                            let ghost chosen = selected@;
                            proof {
                                lemma_remove_one(before, at as int);
                            }
                            remaining.remove(at);
                            selected.push(peer_id);
                            proof {
                                assert forall|i: int| 0 <= i < remaining@.len() implies all.contains(
                                    #[trigger] remaining@[i],
                                ) by {
                                    assert(remaining@.contains(remaining@[i]));
                                    let k = choose|k: int|
                                        0 <= k < before.len() && before[k] == remaining@[i];
                                    assert(all.contains(before[k]));
                                }
                                assert forall|i: int| 0 <= i < selected@.len() implies 
                                    !remaining@.contains(#[trigger] selected@[i]) by {
                                    if i < chosen.len() {
                                        assert(selected@[i] == chosen[i]);
                                        assert(!before.contains(chosen[i]));
                                    }
                                }
                                assert forall|a: int, b: int|
                                    0 <= a < selected@.len() && 0 <= b < selected@.len() && a
                                        != b implies selected@[a] != selected@[b] by {
                                    if a < chosen.len() && b < chosen.len() {
                                        assert(chosen[a] != chosen[b]);
                                    } else if a < chosen.len() {
                                        assert(selected@[a] == chosen[a]);
                                        assert(!before.contains(chosen[a]));
                                    } else {
                                        assert(selected@[b] == chosen[b]);
                                        assert(!before.contains(chosen[b]));
                                    }
                                }
                                assert forall|i: int| 0 <= i < selected@.len() implies all.contains(
                                    #[trigger] selected@[i],
                                ) by {
                                    if i < chosen.len() {
                                        assert(selected@[i] == chosen[i]);
                                    } else {
                                        assert(all.contains(before[at as int]));
                                    }
                                }
                            }
                        },
                        None => {
                            assert(false);
                        },
                    }
                },
                None => {
                    assert(false);
                },
            }
        }
        selected
    }

    /// Drops the peer from the list, if it is tracked.
    fn remove_peer(&mut self, peer_id: &PeerId)
        ensures
            final(self).generator() == old(self).generator(),
            final(self)@ == old(self)@.remove(*peer_id),
    {
        match self.find_peer(*peer_id) {
            Some(i) => {
                proof {
                    lemma_position(self@, i as int);
                }
                self.peers.remove(i);
                proof {
                    lemma_list_stays_well_formed(old(self)@, *peer_id, PeerState::Disconnected);
                    assert(self@.peers =~= old(self)@.remove(*peer_id).peers);
                }
            },
            None => {},
        }
    }

    /// Adds `reputation_delta` to the reputation of the peer, if it is
    /// tracked.
    fn update_peer_reputation(&mut self, peer_id: &PeerId, reputation_delta: PeerReputation)
        ensures
            final(self).generator() == old(self).generator(),
            final(self)@ == old(self)@.add_reputation(*peer_id, reputation_delta),
    {
        match self.find_peer(*peer_id) {
            Some(i) => {
                proof {
                    lemma_position(self@, i as int);
                }
                let record = self.peers[i];
                self.peers[i] = PeerRecord {
                    peer_id: record.peer_id,
                    info: PeerInfo {
                        reputation: record.info.reputation + reputation_delta,
                        state: record.info.state,
                        dial_attempts: record.info.dial_attempts,
                    },
                };
                proof {
                    let was = old(self)@;
                    let cur = self@;
                    assert(cur.peers =~= was.add_reputation(*peer_id, reputation_delta).peers);
                    assert forall|a: int| 0 <= a < cur.peers.len() implies (#[trigger] cur.peers[a]).peer_id
                        == was.peers[a].peer_id by {}
                }
            },
            None => {},
        }
    }

    /// The connected peers, in the order in which they were first
    /// registered.
    fn connections(&self) -> (connected: Vec<PeerId>)
        ensures
            connected@ == self@.connected(),
    {
        self.connected_peers()
    }

    /// Decides what to do at time `now`.
    ///
    /// If the gossip timer has fired it is armed anew and, where a peer is
    /// connected, the answer is `SyncPeerList` for one of the connected
    /// peers. Otherwise, if the dial timer has fired, it is armed anew and,
    /// where fewer dials are under way than the settings allow and a peer is
    /// disconnected, the first disconnected peer of the list is marked as
    /// being dialed, with `now` as the time of the dial and one more attempt
    /// to its count, and the answer is `Dial` for that peer. In every other
    /// case there is nothing to do.
    fn poll(&mut self, now: SimTime) -> (event: Option<PeerListManagerEvent>)
        ensures
            old(self)@.poll_admits(now, event),
            final(self)@ == old(self)@.after_poll(now),
    {
        if self.interval.has_fired(now) {
            self.interval.reset(now);
            match self.get_random_connected_peer() {
                Some(peer_id) => {
                    return Some(PeerListManagerEvent::SyncPeerList(peer_id));
                },
                None => {},
            }
        }
        if self.dial_interval.has_fired(now) {
            self.dial_interval.reset(now);
            if self.count_dialing() < self.config.dial_max_in_flight {
                match self.find_first_disconnected() {
                    Some(i) => {
                        let record = self.peers[i];
                        let attempts = if record.info.dial_attempts < u64::MAX {
                            record.info.dial_attempts + 1
                        } else {
                            record.info.dial_attempts
                        };
                        proof {
                            let v = old(self)@;
                            assert(v.is_first_disconnected(i as int));
                            assert(v.has_disconnected());
                            let c = v.first_disconnected();
                            assert(v.is_first_disconnected(c));
                            assert(c == i);
                        }
                        self.peers[i] = PeerRecord {
                            peer_id: record.peer_id,
                            info: PeerInfo {
                                reputation: record.info.reputation,
                                state: PeerState::Dialing(
                                    DialInfo { last_dial: Some(now), attempts },
                                ),
                                dial_attempts: attempts,
                            },
                        };
                        proof {
                            let was = old(self)@;
                            let cur = self@;
                            assert(cur.peers =~= was.after_poll(now).peers);
                            assert forall|a: int| 0 <= a < cur.peers.len() implies (
                            #[trigger] cur.peers[a]).peer_id == was.peers[a].peer_id by {}
                        }
                        return Some(PeerListManagerEvent::Dial(record.peer_id));
                    },
                    None => {},
                }
            }
        }
        None
    }
}

} // verus!
