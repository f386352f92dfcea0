use vstd::prelude::*;

use crate::peer_list_manager::simple::PeerState;
use crate::peer_list_manager::simple::PlmView;
use crate::peer_list_manager::simple::lemma_position;
use crate::types::PeerId;
use crate::types::SimTime;

verus! {

/// Every step of the manager's list keeps it free of repeated and of
/// excluded peers.
pub proof fn lemma_list_stays_well_formed(view: PlmView, peer: PeerId, state: PeerState)
    requires
        view.wf(),
    ensures
        view.register(peer).wf(),
        view.set_state(peer, state).wf(),
        view.remove(peer).wf(),
        view.exclude(peer).wf(),
{
    let registered = view.register(peer);
    assert forall|i: int, j: int| 0 <= i < j < registered.peers.len() implies (
    #[trigger] registered.peers[i]).peer_id != (#[trigger] registered.peers[j]).peer_id by {
        if j < view.peers.len() {
            assert(view.peers[i].peer_id != view.peers[j].peer_id);
        } else {
            assert(view.peers[i].peer_id != peer);
        }
    }
    assert forall|i: int| 0 <= i < registered.peers.len() implies !registered.excluded.contains(
        (#[trigger] registered.peers[i]).peer_id,
    ) by {
        if i < view.peers.len() {
            assert(!view.excluded.contains(view.peers[i].peer_id));
        }
    }
    let stated = view.set_state(peer, state);
    assert forall|i: int| 0 <= i < stated.peers.len() implies (#[trigger] stated.peers[i]).peer_id
        == view.peers[i].peer_id by {
        if view.tracks(peer) {
            lemma_position(view, view.position(peer));
        }
    }
    let removed = view.remove(peer);
    if view.tracks(peer) {
        let at = view.position(peer);
        assert forall|k: int| 0 <= k < removed.peers.len() implies #[trigger] removed.peers[k]
            == view.peers[if k < at {
            k
        } else {
            k + 1
        }] by {}
        assert forall|i: int, j: int| 0 <= i < j < removed.peers.len() implies (
        #[trigger] removed.peers[i]).peer_id != (#[trigger] removed.peers[j]).peer_id by {
            let i0 = if i < at { i } else { i + 1 };
            let j0 = if j < at { j } else { j + 1 };
            assert(view.peers[i0].peer_id != view.peers[j0].peer_id);
        }
        assert forall|i: int| 0 <= i < removed.peers.len() implies !removed.excluded.contains(
            (#[trigger] removed.peers[i]).peer_id,
        ) && removed.peers[i].peer_id != peer by {
            let i0 = if i < at { i } else { i + 1 };
            assert(!view.excluded.contains(view.peers[i0].peer_id));
            if i0 < at {
                assert(view.peers[i0].peer_id != view.peers[at].peer_id);
            } else {
                assert(view.peers[at].peer_id != view.peers[i0].peer_id);
            }
        }
    }
    let barred = view.exclude(peer);
    assert(barred.peers == removed.peers);
    assert forall|i: int| 0 <= i < barred.peers.len() implies !barred.excluded.contains(
        (#[trigger] barred.peers[i]).peer_id,
    ) by {
        assert(!removed.excluded.contains(removed.peers[i].peer_id));
        if !view.tracks(peer) {
            assert(removed.peers[i].peer_id != peer);
        }
    }
}

/// Registering a peer twice is the same as registering it once.
pub proof fn lemma_register_is_idempotent(view: PlmView, peer: PeerId)
    requires
        view.wf(),
    ensures
        view.register(peer).register(peer) == view.register(peer),
{
    let once = view.register(peer);
    if !view.excluded.contains(peer) && !view.tracks(peer) {
        assert(once.peers[view.peers.len() as int].peer_id == peer);
        assert(once.tracks(peer));
    }
}

/// A peer that was excluded is not tracked, and registering it afterwards
/// changes nothing.
pub proof fn lemma_excluded_peer_stays_out(view: PlmView, peer: PeerId)
    requires
        view.wf(),
    ensures
        !view.exclude(peer).tracks(peer),
        view.exclude(peer).register(peer) == view.exclude(peer),
        !view.exclude(peer).register(peer).tracks(peer),
{
    lemma_list_stays_well_formed(view, peer, PeerState::Connected);
    let barred = view.exclude(peer);
    if barred.tracks(peer) {
        let i = barred.position(peer);
        assert(!barred.excluded.contains(barred.peers[i].peer_id));
    }
}

/// A peer that connects and then disconnects is tracked as disconnected: it
/// is never dropped from the list, and nobody else is either. For an
/// excluded peer the two steps change nothing.
pub proof fn lemma_disconnected_peer_stays_listed(view: PlmView, peer: PeerId)
    requires
        view.wf(),
    ensures
        ({
            let after = view.register_connected(peer).register_disconnected(peer);
            &&& !view.excluded.contains(peer) ==> after.tracks(peer) && after.info(peer).state
                is Disconnected
            &&& view.excluded.contains(peer) ==> after == view
            &&& forall|other: PeerId| view.tracks(other) ==> after.tracks(other)
            &&& after.wf()
        }),
{
    let registered = view.register(peer);
    lemma_list_stays_well_formed(view, peer, PeerState::Connected);
    let connected = registered.set_state(peer, PeerState::Connected);
    lemma_list_stays_well_formed(registered, peer, PeerState::Connected);
    let after = connected.set_state(peer, PeerState::Disconnected);
    lemma_list_stays_well_formed(connected, peer, PeerState::Disconnected);
    if view.excluded.contains(peer) {
        if view.tracks(peer) {
            let i = view.position(peer);
            assert(!view.excluded.contains(view.peers[i].peer_id));
        }
        assert(after == view);
    } else {
        if !view.tracks(peer) {
            assert(registered.peers[view.peers.len() as int].peer_id == peer);
        }
        assert(registered.tracks(peer));
        let at = registered.position(peer);
        assert(connected.peers[at].peer_id == peer);
        assert(connected.tracks(peer));
        let at2 = connected.position(peer);
        assert(after.peers[at2].peer_id == peer);
        assert(after.tracks(peer));
        lemma_position(after, at2);
    }
    assert forall|other: PeerId| view.tracks(other) implies after.tracks(other) by {
        let i = view.position(other);
        assert(registered.peers[i].peer_id == other);
        assert(registered.tracks(other));
        let j = registered.position(other);
        assert(connected.peers.len() == registered.peers.len());
        if registered.tracks(peer) {
            lemma_position(registered, registered.position(peer));
        }
        assert(connected.peers[j].peer_id == other);
        assert(connected.tracks(other));
        let k = connected.position(other);
        if connected.tracks(peer) {
            lemma_position(connected, connected.position(peer));
        }
        assert(after.peers[k].peer_id == other);
    }
}

/// Registering a peer connects nobody.
pub proof fn lemma_connected_after_register(view: PlmView, peer: PeerId, other: PeerId)
    requires
        view.wf(),
    ensures
        view.register(peer).is_connected(other) == view.is_connected(other),
{
    let after = view.register(peer);
    lemma_list_stays_well_formed(view, peer, PeerState::Connected);
    if !view.excluded.contains(peer) && !view.tracks(peer) {
        let end = view.peers.len() as int;
        lemma_position(after, end);
        if view.tracks(other) {
            let i = view.position(other);
            assert(after.peers[i] == view.peers[i]);
            lemma_position(view, i);
            lemma_position(after, i);
        } else if after.tracks(other) {
            let i = after.position(other);
            if i < end {
                assert(view.peers[i].peer_id == other);
            }
        }
    }
}

/// Replacing the state of a peer changes who is connected for that peer
/// alone.
pub proof fn lemma_connected_after_set_state(
    view: PlmView,
    peer: PeerId,
    state: PeerState,
    other: PeerId,
)
    requires
        view.wf(),
    ensures
        view.set_state(peer, state).tracks(other) == view.tracks(other),
        view.set_state(peer, state).is_connected(other) == if other == peer && view.tracks(peer) {
            state is Connected
        } else {
            view.is_connected(other)
        },
{
    let after = view.set_state(peer, state);
    lemma_list_stays_well_formed(view, peer, state);
    if view.tracks(peer) {
        let at = view.position(peer);
        lemma_position(view, at);
        assert(after.peers[at].peer_id == peer);
        lemma_position(after, at);
        if view.tracks(other) {
            let i = view.position(other);
            lemma_position(view, i);
            assert(after.peers[i].peer_id == other);
            lemma_position(after, i);
        } else if after.tracks(other) {
            let i = after.position(other);
            assert(view.peers[i].peer_id == other);
        }
    }
}

/// A poll keeps the list well-formed, excludes nobody anew, tracks the same
/// peers and connects or disconnects nobody.
pub proof fn lemma_connected_after_poll(view: PlmView, now: SimTime, other: PeerId)
    requires
        view.wf(),
    ensures
        view.after_poll(now).wf(),
        view.after_poll(now).excluded == view.excluded,
        view.after_poll(now).tracks(other) == view.tracks(other),
        view.after_poll(now).is_connected(other) == view.is_connected(other),
{
    let after = view.after_poll(now);
    if !view.gossips(now) && view.dials(now) {
        let at = view.first_disconnected();
        assert(view.is_first_disconnected(at)) by {
            let i = choose|i: int|
                0 <= i < view.peers.len() && (#[trigger] view.peers[i]).info.state is Disconnected;
            lemma_has_first_disconnected(view, i);
        }
        assert forall|i: int| 0 <= i < after.peers.len() implies (#[trigger] after.peers[i]).peer_id
            == view.peers[i].peer_id by {}
        lemma_position(view, at);
        lemma_position(after, at);
        if view.tracks(other) {
            let i = view.position(other);
            lemma_position(view, i);
            assert(after.peers[i].peer_id == other);
            lemma_position(after, i);
        } else if after.tracks(other) {
            let i = after.position(other);
            assert(view.peers[i].peer_id == other);
        }
    }
}

/// Where the peer at `upto` is disconnected, some peer is the first
/// disconnected one.
pub proof fn lemma_has_first_disconnected(view: PlmView, upto: int)
    requires
        0 <= upto < view.peers.len(),
        view.peers[upto].info.state is Disconnected,
    ensures
        exists|i: int| view.is_first_disconnected(i),
    decreases upto,
{
    if exists|j: int| 0 <= j < upto && (#[trigger] view.peers[j]).info.state is Disconnected {
        let j = choose|j: int| 0 <= j < upto && (#[trigger] view.peers[j]).info.state is Disconnected;
        lemma_has_first_disconnected(view, j);
    } else {
        assert(view.is_first_disconnected(upto));
    }
}

/// Registering a list of peers keeps the list well-formed, excludes nobody
/// anew, forgets nobody and connects nobody.
pub proof fn lemma_connected_after_register_all(view: PlmView, peers: Seq<PeerId>, other: PeerId)
    requires
        view.wf(),
    ensures
        view.register_all(peers).wf(),
        view.register_all(peers).excluded == view.excluded,
        view.tracks(other) ==> view.register_all(peers).tracks(other),
        view.register_all(peers).is_connected(other) == view.is_connected(other),
    decreases peers.len(),
{
    if peers.len() > 0 {
        let before = view.register_all(peers.drop_last());
        lemma_connected_after_register_all(view, peers.drop_last(), other);
        lemma_list_stays_well_formed(before, peers.last(), PeerState::Connected);
        lemma_connected_after_register(before, peers.last(), other);
        if before.tracks(other) {
            let i = before.position(other);
            assert(before.register(peers.last()).peers[i].peer_id == other);
        }
    }
}

/// Dropping or excluding a peer changes who is tracked and who is connected
/// for that peer alone.
pub proof fn lemma_connected_after_remove(view: PlmView, peer: PeerId, other: PeerId)
    requires
        view.wf(),
    ensures
        view.remove(peer).tracks(other) == (other != peer && view.tracks(other)),
        view.remove(peer).is_connected(other) == (other != peer && view.is_connected(other)),
        view.exclude(peer).tracks(other) == (other != peer && view.tracks(other)),
        view.exclude(peer).is_connected(other) == (other != peer && view.is_connected(other)),
{
    let after = view.remove(peer);
    lemma_list_stays_well_formed(view, peer, PeerState::Connected);
    assert(view.exclude(peer).peers == after.peers);
    if view.tracks(peer) {
        let at = view.position(peer);
        lemma_position(view, at);
        assert forall|k: int| 0 <= k < after.peers.len() implies #[trigger] after.peers[k]
            == view.peers[if k < at {
            k
        } else {
            k + 1
        }] by {}
        if after.tracks(other) {
            let k = after.position(other);
            let k0 = if k < at { k } else { k + 1 };
            assert(view.peers[k0].peer_id == other);
            lemma_position(view, k0);
            lemma_position(after, k);
        }
        if other != peer && view.tracks(other) {
            let i = view.position(other);
            lemma_position(view, i);
            let k = if i < at { i } else { i - 1 };
            assert(after.peers[k].peer_id == other);
            lemma_position(after, k);
        }
    }
    let barred = view.exclude(peer);
    assert(barred.tracks(other) == after.tracks(other));
    if barred.tracks(other) {
        assert(barred.position(other) == after.position(other));
    }
}

/// Telling the manager of a connection connects that peer, unless it is
/// excluded, and nobody else.
pub proof fn lemma_connected_after_connection(view: PlmView, peer: PeerId, other: PeerId)
    requires
        view.wf(),
    ensures
        view.register_connected(peer).wf(),
        view.register_connected(peer).excluded == view.excluded,
        view.register_connected(peer).is_connected(other) == if other == peer {
            !view.excluded.contains(peer)
        } else {
            view.is_connected(other)
        },
{
    let registered = view.register(peer);
    lemma_list_stays_well_formed(view, peer, PeerState::Connected);
    lemma_list_stays_well_formed(registered, peer, PeerState::Connected);
    lemma_connected_after_register(view, peer, other);
    lemma_connected_after_set_state(registered, peer, PeerState::Connected, other);
    if view.excluded.contains(peer) {
        if view.tracks(peer) {
            let i = view.position(peer);
            assert(!view.excluded.contains(view.peers[i].peer_id));
        }
    } else if !view.tracks(peer) {
        assert(registered.peers[view.peers.len() as int].peer_id == peer);
    }
}

/// A failed dial and a dial that was given up connect nobody and disconnect
/// nobody.
pub proof fn lemma_connected_after_lost_dial(view: PlmView, peer: PeerId, other: PeerId)
    requires
        view.wf(),
    ensures
        view.dial_failed(peer).wf(),
        view.dial_failed(peer).excluded == view.excluded,
        view.dial_failed(peer).is_connected(other) == view.is_connected(other),
        view.abandon_dial(peer).wf(),
        view.abandon_dial(peer).excluded == view.excluded,
        view.abandon_dial(peer).is_connected(other) == view.is_connected(other),
{
    let registered = view.register(peer);
    lemma_list_stays_well_formed(view, peer, PeerState::Disconnected);
    lemma_list_stays_well_formed(registered, peer, PeerState::Disconnected);
    lemma_connected_after_register(view, peer, other);
    lemma_connected_after_register(view, peer, peer);
    lemma_connected_after_set_state(registered, peer, PeerState::Disconnected, other);
    lemma_connected_after_remove(view, peer, other);
}

/// Telling the manager that a peer is gone disconnects that peer and nobody
/// else.
pub proof fn lemma_connected_after_loss(view: PlmView, peer: PeerId, other: PeerId)
    requires
        view.wf(),
    ensures
        view.register_disconnected(peer).wf(),
        view.register_disconnected(peer).excluded == view.excluded,
        view.register_disconnected(peer).is_connected(other) == (other != peer
            && view.is_connected(other)),
{
    lemma_list_stays_well_formed(view, peer, PeerState::Disconnected);
    lemma_connected_after_set_state(view, peer, PeerState::Disconnected, other);
}

} // verus!
