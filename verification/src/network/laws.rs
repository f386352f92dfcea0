use vstd::prelude::*;

use crate::network::ProtocolMessage;
use crate::network::sim::DialerOutcome;
use crate::network::sim::lemma_resolve_keeps_wf;
use crate::network::sim::lemma_same_dials_stay_admitted;
use crate::network::sim::NetView;
use crate::network::sim::SimNetworkEvent;
use crate::types::PeerId;
use crate::types::SimTime;

verus! {

/// Every dial that the fabric holds ripens no sooner after its scheduling
/// than the shortest delay of the settings and sooner than the longest.
pub proof fn lemma_dial_ripens_within_bounds(net: NetView, i: int)
    requires
        net.wf(),
        0 <= i < net.pending.len(),
    ensures
        net.config.connection_delay_min <= net.pending[i].ripens_at() - net.pending[i].scheduled_at
            < net.config.connection_delay_max,
{
    assert(net.admits(net.pending[i]));
}

/// Every dial is ripe once the longest delay of the settings has passed
/// since its scheduling, so the step at that time or any later one resolves
/// it.
pub proof fn lemma_dial_is_ripe_after_longest_delay(net: NetView, i: int, now: SimTime)
    requires
        net.wf(),
        0 <= i < net.pending.len(),
        net.pending[i].scheduled_at + net.config.connection_delay_max <= now,
    ensures
        net.pending[i].ripe(now),
        net.at(now).pending[i].ripe(now),
{
    lemma_dial_ripens_within_bounds(net, i);
}

/// A fabric without endpoints holds no dial, so a step moves its clock and
/// does nothing else.
pub proof fn lemma_step_without_clients(net: NetView, now: SimTime)
    requires
        net.wf(),
        forall|peer: PeerId| !net.clients.contains_key(peer),
    ensures
        net.pending.len() == 0,
        net.step(now) == net.at(now),
{
    if net.pending.len() > 0 {
        assert(net.admits(net.pending[0]));
    }
    assert(!net.at(now).has_ripe(now));
}

/// Resolving a dial that succeeds tells both ends at once: the dialer finds
/// `OutboundEstablished` and the dialed peer `InboundEstablished` at the end
/// of their events. A dial that fails tells the dialer alone.
pub proof fn lemma_resolve_tells_both_ends(net: NetView, i: int)
    requires
        net.wf(),
        0 <= i < net.pending.len(),
    ensures
        net.resolve(i).wf(),
        net.resolve(i).pending == net.pending.remove(i),
        net.resolve(i).clients.dom() == net.clients.dom(),
        match net.pending[i].outcome {
            DialerOutcome::Success(from, to) => {
                let out = (to, SimNetworkEvent::OutboundEstablished { to });
                let inb = (from, SimNetworkEvent::InboundEstablished { from });
                &&& from != to ==> net.resolve(i).events(from) == net.events(from).push(out)
                &&& from != to ==> net.resolve(i).events(to) == net.events(to).push(inb)
                &&& from == to ==> net.resolve(i).events(from) == net.events(from).push(out).push(
                    inb,
                )
                &&& forall|peer: PeerId|
                    peer != from && peer != to ==> net.resolve(i).events(peer) == net.events(peer)
            },
            DialerOutcome::Failure(from, to) => {
                &&& net.resolve(i).events(from) == net.events(from).push(
                    (to, SimNetworkEvent::OutboundFailure { to }),
                )
                &&& forall|peer: PeerId|
                    peer != from ==> net.resolve(i).events(peer) == net.events(peer)
            },
        },
        forall|peer: PeerId| net.resolve(i).inbox(peer) == net.inbox(peer),
{
    lemma_resolve_keeps_wf(net, i);
    assert(net.admits(net.pending[i]));
}

/// Whether `old` stands at the front of `new`.
pub open spec fn extends<T>(new: Seq<T>, old: Seq<T>) -> bool {
    old.len() <= new.len() && new.subrange(0, old.len() as int) == old
}

/// A step only adds to the events of the endpoints: what waited before
/// still waits, in the same place. It registers nobody, leaves every inbox
/// alone and leaves no ripe dial behind.
pub proof fn lemma_settle_extends_events(net: NetView, now: SimTime)
    requires
        net.wf(),
    ensures
        net.settle(now).wf(),
        !net.settle(now).has_ripe(now),
        net.settle(now).clients.dom() == net.clients.dom(),
        net.settle(now).now == net.now,
        net.settle(now).config == net.config,
        forall|peer: PeerId| extends(#[trigger] net.settle(now).events(peer), net.events(peer)),
        forall|peer: PeerId| #[trigger] net.settle(now).inbox(peer) == net.inbox(peer),
    decreases net.pending.len(),
{
    if net.has_ripe(now) && 0 <= net.next_ripe(now) < net.pending.len() {
        let i = net.next_ripe(now);
        let mid = net.resolve(i);
        lemma_resolve_tells_both_ends(net, i);
        lemma_settle_extends_events(mid, now);
        assert forall|peer: PeerId| extends(
            #[trigger] net.settle(now).events(peer),
            net.events(peer),
        ) by {
            let first = net.events(peer);
            let second = mid.events(peer);
            let third = mid.settle(now).events(peer);
            assert(extends(third, second));
            assert(extends(second, first)) by {
                match net.pending[i].outcome {
                    DialerOutcome::Success(from, to) => {
                        let out = (to, SimNetworkEvent::OutboundEstablished { to });
                        let inb = (from, SimNetworkEvent::InboundEstablished { from });
                        if peer == from && from == to {
                            assert(first.push(out).push(inb).subrange(0, first.len() as int)
                                =~= first);
                        } else if peer == from {
                            assert(first.push(out).subrange(0, first.len() as int) =~= first);
                        } else if peer == to {
                            assert(first.push(inb).subrange(0, first.len() as int) =~= first);
                        } else {
                            assert(first.subrange(0, first.len() as int) =~= first);
                        }
                    },
                    DialerOutcome::Failure(from, to) => {
                        let fail = (to, SimNetworkEvent::OutboundFailure { to });
                        if peer == from {
                            assert(first.push(fail).subrange(0, first.len() as int) =~= first);
                        } else {
                            assert(first.subrange(0, first.len() as int) =~= first);
                        }
                    },
                }
            }
            assert(third.subrange(0, first.len() as int) =~= second.subrange(
                0,
                first.len() as int,
            ));
        }
    } else {
        if net.has_ripe(now) {
            lemma_some_dial_is_next(net, now);
        }
        assert forall|peer: PeerId| extends(
            #[trigger] net.settle(now).events(peer),
            net.events(peer),
        ) by {
            assert(net.events(peer).subrange(0, net.events(peer).len() as int) =~= net.events(peer));
        }
    }
}

/// Among the first `upto` dials, if one is ripe then one of them is the one
/// to resolve first.
proof fn lemma_earliest_among(net: NetView, now: SimTime, upto: int) -> (best: int)
    requires
        0 <= upto <= net.pending.len(),
        exists|k: int| 0 <= k < upto && (#[trigger] net.pending[k]).ripe(now),
    ensures
        0 <= best < upto,
        net.pending[best].ripe(now),
        forall|j: int|
            0 <= j < upto && (#[trigger] net.pending[j]).ripe(now) ==> {
                ||| net.pending[best].ripens_at() < net.pending[j].ripens_at()
                ||| net.pending[best].ripens_at() == net.pending[j].ripens_at() && best <= j
            },
    decreases upto,
{
    let last = upto - 1;
    if exists|k: int| 0 <= k < last && (#[trigger] net.pending[k]).ripe(now) {
        let before = lemma_earliest_among(net, now, last);
        if net.pending[last].ripe(now) && net.pending[last].ripens_at()
            < net.pending[before].ripens_at() {
            last
        } else {
            before
        }
    } else {
        let k = choose|k: int| 0 <= k < upto && (#[trigger] net.pending[k]).ripe(now);
        assert(k == last);
        last
    }
}

/// Where a dial is ripe, some dial is the next to resolve.
pub proof fn lemma_some_dial_is_next(net: NetView, now: SimTime)
    requires
        net.has_ripe(now),
    ensures
        exists|i: int| net.is_next_ripe(i, now),
        net.is_next_ripe(net.next_ripe(now), now),
{
    let best = lemma_earliest_among(net, now, net.pending.len() as int);
    assert(net.is_next_ripe(best, now));
}

/// A step resolves every dial that is ripe by then. For one that succeeds,
/// the dialer finds `OutboundEstablished` and the dialed peer
/// `InboundEstablished` among their events after that same step.
pub proof fn lemma_step_delivers_success(net: NetView, now: SimTime, i: int)
    requires
        net.wf(),
        0 <= i < net.pending.len(),
        net.pending[i].ripe(now),
        net.pending[i].outcome is Success,
    ensures
        ({
            let from = net.pending[i].outcome.from();
            let to = net.pending[i].outcome.to();
            &&& net.step(now).events(from).contains(
                (to, SimNetworkEvent::OutboundEstablished { to }),
            )
            &&& net.step(now).events(to).contains(
                (from, SimNetworkEvent::InboundEstablished { from }),
            )
            &&& !net.step(now).has_ripe(now)
        }),
{
    lemma_same_dials_stay_admitted(net, net.at(now));
    lemma_settle_delivers_success(net.at(now), now, i);
}

proof fn lemma_settle_delivers_success(net: NetView, now: SimTime, i: int)
    requires
        net.wf(),
        0 <= i < net.pending.len(),
        net.pending[i].ripe(now),
        net.pending[i].outcome is Success,
    ensures
        ({
            let from = net.pending[i].outcome.from();
            let to = net.pending[i].outcome.to();
            &&& net.settle(now).events(from).contains(
                (to, SimNetworkEvent::OutboundEstablished { to }),
            )
            &&& net.settle(now).events(to).contains(
                (from, SimNetworkEvent::InboundEstablished { from }),
            )
            &&& !net.settle(now).has_ripe(now)
        }),
    decreases net.pending.len(),
{
    let from = net.pending[i].outcome.from();
    let to = net.pending[i].outcome.to();
    let out = (to, SimNetworkEvent::OutboundEstablished { to });
    let inb = (from, SimNetworkEvent::InboundEstablished { from });
    assert(net.has_ripe(now));
    lemma_some_dial_is_next(net, now);
    let next = net.next_ripe(now);
    let mid = net.resolve(next);
    lemma_resolve_tells_both_ends(net, next);
    lemma_settle_extends_events(net, now);
    if next == i {
        lemma_settle_extends_events(mid, now);
        let a = mid.events(from);
        let b = mid.events(to);
        assert(a.contains(out)) by {
            if from == to {
                assert(a[a.len() - 2] == out);
            } else {
                assert(a[a.len() - 1] == out);
            }
        }
        assert(b.contains(inb)) by {
            assert(b[b.len() - 1] == inb);
        }
        lemma_extension_keeps(mid.settle(now).events(from), a, out);
        lemma_extension_keeps(mid.settle(now).events(to), b, inb);
    } else {
        let moved = if i < next { i } else { i - 1 };
        assert(mid.pending[moved] == net.pending[i]);
        lemma_settle_delivers_success(mid, now, moved);
    }
}

/// What stands in a list stands in every list that extends it.
proof fn lemma_extension_keeps<T>(new: Seq<T>, old: Seq<T>, item: T)
    requires
        extends(new, old),
        old.contains(item),
    ensures
        new.contains(item),
{
    let k = choose|k: int| 0 <= k < old.len() && old[k] == item;
    assert(new.subrange(0, old.len() as int)[k] == new[k]);
}

impl NetView {
    /// The fabric after `peer` has read its `count` oldest messages.
    pub open spec fn drain(self, peer: PeerId, count: nat) -> NetView
        decreases count,
    {
        if count == 0 {
            self
        } else {
            self.take_message(peer).drain(peer, (count - 1) as nat)
        }
    }
}

/// Reading `count` messages takes them from the front of the inbox.
pub proof fn lemma_drain_skips(net: NetView, peer: PeerId, count: nat)
    requires
        net.clients.contains_key(peer),
        count <= net.inbox(peer).len(),
    ensures
        net.drain(peer, count).clients.contains_key(peer),
        net.drain(peer, count).inbox(peer) == net.inbox(peer).skip(count as int),
    decreases count,
{
    if count == 0 {
        assert(net.inbox(peer).skip(0) =~= net.inbox(peer));
    } else {
        let next = net.take_message(peer);
        lemma_drain_skips(next, peer, (count - 1) as nat);
        assert(net.inbox(peer).drop_first().skip(count - 1) =~= net.inbox(peer).skip(count as int));
    }
}

/// Messages from one peer to another arrive in the order in which they were
/// sent: two messages sent one after the other stand one behind the other at
/// the end of the inbox, and once the messages that waited before them have
/// been read, the first is read next and the second after it.
pub proof fn lemma_messages_arrive_in_order(
    net: NetView,
    from: PeerId,
    to: PeerId,
    first: ProtocolMessage,
    second: ProtocolMessage,
)
    requires
        net.clients.contains_key(to),
    ensures
        ({
            let sent = net.deliver(from, to, first).deliver(from, to, second);
            let waiting = net.inbox(to).len();
            &&& sent.inbox(to) == net.inbox(to).push((from, first)).push((from, second))
            &&& sent.drain(to, waiting).inbox(to).first() == (from, first)
            &&& sent.drain(to, waiting + 1).inbox(to).first() == (from, second)
            &&& sent.drain(to, waiting + 2).inbox(to).len() == 0
        }),
{
    let sent = net.deliver(from, to, first).deliver(from, to, second);
    let waiting = net.inbox(to).len();
    lemma_drain_skips(sent, to, waiting);
    lemma_drain_skips(sent, to, waiting + 1);
    lemma_drain_skips(sent, to, waiting + 2);
}

} // verus!
