//! Hosts: what is delivered to them, what they receive, and their clock, version
//! and ports.
use std::rc::Rc;
use tokio::sync::Semaphore;
use vstd::prelude::*;

use crate::addr::SocketAddr;
use crate::envelope::{Dot, Envelope, Message, RecvRecord};
use crate::host::{Host, HostView};
use crate::net::{Data, Segment, SocketPair, Syn};
use crate::signal::Signal;
use crate::tcp::{PendingAccept, Tcp};
use crate::time::Instant;

verus! {

impl<M> HostView<M> {
    /// In `post` the host has its address, its clock and its next port as
    /// before, and it waits for datagrams by the same semaphore.
    pub open spec fn same_base(self, post: HostView<M>) -> bool {
        &&& post.addr == self.addr
        &&& post.now == self.now
        &&& post.epoch == self.epoch
        &&& post.next_ephemeral_port == self.next_ephemeral_port
        &&& post.udp_notify.semaphore == self.udp_notify.semaphore
    }

    /// In `post` the first datagram at place `i` is gone and every other one
    /// there has moved up by one place; no other peer's datagrams have changed.
    pub open spec fn moved_up(self, i: int, post: HostView<M>) -> bool {
        let before = self.udp_inbox.entries[i].1;
        let after = post.udp_inbox.entries[i].1;
        &&& post.udp_inbox.entries.len() == self.udp_inbox.entries.len()
        &&& forall|j: int|
            0 <= j < self.udp_inbox.entries.len() ==> {
                &&& (#[trigger] post.udp_inbox.entries[j]).0 == self.udp_inbox.entries[j].0
                &&& j != i ==> post.udp_inbox.entries[j].1 == self.udp_inbox.entries[j].1
            }
        &&& after.len() == before.len() - 1
        &&& forall|j: int| 0 <= j < after.len() ==> #[trigger] after[j] == before[j + 1]
    }
}

// Starting
// --------

/// A host starts at version zero, with the first port to give out, its clock at
/// its start, no messages and no sockets.
pub proof fn law_a_new_host<M>(
    addr: SocketAddr,
    now: Instant,
    udp_notify: Signal,
    host: Host<M>,
)
    requires
        call_ensures(Host::<M>::new, (addr, now, udp_notify), host),
    ensures
        host.wf(),
        host@.addr == addr,
        host@.udp_inbox.entries.len() == 0,
        host@.udp_notify == udp_notify@,
        host@.tcp.binds.entries.len() == 0,
        host@.tcp.connections.entries.len() == 0,
        host@.next_ephemeral_port == 1024,
        host@.now == now,
        host@.epoch == now,
        host@.version == 0,
        call_requires(Host::<M>::new, (addr, now, udp_notify)),
{
}

// Deliveries
// ----------

/// A request that is delivered stands behind those that wait at its port, with
/// the socket that it came from, and that port has one more permit, whatever
/// else waits at the host. Nothing else changes.
pub proof fn law_delivering_a_request<M>(host: &mut Host<M>, envelope: Envelope<M>, syn: Syn)
    requires
        old(host).wf(),
        envelope.message == Message::<M>::Segment(Segment::Syn(syn)),
        old(host)@.tcp.binds.has(syn.dst.spec_port()),
        syn.dst != envelope.src.host,
        !old(host)@.tcp.connections.has(SocketPair(syn.dst, envelope.src.host)),
        old(host)@.tcp.binds[syn.dst.spec_port()].notify.granted < usize::MAX / 8,
        call_ensures(Host::<M>::receive_from_network, (host, envelope), ()),
    ensures
        final(host).wf(),
        call_requires(Host::<M>::receive_from_network, (host, envelope)),
        ({
            let pre = old(host)@.tcp.binds[syn.dst.spec_port()];
            let post = final(host)@.tcp.binds[syn.dst.spec_port()];
            &&& final(host)@.tcp.binds.has(syn.dst.spec_port())
            &&& old(host)@.tcp.binds.same_but(syn.dst.spec_port(), final(host)@.tcp.binds)
            &&& post.items == pre.items + seq![PendingAccept { src: envelope.src.host, syn }]
            &&& post.notify.granted == pre.notify.granted + 1
            &&& post.notify.semaphore == pre.notify.semaphore
        }),
        final(host)@.tcp.connections == old(host)@.tcp.connections,
        final(host)@.udp_inbox == old(host)@.udp_inbox,
        final(host)@.udp_notify == old(host)@.udp_notify,
        final(host)@.version == old(host)@.version,
        old(host)@.same_base(final(host)@),
{
    old(host).lemma_wf();
    law_requests_at_a_host(old(host)@, envelope, syn);
}

/// What delivering a request means for the state of a host.
pub proof fn law_requests_at_a_host<M>(host: HostView<M>, envelope: Envelope<M>, syn: Syn)
    requires
        host.wf(),
        envelope.message == Message::<M>::Segment(Segment::Syn(syn)),
        host.tcp.binds.has(syn.dst.spec_port()),
    ensures
        ({
            let post = host.deliver(envelope);
            let before = host.tcp.binds[syn.dst.spec_port()];
            let after = post.tcp.binds[syn.dst.spec_port()];
            &&& post.tcp.binds.has(syn.dst.spec_port())
            &&& host.tcp.binds.same_but(syn.dst.spec_port(), post.tcp.binds)
            &&& after.items == before.items + seq![PendingAccept { src: envelope.src.host, syn }]
            &&& after.notify.granted == before.notify.granted + 1
            &&& after.notify.semaphore == before.notify.semaphore
            &&& post.tcp.connections == host.tcp.connections
            &&& post.udp_inbox == host.udp_inbox
            &&& post.udp_notify == host.udp_notify
            &&& post.version == host.version
            &&& host.same_base(post)
        }),
{
    let port = syn.dst.spec_port();
    let request = PendingAccept { src: envelope.src.host, syn };
    let before = host.tcp.binds[port];
    host.tcp.binds.lemma_put_same_but(port, before.deliver(request));
    assert(before.items.push(request) =~= before.items + seq![request]);
}

/// Bytes that are delivered stand behind those that wait at their connection,
/// and that connection has one more permit, whatever else waits at the host.
/// Nothing else changes.
pub proof fn law_delivering_bytes<M>(host: &mut Host<M>, envelope: Envelope<M>, data: Data)
    requires
        old(host).wf(),
        envelope.message == Message::<M>::Segment(Segment::Data(data)),
        old(host)@.tcp.connections.has(data.pair),
        old(host)@.tcp.connections[data.pair].notify.granted < usize::MAX / 8,
        call_ensures(Host::<M>::receive_from_network, (host, envelope), ()),
    ensures
        final(host).wf(),
        call_requires(Host::<M>::receive_from_network, (host, envelope)),
        ({
            let pre = old(host)@.tcp.connections[data.pair];
            let post = final(host)@.tcp.connections[data.pair];
            &&& final(host)@.tcp.connections.has(data.pair)
            &&& old(host)@.tcp.connections.same_but(data.pair, final(host)@.tcp.connections)
            &&& post.items == pre.items + seq![Segment::Data(data)]
            &&& post.notify.granted == pre.notify.granted + 1
            &&& post.notify.semaphore == pre.notify.semaphore
        }),
        final(host)@.tcp.binds == old(host)@.tcp.binds,
        final(host)@.udp_inbox == old(host)@.udp_inbox,
        final(host)@.udp_notify == old(host)@.udp_notify,
        final(host)@.version == old(host)@.version,
        old(host)@.same_base(final(host)@),
{
    old(host).lemma_wf();
    law_bytes_at_a_host(old(host)@, envelope, data);
}

/// What delivering bytes means for the state of a host.
pub proof fn law_bytes_at_a_host<M>(host: HostView<M>, envelope: Envelope<M>, data: Data)
    requires
        host.wf(),
        envelope.message == Message::<M>::Segment(Segment::Data(data)),
        host.tcp.connections.has(data.pair),
    ensures
        ({
            let post = host.deliver(envelope);
            let before = host.tcp.connections[data.pair];
            let after = post.tcp.connections[data.pair];
            &&& post.tcp.connections.has(data.pair)
            &&& host.tcp.connections.same_but(data.pair, post.tcp.connections)
            &&& after.items == before.items + seq![Segment::Data(data)]
            &&& after.notify.granted == before.notify.granted + 1
            &&& after.notify.semaphore == before.notify.semaphore
            &&& post.tcp.binds == host.tcp.binds
            &&& post.udp_inbox == host.udp_inbox
            &&& post.udp_notify == host.udp_notify
            &&& post.version == host.version
            &&& host.same_base(post)
        }),
{
    let before = host.tcp.connections[data.pair];
    let segment = Segment::Data(data);
    host.tcp.connections.lemma_put_same_but(data.pair, before.deliver(segment));
    assert(before.items.push(segment) =~= before.items + seq![segment]);
}

/// A datagram that is delivered stands behind those of its peer, which comes
/// behind all other peers if none of its datagrams was there or asked for
/// before; there is one more permit for datagrams, whatever else waits at the
/// host. Nothing else changes.
pub proof fn law_delivering_a_datagram<M>(host: &mut Host<M>, envelope: Envelope<M>)
    requires
        old(host).wf(),
        envelope.message is Datagram,
        old(host)@.udp_notify.granted < usize::MAX / 8,
        call_ensures(Host::<M>::receive_from_network, (host, envelope), ()),
    ensures
        final(host).wf(),
        call_requires(Host::<M>::receive_from_network, (host, envelope)),
        ({
            let peer = envelope.src.host;
            let before = old(host)@.udp_inbox;
            let after = final(host)@.udp_inbox;
            &&& before.same_but(peer, after)
            &&& after.has(peer)
            &&& before.has(peer) ==> after[peer] == before[peer] + seq![envelope]
            &&& !before.has(peer) ==> after[peer] == seq![envelope]
        }),
        final(host)@.udp_notify.granted == old(host)@.udp_notify.granted + 1,
        final(host)@.tcp == old(host)@.tcp,
        final(host)@.version == old(host)@.version,
        old(host)@.same_base(final(host)@),
{
    old(host).lemma_wf();
    law_datagrams_at_a_host(old(host)@, envelope);
}

/// What delivering a datagram means for the state of a host.
pub proof fn law_datagrams_at_a_host<M>(host: HostView<M>, envelope: Envelope<M>)
    requires
        host.wf(),
        envelope.message is Datagram,
    ensures
        ({
            let peer = envelope.src.host;
            let post = host.deliver(envelope);
            &&& host.udp_inbox.same_but(peer, post.udp_inbox)
            &&& post.udp_inbox.has(peer)
            &&& host.udp_inbox.has(peer) ==> post.udp_inbox[peer] == host.udp_inbox[peer]
                + seq![envelope]
            &&& !host.udp_inbox.has(peer) ==> post.udp_inbox[peer] == seq![envelope]
            &&& post.udp_notify.granted == host.udp_notify.granted + 1
            &&& post.tcp == host.tcp
            &&& post.version == host.version
            &&& host.same_base(post)
        }),
{
    let peer = envelope.src.host;
    let queue = host.queue(peer).push(envelope);
    host.udp_inbox.lemma_put_same_but(peer, queue);
    assert(host.udp_inbox.has(peer) ==> queue =~= host.udp_inbox[peer] + seq![envelope]);
    assert(!host.udp_inbox.has(peer) ==> queue =~= seq![envelope]);
}

// Receptions
// ----------

/// Receiving from a peer of which datagrams wait gives the first of them, and
/// every other one moves up by one place; the version goes up by one. Where none
/// waits nothing is given, and the peer is known with none from then on. No
/// other peer's datagrams change, nor does anything else.
pub proof fn law_receptions_from_a_peer<M>(
    host: HostView<M>,
    peer: SocketAddr,
    envelope: Option<Envelope<M>>,
    post: HostView<M>,
)
    requires
        host.wf(),
        host.receives_from(peer, envelope, post),
    ensures
        host.udp_inbox.same_but(peer, post.udp_inbox),
        post.udp_inbox.has(peer),
        post.udp_notify == host.udp_notify,
        post.tcp == host.tcp,
        host.same_base(post),
        post.wf(),
        envelope is Some <==> host.udp_inbox.has(peer) && host.udp_inbox[peer].len() > 0,
        envelope is Some ==> {
            let before = host.udp_inbox[peer];
            let after = post.udp_inbox[peer];
            &&& envelope == Some(before[0])
            &&& after.len() == before.len() - 1
            &&& forall|i: int| 0 <= i < after.len() ==> #[trigger] after[i] == before[i + 1]
            &&& host.version < u64::MAX ==> post.version == host.version + 1
        },
        envelope is None ==> post.udp_inbox[peer].len() == 0 && post.version == host.version,
{
    if envelope is Some {
        host.udp_inbox.lemma_put_same_but(peer, host.queue(peer).drop_first());
        host.lemma_take(peer);
    } else {
        host.udp_inbox.lemma_put_same_but(peer, Seq::empty());
        host.lemma_set_queue(peer, Seq::empty());
    }
}

/// What a call of `Host::recv_from` does, as the law above says it of the
/// states. It gives the semaphore for datagrams, too.
pub proof fn law_a_call_of_recv_from<M>(
    host: &mut Host<M>,
    peer: SocketAddr,
    result: (Option<Envelope<M>>, Rc<Semaphore>),
)
    requires
        old(host).wf(),
        old(host)@.udp_inbox.has(peer) && old(host)@.udp_inbox[peer].len() > 0 ==> old(
            host,
        )@.version < u64::MAX,
        call_ensures(Host::<M>::recv_from, (host, peer), result),
    ensures
        final(host).wf(),
        call_requires(Host::<M>::recv_from, (host, peer)),
        result.1 == old(host)@.udp_notify.semaphore,
        old(host)@.udp_inbox.same_but(peer, final(host)@.udp_inbox),
        final(host)@.udp_inbox.has(peer),
        final(host)@.udp_notify == old(host)@.udp_notify,
        final(host)@.tcp == old(host)@.tcp,
        old(host)@.same_base(final(host)@),
        result.0 is Some <==> old(host)@.udp_inbox.has(peer) && old(host)@.udp_inbox[peer].len()
            > 0,
        result.0 is Some ==> {
            let before = old(host)@.udp_inbox[peer];
            let after = final(host)@.udp_inbox[peer];
            &&& result.0 == Some(before[0])
            &&& after.len() == before.len() - 1
            &&& forall|i: int| 0 <= i < after.len() ==> #[trigger] after[i] == before[i + 1]
            &&& final(host)@.version == old(host)@.version + 1
        },
        result.0 is None ==> {
            &&& final(host)@.udp_inbox[peer].len() == 0
            &&& final(host)@.version == old(host)@.version
        },
{
    old(host).lemma_wf();
    law_receptions_from_a_peer(old(host)@, peer, result.0, final(host)@);
}

/// Receiving from whichever peer gives the first datagram of the first peer of
/// which one waits, and every other one of that peer moves up by one place; the
/// version goes up by one. Nothing else changes.
pub proof fn law_receptions_from_whichever_peer<M>(
    host: HostView<M>,
    envelope: Option<Envelope<M>>,
    post: HostView<M>,
    i: int,
)
    requires
        host.wf(),
        host.receives(envelope, post),
        0 <= i < host.udp_inbox.entries.len(),
        host.udp_inbox.entries[i].1.len() > 0,
        forall|j: int| 0 <= j < i ==> (#[trigger] host.udp_inbox.entries[j]).1.len() == 0,
    ensures
        envelope == Some(host.udp_inbox.entries[i].1[0]),
        host.moved_up(i, post),
        post.udp_notify == host.udp_notify,
        post.tcp == host.tcp,
        host.version < u64::MAX ==> post.version == host.version + 1,
        host.same_base(post),
{
    assert(host.udp_inbox.value_at(i).len() > 0);
    assert(host.has_mail());
    let f = host.lemma_receives(envelope->0, post);
    assert(host.udp_inbox.value_at(f).len() > 0);
    assert(host.udp_inbox.entries[f].1.len() > 0);
    assert(f == i);
    host.lemma_queue_at(i);
}

/// Where no datagram waits, receiving from whichever peer gives nothing and
/// changes nothing.
pub proof fn law_nothing_to_receive<M>(
    host: HostView<M>,
    envelope: Option<Envelope<M>>,
    post: HostView<M>,
)
    requires
        host.wf(),
        host.receives(envelope, post),
        forall|j: int|
            0 <= j < host.udp_inbox.entries.len() ==> (
            #[trigger] host.udp_inbox.entries[j]).1.len() == 0,
    ensures
        envelope is None,
        post == host,
{
    if envelope is Some {
        let i = host.lemma_receives(envelope->0, post);
        assert(host.udp_inbox.entries[i].1.len() == 0);
    }
}

/// What a call of `Host::recv` does, as the two laws above say it of the states.
/// It gives the semaphore for datagrams, too.
pub proof fn law_a_call_of_recv<M>(
    host: &mut Host<M>,
    result: (Option<Envelope<M>>, Rc<Semaphore>),
    i: int,
)
    requires
        old(host).wf(),
        old(host)@.version < u64::MAX || (forall|j: int|
            0 <= j < old(host)@.udp_inbox.entries.len() ==> (
            #[trigger] old(host)@.udp_inbox.entries[j]).1.len() == 0),
        call_ensures(Host::<M>::recv, (host,), result),
    ensures
        final(host).wf(),
        call_requires(Host::<M>::recv, (host,)),
        result.1 == old(host)@.udp_notify.semaphore,
        ({
            &&& 0 <= i < old(host)@.udp_inbox.entries.len()
            &&& old(host)@.udp_inbox.entries[i].1.len() > 0
            &&& forall|j: int|
                0 <= j < i ==> (#[trigger] old(host)@.udp_inbox.entries[j]).1.len() == 0
        }) ==> {
            &&& result.0 == Some(old(host)@.udp_inbox.entries[i].1[0])
            &&& old(host)@.moved_up(i, final(host)@)
            &&& final(host)@.udp_notify == old(host)@.udp_notify
            &&& final(host)@.tcp == old(host)@.tcp
            &&& final(host)@.version == old(host)@.version + 1
            &&& old(host)@.same_base(final(host)@)
        },
        (forall|j: int|
            0 <= j < old(host)@.udp_inbox.entries.len() ==> (
            #[trigger] old(host)@.udp_inbox.entries[j]).1.len() == 0) ==> {
            &&& result.0 is None
            &&& final(host)@ == old(host)@
        },
{
    let pre = old(host)@;
    old(host).lemma_wf();
    if 0 <= i < pre.udp_inbox.entries.len() && pre.udp_inbox.entries[i].1.len() > 0 && (
    forall|j: int| 0 <= j < i ==> (#[trigger] pre.udp_inbox.entries[j]).1.len() == 0) {
        law_receptions_from_whichever_peer(pre, result.0, final(host)@, i);
    }
    if forall|j: int|
        0 <= j < pre.udp_inbox.entries.len() ==> (
        #[trigger] pre.udp_inbox.entries[j]).1.len() == 0 {
        law_nothing_to_receive(pre, result.0, final(host)@);
    }
}

/// Each of `envelopes` is what receiving from `peer` gives in the state before
/// it, and leaves the one after it.
pub open spec fn receives_in_a_row<M>(
    peer: SocketAddr,
    states: Seq<HostView<M>>,
    envelopes: Seq<Option<Envelope<M>>>,
) -> bool {
    &&& states.len() == envelopes.len() + 1
    &&& forall|k: int|
        #![trigger states[k]]
        0 <= k < envelopes.len() ==> states[k].receives_from(peer, envelopes[k], states[k + 1])
}

/// Receiving any number of times in a row from a peer gives its datagrams in the
/// order in which they waited, and those behind them wait on in their order.
pub proof fn law_datagrams_are_received_in_order<M>(
    peer: SocketAddr,
    states: Seq<HostView<M>>,
    envelopes: Seq<Option<Envelope<M>>>,
    k: int,
)
    requires
        receives_in_a_row(peer, states, envelopes),
        states[0].wf(),
        states[0].udp_inbox.has(peer),
        envelopes.len() <= states[0].udp_inbox[peer].len(),
        0 <= k <= envelopes.len(),
    ensures
        states[k].wf(),
        states[k].udp_inbox.has(peer),
        ({
            let waited = states[0].udp_inbox[peer];
            let waits = states[k].udp_inbox[peer];
            &&& waits.len() == waited.len() - k
            &&& forall|i: int| 0 <= i < waits.len() ==> #[trigger] waits[i] == waited[i + k]
            &&& k < envelopes.len() ==> envelopes[k] == Some(waited[k])
        }),
    decreases k,
{
    let waited = states[0].udp_inbox[peer];
    if k > 0 {
        law_datagrams_are_received_in_order(peer, states, envelopes, k - 1);
        let before = states[k - 1];
        law_receptions_from_a_peer(before, peer, envelopes[k - 1], states[k]);
        assert forall|i: int| 0 <= i < states[k].udp_inbox[peer].len() implies #[trigger]
            states[k].udp_inbox[peer][i] == waited[i + k] by {
            assert(before.udp_inbox[peer][i + 1] == waited[i + 1 + (k - 1)]);
        }
    }
    if k < envelopes.len() {
        assert(states[k].udp_inbox[peer][0] == waited[k]);
        law_receptions_from_a_peer(states[k], peer, envelopes[k], states[k + 1]);
    }
}

/// Each of `envelopes`, all of them from `peer`, is delivered in the state before
/// it, which leaves the one after it.
pub open spec fn delivered_in_a_row<M>(
    peer: SocketAddr,
    states: Seq<HostView<M>>,
    envelopes: Seq<Envelope<M>>,
) -> bool {
    &&& states.len() == envelopes.len() + 1
    &&& forall|k: int|
        #![trigger states[k]]
        0 <= k < envelopes.len() ==> {
            &&& envelopes[k].message is Datagram
            &&& envelopes[k].src.host == peer
            &&& states[k + 1] == states[k].deliver(envelopes[k])
        }
}

/// Datagrams that a peer sends to a host where none of its datagrams waits are
/// received from it in the order in which they were delivered.
pub proof fn law_datagrams_come_out_as_they_went_in<M>(
    peer: SocketAddr,
    deliveries: Seq<HostView<M>>,
    sent: Seq<Envelope<M>>,
    receptions: Seq<HostView<M>>,
    received: Seq<Option<Envelope<M>>>,
    k: int,
)
    requires
        delivered_in_a_row(peer, deliveries, sent),
        deliveries[0].wf(),
        deliveries[0].udp_inbox.has(peer) ==> deliveries[0].udp_inbox[peer].len() == 0,
        receives_in_a_row(peer, receptions, received),
        receptions[0] == deliveries.last(),
        received.len() <= sent.len(),
        0 <= k < received.len(),
    ensures
        received[k] == Some(sent[k]),
{
    lemma_delivered_in_a_row(peer, deliveries, sent, sent.len() as int);
    assert(sent.take(sent.len() as int) =~= sent);
    law_datagrams_are_received_in_order(peer, receptions, received, k);
}

/// What waits after `k` deliveries is what was delivered, in its order.
proof fn lemma_delivered_in_a_row<M>(
    peer: SocketAddr,
    states: Seq<HostView<M>>,
    sent: Seq<Envelope<M>>,
    k: int,
)
    requires
        delivered_in_a_row(peer, states, sent),
        states[0].wf(),
        states[0].udp_inbox.has(peer) ==> states[0].udp_inbox[peer].len() == 0,
        0 <= k <= sent.len(),
    ensures
        states[k].wf(),
        k > 0 ==> states[k].udp_inbox.has(peer),
        states[k].udp_inbox.has(peer) ==> states[k].udp_inbox[peer] == sent.take(k),
    decreases k,
{
    if k > 0 {
        lemma_delivered_in_a_row(peer, states, sent, k - 1);
        let before = states[k - 1];
        before.lemma_deliver(sent[k - 1]);
        law_datagrams_at_a_host(before, sent[k - 1]);
        assert(sent.take(k - 1) + seq![sent[k - 1]] =~= sent.take(k));
        if !before.udp_inbox.has(peer) {
            assert(k == 1);
            assert(seq![sent[0]] =~= sent.take(1));
        }
    } else if states[0].udp_inbox.has(peer) {
        assert(states[0].udp_inbox[peer] =~= sent.take(0));
    }
}

/// A datagram waits exactly if some peer's queue is not empty, and one of a peer
/// exactly if that peer's queue is not.
pub proof fn law_asking_for_datagrams<M>(
    host: &Host<M>,
    peer: SocketAddr,
    waits: bool,
    waits_from: bool,
)
    requires
        host.wf(),
        call_ensures(Host::<M>::has_mail, (host,), waits),
        call_ensures(Host::<M>::has_mail_from, (host, peer), waits_from),
    ensures
        waits <==> exists|i: int|
            0 <= i < host@.udp_inbox.entries.len() && (
            #[trigger] host@.udp_inbox.entries[i]).1.len() > 0,
        waits_from <==> host@.udp_inbox.has(peer) && host@.udp_inbox[peer].len() > 0,
{
    if waits {
        let i = choose|i: int|
            0 <= i < host@.udp_inbox.len() && (#[trigger] host@.udp_inbox.value_at(i)).len() > 0;
        assert(host@.udp_inbox.entries[i].1.len() > 0);
    }
    if exists|i: int|
        0 <= i < host@.udp_inbox.entries.len() && (
        #[trigger] host@.udp_inbox.entries[i]).1.len() > 0 {
        let i = choose|i: int|
            0 <= i < host@.udp_inbox.entries.len() && (
            #[trigger] host@.udp_inbox.entries[i]).1.len() > 0;
        assert(host@.udp_inbox.value_at(i).len() > 0);
    }
}

// Records, clock and version
// --------------------------

/// What is logged of a message is the address and the version of the host, the
/// whole time from its start to its present instant, and who sent the message;
/// where there is no message nothing is logged.
pub proof fn law_what_is_logged<M>(
    host: HostView<M>,
    envelope: Option<Envelope<M>>,
    record: Option<RecvRecord>,
)
    requires
        host.logs(envelope, record),
    ensures
        record is Some <==> envelope is Some,
        record matches Some(record) ==> {
            &&& record.dot.host == host.addr
            &&& record.dot.version == host.version
            &&& host.epoch.nanos <= host.now.nanos ==> record.elapsed == host.now.nanos
                - host.epoch.nanos
            &&& host.epoch.nanos > host.now.nanos ==> record.elapsed == 0
            &&& record.src == envelope->0.src
        },
{
}

/// What a call of `Host::record` gives, as the law above says it of the state.
pub proof fn law_a_call_of_record<M>(
    host: &Host<M>,
    envelope: Option<Envelope<M>>,
    record: Option<RecvRecord>,
)
    requires
        call_ensures(Host::<M>::record, (host, &envelope), record),
    ensures
        record is Some <==> envelope is Some,
        record matches Some(record) ==> {
            &&& record.dot.host == host@.addr
            &&& record.dot.version == host@.version
            &&& host@.epoch.nanos <= host@.now.nanos ==> record.elapsed == host@.now.nanos
                - host@.epoch.nanos
            &&& host@.epoch.nanos > host@.now.nanos ==> record.elapsed == 0
            &&& record.src == envelope->0.src
        },
{
    law_what_is_logged(host@, envelope, record);
}

/// A host has been executing for the whole time from its start to its present
/// instant.
pub proof fn law_elapsed_time<M>(host: &Host<M>, nanos: u128)
    requires
        call_ensures(Host::<M>::elapsed, (host,), nanos),
    ensures
        host@.epoch.nanos <= host@.now.nanos ==> host@.epoch.nanos + nanos == host@.now.nanos,
        host@.epoch.nanos > host@.now.nanos ==> nanos == 0,
{
}

/// A tick sets the clock and nothing else.
pub proof fn law_ticking<M>(host: &mut Host<M>, now: Instant)
    requires
        old(host).wf(),
        call_ensures(Host::<M>::tick, (host, now), ()),
    ensures
        final(host).wf(),
        call_requires(Host::<M>::tick, (host, now)),
        final(host)@.now == now,
        final(host)@.epoch == old(host)@.epoch,
        final(host)@.addr == old(host)@.addr,
        final(host)@.version == old(host)@.version,
        final(host)@.next_ephemeral_port == old(host)@.next_ephemeral_port,
        final(host)@.udp_inbox == old(host)@.udp_inbox,
        final(host)@.udp_notify == old(host)@.udp_notify,
        final(host)@.tcp == old(host)@.tcp,
{
}

/// Bumping raises the version by one, changes nothing else, and gives the
/// address with the new version.
pub proof fn law_bumping<M>(host: &mut Host<M>, dot: Dot)
    requires
        old(host).wf(),
        old(host)@.version < u64::MAX,
        call_ensures(Host::<M>::bump, (host,), dot),
    ensures
        final(host).wf(),
        call_requires(Host::<M>::bump, (host,)),
        final(host)@.version == old(host)@.version + 1,
        dot.host == old(host)@.addr,
        dot.version == old(host)@.version + 1,
        old(host)@.same_base(final(host)@),
        final(host)@.udp_inbox == old(host)@.udp_inbox,
        final(host)@.udp_notify == old(host)@.udp_notify,
        final(host)@.tcp == old(host)@.tcp,
{
}

/// What a host tells of itself: its address, and that with its version.
pub proof fn law_asking_a_host<M>(host: &Host<M>, addr: SocketAddr, dot: Dot, tcp: &Tcp)
    requires
        call_ensures(Host::<M>::addr, (host,), addr),
        call_ensures(Host::<M>::dot, (host,), dot),
        call_ensures(Host::<M>::tcp, (host,), tcp),
    ensures
        addr == host@.addr,
        dot.host == host@.addr,
        dot.version == host@.version,
        tcp@ == host@.tcp,
        host.wf() ==> tcp.wf(),
{
}

/// Writing to the stream sockets of a host changes them and nothing else.
pub proof fn law_writing_to_the_sockets<M>(host: &mut Host<M>, tcp: &mut Tcp)
    requires
        old(host).wf(),
        call_ensures(Host::<M>::tcp_mut, (host,), tcp),
    ensures
        old(tcp)@ == old(host)@.tcp,
        old(tcp).wf(),
        final(tcp)@ == final(host)@.tcp,
        final(tcp).wf() ==> final(host).wf(),
        final(host)@.version == old(host)@.version,
        final(host)@.udp_inbox == old(host)@.udp_inbox,
        final(host)@.udp_notify == old(host)@.udp_notify,
        old(host)@.same_base(final(host)@),
{
}

// Ports
// -----

/// A port is left for a client connection exactly if one of those from the next
/// up to 65534 is not the host's own.
pub proof fn law_when_a_port_is_left<M>(host: &Host<M>, left: bool)
    requires
        call_ensures(Host::<M>::has_ephemeral_port, (host,), left),
    ensures
        left <==> exists|p: u16|
            host@.next_ephemeral_port <= p <= 65534 && #[trigger] is_free(host@, p),
        left ==> call_requires(Host::<M>::next_ephemeral_port, (host,)),
{
    let next = host@.next_ephemeral_port;
    if left {
        if next == host@.addr.spec_port() {
            assert(is_free(host@, (next + 1) as u16));
        } else {
            assert(is_free(host@, next));
        }
    }
}

/// `p` is not the port of the host itself.
pub open spec fn is_free<M>(host: HostView<M>, p: u16) -> bool {
    match host.addr {
        SocketAddr::V4 { port, .. } => p != port,
        SocketAddr::V6 { port, .. } => p != port,
    }
}

/// A client connection gets the least port from the next up that is not the
/// host's own, and the next is the one behind it. Nothing else changes.
pub proof fn law_giving_a_port_out<M>(host: &mut Host<M>, port: u16, p: u16)
    requires
        old(host).wf(),
        old(host)@.next_ephemeral_port <= p <= 65534,
        is_free(old(host)@, p),
        call_ensures(Host::<M>::assign_ephemeral_port, (host,), port),
    ensures
        final(host).wf(),
        call_requires(Host::<M>::assign_ephemeral_port, (host,)),
        old(host)@.next_ephemeral_port <= port <= p,
        is_free(old(host)@, port),
        final(host)@.next_ephemeral_port == port + 1,
        final(host)@.addr == old(host)@.addr,
        final(host)@.now == old(host)@.now,
        final(host)@.epoch == old(host)@.epoch,
        final(host)@.version == old(host)@.version,
        final(host)@.udp_inbox == old(host)@.udp_inbox,
        final(host)@.udp_notify == old(host)@.udp_notify,
        final(host)@.tcp == old(host)@.tcp,
{
}

/// The port that is told beforehand is the one that is given out.
pub proof fn law_the_next_port<M>(host: &Host<M>, port: u16, p: u16)
    requires
        host@.next_ephemeral_port <= p <= 65534,
        is_free(host@, p),
        call_ensures(Host::<M>::next_ephemeral_port, (host,), port),
    ensures
        host@.next_ephemeral_port <= port <= p,
        is_free(host@, port),
{
}

} // verus!
