//! What holds of the library as a whole.
use std::rc::Rc;
use tokio::sync::Semaphore;
use vstd::prelude::*;

use crate::addr::{IpAddr, SocketAddr};
use crate::envelope::{Envelope, Message};
use crate::handshake::Ack;
use crate::host::HostView;
use crate::net::{Data, Segment, SocketPair, Syn, TcpStream};
use crate::signal::{SignalView, Signals};
use crate::tcp::{InboxView, PendingAccept, Socket, TcpView};
use crate::time::Instant;
use crate::world::WorldView;

verus! {

// Datagrams
// ---------

/// The state after the network handed over all of `envelopes`, one after the
/// other.
pub open spec fn deliver_all<M>(host: HostView<M>, envelopes: Seq<Envelope<M>>) -> HostView<M>
    decreases envelopes.len(),
{
    if envelopes.len() == 0 {
        host
    } else {
        deliver_all(host, envelopes.drop_last()).deliver(envelopes.last())
    }
}

/// Those of `envelopes` that come from `peer`, in their order.
pub open spec fn from_peer<M>(envelopes: Seq<Envelope<M>>, peer: SocketAddr) -> Seq<Envelope<M>> {
    envelopes.filter(|envelope: Envelope<M>| envelope.src.host == peer)
}

/// The datagrams that `n` receptions from `peer` give, and the state after
/// them.
pub open spec fn drain<M>(host: HostView<M>, peer: SocketAddr, n: nat) -> (
    Seq<Envelope<M>>,
    HostView<M>,
)
    decreases n,
{
    if n == 0 {
        (Seq::empty(), host)
    } else {
        let (received, rest) = drain(host, peer, (n - 1) as nat);
        (received.push(rest.queue(peer).first()), rest.take(peer))
    }
}

/// Delivering a datagram puts it behind the others of its peer and leaves those
/// of every other peer, and all stream sockets, alone.
pub proof fn law_datagram_goes_to_its_peer<M>(
    host: HostView<M>,
    envelope: Envelope<M>,
    peer: SocketAddr,
)
    requires
        host.wf(),
        envelope.message is Datagram,
    ensures
        host.deliver(envelope).wf(),
        host.deliver(envelope).tcp == host.tcp,
        host.deliver(envelope).queue(peer) == if peer == envelope.src.host {
            host.queue(peer).push(envelope)
        } else {
            host.queue(peer)
        },
{
    let src = envelope.src.host;
    host.lemma_deliver(envelope);
    host.udp_inbox.lemma_put(src, host.queue(src).push(envelope));
}

/// Receiving a datagram of one peer takes the oldest of that peer out and leaves
/// those of every other peer alone.
pub proof fn law_receiving_takes_the_oldest<M>(
    host: HostView<M>,
    from: SocketAddr,
    peer: SocketAddr,
)
    requires
        host.wf(),
        host.queue(from).len() > 0,
    ensures
        host.take(from).wf(),
        host.take(from).tcp == host.tcp,
        host.take(from).queue(peer) == if peer == from {
            host.queue(peer).drop_first()
        } else {
            host.queue(peer)
        },
        host.take(from).udp_inbox.total() == host.udp_inbox.total() - 1,
{
    host.lemma_take(from);
    host.udp_inbox.lemma_put(from, host.queue(from).drop_first());
    host.udp_inbox.lemma_total_put(from, host.queue(from).drop_first());
}

/// What waits of a peer after deliveries is what waited of it before, followed
/// by what was delivered of it, in the order of delivery.
pub proof fn law_datagrams_queue_in_order<M>(
    host: HostView<M>,
    envelopes: Seq<Envelope<M>>,
    peer: SocketAddr,
)
    requires
        host.wf(),
        forall|i: int| 0 <= i < envelopes.len() ==> (#[trigger] envelopes[i]).message is Datagram,
    ensures
        deliver_all(host, envelopes).wf(),
        deliver_all(host, envelopes).queue(peer) == host.queue(peer) + from_peer(envelopes, peer),
    decreases envelopes.len(),
{
    reveal_with_fuel(Seq::filter, 1);
    if envelopes.len() > 0 {
        let before = envelopes.drop_last();
        law_datagrams_queue_in_order(host, before, peer);
        law_datagram_goes_to_its_peer(deliver_all(host, before), envelopes.last(), peer);
    }
    assert(deliver_all(host, envelopes).queue(peer) =~= host.queue(peer) + from_peer(
        envelopes,
        peer,
    ));
}

/// Receptions from a peer give what waits of it, the oldest first, as long as
/// something waits.
pub proof fn law_receptions_are_in_order<M>(host: HostView<M>, peer: SocketAddr, n: nat)
    requires
        host.wf(),
        n <= host.queue(peer).len(),
    ensures
        drain(host, peer, n).0 == host.queue(peer).take(n as int),
        drain(host, peer, n).1.queue(peer) == host.queue(peer).skip(n as int),
        drain(host, peer, n).1.wf(),
    decreases n,
{
    if n > 0 {
        let m = (n - 1) as nat;
        law_receptions_are_in_order(host, peer, m);
        law_receiving_takes_the_oldest(drain(host, peer, m).1, peer, peer);
    }
    assert(drain(host, peer, n).0 =~= host.queue(peer).take(n as int));
    assert(drain(host, peer, n).1.queue(peer) =~= host.queue(peer).skip(n as int));
}

/// What waited of a peer and what was delivered of it since is received from
/// it, in the order of delivery and nothing else, whatever other peers send in
/// between.
pub proof fn law_what_was_delivered_is_received<M>(
    host: HostView<M>,
    envelopes: Seq<Envelope<M>>,
    peer: SocketAddr,
)
    requires
        host.wf(),
        forall|i: int| 0 <= i < envelopes.len() ==> (#[trigger] envelopes[i]).message is Datagram,
    ensures
        ({
            let sent = host.queue(peer) + from_peer(envelopes, peer);
            let (received, rest) = drain(deliver_all(host, envelopes), peer, sent.len());
            received == sent && rest.queue(peer).len() == 0
        }),
{
    let sent = host.queue(peer) + from_peer(envelopes, peer);
    law_datagrams_queue_in_order(host, envelopes, peer);
    law_receptions_are_in_order(deliver_all(host, envelopes), peer, sent.len());
    assert(sent.take(sent.len() as int) =~= sent);
}

/// Receiving from whichever peer never gives a datagram of a peer while one of
/// a peer that stands before it waits, in whatever order the two were
/// delivered.
pub proof fn law_earlier_peers_come_first<M>(
    host: HostView<M>,
    envelope: Envelope<M>,
    post: HostView<M>,
    i: int,
    j: int,
)
    requires
        host.wf(),
        host.receives(Some(envelope), post),
        0 <= i < j < host.udp_inbox.len(),
        host.udp_inbox.value_at(i).len() > 0,
    ensures
        envelope.src.host != host.udp_inbox.key_at(j),
{
    let f = host.lemma_receives(envelope, post);
    assert(host.udp_inbox.value_at(i).len() > 0);
    assert(f <= i);
    assert(host.udp_inbox.entries[f].0 != host.udp_inbox.entries[j].0);
}

/// Receiving from whichever peer gives a datagram exactly if one waits, and one
/// fewer waits then; so as many receptions as datagrams wait empty the host.
pub proof fn law_every_datagram_is_received<M>(
    host: HostView<M>,
    envelope: Option<Envelope<M>>,
    post: HostView<M>,
)
    requires
        host.wf(),
        host.receives(envelope, post),
    ensures
        envelope is Some <==> host.udp_inbox.total() > 0,
        envelope is Some ==> post.udp_inbox.total() == host.udp_inbox.total() - 1,
        post.wf(),
{
    match envelope {
        Some(envelope) => {
            let f = host.lemma_receives(envelope, post);
            let peer = host.udp_inbox.key_at(f);
            law_receiving_takes_the_oldest(host, peer, peer);
        },
        None => {
            assert forall|i: int| 0 <= i < host.udp_inbox.len() implies (
            #[trigger] host.udp_inbox.value_at(i)).len() == 0 by {}
            host.udp_inbox.lemma_total_zero();
        },
    }
}

// Wake-ups
// --------

/// In every inbox of a host wait no more messages than permits were granted.
pub proof fn law_messages_that_wait_were_signaled<M>(
    host: HostView<M>,
    port: u16,
    pair: SocketPair,
)
    requires
        host.wf(),
    ensures
        host.udp_inbox.total() <= host.udp_notify.granted,
        host.tcp.binds.has(port) ==> host.tcp.binds[port].items.len()
            <= host.tcp.binds[port].notify.granted,
        host.tcp.connections.has(pair) ==> host.tcp.connections[pair].items.len()
            <= host.tcp.connections[pair].notify.granted,
{
}

/// The permits beyond those for the items that wait count the items that were
/// taken out: there are none in a fresh inbox, a delivery leaves them alone, and
/// taking an item out adds one.
pub proof fn law_spare_permits_count_items_taken<T>(inbox: InboxView<T>, item: T)
    requires
        inbox.signaled(),
    ensures
        InboxView::<T>::fresh(inbox.notify.semaphore).spare() == 0,
        inbox.deliver(item).signaled(),
        inbox.deliver(item).spare() == inbox.spare(),
        inbox.items.len() > 0 ==> inbox.pop().spare() == inbox.spare() + 1,
{
}

/// The permits beyond those for the datagrams that wait count the datagrams
/// that were received: there are none at a host that starts with no permits, a
/// delivery leaves them alone, and a reception adds one.
pub proof fn law_spare_permits_count_datagrams_received<M>(
    host: HostView<M>,
    delivered: Envelope<M>,
    received: Option<Envelope<M>>,
    post: HostView<M>,
    addr: SocketAddr,
    epoch: Instant,
    notify: SignalView,
)
    requires
        host.wf(),
        host.receives(received, post),
        notify.granted == 0,
    ensures
        HostView::<M>::new(addr, epoch, notify).spare_permits() == 0,
        host.deliver(delivered).spare_permits() == host.spare_permits(),
        post.spare_permits() == host.spare_permits() + (if received is Some {
            1int
        } else {
            0
        }),
{
    law_one_permit_for_each_datagram(host, delivered);
    law_every_datagram_is_received(host, received, post);
}

/// Where a segment is delivered, there is one more item and one more permit;
/// nowhere else is there either.
pub proof fn law_one_permit_for_each_segment(
    tcp: TcpView,
    src: SocketAddr,
    segment: Segment,
    port: u16,
    pair: SocketPair,
)
    requires
        tcp.wf(),
        tcp.accepts(src, segment),
    ensures
        tcp.deliver(src, segment).wf(),
        tcp.binds.has(port) ==> tcp.deliver(src, segment).binds[port] == (match segment {
            Segment::Syn(syn) if syn.dst.spec_port() == port => tcp.binds[port].deliver(
                PendingAccept { src, syn },
            ),
            _ => tcp.binds[port],
        }),
        tcp.connections.has(pair) ==> tcp.deliver(src, segment).connections[pair] == (
        match segment {
            Segment::Data(data) if data.pair == pair => tcp.connections[pair].deliver(segment),
            _ => tcp.connections[pair],
        }),
{
    tcp.lemma_deliver(src, segment);
    match segment {
        Segment::Syn(syn) => {
            let p = syn.dst.spec_port();
            tcp.binds.lemma_put(p, tcp.binds[p].deliver(PendingAccept { src, syn }));
        },
        Segment::Data(data) => {
            tcp.connections.lemma_put(data.pair, tcp.connections[data.pair].deliver(segment));
        },
    }
}

/// Each datagram that is delivered grants one permit to the wake-ups for
/// datagrams; a segment grants them none.
pub proof fn law_one_permit_for_each_datagram<M>(host: HostView<M>, envelope: Envelope<M>)
    requires
        host.wf(),
    ensures
        host.deliver(envelope).udp_notify == (match envelope.message {
            Message::Datagram(_) => host.udp_notify.grant(1),
            Message::Segment(_) => host.udp_notify,
        }),
        host.deliver(envelope).udp_inbox.total() == host.udp_inbox.total() + (
        match envelope.message {
            Message::Datagram(_) => 1int,
            Message::Segment(_) => 0,
        }),
{
    let src = envelope.src.host;
    host.udp_inbox.lemma_total_put(src, host.queue(src).push(envelope));
}

// Semaphores
// ----------

/// No two stream sockets of a world, on one host or on two, share a semaphore.
pub proof fn law_no_two_sockets_share_a_semaphore<M>(
    world: WorldView<M>,
    a: SocketAddr,
    s: Socket,
    b: SocketAddr,
    t: Socket,
)
    requires
        world.wf(),
        world.has_socket(a, s),
        world.has_socket(b, t),
        a != b || s != t,
    ensures
        world.hosts[a].tcp.semaphore(s) != world.hosts[b].tcp.semaphore(t),
{
}

/// A new socket waits by a semaphore that no other socket of the host waits by,
/// and the others keep theirs.
pub proof fn law_a_new_socket_has_a_semaphore_of_its_own(
    tcp: TcpView,
    made: Seq<Rc<Semaphore>>,
    socket: Socket,
    semaphore: Rc<Semaphore>,
    post: TcpView,
    other: Socket,
)
    requires
        tcp.wf(),
        tcp.made_by(made),
        tcp.opens(socket, semaphore, post),
        !made.contains(semaphore),
        tcp.has(other),
    ensures
        post.has(socket) && post.has(other),
        socket != other,
        post.semaphore(socket) == semaphore,
        post.semaphore(other) == tcp.semaphore(other),
        post.semaphore(socket) != post.semaphore(other),
{
    assert(post.has(socket));
    assert(post.has(other));
}

/// A new stream socket of a host waits by a semaphore by which no host of the
/// world waits for datagrams and no other stream socket waits.
pub proof fn law_a_new_semaphore_is_in_use_nowhere<M>(
    world: WorldView<M>,
    semaphore: Rc<Semaphore>,
    addr: SocketAddr,
    socket: Socket,
)
    requires
        world.wf(),
        !world.made.contains(semaphore),
        world.hosts.has(addr),
    ensures
        world.hosts[addr].udp_notify.semaphore != semaphore,
        world.hosts[addr].tcp.has(socket) ==> world.hosts[addr].tcp.semaphore(socket) != semaphore,
{
}

/// Two server sockets that were bound on one host are at different ports and
/// wait by different semaphores.
pub proof fn law_server_sockets_differ(
    tcp: TcpView,
    made: Seq<Rc<Semaphore>>,
    p: u16,
    s: Rc<Semaphore>,
    q: u16,
    t: Rc<Semaphore>,
)
    requires
        tcp.wf(),
        tcp.made_by(made),
        !tcp.binds.has(p),
        !made.contains(s),
        !tcp.bind(p, InboxView::fresh(s)).binds.has(q),
        !made.push(s).contains(t),
    ensures
        p != q,
        s != t,
        ({
            let post = tcp.bind(p, InboxView::fresh(s)).bind(q, InboxView::fresh(t));
            &&& post.wf()
            &&& post.made_by(made.push(s).push(t))
            &&& post.has(Socket::Server(p)) && post.semaphore(Socket::Server(p)) == s
            &&& post.has(Socket::Server(q)) && post.semaphore(Socket::Server(q)) == t
        }),
{
    let mid = tcp.bind(p, InboxView::fresh(s));
    let post = mid.bind(q, InboxView::fresh(t));
    tcp.binds.lemma_put(p, InboxView::fresh(s));
    tcp.lemma_open_server(p, s, made);
    mid.lemma_open_server(q, t, made.push(s));
    Signals::lemma_made(made, s, s);
    assert(mid.has(Socket::Server(p)));
    assert(post.has(Socket::Server(p)));
    assert(post.has(Socket::Server(q)));
}

/// The world in which the host at `addr` is being executed.
pub open spec fn execute<M>(world: WorldView<M>, addr: SocketAddr) -> WorldView<M> {
    WorldView { current: Some(addr), ..world }
}

/// Hosts have ports of their own: a port that was bound on one host can be bound
/// on another, which leaves the first host alone, and the two server sockets
/// wait by different semaphores.
pub proof fn law_hosts_have_ports_of_their_own<M>(
    world: WorldView<M>,
    a: SocketAddr,
    s: Rc<Semaphore>,
    b: SocketAddr,
    t: Rc<Semaphore>,
    port: u16,
)
    requires
        world.wf(),
        world.hosts.has(a),
        world.hosts.has(b),
        a != b,
        !world.hosts[a].tcp.binds.has(port),
        !world.hosts[b].tcp.binds.has(port),
        !world.made.contains(s),
        !execute(world, a).bind(port, s).made.contains(t),
    ensures
        ({
            let first = execute(world, a).bind(port, s);
            let second = execute(first, b).bind(port, t);
            &&& first.wf() && second.wf()
            &&& first.hosts.has(b) && !first.hosts[b].tcp.binds.has(port)
            &&& second.hosts.has(a) && second.hosts[a] == first.hosts[a]
            &&& s != t
            &&& second.hosts[a].tcp.binds[port].notify.semaphore == s
            &&& second.hosts[b].tcp.binds[port].notify.semaphore == t
        }),
{
    let start = execute(world, a);
    let first = start.bind(port, s);
    let middle = execute(first, b);
    Signals::lemma_made(world.made, s, s);
    lemma_execute(world, a);
    lemma_bind(start, port, s);
    lemma_execute(first, b);
    lemma_bind(middle, port, t);
    start.hosts[a].tcp.binds.lemma_put(port, InboxView::fresh(s));
    middle.hosts[b].tcp.binds.lemma_put(port, InboxView::fresh(t));
}

/// Executing another host keeps the world well formed.
proof fn lemma_execute<M>(world: WorldView<M>, addr: SocketAddr)
    requires
        world.wf(),
    ensures
        execute(world, addr).wf(),
{
    assert(forall|a: SocketAddr, s: Socket| #[trigger]
        execute(world, addr).has_socket(a, s) == world.has_socket(a, s));
}

/// Opening a server socket with a new semaphore keeps the world well formed.
proof fn lemma_bind<M>(world: WorldView<M>, port: u16, semaphore: Rc<Semaphore>)
    requires
        world.wf(),
        world.has_current(),
        !world.here().tcp.binds.has(port),
        !world.made.contains(semaphore),
    ensures
        world.bind(port, semaphore).wf(),
        world.bind(port, semaphore).has_current(),
        world.bind(port, semaphore).here() == (HostView {
            tcp: world.here().tcp.bind(port, InboxView::fresh(semaphore)),
            ..world.here()
        }),
        forall|addr: SocketAddr| #[trigger]
            world.bind(port, semaphore).hosts.has(addr) == world.hosts.has(addr),
        forall|addr: SocketAddr|
            world.hosts.has(addr) && addr != world.current->0 ==> #[trigger] world.bind(
                port,
                semaphore,
            ).hosts[addr] == world.hosts[addr],
{
    let here = world.here();
    let host = HostView { tcp: here.tcp.bind(port, InboxView::fresh(semaphore)), ..here };
    here.tcp.lemma_open_server(port, semaphore, world.made);
    world.hosts.lemma_put(world.current->0, host);
    world.lemma_open(world.current->0, host, Socket::Server(port), semaphore);
}

// Ports
// -----

/// The state after `n` client connections got a port.
pub open spec fn assign_ports<M>(host: HostView<M>, n: nat) -> HostView<M>
    decreases n,
{
    if n == 0 {
        host
    } else {
        assign_ports(host, (n - 1) as nat).assign_port()
    }
}

/// A port for a client connection is one of 1024 to 65534 and not the host's
/// own.
pub proof fn law_ports_are_in_range<M>(host: HostView<M>)
    requires
        host.wf(),
        host.has_ephemeral_port(),
    ensures
        1024 <= host.ephemeral_port() <= 65534,
        host.ephemeral_port() != host.addr.spec_port(),
        host.assign_port().wf(),
{
}

/// Ports are not recycled: a client connection gets a higher port than every
/// one before it.
pub proof fn law_ports_are_not_recycled<M>(host: HostView<M>, i: nat, j: nat)
    requires
        host.wf(),
        i < j,
        forall|n: nat| n <= j ==> (#[trigger] assign_ports(host, n)).has_ephemeral_port(),
    ensures
        assign_ports(host, i).ephemeral_port() < assign_ports(host, j).ephemeral_port(),
        assign_ports(host, j).addr == host.addr,
        assign_ports(host, j).wf(),
    decreases j,
{
    let k = (j - 1) as nat;
    assert(assign_ports(host, k).has_ephemeral_port());
    if i < k {
        law_ports_are_not_recycled(host, i, k);
    } else if k > 0 {
        law_ports_are_not_recycled(host, 0, k);
    }
}

/// Every connection of the host's own address has a port that was given out.
pub open spec fn ports_given_out<M>(host: HostView<M>) -> bool {
    forall|pair: SocketPair|
        #![trigger host.tcp.connections.has(pair)]
        host.tcp.connections.has(pair) && pair.0.spec_ip() == host.addr.spec_ip()
            ==> pair.0.spec_port() < host.next_ephemeral_port
}

/// A host whose connections all have ports that were given out can always ask
/// for another connection, as long as a port and a version are left and the
/// connection is not with its own new socket; and its connections have ports
/// that were given out then, too.
pub proof fn law_new_connections_do_not_clash<M>(
    world: WorldView<M>,
    dst: SocketAddr,
    semaphore: Rc<Semaphore>,
)
    requires
        world.wf(),
        world.has_current(),
        world.here().has_ephemeral_port(),
        world.here().version < u64::MAX,
        world.local_socket() != dst,
        ports_given_out(world.here()),
    ensures
        world.can_connect(dst),
        ports_given_out(world.connect(dst, semaphore).here()),
{
    let host = world.here();
    let local = world.local_socket();
    let pair = SocketPair(local, dst);
    assert(!host.tcp.connections.has(pair));
    assert(host.tcp.wf());
    let inbox = InboxView::fresh(semaphore);
    host.tcp.connections.lemma_put(pair, inbox);
    let after = HostView { tcp: host.tcp.connect(pair, inbox), ..host.assign_port() }.bump();
    world.hosts.lemma_put(world.current->0, after);
}

/// Connections that are accepted at 0.0.0.0 leave the ports of the host's own
/// address alone.
pub proof fn law_accepting_takes_no_port<M>(
    host: HostView<M>,
    addr: SocketAddr,
    result: Option<(TcpStream, SocketAddr)>,
    post: TcpView,
)
    requires
        host.wf(),
        host.tcp.can_accept(addr),
        host.tcp.accepted(addr, result, post),
        addr.spec_ip() != host.addr.spec_ip(),
        ports_given_out(host),
    ensures
        ports_given_out(HostView { tcp: post, ..host }),
{
    if let Some((stream, peer)) = result {
        host.tcp.connections.lemma_put(
            SocketPair(addr, peer),
            InboxView::fresh(stream@.notify),
        );
    }
}

// Streams
// -------

/// The state after the network handed over all of `segments`, each with the
/// socket that it comes from, one after the other.
pub open spec fn deliver_segments(tcp: TcpView, segments: Seq<(SocketAddr, Segment)>) -> TcpView
    decreases segments.len(),
{
    if segments.len() == 0 {
        tcp
    } else {
        deliver_segments(tcp, segments.drop_last()).deliver(segments.last().0, segments.last().1)
    }
}

/// The network may hand over all of `segments`, one after the other.
pub open spec fn accepts_segments(tcp: TcpView, segments: Seq<(SocketAddr, Segment)>) -> bool {
    forall|i: int|
        0 <= i < segments.len() ==> deliver_segments(tcp, #[trigger] segments.take(i)).accepts(
            segments[i].0,
            segments[i].1,
        )
}

/// Those of `segments` that carry bytes over the connection `pair`, in their
/// order.
pub open spec fn data_for(segments: Seq<(SocketAddr, Segment)>, pair: SocketPair) -> Seq<Segment>
    decreases segments.len(),
{
    if segments.len() == 0 {
        Seq::empty()
    } else {
        let before = data_for(segments.drop_last(), pair);
        match segments.last().1 {
            Segment::Data(data) if data.pair == pair => before.push(segments.last().1),
            _ => before,
        }
    }
}

/// Those of `segments` that ask for a connection at `port`, in their order.
pub open spec fn requests_for(segments: Seq<(SocketAddr, Segment)>, port: u16) -> Seq<PendingAccept>
    decreases segments.len(),
{
    if segments.len() == 0 {
        Seq::empty()
    } else {
        let before = requests_for(segments.drop_last(), port);
        match segments.last().1 {
            Segment::Syn(syn) if syn.dst.spec_port() == port => before.push(
                PendingAccept { src: segments.last().0, syn },
            ),
            _ => before,
        }
    }
}

/// What waits at a connection and at a port after deliveries is what waited
/// before, followed by what was delivered for it, in the order of delivery.
pub proof fn law_segments_queue_in_order(
    tcp: TcpView,
    segments: Seq<(SocketAddr, Segment)>,
    pair: SocketPair,
    port: u16,
)
    requires
        tcp.wf(),
        accepts_segments(tcp, segments),
    ensures
        deliver_segments(tcp, segments).wf(),
        deliver_segments(tcp, segments).connections.has(pair) == tcp.connections.has(pair),
        deliver_segments(tcp, segments).binds.has(port) == tcp.binds.has(port),
        tcp.connections.has(pair) ==> deliver_segments(tcp, segments).connections[pair].items
            == tcp.connections[pair].items + data_for(segments, pair),
        tcp.binds.has(port) ==> deliver_segments(tcp, segments).binds[port].items
            == tcp.binds[port].items + requests_for(segments, port),
    decreases segments.len(),
{
    if segments.len() > 0 {
        let before = segments.drop_last();
        let (src, segment) = segments.last();
        let mid = deliver_segments(tcp, before);
        assert forall|i: int| 0 <= i < before.len() implies deliver_segments(
            tcp,
            #[trigger] before.take(i),
        ).accepts(before[i].0, before[i].1) by {
            assert(before.take(i) =~= segments.take(i));
        }
        law_segments_queue_in_order(tcp, before, pair, port);
        assert(segments.take(segments.len() - 1) =~= before);
        assert(mid.accepts(src, segment));
        law_one_permit_for_each_segment(mid, src, segment, port, pair);
        law_sockets_stay(mid, src, segment, port, pair);
    }
    assert(tcp.connections.has(pair) ==> deliver_segments(tcp, segments).connections[pair].items
        =~= tcp.connections[pair].items + data_for(segments, pair));
    assert(tcp.binds.has(port) ==> deliver_segments(tcp, segments).binds[port].items
        =~= tcp.binds[port].items + requests_for(segments, port));
}

/// A delivery opens and closes no socket.
pub proof fn law_sockets_stay(
    tcp: TcpView,
    src: SocketAddr,
    segment: Segment,
    port: u16,
    pair: SocketPair,
)
    requires
        tcp.wf(),
        tcp.accepts(src, segment),
    ensures
        tcp.deliver(src, segment).binds.has(port) == tcp.binds.has(port),
        tcp.deliver(src, segment).connections.has(pair) == tcp.connections.has(pair),
{
    match segment {
        Segment::Syn(syn) => {
            let p = syn.dst.spec_port();
            tcp.binds.lemma_put(p, tcp.binds[p].deliver(PendingAccept { src, syn }));
        },
        Segment::Data(data) => {
            tcp.connections.lemma_put(data.pair, tcp.connections[data.pair].deliver(segment));
        },
    }
}

/// Accepting takes the oldest request at the port out, keeps every socket that
/// is there, with what waits at it, and opens the connection of the stream that
/// it gives, with a semaphore of its own, and no other.
pub proof fn law_accepting_opens_one_connection(
    tcp: TcpView,
    made: Seq<Rc<Semaphore>>,
    addr: SocketAddr,
    result: Option<(TcpStream, SocketAddr)>,
    post: TcpView,
    port: u16,
    pair: SocketPair,
)
    requires
        tcp.wf(),
        tcp.made_by(made),
        tcp.can_accept(addr),
        tcp.accepted(addr, result, post),
        result matches Some((stream, _)) ==> !made.contains(stream@.notify),
    ensures
        post.wf(),
        post.binds.has(port) == tcp.binds.has(port),
        tcp.binds.has(port) ==> post.binds[port] == (if port == addr.spec_port()
            && tcp.binds[port].items.len() > 0 {
            tcp.binds[port].pop()
        } else {
            tcp.binds[port]
        }),
        tcp.connections.has(pair) ==> post.connections.has(pair) && post.connections[pair]
            == tcp.connections[pair],
        post.connections.has(pair) <==> tcp.connections.has(pair) || (result matches Some(
            (stream, _),
        ) && stream@.pair == pair),
{
    let p = addr.spec_port();
    tcp.binds.lemma_put(p, tcp.binds[p].pop());
    if tcp.binds[p].items.len() > 0 {
        let taken = tcp.take_pending(p);
        tcp.lemma_bind(p, tcp.binds[p].pop());
        if let Some((stream, peer)) = result {
            tcp.connections.lemma_put(SocketPair(addr, peer), InboxView::fresh(stream@.notify));
            tcp.lemma_same_made(taken, made);
            taken.lemma_open_stream(SocketPair(addr, peer), stream@.notify, made);
        }
    }
}

/// The handshake: a request that is delivered to a port where none waits is the
/// one that is accepted there next. It is acknowledged to the sender of that
/// very request, and a stream is given exactly if the peer was told. The stream
/// connects the listening socket with the one that the request came from, the
/// connection starts out empty, and bytes for it are queued and signaled at the
/// stream. Either way the request waits no longer.
pub proof fn law_a_request_becomes_a_connection(
    tcp: TcpView,
    made: Seq<Rc<Semaphore>>,
    src: SocketAddr,
    syn: Syn,
    addr: SocketAddr,
    result: Option<(TcpStream, SocketAddr)>,
    post: TcpView,
    data: Data,
)
    requires
        tcp.wf(),
        tcp.made_by(made),
        result matches Some((stream, _)) ==> !made.contains(stream@.notify),
        tcp.accepts(src, Segment::Syn(syn)),
        tcp.binds[syn.dst.spec_port()].items.len() == 0,
        addr.spec_port() == syn.dst.spec_port(),
        tcp.deliver(src, Segment::Syn(syn)).can_accept(addr),
        tcp.deliver(src, Segment::Syn(syn)).accepted(addr, result, post),
        data.pair == SocketPair(addr, src),
    ensures
        exists|ack: Ack| #[trigger]
            ack.answers(syn.notify) && (result is Some <==> ack.spec_told()),
        post.binds[addr.spec_port()].items.len() == 0,
        result matches Some((stream, peer)) ==> {
            let inbox = post.deliver(src, Segment::Data(data)).connections[stream@.pair];
            &&& peer == src
            &&& stream@.pair == SocketPair(addr, src)
            &&& stream@.acknowledged == Some(syn.notify.channel())
            &&& post.connections[stream@.pair] == InboxView::<Segment>::fresh(stream@.notify)
            &&& post.accepts(src, Segment::Data(data))
            &&& inbox.items == seq![Segment::Data(data)]
            &&& inbox.notify == (SignalView { semaphore: stream@.notify, granted: 1 })
        },
{
    let request = Segment::Syn(syn);
    let port = addr.spec_port();
    let pair = SocketPair(addr, src);
    let mid = tcp.deliver(src, request);
    law_one_permit_for_each_segment(tcp, src, request, port, pair);
    tcp.lemma_deliver(src, request);
    tcp.lemma_same_made(mid, made);
    law_accepting_opens_one_connection(mid, made, addr, result, post, port, pair);
    if let Some((stream, _)) = result {
        mid.connections.lemma_put(pair, InboxView::fresh(stream@.notify));
        law_one_permit_for_each_segment(post, src, Segment::Data(data), port, pair);
        assert(Seq::<Segment>::empty().push(Segment::Data(data)) =~= seq![Segment::Data(data)]);
    }
}

// Hosts
// -----

/// What the host that is being executed does leaves every other host alone, and
/// no host comes or goes.
pub proof fn law_other_hosts_are_left_alone<M>(
    world: WorldView<M>,
    host: HostView<M>,
    addr: SocketAddr,
)
    requires
        world.wf(),
        world.has_current(),
    ensures
        world.set_here(host).here() == host,
        world.set_here(host).hosts.keys() == world.hosts.keys(),
        world.set_here(host).hosts.has(addr) == world.hosts.has(addr),
        world.hosts.has(addr) && addr != world.current->0 ==> world.set_here(host).hosts[addr]
            == world.hosts[addr],
{
    world.hosts.lemma_put(world.current->0, host);
    assert(world.set_here(host).hosts.keys() =~= world.hosts.keys()) by {
        assert forall|i: int| 0 <= i < world.hosts.len() implies world.set_here(
            host,
        ).hosts.keys()[i] == world.hosts.keys()[i] by {
            assert(world.hosts.put(world.current->0, host).key_at(i) == world.hosts.key_at(i));
        }
    }
}

/// The world after a host was registered.
pub open spec fn register<M>(
    world: WorldView<M>,
    addr: SocketAddr,
    epoch: Instant,
    notify: SignalView,
) -> WorldView<M> {
    world.set_host(addr, HostView::new(addr, epoch, notify)).keep(notify.semaphore)
}

/// The world after hosts were registered at `addrs`, one after the other.
pub open spec fn register_all<M>(
    world: WorldView<M>,
    addrs: Seq<SocketAddr>,
    epoch: Instant,
    notify: SignalView,
) -> WorldView<M>
    decreases addrs.len(),
{
    if addrs.len() == 0 {
        world
    } else {
        register(register_all(world, addrs.drop_last(), epoch, notify), addrs.last(), epoch, notify)
    }
}

/// The links that were registered with the hosts at `addrs`.
pub open spec fn links_of_all<M>(
    world: WorldView<M>,
    addrs: Seq<SocketAddr>,
    epoch: Instant,
    notify: SignalView,
) -> Seq<(IpAddr, IpAddr)>
    decreases addrs.len(),
{
    if addrs.len() == 0 {
        Seq::empty()
    } else {
        let before = addrs.drop_last();
        let links = register_all(world, before, epoch, notify).links(addrs.last());
        links_of_all(world, before, epoch, notify) + links
    }
}

/// A host that was registered is there as a new one, behind those that are
/// there, and they are left alone.
pub proof fn law_registering_adds_one_host<M>(
    world: WorldView<M>,
    addr: SocketAddr,
    epoch: Instant,
    notify: SignalView,
    other: SocketAddr,
)
    requires
        world.wf(),
        !world.hosts.has(addr),
    ensures
        register(world, addr, epoch, notify).wf(),
        register(world, addr, epoch, notify).hosts.keys() == world.hosts.keys().push(addr),
        register(world, addr, epoch, notify).hosts[addr] == HostView::<M>::new(addr, epoch, notify),
        register(world, addr, epoch, notify).hosts.has(other) <==> other == addr
            || world.hosts.has(other),
        world.hosts.has(other) ==> register(world, addr, epoch, notify).hosts[other]
            == world.hosts[other],
{
    let host = HostView::<M>::new(addr, epoch, notify);
    world.hosts.lemma_put(addr, host);
    assert(host.udp_inbox.total() == 0);
    assert(host.wf());
    world.lemma_register(addr, host);
    assert(register(world, addr, epoch, notify).hosts.keys() =~= world.hosts.keys().push(addr));
}

/// Registering hosts at distinct addresses links every host with every one that
/// was registered after it, once.
pub proof fn law_all_hosts_are_linked<M>(addrs: Seq<SocketAddr>, epoch: Instant, notify: SignalView)
    requires
        addrs.no_duplicates(),
    ensures
        register_all(WorldView::<M>::empty(), addrs, epoch, notify).wf(),
        register_all(WorldView::<M>::empty(), addrs, epoch, notify).hosts.keys() == addrs,
        forall|i: int, j: int|
            #![trigger addrs[i], addrs[j]]
            0 <= i < j < addrs.len() ==> links_of_all(
                WorldView::<M>::empty(),
                addrs,
                epoch,
                notify,
            ).contains((addrs[i].spec_ip(), addrs[j].spec_ip())),
        2 * links_of_all(WorldView::<M>::empty(), addrs, epoch, notify).len() == addrs.len() * (
        addrs.len() - 1),
    decreases addrs.len(),
{
    let empty = WorldView::<M>::empty();
    let links = links_of_all(empty, addrs, epoch, notify);
    if addrs.len() == 0 {
        assert(empty.hosts.keys() =~= addrs);
    } else {
        let before = addrs.drop_last();
        let last = addrs.last();
        let n = before.len() as int;
        law_all_hosts_are_linked::<M>(before, epoch, notify);
        let world = register_all(empty, before, epoch, notify);
        if world.hosts.has(last) {
            let p = world.hosts.position(last);
            assert(world.hosts.entries[p].0 == last);
            assert(world.hosts.keys()[p] == before[p]);
            assert(addrs[p] == addrs[n]);
        }
        law_registering_adds_one_host(world, last, epoch, notify, last);
        assert(before.push(last) =~= addrs);
        let earlier = links_of_all(empty, before, epoch, notify);
        let added = world.links(last);
        assert forall|i: int, j: int|
            #![trigger addrs[i], addrs[j]]
            0 <= i < j < addrs.len() implies links.contains(
            (addrs[i].spec_ip(), addrs[j].spec_ip()),
        ) by {
            let link = (addrs[i].spec_ip(), addrs[j].spec_ip());
            if j < n {
                assert(before[i] == addrs[i] && before[j] == addrs[j]);
                let k = earlier.index_of(link);
                assert(links[k] == link);
            } else {
                assert(world.hosts.keys()[i] == before[i]);
                assert(added[i] == link);
                assert(links[earlier.len() + i] == link);
            }
        }
        assert(world.hosts.keys().len() == n);
        assert(added.len() == n);
        assert(n * (n - 1) + 2 * n == (n + 1) * n) by (nonlinear_arith);
    }
}

/// A host that ticks forward has been executing for as long as its clock has
/// moved since it started; ticking changes nothing else, and a new host has not
/// been executing at all.
pub proof fn law_elapsed_follows_the_clock<M>(
    addr: SocketAddr,
    epoch: Instant,
    notify: SignalView,
    now: Instant,
)
    requires
        epoch.nanos <= now.nanos,
    ensures
        ({
            let host = HostView::<M>::new(addr, epoch, notify);
            let ticked = HostView { now, ..host };
            &&& host.now.spec_since(host.epoch) == 0
            &&& ticked.now.spec_since(ticked.epoch) == now.nanos - epoch.nanos
        }),
{
}

// Versions
// --------

/// What happens to the host that is being executed.
pub enum Step<M> {
    /// It receives from whichever peer.
    Recv(Option<Envelope<M>>),
    /// It receives from one peer.
    RecvFrom(SocketAddr, Option<Envelope<M>>),
    /// It sends a message.
    Send,
    /// It asks for a connection, which waits by the semaphore.
    Connect(SocketAddr, Rc<Semaphore>),
    /// It accepts a connection at an address, or refuses one that is there.
    Accept(SocketAddr, Result<Option<(TcpStream, SocketAddr)>, SocketPair>),
    /// It binds a server socket at a port, which waits by the semaphore.
    Bind(u16, Rc<Semaphore>),
    /// The network hands an envelope over to it.
    Deliver(Envelope<M>),
    /// Its clock is set.
    Tick(Instant),
}

/// A step leads from `world` to `post`.
pub open spec fn leads_to<M>(world: WorldView<M>, step: Step<M>, post: WorldView<M>) -> bool {
    let here = world.here();
    &&& world.has_current()
    &&& match step {
        Step::Recv(envelope) => {
            &&& here.has_mail() ==> here.version < u64::MAX
            &&& here.receives(envelope, post.here())
            &&& post == world.set_here(post.here())
        },
        Step::RecvFrom(peer, envelope) => {
            &&& here.queue(peer).len() > 0 ==> here.version < u64::MAX
            &&& here.receives_from(peer, envelope, post.here())
            &&& post == world.set_here(post.here())
        },
        Step::Send => here.version < u64::MAX && post == world.set_here(here.bump()),
        Step::Connect(dst, semaphore) => {
            &&& world.can_connect(dst)
            &&& !world.made.contains(semaphore)
            &&& post == world.connect(dst, semaphore)
        },
        Step::Accept(addr, result) => {
            &&& world.listens(addr)
            &&& world.tried(addr, result, post)
        },
        Step::Bind(port, semaphore) => {
            &&& !here.tcp.binds.has(port)
            &&& !world.made.contains(semaphore)
            &&& post == world.bind(port, semaphore)
        },
        Step::Deliver(envelope) => {
            &&& here.accepts(envelope)
            &&& post == world.set_here(here.deliver(envelope))
        },
        Step::Tick(now) => post == world.set_here(HostView { now, ..here }),
    }
}

/// The number of network operations in a step: a message that is received or
/// sent and a connection that is asked for or accepted is one.
pub open spec fn operations<M>(step: Step<M>) -> nat {
    match step {
        Step::Recv(Some(_)) | Step::RecvFrom(_, Some(_)) => 1,
        Step::Send | Step::Connect(_, _) | Step::Accept(_, Ok(Some(_))) => 1,
        _ => 0,
    }
}

/// The number of network operations in all of `steps`.
pub open spec fn all_operations<M>(steps: Seq<Step<M>>) -> nat
    decreases steps.len(),
{
    if steps.len() == 0 {
        0
    } else {
        all_operations(steps.drop_last()) + operations(steps.last())
    }
}

/// Each of `steps` leads from the world before it to the one after it.
pub open spec fn is_history<M>(worlds: Seq<WorldView<M>>, steps: Seq<Step<M>>) -> bool {
    &&& worlds.len() == steps.len() + 1
    &&& forall|i: int|
        #![trigger steps[i]]
        0 <= i < steps.len() ==> leads_to(worlds[i], steps[i], worlds[i + 1])
}

/// Every step keeps the world well formed and the host that is being executed
/// in it, leaves all other hosts alone, and closes no socket.
pub proof fn law_steps_keep_the_world_well_formed<M>(
    world: WorldView<M>,
    step: Step<M>,
    post: WorldView<M>,
    addr: SocketAddr,
    socket: Socket,
)
    requires
        world.wf(),
        leads_to(world, step, post),
    ensures
        post.wf(),
        post.current == world.current,
        post.has_current(),
        post.hosts.has(addr) == world.hosts.has(addr),
        world.hosts.has(addr) && addr != world.current->0 ==> post.hosts[addr]
            == world.hosts[addr],
        world.has_socket(addr, socket) ==> {
            &&& post.has_socket(addr, socket)
            &&& post.hosts[addr].tcp.semaphore(socket) == world.hosts[addr].tcp.semaphore(socket)
        },
{
    let here = world.here();
    let at = world.current->0;
    let host = post.here();
    world.hosts.lemma_put(at, host);
    match step {
        Step::Recv(envelope) => {
            law_every_datagram_is_received(here, envelope, host);
            world.lemma_set_host(at, host);
        },
        Step::RecvFrom(peer, envelope) => {
            lemma_received_from(here, peer, envelope, host);
            world.lemma_set_host(at, host);
        },
        Step::Send => {
            world.hosts.lemma_put(at, here.bump());
            world.lemma_set_host(at, here.bump());
        },
        Step::Connect(dst, semaphore) => {
            let pair = SocketPair(world.local_socket(), dst);
            let inbox = InboxView::fresh(semaphore);
            let tcp = here.tcp.connect(pair, inbox);
            let connected = HostView { tcp, ..here.assign_port() }.bump();
            here.tcp.lemma_open_stream(pair, semaphore, world.made);
            world.hosts.lemma_put(at, connected);
            world.lemma_open(at, connected, Socket::Stream(pair), semaphore);
            assert(tcp.has(socket) == (socket == Socket::Stream(pair) || here.tcp.has(socket)));
        },
        Step::Accept(listen, result) => {
            lemma_tried(world, listen, result, post, socket);
        },
        Step::Bind(port, semaphore) => {
            let tcp = here.tcp.bind(port, InboxView::fresh(semaphore));
            here.tcp.lemma_open_server(port, semaphore, world.made);
            lemma_bind(world, port, semaphore);
            assert(tcp.has(socket) == (socket == Socket::Server(port) || here.tcp.has(socket)));
        },
        Step::Deliver(envelope) => {
            let delivered = here.deliver(envelope);
            match envelope.message {
                Message::Segment(segment) => {
                    here.tcp.lemma_deliver(envelope.src.host, segment);
                    law_one_permit_for_each_datagram(here, envelope);
                },
                Message::Datagram(_) => {
                    here.lemma_deliver(envelope);
                },
            }
            world.hosts.lemma_put(at, delivered);
            world.lemma_set_host(at, delivered);
            assert(delivered.tcp.has(socket) == here.tcp.has(socket));
        },
        Step::Tick(now) => {
            let ticked = HostView { now, ..here };
            world.hosts.lemma_put(at, ticked);
            world.lemma_set_host(at, ticked);
        },
    }
}

/// The version of a host is incremented by each network operation: each message
/// that it receives or sends and each connection that it asks for or accepts.
/// Nothing else changes it.
pub proof fn law_version_counts_network_operations<M>(
    world: WorldView<M>,
    step: Step<M>,
    post: WorldView<M>,
)
    requires
        world.wf(),
        leads_to(world, step, post),
    ensures
        post.here().version == world.here().version + operations(step),
        operations(step) > 0 ==> post.here().dot() != world.here().dot(),
{
    let here = world.here();
    let at = world.current->0;
    world.hosts.lemma_put(at, post.here());
    match step {
        Step::Recv(envelope) => {
            if let Some(envelope) = envelope {
                let i = here.lemma_receives(envelope, post.here());
                assert(here.udp_inbox.value_at(i).len() > 0);
            }
        },
        Step::RecvFrom(_, _) => {},
        Step::Send => {
            world.hosts.lemma_put(at, here.bump());
        },
        Step::Connect(dst, semaphore) => {
            let pair = SocketPair(world.local_socket(), dst);
            let tcp = here.tcp.connect(pair, InboxView::fresh(semaphore));
            world.hosts.lemma_put(at, HostView { tcp, ..here.assign_port() }.bump());
        },
        Step::Accept(_, _) => {
            let host = HostView { tcp: post.here().tcp, ..here };
            world.hosts.lemma_put(at, host);
            world.hosts.lemma_put(at, host.bump());
        },
        Step::Bind(port, semaphore) => {
            lemma_bind(world, port, semaphore);
        },
        Step::Deliver(envelope) => {
            world.hosts.lemma_put(at, here.deliver(envelope));
        },
        Step::Tick(now) => {
            world.hosts.lemma_put(at, HostView { now, ..here });
        },
    }
}

/// After any steps the version of a host has grown by the number of network
/// operations in them.
pub proof fn law_version_counts_all_network_operations<M>(
    worlds: Seq<WorldView<M>>,
    steps: Seq<Step<M>>,
)
    requires
        is_history(worlds, steps),
        worlds[0].wf(),
        worlds[0].has_current(),
    ensures
        worlds.last().wf(),
        worlds.last().current == worlds[0].current,
        worlds.last().has_current(),
        worlds.last().here().version == worlds[0].here().version + all_operations(steps),
    decreases steps.len(),
{
    if steps.len() > 0 {
        let n = steps.len() - 1;
        let before = worlds.drop_last();
        let earlier = steps.drop_last();
        assert forall|i: int|
            #![trigger earlier[i]]
            0 <= i < earlier.len() implies leads_to(before[i], earlier[i], before[i + 1]) by {
            assert(earlier[i] == steps[i]);
        }
        law_version_counts_all_network_operations(before, earlier);
        assert(steps[n] == steps.last());
        assert(before.last() == worlds[n]);
        let at = worlds[0].current->0;
        law_steps_keep_the_world_well_formed(
            worlds[n],
            steps[n],
            worlds[n + 1],
            at,
            Socket::Server(0),
        );
        law_version_counts_network_operations(worlds[n], steps[n], worlds[n + 1]);
    }
}

/// Receiving from one peer keeps the host well formed and its sockets.
proof fn lemma_received_from<M>(
    host: HostView<M>,
    peer: SocketAddr,
    envelope: Option<Envelope<M>>,
    post: HostView<M>,
)
    requires
        host.wf(),
        host.receives_from(peer, envelope, post),
    ensures
        post.wf(),
        post.addr == host.addr,
        host.same_sockets(post),
{
    match envelope {
        Some(_) => host.lemma_take(peer),
        None => host.lemma_set_queue(peer, Seq::empty()),
    }
}

/// Accepting or refusing a connection keeps the world well formed and every
/// socket.
proof fn lemma_tried<M>(
    world: WorldView<M>,
    addr: SocketAddr,
    result: Result<Option<(TcpStream, SocketAddr)>, SocketPair>,
    post: WorldView<M>,
    socket: Socket,
)
    requires
        world.wf(),
        world.listens(addr),
        world.tried(addr, result, post),
    ensures
        post.wf(),
        post.current == world.current,
        post.hosts == world.hosts.put(world.current->0, post.here()),
        world.here().tcp.has(socket) ==> {
            &&& post.here().tcp.has(socket)
            &&& post.here().tcp.semaphore(socket) == world.here().tcp.semaphore(socket)
        },
{
    let here = world.here();
    let at = world.current->0;
    let port = addr.spec_port();
    let host = HostView { tcp: post.here().tcp, ..here };
    let taken = here.tcp.take_pending(port);
    world.hosts.lemma_put(at, host);
    world.hosts.lemma_put(at, host.bump());
    if here.tcp.binds[port].items.len() > 0 {
        here.tcp.lemma_bind(port, here.tcp.binds[port].pop());
        assert(taken.has(socket) == here.tcp.has(socket));
    }
    match result {
        Ok(Some((stream, _))) => {
            let new = Socket::Stream(stream@.pair);
            here.tcp.lemma_same_made(taken, world.made);
            taken.lemma_open_stream(stream@.pair, stream@.notify, world.made);
            assert(here.tcp.opens(new, stream@.notify, host.tcp)) by {
                assert forall|s: Socket|
                    {
                        &&& #[trigger] host.tcp.has(s) == (s == new || here.tcp.has(s))
                        &&& here.tcp.has(s) ==> host.tcp.semaphore(s) == here.tcp.semaphore(s)
                    } by {
                    assert(taken.has(s) == here.tcp.has(s));
                }
            }
            world.lemma_open(at, host.bump(), new, stream@.notify);
            assert(host.tcp.has(socket) == (socket == new || here.tcp.has(socket)));
        },
        _ => {
            world.lemma_set_host(at, host);
        },
    }
}

} // verus!
