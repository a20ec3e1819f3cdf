//! The world: which hosts there are, and what the one that is being executed
//! does.
use std::rc::Rc;
use tokio::sync::Semaphore;
use vstd::prelude::*;

use crate::addr::{IpAddr, SocketAddr};
use crate::envelope::{Envelope, Message, Outgoing, RecvRecord};
use crate::handshake::AckReceiver;
use crate::host::{Host, HostView};
use crate::net::{Segment, SocketPair, TcpStream};
use crate::signal::Signal;
use crate::tcp::{AddrInUse, InboxView};
use crate::time::Instant;
use crate::world::{World, WorldView};

verus! {

impl<M> WorldView<M> {
    /// The host at `at` is being executed.
    pub open spec fn executes(self, at: SocketAddr) -> bool {
        self.current == Some(at) && self.hosts.has(at)
    }

    /// In `post` the same hosts stand in the same order, the same one is being
    /// executed, and none but the one at `at` has changed.
    pub open spec fn same_elsewhere(self, at: SocketAddr, post: WorldView<M>) -> bool {
        &&& post.current == self.current
        &&& self.hosts.same_but(at, post.hosts)
        &&& post.hosts.entries.len() == self.hosts.entries.len()
        &&& post.hosts.has(at)
    }

    /// What setting the state of one host leaves.
    pub proof fn lemma_set_same_elsewhere(self, at: SocketAddr, host: HostView<M>)
        requires
            self.wf(),
            self.hosts.has(at),
        ensures
            self.same_elsewhere(at, self.set_host(at, host)),
            self.set_host(at, host).hosts[at] == host,
    {
        self.hosts.lemma_put_same_but(at, host);
    }
}

impl<M> HostView<M> {
    /// In `post` the host has everything as before but its stream sockets and
    /// its version.
    pub open spec fn same_but_streams(self, post: HostView<M>) -> bool {
        &&& self.same_base(post)
        &&& post.udp_inbox == self.udp_inbox
        &&& post.udp_notify == self.udp_notify
    }
}

/// The socket of `port` at the IP address of a host.
pub open spec fn socket_of(host: SocketAddr, port: u16) -> SocketAddr {
    match host {
        SocketAddr::V4 { ip, .. } => SocketAddr::V4 { ip, port },
        SocketAddr::V6 { ip, .. } => SocketAddr::V6 { ip, port, flowinfo: 0, scope_id: 0 },
    }
}

/// `q` is the least port from the next up to 65534 that is not the host's own.
pub open spec fn is_next_port<M>(host: HostView<M>, q: u16) -> bool {
    &&& host.next_ephemeral_port <= q <= 65534
    &&& crate::outcomes::hosts::is_free(host, q)
    &&& forall|p: u16|
        host.next_ephemeral_port <= p < q ==> !(#[trigger] crate::outcomes::hosts::is_free(host, p))
}

// Which hosts there are
// ---------------------

/// A world starts without hosts.
pub proof fn law_no_hosts_at_first<M>(world: World<M>)
    requires
        call_ensures(World::<M>::new, (), world),
    ensures
        world.wf(),
        world@.hosts.entries.len() == 0,
        world@.current is None,
        world@.made.len() == 0,
{
}

/// Choosing the host to execute changes nothing else.
pub proof fn law_choosing_a_host<M>(world: &mut World<M>, current: Option<SocketAddr>)
    requires
        old(world).wf(),
        call_ensures(World::<M>::set_current, (world, current), ()),
    ensures
        final(world).wf(),
        final(world)@.current == current,
        final(world)@.hosts == old(world)@.hosts,
        final(world)@.made == old(world)@.made,
{
}

/// The host that is being executed is told where there is one at the address
/// that was chosen.
pub proof fn law_asking_for_the_current_host<M>(
    world: &World<M>,
    at: SocketAddr,
    current: Option<SocketAddr>,
    found: bool,
)
    requires
        world.wf(),
        call_ensures(World::<M>::current, (world,), current),
        call_ensures(World::<M>::contains_host, (world, at), found),
    ensures
        found <==> world@.hosts.has(at),
        current == Some(at) <==> world@.executes(at),
{
}

/// A host is found under its address.
pub proof fn law_finding_a_host<M>(world: &World<M>, at: SocketAddr, host: &Host<M>)
    requires
        world.wf(),
        world@.hosts.has(at),
        ({
            ||| call_ensures(World::<M>::host, (world, at), host)
            ||| world@.current == Some(at) && call_ensures(
                World::<M>::current_host,
                (world,),
                host,
            )
        }),
    ensures
        host.wf(),
        host@ == world@.hosts[at],
        host@.addr == at,
        call_requires(World::<M>::host, (world, at)),
        world@.current == Some(at) ==> call_requires(World::<M>::current_host, (world,)),
{
}

/// Writing to a host changes that host and nothing else, and the world stays
/// well formed as long as the host keeps its address and its sockets.
pub proof fn law_writing_to_a_host<M>(world: &mut World<M>, at: SocketAddr, host: &mut Host<M>)
    requires
        old(world).wf(),
        old(world)@.hosts.has(at),
        call_ensures(World::<M>::host_mut, (world, at), host),
    ensures
        old(host).wf(),
        old(host)@ == old(world)@.hosts[at],
        old(world)@.same_elsewhere(at, final(world)@),
        final(world)@.hosts[at] == final(host)@,
        final(world)@.made == old(world)@.made,
        ({
            &&& final(host).wf()
            &&& final(host)@.addr == at
            &&& final(host)@.tcp == old(host)@.tcp
            &&& final(host)@.udp_notify.semaphore == old(host)@.udp_notify.semaphore
        }) ==> final(world).wf(),
        call_requires(World::<M>::host_mut, (world, at)),
{
    old(world).lemma_wf();
    old(world)@.lemma_set_same_elsewhere(at, final(host)@);
}

/// A host that is registered stands behind all others, as one that has just
/// started; the others stay as they are. It is linked with each of them, in
/// their order, by their IP addresses.
pub proof fn law_registering_a_host<M>(
    world: &mut World<M>,
    addr: SocketAddr,
    epoch: Instant,
    notify: Signal,
    links: Vec<(IpAddr, IpAddr)>,
    i: int,
)
    requires
        old(world).wf(),
        !old(world)@.hosts.has(addr),
        call_ensures(World::<M>::register, (world, addr, epoch, notify), links),
    ensures
        final(world).wf(),
        call_requires(World::<M>::register, (world, addr, epoch, notify)),
        final(world)@.current == old(world)@.current,
        final(world)@.hosts.entries.len() == old(world)@.hosts.entries.len() + 1,
        0 <= i < old(world)@.hosts.entries.len() ==> {
            &&& final(world)@.hosts.entries[i] == old(world)@.hosts.entries[i]
            &&& links@[i].0 == old(world)@.hosts.entries[i].0.spec_ip()
            &&& links@[i].1 == addr.spec_ip()
        },
        links@.len() == old(world)@.hosts.entries.len(),
        ({
            let (key, host) = final(world)@.hosts.entries.last();
            &&& key == addr
            &&& host.addr == addr
            &&& host.udp_inbox.entries.len() == 0
            &&& host.udp_notify == notify@
            &&& host.tcp.binds.entries.len() == 0
            &&& host.tcp.connections.entries.len() == 0
            &&& host.next_ephemeral_port == 1024
            &&& host.now == epoch
            &&& host.epoch == epoch
            &&& host.version == 0
        }),
{
    old(world).lemma_wf();
    old(world)@.hosts.lemma_put_same_but(addr, HostView::new(addr, epoch, notify@));
}

/// A tick sets the clock of one host and nothing else.
pub proof fn law_ticking_a_host<M>(world: &mut World<M>, at: SocketAddr, now: Instant)
    requires
        old(world).wf(),
        old(world)@.hosts.has(at),
        call_ensures(World::<M>::tick, (world, at, now), ()),
    ensures
        final(world).wf(),
        call_requires(World::<M>::tick, (world, at, now)),
        old(world)@.same_elsewhere(at, final(world)@),
        final(world)@.made == old(world)@.made,
        ({
            let pre = old(world)@.hosts[at];
            let post = final(world)@.hosts[at];
            &&& post.now == now
            &&& post.epoch == pre.epoch
            &&& post.addr == pre.addr
            &&& post.version == pre.version
            &&& post.next_ephemeral_port == pre.next_ephemeral_port
            &&& post.udp_inbox == pre.udp_inbox
            &&& post.udp_notify == pre.udp_notify
            &&& post.tcp == pre.tcp
        }),
{
    old(world).lemma_wf();
    old(world)@.lemma_set_same_elsewhere(at, HostView { now, ..old(world)@.hosts[at] });
}

// Messages
// --------

/// A message leaves from the address of the host that is being executed for
/// where it was sent, as it is; the version of the host goes up by one, and
/// nothing else changes.
pub proof fn law_sending_a_message<M>(
    world: &mut World<M>,
    at: SocketAddr,
    dst: SocketAddr,
    message: Message<M>,
    outgoing: Outgoing<M>,
)
    requires
        old(world).wf(),
        old(world)@.executes(at),
        old(world)@.hosts[at].version < u64::MAX,
        call_ensures(World::<M>::send_message, (world, dst, message), outgoing),
    ensures
        final(world).wf(),
        call_requires(World::<M>::send_message, (world, dst, message)),
        outgoing.src == at,
        outgoing.dst == dst,
        outgoing.message == message,
        old(world)@.same_elsewhere(at, final(world)@),
        final(world)@.made == old(world)@.made,
        ({
            let pre = old(world)@.hosts[at];
            let post = final(world)@.hosts[at];
            &&& post.version == pre.version + 1
            &&& post.tcp == pre.tcp
            &&& pre.same_but_streams(post)
        }),
{
    old(world).lemma_wf();
    old(world)@.lemma_set_same_elsewhere(at, old(world)@.hosts[at].bump());
}

/// Receiving from a peer gives the first of its datagrams that wait at the host
/// that is being executed, and the others move up by one place; the version goes
/// up by one. The record of it holds the host's address, its new version, the
/// whole time that it has been executing for, and the sender. Where none waits
/// nothing is given or logged. Nothing else changes.
pub proof fn law_receiving_from_a_peer<M>(
    world: &mut World<M>,
    at: SocketAddr,
    peer: SocketAddr,
    result: (Option<Envelope<M>>, Rc<Semaphore>, Option<RecvRecord>),
)
    requires
        old(world).wf(),
        old(world)@.executes(at),
        ({
            let pre = old(world)@.hosts[at];
            pre.udp_inbox.has(peer) && pre.udp_inbox[peer].len() > 0 ==> pre.version < u64::MAX
        }),
        call_ensures(World::<M>::recv_from, (world, peer), result),
    ensures
        final(world).wf(),
        call_requires(World::<M>::recv_from, (world, peer)),
        old(world)@.same_elsewhere(at, final(world)@),
        final(world)@.made == old(world)@.made,
        result.1 == old(world)@.hosts[at].udp_notify.semaphore,
        result.2 is Some <==> result.0 is Some,
        ({
            let pre = old(world)@.hosts[at];
            let post = final(world)@.hosts[at];
            let before = pre.udp_inbox[peer];
            let after = post.udp_inbox[peer];
            &&& pre.udp_inbox.same_but(peer, post.udp_inbox)
            &&& post.udp_inbox.has(peer)
            &&& post.udp_notify == pre.udp_notify
            &&& post.tcp == pre.tcp
            &&& pre.same_base(post)
            &&& result.0 is Some <==> pre.udp_inbox.has(peer) && before.len() > 0
            &&& result.0 is None ==> after.len() == 0 && post.version == pre.version
            &&& result.0 is Some ==> {
                &&& result.0 == Some(before[0])
                &&& after.len() == before.len() - 1
                &&& forall|i: int| 0 <= i < after.len() ==> #[trigger] after[i] == before[i + 1]
                &&& post.version == pre.version + 1
                &&& result.2->0.dot.host == at
                &&& result.2->0.dot.version == pre.version + 1
                &&& result.2->0.src == before[0].src
                &&& pre.epoch.nanos <= pre.now.nanos ==> result.2->0.elapsed == pre.now.nanos
                    - pre.epoch.nanos
                &&& pre.epoch.nanos > pre.now.nanos ==> result.2->0.elapsed == 0
            }
        }),
{
    let pre = old(world)@.hosts[at];
    let post = final(world)@.here();
    old(world).lemma_wf();
    crate::outcomes::hosts::law_receptions_from_a_peer(pre, peer, result.0, post);
    crate::outcomes::hosts::law_what_is_logged(post, result.0, result.2);
    old(world)@.lemma_set_same_elsewhere(at, post);
}

/// Receiving from whichever peer gives the first datagram of the first peer of
/// which one waits at the host that is being executed, with a record as above,
/// or nothing where none waits.
pub proof fn law_receiving_from_whichever_peer<M>(
    world: &mut World<M>,
    at: SocketAddr,
    result: (Option<Envelope<M>>, Rc<Semaphore>, Option<RecvRecord>),
    i: int,
)
    requires
        old(world).wf(),
        old(world)@.executes(at),
        ({
            let entries = old(world)@.hosts[at].udp_inbox.entries;
            old(world)@.hosts[at].version < u64::MAX || (forall|j: int|
                0 <= j < entries.len() ==> (#[trigger] entries[j]).1.len() == 0)
        }),
        call_ensures(World::<M>::recv, (world,), result),
    ensures
        final(world).wf(),
        call_requires(World::<M>::recv, (world,)),
        old(world)@.same_elsewhere(at, final(world)@),
        final(world)@.made == old(world)@.made,
        result.1 == old(world)@.hosts[at].udp_notify.semaphore,
        result.2 is Some <==> result.0 is Some,
        ({
            let entries = old(world)@.hosts[at].udp_inbox.entries;
            &&& 0 <= i < entries.len()
            &&& entries[i].1.len() > 0
            &&& forall|j: int| 0 <= j < i ==> (#[trigger] entries[j]).1.len() == 0
        }) ==> {
            let pre = old(world)@.hosts[at];
            let post = final(world)@.hosts[at];
            &&& result.0 == Some(pre.udp_inbox.entries[i].1[0])
            &&& pre.moved_up(i, post)
            &&& post.udp_notify == pre.udp_notify
            &&& post.tcp == pre.tcp
            &&& pre.same_base(post)
            &&& post.version == pre.version + 1
            &&& result.2->0.dot.host == at
            &&& result.2->0.dot.version == pre.version + 1
            &&& result.2->0.src == pre.udp_inbox.entries[i].1[0].src
            &&& pre.epoch.nanos <= pre.now.nanos ==> result.2->0.elapsed == pre.now.nanos
                - pre.epoch.nanos
            &&& pre.epoch.nanos > pre.now.nanos ==> result.2->0.elapsed == 0
        },
        ({
            let entries = old(world)@.hosts[at].udp_inbox.entries;
            forall|j: int| 0 <= j < entries.len() ==> (#[trigger] entries[j]).1.len() == 0
        }) ==> {
            &&& result.0 is None
            &&& final(world)@.hosts[at] == old(world)@.hosts[at]
        },
{
    let pre = old(world)@.hosts[at];
    let post = final(world)@.here();
    let entries = pre.udp_inbox.entries;
    old(world).lemma_wf();
    crate::outcomes::hosts::law_what_is_logged(post, result.0, result.2);
    old(world)@.lemma_set_same_elsewhere(at, post);
    if 0 <= i < entries.len() && entries[i].1.len() > 0 && (forall|j: int|
        0 <= j < i ==> (#[trigger] entries[j]).1.len() == 0) {
        crate::outcomes::hosts::law_receptions_from_whichever_peer(pre, result.0, post, i);
    }
    if forall|j: int| 0 <= j < entries.len() ==> (#[trigger] entries[j]).1.len() == 0 {
        crate::outcomes::hosts::law_nothing_to_receive(pre, result.0, post);
    }
}

// Connections
// -----------

/// The host that is being executed can ask for a connection exactly if it has a
/// version and a port left and the socket of that port is neither the one that
/// it asks for nor connected with it.
pub proof fn law_when_a_connection_can_be_asked_for<M>(
    world: &World<M>,
    at: SocketAddr,
    dst: SocketAddr,
    possible: bool,
    q: u16,
)
    requires
        world.wf(),
        world@.executes(at),
        call_ensures(World::<M>::can_connect, (world, dst), possible),
    ensures
        is_next_port(world@.hosts[at], q) ==> (possible <==> {
            &&& world@.hosts[at].version < u64::MAX
            &&& socket_of(at, q) != dst
            &&& !world@.hosts[at].tcp.connections.has(SocketPair(socket_of(at, q), dst))
        }),
        (forall|p: u16|
            world@.hosts[at].next_ephemeral_port <= p <= 65534 ==> !(
            #[trigger] crate::outcomes::hosts::is_free(world@.hosts[at], p))) ==> !possible,
{
    world.lemma_wf();
    let host = world@.hosts[at];
    let next = host.next_ephemeral_port;
    assert(host.addr == at);
    assert(crate::outcomes::hosts::is_free(host, next) == (next != at.spec_port()));
    if next < u16::MAX {
        let second = (next + 1) as u16;
        assert(crate::outcomes::hosts::is_free(host, second) == (second != at.spec_port()));
    }
}

/// Nobody can ask for a connection where no host is being executed.
pub proof fn law_no_connection_without_a_host<M>(world: &World<M>, dst: SocketAddr, possible: bool)
    requires
        world.wf(),
        world@.current is None || !world@.hosts.has(world@.current->0),
        call_ensures(World::<M>::can_connect, (world, dst), possible),
    ensures
        !possible,
{
}

/// A connection is asked for from the least port that is left. The request names
/// where it goes and carries the sending half of the channel whose receiving
/// half the caller gets. The connection is new, its semaphore is none of those
/// that were made, the version goes up by one, and the port is given out.
/// Nothing else changes.
pub proof fn law_asking_for_a_connection<M>(
    world: &mut World<M>,
    at: SocketAddr,
    dst: SocketAddr,
    q: u16,
    result: (AckReceiver, SocketPair, Outgoing<M>),
)
    requires
        old(world).wf(),
        old(world)@.executes(at),
        is_next_port(old(world)@.hosts[at], q),
        old(world)@.hosts[at].version < u64::MAX,
        socket_of(at, q) != dst,
        !old(world)@.hosts[at].tcp.connections.has(SocketPair(socket_of(at, q), dst)),
        call_ensures(World::<M>::connect, (world, dst), result),
    ensures
        final(world).wf(),
        call_requires(World::<M>::connect, (world, dst)),
        result.1 == SocketPair(socket_of(at, q), dst),
        result.2.src == socket_of(at, q),
        result.2.dst == dst,
        result.2.message matches Message::Segment(Segment::Syn(syn)) && syn.dst == dst
            && syn.notify.channel() == result.0.channel(),
        old(world)@.same_elsewhere(at, final(world)@),
        ({
            let pre = old(world)@.hosts[at];
            let post = final(world)@.hosts[at];
            let semaphore = post.tcp.connections[result.1].notify.semaphore;
            &&& pre.tcp.gained(result.1, semaphore, post.tcp)
            &&& !old(world)@.made.contains(semaphore)
            &&& final(world)@.made == old(world)@.made.push(semaphore)
            &&& post.tcp.binds == pre.tcp.binds
            &&& post.version == pre.version + 1
            &&& post.next_ephemeral_port == q + 1
            &&& post.addr == pre.addr
            &&& post.now == pre.now
            &&& post.epoch == pre.epoch
            &&& post.udp_inbox == pre.udp_inbox
            &&& post.udp_notify == pre.udp_notify
        }),
{
    let pre = old(world)@.hosts[at];
    let next = pre.next_ephemeral_port;
    let semaphore = final(world)@.here().tcp.connections[result.1].notify.semaphore;
    let pair = SocketPair(old(world)@.local_socket(), dst);
    let inbox = InboxView::fresh(semaphore);
    let host = HostView { tcp: pre.tcp.connect(pair, inbox), ..pre.assign_port() }.bump();
    old(world).lemma_wf();
    assert(crate::outcomes::hosts::is_free(pre, next) == (next != at.spec_port()));
    if next < u16::MAX {
        let second = (next + 1) as u16;
        assert(crate::outcomes::hosts::is_free(pre, second) == (second != at.spec_port()));
    }
    pre.tcp.connections.lemma_put_same_but(pair, inbox);
    old(world)@.lemma_set_same_elsewhere(at, host);
}

/// Binding on the host that is being executed succeeds exactly if the port is
/// free there. The new server socket holds no request, has no permits and waits
/// by a semaphore that is none of those that were made. Nothing else changes.
pub proof fn law_binding_on_a_host<M>(
    world: &mut World<M>,
    at: SocketAddr,
    addr: SocketAddr,
    result: Result<Rc<Semaphore>, AddrInUse>,
)
    requires
        old(world).wf(),
        old(world)@.executes(at),
        call_ensures(World::<M>::bind, (world, addr), result),
    ensures
        final(world).wf(),
        call_requires(World::<M>::bind, (world, addr)),
        result is Ok <==> !old(world)@.hosts[at].tcp.binds.has(addr.spec_port()),
        result matches Err(error) ==> error.addr == addr && final(world)@ == old(world)@,
        result matches Ok(semaphore) ==> {
            &&& bound(old(world)@, at, addr.spec_port(), semaphore, final(world)@)
            &&& !old(world)@.made.contains(semaphore)
        },
{
    old(world).lemma_wf();
    if let Ok(semaphore) = result {
        lemma_bound(old(world)@, at, addr.spec_port(), semaphore);
    }
}

/// In `post` the host at `at` has a new server socket at `port`, which holds
/// nothing, has no permits and waits by the new `semaphore`; nothing else has
/// changed.
pub open spec fn bound<M>(
    world: WorldView<M>,
    at: SocketAddr,
    port: u16,
    semaphore: Rc<Semaphore>,
    post: WorldView<M>,
) -> bool {
    let before = world.hosts[at];
    let after = post.hosts[at];
    &&& world.same_elsewhere(at, post)
    &&& before.same_but_streams(after)
    &&& after.version == before.version
    &&& after.tcp.connections == before.tcp.connections
    &&& before.tcp.binds.same_but(port, after.tcp.binds)
    &&& after.tcp.binds.has(port)
    &&& after.tcp.binds[port].items.len() == 0
    &&& after.tcp.binds[port].notify.granted == 0
    &&& after.tcp.binds[port].notify.semaphore == semaphore
    &&& post.made == world.made.push(semaphore)
}

/// What binding leaves.
pub proof fn lemma_bound<M>(
    world: WorldView<M>,
    at: SocketAddr,
    port: u16,
    semaphore: Rc<Semaphore>,
)
    requires
        world.wf(),
        world.executes(at),
    ensures
        bound(world, at, port, semaphore, world.bind(port, semaphore)),
{
    let pre = world.hosts[at];
    let inbox = InboxView::fresh(semaphore);
    pre.tcp.binds.lemma_put_same_but(port, inbox);
    world.lemma_set_same_elsewhere(at, HostView { tcp: pre.tcp.bind(port, inbox), ..pre });
}

/// The host that is being executed listens at a port that is bound, as long as
/// it has a version left for a request that waits; it can accept there unless
/// the connection that waits first is set up already.
pub proof fn law_when_a_host_listens<M>(
    world: &World<M>,
    at: SocketAddr,
    addr: SocketAddr,
    listening: bool,
    possible: bool,
)
    requires
        world.wf(),
        world@.executes(at),
        call_ensures(World::<M>::listens, (world, addr), listening),
        call_ensures(World::<M>::can_accept, (world, addr), possible),
    ensures
        ({
            let host = world@.hosts[at];
            let pending = host.tcp.binds[addr.spec_port()].items;
            &&& listening <==> host.tcp.binds.has(addr.spec_port()) && (pending.len() == 0
                || host.version < u64::MAX)
            &&& possible <==> listening && (pending.len() == 0 || !host.tcp.connections.has(
                SocketPair(addr, pending[0].src),
            ))
        }),
{
}

/// Where no host is being executed, nobody listens.
pub proof fn law_nobody_listens_without_a_host<M>(
    world: &World<M>,
    addr: SocketAddr,
    listening: bool,
    possible: bool,
)
    requires
        world.wf(),
        world@.current is None || !world@.hosts.has(world@.current->0),
        call_ensures(World::<M>::listens, (world, addr), listening),
        call_ensures(World::<M>::can_accept, (world, addr), possible),
    ensures
        !listening,
        !possible,
{
}

/// The first request that waits at the port is taken out and acknowledged to its
/// own sender. Where that succeeded, a connection that is not there yet is set
/// up, with a semaphore that is none of those that were made, and the version
/// goes up by one; one that is there is refused. Where it failed, or where
/// nothing waits, nothing is given. Nothing else changes.
pub open spec fn answered<M>(
    world: WorldView<M>,
    at: SocketAddr,
    addr: SocketAddr,
    result: Result<Option<(TcpStream, SocketAddr)>, SocketPair>,
    post: WorldView<M>,
) -> bool {
    let before = world.hosts[at];
    let after = post.hosts[at];
    let pending = before.tcp.binds[addr.spec_port()].items;
    let first = pending[0];
    let pair = SocketPair(addr, first.src);
    let connected = before.tcp.connections.has(pair);
    &&& world.same_elsewhere(at, post)
    &&& before.same_but_streams(after)
    &&& pending.len() == 0 ==> {
        &&& result matches Ok(None)
        &&& after.tcp.binds == before.tcp.binds
    }
    &&& pending.len() > 0 ==> {
        &&& before.tcp.moved_up(addr.spec_port(), after.tcp)
        &&& exists|reply: Result<(), ()>|
            {
                &&& #[trigger] first.replied(reply)
                &&& (result is Err <==> reply is Ok && connected)
                &&& (result matches Ok(Some(_)) <==> reply is Ok && !connected)
            }
    }
    &&& result matches Err(refused) ==> refused == pair
    &&& match result {
        Ok(Some((stream, peer))) => {
            &&& peer == first.src
            &&& stream@.pair == pair
            &&& stream@.acknowledged == Some(first.syn.notify.channel())
            &&& before.tcp.gained(pair, stream@.notify, after.tcp)
            &&& !world.made.contains(stream@.notify)
            &&& post.made == world.made.push(stream@.notify)
            &&& after.version == before.version + 1
        },
        _ => {
            &&& after.tcp.connections == before.tcp.connections
            &&& post.made == world.made
            &&& after.version == before.version
        },
    }
}

/// Accepting or refusing answers the first request that waits.
pub proof fn law_a_request_is_answered<M>(
    world: WorldView<M>,
    at: SocketAddr,
    addr: SocketAddr,
    result: Result<Option<(TcpStream, SocketAddr)>, SocketPair>,
    post: WorldView<M>,
)
    requires
        world.wf(),
        world.executes(at),
        world.listens(addr),
        world.tried(addr, result, post),
    ensures
        answered(world, at, addr, result, post),
{
    let before = world.hosts[at];
    let host = HostView { tcp: post.here().tcp, ..before };
    crate::outcomes::streams::lemma_tried(before.tcp, addr, result, post.here().tcp);
    world.lemma_set_same_elsewhere(at, host);
    world.lemma_set_same_elsewhere(at, host.bump());
}

/// What a call of `World::try_accept` does, as the law above says it of the
/// states.
pub proof fn law_trying_to_accept_on_a_host<M>(
    world: &mut World<M>,
    at: SocketAddr,
    addr: SocketAddr,
    result: Result<Option<(TcpStream, SocketAddr)>, SocketPair>,
)
    requires
        old(world).wf(),
        old(world)@.executes(at),
        old(world)@.hosts[at].tcp.binds.has(addr.spec_port()),
        ({
            let host = old(world)@.hosts[at];
            host.tcp.binds[addr.spec_port()].items.len() > 0 ==> host.version < u64::MAX
        }),
        call_ensures(World::<M>::try_accept, (world, addr), result),
    ensures
        final(world).wf(),
        call_requires(World::<M>::try_accept, (world, addr)),
        answered(old(world)@, at, addr, result, final(world)@),
{
    old(world).lemma_wf();
    law_a_request_is_answered(old(world)@, at, addr, result, final(world)@);
}

/// What a call of `World::accept` does where the connection is not there: it
/// answers the first request that waits and refuses none.
pub proof fn law_accepting_on_a_host<M>(
    world: &mut World<M>,
    at: SocketAddr,
    addr: SocketAddr,
    result: Option<(TcpStream, SocketAddr)>,
)
    requires
        old(world).wf(),
        old(world)@.executes(at),
        old(world)@.hosts[at].tcp.binds.has(addr.spec_port()),
        ({
            let host = old(world)@.hosts[at];
            let pending = host.tcp.binds[addr.spec_port()].items;
            pending.len() > 0 ==> host.version < u64::MAX && !host.tcp.connections.has(
                SocketPair(addr, pending[0].src),
            )
        }),
        call_ensures(World::<M>::accept, (world, addr), result),
    ensures
        final(world).wf(),
        call_requires(World::<M>::accept, (world, addr)),
        answered(old(world)@, at, addr, Ok(result), final(world)@),
{
    old(world).lemma_wf();
    law_a_request_is_answered(old(world)@, at, addr, Ok(result), final(world)@);
}

} // verus!
