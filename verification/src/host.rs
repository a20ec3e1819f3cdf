//! A host in the simulated network.
use std::collections::VecDeque;
use std::rc::Rc;
use tokio::sync::Semaphore;
use vstd::prelude::*;

use crate::addr::SocketAddr;
use crate::envelope::{Dot, Envelope, Message, RecvRecord};
use crate::ordered_map::OrderedMap;
use crate::signal::{Signal, SignalView};
use crate::table::Table;
use crate::tcp::{Tcp, TcpView};
use crate::time::Instant;

verus! {

/// The first port for client connections.
pub const FIRST_EPHEMERAL_PORT: u16 = 1024;

/// The port at which the ports for client connections are exhausted.
pub const EPHEMERAL_PORT_LIMIT: u16 = 65535;

/// A host in the simulated network.
///
/// Hosts support two networking modes:
/// - Datagram
/// - Stream
///
/// Both modes may be used by host software simultaneously.
pub struct Host<M> {
    /// Host address
    addr: SocketAddr,
    /// Messages in-flight to the host, by the peer that sent them. Some of
    /// these may still be "on the network".
    udp_inbox: Table<SocketAddr, VecDeque<Envelope<M>>>,
    /// Udp messages are available to read.
    udp_notify: Signal,
    /// Tcp interface for the host.
    tcp: Tcp,
    /// The next port for a client connection.
    next_ephemeral_port: u16,
    /// Current instant at the host.
    now: Instant,
    /// The instant at which the host started.
    epoch: Instant,
    /// Current host version. This is incremented each time a network operation
    /// occurs.
    version: u64,
}

/// The state of a host.
#[verifier::ext_equal]
pub struct HostView<M> {
    pub addr: SocketAddr,
    pub udp_inbox: OrderedMap<SocketAddr, Seq<Envelope<M>>>,
    pub udp_notify: SignalView,
    pub tcp: TcpView,
    pub next_ephemeral_port: u16,
    pub now: Instant,
    pub epoch: Instant,
    pub version: u64,
}

impl<M> HostView<M> {
    /// The state of a host that starts at `now`.
    pub open spec fn new(addr: SocketAddr, now: Instant, udp_notify: SignalView) -> HostView<M> {
        HostView {
            addr,
            udp_inbox: OrderedMap::empty(),
            udp_notify,
            tcp: TcpView::empty(),
            next_ephemeral_port: FIRST_EPHEMERAL_PORT,
            now,
            epoch: now,
            version: 0,
        }
    }

    /// What holds of every host: a datagram waits with its peer, there was a
    /// permit for each datagram that waits, and the ports for client
    /// connections are at or above the first.
    pub open spec fn wf(self) -> bool {
        &&& self.udp_inbox.distinct()
        &&& forall|i: int, j: int|
            0 <= i < self.udp_inbox.len() && 0 <= j < self.udp_inbox.value_at(i).len() ==> {
                let envelope = #[trigger] self.udp_inbox.value_at(i)[j];
                envelope.src.host == self.udp_inbox.key_at(i) && envelope.message is Datagram
            }
        &&& self.udp_inbox.total() <= self.udp_notify.granted
        &&& self.tcp.wf()
        &&& self.next_ephemeral_port >= FIRST_EPHEMERAL_PORT
    }

    /// The number of permits for datagrams beyond those for the ones that wait.
    pub open spec fn spare_permits(self) -> int {
        self.udp_notify.granted - self.udp_inbox.total()
    }

    /// The semaphores by which the host waits for datagrams and its stream
    /// sockets wait are among those that were made.
    pub open spec fn made_by(self, made: Seq<Rc<Semaphore>>) -> bool {
        made.contains(self.udp_notify.semaphore) && self.tcp.made_by(made)
    }

    /// In the state `post` the host waits for datagrams by the same semaphore,
    /// and it has the same stream sockets with the same semaphores.
    pub open spec fn same_sockets(self, post: HostView<M>) -> bool {
        &&& post.udp_notify.semaphore == self.udp_notify.semaphore
        &&& self.tcp.same_sockets(post.tcp)
    }

    /// The datagrams from `peer` that wait, the oldest first.
    pub open spec fn queue(self, peer: SocketAddr) -> Seq<Envelope<M>> {
        if self.udp_inbox.has(peer) {
            self.udp_inbox[peer]
        } else {
            Seq::empty()
        }
    }

    /// The state with the datagrams from `peer` that wait set.
    pub open spec fn set_queue(self, peer: SocketAddr, queue: Seq<Envelope<M>>) -> HostView<M> {
        HostView { udp_inbox: self.udp_inbox.put(peer, queue), ..self }
    }

    /// The dot of the host at its current version.
    pub open spec fn dot(self) -> Dot {
        Dot { host: self.addr, version: self.version }
    }

    /// The state at the next version.
    pub open spec fn bump(self) -> HostView<M> {
        HostView { version: (self.version + 1) as u64, ..self }
    }

    /// The port that the next client connection gets: the host's own port is
    /// passed over.
    pub open spec fn ephemeral_port(self) -> int {
        if self.next_ephemeral_port == self.addr.spec_port() {
            self.next_ephemeral_port + 1
        } else {
            self.next_ephemeral_port as int
        }
    }

    /// There is a port left for a client connection.
    pub open spec fn has_ephemeral_port(self) -> bool {
        self.ephemeral_port() < EPHEMERAL_PORT_LIMIT
    }

    /// The state after a port was given to a client connection.
    pub open spec fn assign_port(self) -> HostView<M> {
        HostView { next_ephemeral_port: (self.ephemeral_port() + 1) as u16, ..self }
    }

    /// The network may hand `envelope` over.
    pub open spec fn accepts(self, envelope: Envelope<M>) -> bool {
        match envelope.message {
            Message::Segment(segment) => {
                &&& self.tcp.accepts(envelope.src.host, segment)
                &&& self.tcp.notify_of(segment).granted < crate::signal::max_permits()
            },
            Message::Datagram(_) => self.udp_notify.granted < crate::signal::max_permits(),
        }
    }

    /// The state after the network handed `envelope` over: a segment goes to
    /// its stream socket, a datagram waits behind those of the same peer, and
    /// there is one more permit where it waits.
    pub open spec fn deliver(self, envelope: Envelope<M>) -> HostView<M> {
        match envelope.message {
            Message::Segment(segment) => HostView {
                tcp: self.tcp.deliver(envelope.src.host, segment),
                ..self
            },
            Message::Datagram(_) => HostView {
                udp_notify: self.udp_notify.grant(1),
                ..self.set_queue(
                    envelope.src.host,
                    self.queue(envelope.src.host).push(envelope),
                )
            },
        }
    }

    /// The peer at place `i` is the first of which a datagram waits.
    pub open spec fn is_first_ready(self, i: int) -> bool {
        &&& 0 <= i < self.udp_inbox.len()
        &&& self.udp_inbox.value_at(i).len() > 0
        &&& forall|j: int| 0 <= j < i ==> (#[trigger] self.udp_inbox.value_at(j)).len() == 0
    }

    /// A datagram waits.
    pub open spec fn has_mail(self) -> bool {
        exists|i: int|
            0 <= i < self.udp_inbox.len() && (#[trigger] self.udp_inbox.value_at(i)).len() > 0
    }

    /// Receiving from whichever peer gives `envelope` and leaves the host in
    /// the state `post`.
    pub open spec fn receives(self, envelope: Option<Envelope<M>>, post: HostView<M>) -> bool {
        match envelope {
            Some(envelope) => exists|i: int|
                {
                    let peer = self.udp_inbox.key_at(i);
                    &&& #[trigger] self.is_first_ready(i)
                    &&& envelope == self.queue(peer).first()
                    &&& envelope.src.host == peer
                    &&& post == self.take(peer)
                },
            None => !self.has_mail() && post == self,
        }
    }

    /// Receiving from `peer` gives `envelope` and leaves the host in the state
    /// `post`. A peer that was not known is known from then on.
    pub open spec fn receives_from(
        self,
        peer: SocketAddr,
        envelope: Option<Envelope<M>>,
        post: HostView<M>,
    ) -> bool {
        match envelope {
            Some(envelope) => {
                &&& self.queue(peer).len() > 0
                &&& envelope == self.queue(peer).first()
                &&& envelope.src.host == peer
                &&& post == self.take(peer)
            },
            None => {
                &&& self.queue(peer).len() == 0
                &&& post == self.set_queue(peer, Seq::empty())
            },
        }
    }

    /// `record` is what is logged of `envelope` once the host has received it.
    pub open spec fn logs(self, envelope: Option<Envelope<M>>, record: Option<RecvRecord>) -> bool {
        match envelope {
            Some(envelope) => {
                &&& record matches Some(record)
                &&& record.dot == self.dot()
                &&& record.elapsed == self.now.spec_since(self.epoch)
                &&& record.src == envelope.src
            },
            None => record is None,
        }
    }

    /// The state after the oldest datagram from `peer` was received.
    pub open spec fn take(self, peer: SocketAddr) -> HostView<M> {
        self.set_queue(peer, self.queue(peer).drop_first()).bump()
    }
}

impl<M> HostView<M> {
    /// A peer's datagrams stand at its place.
    pub proof fn lemma_queue_at(self, i: int)
        requires
            self.wf(),
            0 <= i < self.udp_inbox.len(),
        ensures
            self.udp_inbox.has(self.udp_inbox.key_at(i)),
            self.udp_inbox.position(self.udp_inbox.key_at(i)) == i,
            self.queue(self.udp_inbox.key_at(i)) == self.udp_inbox.value_at(i),
    {
        self.udp_inbox.lemma_position(i);
    }

    /// Every datagram that waits comes from the peer that it waits with.
    pub proof fn lemma_queue(self, peer: SocketAddr, j: int)
        requires
            self.wf(),
            0 <= j < self.queue(peer).len(),
        ensures
            self.queue(peer)[j].src.host == peer,
            self.queue(peer)[j].message is Datagram,
    {
        self.udp_inbox.lemma_at_position(peer);
        assert(self.udp_inbox.value_at(self.udp_inbox.position(peer))[j] == self.queue(peer)[j]);
    }

    /// Setting the datagrams of one peer to no more than there were, all of
    /// them from that peer, keeps the state well formed.
    pub proof fn lemma_set_queue(self, peer: SocketAddr, queue: Seq<Envelope<M>>)
        requires
            self.wf(),
            queue.len() <= self.queue(peer).len(),
            forall|j: int|
                0 <= j < queue.len() ==> {
                    &&& (#[trigger] queue[j]).src.host == peer
                    &&& queue[j].message is Datagram
                },
        ensures
            self.set_queue(peer, queue).wf(),
    {
        self.lemma_put_queue(peer, queue);
        self.udp_inbox.lemma_total_put(peer, queue);
    }

    /// Setting the datagrams of one peer keeps every datagram with its peer.
    proof fn lemma_put_queue(self, peer: SocketAddr, queue: Seq<Envelope<M>>)
        requires
            self.wf(),
            forall|j: int|
                0 <= j < queue.len() ==> {
                    &&& (#[trigger] queue[j]).src.host == peer
                    &&& queue[j].message is Datagram
                },
        ensures
            ({
                let inbox = self.udp_inbox.put(peer, queue);
                &&& inbox.distinct()
                &&& forall|i: int, j: int|
                    0 <= i < inbox.len() && 0 <= j < inbox.value_at(i).len() ==> {
                        let envelope = #[trigger] inbox.value_at(i)[j];
                        envelope.src.host == inbox.key_at(i) && envelope.message is Datagram
                    }
            }),
    {
        let inbox = self.udp_inbox.put(peer, queue);
        self.udp_inbox.lemma_put(peer, queue);
        assert forall|i: int, j: int|
            0 <= i < inbox.len() && 0 <= j < inbox.value_at(i).len() implies {
            let envelope = #[trigger] inbox.value_at(i)[j];
            envelope.src.host == inbox.key_at(i) && envelope.message is Datagram
        } by {
            if inbox.key_at(i) == peer {
                inbox.lemma_position(i);
                assert(inbox.value_at(i) == queue);
                assert(queue[j].src.host == peer);
            } else {
                assert(inbox.entries[i] == self.udp_inbox.entries[i]);
                assert(self.udp_inbox.value_at(i)[j].src.host == self.udp_inbox.key_at(i));
            }
        }
    }

    /// What a reception from whichever peer gives comes from one place: the
    /// first of which a datagram waits.
    pub proof fn lemma_receives(self, envelope: Envelope<M>, post: HostView<M>) -> (i: int)
        requires
            self.wf(),
            self.receives(Some(envelope), post),
        ensures
            self.is_first_ready(i),
            self.udp_inbox.has(self.udp_inbox.key_at(i)),
            self.udp_inbox.position(self.udp_inbox.key_at(i)) == i,
            self.queue(self.udp_inbox.key_at(i)) == self.udp_inbox.value_at(i),
            envelope == self.udp_inbox.value_at(i).first(),
            envelope.src.host == self.udp_inbox.key_at(i),
            post == self.take(self.udp_inbox.key_at(i)),
    {
        let i = choose|i: int|
            {
                let peer = self.udp_inbox.key_at(i);
                &&& #[trigger] self.is_first_ready(i)
                &&& envelope == self.queue(peer).first()
                &&& envelope.src.host == peer
                &&& post == self.take(peer)
            };
        self.lemma_queue_at(i);
        i
    }

    /// Delivering a datagram keeps the state well formed.
    pub proof fn lemma_deliver(self, envelope: Envelope<M>)
        requires
            self.wf(),
            envelope.message is Datagram,
        ensures
            self.deliver(envelope).wf(),
    {
        let peer = envelope.src.host;
        let queue = self.queue(peer).push(envelope);
        assert forall|j: int| 0 <= j < queue.len() implies {
            &&& (#[trigger] queue[j]).src.host == peer
            &&& queue[j].message is Datagram
        } by {
            if j < self.queue(peer).len() {
                self.lemma_queue(peer, j);
            }
        }
        self.lemma_put_queue(peer, queue);
        self.udp_inbox.lemma_total_put(peer, queue);
    }

    /// Receiving a datagram of `peer` keeps the state well formed.
    pub proof fn lemma_take(self, peer: SocketAddr)
        requires
            self.wf(),
            self.queue(peer).len() > 0,
        ensures
            self.set_queue(peer, self.queue(peer).drop_first()).wf(),
            self.queue(peer).first().src.host == peer,
    {
        let queue = self.queue(peer).drop_first();
        self.lemma_queue(peer, 0);
        assert forall|j: int| 0 <= j < queue.len() implies {
            &&& (#[trigger] queue[j]).src.host == peer
            &&& queue[j].message is Datagram
        } by {
            self.lemma_queue(peer, j + 1);
        }
        self.lemma_set_queue(peer, queue);
    }
}

impl<M> View for Host<M> {
    type V = HostView<M>;

    closed spec fn view(&self) -> HostView<M> {
        HostView {
            addr: self.addr,
            udp_inbox: self.udp_inbox@.views(),
            udp_notify: self.udp_notify@,
            tcp: self.tcp@,
            next_ephemeral_port: self.next_ephemeral_port,
            now: self.now,
            epoch: self.epoch,
            version: self.version,
        }
    }
}

impl<M> Host<M> {
    /// The tables are well formed and so is what they hold.
    pub closed spec fn wf(self) -> bool {
        &&& self.udp_inbox.wf()
        &&& self.tcp.wf()
        &&& self@.wf()
    }

    /// What holds of the state of a well-formed host.
    pub proof fn lemma_wf(self)
        requires
            self.wf(),
        ensures
            self@.wf(),
    {
    }

    /// Creates a host that starts at `now`.
    pub fn new(addr: SocketAddr, now: Instant, udp_notify: Signal) -> (host: Self)
        ensures
            host.wf(),
            host@ == HostView::<M>::new(addr, now, udp_notify@),
    {
        let host = Host {
            addr,
            udp_inbox: Table::new(),
            udp_notify,
            tcp: Tcp::new(),
            next_ephemeral_port: FIRST_EPHEMERAL_PORT,
            now,
            epoch: now,
            version: 0,
        };
        assert(host@.udp_inbox.entries =~= Seq::empty());
        host
    }

    /// Returns the address of the host.
    pub fn addr(&self) -> (addr: SocketAddr)
        ensures
            addr == self@.addr,
    {
        self.addr
    }

    /// Returns how long the host has been executing for in virtual time, in
    /// nanoseconds.
    pub fn elapsed(&self) -> (nanos: u128)
        ensures
            nanos == self@.now.spec_since(self@.epoch),
    {
        self.now.since(self.epoch)
    }

    /// Bump the version for this host and return a dot.
    ///
    /// Called when a host establishes a new connection with a remote peer.
    pub fn bump(&mut self) -> (dot: Dot)
        requires
            old(self)@.version < u64::MAX,
        ensures
            old(self).wf() ==> final(self).wf(),
            final(self)@ == old(self)@.bump(),
            dot == final(self)@.dot(),
    {
        self.bump_version();
        self.dot()
    }

    fn bump_version(&mut self)
        requires
            old(self)@.version < u64::MAX,
        ensures
            old(self).wf() ==> final(self).wf(),
            final(self)@ == old(self)@.bump(),
    {
        self.version = self.version + 1;
    }

    /// Returns a dot for the host at its current version
    pub fn dot(&self) -> (dot: Dot)
        ensures
            dot == self@.dot(),
    {
        Dot { host: self.addr, version: self.version }
    }

    /// Tells whether a port is left for a client connection.
    pub fn has_ephemeral_port(&self) -> (left: bool)
        ensures
            left == self@.has_ephemeral_port(),
    {
        self.next_ephemeral_port != EPHEMERAL_PORT_LIMIT && !(self.next_ephemeral_port
            == EPHEMERAL_PORT_LIMIT - 1 && self.addr.port() == EPHEMERAL_PORT_LIMIT - 1)
    }

    /// Returns the port that the next client connection gets.
    pub fn next_ephemeral_port(&self) -> (port: u16)
        requires
            self@.has_ephemeral_port(),
        ensures
            port == self@.ephemeral_port(),
    {
        if self.next_ephemeral_port == self.addr.port() {
            self.next_ephemeral_port + 1
        } else {
            self.next_ephemeral_port
        }
    }

    /// Returns a port for a client connection, which no other gets: ports are
    /// not recycled.
    pub fn assign_ephemeral_port(&mut self) -> (port: u16)
        requires
            old(self)@.has_ephemeral_port(),
        ensures
            old(self).wf() ==> final(self).wf(),
            final(self)@ == old(self)@.assign_port(),
            port == old(self)@.ephemeral_port(),
    {
        let port: u16 = self.next_ephemeral_port();
        self.next_ephemeral_port = port + 1;
        port
    }

    /// Sets the instant at the host.
    pub fn tick(&mut self, now: Instant)
        ensures
            old(self).wf() ==> final(self).wf(),
            final(self)@ == (HostView { now, ..old(self)@ }),
    {
        self.now = now;
    }

    /// Returns the stream sockets of the host.
    pub fn tcp(&self) -> (tcp: &Tcp)
        ensures
            tcp@ == self@.tcp,
            self.wf() ==> tcp.wf(),
    {
        &self.tcp
    }

    /// Returns the stream sockets of the host for writing.
    pub fn tcp_mut(&mut self) -> (tcp: &mut Tcp)
        ensures
            (*tcp)@ == old(self)@.tcp,
            old(self).wf() ==> tcp.wf(),
            final(self)@ == (HostView { tcp: (*final(tcp))@, ..old(self)@ }),
            old(self).wf() && final(tcp).wf() ==> final(self).wf(),
    {
        proof {
            assert forall|tcp: Tcp| #[trigger] tcp.wf() implies tcp@.wf() by {
                tcp.lemma_wf();
            }
        }
        &mut self.tcp
    }

    /// Delivers an envelope to the appropriate inbox and wakes up the receiver.
    pub fn receive_from_network(&mut self, envelope: Envelope<M>)
        requires
            old(self).wf(),
            old(self)@.accepts(envelope),
        ensures
            final(self).wf(),
            final(self)@ == old(self)@.deliver(envelope),
            old(self)@.same_sockets(final(self)@),
    {
        let ghost inbox = self.udp_inbox@;
        proof {
            self.tcp.lemma_wf();
            if envelope.message is Segment {
                self@.tcp.lemma_deliver(envelope.src.host, envelope.message->Segment_0);
            }
        }
        let Envelope { src, message } = envelope;
        let notify = match message {
            Message::Segment(segment) => self.tcp.receive_from_network(src.host, segment),
            Message::Datagram(value) => {
                let queue = self.udp_inbox.get_or_insert(src.host, VecDeque::new());
                queue.push_back(Envelope { src, message: Message::Datagram(value) });
                proof {
                    let queue = *queue;
                    old(self).udp_inbox.lemma_wf();
                    inbox.lemma_views(src.host);
                    inbox.lemma_views_put(src.host, queue);
                    old(self)@.lemma_deliver(envelope);
                }
                &mut self.udp_notify
            },
        };
        notify.add_permits(1);
        proof {
            self.tcp.lemma_wf();
        }
    }

    /// Tells whether a datagram waits.
    pub fn has_mail(&self) -> (waits: bool)
        requires
            self.wf(),
        ensures
            waits == self@.has_mail(),
    {
        let mut i: usize = 0;
        while i < self.udp_inbox.len()
            invariant
                self.wf(),
                i <= self@.udp_inbox.len(),
                forall|j: int| 0 <= j < i ==> (#[trigger] self@.udp_inbox.value_at(j)).len() == 0,
            decreases self@.udp_inbox.len() - i,
        {
            if self.udp_inbox.value_at(i).len() > 0 {
                assert(self@.udp_inbox.value_at(i as int).len() > 0);
                return true;
            }
            i = i + 1;
        }
        false
    }

    /// Tells whether a datagram from `peer` waits.
    pub fn has_mail_from(&self, peer: SocketAddr) -> (waits: bool)
        requires
            self.wf(),
        ensures
            waits == (self@.queue(peer).len() > 0),
    {
        proof {
            self.udp_inbox.lemma_wf();
            self.udp_inbox@.lemma_views(peer);
        }
        match self.udp_inbox.get(&peer) {
            Some(queue) => queue.len() > 0,
            None => false,
        }
    }

    /// Receives a datagram: the oldest one of the first peer of which one
    /// waits. Peers stand in the order in which their first datagram arrived
    /// or was asked for, so datagrams of different peers are not received in
    /// the order of their delivery.
    ///
    /// Returns the handle by which the host waits for datagrams along with it.
    pub fn recv(&mut self) -> (result: (Option<Envelope<M>>, Rc<Semaphore>))
        requires
            old(self).wf(),
            old(self)@.has_mail() ==> old(self)@.version < u64::MAX,
        ensures
            final(self).wf(),
            result.1 == old(self)@.udp_notify.semaphore,
            old(self)@.receives(result.0, final(self)@),
    {
        let notify = self.udp_notify.handle();
        let len: usize = self.udp_inbox.len();
        let mut i: usize = 0;
        while i < len
            invariant
                self.wf(),
                self@ == old(self)@,
                len == self@.udp_inbox.len(),
                old(self)@.has_mail() ==> old(self)@.version < u64::MAX,
                notify == old(self)@.udp_notify.semaphore,
                forall|j: int| 0 <= j < i ==> (#[trigger] self@.udp_inbox.value_at(j)).len() == 0,
            decreases len - i,
        {
            let ghost inbox = self.udp_inbox@;
            let deque = self.udp_inbox.value_at_mut(i);
            let popped = deque.pop_front();
            let ghost deque = *deque;
            proof {
                old(self)@.lemma_queue_at(i as int);
                inbox.lemma_views_put_at(i as int, deque);
            }
            match popped {
                Some(envelope) => {
                    proof {
                        assert(old(self)@.is_first_ready(i as int));
                        assert(old(self)@.udp_inbox.value_at(i as int).len() > 0);
                        old(self)@.udp_inbox.lemma_put_at(i as int, deque@);
                        old(self)@.lemma_take(old(self)@.udp_inbox.key_at(i as int));
                    }
                    self.bump_version();
                    return (Some(envelope), notify);
                },
                None => {
                    proof {
                        old(self)@.udp_inbox.lemma_put_at_same(i as int);
                    }
                },
            }
            i = i + 1;
        }
        (None, notify)
    }

    /// Receives the oldest datagram from `peer`, if one waits.
    ///
    /// Returns the handle by which the host waits for datagrams along with it.
    pub fn recv_from(&mut self, peer: SocketAddr) -> (result: (Option<Envelope<M>>, Rc<Semaphore>))
        requires
            old(self).wf(),
            old(self)@.queue(peer).len() > 0 ==> old(self)@.version < u64::MAX,
        ensures
            final(self).wf(),
            result.1 == old(self)@.udp_notify.semaphore,
            old(self)@.receives_from(peer, result.0, final(self)@),
    {
        let notify = self.udp_notify.handle();
        let ghost inbox = self.udp_inbox@;
        let deque = self.udp_inbox.get_or_insert(peer, VecDeque::new());
        let popped = deque.pop_front();
        let ghost deque = *deque;
        proof {
            old(self).udp_inbox.lemma_wf();
            inbox.lemma_views(peer);
            inbox.lemma_views_put(peer, deque);
            if old(self)@.queue(peer).len() > 0 {
                old(self)@.lemma_take(peer);
            } else {
                old(self)@.lemma_set_queue(peer, deque@);
            }
        }
        match popped {
            Some(envelope) => {
                self.bump_version();
                (Some(envelope), notify)
            },
            None => {
                proof {
                    assert(deque@ =~= Seq::empty());
                }
                (None, notify)
            },
        }
    }

    /// Returns what is to be logged of a message that was just received.
    pub fn record(&self, envelope: &Option<Envelope<M>>) -> (record: Option<RecvRecord>)
        ensures
            self@.logs(*envelope, record),
    {
        match envelope {
            Some(envelope) => Some(
                RecvRecord { dot: self.dot(), elapsed: self.elapsed(), src: envelope.src },
            ),
            None => None,
        }
    }
}

} // verus!
