//! The hosts of the simulated world.
use std::rc::Rc;
use tokio::sync::Semaphore;
use vstd::prelude::*;

use crate::addr::{IpAddr, SocketAddr};
use crate::envelope::{Envelope, Message, Outgoing, RecvRecord};
use crate::handshake::AckReceiver;
use crate::host::{Host, HostView};
use crate::net::{Segment, SocketPair, Syn, TcpStream};
use crate::ordered_map::OrderedMap;
use crate::signal::{Signal, Signals};
use crate::table::Table;
use crate::tcp::{AddrInUse, InboxView, Socket};
use crate::time::Instant;

verus! {

/// Tracks the state of all hosts.
pub struct World<M> {
    /// Tracks all individual hosts
    hosts: Table<SocketAddr, Host<M>>,
    /// If set, this is the current host being executed.
    current: Option<SocketAddr>,
    /// The semaphores by which the hosts and their sockets wait.
    signals: Signals,
}

/// The state of all hosts, in the order of their registration, the one that is
/// being executed, and the semaphores that were made.
#[verifier::ext_equal]
pub struct WorldView<M> {
    pub hosts: OrderedMap<SocketAddr, HostView<M>>,
    pub current: Option<SocketAddr>,
    pub made: Seq<Rc<Semaphore>>,
}

impl<M> WorldView<M> {
    /// The world without hosts.
    pub open spec fn empty() -> WorldView<M> {
        WorldView { hosts: OrderedMap::empty(), current: None, made: Seq::empty() }
    }

    /// Every host is well formed and stands under its own address, and no two
    /// stream sockets of the world share a semaphore.
    pub open spec fn wf(self) -> bool {
        &&& self.hosts.distinct()
        &&& forall|addr: SocketAddr| #[trigger]
            self.hosts.has(addr) ==> {
                &&& self.hosts[addr].wf()
                &&& self.hosts[addr].addr == addr
                &&& self.hosts[addr].made_by(self.made)
            }
        &&& self.unshared()
    }

    /// No two stream sockets of the world share a semaphore.
    pub open spec fn unshared(self) -> bool {
        forall|a: SocketAddr, s: Socket, b: SocketAddr, t: Socket| #[trigger]
            self.has_socket(a, s) && #[trigger] self.has_socket(b, t) && (a != b || s != t)
                ==> self.hosts[a].tcp.semaphore(s) != self.hosts[b].tcp.semaphore(t)
    }

    /// There is a host at `addr`, and it has the stream socket.
    pub open spec fn has_socket(self, addr: SocketAddr, socket: Socket) -> bool {
        self.hosts.has(addr) && self.hosts[addr].tcp.has(socket)
    }

    /// A host is being executed.
    pub open spec fn has_current(self) -> bool {
        self.current is Some && self.hosts.has(self.current->0)
    }

    /// The host that is being executed.
    pub open spec fn here(self) -> HostView<M> {
        self.hosts[self.current->0]
    }

    /// The socket that the next connection of the host that is being executed
    /// gets.
    pub open spec fn local_socket(self) -> SocketAddr {
        SocketAddr::spec_new(self.here().addr.spec_ip(), self.here().ephemeral_port() as u16)
    }

    /// The host that is being executed can ask for a connection with `dst`: it
    /// has a port and a version left, and its socket is not `dst` itself and not
    /// connected with `dst` already.
    pub open spec fn can_connect(self, dst: SocketAddr) -> bool {
        &&& self.has_current()
        &&& self.here().has_ephemeral_port()
        &&& self.here().version < u64::MAX
        &&& self.local_socket() != dst
        &&& !self.here().tcp.connections.has(SocketPair(self.local_socket(), dst))
    }

    /// The world after the host that is being executed asked for a connection
    /// with `dst`, which waits for segments by the new `semaphore`.
    pub open spec fn connect(self, dst: SocketAddr, semaphore: Rc<Semaphore>) -> WorldView<M> {
        let pair = SocketPair(self.local_socket(), dst);
        let host = self.here().assign_port();
        let inbox = InboxView::fresh(semaphore);
        self.set_here(HostView { tcp: host.tcp.connect(pair, inbox), ..host }.bump()).keep(
            semaphore,
        )
    }

    /// The world after a server socket at `port` of the host that is being
    /// executed was opened, which waits for requests by the new `semaphore`.
    pub open spec fn bind(self, port: u16, semaphore: Rc<Semaphore>) -> WorldView<M> {
        let host = self.here();
        let inbox = InboxView::fresh(semaphore);
        self.set_here(HostView { tcp: host.tcp.bind(port, inbox), ..host }).keep(semaphore)
    }

    /// The host that is being executed listens at the port of `addr`, and there
    /// is a version left for a connection that waits there.
    pub open spec fn listens(self, addr: SocketAddr) -> bool {
        &&& self.has_current()
        &&& self.here().tcp.binds.has(addr.spec_port())
        &&& self.here().tcp.binds[addr.spec_port()].items.len() > 0 ==> self.here().version
            < u64::MAX
    }

    /// The host that is being executed can accept a connection at `addr`: it
    /// listens there, and a connection that waits is not set up yet.
    pub open spec fn can_accept(self, addr: SocketAddr) -> bool {
        self.listens(addr) && self.here().tcp.can_accept(addr)
    }

    /// Accepting a connection at `addr` on the host that is being executed
    /// gives `result` and leaves the world `post`: a connection that is set up
    /// waits by a new semaphore and takes the host to its next version.
    pub open spec fn accepted(
        self,
        addr: SocketAddr,
        result: Option<(TcpStream, SocketAddr)>,
        post: WorldView<M>,
    ) -> bool {
        let host = HostView { tcp: post.here().tcp, ..self.here() };
        &&& self.here().tcp.accepted(addr, result, post.here().tcp)
        &&& match result {
            Some((stream, _)) => {
                &&& !self.made.contains(stream@.notify)
                &&& post == self.set_here(host.bump()).keep(stream@.notify)
            },
            None => post == self.set_here(host),
        }
    }

    /// Accepting a connection at `addr`, which may be there already, on the host
    /// that is being executed gives `result` and leaves the world `post`: a
    /// connection that is refused is taken out and changes nothing else.
    pub open spec fn tried(
        self,
        addr: SocketAddr,
        result: Result<Option<(TcpStream, SocketAddr)>, SocketPair>,
        post: WorldView<M>,
    ) -> bool {
        &&& self.here().tcp.tried(addr, result, post.here().tcp)
        &&& match result {
            Ok(accepted) => self.accepted(addr, accepted, post),
            Err(_) => post == self.set_here(HostView { tcp: post.here().tcp, ..self.here() }),
        }
    }

    /// The links between a new host at `addr` and those that are there.
    pub open spec fn links(self, addr: SocketAddr) -> Seq<(IpAddr, IpAddr)> {
        Seq::new(
            self.hosts.len(),
            |i: int| (self.hosts.key_at(i).spec_ip(), addr.spec_ip()),
        )
    }

    /// The world with the state of one host set.
    pub open spec fn set_host(self, addr: SocketAddr, host: HostView<M>) -> WorldView<M> {
        WorldView { hosts: self.hosts.put(addr, host), ..self }
    }

    /// The world with the state of the host that is being executed set.
    pub open spec fn set_here(self, host: HostView<M>) -> WorldView<M> {
        self.set_host(self.current->0, host)
    }

    /// The world in which one more semaphore was made.
    pub open spec fn keep(self, semaphore: Rc<Semaphore>) -> WorldView<M> {
        WorldView { made: self.made.push(semaphore), ..self }
    }
}

impl<M> WorldView<M> {
    /// Setting the state of a host to a well-formed one with the same sockets
    /// keeps the world well formed.
    pub proof fn lemma_set_host(self, addr: SocketAddr, host: HostView<M>)
        requires
            self.wf(),
            self.hosts.has(addr),
            host.wf(),
            host.addr == addr,
            self.hosts[addr].same_sockets(host),
        ensures
            self.set_host(addr, host).wf(),
    {
        let post = self.set_host(addr, host);
        self.hosts.lemma_put(addr, host);
        self.hosts[addr].tcp.lemma_same_made(host.tcp, self.made);
        assert forall|a: SocketAddr, s: Socket, b: SocketAddr, t: Socket| #[trigger]
            post.has_socket(a, s) && #[trigger] post.has_socket(b, t) && (a != b || s
                != t) implies post.hosts[a].tcp.semaphore(s) != post.hosts[b].tcp.semaphore(t) by {
            assert(host.tcp.has(s) == self.hosts[addr].tcp.has(s));
            assert(host.tcp.has(t) == self.hosts[addr].tcp.has(t));
            assert(self.has_socket(a, s) && self.has_socket(b, t));
        }
    }

    /// A new stream socket of a host, whose semaphore is none of those that
    /// were made, keeps the world well formed.
    pub proof fn lemma_open(
        self,
        addr: SocketAddr,
        host: HostView<M>,
        socket: Socket,
        semaphore: Rc<Semaphore>,
    )
        requires
            self.wf(),
            self.hosts.has(addr),
            host.wf(),
            host.addr == addr,
            host.udp_notify.semaphore == self.hosts[addr].udp_notify.semaphore,
            self.hosts[addr].tcp.opens(socket, semaphore, host.tcp),
            !self.made.contains(semaphore),
        ensures
            self.set_host(addr, host).keep(semaphore).wf(),
    {
        let pre = self.hosts[addr].tcp;
        let post = self.set_host(addr, host).keep(semaphore);
        self.hosts.lemma_put(addr, host);
        self.lemma_keep(semaphore);
        assert forall|s: Socket| #[trigger] host.tcp.has(s) implies post.made.contains(
            host.tcp.semaphore(s),
        ) by {
            Signals::lemma_made(self.made, semaphore, host.tcp.semaphore(s));
            assert(s == socket || pre.has(s));
        }
        assert forall|a: SocketAddr, s: Socket, b: SocketAddr, t: Socket| #[trigger]
            post.has_socket(a, s) && #[trigger] post.has_socket(b, t) && (a != b || s
                != t) implies post.hosts[a].tcp.semaphore(s) != post.hosts[b].tcp.semaphore(t) by {
            assert(host.tcp.has(s) == (s == socket || pre.has(s)));
            assert(host.tcp.has(t) == (t == socket || pre.has(t)));
            let new_s = a == addr && s == socket;
            let new_t = b == addr && t == socket;
            assert(new_s || self.has_socket(a, s));
            assert(new_t || self.has_socket(b, t));
            assert(new_s || self.made.contains(post.hosts[a].tcp.semaphore(s)));
            assert(new_t || self.made.contains(post.hosts[b].tcp.semaphore(t)));
        }
    }

    /// The semaphores of every host stay among those that were made when one
    /// more is made.
    proof fn lemma_keep(self, semaphore: Rc<Semaphore>)
        requires
            self.wf(),
        ensures
            forall|addr: SocketAddr| #[trigger]
                self.hosts.has(addr) ==> self.hosts[addr].made_by(self.made.push(semaphore)),
    {
        let more = self.made.push(semaphore);
        assert forall|addr: SocketAddr| #[trigger]
            self.hosts.has(addr) implies self.hosts[addr].made_by(more) by {
            let host = self.hosts[addr];
            Signals::lemma_made(self.made, semaphore, host.udp_notify.semaphore);
            assert forall|s: Socket| #[trigger] host.tcp.has(s) implies more.contains(
                host.tcp.semaphore(s),
            ) by {
                Signals::lemma_made(self.made, semaphore, host.tcp.semaphore(s));
            }
        }
    }

    /// Adding a host without sockets keeps the world well formed.
    pub proof fn lemma_register(self, addr: SocketAddr, host: HostView<M>)
        requires
            self.wf(),
            !self.hosts.has(addr),
            host.wf(),
            host.addr == addr,
            forall|socket: Socket| !(#[trigger] host.tcp.has(socket)),
        ensures
            self.set_host(addr, host).keep(host.udp_notify.semaphore).wf(),
    {
        let semaphore = host.udp_notify.semaphore;
        let post = self.set_host(addr, host).keep(semaphore);
        self.hosts.lemma_put(addr, host);
        self.lemma_keep(semaphore);
        Signals::lemma_made(self.made, semaphore, semaphore);
        assert forall|a: SocketAddr, s: Socket, b: SocketAddr, t: Socket| #[trigger]
            post.has_socket(a, s) && #[trigger] post.has_socket(b, t) && (a != b || s
                != t) implies post.hosts[a].tcp.semaphore(s) != post.hosts[b].tcp.semaphore(t) by {
            assert(!host.tcp.has(s) && !host.tcp.has(t));
            assert(self.has_socket(a, s) && self.has_socket(b, t));
        }
    }
}

impl<M> View for World<M> {
    type V = WorldView<M>;

    closed spec fn view(&self) -> WorldView<M> {
        WorldView { hosts: self.hosts@.views(), current: self.current, made: self.signals@ }
    }
}

impl<M> World<M> {
    /// The table of hosts is well formed and so are the hosts.
    pub closed spec fn wf(self) -> bool {
        &&& self.hosts.wf()
        &&& forall|i: int|
            0 <= i < self.hosts@.len() ==> (#[trigger] self.hosts@.entries[i]).1.wf()
        &&& self@.wf()
    }

    /// What holds of the state of a well-formed world.
    pub proof fn lemma_wf(self)
        requires
            self.wf(),
        ensures
            self@.wf(),
    {
    }

    /// Initialize a new world.
    pub fn new() -> (world: Self)
        ensures
            world.wf(),
            world@ == WorldView::<M>::empty(),
    {
        let world = World { hosts: Table::new(), current: None, signals: Signals::new() };
        assert(world@.hosts.entries =~= Seq::empty());
        world
    }

    /// Sets the host that is being executed.
    pub fn set_current(&mut self, current: Option<SocketAddr>)
        ensures
            old(self).wf() ==> final(self).wf(),
            final(self)@ == (WorldView { current, ..old(self)@ }),
    {
        self.current = current;
        assert(forall|addr: SocketAddr, socket: Socket| #[trigger]
            self@.has_socket(addr, socket) == old(self)@.has_socket(addr, socket));
    }

    /// Returns the address of the host that is being executed, if that is set
    /// to a host of the world.
    pub fn current(&self) -> (current: Option<SocketAddr>)
        requires
            self.wf(),
        ensures
            current == (if self@.has_current() {
                self@.current
            } else {
                None
            }),
    {
        match self.current {
            Some(addr) => if self.contains_host(addr) {
                Some(addr)
            } else {
                None
            },
            None => None,
        }
    }

    /// Tells whether a host is registered at `addr`.
    pub fn contains_host(&self, addr: SocketAddr) -> (found: bool)
        requires
            self.wf(),
        ensures
            found == self@.hosts.has(addr),
    {
        proof {
            self.hosts.lemma_wf();
            self.hosts@.lemma_views(addr);
        }
        self.hosts.contains_key(&addr)
    }

    /// Return a reference to the currently executing host.
    pub fn current_host(&self) -> (host: &Host<M>)
        requires
            self.wf(),
            self@.has_current(),
        ensures
            host@ == self@.here(),
            host@.addr == self@.current->0,
            host.wf(),
    {
        self.host(self.current.unwrap())
    }

    /// Return a reference to the host at `addr`.
    pub fn host(&self, addr: SocketAddr) -> (host: &Host<M>)
        requires
            self.wf(),
            self@.hosts.has(addr),
        ensures
            host@ == self@.hosts[addr],
            host@.addr == addr,
            host.wf(),
    {
        proof {
            self.hosts.lemma_wf();
            self.hosts@.lemma_views(addr);
            self.hosts@.lemma_at_position(addr);
        }
        self.hosts.index(&addr)
    }

    /// Return a mutable reference to the host at `addr`. The world stays well
    /// formed where the sockets of the host stay what they are.
    pub fn host_mut(&mut self, addr: SocketAddr) -> (host: &mut Host<M>)
        requires
            old(self).wf(),
            old(self)@.hosts.has(addr),
        ensures
            (*host)@ == old(self)@.hosts[addr],
            (*host)@.addr == addr,
            host.wf(),
            final(self)@ == old(self)@.set_host(addr, (*final(host))@),
            final(host).wf() && (*final(host))@.addr == addr && (*host)@.same_sockets(
                (*final(host))@,
            ) ==> final(self).wf(),
    {
        proof {
            assert forall|host: Host<M>|
                host.wf() && host@.addr == addr && self@.hosts[addr].same_sockets(host@) implies (
            #[trigger] self@.set_host(addr, host@)).wf() by {
                host.lemma_wf();
                self@.lemma_set_host(addr, host@);
            }
        }
        self.host_and_signals(addr).0
    }

    /// Return mutable references to the host at `addr` and to the semaphores.
    fn host_and_signals(&mut self, addr: SocketAddr) -> ((host, signals): (
        &mut Host<M>,
        &mut Signals,
    ))
        requires
            old(self).wf(),
            old(self)@.hosts.has(addr),
        ensures
            (*host)@ == old(self)@.hosts[addr],
            (*host)@.addr == addr,
            host.wf(),
            (*signals)@ == old(self)@.made,
            (*host)@.made_by((*signals)@),
            final(self)@ == (WorldView {
                made: (*final(signals))@,
                ..old(self)@.set_host(addr, (*final(host))@)
            }),
            final(host).wf() && final(self)@.wf() ==> final(self).wf(),
    {
        proof {
            self.hosts.lemma_wf();
            self.hosts@.lemma_views(addr);
            self.hosts@.lemma_at_position(addr);
            self.hosts@.lemma_views_put_any(addr);
        }
        (self.hosts.index_mut(&addr), &mut self.signals)
    }

    /// Register a new host with the simulation. Returns the links to register
    /// between the new host and all existing hosts.
    pub fn register(&mut self, addr: SocketAddr, epoch: Instant, notify: Signal) -> (links: Vec<
        (IpAddr, IpAddr),
    >)
        requires
            old(self).wf(),
            !old(self)@.hosts.has(addr),
        ensures
            final(self).wf(),
            final(self)@ == old(self)@.set_host(addr, HostView::new(addr, epoch, notify@)).keep(
                notify@.semaphore,
            ),
            final(self)@.hosts.has(addr),
            final(self)@.hosts[addr] == HostView::<M>::new(addr, epoch, notify@),
            links@ == old(self)@.links(addr),
    {
        let mut links: Vec<(IpAddr, IpAddr)> = Vec::new();
        let mut i: usize = 0;
        while i < self.hosts.len()
            invariant
                *self == *old(self),
                self.wf(),
                i <= self.hosts@.len(),
                links@ =~= self@.links(addr).take(i as int),
            decreases self.hosts@.len() - i,
        {
            let existing = self.hosts.key_at(i);
            links.push((existing.ip(), addr.ip()));
            i = i + 1;
        }
        self.signals.record(&notify);
        let host = Host::new(addr, epoch, notify);
        proof {
            let hosts = self.hosts@;
            self.hosts.lemma_wf();
            hosts.lemma_views(addr);
            hosts.lemma_views_put(addr, host);
            self@.hosts.lemma_put(addr, host@);
            host.lemma_wf();
            old(self)@.lemma_register(addr, host@);
        }
        let _ = self.hosts.insert(addr, host);
        links
    }

    /// Tells whether the currently executing host can ask for a connection with
    /// `dst`.
    pub fn can_connect(&self, dst: SocketAddr) -> (possible: bool)
        requires
            self.wf(),
        ensures
            possible == self@.can_connect(dst),
    {
        if self.current().is_none() {
            return false;
        }
        let host = self.current_host();
        if !host.has_ephemeral_port() || host.dot().version == u64::MAX {
            return false;
        }
        let local = SocketAddr::new(host.addr().ip(), host.next_ephemeral_port());
        local != dst && !host.tcp().is_connected(SocketPair(local, dst))
    }

    /// Initiate a new connection with `dst` from the currently executing host,
    /// and take the host to its next version. Returns the half on which the
    /// acknowledgement arrives, the connection, and the request for the network
    /// to carry.
    pub fn connect(&mut self, dst: SocketAddr) -> (result: (AckReceiver, SocketPair, Outgoing<M>))
        requires
            old(self).wf(),
            old(self)@.can_connect(dst),
        ensures
            final(self).wf(),
            ({
                let (receiver, pair, outgoing) = result;
                let semaphore = final(self)@.here().tcp.connections[pair].notify.semaphore;
                &&& pair == SocketPair(old(self)@.local_socket(), dst)
                &&& final(self)@.here().tcp.connections.has(pair)
                &&& !old(self)@.made.contains(semaphore)
                &&& final(self)@ == old(self)@.connect(dst, semaphore)
                &&& final(self)@.here().version == old(self)@.here().version + 1
                &&& outgoing.src == old(self)@.local_socket()
                &&& outgoing.dst == dst
                &&& outgoing.message matches Message::Segment(Segment::Syn(syn))
                &&& syn.dst == dst
                &&& syn.notify.channel() == receiver.channel()
            }),
    {
        let (sender, receiver) = crate::handshake::ack_channel();
        let syn = Syn { dst, notify: sender };
        let current_addr = self.current_host().addr();
        let (host, signals) = self.host_and_signals(current_addr);
        let local = SocketAddr::new(current_addr.ip(), host.assign_ephemeral_port());
        let pair = SocketPair::new(local, dst);
        host.tcp_mut().new_stream(pair, signals);
        let _ = host.bump();
        let ghost connected = *host;
        proof {
            let semaphore = connected@.tcp.connections[pair].notify.semaphore;
            connected.lemma_wf();
            old(self)@.hosts.lemma_put(current_addr, connected@);
            old(self)@.lemma_open(current_addr, connected@, Socket::Stream(pair), semaphore);
        }
        let outgoing = Outgoing { src: local, dst, message: Message::Segment(Segment::Syn(syn)) };
        (receiver, pair, outgoing)
    }

    /// Bind a server socket to the port of `addr` on the currently executing
    /// host. Returns the handle by which it waits for requests.
    pub fn bind(&mut self, addr: SocketAddr) -> (result: Result<Rc<Semaphore>, AddrInUse>)
        requires
            old(self).wf(),
            old(self)@.has_current(),
        ensures
            final(self).wf(),
            match result {
                Ok(semaphore) => {
                    &&& !old(self)@.here().tcp.binds.has(addr.spec_port())
                    &&& !old(self)@.made.contains(semaphore)
                    &&& final(self)@ == old(self)@.bind(addr.spec_port(), semaphore)
                },
                Err(error) => {
                    &&& old(self)@.here().tcp.binds.has(addr.spec_port())
                    &&& error.addr == addr
                    &&& final(self)@ == old(self)@
                },
            },
    {
        let current_addr = self.current_host().addr();
        let (host, signals) = self.host_and_signals(current_addr);
        let result = host.tcp_mut().bind(addr, signals);
        let ghost bound = *host;
        proof {
            let socket = Socket::Server(addr.spec_port());
            bound.lemma_wf();
            old(self)@.hosts.lemma_put_same(current_addr);
            if result is Ok {
                old(self)@.lemma_open(current_addr, bound@, socket, result->Ok_0);
            }
        }
        result
    }

    /// Tells whether the currently executing host listens at the port of `addr`
    /// and has a version left for a connection that waits there.
    pub fn listens(&self, addr: SocketAddr) -> (listening: bool)
        requires
            self.wf(),
        ensures
            listening == self@.listens(addr),
    {
        if self.current().is_none() {
            return false;
        }
        let host = self.current_host();
        host.tcp().is_bound(addr.port()) && (host.dot().version != u64::MAX
            || !host.tcp().has_pending(addr.port()))
    }

    /// Tells whether the currently executing host can accept a connection at
    /// `addr`.
    pub fn can_accept(&self, addr: SocketAddr) -> (possible: bool)
        requires
            self.wf(),
        ensures
            possible == self@.can_accept(addr),
    {
        self.listens(addr) && self.current_host().tcp().can_accept(addr)
    }

    /// Accept an incoming connection on the currently executing host, if one
    /// waits whose peer is still there, and take the host to its next version
    /// then.
    pub fn accept(&mut self, addr: SocketAddr) -> (result: Option<(TcpStream, SocketAddr)>)
        requires
            old(self).wf(),
            old(self)@.can_accept(addr),
        ensures
            final(self).wf(),
            old(self)@.accepted(addr, result, final(self)@),
    {
        match self.try_accept(addr) {
            Ok(accepted) => accepted,
            // The connection is not there, so it is not refused.
            Err(_) => None,
        }
    }

    /// Accept an incoming connection on the currently executing host, as
    /// `accept` does, and refuse it where the peer was told and the connection
    /// is there already. Returns the connection then.
    pub fn try_accept(&mut self, addr: SocketAddr) -> (result: Result<
        Option<(TcpStream, SocketAddr)>,
        SocketPair,
    >)
        requires
            old(self).wf(),
            old(self)@.listens(addr),
        ensures
            final(self).wf(),
            old(self)@.tried(addr, result, final(self)@),
    {
        let current_addr = self.current_host().addr();
        let (host, signals) = self.host_and_signals(current_addr);
        let result = host.tcp_mut().try_accept(addr, signals);
        if let Ok(Some(_)) = &result {
            let _ = host.bump();
        }
        let ghost tried = *host;
        proof {
            tried.lemma_wf();
            old(self)@.hosts.lemma_put(current_addr, tried@);
            if result is Ok && result->Ok_0 is Some {
                let stream = (result->Ok_0->0).0@;
                let socket = Socket::Stream(stream.pair);
                old(self)@.lemma_open(current_addr, tried@, socket, stream.notify);
            } else {
                old(self)@.lemma_set_host(current_addr, tried@);
            }
        }
        result
    }

    /// Send `message` to `dst` from the current host, which takes the host to
    /// its next version. Delivery is asynchronous and not guaranteed. Returns
    /// the message for the network to carry.
    pub fn send_message(&mut self, dst: SocketAddr, message: Message<M>) -> (outgoing: Outgoing<M>)
        requires
            old(self).wf(),
            old(self)@.has_current(),
            old(self)@.here().version < u64::MAX,
        ensures
            final(self).wf(),
            final(self)@ == old(self)@.set_here(old(self)@.here().bump()),
            final(self)@.here() == old(self)@.here().bump(),
            outgoing == (Outgoing { src: old(self)@.here().addr, dst, message }),
    {
        let src = self.current_host().addr();
        let host = self.host_mut(src);
        let _ = host.bump();
        let ghost bumped = *host;
        proof {
            old(self)@.hosts.lemma_put(src, bumped@);
        }
        Outgoing { src, dst, message }
    }

    /// Receive a message on the currently executing host. Returns what is to
    /// be logged of it, too.
    pub fn recv(&mut self) -> (result: (Option<Envelope<M>>, Rc<Semaphore>, Option<RecvRecord>))
        requires
            old(self).wf(),
            old(self)@.has_current(),
            old(self)@.here().has_mail() ==> old(self)@.here().version < u64::MAX,
        ensures
            final(self).wf(),
            final(self)@ == old(self)@.set_here(final(self)@.here()),
            old(self)@.here().receives(result.0, final(self)@.here()),
            result.1 == old(self)@.here().udp_notify.semaphore,
            final(self)@.here().logs(result.0, result.2),
    {
        let addr = self.current_host().addr();
        let host = self.host_mut(addr);
        let (envelope, notify) = host.recv();
        let record = host.record(&envelope);
        let ghost received = *host;
        proof {
            old(self)@.hosts.lemma_put(addr, received@);
        }
        (envelope, notify, record)
    }

    /// Receive a message on the currently executing host from a `peer`. Returns
    /// what is to be logged of it, too.
    pub fn recv_from(&mut self, peer: SocketAddr) -> (result: (
        Option<Envelope<M>>,
        Rc<Semaphore>,
        Option<RecvRecord>,
    ))
        requires
            old(self).wf(),
            old(self)@.has_current(),
            old(self)@.here().queue(peer).len() > 0 ==> old(self)@.here().version < u64::MAX,
        ensures
            final(self).wf(),
            final(self)@ == old(self)@.set_here(final(self)@.here()),
            old(self)@.here().receives_from(peer, result.0, final(self)@.here()),
            result.1 == old(self)@.here().udp_notify.semaphore,
            final(self)@.here().logs(result.0, result.2),
    {
        let addr = self.current_host().addr();
        let host = self.host_mut(addr);
        let (envelope, notify) = host.recv_from(peer);
        let record = host.record(&envelope);
        let ghost received = *host;
        proof {
            old(self)@.hosts.lemma_put(addr, received@);
        }
        (envelope, notify, record)
    }

    /// Tick the host at `addr` to `now`.
    pub fn tick(&mut self, addr: SocketAddr, now: Instant)
        requires
            old(self).wf(),
            old(self)@.hosts.has(addr),
        ensures
            final(self).wf(),
            final(self)@ == old(self)@.set_host(
                addr,
                HostView { now, ..old(self)@.hosts[addr] },
            ),
    {
        self.host_mut(addr).tick(now);
    }
}

} // verus!
