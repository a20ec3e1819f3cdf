//! Host software that implements the simulated Transmission Control Protocol
//! (TCP).
use std::collections::VecDeque;
use std::rc::Rc;
use tokio::sync::Semaphore;
use vstd::prelude::*;

use crate::addr::SocketAddr;
use crate::handshake::Ack;
use crate::net::{Segment, SocketPair, Syn, TcpStream, TcpStreamView};
use crate::ordered_map::OrderedMap;
use crate::signal::{Signal, SignalView, Signals};
use crate::table::Table;

verus! {

/// A simple unbounded channel.
pub struct Inbox<T> {
    /// Queued items
    deque: VecDeque<T>,
    /// Signaled when an item is available to recv.
    notify: Signal,
}

/// The items in an inbox, the oldest first, and its wake-ups.
#[verifier::ext_equal]
pub struct InboxView<T> {
    pub items: Seq<T>,
    pub notify: SignalView,
}

impl<T> InboxView<T> {
    /// The inbox that holds nothing and never did, whose receiver waits by
    /// `semaphore`.
    pub open spec fn fresh(semaphore: Rc<Semaphore>) -> InboxView<T> {
        InboxView { items: Seq::empty(), notify: SignalView { semaphore, granted: 0 } }
    }

    /// The inbox after an item was added behind the others, with a permit for
    /// it.
    pub open spec fn deliver(self, item: T) -> InboxView<T> {
        InboxView { items: self.items.push(item), notify: self.notify.grant(1) }
    }

    /// The inbox after its oldest item was taken out.
    pub open spec fn pop(self) -> InboxView<T> {
        InboxView { items: self.items.drop_first(), ..self }
    }

    /// There was a permit for each item that waits.
    pub open spec fn signaled(self) -> bool {
        self.items.len() <= self.notify.granted
    }

    /// The number of permits beyond those for the items that wait.
    pub open spec fn spare(self) -> int {
        self.notify.granted - self.items.len()
    }
}

impl<T> View for Inbox<T> {
    type V = InboxView<T>;

    closed spec fn view(&self) -> InboxView<T> {
        InboxView { items: self.deque@, notify: self.notify@ }
    }
}

impl<T> Inbox<T> {
    /// Creates an inbox that holds nothing, with a semaphore of its own.
    pub fn new(signals: &mut Signals) -> (inbox: Self)
        ensures
            inbox@ == InboxView::<T>::fresh(inbox@.notify.semaphore),
            !old(signals)@.contains(inbox@.notify.semaphore),
            final(signals)@ == old(signals)@.push(inbox@.notify.semaphore),
    {
        let inbox = Inbox { deque: VecDeque::new(), notify: signals.make() };
        assert(inbox@.items =~= Seq::empty());
        inbox
    }

    /// Adds an item behind the others and returns the wake-ups, for the caller
    /// to signal.
    pub fn push(&mut self, item: T) -> (notify: &mut Signal)
        ensures
            (*notify)@ == old(self)@.notify,
            final(self)@ == (InboxView {
                items: old(self)@.items.push(item),
                notify: (*final(notify))@,
            }),
    {
        self.deque.push_back(item);
        &mut self.notify
    }

    /// Takes the oldest item out.
    pub fn pop(&mut self) -> (item: Option<T>)
        ensures
            match item {
                Some(item) => {
                    &&& old(self)@.items.len() > 0
                    &&& item == old(self)@.items.first()
                    &&& final(self)@ == old(self)@.pop()
                },
                None => old(self)@.items.len() == 0 && final(self)@ == old(self)@,
            },
    {
        self.deque.pop_front()
    }

    /// Returns the oldest item.
    pub fn front(&self) -> (item: Option<&T>)
        ensures
            item == (if self@.items.len() > 0 {
                Some(&self@.items.first())
            } else {
                None
            }),
    {
        if self.deque.len() > 0 {
            Some(&self.deque[0])
        } else {
            None
        }
    }

    /// Returns the handle by which a receiver waits.
    pub fn notify(&self) -> (semaphore: Rc<Semaphore>)
        ensures
            semaphore == self@.notify.semaphore,
    {
        self.notify.handle()
    }
}

/// A connection that a peer asked for and nobody has accepted yet.
pub struct PendingAccept {
    pub src: SocketAddr,
    pub syn: Syn,
}

/// The port is taken.
#[derive(Debug, Clone, Copy, PartialEq, Eq, Structural)]
pub struct AddrInUse {
    pub addr: SocketAddr,
}

/// A stream socket of a host.
pub enum Socket {
    /// The server socket at a port.
    Server(u16),
    /// The host's end of a connection.
    Stream(SocketPair),
}

/// The stream sockets of a host.
pub struct Tcp {
    /// Bound server sockets
    binds: Table<u16, Inbox<PendingAccept>>,
    /// Active connections, keyed by (local, remote)
    connections: Table<SocketPair, Inbox<Segment>>,
}

/// The server sockets by port and the connections by their pair of sockets.
#[verifier::ext_equal]
pub struct TcpView {
    pub binds: OrderedMap<u16, InboxView<PendingAccept>>,
    pub connections: OrderedMap<SocketPair, InboxView<Segment>>,
}

impl TcpView {
    /// No sockets.
    pub open spec fn empty() -> TcpView {
        TcpView { binds: OrderedMap::empty(), connections: OrderedMap::empty() }
    }

    /// Keys are distinct, there was a permit for each item that waits, and no
    /// two sockets share a semaphore.
    pub open spec fn wf(self) -> bool {
        &&& self.binds.distinct()
        &&& self.connections.distinct()
        &&& forall|port: u16| #[trigger] self.binds.has(port) ==> self.binds[port].signaled()
        &&& forall|pair: SocketPair| #[trigger]
            self.connections.has(pair) ==> self.connections[pair].signaled()
        &&& self.unshared()
    }

    /// No two sockets share a semaphore.
    pub open spec fn unshared(self) -> bool {
        forall|a: Socket, b: Socket| #[trigger]
            self.has(a) && #[trigger] self.has(b) && a != b ==> self.semaphore(a)
                != self.semaphore(b)
    }

    /// The host has the socket.
    pub open spec fn has(self, socket: Socket) -> bool {
        match socket {
            Socket::Server(port) => self.binds.has(port),
            Socket::Stream(pair) => self.connections.has(pair),
        }
    }

    /// The semaphore by which the receiver at a socket waits.
    pub open spec fn semaphore(self, socket: Socket) -> Rc<Semaphore> {
        match socket {
            Socket::Server(port) => self.binds[port].notify.semaphore,
            Socket::Stream(pair) => self.connections[pair].notify.semaphore,
        }
    }

    /// The semaphores of all sockets are among those that were made.
    pub open spec fn made_by(self, made: Seq<Rc<Semaphore>>) -> bool {
        forall|socket: Socket| #[trigger]
            self.has(socket) ==> made.contains(self.semaphore(socket))
    }

    /// `post` has the same sockets with the same semaphores.
    pub open spec fn same_sockets(self, post: TcpView) -> bool {
        forall|socket: Socket|
            {
                &&& #[trigger] post.has(socket) == self.has(socket)
                &&& self.has(socket) ==> post.semaphore(socket) == self.semaphore(socket)
            }
    }

    /// `post` has the same sockets with the same semaphores, and a new one at
    /// `socket`, whose receiver waits by `semaphore`.
    pub open spec fn opens(
        self,
        socket: Socket,
        semaphore: Rc<Semaphore>,
        post: TcpView,
    ) -> bool {
        &&& !self.has(socket)
        &&& post.semaphore(socket) == semaphore
        &&& forall|other: Socket|
            {
                &&& #[trigger] post.has(other) == (other == socket || self.has(other))
                &&& self.has(other) ==> post.semaphore(other) == self.semaphore(other)
            }
    }

    /// The network may hand `segment` from `src` over: a request for a
    /// connection goes to a bound port, does not come from the very socket that
    /// it asks for and asks for no connection that is there; bytes belong to a
    /// connection that is there.
    pub open spec fn accepts(self, src: SocketAddr, segment: Segment) -> bool {
        match segment {
            Segment::Syn(syn) => {
                &&& syn.dst != src
                &&& !self.connections.has(SocketPair(syn.dst, src))
                &&& self.binds.has(syn.dst.spec_port())
            },
            Segment::Data(data) => self.connections.has(data.pair),
        }
    }

    /// The wake-ups that a segment belongs to.
    pub open spec fn notify_of(self, segment: Segment) -> SignalView {
        match segment {
            Segment::Syn(syn) => self.binds[syn.dst.spec_port()].notify,
            Segment::Data(data) => self.connections[data.pair].notify,
        }
    }

    /// The state after a segment from `src` was queued and the wake-ups of its
    /// inbox have become `notify`.
    pub open spec fn queue(self, src: SocketAddr, segment: Segment, notify: SignalView) -> TcpView {
        match segment {
            Segment::Syn(syn) => {
                let port = syn.dst.spec_port();
                let items = self.binds[port].items.push(PendingAccept { src, syn });
                self.bind(port, InboxView { items, notify })
            },
            Segment::Data(data) => {
                let items = self.connections[data.pair].items.push(segment);
                self.connect(data.pair, InboxView { items, notify })
            },
        }
    }

    /// The state after the network handed `segment` from `src` over: it waits
    /// in its inbox, with a permit for it.
    pub open spec fn deliver(self, src: SocketAddr, segment: Segment) -> TcpView {
        self.queue(src, segment, self.notify_of(segment).grant(1))
    }

    /// The state after the connection to `addr` that `src` asked for was set
    /// up with a fresh inbox, by whose wake-ups `stream` waits.
    pub open spec fn accept(
        self,
        addr: SocketAddr,
        src: SocketAddr,
        stream: TcpStreamView,
    ) -> TcpView {
        self.connect(SocketPair(addr, src), InboxView::fresh(stream.notify))
    }

    /// A connection that waits at the port of `addr` can be set up: it is not
    /// there yet.
    pub open spec fn can_accept(self, addr: SocketAddr) -> bool {
        let pending = self.binds[addr.spec_port()].items;
        &&& self.binds.has(addr.spec_port())
        &&& pending.len() > 0 ==> !self.connections.has(SocketPair(addr, pending.first().src))
    }

    /// The state after the oldest connection that waits at `port` was taken
    /// out.
    pub open spec fn take_pending(self, port: u16) -> TcpView {
        self.bind(port, self.binds[port].pop())
    }

    /// Accepting a connection at `addr` gives `result` and leaves the state
    /// `post`: the oldest connection that waits is taken out and acknowledged,
    /// and it is set up exactly if its peer was told.
    pub open spec fn accepted(
        self,
        addr: SocketAddr,
        result: Option<(TcpStream, SocketAddr)>,
        post: TcpView,
    ) -> bool {
        let pending = self.binds[addr.spec_port()].items;
        let taken = self.take_pending(addr.spec_port());
        &&& pending.len() > 0 ==> exists|ack: Ack| #[trigger]
            ack.answers(pending.first().syn.notify) && (result is Some <==> ack.spec_told())
        &&& match result {
            Some((stream, peer)) => {
                &&& pending.len() > 0
                &&& peer == pending.first().src
                &&& stream@.pair == SocketPair(addr, peer)
                &&& stream@.acknowledged == Some(pending.first().syn.notify.channel())
                &&& post == taken.accept(addr, peer, stream@)
            },
            None => post == (if pending.len() > 0 {
                taken
            } else {
                self
            }),
        }
    }

    /// Accepting a connection at `addr`, which may be there already, gives
    /// `result` and leaves the state `post`: where the peer was told and the
    /// connection is there, it is refused; in every other case it is accepted
    /// as the outcome of the acknowledgement says.
    pub open spec fn tried(
        self,
        addr: SocketAddr,
        result: Result<Option<(TcpStream, SocketAddr)>, SocketPair>,
        post: TcpView,
    ) -> bool {
        let pending = self.binds[addr.spec_port()].items;
        let pair = SocketPair(addr, pending.first().src);
        match result {
            Ok(accepted) => {
                &&& self.accepted(addr, accepted, post)
                &&& accepted is Some ==> !self.connections.has(pair)
            },
            Err(connected) => {
                &&& pending.len() > 0
                &&& connected == pair
                &&& self.connections.has(pair)
                &&& exists|ack: Ack| #[trigger]
                    ack.answers(pending.first().syn.notify) && ack.spec_told()
                &&& post == self.take_pending(addr.spec_port())
            },
        }
    }

    /// The state with the inbox of the connection `pair` set.
    pub open spec fn connect(self, pair: SocketPair, inbox: InboxView<Segment>) -> TcpView {
        TcpView { connections: self.connections.put(pair, inbox), ..self }
    }

    /// The state with the inbox of the server socket at `port` set.
    pub open spec fn bind(self, port: u16, inbox: InboxView<PendingAccept>) -> TcpView {
        TcpView { binds: self.binds.put(port, inbox), ..self }
    }
}

impl TcpView {
    /// Setting the inbox of a server socket that is there, with its semaphore
    /// and signaled, keeps the sockets and the state well formed.
    pub proof fn lemma_bind(self, port: u16, inbox: InboxView<PendingAccept>)
        requires
            self.wf(),
            self.binds.has(port),
            inbox.signaled(),
            inbox.notify.semaphore == self.binds[port].notify.semaphore,
        ensures
            self.bind(port, inbox).wf(),
            self.same_sockets(self.bind(port, inbox)),
    {
        self.binds.lemma_put(port, inbox);
        self.lemma_same_sockets(self.bind(port, inbox));
    }

    /// Setting the inbox of a connection that is there, with its semaphore and
    /// signaled, keeps the sockets and the state well formed.
    pub proof fn lemma_connect(self, pair: SocketPair, inbox: InboxView<Segment>)
        requires
            self.wf(),
            self.connections.has(pair),
            inbox.signaled(),
            inbox.notify.semaphore == self.connections[pair].notify.semaphore,
        ensures
            self.connect(pair, inbox).wf(),
            self.same_sockets(self.connect(pair, inbox)),
    {
        self.connections.lemma_put(pair, inbox);
        self.lemma_same_sockets(self.connect(pair, inbox));
    }

    /// Delivering a segment keeps the sockets and the state well formed.
    pub proof fn lemma_deliver(self, src: SocketAddr, segment: Segment)
        requires
            self.wf(),
            self.accepts(src, segment),
        ensures
            self.deliver(src, segment).wf(),
            self.same_sockets(self.deliver(src, segment)),
    {
        match segment {
            Segment::Syn(syn) => {
                let port = syn.dst.spec_port();
                let pending = PendingAccept { src, syn };
                self.lemma_bind(port, self.binds[port].deliver(pending));
            },
            Segment::Data(data) => {
                self.lemma_connect(data.pair, self.connections[data.pair].deliver(segment));
            },
        }
    }

    /// A new server socket with a semaphore of its own keeps the state well
    /// formed.
    pub proof fn lemma_open_server(
        self,
        port: u16,
        semaphore: Rc<Semaphore>,
        made: Seq<Rc<Semaphore>>,
    )
        requires
            self.wf(),
            self.made_by(made),
            !self.binds.has(port),
            !made.contains(semaphore),
        ensures
            self.bind(port, InboxView::fresh(semaphore)).wf(),
            self.opens(
                Socket::Server(port),
                semaphore,
                self.bind(port, InboxView::fresh(semaphore)),
            ),
            self.bind(port, InboxView::fresh(semaphore)).made_by(made.push(semaphore)),
    {
        let post = self.bind(port, InboxView::fresh(semaphore));
        self.binds.lemma_put(port, InboxView::fresh(semaphore));
        self.lemma_opens(Socket::Server(port), semaphore, post, made);
    }

    /// A new connection with a semaphore of its own keeps the state well
    /// formed.
    pub proof fn lemma_open_stream(
        self,
        pair: SocketPair,
        semaphore: Rc<Semaphore>,
        made: Seq<Rc<Semaphore>>,
    )
        requires
            self.wf(),
            self.made_by(made),
            !self.connections.has(pair),
            !made.contains(semaphore),
        ensures
            self.connect(pair, InboxView::fresh(semaphore)).wf(),
            self.opens(
                Socket::Stream(pair),
                semaphore,
                self.connect(pair, InboxView::fresh(semaphore)),
            ),
            self.connect(pair, InboxView::fresh(semaphore)).made_by(made.push(semaphore)),
    {
        let post = self.connect(pair, InboxView::fresh(semaphore));
        self.connections.lemma_put(pair, InboxView::fresh(semaphore));
        self.lemma_opens(Socket::Stream(pair), semaphore, post, made);
    }

    /// Where the sockets and their semaphores are the same, the semaphores are
    /// still among those that were made.
    pub proof fn lemma_same_made(self, post: TcpView, made: Seq<Rc<Semaphore>>)
        requires
            self.made_by(made),
            self.same_sockets(post),
        ensures
            post.made_by(made),
    {
        assert forall|socket: Socket| #[trigger] post.has(socket) implies made.contains(
            post.semaphore(socket),
        ) by {
            assert(self.has(socket));
        }
    }

    /// Where the sockets and their semaphores are the same, no two share one
    /// as before.
    proof fn lemma_same_sockets(self, post: TcpView)
        requires
            self.wf(),
            self.same_sockets(post),
        ensures
            post.unshared(),
    {
        assert forall|a: Socket, b: Socket| #[trigger]
            post.has(a) && #[trigger] post.has(b) && a != b implies post.semaphore(a)
            != post.semaphore(b) by {
            assert(self.has(a) && self.has(b));
        }
    }

    /// The semaphore of a new socket, which is none of those that were made, is
    /// shared with no other socket.
    proof fn lemma_opens(
        self,
        socket: Socket,
        semaphore: Rc<Semaphore>,
        post: TcpView,
        made: Seq<Rc<Semaphore>>,
    )
        requires
            self.wf(),
            self.made_by(made),
            self.opens(socket, semaphore, post),
            !made.contains(semaphore),
        ensures
            post.made_by(made.push(semaphore)),
            post.unshared(),
    {
        assert forall|a: Socket| #[trigger] post.has(a) implies made.push(semaphore).contains(
            post.semaphore(a),
        ) by {
            Signals::lemma_made(made, semaphore, post.semaphore(a));
            assert(a == socket || self.has(a));
        }
        assert forall|a: Socket, b: Socket| #[trigger]
            post.has(a) && #[trigger] post.has(b) && a != b implies post.semaphore(a)
            != post.semaphore(b) by {
            assert(a == socket || self.has(a));
            assert(b == socket || self.has(b));
        }
    }
}

impl View for Tcp {
    type V = TcpView;

    closed spec fn view(&self) -> TcpView {
        TcpView { binds: self.binds@.views(), connections: self.connections@.views() }
    }
}

impl Tcp {
    /// The tables are well formed and so is what they hold.
    pub closed spec fn wf(self) -> bool {
        &&& self.binds.wf()
        &&& self.connections.wf()
        &&& self@.wf()
    }

    /// What holds of the state of well-formed sockets.
    pub proof fn lemma_wf(self)
        requires
            self.wf(),
        ensures
            self@.wf(),
    {
    }

    /// Creates the software of a host without sockets.
    pub fn new() -> (tcp: Self)
        ensures
            tcp.wf(),
            tcp@ == TcpView::empty(),
    {
        let tcp = Tcp { binds: Table::new(), connections: Table::new() };
        assert(tcp@.binds.entries =~= Seq::empty());
        assert(tcp@.connections.entries =~= Seq::empty());
        tcp
    }

    /// Binds a server socket to the port of `addr`, with a semaphore of its
    /// own. A port has one server socket at most.
    pub fn bind(&mut self, addr: SocketAddr, signals: &mut Signals) -> (result: Result<
        Rc<Semaphore>,
        AddrInUse,
    >)
        requires
            old(self).wf(),
            old(self)@.made_by(old(signals)@),
        ensures
            final(self).wf(),
            final(self)@.made_by(final(signals)@),
            match result {
                Ok(semaphore) => {
                    &&& !old(self)@.binds.has(addr.spec_port())
                    &&& !old(signals)@.contains(semaphore)
                    &&& final(signals)@ == old(signals)@.push(semaphore)
                    &&& final(self)@.binds.has(addr.spec_port())
                    &&& final(self)@ == old(self)@.bind(
                        addr.spec_port(),
                        InboxView::fresh(semaphore),
                    )
                    &&& old(self)@.opens(
                        Socket::Server(addr.spec_port()),
                        semaphore,
                        final(self)@,
                    )
                },
                Err(error) => {
                    &&& old(self)@.binds.has(addr.spec_port())
                    &&& error.addr == addr
                    &&& final(signals)@ == old(signals)@
                    &&& final(self)@ == old(self)@
                },
            },
    {
        let port: u16 = addr.port();
        if self.is_bound(port) {
            return Err(AddrInUse { addr });
        }
        let inbox: Inbox<PendingAccept> = Inbox::new(signals);
        let notify = inbox.notify();
        proof {
            self.binds.lemma_wf();
            self.binds@.lemma_views_put(port, inbox);
            self@.binds.lemma_put(port, inbox@);
            self@.lemma_open_server(port, notify, old(signals)@);
        }
        let _ = self.binds.insert(port, inbox);
        Ok(notify)
    }

    /// Tells whether a server socket is bound to `port`.
    pub fn is_bound(&self, port: u16) -> (bound: bool)
        requires
            self.wf(),
        ensures
            bound == self@.binds.has(port),
    {
        proof {
            self.binds.lemma_wf();
            self.binds@.lemma_views(port);
        }
        self.binds.contains_key(&port)
    }

    /// Tells whether a connection waits at `port`.
    pub fn has_pending(&self, port: u16) -> (waits: bool)
        requires
            self.wf(),
            self@.binds.has(port),
        ensures
            waits == (self@.binds[port].items.len() > 0),
    {
        proof {
            self.binds.lemma_wf();
            self.binds@.lemma_views(port);
        }
        self.binds.index(&port).front().is_some()
    }

    /// Tells whether a connection that waits at the port of `addr` can be set
    /// up.
    pub fn can_accept(&self, addr: SocketAddr) -> (possible: bool)
        requires
            self.wf(),
        ensures
            possible == self@.can_accept(addr),
    {
        let port: u16 = addr.port();
        proof {
            self.binds.lemma_wf();
            self.binds@.lemma_views(port);
        }
        match self.binds.get(&port) {
            Some(inbox) => match inbox.front() {
                Some(pending) => !self.is_connected(SocketPair(addr, pending.src)),
                None => true,
            },
            None => false,
        }
    }

    /// Tells whether there is a connection between the sockets of `pair`.
    pub fn is_connected(&self, pair: SocketPair) -> (connected: bool)
        requires
            self.wf(),
        ensures
            connected == self@.connections.has(pair),
    {
        proof {
            self.connections.lemma_wf();
            self.connections@.lemma_views(pair);
        }
        self.connections.contains_key(&pair)
    }

    /// Tells whether the network may hand `segment` from `src` over.
    pub fn accepts(&self, src: SocketAddr, segment: &Segment) -> (possible: bool)
        requires
            self.wf(),
        ensures
            possible == self@.accepts(src, *segment),
    {
        match segment {
            Segment::Syn(syn) => syn.dst != src && !self.is_connected(SocketPair(syn.dst, src))
                && self.is_bound(syn.dst.port()),
            Segment::Data(data) => self.is_connected(data.pair),
        }
    }

    /// Takes the oldest connection that waits at the port of `addr` out.
    fn take_pending(&mut self, addr: SocketAddr) -> (pending: Option<PendingAccept>)
        requires
            old(self).wf(),
            old(self)@.binds.has(addr.spec_port()),
        ensures
            final(self).wf(),
            match pending {
                Some(pending) => {
                    &&& old(self)@.binds[addr.spec_port()].items.len() > 0
                    &&& pending == old(self)@.binds[addr.spec_port()].items.first()
                    &&& final(self)@ == old(self)@.take_pending(addr.spec_port())
                    &&& old(self)@.same_sockets(final(self)@)
                },
                None => {
                    &&& old(self)@.binds[addr.spec_port()].items.len() == 0
                    &&& final(self)@ == old(self)@
                },
            },
    {
        let port: u16 = addr.port();
        let ghost binds = self.binds@;
        proof {
            self.binds.lemma_wf();
            binds.lemma_views(port);
        }
        let inbox = self.binds.index_mut(&port);
        let pending = inbox.pop();
        let ghost popped = *inbox;
        proof {
            binds.lemma_views_put(port, popped);
            old(self)@.lemma_bind(port, popped@);
            old(self)@.binds.lemma_put_same(port);
        }
        pending
    }

    /// Takes the oldest connection that waits at the port of `addr` out, if
    /// there is one, and acknowledges it. Returns who asked for it and the
    /// outcome of the acknowledgement.
    pub fn acknowledge(&mut self, addr: SocketAddr) -> (result: Option<(SocketAddr, Ack)>)
        requires
            old(self).wf(),
            old(self)@.binds.has(addr.spec_port()),
        ensures
            final(self).wf(),
            ({
                let pending = old(self)@.binds[addr.spec_port()].items;
                match result {
                    Some((src, ack)) => {
                        &&& pending.len() > 0
                        &&& src == pending.first().src
                        &&& ack.channel() == pending.first().syn.notify.channel()
                        &&& ack.answers(pending.first().syn.notify)
                        &&& final(self)@ == old(self)@.take_pending(addr.spec_port())
                        &&& old(self)@.same_sockets(final(self)@)
                    },
                    None => pending.len() == 0 && final(self)@ == old(self)@,
                }
            }),
    {
        match self.take_pending(addr) {
            Some(PendingAccept { src, syn }) => Some((src, syn.notify.send())),
            None => None,
        }
    }

    /// Accepts the oldest connection that waits at the port of `addr`, if there
    /// is one, and acknowledges it. A peer that has hung up in the meantime
    /// gets no connection.
    pub fn accept(&mut self, addr: SocketAddr, signals: &mut Signals) -> (result: Option<
        (TcpStream, SocketAddr),
    >)
        requires
            old(self).wf(),
            old(self)@.made_by(old(signals)@),
            old(self)@.can_accept(addr),
        ensures
            final(self).wf(),
            final(self)@.made_by(final(signals)@),
            old(self)@.accepted(addr, result, final(self)@),
            match result {
                Some((stream, _)) => {
                    &&& !old(signals)@.contains(stream@.notify)
                    &&& final(signals)@ == old(signals)@.push(stream@.notify)
                    &&& old(self)@.opens(
                        Socket::Stream(stream@.pair),
                        stream@.notify,
                        final(self)@,
                    )
                },
                None => {
                    &&& final(signals)@ == old(signals)@
                    &&& old(self)@.same_sockets(final(self)@)
                },
            },
    {
        // Perform the SYN-ACK, leaving the connections alone if the peer has
        // hung up.
        match self.acknowledge(addr) {
            Some((src, ack)) => self.finish_accept(addr, src, ack, signals),
            None => None,
        }
    }

    /// Accepts the oldest connection that waits at the port of `addr`, as
    /// `accept` does, and refuses it where the peer was told and the connection
    /// is there already. Returns the connection then.
    pub fn try_accept(&mut self, addr: SocketAddr, signals: &mut Signals) -> (result: Result<
        Option<(TcpStream, SocketAddr)>,
        SocketPair,
    >)
        requires
            old(self).wf(),
            old(self)@.made_by(old(signals)@),
            old(self)@.binds.has(addr.spec_port()),
        ensures
            final(self).wf(),
            final(self)@.made_by(final(signals)@),
            old(self)@.tried(addr, result, final(self)@),
            match result {
                Ok(Some((stream, _))) => {
                    &&& !old(signals)@.contains(stream@.notify)
                    &&& final(signals)@ == old(signals)@.push(stream@.notify)
                    &&& old(self)@.opens(
                        Socket::Stream(stream@.pair),
                        stream@.notify,
                        final(self)@,
                    )
                },
                _ => {
                    &&& final(signals)@ == old(signals)@
                    &&& old(self)@.same_sockets(final(self)@)
                },
            },
    {
        match self.acknowledge(addr) {
            Some((src, ack)) => {
                let pair = SocketPair(addr, src);
                if ack.told() && self.is_connected(pair) {
                    Err(pair)
                } else {
                    Ok(self.finish_accept(addr, src, ack, signals))
                }
            },
            None => Ok(None),
        }
    }

    /// Sets up the connection to `addr` that `src` asked for, unless the
    /// outcome of its acknowledgement is that the peer has hung up.
    pub fn finish_accept(
        &mut self,
        addr: SocketAddr,
        src: SocketAddr,
        ack: Ack,
        signals: &mut Signals,
    ) -> (result: Option<(TcpStream, SocketAddr)>)
        requires
            old(self).wf(),
            old(self)@.made_by(old(signals)@),
            ack.spec_told() ==> !old(self)@.connections.has(SocketPair(addr, src)),
        ensures
            final(self).wf(),
            final(self)@.made_by(final(signals)@),
            match result {
                Some((stream, peer)) => {
                    &&& ack.spec_told()
                    &&& peer == src
                    &&& stream@.pair == SocketPair(addr, src)
                    &&& stream@.acknowledged == Some(ack.channel())
                    &&& !old(signals)@.contains(stream@.notify)
                    &&& final(signals)@ == old(signals)@.push(stream@.notify)
                    &&& final(self)@ == old(self)@.accept(addr, src, stream@)
                    &&& old(self)@.opens(
                        Socket::Stream(stream@.pair),
                        stream@.notify,
                        final(self)@,
                    )
                },
                None => {
                    &&& !ack.spec_told()
                    &&& final(signals)@ == old(signals)@
                    &&& final(self)@ == old(self)@
                },
            },
    {
        if !ack.told() {
            return None;
        }
        let pair = SocketPair(addr, src);
        self.new_stream(pair, signals);
        let notify = self.finish_connect(pair);
        Some((TcpStream::accepted(pair, notify, ack), src))
    }

    /// Adds a connection that is not there yet, with a fresh inbox and a
    /// semaphore of its own.
    pub fn new_stream(&mut self, pair: SocketPair, signals: &mut Signals)
        requires
            old(self).wf(),
            old(self)@.made_by(old(signals)@),
            !old(self)@.connections.has(pair),
        ensures
            final(self).wf(),
            final(self)@.made_by(final(signals)@),
            final(self)@.connections.has(pair),
            ({
                let semaphore = final(self)@.connections[pair].notify.semaphore;
                &&& !old(signals)@.contains(semaphore)
                &&& final(signals)@ == old(signals)@.push(semaphore)
                &&& final(self)@ == old(self)@.connect(pair, InboxView::fresh(semaphore))
                &&& old(self)@.opens(Socket::Stream(pair), semaphore, final(self)@)
            }),
    {
        let inbox: Inbox<Segment> = Inbox::new(signals);
        proof {
            self.connections.lemma_wf();
            self.connections@.lemma_views(pair);
            self.connections@.lemma_views_put(pair, inbox);
            self@.connections.lemma_put(pair, inbox@);
            self@.lemma_open_stream(pair, inbox@.notify.semaphore, old(signals)@);
        }
        let _ = self.connections.insert(pair, inbox);
    }

    /// Returns the handle by which the connection `pair` waits for segments.
    pub fn finish_connect(&self, pair: SocketPair) -> (notify: Rc<Semaphore>)
        requires
            self.wf(),
            self@.connections.has(pair),
        ensures
            notify == self@.connections[pair].notify.semaphore,
    {
        proof {
            self.connections.lemma_wf();
            self.connections@.lemma_views(pair);
        }
        self.connections.index(&pair).notify()
    }

    /// Queues a segment that the network hands over, and returns the wake-ups
    /// of its inbox, for the caller to signal.
    pub fn receive_from_network(&mut self, src: SocketAddr, segment: Segment) -> (notify:
        &mut Signal)
        requires
            old(self).wf(),
            old(self)@.accepts(src, segment),
        ensures
            (*notify)@ == old(self)@.notify_of(segment),
            final(self)@ == old(self)@.queue(src, segment, (*final(notify))@),
            (*final(notify))@ == (*notify)@.grant(1) ==> final(self).wf(),
    {
        proof {
            self.binds.lemma_wf();
            self.connections.lemma_wf();
        }
        match segment {
            Segment::Syn(syn) => {
                let port: u16 = syn.dst.port();
                proof {
                    self.binds@.lemma_views(port);
                    self.binds@.lemma_views_put_any(port);
                    self@.lemma_deliver(src, segment);
                }
                self.binds.index_mut(&port).push(PendingAccept { src, syn })
            },
            Segment::Data(data) => {
                let pair = data.pair;
                proof {
                    self.connections@.lemma_views(pair);
                    self.connections@.lemma_views_put_any(pair);
                    self@.lemma_deliver(src, segment);
                }
                self.connections.index_mut(&pair).push(Segment::Data(data))
            },
        }
    }
}

} // verus!
