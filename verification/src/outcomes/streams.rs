//! Inboxes and the stream sockets of a host.
use std::rc::Rc;
use tokio::sync::{oneshot, Semaphore};
use vstd::prelude::*;

use crate::addr::SocketAddr;
use crate::handshake::Ack;
use crate::net::{Data, Segment, SocketPair, Syn, TcpStream};
use crate::signal::{Signal, Signals};
use crate::tcp::{AddrInUse, Inbox, InboxView, PendingAccept, Socket, Tcp, TcpView};

verus! {

// Inboxes
// -------

/// A new inbox holds nothing and has no permits, and it waits by a semaphore of
/// its own.
pub proof fn law_a_new_inbox_is_empty<T>(signals: &mut Signals, inbox: Inbox<T>)
    requires
        call_ensures(Inbox::<T>::new, (signals,), inbox),
    ensures
        inbox@.items.len() == 0,
        inbox@.notify.granted == 0,
        !old(signals)@.contains(inbox@.notify.semaphore),
        final(signals)@ == old(signals)@.push(inbox@.notify.semaphore),
{
}

/// An item that is pushed stands behind the others, and the permits are what the
/// caller makes them.
pub proof fn law_pushing_an_item<T>(inbox: &mut Inbox<T>, item: T, notify: &mut Signal, i: int)
    requires
        call_ensures(Inbox::<T>::push, (inbox, item), notify),
    ensures
        final(inbox)@.items.len() == old(inbox)@.items.len() + 1,
        0 <= i < old(inbox)@.items.len() ==> final(inbox)@.items[i] == old(inbox)@.items[i],
        final(inbox)@.items.last() == item,
        old(notify)@ == old(inbox)@.notify,
        final(notify)@ == final(inbox)@.notify,
{
}

/// Popping takes the first item out, and every other one moves up by one place.
pub proof fn law_popping_an_item<T>(inbox: &mut Inbox<T>, item: Option<T>, i: int)
    requires
        call_ensures(Inbox::<T>::pop, (inbox,), item),
    ensures
        item is Some <==> old(inbox)@.items.len() > 0,
        item is Some ==> {
            &&& item == Some(old(inbox)@.items[0])
            &&& final(inbox)@.items.len() == old(inbox)@.items.len() - 1
            &&& 0 <= i < final(inbox)@.items.len() ==> final(inbox)@.items[i]
                == old(inbox)@.items[i + 1]
        },
        item is None ==> final(inbox)@.items == old(inbox)@.items,
        final(inbox)@.notify == old(inbox)@.notify,
{
}

/// What an inbox shows is its first item and its semaphore.
pub proof fn law_looking_into_an_inbox<T>(
    inbox: &Inbox<T>,
    item: Option<&T>,
    semaphore: Rc<Semaphore>,
)
    requires
        call_ensures(Inbox::<T>::front, (inbox,), item),
        call_ensures(Inbox::<T>::notify, (inbox,), semaphore),
    ensures
        inbox@.items.len() > 0 ==> item == Some(&inbox@.items[0]),
        inbox@.items.len() == 0 ==> item is None,
        semaphore == inbox@.notify.semaphore,
{
}

// What sockets there are
// ----------------------

impl TcpView {
    /// In `post` the first request at `port` is gone and every other one has
    /// moved up by one place; no permit was granted, and no other server socket
    /// has changed.
    pub open spec fn moved_up(self, port: u16, post: TcpView) -> bool {
        &&& self.binds.same_but(port, post.binds)
        &&& post.binds.entries.len() == self.binds.entries.len()
        &&& post.binds.has(port)
        &&& post.binds[port].notify == self.binds[port].notify
        &&& post.binds[port].items.len() == self.binds[port].items.len() - 1
        &&& forall|i: int|
            0 <= i < post.binds[port].items.len() ==> #[trigger] post.binds[port].items[i]
                == self.binds[port].items[i + 1]
    }

    /// In `post` there is a new connection `pair`, which holds nothing, has no
    /// permits and waits by `semaphore`; no other connection has changed.
    pub open spec fn gained(
        self,
        pair: SocketPair,
        semaphore: Rc<Semaphore>,
        post: TcpView,
    ) -> bool {
        &&& !self.connections.has(pair)
        &&& self.connections.same_but(pair, post.connections)
        &&& post.connections.has(pair)
        &&& post.connections[pair].items.len() == 0
        &&& post.connections[pair].notify.granted == 0
        &&& post.connections[pair].notify.semaphore == semaphore
    }
}

impl PendingAccept {
    /// Sending the acknowledgement of the request gives `result`.
    pub open spec fn replied(self, result: Result<(), ()>) -> bool {
        call_ensures(oneshot::Sender::<()>::send, (self.syn.notify.inner(), ()), result)
    }
}

/// A host starts without sockets.
pub proof fn law_no_sockets_at_first(tcp: Tcp)
    requires
        call_ensures(Tcp::new, (), tcp),
    ensures
        tcp.wf(),
        tcp@.binds.entries.len() == 0,
        tcp@.connections.entries.len() == 0,
{
}

/// Semaphores are among those that were made exactly if those of all server
/// sockets and of all connections are.
pub proof fn law_semaphores_that_were_made(tcp: TcpView, made: Seq<Rc<Semaphore>>)
    ensures
        tcp.made_by(made) <==> {
            &&& forall|port: u16| #[trigger]
                tcp.binds.has(port) ==> made.contains(tcp.binds[port].notify.semaphore)
            &&& forall|pair: SocketPair| #[trigger]
                tcp.connections.has(pair) ==> made.contains(tcp.connections[pair].notify.semaphore)
        },
{
    if tcp.made_by(made) {
        assert forall|port: u16| #[trigger] tcp.binds.has(port) implies made.contains(
            tcp.binds[port].notify.semaphore,
        ) by {
            assert(tcp.has(Socket::Server(port)));
        }
        assert forall|pair: SocketPair| #[trigger] tcp.connections.has(pair) implies made.contains(
            tcp.connections[pair].notify.semaphore,
        ) by {
            assert(tcp.has(Socket::Stream(pair)));
        }
    }
}

/// A request waits where there is one in the inbox of its port, and sockets are
/// connected where there is a connection.
pub proof fn law_asking_for_sockets(
    tcp: &Tcp,
    port: u16,
    pair: SocketPair,
    waits: bool,
    connected: bool,
)
    requires
        tcp.wf(),
        tcp@.binds.has(port),
        call_ensures(Tcp::has_pending, (tcp, port), waits),
        call_ensures(Tcp::is_connected, (tcp, pair), connected),
    ensures
        waits <==> tcp@.binds[port].items.len() > 0,
        connected <==> tcp@.connections.has(pair),
        call_requires(Tcp::has_pending, (tcp, port)),
        call_requires(Tcp::is_connected, (tcp, pair)),
{
}

/// A port is bound exactly if a server socket is at it.
pub proof fn law_bound_ports(tcp: &Tcp, port: u16, bound: bool)
    requires
        tcp.wf(),
        call_ensures(Tcp::is_bound, (tcp, port), bound),
    ensures
        bound <==> tcp@.binds.has(port),
{
}

/// A connection can be accepted at a port that is bound, unless the one that
/// waits there first is set up already.
pub proof fn law_when_a_connection_can_be_accepted(tcp: &Tcp, addr: SocketAddr, possible: bool)
    requires
        tcp.wf(),
        call_ensures(Tcp::can_accept, (tcp, addr), possible),
    ensures
        possible <==> {
            let port = addr.spec_port();
            &&& tcp@.binds.has(port)
            &&& tcp@.binds[port].items.len() == 0 || !tcp@.connections.has(
                SocketPair(addr, tcp@.binds[port].items[0].src),
            )
        },
{
}

/// The network may hand over a request to a bound port from another socket with
/// which there is no connection, and bytes for a connection that is there.
pub proof fn law_what_the_network_may_hand_over(
    tcp: &Tcp,
    src: SocketAddr,
    segment: Segment,
    possible: bool,
)
    requires
        tcp.wf(),
        call_ensures(Tcp::accepts, (tcp, src, &segment), possible),
    ensures
        segment matches Segment::Syn(syn) ==> (possible <==> {
            &&& tcp@.binds.has(syn.dst.spec_port())
            &&& syn.dst != src
            &&& !tcp@.connections.has(SocketPair(syn.dst, src))
        }),
        segment matches Segment::Data(data) ==> (possible <==> tcp@.connections.has(data.pair)),
{
}

// New sockets
// -----------

/// Binding succeeds exactly if the port is free. The new server socket holds no
/// request and has no permits; it waits by a semaphore that no other socket
/// waits by; all other sockets stay as they are.
pub proof fn law_binding_a_port(
    tcp: &mut Tcp,
    addr: SocketAddr,
    signals: &mut Signals,
    result: Result<Rc<Semaphore>, AddrInUse>,
)
    requires
        old(tcp).wf(),
        old(tcp)@.made_by(old(signals)@),
        call_ensures(Tcp::bind, (tcp, addr, signals), result),
    ensures
        final(tcp).wf(),
        result is Ok <==> !old(tcp)@.binds.has(addr.spec_port()),
        final(tcp)@.connections == old(tcp)@.connections,
        result matches Ok(semaphore) ==> {
            let inbox = final(tcp)@.binds[addr.spec_port()];
            &&& final(tcp)@.binds.has(addr.spec_port())
            &&& old(tcp)@.binds.same_but(addr.spec_port(), final(tcp)@.binds)
            &&& inbox.items.len() == 0
            &&& inbox.notify.granted == 0
            &&& inbox.notify.semaphore == semaphore
            &&& !old(signals)@.contains(semaphore)
            &&& final(signals)@ == old(signals)@.push(semaphore)
            &&& forall|port: u16| #[trigger]
                old(tcp)@.binds.has(port) ==> old(tcp)@.binds[port].notify.semaphore != semaphore
            &&& forall|pair: SocketPair| #[trigger]
                old(tcp)@.connections.has(pair) ==> old(tcp)@.connections[pair].notify.semaphore
                    != semaphore
        },
        result matches Err(error) ==> {
            &&& error.addr == addr
            &&& final(tcp)@.binds == old(tcp)@.binds
            &&& final(signals)@ == old(signals)@
        },
        call_requires(Tcp::bind, (tcp, addr, signals)),
{
    old(tcp).lemma_wf();
    law_semaphores_that_were_made(old(tcp)@, old(signals)@);
    if let Ok(semaphore) = result {
        old(tcp)@.binds.lemma_put_same_but(addr.spec_port(), InboxView::fresh(semaphore));
    }
}

/// A new connection holds nothing and has no permits; it waits by a semaphore
/// that no other socket waits by; all other sockets stay as they are. It can be
/// added wherever it is not there.
pub proof fn law_adding_a_connection(tcp: &mut Tcp, pair: SocketPair, signals: &mut Signals)
    requires
        old(tcp).wf(),
        old(tcp)@.made_by(old(signals)@),
        !old(tcp)@.connections.has(pair),
        call_ensures(Tcp::new_stream, (tcp, pair, signals), ()),
    ensures
        final(tcp).wf(),
        final(tcp)@.binds == old(tcp)@.binds,
        ({
            let semaphore = final(tcp)@.connections[pair].notify.semaphore;
            &&& old(tcp)@.gained(pair, semaphore, final(tcp)@)
            &&& !old(signals)@.contains(semaphore)
            &&& final(signals)@ == old(signals)@.push(semaphore)
            &&& forall|port: u16| #[trigger]
                old(tcp)@.binds.has(port) ==> old(tcp)@.binds[port].notify.semaphore != semaphore
            &&& forall|other: SocketPair| #[trigger]
                old(tcp)@.connections.has(other) ==> old(tcp)@.connections[other].notify.semaphore
                    != semaphore
        }),
        call_requires(Tcp::new_stream, (tcp, pair, signals)),
{
    let semaphore = final(tcp)@.connections[pair].notify.semaphore;
    old(tcp).lemma_wf();
    law_semaphores_that_were_made(old(tcp)@, old(signals)@);
    old(tcp)@.connections.lemma_put_same_but(pair, InboxView::fresh(semaphore));
}

/// A connection waits by the semaphore of its inbox.
pub proof fn law_the_semaphore_of_a_connection(
    tcp: &Tcp,
    pair: SocketPair,
    notify: Rc<Semaphore>,
)
    requires
        tcp.wf(),
        tcp@.connections.has(pair),
        call_ensures(Tcp::finish_connect, (tcp, pair), notify),
    ensures
        notify == tcp@.connections[pair].notify.semaphore,
        call_requires(Tcp::finish_connect, (tcp, pair)),
{
}

// Segments
// --------

/// A request is queued behind those that wait at its port, with the socket that
/// it came from, and the caller gets the permits of that port to add to;
/// connections stay as they are.
pub proof fn law_queueing_a_request(tcp: &mut Tcp, src: SocketAddr, syn: Syn, notify: &mut Signal)
    requires
        old(tcp).wf(),
        old(tcp)@.binds.has(syn.dst.spec_port()),
        call_ensures(Tcp::receive_from_network, (tcp, src, Segment::Syn(syn)), notify),
    ensures
        ({
            let pre = old(tcp)@.binds[syn.dst.spec_port()];
            let post = final(tcp)@.binds[syn.dst.spec_port()];
            &&& final(tcp)@.binds.has(syn.dst.spec_port())
            &&& old(tcp)@.binds.same_but(syn.dst.spec_port(), final(tcp)@.binds)
            &&& post.items == pre.items + seq![PendingAccept { src, syn }]
            &&& old(notify)@ == pre.notify
            &&& final(notify)@ == post.notify
        }),
        final(tcp)@.connections == old(tcp)@.connections,
        syn.dst != src && !old(tcp)@.connections.has(SocketPair(syn.dst, src)) ==> call_requires(
            Tcp::receive_from_network,
            (tcp, src, Segment::Syn(syn)),
        ),
{
    let port = syn.dst.spec_port();
    let items = old(tcp)@.binds[port].items.push(PendingAccept { src, syn });
    old(tcp).lemma_wf();
    old(tcp)@.binds.lemma_put_same_but(port, InboxView { items, notify: final(notify)@ });
    assert(items =~= old(tcp)@.binds[port].items + seq![PendingAccept { src, syn }]);
}

/// Bytes are queued behind those that wait at their connection, and the caller
/// gets the permits of that connection to add to; server sockets stay as they
/// are.
pub proof fn law_queueing_bytes(tcp: &mut Tcp, src: SocketAddr, data: Data, notify: &mut Signal)
    requires
        old(tcp).wf(),
        old(tcp)@.connections.has(data.pair),
        call_ensures(Tcp::receive_from_network, (tcp, src, Segment::Data(data)), notify),
    ensures
        ({
            let pre = old(tcp)@.connections[data.pair];
            let post = final(tcp)@.connections[data.pair];
            &&& final(tcp)@.connections.has(data.pair)
            &&& old(tcp)@.connections.same_but(data.pair, final(tcp)@.connections)
            &&& post.items == pre.items + seq![Segment::Data(data)]
            &&& old(notify)@ == pre.notify
            &&& final(notify)@ == post.notify
        }),
        final(tcp)@.binds == old(tcp)@.binds,
        call_requires(Tcp::receive_from_network, (tcp, src, Segment::Data(data))),
{
    let items = old(tcp)@.connections[data.pair].items.push(Segment::Data(data));
    old(tcp).lemma_wf();
    old(tcp)@.connections.lemma_put_same_but(
        data.pair,
        InboxView { items, notify: final(notify)@ },
    );
    assert(items =~= old(tcp)@.connections[data.pair].items + seq![Segment::Data(data)]);
}

// Requests
// --------

/// The first request at a port is acknowledged, to its own sender, and taken
/// out; connections stay as they are.
pub proof fn law_acknowledging_the_first_request(
    tcp: &mut Tcp,
    addr: SocketAddr,
    result: Option<(SocketAddr, Ack)>,
)
    requires
        old(tcp).wf(),
        old(tcp)@.binds.has(addr.spec_port()),
        call_ensures(Tcp::acknowledge, (tcp, addr), result),
    ensures
        final(tcp).wf(),
        result is Some <==> old(tcp)@.binds[addr.spec_port()].items.len() > 0,
        final(tcp)@.connections == old(tcp)@.connections,
        result is None ==> final(tcp)@.binds == old(tcp)@.binds,
        result matches Some((src, ack)) ==> {
            let first = old(tcp)@.binds[addr.spec_port()].items[0];
            &&& old(tcp)@.moved_up(addr.spec_port(), final(tcp)@)
            &&& src == first.src
            &&& ack.channel() == first.syn.notify.channel()
            &&& exists|reply: Result<(), ()>| #[trigger]
                first.replied(reply) && ack.spec_told() == (reply is Ok)
        },
        call_requires(Tcp::acknowledge, (tcp, addr)),
{
    let port = addr.spec_port();
    let pre = old(tcp)@;
    old(tcp).lemma_wf();
    if let Some((_, ack)) = result {
        pre.binds.lemma_put_same_but(port, pre.binds[port].pop());
        lemma_reply(pre.binds[port].items[0], ack);
    }
}

/// An outcome that answers a request tells what sending its acknowledgement
/// gave.
proof fn lemma_reply(request: PendingAccept, ack: Ack)
    requires
        ack.answers(request.syn.notify),
    ensures
        exists|reply: Result<(), ()>| #[trigger]
            request.replied(reply) && ack.spec_told() == (reply is Ok),
{
    let reply = choose|reply: Result<(), ()>| #[trigger]
        call_ensures(
            oneshot::Sender::<()>::send,
            (request.syn.notify.inner(), ()),
            reply,
        ) && ack.spec_told() == (reply is Ok);
    assert(request.replied(reply));
}

/// Where no request waits, accepting gives nothing and changes nothing. Where
/// one does, the first is taken out and acknowledged to its own sender; a stream
/// to its source is given, and its connection is new, exactly if that succeeded.
pub proof fn law_accepting_the_first_request(
    tcp: TcpView,
    addr: SocketAddr,
    result: Option<(TcpStream, SocketAddr)>,
    post: TcpView,
)
    requires
        tcp.wf(),
        tcp.binds.has(addr.spec_port()),
        tcp.accepted(addr, result, post),
        ({
            let pending = tcp.binds[addr.spec_port()].items;
            pending.len() > 0 && result is Some ==> !tcp.connections.has(
                SocketPair(addr, pending[0].src),
            )
        }),
    ensures
        tcp.binds[addr.spec_port()].items.len() == 0 ==> {
            &&& result is None
            &&& post.binds == tcp.binds
            &&& post.connections == tcp.connections
        },
        tcp.binds[addr.spec_port()].items.len() > 0 ==> {
            let first = tcp.binds[addr.spec_port()].items[0];
            &&& tcp.moved_up(addr.spec_port(), post)
            &&& exists|reply: Result<(), ()>| #[trigger]
                first.replied(reply) && (result is Some <==> reply is Ok)
            &&& result is None ==> post.connections == tcp.connections
            &&& result matches Some((stream, peer)) ==> {
                &&& peer == first.src
                &&& stream@.pair.0 == addr
                &&& stream@.pair.1 == first.src
                &&& stream@.acknowledged == Some(first.syn.notify.channel())
                &&& tcp.gained(stream@.pair, stream@.notify, post)
            }
        },
{
    let port = addr.spec_port();
    let pending = tcp.binds[port].items;
    if pending.len() > 0 {
        tcp.binds.lemma_put_same_but(port, tcp.binds[port].pop());
        let ack = choose|ack: Ack| #[trigger]
            ack.answers(pending.first().syn.notify) && (result is Some <==> ack.spec_told());
        lemma_reply(pending[0], ack);
        if let Some((stream, _)) = result {
            tcp.connections.lemma_put_same_but(stream@.pair, InboxView::fresh(stream@.notify));
        }
    }
}

/// What a call of `Tcp::accept` does, as the law above says it of the states.
/// The semaphore of the stream is none of those that were made.
pub proof fn law_a_call_of_accept(
    tcp: &mut Tcp,
    addr: SocketAddr,
    signals: &mut Signals,
    result: Option<(TcpStream, SocketAddr)>,
)
    requires
        old(tcp).wf(),
        old(tcp)@.made_by(old(signals)@),
        old(tcp)@.binds.has(addr.spec_port()),
        ({
            let pending = old(tcp)@.binds[addr.spec_port()].items;
            pending.len() > 0 ==> !old(tcp)@.connections.has(SocketPair(addr, pending[0].src))
        }),
        call_ensures(Tcp::accept, (tcp, addr, signals), result),
    ensures
        final(tcp).wf(),
        call_requires(Tcp::accept, (tcp, addr, signals)),
        old(tcp)@.binds[addr.spec_port()].items.len() == 0 ==> {
            &&& result is None
            &&& final(tcp)@.binds == old(tcp)@.binds
            &&& final(tcp)@.connections == old(tcp)@.connections
        },
        old(tcp)@.binds[addr.spec_port()].items.len() > 0 ==> {
            let first = old(tcp)@.binds[addr.spec_port()].items[0];
            &&& old(tcp)@.moved_up(addr.spec_port(), final(tcp)@)
            &&& exists|reply: Result<(), ()>| #[trigger]
                first.replied(reply) && (result is Some <==> reply is Ok)
            &&& result is None ==> final(tcp)@.connections == old(tcp)@.connections
            &&& result matches Some((stream, peer)) ==> {
                &&& peer == first.src
                &&& stream@.pair.0 == addr
                &&& stream@.pair.1 == first.src
                &&& stream@.acknowledged == Some(first.syn.notify.channel())
                &&& old(tcp)@.gained(stream@.pair, stream@.notify, final(tcp)@)
            }
        },
        result is None ==> final(signals)@ == old(signals)@,
        result matches Some((stream, _)) ==> {
            &&& !old(signals)@.contains(stream@.notify)
            &&& final(signals)@ == old(signals)@.push(stream@.notify)
        },
{
    old(tcp).lemma_wf();
    law_accepting_the_first_request(old(tcp)@, addr, result, final(tcp)@);
}

/// A request whose connection is there is refused exactly if its peer was told;
/// it is taken out and nothing else changes. Every other one is accepted as its
/// acknowledgement decides.
pub proof fn law_a_call_of_try_accept(
    tcp: &mut Tcp,
    addr: SocketAddr,
    signals: &mut Signals,
    result: Result<Option<(TcpStream, SocketAddr)>, SocketPair>,
)
    requires
        old(tcp).wf(),
        old(tcp)@.made_by(old(signals)@),
        old(tcp)@.binds.has(addr.spec_port()),
        call_ensures(Tcp::try_accept, (tcp, addr, signals), result),
    ensures
        final(tcp).wf(),
        call_requires(Tcp::try_accept, (tcp, addr, signals)),
        old(tcp)@.binds[addr.spec_port()].items.len() == 0 ==> {
            &&& result matches Ok(None)
            &&& final(tcp)@.binds == old(tcp)@.binds
            &&& final(tcp)@.connections == old(tcp)@.connections
        },
        old(tcp)@.binds[addr.spec_port()].items.len() > 0 ==> {
            let first = old(tcp)@.binds[addr.spec_port()].items[0];
            let pair = SocketPair(addr, first.src);
            let connected = old(tcp)@.connections.has(pair);
            &&& old(tcp)@.moved_up(addr.spec_port(), final(tcp)@)
            &&& exists|reply: Result<(), ()>|
                {
                    &&& #[trigger] first.replied(reply)
                    &&& (result is Err <==> reply is Ok && connected)
                    &&& (result matches Ok(Some(_)) <==> reply is Ok && !connected)
                }
            &&& result matches Err(refused) ==> refused == pair
            &&& match result {
                Ok(Some((stream, peer))) => {
                    &&& peer == first.src
                    &&& stream@.pair == pair
                    &&& stream@.acknowledged == Some(first.syn.notify.channel())
                    &&& old(tcp)@.gained(pair, stream@.notify, final(tcp)@)
                    &&& !old(signals)@.contains(stream@.notify)
                    &&& final(signals)@ == old(signals)@.push(stream@.notify)
                },
                _ => {
                    &&& final(tcp)@.connections == old(tcp)@.connections
                    &&& final(signals)@ == old(signals)@
                },
            }
        },
{
    old(tcp).lemma_wf();
    lemma_tried(old(tcp)@, addr, result, final(tcp)@);
}

/// Which reply a request got, as accepting or refusing it shows.
pub proof fn lemma_tried(
    tcp: TcpView,
    addr: SocketAddr,
    result: Result<Option<(TcpStream, SocketAddr)>, SocketPair>,
    post: TcpView,
)
    requires
        tcp.wf(),
        tcp.binds.has(addr.spec_port()),
        tcp.tried(addr, result, post),
    ensures
        tcp.binds[addr.spec_port()].items.len() == 0 ==> {
            &&& result matches Ok(None)
            &&& post.binds == tcp.binds
            &&& post.connections == tcp.connections
        },
        tcp.binds[addr.spec_port()].items.len() > 0 ==> {
            let first = tcp.binds[addr.spec_port()].items[0];
            let pair = SocketPair(addr, first.src);
            let connected = tcp.connections.has(pair);
            &&& tcp.moved_up(addr.spec_port(), post)
            &&& exists|reply: Result<(), ()>|
                {
                    &&& #[trigger] first.replied(reply)
                    &&& (result is Err <==> reply is Ok && connected)
                    &&& (result matches Ok(Some(_)) <==> reply is Ok && !connected)
                }
            &&& result matches Err(refused) ==> refused == pair
            &&& match result {
                Ok(Some((stream, peer))) => {
                    &&& peer == first.src
                    &&& stream@.pair == pair
                    &&& stream@.acknowledged == Some(first.syn.notify.channel())
                    &&& tcp.gained(pair, stream@.notify, post)
                },
                _ => post.connections == tcp.connections,
            }
        },
{
    let port = addr.spec_port();
    let pending = tcp.binds[port].items;
    match result {
        Ok(accepted) => law_accepting_the_first_request(tcp, addr, accepted, post),
        Err(_) => {
            tcp.binds.lemma_put_same_but(port, tcp.binds[port].pop());
            let ack = choose|ack: Ack| #[trigger]
                ack.answers(pending.first().syn.notify) && ack.spec_told();
            lemma_reply(pending[0], ack);
        },
    }
}

/// A connection is set up exactly if its peer was told, with the sockets that it
/// was asked for with; requests stay as they are.
pub proof fn law_a_call_of_finish_accept(
    tcp: &mut Tcp,
    addr: SocketAddr,
    src: SocketAddr,
    ack: Ack,
    signals: &mut Signals,
    result: Option<(TcpStream, SocketAddr)>,
)
    requires
        old(tcp).wf(),
        old(tcp)@.made_by(old(signals)@),
        ack.spec_told() ==> !old(tcp)@.connections.has(SocketPair(addr, src)),
        call_ensures(Tcp::finish_accept, (tcp, addr, src, ack, signals), result),
    ensures
        final(tcp).wf(),
        call_requires(Tcp::finish_accept, (tcp, addr, src, ack, signals)),
        result is Some <==> ack.spec_told(),
        final(tcp)@.binds == old(tcp)@.binds,
        result is None ==> {
            &&& final(tcp)@.connections == old(tcp)@.connections
            &&& final(signals)@ == old(signals)@
        },
        result matches Some((stream, peer)) ==> {
            &&& peer == src
            &&& stream@.pair.0 == addr
            &&& stream@.pair.1 == src
            &&& stream@.acknowledged == Some(ack.channel())
            &&& old(tcp)@.gained(stream@.pair, stream@.notify, final(tcp)@)
            &&& !old(signals)@.contains(stream@.notify)
            &&& final(signals)@ == old(signals)@.push(stream@.notify)
        },
{
    old(tcp).lemma_wf();
    if let Some((stream, _)) = result {
        old(tcp)@.connections.lemma_put_same_but(
            SocketPair(addr, src),
            InboxView::fresh(stream@.notify),
        );
    }
}

/// Each of `results` is what accepting at `addr` gives in the state before it,
/// and leaves the one after it.
pub open spec fn accepts_in_a_row(
    addr: SocketAddr,
    states: Seq<TcpView>,
    results: Seq<Option<(TcpStream, SocketAddr)>>,
) -> bool {
    &&& states.len() == results.len() + 1
    &&& forall|k: int|
        #![trigger states[k]]
        0 <= k < results.len() ==> {
            &&& states[k].wf()
            &&& states[k].can_accept(addr)
            &&& states[k].accepted(addr, results[k], states[k + 1])
        }
}

/// Accepting any number of times in a row takes the requests in the order in
/// which they waited: the `k`-th of them is acknowledged to the sender of the
/// `k`-th request, and the stream that it gives, if it gives one, leads to that
/// request's source; those behind them wait on in their order.
pub proof fn law_requests_are_accepted_in_order(
    addr: SocketAddr,
    states: Seq<TcpView>,
    results: Seq<Option<(TcpStream, SocketAddr)>>,
    k: int,
)
    requires
        accepts_in_a_row(addr, states, results),
        results.len() <= states[0].binds[addr.spec_port()].items.len(),
        0 <= k <= results.len(),
    ensures
        ({
            let waited = states[0].binds[addr.spec_port()].items;
            let waits = states[k].binds[addr.spec_port()].items;
            &&& waits.len() == waited.len() - k
            &&& forall|i: int|
                0 <= i < waits.len() ==> #[trigger] waits[i] == waited[i + k]
            &&& k < results.len() ==> {
                &&& exists|reply: Result<(), ()>| #[trigger]
                    waited[k].replied(reply) && (results[k] is Some <==> reply is Ok)
                &&& results[k] matches Some((stream, peer)) ==> {
                    &&& peer == waited[k].src
                    &&& stream@.pair == SocketPair(addr, waited[k].src)
                    &&& stream@.acknowledged == Some(waited[k].syn.notify.channel())
                }
            }
        }),
    decreases k,
{
    let port = addr.spec_port();
    let waited = states[0].binds[port].items;
    if k > 0 {
        law_requests_are_accepted_in_order(addr, states, results, k - 1);
        let before = states[k - 1];
        assert(before.wf());
        law_accepting_the_first_request(before, addr, results[k - 1], states[k]);
        assert forall|i: int| 0 <= i < states[k].binds[port].items.len() implies #[trigger]
            states[k].binds[port].items[i] == waited[i + k] by {
            assert(before.binds[port].items[i + 1] == waited[i + 1 + (k - 1)]);
        }
    }
    if k < results.len() {
        assert(states[k].wf());
        assert(states[k].binds[port].items[0] == waited[k]);
        law_accepting_the_first_request(states[k], addr, results[k], states[k + 1]);
    }
}

} // verus!
