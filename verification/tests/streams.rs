use bytes::Bytes;
use std::rc::Rc;
use turmoil::addr::SocketAddr;
use turmoil::envelope::{Dot, Envelope, Message, Outgoing};
use turmoil::handshake::Ack;
use turmoil::host::Host;
use turmoil::listener::TcpListener;
use turmoil::net::{Data, Segment, SocketPair};
use turmoil::signal::{Signal, Signals};
use turmoil::tcp::Tcp;
use turmoil::time::Instant;
use turmoil::world::World;

const SERVER: SocketAddr = SocketAddr::V4 { ip: 0xc0a8_0001, port: 80 };
const CLIENT: SocketAddr = SocketAddr::V4 { ip: 0xc0a8_0002, port: 9000 };
const LISTEN: SocketAddr = SocketAddr::V4 { ip: 0, port: 80 };

fn world() -> World<u32> {
    let mut world = World::new();
    let start = Instant { nanos: 0 };
    world.register(SERVER, start, Signal::new());
    world.register(CLIENT, start, Signal::new());
    world
}

fn envelope(outgoing: Outgoing<u32>) -> Envelope<u32> {
    Envelope { src: Dot { host: outgoing.src, version: 0 }, message: outgoing.message }
}

fn data(pair: SocketPair, bytes: &'static [u8]) -> Segment {
    Segment::Data(Data { pair, bytes: Bytes::from_static(bytes) })
}

#[test]
fn a_connection_is_asked_for_delivered_and_accepted() {
    let mut world = world();
    world.set_current(Some(SERVER));
    let listener = TcpListener::bind(&mut world, LISTEN).unwrap();
    assert_eq!(listener.notify().available_permits(), 0);
    assert!(listener.accept(&mut world).is_none());

    world.set_current(Some(CLIENT));
    let (receiver, pair, outgoing) = world.connect(SERVER);
    let mut receiver = receiver.into_inner();
    let local = SocketAddr::V4 { ip: 0xc0a8_0002, port: 1024 };
    assert_eq!(pair, SocketPair(local, SERVER));
    assert_eq!(outgoing.src, local);
    assert_eq!(outgoing.dst, SERVER);
    assert!(receiver.try_recv().is_err());
    assert!(world.host(CLIENT).tcp().is_connected(pair));

    world.host_mut(SERVER).receive_from_network(envelope(outgoing));
    assert_eq!(listener.notify().available_permits(), 1);

    world.set_current(Some(SERVER));
    let (stream, peer) = listener.accept(&mut world).unwrap();
    assert_eq!(peer, local);
    assert_eq!(stream.pair(), SocketPair(LISTEN, local));
    assert_eq!(receiver.try_recv(), Ok(()));
    assert!(world.host(SERVER).tcp().is_connected(SocketPair(LISTEN, local)));
    assert_eq!(stream.notify().available_permits(), 0);

    let src = Dot { host: local, version: 0 };
    let segment = data(stream.pair(), b"hello");
    let delivery = Envelope { src, message: Message::Segment(segment) };
    world.host_mut(SERVER).receive_from_network(delivery);
    assert_eq!(stream.notify().available_permits(), 1);
    assert_eq!(listener.notify().available_permits(), 1);
}

#[test]
fn a_peer_that_hung_up_gets_no_connection() {
    let mut world = world();
    world.set_current(Some(SERVER));
    let listener = TcpListener::bind(&mut world, LISTEN).unwrap();
    world.set_current(Some(CLIENT));
    let (gone, pair, outgoing) = world.connect(SERVER);
    drop(gone);
    world.host_mut(SERVER).receive_from_network(envelope(outgoing));
    world.set_current(Some(SERVER));
    assert!(listener.accept(&mut world).is_none());
    assert!(!world.host(SERVER).tcp().is_connected(SocketPair(LISTEN, pair.0)));
    // The request is gone, too.
    assert!(listener.accept(&mut world).is_none());
}

#[test]
fn requests_are_accepted_in_order() {
    let mut world = world();
    world.set_current(Some(SERVER));
    let listener = TcpListener::bind(&mut world, LISTEN).unwrap();
    world.set_current(Some(CLIENT));
    let mut receivers = Vec::new();
    for _ in 0..3 {
        let (receiver, _, outgoing) = world.connect(SERVER);
        receivers.push(receiver.into_inner());
        world.host_mut(SERVER).receive_from_network(envelope(outgoing));
    }
    assert_eq!(listener.notify().available_permits(), 3);
    world.set_current(Some(SERVER));
    for (i, receiver) in receivers.iter_mut().enumerate() {
        assert!(receiver.try_recv().is_err());
        let (stream, peer) = listener.accept(&mut world).unwrap();
        assert_eq!(peer, SocketAddr::V4 { ip: 0xc0a8_0002, port: 1024 + i as u16 });
        assert_eq!(stream.pair(), SocketPair(LISTEN, peer));
        assert_eq!(receiver.try_recv(), Ok(()));
    }
    assert!(listener.accept(&mut world).is_none());
}

#[test]
fn a_port_is_bound_once() {
    let mut world = world();
    world.set_current(Some(SERVER));
    let listener = TcpListener::bind(&mut world, LISTEN).unwrap();
    assert_eq!(listener.addr(), LISTEN);
    let error = TcpListener::bind(&mut world, LISTEN).err().unwrap();
    assert_eq!(error.addr, LISTEN);
    let other = SocketAddr::V4 { ip: 0, port: 81 };
    assert!(TcpListener::bind(&mut world, other).is_ok());
    // Hosts have ports of their own.
    world.set_current(Some(CLIENT));
    assert!(TcpListener::bind(&mut world, LISTEN).is_ok());
}

#[test]
fn a_port_is_taken_whatever_the_address() {
    let (mut tcp, mut signals) = (Tcp::new(), Signals::new());
    assert!(!tcp.is_bound(80));
    assert!(tcp.bind(LISTEN, &mut signals).is_ok());
    assert!(tcp.is_bound(80));
    assert_eq!(tcp.bind(SERVER, &mut signals).err().unwrap().addr, SERVER);
}

#[test]
fn only_the_unspecified_ipv4_address_is_supported() {
    assert!(TcpListener::supports(LISTEN));
    assert!(!TcpListener::supports(SERVER));
    let v6 = SocketAddr::V6 { ip: 0, port: 80, flowinfo: 0, scope_id: 0 };
    assert!(!TcpListener::supports(v6));
}

#[test]
fn an_acknowledgement_decides_whether_a_connection_is_set_up() {
    let mut world = world();
    world.set_current(Some(CLIENT));
    let (kept, pair, outgoing) = world.connect(SERVER);
    let (dropped, _, late) = world.connect(SERVER);
    drop(dropped);
    let ack = |outgoing: Outgoing<u32>| match outgoing.message {
        Message::Segment(Segment::Syn(syn)) => {
            assert_eq!(syn.dst, SERVER);
            syn.notify.send()
        }
        _ => panic!("not a request"),
    };
    let (yes, no) = (ack(outgoing), ack(late));
    assert!(yes.told());
    assert!(!no.told());
    assert_eq!(kept.into_inner().try_recv(), Ok(()));

    let (mut tcp, mut signals) = (Tcp::new(), Signals::new());
    assert!(tcp.finish_accept(LISTEN, pair.0, no, &mut signals).is_none());
    assert!(!tcp.is_connected(SocketPair(LISTEN, pair.0)));
    let (stream, peer) = tcp.finish_accept(LISTEN, pair.0, yes, &mut signals).unwrap();
    assert_eq!(peer, pair.0);
    assert_eq!(stream.pair(), SocketPair(LISTEN, pair.0));
    assert!(tcp.is_connected(SocketPair(LISTEN, pair.0)));
}

#[test]
fn what_sending_gave_tells_whether_the_peer_was_told() {
    assert!(Ack::is_told(&Ok(())));
    assert!(!Ack::is_told(&Err(())));
}

#[test]
fn the_oldest_request_is_acknowledged() {
    let mut world = world();
    world.set_current(Some(CLIENT));
    let (mut tcp, mut signals) = (Tcp::new(), Signals::new());
    tcp.bind(LISTEN, &mut signals).unwrap();
    assert!(tcp.acknowledge(LISTEN).is_none());
    let mut asked = Vec::new();
    for _ in 0..3 {
        let (receiver, pair, outgoing) = world.connect(SERVER);
        if let Message::Segment(segment) = outgoing.message {
            tcp.receive_from_network(pair.0, segment).add_permits(1);
        }
        asked.push((receiver.into_inner(), pair.0));
    }
    asked[1].0.close();
    for (i, (receiver, socket)) in asked.iter_mut().enumerate() {
        assert!(tcp.has_pending(80));
        assert!(receiver.try_recv().is_err());
        let (src, ack) = tcp.acknowledge(LISTEN).unwrap();
        assert_eq!(src, *socket);
        assert_eq!(ack.told(), i != 1);
        assert_eq!(receiver.try_recv().is_ok(), i != 1);
        assert!(!tcp.is_connected(SocketPair(LISTEN, src)));
    }
    assert!(!tcp.has_pending(80));
    assert!(tcp.acknowledge(LISTEN).is_none());
}

#[test]
fn each_socket_has_a_semaphore_of_its_own() {
    let (mut tcp, mut signals) = (Tcp::new(), Signals::new());
    let other = SocketAddr::V4 { ip: 0, port: 81 };
    let pair = SocketPair(SERVER, CLIENT);
    let a = tcp.bind(LISTEN, &mut signals).unwrap();
    let b = tcp.bind(other, &mut signals).unwrap();
    tcp.new_stream(pair, &mut signals);
    let c = tcp.finish_connect(pair);
    assert!(!Rc::ptr_eq(&a, &b));
    assert!(!Rc::ptr_eq(&a, &c));
    assert!(!Rc::ptr_eq(&b, &c));
    assert!(Rc::ptr_eq(&c, &tcp.finish_connect(pair)));
    tcp.receive_from_network(CLIENT, data(pair, b"x")).add_permits(1);
    assert_eq!(c.available_permits(), 1);
    assert_eq!((a.available_permits(), b.available_permits()), (0, 0));
}

#[test]
fn hosts_have_ports_and_semaphores_of_their_own() {
    let mut world = world();
    world.set_current(Some(SERVER));
    let first = TcpListener::bind(&mut world, LISTEN).unwrap();
    world.set_current(Some(CLIENT));
    let second = TcpListener::bind(&mut world, LISTEN).unwrap();
    assert!(!Rc::ptr_eq(&first.notify(), &second.notify()));
    let (_receiver, pair, outgoing) = world.connect(SERVER);
    world.host_mut(SERVER).receive_from_network(envelope(outgoing));
    assert_eq!(first.notify().available_permits(), 1);
    assert_eq!(second.notify().available_permits(), 0);
    let stream = world.host(CLIENT).tcp().finish_connect(pair);
    assert!(!Rc::ptr_eq(&stream, &first.notify()));
    assert!(!Rc::ptr_eq(&stream, &second.notify()));
    assert!(!Rc::ptr_eq(&stream, &world.recv().1));
}

#[test]
fn the_version_counts_connections() {
    let mut world = world();
    world.set_current(Some(SERVER));
    let listener = TcpListener::bind(&mut world, LISTEN).unwrap();
    assert!(listener.accept(&mut world).is_none());
    assert_eq!(world.host(SERVER).dot().version, 0);
    world.set_current(Some(CLIENT));
    let (_receiver, _, outgoing) = world.connect(SERVER);
    assert_eq!(world.host(CLIENT).dot().version, 1);
    let (gone, _, late) = world.connect(SERVER);
    drop(gone);
    assert_eq!(world.host(CLIENT).dot().version, 2);
    world.host_mut(SERVER).receive_from_network(envelope(outgoing));
    world.host_mut(SERVER).receive_from_network(envelope(late));
    assert_eq!(world.host(SERVER).dot().version, 0);
    world.set_current(Some(SERVER));
    assert!(world.can_accept(LISTEN));
    assert!(listener.accept(&mut world).is_some());
    assert_eq!(world.host(SERVER).dot().version, 1);
    // A peer that hung up gets no connection, so there is nothing to count.
    assert!(listener.accept(&mut world).is_none());
    assert_eq!(world.host(SERVER).dot().version, 1);
    assert_eq!(world.host(CLIENT).dot().version, 2);
}

#[test]
fn a_segment_wakes_its_own_connection_only() {
    let mut host: Host<u32> = Host::new(SERVER, Instant { nanos: 0 }, Signal::new());
    let mut signals = Signals::new();
    let (a, b) = (SocketPair(SERVER, CLIENT), SocketPair(LISTEN, CLIENT));
    host.tcp_mut().new_stream(a, &mut signals);
    host.tcp_mut().new_stream(b, &mut signals);
    let (wake_a, wake_b) = (host.tcp().finish_connect(a), host.tcp().finish_connect(b));
    for (pair, bytes) in [(a, b"x"), (b, b"y"), (a, b"z")] {
        let src = Dot { host: CLIENT, version: 1 };
        let message = Message::Segment(data(pair, bytes));
        host.receive_from_network(Envelope { src, message });
    }
    assert_eq!(wake_a.available_permits(), 2);
    assert_eq!(wake_b.available_permits(), 1);
    let (envelope, datagrams) = host.recv();
    assert!(envelope.is_none());
    assert_eq!(datagrams.available_permits(), 0);
}

#[test]
fn what_the_network_may_hand_over() {
    let mut world = world();
    world.set_current(Some(CLIENT));
    let (_receiver, pair, outgoing) = world.connect(SERVER);
    let request = match outgoing.message {
        Message::Segment(segment) => segment,
        _ => panic!("not a segment"),
    };
    let (mut server, mut signals) = (Tcp::new(), Signals::new());
    assert!(!server.accepts(pair.0, &request));
    assert!(!server.can_accept(LISTEN));
    server.bind(LISTEN, &mut signals).unwrap();
    assert!(server.can_accept(LISTEN));
    assert!(server.accepts(pair.0, &request));
    assert!(!server.accepts(SERVER, &request));
    let other = SocketPair(SERVER, pair.0);
    assert!(!server.accepts(pair.0, &data(other, b"early")));
    server.new_stream(other, &mut signals);
    assert!(server.accepts(pair.0, &data(other, b"now")));
    assert!(!server.accepts(pair.0, &request));
}

#[test]
fn a_connection_that_is_there_is_not_accepted_again() {
    let mut world = world();
    let mut signals = Signals::new();
    let mut host: Host<u32> = Host::new(SERVER, Instant { nanos: 0 }, Signal::new());
    host.tcp_mut().bind(LISTEN, &mut signals).unwrap();
    world.set_current(Some(CLIENT));
    let (_receiver, pair, outgoing) = world.connect(SERVER);
    host.receive_from_network(envelope(outgoing));
    assert!(host.tcp().can_accept(LISTEN));
    host.tcp_mut().new_stream(SocketPair(LISTEN, pair.0), &mut signals);
    assert!(!host.tcp().can_accept(LISTEN));
}

#[test]
fn a_connection_that_is_there_is_refused_if_the_peer_was_told() {
    let mut world = world();
    let (mut tcp, mut signals) = (Tcp::new(), Signals::new());
    tcp.bind(LISTEN, &mut signals).unwrap();
    assert!(matches!(tcp.try_accept(LISTEN, &mut signals), Ok(None)));
    world.set_current(Some(CLIENT));
    let mut asked = Vec::new();
    for _ in 0..3 {
        let (receiver, pair, outgoing) = world.connect(SERVER);
        if let Message::Segment(segment) = outgoing.message {
            tcp.receive_from_network(pair.0, segment).add_permits(1);
        }
        asked.push((receiver.into_inner(), SocketPair(LISTEN, pair.0)));
    }
    // The first two are there already, and the second has hung up.
    tcp.new_stream(asked[0].1, &mut signals);
    tcp.new_stream(asked[1].1, &mut signals);
    asked[1].0.close();
    assert_eq!(tcp.try_accept(LISTEN, &mut signals).err(), Some(asked[0].1));
    assert_eq!(asked[0].0.try_recv(), Ok(()));
    assert!(matches!(tcp.try_accept(LISTEN, &mut signals), Ok(None)));
    let (stream, _) = tcp.try_accept(LISTEN, &mut signals).ok().unwrap().unwrap();
    assert_eq!(stream.pair(), asked[2].1);
    assert_eq!(asked[2].0.try_recv(), Ok(()));
    assert!(!tcp.has_pending(80));
}

#[test]
fn trying_to_accept_counts_what_was_accepted() {
    let mut world = world();
    world.set_current(Some(SERVER));
    assert!(!world.listens(LISTEN));
    world.bind(LISTEN).unwrap();
    assert!(world.listens(LISTEN));
    assert!(matches!(world.try_accept(LISTEN), Ok(None)));
    world.set_current(Some(CLIENT));
    assert!(!world.listens(LISTEN));
    let (receiver, pair, outgoing) = world.connect(SERVER);
    let (gone, _, late) = world.connect(SERVER);
    drop(gone);
    world.host_mut(SERVER).receive_from_network(envelope(outgoing));
    world.host_mut(SERVER).receive_from_network(envelope(late));
    world.set_current(Some(SERVER));
    let (stream, peer) = world.try_accept(LISTEN).ok().unwrap().unwrap();
    assert_eq!(peer, pair.0);
    assert_eq!(stream.pair(), SocketPair(LISTEN, pair.0));
    assert_eq!(receiver.into_inner().try_recv(), Ok(()));
    assert_eq!(world.host(SERVER).dot().version, 1);
    assert!(matches!(world.try_accept(LISTEN), Ok(None)));
    assert_eq!(world.host(SERVER).dot().version, 1);
}

#[test]
fn new_connections_do_not_clash() {
    let mut world = world();
    assert!(!world.can_connect(SERVER));
    world.set_current(Some(CLIENT));
    let mut pairs = Vec::new();
    for _ in 0..5 {
        assert!(world.can_connect(SERVER));
        let (_, pair, outgoing) = world.connect(SERVER);
        assert_eq!(pair, SocketPair(outgoing.src, SERVER));
        assert!(!pairs.contains(&pair));
        pairs.push(pair);
    }
    // The next port of the host itself.
    assert!(!world.can_connect(SocketAddr::V4 { ip: 0xc0a8_0002, port: 1029 }));
    assert!(world.can_connect(SocketAddr::V4 { ip: 0xc0a8_0002, port: 1030 }));
}

#[test]
fn segments_have_names() {
    let mut world = world();
    world.set_current(Some(CLIENT));
    let (_receiver, pair, outgoing) = world.connect(SERVER);
    match outgoing.message {
        Message::Segment(segment) => assert_eq!(segment.name(), "Syn"),
        _ => panic!("not a segment"),
    }
    assert_eq!(data(pair, b"").name(), "Data");
}

#[test]
fn accepting_takes_no_port() {
    let mut world = world();
    world.set_current(Some(SERVER));
    let listener = TcpListener::bind(&mut world, LISTEN).unwrap();
    world.set_current(Some(CLIENT));
    let (_receiver, _, outgoing) = world.connect(SERVER);
    let peer = outgoing.src;
    world.host_mut(SERVER).receive_from_network(envelope(outgoing));
    world.set_current(Some(SERVER));
    assert!(listener.accept(&mut world).is_some());
    assert!(world.can_connect(peer));
    let (_receiver, pair, _) = world.connect(peer);
    assert_eq!(pair.0, SocketAddr::V4 { ip: 0xc0a8_0001, port: 1024 });
}

#[test]
fn sockets_stay_open() {
    let mut signals = Signals::new();
    let mut host: Host<u32> = Host::new(SERVER, Instant { nanos: 0 }, Signal::new());
    host.tcp_mut().bind(LISTEN, &mut signals).unwrap();
    let pair = SocketPair(SERVER, CLIENT);
    host.tcp_mut().new_stream(pair, &mut signals);
    let src = Dot { host: CLIENT, version: 0 };
    let message = Message::Segment(data(pair, b"hello"));
    host.receive_from_network(Envelope { src, message });
    let server = host.tcp_mut();
    assert!(server.is_connected(pair));
    assert!(!server.is_connected(SocketPair(LISTEN, CLIENT)));
    assert!(server.accept(LISTEN, &mut signals).is_none());
    assert!(server.bind(LISTEN, &mut signals).is_err());
}
