use turmoil::addr::SocketAddr;
use turmoil::envelope::{Dot, Envelope, Message};
use turmoil::host::Host;
use turmoil::signal::Signal;
use turmoil::time::Instant;

const HOST: SocketAddr = SocketAddr::V4 { ip: 1, port: 80 };
const A: SocketAddr = SocketAddr::V4 { ip: 2, port: 80 };
const B: SocketAddr = SocketAddr::V4 { ip: 3, port: 80 };

fn host() -> Host<u32> {
    Host::new(HOST, Instant { nanos: 100 }, Signal::new())
}

fn datagram(from: SocketAddr, value: u32) -> Envelope<u32> {
    Envelope { src: Dot { host: from, version: 5 }, message: Message::Datagram(value) }
}

fn value(envelope: Option<Envelope<u32>>) -> Option<(SocketAddr, u32)> {
    envelope.map(|envelope| match envelope.message {
        Message::Datagram(value) => (envelope.src.host, value),
        Message::Segment(_) => unreachable!(),
    })
}

#[test]
fn nothing_is_received_of_nothing() {
    let mut host = host();
    let (envelope, notify) = host.recv();
    assert!(envelope.is_none());
    assert_eq!(notify.available_permits(), 0);
    assert_eq!(host.dot(), Dot { host: HOST, version: 0 });
}

#[test]
fn datagrams_of_a_peer_are_received_in_order() {
    let mut host = host();
    for (from, n) in [(A, 1), (B, 2), (A, 3), (B, 4), (A, 5)] {
        host.receive_from_network(datagram(from, n));
    }
    assert_eq!(value(host.recv_from(A).0), Some((A, 1)));
    assert_eq!(value(host.recv_from(A).0), Some((A, 3)));
    assert_eq!(value(host.recv_from(B).0), Some((B, 2)));
    assert_eq!(value(host.recv_from(A).0), Some((A, 5)));
    assert_eq!(value(host.recv_from(A).0), None);
    assert_eq!(value(host.recv_from(B).0), Some((B, 4)));
    assert_eq!(value(host.recv_from(B).0), None);
}

#[test]
fn a_peer_that_was_first_comes_first_whatever_the_order_of_delivery() {
    let mut host = host();
    host.receive_from_network(datagram(A, 1));
    assert_eq!(value(host.recv().0), Some((A, 1)));
    host.receive_from_network(datagram(B, 2));
    host.receive_from_network(datagram(A, 3));
    assert_eq!(value(host.recv().0), Some((A, 3)));
    assert_eq!(value(host.recv().0), Some((B, 2)));
    assert_eq!(value(host.recv().0), None);
}

#[test]
fn asking_a_peer_gives_it_a_place() {
    let mut host = host();
    assert!(host.recv_from(B).0.is_none());
    host.receive_from_network(datagram(A, 1));
    host.receive_from_network(datagram(B, 2));
    assert_eq!(value(host.recv().0), Some((B, 2)));
    assert_eq!(value(host.recv().0), Some((A, 1)));
}

#[test]
fn as_many_receptions_as_datagrams_empty_a_host() {
    let mut host = host();
    for n in 0..10 {
        host.receive_from_network(datagram(if n % 3 == 0 { A } else { B }, n));
    }
    let mut seen: Vec<u32> = (0..10).map(|_| value(host.recv().0).unwrap().1).collect();
    assert!(host.recv().0.is_none());
    assert_eq!(seen, vec![0, 3, 6, 9, 1, 2, 4, 5, 7, 8]);
    seen.sort();
    assert_eq!(seen, (0..10).collect::<Vec<u32>>());
}

#[test]
fn each_datagram_grants_a_permit() {
    let signal = Signal::new();
    let handle = signal.handle();
    let mut host: Host<u32> = Host::new(HOST, Instant { nanos: 0 }, signal);
    assert_eq!(handle.available_permits(), 0);
    host.receive_from_network(datagram(A, 1));
    assert_eq!(handle.available_permits(), 1);
    host.receive_from_network(datagram(B, 2));
    host.receive_from_network(datagram(B, 3));
    assert_eq!(handle.available_permits(), 3);
    let (_, notify) = host.recv();
    assert_eq!(notify.available_permits(), 3);
    notify.try_acquire().unwrap().forget();
    assert_eq!(handle.available_permits(), 2);
}

#[test]
fn permits_add_up() {
    let mut signal = Signal::new();
    signal.add_permits(2);
    signal.add_permits(5);
    assert_eq!(signal.handle().available_permits(), 7);
}

#[test]
fn the_version_counts_receptions() {
    let mut host = host();
    host.receive_from_network(datagram(A, 1));
    host.receive_from_network(datagram(A, 2));
    assert_eq!(host.dot().version, 0);
    host.recv();
    assert_eq!(host.dot().version, 1);
    host.recv_from(A);
    assert_eq!(host.dot().version, 2);
    host.recv();
    host.recv_from(A);
    assert_eq!(host.dot().version, 2);
    assert_eq!(host.bump(), Dot { host: HOST, version: 3 });
    assert_eq!(host.dot(), Dot { host: HOST, version: 3 });
}

#[test]
fn what_is_logged_of_a_reception() {
    let mut host = host();
    host.tick(Instant { nanos: 175 });
    host.receive_from_network(datagram(A, 1));
    let (envelope, _) = host.recv();
    let record = host.record(&envelope).unwrap();
    assert_eq!(record.dot, Dot { host: HOST, version: 1 });
    assert_eq!(record.elapsed, 75);
    assert_eq!(record.src, Dot { host: A, version: 5 });
    assert!(host.record(&None).is_none());
}

#[test]
fn elapsed_time_follows_the_clock() {
    let mut host = host();
    assert_eq!(host.elapsed(), 0);
    host.tick(Instant { nanos: 101 });
    assert_eq!(host.elapsed(), 1);
    host.tick(Instant { nanos: u128::MAX });
    assert_eq!(host.elapsed(), u128::MAX - 100);
    host.tick(Instant { nanos: 99 });
    assert_eq!(host.elapsed(), 0);
}

#[test]
fn ports_count_up_and_pass_the_own_port_over() {
    let mut host = host();
    assert_eq!(host.assign_ephemeral_port(), 1024);
    assert_eq!(host.next_ephemeral_port(), 1025);
    assert_eq!(host.assign_ephemeral_port(), 1025);

    let own = SocketAddr::V4 { ip: 1, port: 1025 };
    let mut host: Host<u32> = Host::new(own, Instant { nanos: 0 }, Signal::new());
    assert_eq!(host.assign_ephemeral_port(), 1024);
    assert_eq!(host.assign_ephemeral_port(), 1026);
    assert_eq!(host.assign_ephemeral_port(), 1027);
}

#[test]
fn ports_run_out() {
    let mut host = host();
    let mut last = 0;
    let mut count = 0;
    while host.has_ephemeral_port() {
        let port = host.assign_ephemeral_port();
        assert!(port > last);
        last = port;
        count += 1;
    }
    assert_eq!(last, 65534);
    assert_eq!(count, 65535 - 1024);

    let own = SocketAddr::V4 { ip: 1, port: 65534 };
    let mut host: Host<u32> = Host::new(own, Instant { nanos: 0 }, Signal::new());
    while host.has_ephemeral_port() {
        last = host.assign_ephemeral_port();
    }
    assert_eq!(last, 65533);
}
