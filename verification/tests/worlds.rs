use turmoil::addr::{IpAddr, SocketAddr};
use turmoil::envelope::{Dot, Envelope, Message};
use turmoil::signal::Signal;
use turmoil::time::Instant;
use turmoil::world::World;

fn addr(ip: u32) -> SocketAddr {
    SocketAddr::V4 { ip, port: 80 }
}

fn world(ips: &[u32]) -> World<u32> {
    let mut world = World::new();
    for ip in ips {
        world.register(addr(*ip), Instant { nanos: 0 }, Signal::new());
    }
    world
}

#[test]
fn a_new_host_is_linked_with_all_existing_ones() {
    let mut world: World<u32> = World::new();
    let start = Instant { nanos: 0 };
    assert!(world.register(addr(3), start, Signal::new()).is_empty());
    assert_eq!(
        world.register(addr(1), start, Signal::new()),
        vec![(IpAddr::V4(3), IpAddr::V4(1))]
    );
    assert_eq!(
        world.register(addr(2), start, Signal::new()),
        vec![(IpAddr::V4(3), IpAddr::V4(2)), (IpAddr::V4(1), IpAddr::V4(2))]
    );
}

#[test]
fn every_pair_of_hosts_is_linked_once() {
    let mut world: World<u32> = World::new();
    let mut links = Vec::new();
    for ip in 0..6 {
        links.extend(world.register(addr(ip), Instant { nanos: 0 }, Signal::new()));
    }
    assert_eq!(links.len(), 15);
    for j in 0..6 {
        for i in 0..j {
            let link = (IpAddr::V4(i), IpAddr::V4(j));
            assert_eq!(links.iter().filter(|l| **l == link).count(), 1);
        }
    }
}

#[test]
fn a_registered_host_is_found() {
    let world = world(&[1, 2]);
    assert!(world.contains_host(addr(1)));
    assert!(!world.contains_host(addr(3)));
    assert_eq!(world.host(addr(2)).addr(), addr(2));
    assert_eq!(world.host(addr(2)).dot(), Dot { host: addr(2), version: 0 });
    assert_eq!(world.host(addr(2)).elapsed(), 0);
}

#[test]
fn the_current_host_is_one_of_the_world() {
    let mut world = world(&[1, 2]);
    assert_eq!(world.current(), None);
    world.set_current(Some(addr(9)));
    assert_eq!(world.current(), None);
    world.set_current(Some(addr(2)));
    assert_eq!(world.current(), Some(addr(2)));
    assert_eq!(world.current_host().addr(), addr(2));
}

#[test]
fn a_message_leaves_from_the_current_host() {
    let mut world = world(&[1, 2]);
    world.set_current(Some(addr(2)));
    let outgoing = world.send_message(addr(1), Message::Datagram(7));
    assert_eq!(outgoing.src, addr(2));
    assert_eq!(outgoing.dst, addr(1));
    assert!(matches!(outgoing.message, Message::Datagram(7)));
}

#[test]
fn the_version_counts_network_operations() {
    let mut world = world(&[1, 2]);
    world.set_current(Some(addr(2)));
    for n in 0..3 {
        assert_eq!(world.host(addr(2)).dot().version, n);
        world.send_message(addr(1), Message::Datagram(7));
    }
    let src = Dot { host: addr(1), version: 0 };
    let message = Message::Datagram(8);
    world.host_mut(addr(2)).receive_from_network(Envelope { src, message });
    world.tick(addr(2), Instant { nanos: 9 });
    assert!(world.bind(addr(3)).is_ok());
    assert_eq!(world.host(addr(2)).dot().version, 3);
    assert!(world.recv().0.is_some());
    assert!(world.recv().0.is_none());
    assert_eq!(world.host(addr(2)).dot().version, 4);
    let (_receiver, _, _) = world.connect(addr(1));
    assert_eq!(world.host(addr(2)).dot().version, 5);
    assert_eq!(world.host(addr(1)).dot().version, 0);
}

#[test]
fn waiting_messages_are_told() {
    let mut world = world(&[1]);
    world.set_current(Some(addr(1)));
    assert!(!world.current_host().has_mail());
    let src = Dot { host: addr(5), version: 0 };
    let message = Message::Datagram(8);
    world.host_mut(addr(1)).receive_from_network(Envelope { src, message });
    assert!(world.current_host().has_mail());
    assert!(world.current_host().has_mail_from(addr(5)));
    assert!(!world.current_host().has_mail_from(addr(6)));
    assert!(world.recv_from(addr(5)).0.is_some());
    assert!(!world.current_host().has_mail());
    assert!(!world.current_host().has_mail_from(addr(5)));
}

#[test]
fn what_one_host_does_leaves_the_others_alone() {
    let mut world = world(&[1, 2]);
    for ip in [1, 2] {
        let src = Dot { host: addr(9), version: 4 };
        let message = Message::Datagram(ip * 10);
        world.host_mut(addr(ip)).receive_from_network(Envelope { src, message });
    }
    world.tick(addr(1), Instant { nanos: 50 });
    assert_eq!(world.host(addr(1)).elapsed(), 50);
    assert_eq!(world.host(addr(2)).elapsed(), 0);

    world.set_current(Some(addr(1)));
    let (envelope, notify, record) = world.recv();
    assert!(matches!(envelope.unwrap().message, Message::Datagram(10)));
    assert_eq!(notify.available_permits(), 1);
    let record = record.unwrap();
    assert_eq!(record.dot, Dot { host: addr(1), version: 1 });
    assert_eq!(record.elapsed, 50);
    assert_eq!(record.src, Dot { host: addr(9), version: 4 });
    assert_eq!(world.host(addr(2)).dot().version, 0);

    let (envelope, _, record) = world.recv();
    assert!(envelope.is_none() && record.is_none());

    world.set_current(Some(addr(2)));
    assert!(world.recv_from(addr(1)).0.is_none());
    let (envelope, _, record) = world.recv_from(addr(9));
    assert!(matches!(envelope.unwrap().message, Message::Datagram(20)));
    assert_eq!(record.unwrap().dot, Dot { host: addr(2), version: 1 });
}
