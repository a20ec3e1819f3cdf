use turmoil::addr::{IpAddr, SocketAddr};
use turmoil::net::SocketPair;
use turmoil::table::Table;

fn v4(ip: u32, port: u16) -> SocketAddr {
    SocketAddr::V4 { ip, port }
}

fn v6(ip: u128, port: u16, flowinfo: u32, scope_id: u32) -> SocketAddr {
    SocketAddr::V6 { ip, port, flowinfo, scope_id }
}

#[test]
fn a_new_table_is_empty() {
    let table: Table<u16, char> = Table::new();
    assert_eq!(table.len(), 0);
    assert!(!table.contains_key(&0));
    assert_eq!(table.get(&0), None);
}

#[test]
fn values_are_found_by_key_and_by_place() {
    let mut table = Table::new();
    assert_eq!(table.insert(30u16, 'a'), None);
    assert_eq!(table.insert(10, 'b'), None);
    assert_eq!(table.insert(20, 'c'), None);
    assert_eq!(table.len(), 3);
    assert_eq!(table.get(&10), Some(&'b'));
    assert_eq!(*table.index(&20), 'c');
    assert_eq!(table.get(&11), None);
    assert_eq!((table.key_at(0), table.key_at(1), table.key_at(2)), (30, 10, 20));
    assert_eq!(*table.value_at_mut(1), 'b');
}

#[test]
fn a_key_keeps_its_place_when_its_value_is_replaced() {
    let mut table = Table::new();
    table.insert(3u16, 'a');
    table.insert(2, 'b');
    assert_eq!(table.insert(3, 'z'), Some('a'));
    assert_eq!(table.len(), 2);
    assert_eq!(table.key_at(0), 3);
    assert_eq!(table.get(&3), Some(&'z'));
    assert_eq!(table.get(&2), Some(&'b'));
}

#[test]
fn values_can_be_written_in_place() {
    let mut table = Table::new();
    table.insert(1u16, 10);
    table.insert(2, 20);
    *table.get_mut(&2).unwrap() = 21;
    *table.index_mut(&1) += 1;
    *table.value_at_mut(0) += 100;
    assert_eq!(table.get(&1), Some(&111));
    assert_eq!(table.get(&2), Some(&21));
    assert!(table.get_mut(&3).is_none());
}

#[test]
fn a_missing_key_gets_the_default_behind_the_others() {
    let mut table = Table::new();
    table.insert(5u16, 50);
    *table.get_or_insert(4, 0) += 1;
    *table.get_or_insert(5, 0) += 1;
    assert_eq!(table.len(), 2);
    assert_eq!(table.key_at(1), 4);
    assert_eq!(table.get(&4), Some(&1));
    assert_eq!(table.get(&5), Some(&51));
}

#[test]
fn addresses_of_both_families_are_told_apart() {
    let keys = [
        v4(1, 80),
        v4(1, 81),
        v4(2, 80),
        v6(1, 80, 0, 0),
        v6(1, 80, 7, 0),
        v6(1, 80, 0, 7),
        v6(u128::MAX, u16::MAX, u32::MAX, u32::MAX),
        v4(u32::MAX, u16::MAX),
    ];
    let mut table = Table::new();
    for (i, key) in keys.iter().enumerate() {
        assert!(table.insert(*key, i).is_none());
    }
    for (i, key) in keys.iter().enumerate() {
        assert_eq!(table.get(key), Some(&i));
        assert_eq!(table.key_at(i), *key);
    }
}

#[test]
fn a_pair_is_directed() {
    let (a, b) = (v4(1, 1), v6(2, 2, 3, 4));
    let mut table = Table::new();
    table.insert(SocketPair::new(a, b), "there");
    assert_eq!(table.get(&SocketPair(a, b)), Some(&"there"));
    assert_eq!(table.get(&SocketPair(b, a)), None);
    assert_eq!(table.key_at(0), SocketPair(a, b));
}

#[test]
fn a_socket_address_has_an_ip_and_a_port() {
    assert_eq!(v4(7, 80).ip(), IpAddr::V4(7));
    assert_eq!(v4(7, 80).port(), 80);
    assert_eq!(v6(7, 81, 1, 2).ip(), IpAddr::V6(7));
    assert_eq!(v6(7, 81, 1, 2).port(), 81);
    assert_eq!(SocketAddr::new(IpAddr::V4(7), 9), v4(7, 9));
    assert_eq!(SocketAddr::new(IpAddr::V6(7), 9), v6(7, 9, 0, 0));
}
