use chat_lib::registry::{ClientRegistry, ConnectionEntry, PeerAddr};

fn addr(port: u16) -> PeerAddr {
    PeerAddr { ip: 0x7F00_0001, port }
}

fn entry(port: u16, handle: u64) -> ConnectionEntry {
    ConnectionEntry { addr: addr(port), handle }
}

#[test]
fn new_registry_is_empty() {
    let registry = ClientRegistry::new();
    assert_eq!(registry.len(), 0);
    assert_eq!(registry.snapshot(), vec![]);
    assert_eq!(registry.get(&addr(1)), None);
}

#[test]
fn register_inserts_in_order() {
    let mut registry = ClientRegistry::new();
    registry.register(addr(1), 10);
    registry.register(addr(2), 20);
    registry.register(addr(3), 30);
    assert_eq!(registry.len(), 3);
    assert_eq!(registry.snapshot(), vec![entry(1, 10), entry(2, 20), entry(3, 30)]);
    assert_eq!(registry.get(&addr(2)), Some(20));
    assert_eq!(registry.get(&addr(4)), None);
}

#[test]
fn register_again_replaces_the_entry() {
    let mut registry = ClientRegistry::new();
    registry.register(addr(1), 10);
    registry.register(addr(2), 20);
    registry.register(addr(1), 11);
    assert_eq!(registry.len(), 2);
    assert_eq!(registry.get(&addr(1)), Some(11));
    assert_eq!(registry.snapshot(), vec![entry(2, 20), entry(1, 11)]);
}

#[test]
fn addresses_differ_by_ip_or_port() {
    let mut registry = ClientRegistry::new();
    registry.register(PeerAddr { ip: 1, port: 80 }, 1);
    registry.register(PeerAddr { ip: 2, port: 80 }, 2);
    registry.register(PeerAddr { ip: 1, port: 81 }, 3);
    assert_eq!(registry.len(), 3);
    assert_eq!(registry.get(&PeerAddr { ip: 2, port: 80 }), Some(2));
    assert_eq!(registry.get(&PeerAddr { ip: 2, port: 81 }), None);
}

#[test]
fn unregister_removes_and_hands_back_the_handle() {
    let mut registry = ClientRegistry::new();
    registry.register(addr(1), 10);
    registry.register(addr(2), 20);
    assert_eq!(registry.unregister(&addr(1)), Some(10));
    assert_eq!(registry.snapshot(), vec![entry(2, 20)]);
    assert_eq!(registry.get(&addr(1)), None);
}

#[test]
fn unregister_twice_changes_nothing_the_second_time() {
    let mut registry = ClientRegistry::new();
    registry.register(addr(1), 10);
    registry.register(addr(2), 20);
    registry.unregister(&addr(2));
    let once = registry.snapshot();
    assert_eq!(registry.unregister(&addr(2)), None);
    assert_eq!(registry.snapshot(), once);
    assert_eq!(once, vec![entry(1, 10)]);
}

#[test]
fn unregister_of_an_unknown_address_changes_nothing() {
    let mut registry = ClientRegistry::new();
    assert_eq!(registry.unregister(&addr(9)), None);
    registry.register(addr(1), 10);
    assert_eq!(registry.unregister(&addr(9)), None);
    assert_eq!(registry.snapshot(), vec![entry(1, 10)]);
}

#[test]
fn snapshot_is_untouched_by_later_changes() {
    let mut registry = ClientRegistry::new();
    registry.register(addr(1), 10);
    registry.register(addr(2), 20);
    let snapshot = registry.snapshot();
    registry.unregister(&addr(1));
    registry.register(addr(3), 30);
    assert_eq!(snapshot, vec![entry(1, 10), entry(2, 20)]);
    assert_eq!(registry.snapshot(), vec![entry(2, 20), entry(3, 30)]);
}

#[test]
fn others_leaves_out_one_address() {
    let mut registry = ClientRegistry::new();
    registry.register(addr(1), 10);
    registry.register(addr(2), 20);
    registry.register(addr(3), 30);
    assert_eq!(registry.others(&addr(2)), vec![entry(1, 10), entry(3, 30)]);
    assert_eq!(registry.others(&addr(9)), registry.snapshot());
}

#[test]
fn evict_takes_out_the_listed_addresses() {
    let mut registry = ClientRegistry::new();
    for port in 1..=5 {
        registry.register(addr(port), port as u64);
    }
    let evicted = registry.evict(&vec![addr(4), addr(2), addr(9), addr(4)]);
    assert_eq!(evicted, vec![entry(2, 2), entry(4, 4)]);
    assert_eq!(registry.snapshot(), vec![entry(1, 1), entry(3, 3), entry(5, 5)]);
    assert_eq!(registry.evict(&vec![]), vec![]);
    assert_eq!(registry.len(), 3);
}
