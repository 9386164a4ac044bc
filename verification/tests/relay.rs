use chat_lib::message::MessageType;
use chat_lib::registry::{ClientRegistry, ConnectionEntry, PeerAddr};
use chat_lib::relay::{broadcast, evict_failed, Delivery};

const A: PeerAddr = PeerAddr { ip: 1, port: 1000 };
const B: PeerAddr = PeerAddr { ip: 2, port: 2000 };
const C: PeerAddr = PeerAddr { ip: 3, port: 3000 };

fn registry_abc() -> ClientRegistry {
    let mut registry = ClientRegistry::new();
    registry.register(A, 1);
    registry.register(B, 2);
    registry.register(C, 3);
    registry
}

fn entry(addr: PeerAddr, handle: u64) -> ConnectionEntry {
    ConnectionEntry { addr, handle }
}

#[test]
fn sender_gets_nothing_and_the_others_one_copy_each() {
    let registry = registry_abc();
    let message = MessageType::Text("hi all".to_string());
    let plan = broadcast(&registry, &A, &message).unwrap();
    assert_eq!(plan.targets, vec![entry(B, 2), entry(C, 3)]);
    let mut frame = Vec::new();
    assert_eq!(message.send_message(&mut frame), Ok(()));
    assert_eq!(plan.frame, frame);
    assert_eq!(MessageType::receive_message(&plan.frame), Ok(message));
}

#[test]
fn broadcast_changes_nothing_in_the_registry() {
    let registry = registry_abc();
    let before = registry.snapshot();
    assert!(broadcast(&registry, &B, &MessageType::Image(vec![1, 2])).is_ok());
    assert_eq!(registry.snapshot(), before);
}

#[test]
fn unknown_sender_reaches_everyone() {
    let registry = registry_abc();
    let stranger = PeerAddr { ip: 9, port: 9 };
    let plan = broadcast(&registry, &stranger, &MessageType::Text("x".to_string())).unwrap();
    assert_eq!(plan.targets, registry.snapshot());
}

#[test]
fn lone_sender_has_no_targets() {
    let mut registry = ClientRegistry::new();
    registry.register(A, 1);
    let plan = broadcast(&registry, &A, &MessageType::Text("x".to_string())).unwrap();
    assert_eq!(plan.targets, vec![]);
}

#[test]
fn dead_peer_is_evicted_and_the_others_are_served() {
    let mut registry = registry_abc();
    let plan = broadcast(&registry, &A, &MessageType::Text("hi".to_string())).unwrap();
    let outcomes: Vec<Delivery> = plan
        .targets
        .iter()
        .map(|target| Delivery { addr: target.addr, delivered: target.addr != B })
        .collect();
    assert_eq!(outcomes.len(), 2);
    assert!(outcomes.contains(&Delivery { addr: C, delivered: true }));
    let evicted = evict_failed(&mut registry, &A, &outcomes);
    assert_eq!(evicted, vec![entry(B, 2)]);
    assert_eq!(registry.snapshot(), vec![entry(A, 1), entry(C, 3)]);
    assert_eq!(registry.get(&B), None);
}

#[test]
fn no_failure_evicts_nobody() {
    let mut registry = registry_abc();
    let outcomes = vec![Delivery { addr: B, delivered: true }, Delivery { addr: C, delivered: true }];
    assert_eq!(evict_failed(&mut registry, &A, &outcomes), vec![]);
    assert_eq!(registry.len(), 3);
    assert_eq!(evict_failed(&mut registry, &A, &vec![]), vec![]);
    assert_eq!(registry.len(), 3);
}

#[test]
fn every_failure_is_evicted() {
    let mut registry = registry_abc();
    let outcomes = vec![
        Delivery { addr: C, delivered: false },
        Delivery { addr: B, delivered: false },
        Delivery { addr: C, delivered: false },
    ];
    assert_eq!(evict_failed(&mut registry, &A, &outcomes), vec![entry(B, 2), entry(C, 3)]);
    assert_eq!(registry.snapshot(), vec![entry(A, 1)]);
}

#[test]
fn one_failed_write_is_enough_to_evict() {
    let mut registry = registry_abc();
    let outcomes = vec![Delivery { addr: B, delivered: true }, Delivery { addr: B, delivered: false }];
    assert_eq!(evict_failed(&mut registry, &A, &outcomes), vec![entry(B, 2)]);
}

#[test]
fn sender_is_never_evicted_by_its_own_broadcast() {
    let mut registry = registry_abc();
    let outcomes = vec![Delivery { addr: A, delivered: false }, Delivery { addr: C, delivered: false }];
    assert_eq!(evict_failed(&mut registry, &A, &outcomes), vec![entry(C, 3)]);
    assert_eq!(registry.snapshot(), vec![entry(A, 1), entry(B, 2)]);
}

#[test]
fn failure_of_an_unknown_address_changes_nothing() {
    let mut registry = registry_abc();
    let outcomes = vec![Delivery { addr: PeerAddr { ip: 9, port: 9 }, delivered: false }];
    assert_eq!(evict_failed(&mut registry, &A, &outcomes), vec![]);
    assert_eq!(registry.len(), 3);
}
