use std::cell::RefCell;
use tcp_relay::registry::{Delivery, PeerRegistry, RegistryError};

type Outbox = RefCell<Vec<Vec<u8>>>;

struct Line {
    broken: bool,
    outbox: Outbox,
}

fn line(broken: bool) -> Line {
    Line { broken, outbox: RefCell::new(Vec::new()) }
}

fn write_to(line: &Line, message: &[u8]) -> bool {
    if line.broken {
        false
    } else {
        line.outbox.borrow_mut().push(message.to_vec());
        true
    }
}

fn received(registry: &PeerRegistry<Line>, id: u64) -> Vec<Vec<u8>> {
    registry.get(id).unwrap().handle.outbox.borrow().clone()
}

#[test]
fn identifiers_start_at_one_and_grow() {
    let mut registry: PeerRegistry<()> = PeerRegistry::new();
    assert!(registry.is_empty());
    assert_eq!(registry.register("10.0.0.1:5000".to_string(), ()), Ok(1));
    assert_eq!(registry.register("10.0.0.2:5000".to_string(), ()), Ok(2));
    assert_eq!(registry.register("10.0.0.3:5000".to_string(), ()), Ok(3));
    assert_eq!(registry.len(), 3);
    assert_eq!(registry.ids(), vec![1, 2, 3]);
    let second = registry.get(2).unwrap();
    assert_eq!(second.id, 2);
    assert_eq!(second.addr, "10.0.0.2:5000");
    assert!(!second.failed);
}

#[test]
fn identifiers_are_never_given_out_twice() {
    let mut registry: PeerRegistry<()> = PeerRegistry::new();
    assert_eq!(registry.register("a".to_string(), ()), Ok(1));
    assert_eq!(registry.unregister(1).map(|peer| peer.id), Some(1));
    assert_eq!(registry.register("b".to_string(), ()), Ok(2));
    assert_eq!(registry.unregister(2).map(|peer| peer.addr), Some("b".to_string()));
    assert_eq!(registry.register("c".to_string(), ()), Ok(3));
    assert_eq!(registry.ids(), vec![3]);
}

#[test]
fn unregister_twice_is_no_error() {
    let mut registry: PeerRegistry<()> = PeerRegistry::new();
    registry.register("a".to_string(), ()).unwrap();
    registry.register("b".to_string(), ()).unwrap();
    assert!(registry.unregister(1).is_some());
    assert!(registry.unregister(1).is_none());
    assert!(registry.unregister(1).is_none());
    assert!(registry.unregister(99).is_none());
    assert_eq!(registry.ids(), vec![2]);
    assert!(!registry.contains(1));
    assert!(registry.contains(2));
    assert!(registry.get(1).is_none());
}

#[test]
fn content_is_what_was_registered_and_not_removed_in_any_order() {
    let mut early: PeerRegistry<()> = PeerRegistry::new();
    for _ in 0..5 {
        early.register("x".to_string(), ()).unwrap();
    }
    early.unregister(2);
    early.unregister(4);

    let mut interleaved: PeerRegistry<()> = PeerRegistry::new();
    interleaved.register("x".to_string(), ()).unwrap();
    interleaved.register("x".to_string(), ()).unwrap();
    interleaved.unregister(2);
    interleaved.register("x".to_string(), ()).unwrap();
    interleaved.register("x".to_string(), ()).unwrap();
    interleaved.unregister(4);
    interleaved.unregister(2);
    interleaved.register("x".to_string(), ()).unwrap();

    let mut late: PeerRegistry<()> = PeerRegistry::new();
    for _ in 0..5 {
        late.register("x".to_string(), ()).unwrap();
    }
    late.unregister(4);
    late.unregister(2);
    late.unregister(4);

    assert_eq!(early.ids(), vec![1, 3, 5]);
    assert_eq!(interleaved.ids(), vec![1, 3, 5]);
    assert_eq!(late.ids(), vec![1, 3, 5]);
}

#[test]
fn a_registry_without_identifiers_left_refuses() {
    let mut registry: PeerRegistry<()> = PeerRegistry::starting_at(u64::MAX - 1);
    assert_eq!(registry.register("a".to_string(), ()), Ok(u64::MAX - 1));
    assert_eq!(registry.register("b".to_string(), ()), Err(RegistryError::Exhausted));
    assert_eq!(registry.register("c".to_string(), ()), Err(RegistryError::Exhausted));
    assert_eq!(registry.ids(), vec![u64::MAX - 1]);
}

#[test]
fn a_registry_can_start_at_a_given_identifier() {
    let mut registry: PeerRegistry<()> = PeerRegistry::starting_at(40);
    assert_eq!(registry.register("a".to_string(), ()), Ok(40));
    let mut from_zero: PeerRegistry<()> = PeerRegistry::starting_at(0);
    assert_eq!(from_zero.register("a".to_string(), ()), Ok(1));
}

#[test]
fn broadcast_reaches_all_but_the_sender() {
    let mut registry: PeerRegistry<Line> = PeerRegistry::new();
    for _ in 0..4 {
        registry.register("peer".to_string(), line(false)).unwrap();
    }
    let outcomes = registry.broadcast(Some(2), b"hello", write_to);
    assert_eq!(
        outcomes,
        vec![
            Delivery { id: 1, delivered: true },
            Delivery { id: 3, delivered: true },
            Delivery { id: 4, delivered: true },
        ]
    );
    assert_eq!(received(&registry, 1), vec![b"hello".to_vec()]);
    assert_eq!(received(&registry, 2), Vec::<Vec<u8>>::new());
    assert_eq!(received(&registry, 3), vec![b"hello".to_vec()]);
    assert_eq!(received(&registry, 4), vec![b"hello".to_vec()]);
}

#[test]
fn broadcast_without_exception_reaches_all() {
    let mut registry: PeerRegistry<Line> = PeerRegistry::new();
    for _ in 0..3 {
        registry.register("peer".to_string(), line(false)).unwrap();
    }
    let outcomes = registry.broadcast(None, b"SERVER: hi", write_to);
    assert_eq!(outcomes.len(), 3);
    for id in 1..=3 {
        assert_eq!(received(&registry, id), vec![b"SERVER: hi".to_vec()]);
    }
    let nobody = registry.broadcast(Some(77), b"x", write_to);
    assert_eq!(nobody.len(), 3);
}

#[test]
fn one_failing_write_does_not_stop_the_broadcast() {
    let peers = 6;
    let mut registry: PeerRegistry<Line> = PeerRegistry::new();
    for id in 1..=peers {
        registry.register("peer".to_string(), line(id == 3)).unwrap();
    }
    let outcomes = registry.broadcast(None, b"news", write_to);
    assert_eq!(outcomes.len(), peers as usize);
    let delivered: Vec<u64> = outcomes.iter().filter(|d| d.delivered).map(|d| d.id).collect();
    assert_eq!(delivered, vec![1, 2, 4, 5, 6]);
    for id in [1, 2, 4, 5, 6] {
        assert_eq!(received(&registry, id), vec![b"news".to_vec()]);
        assert!(!registry.get(id).unwrap().failed);
    }
    assert!(registry.get(3).unwrap().failed);
    assert_eq!(registry.len(), peers as usize);
}

#[test]
fn failed_peers_are_removed_afterwards() {
    let mut registry: PeerRegistry<Line> = PeerRegistry::new();
    for id in 1..=5u64 {
        registry.register(format!("peer {}", id), line(id % 2 == 0)).unwrap();
    }
    assert!(registry.remove_failed().is_empty());
    registry.broadcast(Some(1), b"x", write_to);
    let removed: Vec<u64> = registry.remove_failed().into_iter().map(|peer| peer.id).collect();
    assert_eq!(removed, vec![2, 4]);
    assert_eq!(registry.ids(), vec![1, 3, 5]);
    assert!(registry.remove_failed().is_empty());
    assert_eq!(registry.register("late".to_string(), line(false)), Ok(6));
}

#[test]
fn broadcast_to_an_empty_registry_writes_nothing() {
    let mut registry: PeerRegistry<Line> = PeerRegistry::new();
    assert_eq!(registry.broadcast(None, b"x", write_to), Vec::new());
    registry.register("only".to_string(), line(false)).unwrap();
    assert_eq!(registry.broadcast(Some(1), b"x", write_to), Vec::new());
}
