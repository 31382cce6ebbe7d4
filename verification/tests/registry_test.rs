use rusty_socket::{Connection, DataFrame, OpCode, Registry, RsError};
use std::cell::RefCell;

struct Sink {
    open: bool,
    received: RefCell<Vec<Vec<u8>>>,
}

fn sink(open: bool) -> Sink {
    Sink { open, received: RefCell::new(Vec::new()) }
}

fn write(sink: &Sink, bytes: &[u8]) -> bool {
    if sink.open {
        sink.received.borrow_mut().push(bytes.to_vec());
    }
    sink.open
}

#[test]
fn new_registry_is_empty() {
    let registry: Registry<u8> = Registry::new();

    assert_eq!(registry.len(), 0);
    assert!(registry.is_empty());
    assert!(!registry.contains(0));
}

#[test]
fn registering_gives_growing_identifiers() {
    let mut registry: Registry<&str> = Registry::new();

    assert_eq!(registry.register("a"), Ok(0));
    assert_eq!(registry.register("b"), Ok(1));
    assert_eq!(registry.register("c"), Ok(2));
    assert_eq!(registry.len(), 3);
    assert!(!registry.is_empty());
    assert_eq!(registry.id_at(0), 0);
    assert_eq!(registry.id_at(2), 2);
    assert_eq!(*registry.handle_at(1), "b");
    assert!(registry.contains(1));
    assert!(!registry.contains(3));
}

#[test]
fn deregistering_takes_one_connection_out() {
    let mut registry: Registry<&str> = Registry::new();
    registry.register("a").unwrap();
    registry.register("b").unwrap();
    registry.register("c").unwrap();

    assert_eq!(registry.deregister(1), Some("b"));
    assert_eq!(registry.len(), 2);
    assert!(!registry.contains(1));
    assert_eq!(registry.id_at(0), 0);
    assert_eq!(registry.id_at(1), 2);
    assert_eq!(*registry.handle_at(1), "c");

    assert_eq!(registry.deregister(1), None);
    assert_eq!(registry.deregister(7), None);
    assert_eq!(registry.len(), 2);
}

#[test]
fn identifiers_are_not_given_out_again() {
    let mut registry: Registry<&str> = Registry::new();
    registry.register("a").unwrap();
    registry.register("b").unwrap();
    assert_eq!(registry.deregister(1), Some("b"));
    assert_eq!(registry.deregister(0), Some("a"));
    assert!(registry.is_empty());

    assert_eq!(registry.register("c"), Ok(2));
    assert_eq!(registry.id_at(0), 2);
}

#[test]
fn broadcast_reaches_every_connection() {
    let mut registry: Registry<Sink> = Registry::new();
    for _ in 0..4 {
        assert!(registry.register(sink(true)).is_ok());
    }
    let frame = Connection::relay(&[0x81, 0x02, b'h', b'i']).unwrap();

    let delivered = registry.broadcast(&frame, write);

    assert_eq!(delivered, vec![true, true, true, true]);
    for at in 0..4 {
        assert_eq!(*registry.handle_at(at).received.borrow(), vec![frame.clone()]);
    }
}

#[test]
fn broadcast_goes_on_after_a_failed_write() {
    let mut registry: Registry<Sink> = Registry::new();
    registry.register(sink(true)).ok();
    registry.register(sink(false)).ok();
    registry.register(sink(true)).ok();
    registry.register(sink(false)).ok();
    registry.register(sink(true)).ok();
    let frame = vec![0x81, 0x03, b'a', b'b', b'c'];

    let delivered = registry.broadcast(&frame, write);

    assert_eq!(delivered, vec![true, false, true, false, true]);
    for at in [0usize, 2, 4] {
        assert_eq!(*registry.handle_at(at).received.borrow(), vec![frame.clone()]);
    }
    for at in [1usize, 3] {
        assert!(registry.handle_at(at).received.borrow().is_empty());
    }
}

#[test]
fn failed_connections_can_be_taken_out_after_a_broadcast() {
    let mut registry: Registry<Sink> = Registry::new();
    registry.register(sink(true)).ok();
    registry.register(sink(false)).ok();
    registry.register(sink(true)).ok();

    let delivered = registry.broadcast(b"x", write);
    let failed: Vec<u64> = (0..registry.len())
        .filter(|at| !delivered[*at])
        .map(|at| registry.id_at(at))
        .collect();
    for id in failed {
        assert!(registry.deregister(id).is_some());
    }

    assert_eq!(registry.len(), 2);
    assert_eq!(registry.broadcast(b"y", write), vec![true, true]);
    assert_eq!(registry.handle_at(0).received.borrow().len(), 2);
}

#[test]
fn broadcast_to_nobody_delivers_nothing() {
    let registry: Registry<Sink> = Registry::new();
    assert!(registry.broadcast(b"x", write).is_empty());
}

#[test]
fn relay_sends_the_payload_on_as_unmasked_text() {
    let masked = [0x81, 0x85, 0x37, 0xfa, 0x21, 0x3d, 0x7f, 0x9f, 0x4d, 0x51, 0x58];

    assert_eq!(
        Connection::relay(&masked),
        Ok(vec![0x81, 0x05, 0x48, 0x65, 0x6c, 0x6c, 0x6f])
    );
}

#[test]
fn relay_turns_any_frame_into_a_text_frame() {
    let binary = DataFrame::from_data(&[1, 2, 3], OpCode::Binary, true).unwrap().to_bytes();

    assert_eq!(Connection::relay(&binary), Ok(vec![0x81, 0x03, 1, 2, 3]));
}

#[test]
fn relay_hands_back_the_decoding_error() {
    assert_eq!(Connection::relay(&[]), Err(RsError::IncompleteData));
    assert_eq!(Connection::relay(&[0x81]), Err(RsError::IncompleteData));
    assert_eq!(Connection::relay(&[0x01, 0x00]), Err(RsError::FragmentationNotSupported));
    assert_eq!(Connection::relay(&[0x8b, 0x00]), Err(RsError::InvalidOpCode));
    assert_eq!(Connection::relay(&[0x81, 0x05, b'H']), Err(RsError::IncompleteData));
}
