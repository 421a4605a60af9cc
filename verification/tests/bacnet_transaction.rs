//! Invoke IDs of requests in flight.

use sandstar_drivers::bacnet::frame::Apdu;
use sandstar_drivers::bacnet::transaction::{TransactionTable, MAX_RETRIES};
use sandstar_drivers::bacnet::BacnetError;

fn dummy_apdu(invoke_id: u8) -> Apdu {
    Apdu::Other {
        pdu_type: 0x30,
        invoke_id,
        data: vec![],
    }
}

#[test]
fn allocate_starts_at_zero() {
    let mut t = TransactionTable::new();
    let (id, _rx) = t.allocate().expect("first allocation should succeed");
    assert_eq!(id, 0, "first invoke ID should be 0");
}

#[test]
fn allocate_returns_sequential_ids() {
    let mut t = TransactionTable::new();
    let ids: Vec<u8> = (0..5).map(|_| t.allocate().unwrap().0).collect();
    assert_eq!(ids, vec![0, 1, 2, 3, 4]);
}

#[test]
fn allocate_returns_none_when_all_256_in_flight() {
    let mut t = TransactionTable::new();
    // Hold all receivers so none are dropped (which would free the slot).
    let mut receivers = Vec::with_capacity(256);
    for _ in 0..256 {
        let (_, rx) = t.allocate().expect("should allocate 256 IDs");
        receivers.push(rx);
    }
    assert_eq!(t.pending_count(), 256);
    assert!(
        t.allocate().is_none(),
        "257th allocation should return None"
    );
}

#[test]
fn ids_wrap_around_at_255() {
    let mut t = TransactionTable::new();
    // Consume IDs 0-254, dispatch each immediately to free the slot.
    for expected_id in 0u8..=254 {
        let (id, _rx) = t.allocate().unwrap();
        assert_eq!(id, expected_id);
        t.dispatch(id, dummy_apdu(id));
    }
    // ID 255 next.
    let (id_255, _rx) = t.allocate().unwrap();
    assert_eq!(id_255, 255);
    t.dispatch(255, dummy_apdu(255));
    // After wrapping: next_id is now 0 and all prior slots are free.
    let (wrapped, _rx) = t.allocate().unwrap();
    assert_eq!(wrapped, 0, "should wrap back to 0");
}

#[test]
fn dispatch_routes_to_correct_waiter() {
    let mut t = TransactionTable::new();
    let (id, mut rx) = t.allocate().unwrap();
    t.dispatch(id, dummy_apdu(id));
    let result = rx.try_recv().expect("sender should not be dropped");
    match result {
        Ok(Apdu::Other { invoke_id, .. }) => assert_eq!(invoke_id, id),
        other => panic!("unexpected result: {other:?}"),
    }
}

#[test]
fn dispatch_unknown_id_is_silent() {
    let mut t = TransactionTable::new();
    // Dispatch for an ID that was never allocated — must not panic.
    t.dispatch(77, dummy_apdu(77));
    assert_eq!(t.pending_count(), 0);
}

#[test]
fn dispatch_removes_pending_entry() {
    let mut t = TransactionTable::new();
    let (id, _rx) = t.allocate().unwrap();
    assert_eq!(t.pending_count(), 1);
    t.dispatch(id, dummy_apdu(id));
    assert_eq!(t.pending_count(), 0);
}

#[test]
fn timeout_cancels_pending_request() {
    let mut t = TransactionTable::new();
    let (id, mut rx) = t.allocate().unwrap();
    t.timeout(id);
    let result = rx.try_recv().expect("sender should not be dropped");
    match result {
        Err(BacnetError::Timeout(retries)) => assert_eq!(retries, 3),
        other => panic!("expected Timeout, got {other:?}"),
    }
}

#[test]
fn timeout_unknown_id_is_silent() {
    let mut t = TransactionTable::new();
    t.timeout(200); // Never allocated — must not panic.
    assert_eq!(t.pending_count(), 0);
}

#[test]
fn timeout_removes_pending_entry() {
    let mut t = TransactionTable::new();
    let (id, _rx) = t.allocate().unwrap();
    assert_eq!(t.pending_count(), 1);
    t.timeout(id);
    assert_eq!(t.pending_count(), 0);
}

#[test]
fn freed_slot_can_be_reallocated() {
    let mut t = TransactionTable::new();
    let (id0, _rx0) = t.allocate().unwrap(); // ID 0
    let (id1, _rx1) = t.allocate().unwrap(); // ID 1

    // Free id0 via timeout.
    t.timeout(id0);

    // Allocate 254 more to exhaust IDs 2-255.
    for _ in 2u16..=255 {
        t.allocate().unwrap();
    }
    // All 255 slots (1 + 254) are taken; id0 is free.
    assert_eq!(t.pending_count(), 255);
    let (recycled, _rx) = t.allocate().expect("id0 slot should be reusable");
    assert_eq!(recycled, id0, "recycled slot should be id0");
    let _ = id1; // keep alive
}

#[test]
fn reply_and_channel_of_a_settled_request() {
    let mut t = TransactionTable::new();
    let (first, mut first_rx) = t.allocate().unwrap();
    let (second, mut second_rx) = t.allocate().unwrap();

    let (waiter, reply) = t.settle_response(second, dummy_apdu(second)).unwrap();
    assert_eq!(reply, Ok(dummy_apdu(second)));
    assert_eq!(t.pending_count(), 1);
    assert!(waiter.send(reply).is_ok());
    assert_eq!(second_rx.try_recv().unwrap(), Ok(dummy_apdu(second)));
    assert!(first_rx.try_recv().is_err());
    assert!(t.settle_response(second, dummy_apdu(second)).is_none());

    let (waiter, reply) = t.settle_timeout(first).unwrap();
    assert_eq!(reply, Err(BacnetError::Timeout(MAX_RETRIES)));
    assert!(waiter.send(reply).is_ok());
    assert_eq!(first_rx.try_recv().unwrap(), Err(BacnetError::Timeout(3)));
    assert!(t.settle_timeout(first).is_none());
    assert_eq!(t.pending_count(), 0);
}

#[test]
fn second_dispatch_wakes_nobody() {
    let mut t = TransactionTable::new();
    let (first, mut first_rx) = t.allocate().unwrap();
    let (second, mut second_rx) = t.allocate().unwrap();
    t.dispatch(second, dummy_apdu(second));
    t.dispatch(second, dummy_apdu(first));
    assert_eq!(second_rx.try_recv().unwrap(), Ok(dummy_apdu(second)));
    assert!(first_rx.try_recv().is_err());
    assert_eq!(t.pending_count(), 1);
}
