//! The device registry.

use sandstar_drivers::bacnet::{DeviceInfo, DeviceRegistry, SocketAddress};

fn v4(a: u8, b: u8, c: u8, d: u8, port: u16) -> SocketAddress {
    SocketAddress::V4 { octets: u32::from_be_bytes([a, b, c, d]), port }
}

fn make_device(instance: u32, port: u16) -> DeviceInfo {
    DeviceInfo {
        instance,
        addr: v4(192, 168, 1, instance as u8, port),
        max_apdu: 1476,
        vendor_id: 8,
        segmentation: 0,
    }
}

#[test]
fn registry_starts_empty() {
    let r = DeviceRegistry::new();
    assert!(r.is_empty());
    assert_eq!(r.len(), 0);
}

#[test]
fn insert_and_get_works() {
    let mut r = DeviceRegistry::new();
    r.insert(make_device(42, 47808));
    assert_eq!(r.len(), 1);
    assert!(!r.is_empty());
    let d = r.get(42).expect("device 42 should be present");
    assert_eq!(d.instance, 42);
    assert_eq!(d.max_apdu, 1476);
}

#[test]
fn get_missing_returns_none() {
    let r = DeviceRegistry::new();
    assert!(r.get(999).is_none());
}

#[test]
fn bulk_insert_adds_multiple() {
    let mut r = DeviceRegistry::new();
    r.bulk_insert(vec![
        make_device(1, 47808),
        make_device(2, 47808),
        make_device(3, 47808),
    ]);
    assert_eq!(r.len(), 3);
    assert!(r.get(1).is_some());
    assert!(r.get(2).is_some());
    assert!(r.get(3).is_some());
}

#[test]
fn all_returns_all_devices() {
    let mut r = DeviceRegistry::new();
    r.bulk_insert(vec![make_device(7, 47808), make_device(8, 47808)]);
    let all = r.all();
    assert_eq!(all.len(), 2);
}

#[test]
fn duplicate_insert_overwrites() {
    let mut r = DeviceRegistry::new();
    r.insert(make_device(10, 47808));
    // Overwrite with a different port to confirm replacement.
    let updated = DeviceInfo {
        instance: 10,
        addr: v4(10, 0, 0, 1, 9999),
        max_apdu: 480,
        vendor_id: 15,
        segmentation: 3,
    };
    r.insert(updated);
    assert_eq!(r.len(), 1, "should still be 1 entry after overwrite");
    let d = r.get(10).unwrap();
    assert_eq!(d.addr.port(), 9999, "should reflect the updated entry");
    assert_eq!(d.max_apdu, 480);
}
