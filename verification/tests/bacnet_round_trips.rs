//! What is encoded is decoded again, and what cannot be decoded is ignored.

use sandstar_drivers::bacnet::discovery::collect_i_am;
use sandstar_drivers::bacnet::frame::{
    decode_bvll_result, decode_packet, encode_error_pdu, encode_read_property,
    encode_read_property_ack, encode_read_property_ack_multi, encode_read_property_multiple,
    encode_read_property_multiple_ack, encode_simple_ack, encode_subscribe_cov, encode_who_is,
    encode_write_property, received_apdu, Apdu, RpmRequestSpec, RpmResult,
};
use sandstar_drivers::bacnet::value::{decode_application_tag, encode_unsigned, BacnetValue};
use sandstar_drivers::bacnet::wire::{pack_object_id, unpack_object_id};
use sandstar_drivers::bacnet::{BacnetError, DeviceRegistry, SocketAddress};

fn apdu_of(packet: &[u8]) -> Apdu {
    decode_packet(packet).unwrap().1
}

fn text(s: &str) -> BacnetValue {
    BacnetValue::CharacterString(s.to_string())
}

fn spec(instance: u32, property_id: u32, array_index: Option<u32>) -> RpmRequestSpec {
    RpmRequestSpec { object_type: 2, instance, property_id, array_index }
}

fn result(instance: u32, property_id: u32, value: Result<BacnetValue, (u32, u32)>) -> RpmResult {
    RpmResult { object_type: 2, instance, property_id, array_index: None, value }
}

#[test]
fn text_that_is_not_utf8_is_replaced() {
    let (v, n) = decode_application_tag(&[0x74, 0x00, b'a', 0xFF, b'b']).unwrap();
    assert_eq!(v, text("a\u{FFFD}b"));
    assert_eq!(n, 5);
    let (v, n) = decode_application_tag(&[0x73, 0x00, 0xC3, 0xA9]).unwrap();
    assert_eq!(v, text("\u{E9}"));
    assert_eq!(n, 4);
}

#[test]
fn values_in_an_acknowledgement_come_back() {
    let long = "x".repeat(300);
    let values = vec![
        BacnetValue::Null,
        BacnetValue::Boolean(true),
        BacnetValue::Unsigned(7),
        BacnetValue::Unsigned(1476),
        BacnetValue::Unsigned(70_000),
        BacnetValue::Real(21.5f32.to_bits()),
        BacnetValue::Enumerated(3),
        BacnetValue::Enumerated(300),
        BacnetValue::ObjectId { object_type: 8, instance: 4_194_302 },
        text("zone temperature"),
        text("ab"),
        text(""),
        text(&long),
    ];
    let packet = encode_read_property_ack_multi(9, 8, 1234, 76, &values);
    assert_eq!(
        apdu_of(&packet),
        Apdu::ReadPropertyAck {
            invoke_id: 9,
            object_type: 8,
            instance: 1234,
            property_id: 76,
            value: BacnetValue::Array(values),
        }
    );
}

#[test]
fn single_value_in_an_acknowledgement_stands_for_itself() {
    for value in [BacnetValue::Real(1.5f32.to_bits()), BacnetValue::Unsigned(70_000)] {
        let packet = encode_read_property_ack(1, 0, 2, 85, &value);
        match apdu_of(&packet) {
            Apdu::ReadPropertyAck { value: v, .. } => assert_eq!(v, value),
            other => panic!("expected an acknowledgement, got {other:?}"),
        }
    }
    let packet = encode_read_property_ack_multi(1, 0, 2, 85, &[]);
    match apdu_of(&packet) {
        Apdu::ReadPropertyAck { value: v, .. } => assert_eq!(v, BacnetValue::Array(vec![])),
        other => panic!("expected an acknowledgement, got {other:?}"),
    }
}

#[test]
fn other_kinds_of_value_are_acknowledged_as_zero() {
    let packet = encode_read_property_ack(1, 0, 2, 77, &text("name"));
    match apdu_of(&packet) {
        Apdu::ReadPropertyAck { value, .. } => assert_eq!(value, BacnetValue::Real(0)),
        other => panic!("expected an acknowledgement, got {other:?}"),
    }
}

#[test]
fn unsigned_numbers_of_every_width_come_back() {
    for n in [0, 255, 256, 65_535, 65_536, 0xFF_FFFF, 0x100_0000, u32::MAX] {
        let bytes = encode_unsigned(n);
        assert_eq!(
            decode_application_tag(&bytes).unwrap(),
            (BacnetValue::Unsigned(n), bytes.len())
        );
    }
}

#[test]
fn requests_come_back() {
    let packet = encode_who_is(Some(10), Some(70_000));
    assert_eq!(apdu_of(&packet), Apdu::WhoIs { low_limit: Some(10), high_limit: Some(70_000) });
    let packet = encode_who_is(Some(10), None);
    assert_eq!(apdu_of(&packet), Apdu::WhoIs { low_limit: None, high_limit: None });

    let packet = encode_read_property(3, 1, 77, 87, Some(16));
    assert_eq!(
        apdu_of(&packet),
        Apdu::ReadPropertyRequest {
            invoke_id: 3,
            object_type: 1,
            instance: 77,
            property_id: 87,
            array_index: Some(16),
        }
    );

    let value = BacnetValue::Real(50.0f32.to_bits());
    let packet = encode_write_property(4, 1, 77, 85, &value, Some(2), Some(8));
    assert_eq!(
        apdu_of(&packet),
        Apdu::WritePropertyRequest {
            invoke_id: 4,
            object_type: 1,
            instance: 77,
            property_id: 85,
            array_index: Some(2),
            value: BacnetValue::Real(50.0f32.to_bits()),
            priority: Some(8),
        }
    );
}

#[test]
fn errors_and_simple_acknowledgements_come_back() {
    for (class, code) in [(2, 31), (300, 65_535)] {
        assert_eq!(
            apdu_of(&encode_error_pdu(7, 0x0C, class, code)),
            Apdu::Error { invoke_id: 7, service_choice: 0x0C, error_class: class, error_code: code }
        );
    }
    assert_eq!(
        apdu_of(&encode_simple_ack(200, 0x0F)),
        Apdu::SimpleAck { invoke_id: 200, service_choice: 0x0F }
    );
}

#[test]
fn subscription_is_kept_as_it_is() {
    let packet = encode_subscribe_cov(6, 1, 0, 5, Some(false), Some(300));
    assert_eq!(
        apdu_of(&packet),
        Apdu::Other { pdu_type: 0x00, invoke_id: 6, data: packet[6..].to_vec() }
    );
}

#[test]
fn reads_of_several_objects_are_grouped() {
    let asked = [spec(1, 85, None), spec(2, 85, None), spec(1, 77, Some(3)), spec(2, 28, None)];
    match apdu_of(&encode_read_property_multiple(5, &asked)) {
        Apdu::ReadPropertyMultipleRequest { invoke_id, specs } => {
            assert_eq!(invoke_id, 5);
            assert_eq!(specs, vec![asked[0], asked[2], asked[1], asked[3]]);
        }
        other => panic!("expected a request, got {other:?}"),
    }

    let answers = vec![
        result(1, 85, Ok(BacnetValue::Real(1.0f32.to_bits()))),
        result(2, 85, Err((2, 31))),
        result(1, 77, Ok(text("fan"))),
    ];
    match apdu_of(&encode_read_property_multiple_ack(5, &answers)) {
        Apdu::ReadPropertyMultipleAck { invoke_id, results } => {
            assert_eq!(invoke_id, 5);
            assert_eq!(results.len(), 3);
            assert_eq!(results[0], answers[0]);
            assert_eq!(results[1], answers[2]);
            assert_eq!(results[2], answers[1]);
        }
        other => panic!("expected an acknowledgement, got {other:?}"),
    }
}

#[test]
fn object_identifier_keeps_ten_and_22_bits() {
    assert_eq!(unpack_object_id(pack_object_id(8, 4_194_303)), (8, 4_194_303));
    assert_eq!(unpack_object_id(pack_object_id(1023, 0)), (1023, 0));
    assert_eq!(unpack_object_id(pack_object_id(1024, 4_194_304)), (0, 0));
}

#[test]
fn registration_results_are_read() {
    assert_eq!(decode_bvll_result(&[0x81, 0x00, 0x00, 0x06, 0x00, 0x00]).unwrap(), 0);
    assert_eq!(decode_bvll_result(&[0x81, 0x00, 0x00, 0x06, 0x00, 0x30]).unwrap(), 0x30);
    assert!(decode_bvll_result(&[0x81, 0x0A, 0x00, 0x06, 0x00, 0x00]).is_err());
    assert!(decode_bvll_result(&[0x81, 0x00, 0x00, 0x06]).is_err());
}

#[test]
fn noise_is_not_an_apdu() {
    assert_eq!(received_apdu(&[]), None);
    assert_eq!(received_apdu(&[0x81, 0x0A, 0x00, 0x03]), None);
    assert_eq!(received_apdu(&[0x82, 0x0A, 0x00, 0x04]), None);
    assert_eq!(received_apdu(&[0x81, 0x0A, 0x00, 0x04]), None);
    assert!(received_apdu(&encode_simple_ack(1, 0x0F)).is_some());
    match decode_packet(&[0x81, 0x0A, 0x00, 0x06, 0x02, 0x00]) {
        Err(e) => assert_eq!(e.to_string(), "malformed frame: NPDU version 2 != 1"),
        Ok(_) => panic!("expected an error"),
    }
    assert!(matches!(decode_packet(&[0x81]), Err(BacnetError::MalformedFrame(_))));
    match decode_packet(&[0x81, 0x0B, 0x00, 0x00]) {
        Err(e) => assert_eq!(
            e.to_string(),
            "malformed frame: BVLL stated length does not cover the header"
        ),
        Ok(_) => panic!("expected an error"),
    }
    assert_eq!(received_apdu(&[0x81, 0x0B, 0x00, 0x00]), None);
}

#[test]
fn devices_are_collected_from_announcements() {
    let addr = |port: u16| SocketAddress::V4 { octets: 0x7F00_0001, port };
    let i_am = vec![
        0x81, 0x0B, 0x00, 0x14, 0x01, 0x00, 0x10, 0x00, 0xC4, 0x02, 0x00, 0x04, 0xD2, 0x22, 0x05,
        0xC4, 0x91, 0x03, 0x21, 0x08,
    ];
    let datagrams = vec![
        (addr(1), vec![1, 2, 3]),
        (addr(2), i_am.clone()),
        (addr(3), encode_who_is(None, None)),
        (addr(4), i_am),
    ];
    let devices = collect_i_am(&datagrams);
    assert_eq!(devices.len(), 2);
    assert_eq!(devices[0].instance, 1234);
    assert_eq!(devices[0].addr, addr(2));
    assert_eq!(devices[0].max_apdu, 1476);
    assert_eq!(devices[0].segmentation, 3);
    assert_eq!(devices[0].vendor_id, 8);
    assert_eq!(devices[1].addr, addr(4));

    // The registry keeps the later announcement of a device.
    let mut registry = DeviceRegistry::new();
    registry.bulk_insert(devices);
    assert_eq!(registry.len(), 1);
    assert_eq!(registry.get(1234).unwrap().addr, addr(4));
}

#[test]
fn value_ignores_what_follows_it() {
    let values: Vec<Vec<u8>> = vec![
        vec![0x00],
        vec![0x22, 1, 2],
        vec![0x44, 0x41, 0x20, 0, 0],
        vec![0x65, 3, 7, 8, 9],
        vec![0x75, 3, 0, b'o', b'k'],
        vec![0x0A, 5, 6],
        vec![0xC4, 2, 0, 0, 1],
    ];
    for bytes in values {
        let alone = decode_application_tag(&bytes).unwrap();
        assert_eq!(alone.1, bytes.len());
        for tail in [vec![0x00], vec![0xFF, 0xFF, 0xFF, 0xFF, 0xFF], vec![0x3E, 0x1F]] {
            let mut longer = bytes.clone();
            longer.extend(tail);
            assert_eq!(decode_application_tag(&longer).unwrap(), alone);
        }
    }
}

#[test]
fn grouped_request_keeps_its_order() {
    let mixed = vec![spec(1, 85, None), spec(2, 85, None), spec(1, 77, Some(3))];
    let grouped = vec![spec(1, 85, None), spec(1, 77, Some(3)), spec(2, 85, None)];
    assert_eq!(
        encode_read_property_multiple(5, &mixed),
        encode_read_property_multiple(5, &grouped)
    );
    match apdu_of(&encode_read_property_multiple(5, &grouped)) {
        Apdu::ReadPropertyMultipleRequest { specs, .. } => assert_eq!(specs, grouped),
        other => panic!("expected a request, got {other:?}"),
    }
}
