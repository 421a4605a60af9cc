//! The BACnet/IP packet codec, byte by byte.

use sandstar_drivers::bacnet::frame::{
    decode_apdu, decode_bvll_header, decode_npdu, decode_packet, encode_read_property,
    encode_read_property_ack, encode_read_property_ack_multi, encode_read_property_multiple,
    encode_read_property_multiple_ack, encode_who_is, encode_write_property, Apdu, RpmRequestSpec,
    RpmResult, BVLL_BROADCAST, BVLL_UNICAST, SVC_CONFIRMED_READ_PROPERTY, SVC_UNCONFIRMED_IAM,
    SVC_UNCONFIRMED_WHOIS,
};
use sandstar_drivers::bacnet::value::{decode_application_tag, BacnetValue};
use sandstar_drivers::bacnet::BacnetError;

fn single(v: f32) -> BacnetValue {
    BacnetValue::Real(v.to_bits())
}

/// The canonical Who-Is packet with no range must be exactly 8 bytes.
#[test]
fn encode_who_is_no_range_known_good() {
    let pkt = encode_who_is(None, None);
    assert_eq!(
        pkt,
        vec![0x81, 0x0B, 0x00, 0x08, 0x01, 0x00, 0x10, 0x08],
        "Who-Is (no range) known-good mismatch"
    );
}

/// Length field must equal actual Vec length.
#[test]
fn encode_who_is_length_field_correct_no_range() {
    let pkt = encode_who_is(None, None);
    let stated = u16::from_be_bytes([pkt[2], pkt[3]]) as usize;
    assert_eq!(stated, pkt.len());
}

/// Who-Is with range is longer than without, BVLL type is broadcast.
#[test]
fn encode_who_is_with_range_longer_and_broadcast() {
    let pkt = encode_who_is(Some(0), Some(127));
    assert!(pkt.len() > 8);
    let stated = u16::from_be_bytes([pkt[2], pkt[3]]) as usize;
    assert_eq!(stated, pkt.len());
    assert_eq!(pkt[1], BVLL_BROADCAST);
    assert_eq!(pkt[7], SVC_UNCONFIRMED_WHOIS);
}

/// Context tag 0 for low=0 must have correct tag byte and value.
#[test]
fn encode_who_is_range_context_tag_low_zero() {
    let pkt = encode_who_is(Some(0), Some(10));
    // After BVLL(4) + NPDU(2) + PDUtype(1) + svc(1) = index 8
    // (0<<4)|0x08|1 = 0x09
    assert_eq!(pkt[8], 0x09, "context tag 0, LVT=1");
    assert_eq!(pkt[9], 0x00, "low=0");
}

/// ReadProperty for AI-1, PresentValue: verify BVLL, NPDU, invoke_id, ObjectId.
#[test]
fn encode_read_property_ai1_present_value_structure() {
    let pkt = encode_read_property(5, 0, 1, 85, None);
    assert_eq!(pkt[0], 0x81);
    assert_eq!(pkt[1], BVLL_UNICAST);
    let stated = u16::from_be_bytes([pkt[2], pkt[3]]) as usize;
    assert_eq!(stated, pkt.len());
    assert_eq!(pkt[4], 0x01); // NPDU version
    assert_eq!(pkt[5], 0x00); // NPDU control
    assert_eq!(pkt[6], 0x00); // Confirmed-Request
    assert_eq!(pkt[7], 0x05); // max-segs/max-apdu
    assert_eq!(pkt[8], 5); // invoke_id
    assert_eq!(pkt[9], SVC_CONFIRMED_READ_PROPERTY);
    assert_eq!(pkt[10], 0x0C); // context tag 0, LVT=4
                               // AI(0) instance 1 → 0x00000001
    assert_eq!(&pkt[11..15], &[0x00, 0x00, 0x00, 0x01]);
}

/// ReadProperty for Device 1001, ObjectList (property 76).
#[test]
fn encode_read_property_device_1001_object_list() {
    let pkt = encode_read_property(1, 8, 1001, 76, None);
    let stated = u16::from_be_bytes([pkt[2], pkt[3]]) as usize;
    assert_eq!(stated, pkt.len());
    assert_eq!(pkt[8], 1); // invoke_id
    let raw = u32::from_be_bytes([pkt[11], pkt[12], pkt[13], pkt[14]]);
    assert_eq!(((raw >> 22) & 0x3FF) as u16, 8, "object_type Device");
    assert_eq!(raw & 0x003F_FFFF, 1001, "instance 1001");
}

/// ReadProperty with array_index is longer.
#[test]
fn encode_read_property_with_array_index_is_longer() {
    let without = encode_read_property(0, 8, 1, 76, None);
    let with_idx = encode_read_property(0, 8, 1, 76, Some(3));
    assert!(with_idx.len() > without.len());
    let stated = u16::from_be_bytes([with_idx[2], with_idx[3]]) as usize;
    assert_eq!(stated, with_idx.len());
}

/// Frame length field is always consistent — fuzz over several combinations.
#[test]
fn encode_read_property_length_consistent_various_params() {
    for &invoke_id in &[0u8, 1, 127, 255] {
        for &instance in &[0u32, 1, 100, 0x3F_FFFF] {
            let pkt = encode_read_property(invoke_id, 0, instance, 85, None);
            let stated = u16::from_be_bytes([pkt[2], pkt[3]]) as usize;
            assert_eq!(stated, pkt.len());
        }
    }
}

#[test]
fn decode_bvll_too_short_returns_error() {
    assert!(decode_bvll_header(&[0x81, 0x0B, 0x00]).is_err());
}

#[test]
fn decode_bvll_wrong_magic_returns_error() {
    assert!(decode_bvll_header(&[0x00, 0x0B, 0x00, 0x08]).is_err());
}

#[test]
fn decode_bvll_stated_length_exceeds_buffer_returns_error() {
    assert!(decode_bvll_header(&[0x81, 0x0B, 0x00, 0x64]).is_err());
}

#[test]
fn decode_bvll_broadcast_valid() {
    let pkt = encode_who_is(None, None);
    let hdr = decode_bvll_header(&pkt).unwrap();
    assert_eq!(hdr.bvll_type, BVLL_BROADCAST);
    assert_eq!(hdr.length as usize, pkt.len());
}

#[test]
fn decode_bvll_unicast_valid() {
    let pkt = encode_read_property(0, 0, 1, 85, None);
    let hdr = decode_bvll_header(&pkt).unwrap();
    assert_eq!(hdr.bvll_type, BVLL_UNICAST);
    assert_eq!(hdr.length as usize, pkt.len());
}

#[test]
fn decode_npdu_normal_consumed_2() {
    let (hdr, consumed) = decode_npdu(&[0x01, 0x00]).unwrap();
    assert_eq!(hdr.version, 1);
    assert_eq!(hdr.control, 0x00);
    assert_eq!(consumed, 2);
}

#[test]
fn decode_npdu_wrong_version_returns_error() {
    assert!(decode_npdu(&[0x02, 0x00]).is_err());
}

#[test]
fn decode_npdu_too_short_returns_error() {
    assert!(decode_npdu(&[0x01]).is_err());
}

/// Router hop (control bit 5): DNET(2)+DLEN(1)+DADR(1)+hop(1) = 5 extra bytes.
#[test]
fn decode_npdu_destination_specifier_skipped() {
    let data = [
        0x01, // version
        0x20, // control: destination specifier set
        0x00, 0x01, // DNET = 1
        0x01, // DLEN = 1
        0xAA, // DADR[0]
        0xFF, // hop count
    ];
    let (hdr, consumed) = decode_npdu(&data).unwrap();
    assert_eq!(hdr.control, 0x20);
    // 2 (fixed) + 2 (DNET) + 1 (DLEN) + 1 (DADR) + 1 (hop) = 7
    assert_eq!(consumed, 7);
}

#[test]
fn decode_npdu_destination_specifier_truncated_returns_error() {
    let data = [0x01, 0x20, 0x00]; // too short for router fields
    assert!(decode_npdu(&data).is_err());
}

/// Source specifier (control bit 3): SNET(2)+SLEN(1)+SADR(2) = 5 extra bytes.
#[test]
fn decode_npdu_source_specifier_skipped() {
    let data = [
        0x01, // version
        0x08, // control: source specifier set
        0x00, 0x01, // SNET = 1
        0x02, // SLEN = 2
        0xAA, 0xBB, // SADR[0..1]
    ];
    let (hdr, consumed) = decode_npdu(&data).unwrap();
    assert_eq!(hdr.control, 0x08);
    // 2 + 2 (SNET) + 1 (SLEN) + 2 (SADR) = 7
    assert_eq!(consumed, 7);
}

#[test]
fn round_trip_who_is_no_range() {
    let pkt = encode_who_is(None, None);
    let (npdu, apdu) = decode_packet(&pkt).unwrap();
    assert_eq!(npdu.version, 1);
    assert_eq!(
        apdu,
        Apdu::WhoIs {
            low_limit: None,
            high_limit: None
        }
    );
}

#[test]
fn round_trip_who_is_with_range() {
    let pkt = encode_who_is(Some(10), Some(200));
    let (_, apdu) = decode_packet(&pkt).unwrap();
    assert_eq!(
        apdu,
        Apdu::WhoIs {
            low_limit: Some(10),
            high_limit: Some(200),
        }
    );
}

#[test]
fn round_trip_who_is_zero_zero_range() {
    let pkt = encode_who_is(Some(0), Some(0));
    let (_, apdu) = decode_packet(&pkt).unwrap();
    assert_eq!(
        apdu,
        Apdu::WhoIs {
            low_limit: Some(0),
            high_limit: Some(0),
        }
    );
}

#[test]
fn round_trip_who_is_two_byte_range() {
    let pkt = encode_who_is(Some(256), Some(512));
    let (_, apdu) = decode_packet(&pkt).unwrap();
    assert_eq!(
        apdu,
        Apdu::WhoIs {
            low_limit: Some(256),
            high_limit: Some(512),
        }
    );
}

#[test]
fn round_trip_who_is_large_range() {
    let pkt = encode_who_is(Some(1000), Some(4_194_302));
    let (_, apdu) = decode_packet(&pkt).unwrap();
    assert_eq!(
        apdu,
        Apdu::WhoIs {
            low_limit: Some(1000),
            high_limit: Some(4_194_302),
        }
    );
}

#[test]
fn round_trip_read_property_request_ai1() {
    let pkt = encode_read_property(7, 0, 42, 85, None);
    let (_, apdu) = decode_packet(&pkt).unwrap();
    match apdu {
        Apdu::ReadPropertyRequest {
            invoke_id,
            object_type,
            instance,
            property_id,
            array_index,
        } => {
            assert_eq!(invoke_id, 7);
            assert_eq!(object_type, 0);
            assert_eq!(instance, 42);
            assert_eq!(property_id, 85);
            assert_eq!(array_index, None);
        }
        other => panic!("expected ReadPropertyRequest, got {other:?}"),
    }
}

#[test]
fn round_trip_read_property_with_array_index() {
    let pkt = encode_read_property(3, 8, 100, 76, Some(5));
    let (_, apdu) = decode_packet(&pkt).unwrap();
    match apdu {
        Apdu::ReadPropertyRequest { array_index, .. } => {
            assert_eq!(array_index, Some(5));
        }
        other => panic!("expected ReadPropertyRequest, got {other:?}"),
    }
}

#[test]
fn round_trip_read_property_ao0_present_value() {
    let pkt = encode_read_property(0, 1, 0, 85, None);
    let (_, apdu) = decode_packet(&pkt).unwrap();
    match apdu {
        Apdu::ReadPropertyRequest {
            invoke_id,
            object_type,
            instance,
            property_id,
            ..
        } => {
            assert_eq!(invoke_id, 0);
            assert_eq!(object_type, 1);
            assert_eq!(instance, 0);
            assert_eq!(property_id, 85);
        }
        other => panic!("unexpected: {other:?}"),
    }
}

#[test]
fn round_trip_read_property_max_instance() {
    let max = 0x3F_FFFFu32;
    let pkt = encode_read_property(255, 8, max, 75, None);
    let (_, apdu) = decode_packet(&pkt).unwrap();
    match apdu {
        Apdu::ReadPropertyRequest { instance, .. } => assert_eq!(instance, max),
        other => panic!("unexpected: {other:?}"),
    }
}

fn make_i_am_packet(device_instance: u32, max_apdu: u16, seg: u8, vendor: u16) -> Vec<u8> {
    let obj_id: u32 = (8u32 << 22) | device_instance;
    let mut pkt: Vec<u8> = vec![
        0x81,
        0x0B,
        0x00,
        0x00, // BVLL (length filled below)
        0x01,
        0x00, // NPDU
        0x10,
        SVC_UNCONFIRMED_IAM, // Unconfirmed-Req, I-Am
        0xC4,                // ObjectId: app tag 12, LVT=4
    ];
    pkt.extend_from_slice(&obj_id.to_be_bytes());
    // max-apdu
    if max_apdu <= 255 {
        pkt.push(0x21);
        pkt.push(max_apdu as u8);
    } else {
        pkt.push(0x22);
        pkt.extend_from_slice(&max_apdu.to_be_bytes());
    }
    // segmentation (Enumerated)
    pkt.push(0x91);
    pkt.push(seg);
    // vendor-id
    if vendor <= 255 {
        pkt.push(0x21);
        pkt.push(vendor as u8);
    } else {
        pkt.push(0x22);
        pkt.extend_from_slice(&vendor.to_be_bytes());
    }
    let len = pkt.len() as u16;
    pkt[2] = (len >> 8) as u8;
    pkt[3] = (len & 0xFF) as u8;
    pkt
}

#[test]
fn decode_i_am_device_389001() {
    let pkt = make_i_am_packet(389001, 1476, 3, 260);
    let (_, apdu) = decode_packet(&pkt).unwrap();
    match apdu {
        Apdu::IAm {
            device_instance,
            max_apdu,
            segmentation,
            vendor_id,
        } => {
            assert_eq!(device_instance, 389001);
            assert_eq!(max_apdu, 1476);
            assert_eq!(segmentation, 3);
            assert_eq!(vendor_id, 260);
        }
        other => panic!("expected IAm, got {other:?}"),
    }
}

#[test]
fn decode_i_am_small_device_instance() {
    let pkt = make_i_am_packet(1, 480, 0, 8);
    let (_, apdu) = decode_packet(&pkt).unwrap();
    match apdu {
        Apdu::IAm {
            device_instance,
            max_apdu,
            segmentation,
            vendor_id,
        } => {
            assert_eq!(device_instance, 1);
            assert_eq!(max_apdu, 480);
            assert_eq!(segmentation, 0);
            assert_eq!(vendor_id, 8);
        }
        other => panic!("expected IAm, got {other:?}"),
    }
}

fn make_read_property_ack(
    invoke_id: u8,
    object_type: u16,
    instance: u32,
    property_id: u32,
    value_bytes: &[u8],
) -> Vec<u8> {
    let raw_id: u32 = ((object_type as u32) << 22) | instance;
    let mut apdu_bytes: Vec<u8> = vec![
        0x30, invoke_id, 0x0C, // Complex-ACK, invoke, ReadProperty
        0x0C,
    ];
    apdu_bytes.extend_from_slice(&raw_id.to_be_bytes());
    // PropertyId as context tag 1
    if property_id <= 255 {
        apdu_bytes.push(0x19);
        apdu_bytes.push(property_id as u8);
    } else {
        apdu_bytes.push(0x1A);
        apdu_bytes.extend_from_slice(&(property_id as u16).to_be_bytes());
    }
    apdu_bytes.push(0x3E); // opening tag 3
    apdu_bytes.extend_from_slice(value_bytes);
    apdu_bytes.push(0x3F); // closing tag 3
    apdu_bytes
}

#[test]
fn decode_read_property_ack_real_72_5() {
    let real_bytes = 72.5f32.to_be_bytes();
    let mut val = vec![0x44]; // Real tag
    val.extend_from_slice(&real_bytes);
    let apdu_bytes = make_read_property_ack(5, 0, 1, 85, &val);
    let apdu = decode_apdu(&apdu_bytes).unwrap();
    match apdu {
        Apdu::ReadPropertyAck {
            invoke_id,
            object_type,
            instance,
            property_id,
            value,
        } => {
            assert_eq!(invoke_id, 5);
            assert_eq!(object_type, 0);
            assert_eq!(instance, 1);
            assert_eq!(property_id, 85);
            assert_eq!(value, single(72.5));
        }
        other => panic!("expected ReadPropertyAck, got {other:?}"),
    }
}

#[test]
fn decode_read_property_ack_boolean_true() {
    let val = [0x11]; // Boolean true
    let apdu_bytes = make_read_property_ack(2, 3, 5, 85, &val);
    let apdu = decode_apdu(&apdu_bytes).unwrap();
    match apdu {
        Apdu::ReadPropertyAck {
            value,
            object_type,
            instance,
            ..
        } => {
            assert_eq!(value, BacnetValue::Boolean(true));
            assert_eq!(object_type, 3); // BI
            assert_eq!(instance, 5);
        }
        other => panic!("expected ReadPropertyAck, got {other:?}"),
    }
}

#[test]
fn decode_read_property_ack_unsigned() {
    let val = [0x21, 0x42]; // Unsigned 66
    let apdu_bytes = make_read_property_ack(1, 0, 2, 85, &val);
    let apdu = decode_apdu(&apdu_bytes).unwrap();
    match apdu {
        Apdu::ReadPropertyAck { value, .. } => {
            assert_eq!(value, BacnetValue::Unsigned(0x42));
        }
        other => panic!("expected ReadPropertyAck, got {other:?}"),
    }
}

#[test]
fn decode_error_pdu_class2_code31() {
    let pkt = [
        0x50, 3, 0x0C, // Error, invoke=3, svc=ReadProperty
        0x91, 0x02, // error-class = Enumerated(2)
        0x91, 0x1F, // error-code = Enumerated(31)
    ];
    let apdu = decode_apdu(&pkt).unwrap();
    match apdu {
        Apdu::Error {
            invoke_id,
            service_choice,
            error_class,
            error_code,
        } => {
            assert_eq!(invoke_id, 3);
            assert_eq!(service_choice, 0x0C);
            assert_eq!(error_class, 2);
            assert_eq!(error_code, 31);
        }
        other => panic!("expected Error, got {other:?}"),
    }
}

#[test]
fn decode_error_pdu_too_short_returns_error() {
    assert!(decode_apdu(&[0x50, 1]).is_err());
}

#[test]
fn decode_packet_too_short_returns_error() {
    assert!(decode_packet(&[0x81, 0x0B, 0x00]).is_err());
}

#[test]
fn decode_packet_wrong_magic_returns_error() {
    let mut pkt = encode_who_is(None, None);
    pkt[0] = 0x00;
    assert!(decode_packet(&pkt).is_err());
}

#[test]
fn decode_apdu_empty_returns_error() {
    assert!(decode_apdu(&[]).is_err());
}

#[test]
fn decode_apdu_simple_ack_decodes_to_simple_ack_variant() {
    // Simple-ACK (0x20) is now decoded to Apdu::SimpleAck.
    let pkt = [0x20, 0x05, 0x0F];
    let apdu = decode_apdu(&pkt).unwrap();
    match apdu {
        Apdu::SimpleAck {
            invoke_id,
            service_choice,
        } => {
            assert_eq!(invoke_id, 0x05);
            assert_eq!(service_choice, 0x0F);
        }
        other => panic!("expected SimpleAck, got {other:?}"),
    }
}

#[test]
fn decode_apdu_unconfirmed_unknown_service_returns_other() {
    let pkt = [0x10, 0xFF]; // Unconfirmed-Req, unknown service
    let apdu = decode_apdu(&pkt).unwrap();
    assert!(matches!(apdu, Apdu::Other { .. }));
}

#[test]
fn decode_apdu_confirmed_unknown_service_returns_other() {
    let pkt = [0x00, 0x05, 3, 0xFF]; // Confirmed-Req, unknown service
    let apdu = decode_apdu(&pkt).unwrap();
    assert!(matches!(apdu, Apdu::Other { .. }));
}

#[test]
fn round_trip_read_property_av_units() {
    let pkt = encode_read_property(10, 2, 50, 103, None);
    let stated = u16::from_be_bytes([pkt[2], pkt[3]]) as usize;
    assert_eq!(stated, pkt.len());
    let (_, apdu) = decode_packet(&pkt).unwrap();
    match apdu {
        Apdu::ReadPropertyRequest {
            object_type,
            instance,
            property_id,
            ..
        } => {
            assert_eq!(object_type, 2);
            assert_eq!(instance, 50);
            assert_eq!(property_id, 103);
        }
        other => panic!("unexpected: {other:?}"),
    }
}

/// Hand-crafted I-Am packet for device 12345, max_apdu=1476, seg=3, vendor=8.
#[test]
fn decode_i_am_known_packet() {
    let device_instance = 12345u32;
    let obj_id_val: u32 = (8u32 << 22) | device_instance;
    let obj_id = obj_id_val.to_be_bytes();

    let mut apdu = vec![
        0x10,
        SVC_UNCONFIRMED_IAM, // Unconfirmed-Request, I-Am
        0xC4,
        obj_id[0],
        obj_id[1],
        obj_id[2],
        obj_id[3], // ObjectId app-tag 12, LVT=4
        0x22,
        0x05,
        0xC4, // max_apdu=1476 (Unsigned 2 bytes: 0x05C4)
        0x91,
        0x03, // segmentation=3 (Enumerated 1 byte)
        0x21,
        0x08, // vendor_id=8 (Unsigned 1 byte)
    ];

    // Wrap in BVLL + NPDU
    let total = (4 + 2 + apdu.len()) as u16;
    let mut packet = vec![
        0x81,
        0x0B,
        (total >> 8) as u8,
        (total & 0xFF) as u8,
        0x01,
        0x00,
    ];
    packet.append(&mut apdu);

    let (_, decoded) = decode_packet(&packet).expect("should decode");
    match decoded {
        Apdu::IAm {
            device_instance: di,
            max_apdu,
            segmentation,
            vendor_id,
        } => {
            assert_eq!(di, 12345);
            assert_eq!(max_apdu, 1476);
            assert_eq!(segmentation, 3);
            assert_eq!(vendor_id, 8);
        }
        other => panic!("expected IAm, got {:?}", other),
    }
}

/// Who-Is with full range [0, 4194302] round-trips cleanly.
#[test]
fn who_is_with_full_range_round_trip() {
    let encoded = encode_who_is(Some(0), Some(4_194_302));
    let (_, apdu) = decode_packet(&encoded).expect("should decode");
    match apdu {
        Apdu::WhoIs {
            low_limit,
            high_limit,
        } => {
            assert_eq!(low_limit, Some(0));
            assert_eq!(high_limit, Some(4_194_302));
        }
        other => panic!("expected WhoIs, got {:?}", other),
    }
}

/// Verify that the 22-bit device instance and object type can be recovered
/// from the BACnet ObjectId encoding for max instance value 4,194,302.
#[test]
fn device_object_id_max_instance() {
    let instance = 4_194_302u32;
    let obj_id_val: u32 = (8u32 << 22) | instance;
    let recovered_instance = obj_id_val & 0x3F_FFFF;
    let recovered_type = (obj_id_val >> 22) as u16;
    assert_eq!(
        recovered_instance, instance,
        "instance bits should round-trip"
    );
    assert_eq!(recovered_type, 8, "object type should be Device (8)");

    // Also verify via the application-tag decoder
    let bytes = obj_id_val.to_be_bytes();
    let data = [0xC4u8, bytes[0], bytes[1], bytes[2], bytes[3]];
    let (val, consumed) = decode_application_tag(&data).unwrap();
    assert_eq!(consumed, 5);
    match val {
        BacnetValue::ObjectId {
            object_type,
            instance: decoded_instance,
        } => {
            assert_eq!(object_type, 8);
            assert_eq!(decoded_instance, instance);
        }
        other => panic!("expected ObjectId, got {:?}", other),
    }
}

/// Detailed structure check for encode_read_property output bytes.
#[test]
fn encode_read_property_structure() {
    // AnalogInput (type 0), instance 1, PresentValue (85 = 0x55), invoke_id=5, no array index
    let frame = encode_read_property(0x05, 0, 1, 85, None);

    // BVLL header
    assert_eq!(frame[0], 0x81, "BVLL magic");
    assert_eq!(frame[1], BVLL_UNICAST, "BVLL unicast type");
    let len = u16::from_be_bytes([frame[2], frame[3]]) as usize;
    assert_eq!(len, frame.len(), "BVLL length field matches actual length");

    // NPDU
    assert_eq!(frame[4], 0x01, "NPDU version");
    assert_eq!(frame[5], 0x00, "NPDU control");

    // APDU: Confirmed-Request
    assert_eq!(frame[6], 0x00, "Confirmed-Request PDU type");
    assert_eq!(frame[7], 0x05, "max-segs/max-apdu byte");
    assert_eq!(frame[8], 0x05, "invoke_id = 5");
    assert_eq!(
        frame[9], SVC_CONFIRMED_READ_PROPERTY,
        "service = ReadProperty"
    );

    // Context tag 0 (ObjectIdentifier): 0x0C = (0 << 4) | 0x08 | 4
    assert_eq!(frame[10], 0x0C, "context tag 0, LVT=4");

    // Object ID: AnalogInput(0) instance 1 → (0 << 22) | 1 = 0x00000001
    let obj_id = u32::from_be_bytes([frame[11], frame[12], frame[13], frame[14]]);
    assert_eq!(obj_id & 0x3F_FFFF, 1, "instance = 1");
    assert_eq!((obj_id >> 22) as u16, 0, "type = AnalogInput(0)");

    // Context tag 1 (PropertyId = 85 = 0x55):
    // 0x19 = (1 << 4) | 0x08 | 1 = tag 1, context, LVT=1
    assert_eq!(frame[15], 0x19, "context tag 1, LVT=1");
    assert_eq!(frame[16], 0x55, "property_id = 85 = PresentValue");
}

/// I-Am for device instance 0 (boundary: minimum valid instance).
#[test]
fn decode_i_am_instance_zero() {
    let pkt = make_i_am_packet(0, 480, 3, 1);
    let (_, apdu) = decode_packet(&pkt).unwrap();
    match apdu {
        Apdu::IAm {
            device_instance, ..
        } => assert_eq!(device_instance, 0),
        other => panic!("expected IAm, got {other:?}"),
    }
}

/// I-Am for max valid BACnet device instance (4,194,302).
#[test]
fn decode_i_am_max_instance() {
    let max = 4_194_302u32;
    let pkt = make_i_am_packet(max, 1476, 0, 260);
    let (_, apdu) = decode_packet(&pkt).unwrap();
    match apdu {
        Apdu::IAm {
            device_instance, ..
        } => assert_eq!(device_instance, max),
        other => panic!("expected IAm, got {other:?}"),
    }
}

/// Encode a Real value ACK and decode it back — all fields must match.
#[test]
fn read_property_ack_real_round_trip() {
    let pkt = encode_read_property_ack(42, 0, 5, 85, &single(22.5));
    let (_, apdu) = decode_packet(&pkt).unwrap();
    assert_eq!(
        apdu,
        Apdu::ReadPropertyAck {
            invoke_id: 42,
            object_type: 0,
            instance: 5,
            property_id: 85,
            value: single(22.5),
        }
    );
}

/// Encode an Unsigned value ACK and decode it back.
#[test]
fn read_property_ack_unsigned_round_trip() {
    let pkt = encode_read_property_ack(7, 0, 1, 85, &BacnetValue::Unsigned(1234));
    let (_, apdu) = decode_packet(&pkt).unwrap();
    match apdu {
        Apdu::ReadPropertyAck {
            invoke_id, value, ..
        } => {
            assert_eq!(invoke_id, 7);
            assert_eq!(value, BacnetValue::Unsigned(1234));
        }
        other => panic!("expected ReadPropertyAck, got {other:?}"),
    }
}

/// Encode Boolean(true) ACK and decode it back.
#[test]
fn read_property_ack_boolean_true_round_trip() {
    let pkt = encode_read_property_ack(1, 3, 0, 85, &BacnetValue::Boolean(true));
    let (_, apdu) = decode_packet(&pkt).unwrap();
    match apdu {
        Apdu::ReadPropertyAck {
            invoke_id, value, ..
        } => {
            assert_eq!(invoke_id, 1);
            assert_eq!(value, BacnetValue::Boolean(true));
        }
        other => panic!("expected ReadPropertyAck, got {other:?}"),
    }
}

/// Encode Boolean(false) ACK and decode it back.
#[test]
fn read_property_ack_boolean_false_round_trip() {
    let pkt = encode_read_property_ack(1, 3, 0, 85, &BacnetValue::Boolean(false));
    let (_, apdu) = decode_packet(&pkt).unwrap();
    match apdu {
        Apdu::ReadPropertyAck { value, .. } => {
            assert_eq!(value, BacnetValue::Boolean(false));
        }
        other => panic!("expected ReadPropertyAck, got {other:?}"),
    }
}

/// Hand-crafted Error PDU — invoke 55, svc ReadProperty, class=2, code=31.
#[test]
fn error_pdu_decode() {
    let pkt = [
        0x50, // PDU type = Error
        55,   // invoke_id
        0x0C, // service-choice = ReadProperty
        0x91, 0x02, // error_class = Enumerated(2)
        0x91, 0x1F, // error_code  = Enumerated(31)
    ];
    let apdu = decode_apdu(&pkt).unwrap();
    match apdu {
        Apdu::Error {
            invoke_id,
            service_choice,
            error_class,
            error_code,
        } => {
            assert_eq!(invoke_id, 55);
            assert_eq!(service_choice, 0x0C);
            assert_eq!(error_class, 2);
            assert_eq!(error_code, 31);
        }
        other => panic!("expected Error, got {other:?}"),
    }
}

/// A 2-byte Error PDU must not panic — it returns an error or Apdu::Other.
#[test]
fn error_pdu_wraps_to_other_if_truncated() {
    // 2 bytes is below the 3-byte minimum; decode_error_pdu returns Err.
    // decode_apdu propagates that error, so we just assert it doesn't panic.
    let result = decode_apdu(&[0x50, 42]);
    // Either an error or Other is acceptable — the key requirement is no panic.
    match result {
        Err(_) => {}
        Ok(Apdu::Other { .. }) => {}
        Ok(other) => panic!("unexpected successful variant: {other:?}"),
    }
}

/// ReadProperty request round-trip: AV type, instance 3, property 85.
#[test]
fn read_property_request_encode_decode() {
    let pkt = encode_read_property(10, 2, 3, 85, None);
    let (_, apdu) = decode_packet(&pkt).unwrap();
    assert_eq!(
        apdu,
        Apdu::ReadPropertyRequest {
            invoke_id: 10,
            object_type: 2,
            instance: 3,
            property_id: 85,
            array_index: None,
        }
    );
}

/// ReadProperty request with array_index=Some(0) round-trips correctly.
#[test]
fn read_property_request_with_array_index() {
    let pkt = encode_read_property(10, 2, 3, 85, Some(0));
    let (_, apdu) = decode_packet(&pkt).unwrap();
    match apdu {
        Apdu::ReadPropertyRequest { array_index, .. } => {
            assert_eq!(array_index, Some(0));
        }
        other => panic!("expected ReadPropertyRequest, got {other:?}"),
    }
}

/// Who-Is with no range decodes to WhoIs { None, None }.
#[test]
fn who_is_no_range_decode() {
    let pkt = encode_who_is(None, None);
    let (_, apdu) = decode_packet(&pkt).unwrap();
    assert_eq!(
        apdu,
        Apdu::WhoIs {
            low_limit: None,
            high_limit: None
        }
    );
}

/// Who-Is with range [100, 200] decodes correctly.
#[test]
fn who_is_with_range_decode() {
    let pkt = encode_who_is(Some(100), Some(200));
    let (_, apdu) = decode_packet(&pkt).unwrap();
    assert_eq!(
        apdu,
        Apdu::WhoIs {
            low_limit: Some(100),
            high_limit: Some(200)
        }
    );
}

/// invoke_id is preserved for boundary values 0, 127, 255.
#[test]
fn complex_ack_different_invoke_ids() {
    for invoke_id in [0u8, 127, 255] {
        let pkt = encode_read_property_ack(invoke_id, 0, 1, 85, &single(1.0));
        let (_, apdu) = decode_packet(&pkt).unwrap();
        match apdu {
            Apdu::ReadPropertyAck {
                invoke_id: decoded_id,
                ..
            } => {
                assert_eq!(
                    decoded_id, invoke_id,
                    "invoke_id {invoke_id} must round-trip"
                );
            }
            other => {
                panic!("expected ReadPropertyAck for invoke_id {invoke_id}, got {other:?}")
            }
        }
    }
}

/// Encode with instance = 4_194_302 (max 22-bit BACnet instance).
#[test]
fn read_property_ack_large_instance() {
    let instance = 4_194_302u32; // 0x3F_FFFE
    let pkt = encode_read_property_ack(0, 8, instance, 85, &single(0.0));
    let (_, apdu) = decode_packet(&pkt).unwrap();
    match apdu {
        Apdu::ReadPropertyAck {
            object_type,
            instance: decoded_inst,
            ..
        } => {
            assert_eq!(object_type, 8, "object_type Device (8)");
            assert_eq!(decoded_inst, instance, "large instance must round-trip");
        }
        other => panic!("expected ReadPropertyAck, got {other:?}"),
    }
}

/// Three ObjectId values (ObjectList property) round-trip as BacnetValue::Array.
#[test]
fn read_property_ack_multi_object_list_round_trip() {
    let objects = vec![
        BacnetValue::ObjectId {
            object_type: 0,
            instance: 1,
        }, // AI-1
        BacnetValue::ObjectId {
            object_type: 1,
            instance: 2,
        }, // AO-2
        BacnetValue::ObjectId {
            object_type: 3,
            instance: 0,
        }, // BI-0
    ];
    let frame = encode_read_property_ack_multi(42, 8, 1001, 76, &objects);
    let (_, apdu) = decode_packet(&frame).expect("should decode");
    match apdu {
        Apdu::ReadPropertyAck {
            invoke_id,
            object_type,
            instance,
            property_id,
            value,
        } => {
            assert_eq!(invoke_id, 42);
            assert_eq!(object_type, 8); // Device
            assert_eq!(instance, 1001);
            assert_eq!(property_id, 76); // ObjectList
            match value {
                BacnetValue::Array(items) => {
                    assert_eq!(items.len(), 3);
                    assert_eq!(
                        items[0],
                        BacnetValue::ObjectId {
                            object_type: 0,
                            instance: 1
                        }
                    );
                    assert_eq!(
                        items[1],
                        BacnetValue::ObjectId {
                            object_type: 1,
                            instance: 2
                        }
                    );
                    assert_eq!(
                        items[2],
                        BacnetValue::ObjectId {
                            object_type: 3,
                            instance: 0
                        }
                    );
                }
                other => panic!("expected Array, got {other:?}"),
            }
        }
        other => panic!("expected ReadPropertyAck, got {other:?}"),
    }
}

/// Single value encoded via encode_read_property_ack returns scalar, not Array.
#[test]
fn read_property_ack_single_value_not_wrapped_in_array() {
    let frame = encode_read_property_ack(7, 0, 5, 85, &single(22.5));
    let (_, apdu) = decode_packet(&frame).expect("should decode");
    match apdu {
        Apdu::ReadPropertyAck { value, .. } => {
            assert_eq!(
                value,
                single(22.5),
                "single value should NOT be wrapped in Array"
            );
        }
        other => panic!("expected ReadPropertyAck, got {other:?}"),
    }
}

/// Encoding zero values returns BacnetValue::Array(vec![]).
#[test]
fn read_property_ack_empty_array() {
    let frame = encode_read_property_ack_multi(1, 8, 100, 76, &[]);
    let (_, apdu) = decode_packet(&frame).expect("should decode");
    match apdu {
        Apdu::ReadPropertyAck { value, .. } => {
            assert_eq!(
                value,
                BacnetValue::Array(vec![]),
                "empty multi should give Array([])"
            );
        }
        other => panic!("expected ReadPropertyAck, got {other:?}"),
    }
}

/// Two Real values round-trip as BacnetValue::Array([Real(1.0), Real(2.5)]).
#[test]
fn read_property_ack_two_reals() {
    let vals = vec![single(1.0_f32), single(2.5_f32)];
    let frame = encode_read_property_ack_multi(5, 2, 3, 85, &vals);
    let (_, apdu) = decode_packet(&frame).expect("decode");
    match apdu {
        Apdu::ReadPropertyAck { value, .. } => match value {
            BacnetValue::Array(items) => {
                assert_eq!(items.len(), 2);
                assert_eq!(items[0], single(1.0));
                assert_eq!(items[1], single(2.5));
            }
            other => panic!("expected Array, got {other:?}"),
        },
        other => panic!("expected ReadPropertyAck, got {other:?}"),
    }
}

/// Single CharacterString via multi encoder returns scalar (not Array).
#[test]
fn read_property_ack_char_string_round_trip() {
    let vals = vec![BacnetValue::CharacterString("TempSensor".into())];
    let frame = encode_read_property_ack_multi(3, 0, 1, 77, &vals);
    let (_, apdu) = decode_packet(&frame).unwrap();
    match apdu {
        Apdu::ReadPropertyAck { value, .. } => {
            // Single CharacterString — should NOT be wrapped in Array
            assert_eq!(value, BacnetValue::CharacterString("TempSensor".into()));
        }
        other => panic!("{other:?}"),
    }
}

/// Three Unsigned values round-trip as BacnetValue::Array.
#[test]
fn read_property_ack_multi_unsigned_values() {
    let vals = vec![
        BacnetValue::Unsigned(10),
        BacnetValue::Unsigned(20),
        BacnetValue::Unsigned(30),
    ];
    let frame = encode_read_property_ack_multi(99, 2, 7, 85, &vals);
    let (_, apdu) = decode_packet(&frame).unwrap();
    match apdu {
        Apdu::ReadPropertyAck { value, .. } => match value {
            BacnetValue::Array(items) => {
                assert_eq!(items.len(), 3);
                assert_eq!(items[0], BacnetValue::Unsigned(10));
            }
            other => panic!("{other:?}"),
        },
        other => panic!("{other:?}"),
    }
}

/// ObjectList with Device itself included encodes/decodes correctly.
#[test]
fn encode_read_property_ack_multi_with_device_self() {
    let objects = vec![
        BacnetValue::ObjectId {
            object_type: 8,
            instance: 1001,
        }, // Device itself
        BacnetValue::ObjectId {
            object_type: 0,
            instance: 0,
        }, // AI-0
    ];
    let frame = encode_read_property_ack_multi(10, 8, 1001, 76, &objects);
    let (_, apdu) = decode_packet(&frame).unwrap();
    match apdu {
        Apdu::ReadPropertyAck { value, .. } => match value {
            BacnetValue::Array(items) => {
                assert_eq!(items.len(), 2);
            }
            other => panic!("{other:?}"),
        },
        other => panic!("{other:?}"),
    }
}

/// WriteProperty with Real(72.5), priority Some(16), no array index.
/// Byte spot-checks: 0x0F (service), 0x0C (obj-id tag), 0x3E/0x3F wrappers,
/// 0x44 (Real app tag).
#[test]
fn encode_write_property_real_value() {
    let pkt = encode_write_property(5, 0, 1, 85, &single(72.5), None, Some(16));

    // Scan the APDU portion (after BVLL(4)+NPDU(2)=6).
    let apdu = &pkt[6..];
    assert_eq!(apdu[0], 0x00, "Confirmed-Request PDU type");
    assert_eq!(apdu[1], 0x05, "max-segs/max-apdu");
    assert_eq!(apdu[2], 5, "invoke_id");
    assert_eq!(apdu[3], 0x0F, "service = WriteProperty");
    assert_eq!(apdu[4], 0x0C, "context tag 0 ObjectIdentifier");

    // The full packet must contain the 0x3E/0x3F wrappers and 0x44 (Real).
    assert!(pkt.contains(&0x3E), "opening tag 3 present");
    assert!(pkt.contains(&0x3F), "closing tag 3 present");
    assert!(pkt.contains(&0x44), "Real app-tag present");

    // Priority 16 → context tag 4, LVT=1, value 0x10 → 0x49 0x10.
    let has_prio = pkt.windows(2).any(|w| w == [0x49, 0x10]);
    assert!(has_prio, "priority context tag 4 (0x49 0x10) present");
}

/// No priority: must NOT contain the 0x49 context-tag-4 byte after the
/// closing tag 3.
#[test]
fn encode_write_property_no_priority() {
    let pkt = encode_write_property(5, 0, 1, 85, &single(10.0), None, None);
    let close_idx = pkt
        .iter()
        .rposition(|&b| b == 0x3F)
        .expect("closing tag 3 present");
    let tail = &pkt[close_idx + 1..];
    assert!(
        !tail.contains(&0x49),
        "no priority context tag 4 should appear after closing tag"
    );
}

/// With array_index=Some(1) → context tag 2, LVT=1, value 1 → 0x29 0x01
/// must appear before the 0x3E opening tag.
#[test]
fn encode_write_property_with_array_index() {
    let pkt = encode_write_property(5, 0, 1, 85, &single(1.0), Some(1), Some(16));
    let open_idx = pkt
        .iter()
        .position(|&b| b == 0x3E)
        .expect("opening tag 3 present");
    let prefix = &pkt[..open_idx];
    let has_array = prefix.windows(2).any(|w| w == [0x29, 0x01]);
    assert!(has_array, "context tag 2 (0x29 0x01) must precede 0x3E");
}

/// Round-trip: encode then decode_packet → WritePropertyRequest matches.
#[test]
fn write_property_request_round_trip() {
    let pkt = encode_write_property(9, 1, 5, 85, &single(23.5), None, Some(16));
    let (_, apdu) = decode_packet(&pkt).unwrap();
    assert_eq!(
        apdu,
        Apdu::WritePropertyRequest {
            invoke_id: 9,
            object_type: 1,
            instance: 5,
            property_id: 85,
            array_index: None,
            value: single(23.5),
            priority: Some(16),
        }
    );
}

/// Boolean round-trip — BO object with Boolean(true).
#[test]
fn write_property_request_boolean_round_trip() {
    let pkt = encode_write_property(3, 4, 2, 85, &BacnetValue::Boolean(true), None, Some(16));
    let (_, apdu) = decode_packet(&pkt).unwrap();
    match apdu {
        Apdu::WritePropertyRequest {
            invoke_id,
            object_type,
            instance,
            property_id,
            value,
            priority,
            array_index,
        } => {
            assert_eq!(invoke_id, 3);
            assert_eq!(object_type, 4);
            assert_eq!(instance, 2);
            assert_eq!(property_id, 85);
            assert_eq!(value, BacnetValue::Boolean(true));
            assert_eq!(priority, Some(16));
            assert_eq!(array_index, None);
        }
        other => panic!("expected WritePropertyRequest, got {other:?}"),
    }
}

/// Bare Simple-ACK frame decodes to Apdu::SimpleAck.
#[test]
fn simple_ack_decode() {
    let pkt = [
        0x81, 0x0A, 0x00, 0x09, // BVLL unicast, length 9
        0x01, 0x00, // NPDU version, control
        0x20, 0x42, 0x0F, // PDU type SimpleAck, invoke_id 0x42, svc 0x0F
    ];
    let (_, apdu) = decode_packet(&pkt).unwrap();
    assert_eq!(
        apdu,
        Apdu::SimpleAck {
            invoke_id: 0x42,
            service_choice: 0x0F,
        }
    );
}

/// Truncated Simple-ACK (missing invoke_id/service) returns Err.
#[test]
fn simple_ack_truncated_returns_error() {
    let pkt = [
        0x81, 0x0A, 0x00, 0x07, // BVLL unicast, length 7
        0x01, 0x00, // NPDU
        0x20, // PDU type only
    ];
    assert!(decode_packet(&pkt).is_err());
}

/// Unsigned round-trip — value 100 encoded and decoded cleanly.
#[test]
fn encode_write_property_unsigned() {
    let pkt = encode_write_property(4, 2, 7, 85, &BacnetValue::Unsigned(100), None, Some(16));
    let (_, apdu) = decode_packet(&pkt).unwrap();
    match apdu {
        Apdu::WritePropertyRequest { value, .. } => {
            assert_eq!(value, BacnetValue::Unsigned(100));
        }
        other => panic!("expected WritePropertyRequest, got {other:?}"),
    }
}

/// Hand-computed golden wire layout for a specific WriteProperty:
/// invoke_id=7, AO (1), instance 5, property 85, Real(50.0), priority 16.
///
/// This pins the byte layout so any future encoder change is flagged.
#[test]
fn encode_write_property_wire_snapshot() {
    let pkt = encode_write_property(7, 1, 5, 85, &single(50.0), None, Some(16));

    // Build the expected APDU manually.
    // 0x00 0x05 0x07 0x0F  — Confirmed-Req, max-seg/apdu, invoke, svc WriteProp
    // 0x0C <4-byte obj-id> — context tag 0: (AO=1 << 22) | 5 = 0x00400005
    // 0x19 0x55            — context tag 1 LVT=1, property 85
    // 0x3E                 — opening tag 3
    // 0x44 <4-byte Real>   — app tag 4, LVT=4, Real(50.0) big-endian
    // 0x3F                 — closing tag 3
    // 0x49 0x10            — context tag 4 LVT=1, priority 16
    let real_bytes = 50.0f32.to_be_bytes();
    let obj_id: u32 = (1u32 << 22) | 5;
    let obj_bytes = obj_id.to_be_bytes();
    let mut expected_apdu: Vec<u8> = vec![0x00, 0x05, 0x07, 0x0F, 0x0C];
    expected_apdu.extend_from_slice(&obj_bytes);
    expected_apdu.extend_from_slice(&[0x19, 0x55, 0x3E, 0x44]);
    expected_apdu.extend_from_slice(&real_bytes);
    expected_apdu.extend_from_slice(&[0x3F, 0x49, 0x10]);

    // Wrap with BVLL + NPDU (6 bytes header)
    let total_len = 6 + expected_apdu.len();
    let mut expected: Vec<u8> = Vec::with_capacity(total_len);
    expected.push(0x81);
    expected.push(BVLL_UNICAST);
    expected.push((total_len >> 8) as u8);
    expected.push((total_len & 0xFF) as u8);
    expected.push(0x01);
    expected.push(0x00);
    expected.extend_from_slice(&expected_apdu);

    assert_eq!(pkt, expected, "WriteProperty wire layout golden mismatch");
}

/// RPM request with a single spec round-trips cleanly.
#[test]
fn rpm_request_single_spec_round_trip() {
    let specs = vec![RpmRequestSpec {
        object_type: 0, // AI
        instance: 0,
        property_id: 85, // PresentValue
        array_index: None,
    }];
    let pkt = encode_read_property_multiple(5, &specs);
    let (_, apdu) = decode_packet(&pkt).unwrap();
    match apdu {
        Apdu::ReadPropertyMultipleRequest {
            invoke_id,
            specs: got,
        } => {
            assert_eq!(invoke_id, 5);
            assert_eq!(got.len(), 1);
            assert_eq!(got[0].object_type, 0);
            assert_eq!(got[0].instance, 0);
            assert_eq!(got[0].property_id, 85);
            assert_eq!(got[0].array_index, None);
        }
        other => panic!("expected ReadPropertyMultipleRequest, got {other:?}"),
    }
}

/// RPM request with three specs for different objects preserves order.
#[test]
fn rpm_request_multiple_specs_round_trip() {
    let specs = vec![
        RpmRequestSpec {
            object_type: 0, // AI
            instance: 0,
            property_id: 85,
            array_index: None,
        },
        RpmRequestSpec {
            object_type: 1, // AO
            instance: 5,
            property_id: 85,
            array_index: None,
        },
        RpmRequestSpec {
            object_type: 3, // BI
            instance: 2,
            property_id: 85,
            array_index: None,
        },
    ];
    let pkt = encode_read_property_multiple(0x10, &specs);
    let (_, apdu) = decode_packet(&pkt).unwrap();
    match apdu {
        Apdu::ReadPropertyMultipleRequest {
            invoke_id,
            specs: got,
        } => {
            assert_eq!(invoke_id, 0x10);
            assert_eq!(got.len(), 3);
            assert_eq!(got[0].object_type, 0);
            assert_eq!(got[0].instance, 0);
            assert_eq!(got[1].object_type, 1);
            assert_eq!(got[1].instance, 5);
            assert_eq!(got[2].object_type, 3);
            assert_eq!(got[2].instance, 2);
            for s in &got {
                assert_eq!(s.property_id, 85);
                assert_eq!(s.array_index, None);
            }
        }
        other => panic!("expected ReadPropertyMultipleRequest, got {other:?}"),
    }
}

/// RPM request with a property-array-index is preserved round-trip.
#[test]
fn rpm_request_with_array_index() {
    let specs = vec![RpmRequestSpec {
        object_type: 8, // Device
        instance: 1001,
        property_id: 76, // ObjectList
        array_index: Some(0),
    }];
    let pkt = encode_read_property_multiple(3, &specs);
    let (_, apdu) = decode_packet(&pkt).unwrap();
    match apdu {
        Apdu::ReadPropertyMultipleRequest { specs: got, .. } => {
            assert_eq!(got.len(), 1);
            assert_eq!(got[0].array_index, Some(0));
            assert_eq!(got[0].property_id, 76);
        }
        other => panic!("expected ReadPropertyMultipleRequest, got {other:?}"),
    }
}

/// RPM request with a 2-byte property identifier round-trips.
#[test]
fn rpm_request_two_byte_property_id() {
    let specs = vec![RpmRequestSpec {
        object_type: 0,
        instance: 0,
        property_id: 512, // forces 2-byte encoding
        array_index: None,
    }];
    let pkt = encode_read_property_multiple(1, &specs);
    // Verify the wire really used the 2-byte form (0x0A = context 0 LVT=2).
    assert!(
        pkt.iter().any(|&b| b == 0x0A),
        "expected context tag 0 LVT=2 byte (0x0A) in wire bytes"
    );
    let (_, apdu) = decode_packet(&pkt).unwrap();
    match apdu {
        Apdu::ReadPropertyMultipleRequest { specs: got, .. } => {
            assert_eq!(got.len(), 1);
            assert_eq!(got[0].property_id, 512);
        }
        other => panic!("expected ReadPropertyMultipleRequest, got {other:?}"),
    }
}

/// RPM ACK with a single Real value round-trips.
#[test]
fn rpm_ack_single_real_value_round_trip() {
    let results = vec![RpmResult {
        object_type: 0,
        instance: 1,
        property_id: 85,
        array_index: None,
        value: Ok(single(23.5)),
    }];
    let pkt = encode_read_property_multiple_ack(9, &results);
    let (_, apdu) = decode_packet(&pkt).unwrap();
    match apdu {
        Apdu::ReadPropertyMultipleAck {
            invoke_id,
            results: got,
        } => {
            assert_eq!(invoke_id, 9);
            assert_eq!(got.len(), 1);
            assert_eq!(got[0].object_type, 0);
            assert_eq!(got[0].instance, 1);
            assert_eq!(got[0].property_id, 85);
            assert_eq!(got[0].value, Ok(single(23.5)));
        }
        other => panic!("expected ReadPropertyMultipleAck, got {other:?}"),
    }
}

/// RPM ACK with three heterogeneous results round-trips and preserves order.
#[test]
fn rpm_ack_multiple_results() {
    let results = vec![
        RpmResult {
            object_type: 0,
            instance: 0,
            property_id: 85,
            array_index: None,
            value: Ok(single(10.0)),
        },
        RpmResult {
            object_type: 1,
            instance: 1,
            property_id: 85,
            array_index: None,
            value: Ok(single(20.0)),
        },
        RpmResult {
            object_type: 3,
            instance: 0,
            property_id: 85,
            array_index: None,
            value: Ok(BacnetValue::Enumerated(1)),
        },
    ];
    let pkt = encode_read_property_multiple_ack(0x20, &results);
    let (_, apdu) = decode_packet(&pkt).unwrap();
    match apdu {
        Apdu::ReadPropertyMultipleAck {
            invoke_id,
            results: got,
        } => {
            assert_eq!(invoke_id, 0x20);
            assert_eq!(got.len(), 3);
            assert_eq!(got[0].value, Ok(single(10.0)));
            assert_eq!(got[0].object_type, 0);
            assert_eq!(got[1].value, Ok(single(20.0)));
            assert_eq!(got[1].object_type, 1);
            assert_eq!(got[2].value, Ok(BacnetValue::Enumerated(1)));
            assert_eq!(got[2].object_type, 3);
        }
        other => panic!("expected ReadPropertyMultipleAck, got {other:?}"),
    }
}

/// RPM ACK with an error result (property-access-error) round-trips.
#[test]
fn rpm_ack_with_error_result() {
    let results = vec![RpmResult {
        object_type: 0,
        instance: 0,
        property_id: 85,
        array_index: None,
        value: Err((2, 31)), // object class, write-access-denied code
    }];
    let pkt = encode_read_property_multiple_ack(1, &results);
    let (_, apdu) = decode_packet(&pkt).unwrap();
    match apdu {
        Apdu::ReadPropertyMultipleAck { results: got, .. } => {
            assert_eq!(got.len(), 1);
            assert_eq!(got[0].value, Err((2, 31)));
        }
        other => panic!("expected ReadPropertyMultipleAck, got {other:?}"),
    }
}

/// RPM ACK mixing Ok and Err results preserves ordering and types.
#[test]
fn rpm_ack_mixed_ok_and_err() {
    let results = vec![
        RpmResult {
            object_type: 0,
            instance: 0,
            property_id: 85,
            array_index: None,
            value: Ok(single(10.0)),
        },
        RpmResult {
            object_type: 1,
            instance: 2,
            property_id: 85,
            array_index: None,
            value: Err((2, 32)),
        },
    ];
    let pkt = encode_read_property_multiple_ack(7, &results);
    let (_, apdu) = decode_packet(&pkt).unwrap();
    match apdu {
        Apdu::ReadPropertyMultipleAck { results: got, .. } => {
            assert_eq!(got.len(), 2);
            assert_eq!(got[0].value, Ok(single(10.0)));
            assert_eq!(got[0].object_type, 0);
            assert_eq!(got[1].value, Err((2, 32)));
            assert_eq!(got[1].object_type, 1);
        }
        other => panic!("expected ReadPropertyMultipleAck, got {other:?}"),
    }
}

/// Hand-computed golden wire layout for an RPM request:
/// invoke_id=0x42, 2 specs: (AI-0 prop 85), (AO-5 prop 85).
///
/// APDU layout:
///   0x00 0x05 0x42 0x0E           PDU type, max-segs, invoke_id, service
///   0x0C 0x00 0x00 0x00 0x00      ctx tag 0 object-id AI-0
///   0x1E                          ctx tag 1 opening
///   0x09 0x55                     inner ctx tag 0 LVT=1, property 85
///   0x1F                          ctx tag 1 closing
///   0x0C 0x00 0x40 0x00 0x05      ctx tag 0 object-id AO-5
///   0x1E
///   0x09 0x55
///   0x1F
#[test]
fn rpm_request_wire_snapshot() {
    let specs = vec![
        RpmRequestSpec {
            object_type: 0,
            instance: 0,
            property_id: 85,
            array_index: None,
        },
        RpmRequestSpec {
            object_type: 1,
            instance: 5,
            property_id: 85,
            array_index: None,
        },
    ];
    let pkt = encode_read_property_multiple(0x42, &specs);

    let expected_apdu: Vec<u8> = vec![
        0x00, 0x05, 0x42, 0x0E,
        0x0C, 0x00, 0x00, 0x00, 0x00,
        0x1E,
        0x09, 0x55,
        0x1F,
        0x0C, 0x00, 0x40, 0x00, 0x05,
        0x1E,
        0x09, 0x55,
        0x1F,
    ];

    let total_len = 6 + expected_apdu.len();
    let mut expected: Vec<u8> = Vec::with_capacity(total_len);
    expected.push(0x81);
    expected.push(BVLL_UNICAST);
    expected.push((total_len >> 8) as u8);
    expected.push((total_len & 0xFF) as u8);
    expected.push(0x01);
    expected.push(0x00);
    expected.extend_from_slice(&expected_apdu);

    assert_eq!(pkt, expected, "RPM request wire layout golden mismatch");
}

/// Hand-computed golden wire layout for an RPM ACK:
/// invoke_id=0x42, 2 results: AI-0 prop 85 Real(50.0), AO-5 prop 85 Real(75.5).
///
/// APDU layout:
///   0x30 0x42 0x0E                PDU type, invoke_id, service
///   0x0C 0x00 0x00 0x00 0x00      ctx tag 0 object-id AI-0
///   0x1E                          ctx tag 1 opening
///   0x29 0x55                     ctx tag 2 LVT=1, property 85
///   0x4E                          ctx tag 4 opening (property-value)
///   0x44 <4 bytes Real(50.0)>     app tag 4 LVT=4, Real
///   0x4F                          ctx tag 4 closing
///   0x1F                          ctx tag 1 closing
///   (same for AO-5 Real(75.5))
#[test]
fn rpm_ack_wire_snapshot() {
    let results = vec![
        RpmResult {
            object_type: 0,
            instance: 0,
            property_id: 85,
            array_index: None,
            value: Ok(single(50.0)),
        },
        RpmResult {
            object_type: 1,
            instance: 5,
            property_id: 85,
            array_index: None,
            value: Ok(single(75.5)),
        },
    ];
    let pkt = encode_read_property_multiple_ack(0x42, &results);

    let real50 = 50.0f32.to_be_bytes();
    let real75 = 75.5f32.to_be_bytes();

    let mut expected_apdu: Vec<u8> = vec![
        0x30, 0x42, 0x0E, // Complex-ACK, invoke_id, service
        0x0C, 0x00, 0x00, 0x00, 0x00, // object-id AI-0
        0x1E, // list-of-results opening
        0x29, 0x55, // ctx 2 LVT=1 property 85
        0x4E, // value opening
        0x44,
    ];
    expected_apdu.extend_from_slice(&real50);
    expected_apdu.extend_from_slice(&[0x4F, 0x1F]); // value closing, list closing
    expected_apdu
        .extend_from_slice(&[0x0C, 0x00, 0x40, 0x00, 0x05, 0x1E, 0x29, 0x55, 0x4E, 0x44]);
    expected_apdu.extend_from_slice(&real75);
    expected_apdu.extend_from_slice(&[0x4F, 0x1F]);

    let total_len = 6 + expected_apdu.len();
    let mut expected: Vec<u8> = Vec::with_capacity(total_len);
    expected.push(0x81);
    expected.push(BVLL_UNICAST);
    expected.push((total_len >> 8) as u8);
    expected.push((total_len & 0xFF) as u8);
    expected.push(0x01);
    expected.push(0x00);
    expected.extend_from_slice(&expected_apdu);

    assert_eq!(pkt, expected, "RPM ACK wire layout golden mismatch");
}

/// RPM request for object-name property (77 = 0x4D) round-trips.
#[test]
fn rpm_request_char_string_property() {
    let specs = vec![RpmRequestSpec {
        object_type: 0,
        instance: 1,
        property_id: 77, // ObjectName
        array_index: None,
    }];
    let pkt = encode_read_property_multiple(2, &specs);
    let (_, apdu) = decode_packet(&pkt).unwrap();
    match apdu {
        Apdu::ReadPropertyMultipleRequest { specs: got, .. } => {
            assert_eq!(got.len(), 1);
            assert_eq!(got[0].property_id, 77);
        }
        other => panic!("expected ReadPropertyMultipleRequest, got {other:?}"),
    }
}

/// A truncated RPM ACK (missing closing 0x1F) must return MalformedFrame.
#[test]
fn decode_rpm_ack_truncated_returns_error() {
    // Start with a valid ACK and strip the trailing list-of-results closing.
    let results = vec![RpmResult {
        object_type: 0,
        instance: 0,
        property_id: 85,
        array_index: None,
        value: Ok(single(1.0)),
    }];
    let pkt = encode_read_property_multiple_ack(1, &results);
    // Sanity: last byte of APDU is the 0x1F list-of-results close.
    assert_eq!(*pkt.last().unwrap(), 0x1F);

    // Build a truncated copy: drop the final 0x1F and patch BVLL length.
    let mut truncated = pkt.clone();
    truncated.pop();
    let new_len = truncated.len() as u16;
    truncated[2] = (new_len >> 8) as u8;
    truncated[3] = (new_len & 0xFF) as u8;

    match decode_packet(&truncated) {
        Err(BacnetError::MalformedFrame(_)) => {}
        other => panic!("expected MalformedFrame error, got {other:?}"),
    }
}
