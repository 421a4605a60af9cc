//! Application-tagged BACnet values.

use sandstar_drivers::bacnet::value::{
    decode_application_tag, encode_object_id_context, encode_property_id_context, encode_unsigned,
    BacnetValue, Number,
};

fn single(v: f32) -> BacnetValue {
    BacnetValue::Real(v.to_bits())
}

fn double(v: f64) -> BacnetValue {
    BacnetValue::Double(v.to_bits())
}

/// The number of a value as a double.
trait ToF64 {
    fn to_f64(&self) -> Option<f64>;
}

impl ToF64 for BacnetValue {
    fn to_f64(&self) -> Option<f64> {
        self.to_number().map(|n| match n {
            Number::Single(bits) => f32::from_bits(bits) as f64,
            Number::Double(bits) => f64::from_bits(bits),
            Number::Unsigned(n) => n as f64,
            Number::Signed(n) => n as f64,
        })
    }
}

#[test]
fn decode_null() {
    let (v, n) = decode_application_tag(&[0x00]).unwrap();
    assert_eq!(v, BacnetValue::Null);
    assert_eq!(n, 1);
}

#[test]
fn decode_bool_true() {
    // tag=1, class=app, LVT=1 → true
    let (v, n) = decode_application_tag(&[0x11]).unwrap();
    assert_eq!(v, BacnetValue::Boolean(true));
    assert_eq!(n, 1);
}

#[test]
fn decode_bool_false() {
    // tag=1, class=app, LVT=0 → false
    let (v, n) = decode_application_tag(&[0x10]).unwrap();
    assert_eq!(v, BacnetValue::Boolean(false));
    assert_eq!(n, 1);
}

#[test]
fn decode_unsigned_1byte_value_5() {
    // [0x21, 0x05] → Unsigned(5): tag=2, app, LVT=1, value=0x05
    let (v, n) = decode_application_tag(&[0x21, 0x05]).unwrap();
    assert_eq!(v, BacnetValue::Unsigned(5));
    assert_eq!(n, 2);
}

#[test]
fn decode_unsigned_1byte() {
    let (v, n) = decode_application_tag(&[0x21, 0x42]).unwrap();
    assert_eq!(v, BacnetValue::Unsigned(0x42));
    assert_eq!(n, 2);
}

#[test]
fn decode_unsigned_2byte() {
    let (v, n) = decode_application_tag(&[0x22, 0x01, 0x00]).unwrap();
    assert_eq!(v, BacnetValue::Unsigned(256));
    assert_eq!(n, 3);
}

#[test]
fn decode_signed_negative_1() {
    // [0x31, 0xFF]: tag=3, app, LVT=1, byte=0xFF → -1i8 → -1i32
    let (v, n) = decode_application_tag(&[0x31, 0xFF]).unwrap();
    assert_eq!(v, BacnetValue::Signed(-1));
    assert_eq!(n, 2);
}

#[test]
fn decode_signed_positive() {
    let (v, n) = decode_application_tag(&[0x31, 0x7F]).unwrap();
    assert_eq!(v, BacnetValue::Signed(127));
    assert_eq!(n, 2);
}

#[test]
fn decode_real_50_0() {
    // 0x42480000 is the IEEE 754 representation of 50.0f32
    let data = [0x44u8, 0x42, 0x48, 0x00, 0x00];
    let (v, n) = decode_application_tag(&data).unwrap();
    assert_eq!(v, single(50.0f32));
    assert_eq!(n, 5);
}

#[test]
fn decode_real_72_5() {
    let bytes = 72.5f32.to_be_bytes();
    let mut data = vec![0x44u8]; // tag=4, app, LVT=4
    data.extend_from_slice(&bytes);
    let (v, n) = decode_application_tag(&data).unwrap();
    assert_eq!(v, single(72.5));
    assert_eq!(n, 5);
}

#[test]
fn decode_truncated_real_returns_error() {
    // Real needs 4 value bytes but we give only 2.
    let data = [0x44, 0x00, 0x00];
    assert!(decode_application_tag(&data).is_err());
}

#[test]
fn decode_double() {
    let bytes = 100.0f64.to_be_bytes();
    let mut data = vec![0x55u8]; // tag=5, app, LVT=8 (don't-care)
    data.extend_from_slice(&bytes);
    let (v, n) = decode_application_tag(&data).unwrap();
    assert_eq!(v, double(100.0));
    assert_eq!(n, 9);
}

#[test]
fn decode_enumerated() {
    // [0x91, 0x03]: tag=9, app, LVT=1, value=3
    let (v, n) = decode_application_tag(&[0x91, 0x03]).unwrap();
    assert_eq!(v, BacnetValue::Enumerated(3));
    assert_eq!(n, 2);
}

#[test]
fn decode_charstring_utf8() {
    // tag=7, LVT=4: encoding byte (0x00=UTF-8) + "Hi!" (3 bytes)
    let data = [0x74, 0x00, b'H', b'i', b'!'];
    let (v, n) = decode_application_tag(&data).unwrap();
    assert_eq!(v, BacnetValue::CharacterString("Hi!".into()));
    assert_eq!(n, 5);
}

#[test]
fn decode_octet_string() {
    let data = [0x62, 0xDE, 0xAD]; // tag=6, app, LVT=2
    let (v, n) = decode_application_tag(&data).unwrap();
    assert_eq!(v, BacnetValue::OctetString(vec![0xDE, 0xAD]));
    assert_eq!(n, 3);
}

#[test]
fn decode_object_id_device() {
    // Device instance 1 → (8 << 22) | 1 = 0x02000001
    let data = [0xC4, 0x02, 0x00, 0x00, 0x01];
    let (v, n) = decode_application_tag(&data).unwrap();
    assert_eq!(
        v,
        BacnetValue::ObjectId {
            object_type: 8,
            instance: 1
        }
    );
    assert_eq!(n, 5);
}

#[test]
fn decode_object_id_analog_input_5() {
    // AnalogInput (type 0) instance 5 → 0x00000005
    let data = [0xC4, 0x00, 0x00, 0x00, 0x05];
    let (v, n) = decode_application_tag(&data).unwrap();
    assert_eq!(
        v,
        BacnetValue::ObjectId {
            object_type: 0,
            instance: 5
        }
    );
    assert_eq!(n, 5);
}

#[test]
fn decode_context_tag_skipped() {
    // Context tag: class=1 (bit3=1), tag_num=0 (bits7-4=0), LVT=4 → 0x0C
    let data = [0x0C, 0x02, 0x00, 0x00, 0x01];
    let (v, n) = decode_application_tag(&data).unwrap();
    assert_eq!(v, BacnetValue::Unknown);
    assert_eq!(n, 5);
}

#[test]
fn decode_empty_returns_error() {
    assert!(decode_application_tag(&[]).is_err());
}

#[test]
fn to_f64_real() {
    assert_eq!(single(72.5f32).to_f64(), Some(72.5f32 as f64));
}

#[test]
fn to_f64_double() {
    assert_eq!(double(3.14).to_f64(), Some(3.14));
}

#[test]
fn to_f64_unsigned() {
    assert_eq!(BacnetValue::Unsigned(42).to_f64(), Some(42.0));
}

#[test]
fn to_f64_signed() {
    assert_eq!(BacnetValue::Signed(-5).to_f64(), Some(-5.0));
}

#[test]
fn to_f64_boolean_true() {
    assert_eq!(BacnetValue::Boolean(true).to_f64(), Some(1.0));
}

#[test]
fn to_f64_boolean_false() {
    assert_eq!(BacnetValue::Boolean(false).to_f64(), Some(0.0));
}

#[test]
fn to_f64_enumerated() {
    assert_eq!(BacnetValue::Enumerated(7).to_f64(), Some(7.0));
}

#[test]
fn to_f64_null_returns_none() {
    assert_eq!(BacnetValue::Null.to_f64(), None);
}

#[test]
fn to_f64_unknown_returns_none() {
    assert_eq!(BacnetValue::Unknown.to_f64(), None);
}

#[test]
fn to_f64_char_string_returns_none() {
    assert_eq!(BacnetValue::CharacterString("hello".into()).to_f64(), None);
}

#[test]
fn to_f64_object_id_returns_none() {
    assert_eq!(
        BacnetValue::ObjectId {
            object_type: 0,
            instance: 1
        }
        .to_f64(),
        None
    );
}

#[test]
fn encode_unsigned_1_byte() {
    assert_eq!(encode_unsigned(0), vec![0x21, 0x00]);
    assert_eq!(encode_unsigned(5), vec![0x21, 0x05]);
    assert_eq!(encode_unsigned(255), vec![0x21, 0xFF]);
}

#[test]
fn encode_unsigned_2_bytes() {
    assert_eq!(encode_unsigned(256), vec![0x22, 0x01, 0x00]);
    assert_eq!(encode_unsigned(0xFFFF), vec![0x22, 0xFF, 0xFF]);
}

#[test]
fn encode_unsigned_4_bytes() {
    assert_eq!(
        encode_unsigned(0x01000000),
        vec![0x24, 0x01, 0x00, 0x00, 0x00]
    );
}

#[test]
fn encode_unsigned_round_trips() {
    for n in [
        0u32, 1, 127, 128, 255, 256, 0xFFFF, 0x10000, 0xFFFFFF, 0xFFFFFFFF,
    ] {
        let encoded = encode_unsigned(n);
        // Verify the tag byte has tag=2, class=app.
        let tag_num = (encoded[0] >> 4) & 0x0F;
        assert_eq!(tag_num, 2, "tag number should be 2 for Unsigned");
        let class = (encoded[0] >> 3) & 0x01;
        assert_eq!(class, 0, "class should be 0 (application)");
        // Decode and verify round-trip.
        let (v, _) = decode_application_tag(&encoded).unwrap();
        assert_eq!(v, BacnetValue::Unsigned(n), "round-trip failed for {n}");
    }
}

#[test]
fn encode_object_id_context_tag0() {
    // Context tag 0, AnalogInput (type 0), instance 5.
    // Expected tag byte: (0 << 4) | 0x08 | 0x04 = 0x0C
    // Raw value: (0 << 22) | 5 = 0x00000005
    let encoded = encode_object_id_context(0, 0, 5);
    assert_eq!(encoded, vec![0x0C, 0x00, 0x00, 0x00, 0x05]);
}

#[test]
fn encode_object_id_context_device() {
    // Context tag 3, Device (type 8), instance 1.
    // Tag byte: (3 << 4) | 0x08 | 0x04 = 0x3C
    // Raw: (8 << 22) | 1 = 0x02000001
    let encoded = encode_object_id_context(3, 8, 1);
    assert_eq!(encoded, vec![0x3C, 0x02, 0x00, 0x00, 0x01]);
    assert_eq!(encoded.len(), 5);
}

#[test]
fn encode_object_id_context_sets_context_class_bit() {
    let encoded = encode_object_id_context(1, 2, 10);
    // Bit 3 of the tag byte must be 1 (context class).
    assert_ne!(encoded[0] & 0x08, 0, "context class bit must be set");
}

#[test]
fn encode_property_id_context_present_value() {
    // Context tag 2, PresentValue = 85 (0x55) → 1-byte encoding.
    // Tag byte: (2 << 4) | 0x08 | 0x01 = 0x29
    let encoded = encode_property_id_context(2, 85);
    assert_eq!(encoded, vec![0x29, 0x55]);
}

#[test]
fn encode_property_id_context_sets_context_class_bit() {
    let encoded = encode_property_id_context(0, 85);
    assert_ne!(encoded[0] & 0x08, 0, "context class bit must be set");
}

#[test]
fn encode_property_id_context_large_value() {
    // Property IDs > 255 must use 2+ bytes.
    let encoded = encode_property_id_context(1, 0x0100);
    // LVT should be 2 (2 value bytes).
    let lvt = (encoded[0] & 0x07) as usize;
    assert_eq!(lvt, 2);
    assert_eq!(encoded.len(), 3);
}

/// Two-byte Unsigned: 1476 = 0x05C4, tag 2, LVT=2.
#[test]
fn decode_unsigned_two_bytes_1476() {
    // [0x22, 0x05, 0xC4]: tag=2, app, LVT=2, value=0x05C4=1476
    let data = [0x22u8, 0x05, 0xC4];
    let (val, consumed) = decode_application_tag(&data).unwrap();
    assert_eq!(consumed, 3);
    assert!(
        matches!(val, BacnetValue::Unsigned(1476)),
        "expected Unsigned(1476), got {:?}",
        val
    );
}

/// Enumerated one byte: tag 9, LVT=1, value=3.
#[test]
fn decode_enumerated_segmentation_none() {
    // [0x91, 0x03]: tag=9, app, LVT=1, value=3 (segmentation=none)
    let data = [0x91u8, 0x03];
    let (val, consumed) = decode_application_tag(&data).unwrap();
    assert_eq!(consumed, 2);
    assert!(
        matches!(val, BacnetValue::Enumerated(3)),
        "expected Enumerated(3), got {:?}",
        val
    );
}

/// CharString "hello": tag 7, LVT=5 (extended 1-byte length), length=6
/// (encoding byte 0x00 + 5 chars).
#[test]
fn decode_charstring_hello() {
    // tag byte 0x75 = (7 << 4) | 5: tag 7, app, LVT=5 (extended 1-byte length)
    // next byte: 0x06 = length (encoding byte + 5 chars = 6)
    // payload: 0x00 (UTF-8 encoding byte) + "hello" (5 bytes)
    let data = [0x75u8, 0x06, 0x00, b'h', b'e', b'l', b'l', b'o'];
    let (val, consumed) = decode_application_tag(&data).unwrap();
    assert_eq!(consumed, 8, "1 tag byte + 1 length byte + 6 payload bytes");
    match val {
        BacnetValue::CharacterString(s) => assert_eq!(s, "hello"),
        other => panic!("expected CharacterString, got {:?}", other),
    }
}

/// CharString "hello" using direct LVT encoding (LVT = byte count ≤ 4).
/// LVT=3 would encode "hi" (2 chars + encoding byte = 3 bytes total).
#[test]
fn decode_charstring_short_direct_lvt() {
    // tag byte 0x73 = (7 << 4) | 3: tag 7, app, LVT=3 (direct count = 3 bytes)
    // payload: 0x00 (UTF-8 encoding byte) + "hi" (2 bytes)
    let data = [0x73u8, 0x00, b'h', b'i'];
    let (val, consumed) = decode_application_tag(&data).unwrap();
    assert_eq!(consumed, 4, "1 tag byte + 3 payload bytes");
    match val {
        BacnetValue::CharacterString(s) => assert_eq!(s, "hi"),
        other => panic!("expected CharacterString, got {:?}", other),
    }
}

/// ObjectId: AnalogInput (type 0), instance 1.
#[test]
fn decode_object_id_analog_input_instance_1() {
    // tag=12, LVT=4: (0 << 22) | 1 = 0x00000001
    let data = [0xC4u8, 0x00, 0x00, 0x00, 0x01];
    let (val, consumed) = decode_application_tag(&data).unwrap();
    assert_eq!(consumed, 5);
    match val {
        BacnetValue::ObjectId {
            object_type,
            instance,
        } => {
            assert_eq!(object_type, 0, "AnalogInput type = 0");
            assert_eq!(instance, 1);
        }
        other => panic!("expected ObjectId, got {:?}", other),
    }
}

/// ObjectId: Device type (8) at max instance 4,194,302.
#[test]
fn decode_object_id_device_max_instance() {
    let max_instance = 4_194_302u32;
    let raw: u32 = (8u32 << 22) | max_instance;
    let b = raw.to_be_bytes();
    let data = [0xC4u8, b[0], b[1], b[2], b[3]];
    let (val, consumed) = decode_application_tag(&data).unwrap();
    assert_eq!(consumed, 5);
    match val {
        BacnetValue::ObjectId {
            object_type,
            instance,
        } => {
            assert_eq!(object_type, 8, "Device type = 8");
            assert_eq!(instance, max_instance);
        }
        other => panic!("expected ObjectId, got {:?}", other),
    }
}

/// to_f64 for Real with a specific known value.
#[test]
fn to_f64_real_72_5() {
    let v = single(72.5f32);
    let f = v.to_f64().unwrap();
    assert!((f - 72.5f64).abs() < 0.001, "expected ~72.5, got {f}");
}

/// to_f64 for Enumerated returns the numeric value as f64.
#[test]
fn to_f64_enumerated_value() {
    assert_eq!(BacnetValue::Enumerated(5).to_f64(), Some(5.0));
    assert_eq!(BacnetValue::Enumerated(0).to_f64(), Some(0.0));
}

/// to_f64 for OctetString returns None (non-numeric).
#[test]
fn to_f64_octet_string_returns_none() {
    assert_eq!(BacnetValue::OctetString(vec![0xDE, 0xAD]).to_f64(), None);
}

/// to_f64 for ObjectId returns None (not a scalar).
#[test]
fn to_f64_object_id_none() {
    let v = BacnetValue::ObjectId {
        object_type: 0,
        instance: 1,
    };
    assert!(v.to_f64().is_none());
}

/// Signed negative value round-trip: -128 as i8.
#[test]
fn decode_signed_min_i8() {
    // [0x31, 0x80]: tag=3, app, LVT=1, byte=0x80 → -128i8 → -128i32
    let (val, consumed) = decode_application_tag(&[0x31u8, 0x80]).unwrap();
    assert_eq!(consumed, 2);
    assert!(
        matches!(val, BacnetValue::Signed(-128)),
        "expected Signed(-128), got {:?}",
        val
    );
}

/// Double round-trip for a specific value.
#[test]
fn decode_double_neg_inf() {
    let bytes = f64::NEG_INFINITY.to_be_bytes();
    let mut data = vec![0x55u8]; // tag=5, LVT=don't-care
    data.extend_from_slice(&bytes);
    let (val, consumed) = decode_application_tag(&data).unwrap();
    assert_eq!(consumed, 9);
    match val {
        BacnetValue::Double(bits) => {
            let v = f64::from_bits(bits);
            assert!(v.is_infinite() && v.is_sign_negative());
        }
        other => panic!("expected Double, got {:?}", other),
    }
}

/// Unsigned zero encodes and decodes cleanly.
#[test]
fn decode_unsigned_zero() {
    let (val, consumed) = decode_application_tag(&[0x21u8, 0x00]).unwrap();
    assert_eq!(consumed, 2);
    assert!(matches!(val, BacnetValue::Unsigned(0)));
}

/// encode_unsigned for value 1476 produces exactly [0x22, 0x05, 0xC4].
#[test]
fn encode_unsigned_1476() {
    let encoded = encode_unsigned(1476);
    assert_eq!(encoded, vec![0x22, 0x05, 0xC4]);
    let (val, _) = decode_application_tag(&encoded).unwrap();
    assert!(matches!(val, BacnetValue::Unsigned(1476)));
}

#[test]
fn array_variant_exists_and_holds_values() {
    let arr = BacnetValue::Array(vec![
        single(1.0),
        single(2.0),
        single(3.0),
    ]);
    match &arr {
        BacnetValue::Array(items) => assert_eq!(items.len(), 3),
        _ => panic!("expected Array variant"),
    }
}

#[test]
fn array_to_f64_returns_first_numeric() {
    let arr = BacnetValue::Array(vec![single(42.5), BacnetValue::Unsigned(100)]);
    assert_eq!(arr.to_f64(), Some(42.5_f64));
}

#[test]
fn array_to_f64_empty_returns_none() {
    let arr = BacnetValue::Array(vec![]);
    assert_eq!(arr.to_f64(), None);
}

#[test]
fn array_to_f64_first_non_numeric_returns_none() {
    let arr = BacnetValue::Array(vec![
        BacnetValue::CharacterString("hello".into()),
        single(1.0),
    ]);
    assert_eq!(
        arr.to_f64(),
        None,
        "first element is non-numeric so should return None"
    );
}

#[test]
fn array_to_f64_object_ids_returns_none() {
    let arr = BacnetValue::Array(vec![
        BacnetValue::ObjectId {
            object_type: 0,
            instance: 1,
        },
        BacnetValue::ObjectId {
            object_type: 3,
            instance: 0,
        },
    ]);
    assert_eq!(arr.to_f64(), None, "ObjectId is non-numeric");
}

#[test]
fn array_can_hold_mixed_types() {
    let arr = BacnetValue::Array(vec![
        BacnetValue::ObjectId {
            object_type: 0,
            instance: 1,
        },
        BacnetValue::ObjectId {
            object_type: 8,
            instance: 99,
        },
        BacnetValue::ObjectId {
            object_type: 3,
            instance: 0,
        },
    ]);
    if let BacnetValue::Array(items) = &arr {
        let object_ids: Vec<(u16, u32)> = items
            .iter()
            .filter_map(|v| match v {
                BacnetValue::ObjectId {
                    object_type,
                    instance,
                } => Some((*object_type, *instance)),
                _ => None,
            })
            .collect();
        assert_eq!(object_ids, vec![(0, 1), (8, 99), (3, 0)]);
    } else {
        panic!("expected Array");
    }
}

#[test]
fn array_equality() {
    let a = BacnetValue::Array(vec![single(1.0), BacnetValue::Unsigned(2)]);
    let b = BacnetValue::Array(vec![single(1.0), BacnetValue::Unsigned(2)]);
    let c = BacnetValue::Array(vec![single(1.0)]);
    assert_eq!(a, b);
    assert_ne!(a, c);
}

#[test]
fn array_to_f64_nested_array_first_element() {
    let inner = BacnetValue::Array(vec![single(3.14)]);
    let outer = BacnetValue::Array(vec![inner]);
    // to_f64 on outer → tries first element (inner Array) → tries inner's first (Real(3.14))
    // Real is f32, so we compare via f32→f64 widening to avoid precision mismatch.
    assert_eq!(outer.to_f64(), Some(3.14_f32 as f64));
}

#[test]
fn array_clone_and_debug() {
    let arr = BacnetValue::Array(vec![BacnetValue::Boolean(true)]);
    let cloned = arr.clone();
    assert_eq!(arr, cloned);
    // Debug formatting should not panic
    let _ = format!("{arr:?}");
}

#[test]
fn empty_array_equality() {
    let a = BacnetValue::Array(vec![]);
    let b = BacnetValue::Array(vec![]);
    assert_eq!(a, b);
}

#[test]
fn extended_lengths_of_strings() {
    let data = [0x65, 0x06, 1, 2, 3, 4, 5, 6];
    assert_eq!(
        decode_application_tag(&data).unwrap(),
        (BacnetValue::OctetString(vec![1, 2, 3, 4, 5, 6]), 8)
    );
    let data = [0x66, 0x00, 0x02, 7, 8, 9];
    assert_eq!(
        decode_application_tag(&data).unwrap(),
        (BacnetValue::OctetString(vec![7, 8]), 5)
    );
    let data = [0x87, 0x00, 0x00, 0x00, 0x02, 3, 0xA0];
    assert_eq!(
        decode_application_tag(&data).unwrap(),
        (BacnetValue::BitString(vec![3, 0xA0]), 7)
    );
    let data = [0x85, 0x00];
    assert_eq!(decode_application_tag(&data).unwrap(), (BacnetValue::BitString(vec![]), 2));
    let data = [0x77, 0x00, 0x00, 0x00, 0x03, 0x00, b'h', b'i'];
    assert_eq!(
        decode_application_tag(&data).unwrap(),
        (BacnetValue::CharacterString("hi".to_string()), 8)
    );
    let data = [0x77, 0x00, 0x00, 0x00, 0x00];
    assert_eq!(
        decode_application_tag(&data).unwrap(),
        (BacnetValue::CharacterString(String::new()), 5)
    );
}

#[test]
fn extended_lengths_that_are_cut_off() {
    let cases: Vec<(Vec<u8>, &str)> = vec![
        (vec![0x65], "OctetString truncated"),
        (vec![0x65, 2, 1], "OctetString truncated"),
        (vec![0x66, 0], "OctetString truncated"),
        (vec![0x67, 0, 0, 0], "OctetString truncated"),
        (vec![0x67, 0xFF, 0xFF, 0xFF, 0xFF, 1], "OctetString truncated"),
        (vec![0x85], "BitString truncated"),
        (vec![0x86, 0, 3, 1, 2], "BitString truncated"),
        (vec![0x75], "CharacterString extended length truncated"),
        (vec![0x77, 0, 0, 0], "CharacterString extended length truncated"),
        (vec![0x77, 0xFF, 0xFF, 0xFF, 0xFF, 0], "CharacterString truncated"),
    ];
    for (data, reason) in cases {
        match decode_application_tag(&data) {
            Err(e) => assert_eq!(e.to_string(), format!("malformed frame: {reason}")),
            Ok(v) => panic!("{data:?} decoded to {v:?}"),
        }
    }
}
