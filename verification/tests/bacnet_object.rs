//! BACnet object types, property identifiers and objects.

use sandstar_drivers::bacnet::object::{BacnetObject, ObjectType, PropertyId};

#[test]
fn object_type_analog_input_discriminant() {
    assert_eq!(ObjectType::AnalogInput.to_u16(), 0);
}

#[test]
fn object_type_analog_output_discriminant() {
    assert_eq!(ObjectType::AnalogOutput.to_u16(), 1);
}

#[test]
fn object_type_analog_value_discriminant() {
    assert_eq!(ObjectType::AnalogValue.to_u16(), 2);
}

#[test]
fn object_type_binary_input_discriminant() {
    assert_eq!(ObjectType::BinaryInput.to_u16(), 3);
}

#[test]
fn object_type_binary_output_discriminant() {
    assert_eq!(ObjectType::BinaryOutput.to_u16(), 4);
}

#[test]
fn object_type_binary_value_discriminant() {
    assert_eq!(ObjectType::BinaryValue.to_u16(), 5);
}

#[test]
fn object_type_device_discriminant() {
    assert_eq!(ObjectType::Device.to_u16(), 8);
}

#[test]
fn object_type_trend_log_discriminant() {
    assert_eq!(ObjectType::TrendLog.to_u16(), 20);
}

#[test]
fn from_u16_round_trips_all_variants() {
    let variants = [
        ObjectType::AnalogInput,
        ObjectType::AnalogOutput,
        ObjectType::AnalogValue,
        ObjectType::BinaryInput,
        ObjectType::BinaryOutput,
        ObjectType::BinaryValue,
        ObjectType::Device,
        ObjectType::TrendLog,
    ];
    for v in variants {
        let n = v.to_u16();
        assert_eq!(
            ObjectType::from_u16(n),
            Some(v),
            "from_u16({n}) should return {v:?}"
        );
    }
}

#[test]
fn from_u16_returns_none_for_unknown_values() {
    assert!(ObjectType::from_u16(99).is_none());
    assert!(ObjectType::from_u16(6).is_none());
    assert!(ObjectType::from_u16(7).is_none());
    assert!(ObjectType::from_u16(9).is_none());
    assert!(ObjectType::from_u16(65535).is_none());
}

#[test]
fn is_analog_true_for_analog_types() {
    assert!(ObjectType::AnalogInput.is_analog());
    assert!(ObjectType::AnalogOutput.is_analog());
    assert!(ObjectType::AnalogValue.is_analog());
}

#[test]
fn is_analog_false_for_non_analog_types() {
    assert!(!ObjectType::BinaryInput.is_analog());
    assert!(!ObjectType::BinaryOutput.is_analog());
    assert!(!ObjectType::BinaryValue.is_analog());
    assert!(!ObjectType::Device.is_analog());
    assert!(!ObjectType::TrendLog.is_analog());
}

#[test]
fn is_binary_true_for_binary_types() {
    assert!(ObjectType::BinaryInput.is_binary());
    assert!(ObjectType::BinaryOutput.is_binary());
    assert!(ObjectType::BinaryValue.is_binary());
}

#[test]
fn is_binary_false_for_non_binary_types() {
    assert!(!ObjectType::AnalogInput.is_binary());
    assert!(!ObjectType::AnalogOutput.is_binary());
    assert!(!ObjectType::AnalogValue.is_binary());
    assert!(!ObjectType::Device.is_binary());
    assert!(!ObjectType::TrendLog.is_binary());
}

#[test]
fn no_type_is_both_analog_and_binary() {
    let variants = [
        ObjectType::AnalogInput,
        ObjectType::AnalogOutput,
        ObjectType::AnalogValue,
        ObjectType::BinaryInput,
        ObjectType::BinaryOutput,
        ObjectType::BinaryValue,
        ObjectType::Device,
        ObjectType::TrendLog,
    ];
    for v in variants {
        assert!(
            !(v.is_analog() && v.is_binary()),
            "{v:?} must not be both analog and binary"
        );
    }
}

#[test]
fn property_id_discriminants() {
    assert_eq!(PropertyId::Description.to_u32(), 28);
    assert_eq!(PropertyId::ObjectList.to_u32(), 76);
    assert_eq!(PropertyId::ObjectName.to_u32(), 77);
    assert_eq!(PropertyId::PresentValue.to_u32(), 85);
    assert_eq!(PropertyId::SystemStatus.to_u32(), 112);
    assert_eq!(PropertyId::Units.to_u32(), 117);
}

#[test]
fn property_id_from_u32_round_trips() {
    let variants = [
        PropertyId::Description,
        PropertyId::ObjectList,
        PropertyId::ObjectName,
        PropertyId::PresentValue,
        PropertyId::SystemStatus,
        PropertyId::Units,
    ];
    for p in variants {
        let n = p.to_u32();
        assert_eq!(
            PropertyId::from_u32(n),
            Some(p),
            "from_u32({n}) should return {p:?}"
        );
    }
}

#[test]
fn property_id_from_u32_returns_none_for_unknown() {
    assert!(PropertyId::from_u32(0).is_none());
    assert!(PropertyId::from_u32(99).is_none());
    assert!(PropertyId::from_u32(u32::MAX).is_none());
}

#[test]
fn bacnet_object_fields_accessible() {
    let obj = BacnetObject {
        device_id: 100,
        object_type: ObjectType::AnalogInput.to_u16(),
        instance: 7,
        scale: (2.5f64).to_bits(),
        offset: (-10.0f64).to_bits(),
        unit: Some("degF".into()),
    };

    assert_eq!(obj.device_id, 100);
    assert_eq!(obj.object_type, 0u16); // AnalogInput = 0
    assert_eq!(obj.instance, 7);
    assert_eq!(f64::from_bits(obj.scale), 2.5);
    assert_eq!(f64::from_bits(obj.offset), -10.0);
    assert_eq!(obj.unit.as_deref(), Some("degF"));
}

#[test]
fn bacnet_object_default_scale_and_offset() {
    let obj = BacnetObject {
        device_id: 42,
        object_type: ObjectType::BinaryInput.to_u16(),
        instance: 1,
        scale: (1.0f64).to_bits(),
        offset: (0.0f64).to_bits(),
        unit: None,
    };
    assert_eq!(f64::from_bits(obj.scale), 1.0);
    assert_eq!(f64::from_bits(obj.offset), 0.0);
    assert!(obj.unit.is_none());
}

#[test]
fn bacnet_object_unknown_type_stored_as_raw_u16() {
    // Unknown vendor-specific type 200 should be storable without panic.
    let obj = BacnetObject {
        device_id: 1,
        object_type: 200,
        instance: 0,
        scale: (1.0f64).to_bits(),
        offset: (0.0f64).to_bits(),
        unit: None,
    };
    assert_eq!(obj.object_type, 200);
    // from_u16 on this raw value should return None (unknown type).
    assert!(ObjectType::from_u16(200).is_none());
}

#[test]
fn bacnet_object_clone_is_independent() {
    let original = BacnetObject {
        device_id: 5,
        object_type: ObjectType::AnalogValue.to_u16(),
        instance: 3,
        scale: (1.0f64).to_bits(),
        offset: (0.0f64).to_bits(),
        unit: Some("psi".into()),
    };
    let mut cloned = original.clone();
    cloned.device_id = 999;
    cloned.unit = Some("bar".into());

    // Original should be unchanged.
    assert_eq!(original.device_id, 5);
    assert_eq!(original.unit.as_deref(), Some("psi"));
}
