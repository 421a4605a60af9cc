//! BACnet object types, property identifiers, and driver configuration.
//!
//! The pure data types with which the BACnet/IP driver describes the objects
//! it polls.

use vstd::prelude::*;

verus! {

// ── ObjectType ──────────────────────────────────────────────

/// BACnet object type numbers per ASHRAE 135-2020 Table 23-2.
///
/// [`ObjectType::to_u16`] gives the number on the wire and
/// [`ObjectType::from_u16`] decodes a received one.
#[derive(Debug, Clone, Copy, PartialEq, Eq, Hash, Structural)]
pub enum ObjectType {
    /// Analog Input: 0.
    AnalogInput,
    /// Analog Output: 1.
    AnalogOutput,
    /// Analog Value: 2.
    AnalogValue,
    /// Binary Input: 3.
    BinaryInput,
    /// Binary Output: 4.
    BinaryOutput,
    /// Binary Value: 5.
    BinaryValue,
    /// Device: 8.
    Device,
    /// Trend Log: 20.
    TrendLog,
}

/// The number of an object type on the wire.
pub open spec fn object_type_number(t: ObjectType) -> u16 {
    match t {
        ObjectType::AnalogInput => 0,
        ObjectType::AnalogOutput => 1,
        ObjectType::AnalogValue => 2,
        ObjectType::BinaryInput => 3,
        ObjectType::BinaryOutput => 4,
        ObjectType::BinaryValue => 5,
        ObjectType::Device => 8,
        ObjectType::TrendLog => 20,
    }
}

/// Whether an object type has a floating-point present value.
pub open spec fn analog(t: ObjectType) -> bool {
    t is AnalogInput || t is AnalogOutput || t is AnalogValue
}

/// Whether an object type has an on/off present value.
pub open spec fn binary(t: ObjectType) -> bool {
    t is BinaryInput || t is BinaryOutput || t is BinaryValue
}

impl ObjectType {
    /// The number of this type on the wire.
    pub fn to_u16(&self) -> (n: u16)
        ensures
            n == object_type_number(*self),
    {
        match self {
            ObjectType::AnalogInput => 0,
            ObjectType::AnalogOutput => 1,
            ObjectType::AnalogValue => 2,
            ObjectType::BinaryInput => 3,
            ObjectType::BinaryOutput => 4,
            ObjectType::BinaryValue => 5,
            ObjectType::Device => 8,
            ObjectType::TrendLog => 20,
        }
    }

    /// Convert a raw wire value to an [`ObjectType`], returning `None` for
    /// values that do not correspond to a known variant.
    pub fn from_u16(n: u16) -> (res: Option<ObjectType>)
        ensures
            match res {
                Some(t) => object_type_number(t) == n,
                None => forall|t: ObjectType| object_type_number(t) != n,
            },
    {
        match n {
            0 => Some(ObjectType::AnalogInput),
            1 => Some(ObjectType::AnalogOutput),
            2 => Some(ObjectType::AnalogValue),
            3 => Some(ObjectType::BinaryInput),
            4 => Some(ObjectType::BinaryOutput),
            5 => Some(ObjectType::BinaryValue),
            8 => Some(ObjectType::Device),
            20 => Some(ObjectType::TrendLog),
            _ => None,
        }
    }

    /// Return `true` if this object type carries an analog (floating-point)
    /// present value.
    ///
    /// Covers [`ObjectType::AnalogInput`], [`ObjectType::AnalogOutput`], and
    /// [`ObjectType::AnalogValue`].
    pub fn is_analog(&self) -> (res: bool)
        ensures
            res == analog(*self),
    {
        matches!(
            self,
            ObjectType::AnalogInput | ObjectType::AnalogOutput | ObjectType::AnalogValue
        )
    }

    /// Return `true` if this object type carries a binary (on/off) present value.
    ///
    /// Covers [`ObjectType::BinaryInput`], [`ObjectType::BinaryOutput`], and
    /// [`ObjectType::BinaryValue`].
    pub fn is_binary(&self) -> (res: bool)
        ensures
            res == binary(*self),
    {
        matches!(
            self,
            ObjectType::BinaryInput | ObjectType::BinaryOutput | ObjectType::BinaryValue
        )
    }
}

/// No two object types share a number on the wire.
pub proof fn object_type_number_is_unique(a: ObjectType, b: ObjectType)
    ensures
        object_type_number(a) == object_type_number(b) ==> a == b,
{
}

/// No object type is both analog and binary.
pub proof fn analog_is_not_binary(t: ObjectType)
    ensures
        !(analog(t) && binary(t)),
{
}

// ── PropertyId ──────────────────────────────────────────────

/// BACnet property identifiers per ASHRAE 135-2020 Table 23-4.
///
/// [`PropertyId::to_u32`] gives the number used in `ReadProperty-Request` and
/// `ReadProperty-ACK` APDUs.
#[derive(Debug, Clone, Copy, PartialEq, Eq, Structural)]
pub enum PropertyId {
    /// Property 28: a text string describing the object.
    Description,
    /// Property 76: the list of object identifiers on a device.
    ObjectList,
    /// Property 77: a unique text identifier for the object.
    ObjectName,
    /// Property 85: the current value of the object.
    PresentValue,
    /// Property 112: the operational status of a device.
    SystemStatus,
    /// Property 117: the engineering unit of the present value.
    Units,
}

/// The number of a property on the wire.
pub open spec fn property_number(p: PropertyId) -> u32 {
    match p {
        PropertyId::Description => 28,
        PropertyId::ObjectList => 76,
        PropertyId::ObjectName => 77,
        PropertyId::PresentValue => 85,
        PropertyId::SystemStatus => 112,
        PropertyId::Units => 117,
    }
}

impl PropertyId {
    /// The number of this property on the wire.
    pub fn to_u32(&self) -> (n: u32)
        ensures
            n == property_number(*self),
    {
        match self {
            PropertyId::Description => 28,
            PropertyId::ObjectList => 76,
            PropertyId::ObjectName => 77,
            PropertyId::PresentValue => 85,
            PropertyId::SystemStatus => 112,
            PropertyId::Units => 117,
        }
    }

    /// Convert a raw wire value to a [`PropertyId`], returning `None` for
    /// values that do not correspond to a known variant.
    pub fn from_u32(n: u32) -> (res: Option<PropertyId>)
        ensures
            match res {
                Some(p) => property_number(p) == n,
                None => forall|p: PropertyId| property_number(p) != n,
            },
    {
        match n {
            28 => Some(PropertyId::Description),
            76 => Some(PropertyId::ObjectList),
            77 => Some(PropertyId::ObjectName),
            85 => Some(PropertyId::PresentValue),
            112 => Some(PropertyId::SystemStatus),
            117 => Some(PropertyId::Units),
            _ => None,
        }
    }
}

/// No two properties share a number on the wire.
pub proof fn property_number_is_unique(a: PropertyId, b: PropertyId)
    ensures
        property_number(a) == property_number(b) ==> a == b,
{
}

// ── BacnetObject ────────────────────────────────────────────

/// A single BACnet point as configured in the driver.
///
/// Each `BacnetObject` maps a point to a BACnet object on a remote device. The
/// raw number that the device returns becomes the engineering value by
///
/// ```text
/// engineering_value = raw * scale + offset
/// ```
#[derive(Debug, PartialEq, Eq)]
pub struct BacnetObject {
    /// Device instance number that owns this object.
    pub device_id: u32,
    /// BACnet object type as a raw number, so that unknown and
    /// vendor-specific types can be represented.
    pub object_type: u16,
    /// BACnet object instance number within the device.
    pub instance: u32,
    /// Bits of the double-precision scale factor. Default: one.
    pub scale: u64,
    /// Bits of the double-precision offset, applied after `scale`. Default: zero.
    pub offset: u64,
    /// Optional engineering-unit string (e.g. `"degF"`, `"psi"`, `"%RH"`).
    pub unit: Option<String>,
}

impl Clone for BacnetObject {
    fn clone(&self) -> (res: Self)
        ensures
            res == *self,
    {
        BacnetObject {
            device_id: self.device_id,
            object_type: self.object_type,
            instance: self.instance,
            scale: self.scale,
            offset: self.offset,
            unit: match &self.unit {
                Some(u) => Some(u.clone()),
                None => None,
            },
        }
    }
}

/// Bits of the double-precision number one.
pub const ONE_BITS: u64 = 0x3FF0_0000_0000_0000;

/// Bits of the double-precision number zero.
pub const ZERO_BITS: u64 = 0;

} // verus!
