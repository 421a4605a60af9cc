//! Configuration of the BACnet/IP driver.

use vstd::prelude::*;

use super::object::{BacnetObject, ONE_BITS, ZERO_BITS};

verus! {

/// Standard BACnet/IP UDP port number (0xBAC0).
pub const DEFAULT_BACNET_PORT: u16 = 47808;

/// Top-level BACnet driver configuration.
#[derive(Debug)]
pub struct BacnetConfig {
    /// Unique driver instance identifier.
    pub id: String,
    /// UDP port number. Defaults to 47808 (0xBAC0) when `None`.
    pub port: Option<u16>,
    /// Broadcast address string (e.g. `"255.255.255.255"`).
    /// Defaults to `"255.255.255.255"` when `None`.
    pub broadcast: Option<String>,
    /// List of BACnet objects to poll.
    pub objects: Vec<BacnetObjectConfig>,
    /// Optional BBMD (Broadcast Management Device) address for multi-subnet
    /// support, in the form "host:port" (e.g. "192.168.2.1:47808"). When set,
    /// the driver registers as a foreign device with this BBMD while opening.
    pub bbmd: Option<String>,
}

/// Configuration for a single BACnet object to poll.
#[derive(Debug)]
pub struct BacnetObjectConfig {
    /// Point ID this object maps to.
    pub point_id: u32,
    /// BACnet device instance that owns this object.
    pub device_id: u32,
    /// BACnet object type (0 = Analog Input, 1 = Analog Output, ...).
    pub object_type: u16,
    /// BACnet object instance number.
    pub instance: u32,
    /// Optional engineering-unit string.
    pub unit: Option<String>,
    /// Bits of the scale factor applied to the raw value. Defaults to one.
    pub scale: Option<u64>,
    /// Bits of the offset applied after `scale`. Defaults to zero.
    pub offset: Option<u64>,
}

/// The object that a configuration entry describes.
pub open spec fn object_of(c: BacnetObjectConfig) -> BacnetObject {
    BacnetObject {
        device_id: c.device_id,
        object_type: c.object_type,
        instance: c.instance,
        scale: match c.scale {
            Some(bits) => bits,
            None => ONE_BITS,
        },
        offset: match c.offset {
            Some(bits) => bits,
            None => ZERO_BITS,
        },
        unit: c.unit,
    }
}

impl BacnetObjectConfig {
    /// The object that this entry describes.
    pub fn to_object(&self) -> (res: BacnetObject)
        ensures
            res == object_of(*self),
    {
        BacnetObject {
            device_id: self.device_id,
            object_type: self.object_type,
            instance: self.instance,
            scale: match self.scale {
                Some(bits) => bits,
                None => ONE_BITS,
            },
            offset: match self.offset {
                Some(bits) => bits,
                None => ZERO_BITS,
            },
            unit: match &self.unit {
                Some(u) => Some(u.clone()),
                None => None,
            },
        }
    }
}

/// An object map after entries have been added, one after the other.
pub open spec fn all_configured(
    objects: Map<u32, BacnetObject>,
    entries: Seq<BacnetObjectConfig>,
) -> Map<u32, BacnetObject>
    decreases entries.len(),
{
    if entries.len() == 0 {
        objects
    } else {
        all_configured(objects, entries.drop_last()).insert(
            entries.last().point_id,
            object_of(entries.last()),
        )
    }
}

/// What a generic loader needs to know of BACnet configurations.
pub struct BacnetLoader;

impl BacnetLoader {
    /// The environment variable that holds a list of configurations.
    pub fn env_var() -> (res: &'static str)
        ensures
            res@ == "SANDSTAR_BACNET_CONFIGS"@,
    {
        "SANDSTAR_BACNET_CONFIGS"
    }

    /// The driver type.
    pub fn driver_type() -> (res: &'static str)
        ensures
            res@ == "bacnet"@,
    {
        "bacnet"
    }

    /// The name used in messages.
    pub fn label() -> (res: &'static str)
        ensures
            res@ == "BACnet"@,
    {
        "BACnet"
    }

    /// The driver ID of a configuration.
    pub fn config_id(config: &BacnetConfig) -> (res: String)
        ensures
            res == config.id,
    {
        config.id.clone()
    }

    /// The point IDs of a configuration, in order.
    pub fn config_point_ids(config: &BacnetConfig) -> (res: Vec<u32>)
        ensures
            res@ == config.objects@.map_values(|o: BacnetObjectConfig| o.point_id),
    {
        let mut out: Vec<u32> = Vec::new();
        let mut i: usize = 0;
        while i < config.objects.len()
            invariant
                i <= config.objects@.len(),
                out@.len() == i,
                forall|k: int| 0 <= k < i ==> out@[k] == config.objects@[k].point_id,
            decreases config.objects@.len() - i,
        {
            out.push(config.objects[i].point_id);
            i += 1;
        }
        assert(out@ =~= config.objects@.map_values(|o: BacnetObjectConfig| o.point_id));
        out
    }
}

} // verus!
