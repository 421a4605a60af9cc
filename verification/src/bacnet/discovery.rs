//! BACnet device discovery via Who-Is / I-Am.

use std::collections::HashMap;

use vstd::prelude::*;
use vstd::std_specs::hash::*;

use super::frame::decode::received;
use super::frame::types::ApduView;
use super::frame::{received_apdu, Apdu};
use crate::maps::keys_of;

verus! {

// ── Addresses and devices ───────────────────────────────────

/// A UDP endpoint.
#[derive(Debug, Clone, Copy, PartialEq, Eq, Structural)]
pub enum SocketAddress {
    /// An IPv4 address, most significant byte first, and a port.
    V4 { octets: u32, port: u16 },
    /// An IPv6 address, most significant byte first, and a port.
    V6 { segments: u128, port: u16, flow_info: u32, scope_id: u32 },
}

impl SocketAddress {
    /// The port of this endpoint.
    pub fn port(&self) -> (res: u16)
        ensures
            res == match *self {
                SocketAddress::V4 { port, .. } => port,
                SocketAddress::V6 { port, .. } => port,
            },
    {
        match self {
            SocketAddress::V4 { port, .. } => *port,
            SocketAddress::V6 { port, .. } => *port,
        }
    }
}

/// A discovered BACnet device.
///
/// Learnt from its I-Am. The driver keeps devices in its registry so that
/// per-object poll requests can be addressed to the correct UDP endpoint.
#[derive(Debug, Clone, Copy, PartialEq, Eq, Structural)]
pub struct DeviceInfo {
    /// BACnet device instance number (22-bit, range 0-4 194 302).
    pub instance: u32,
    /// UDP address of the device on the BACnet/IP network.
    pub addr: SocketAddress,
    /// Maximum APDU size accepted by the device (typically 480 or 1476).
    pub max_apdu: u16,
    /// BACnet vendor ID registered with ASHRAE.
    pub vendor_id: u16,
    /// Segmentation support byte (0 = both, 1 = transmit, 2 = receive, 3 = none).
    pub segmentation: u8,
}

// ── DeviceRegistry ──────────────────────────────────────────

/// Registry of discovered BACnet devices indexed by device instance number.
///
/// Inserting the same instance a second time overwrites the previous entry,
/// which is the correct behaviour when a device re-advertises with an updated
/// address.
#[derive(Debug)]
pub struct DeviceRegistry {
    devices: HashMap<u32, DeviceInfo>,
}

impl View for DeviceRegistry {
    type V = Map<u32, DeviceInfo>;

    closed spec fn view(&self) -> Map<u32, DeviceInfo> {
        self.devices@
    }
}

/// Whether every device stands under its own instance number.
pub open spec fn by_instance(devices: Map<u32, DeviceInfo>) -> bool {
    forall|k: u32| #[trigger] devices.contains_key(k) ==> devices[k].instance == k
}

/// A registry after inserting several devices, one after the other.
pub open spec fn all_inserted(devices: Map<u32, DeviceInfo>, new: Seq<DeviceInfo>) -> Map<
    u32,
    DeviceInfo,
>
    decreases new.len(),
{
    if new.len() == 0 {
        devices
    } else {
        all_inserted(devices, new.drop_last()).insert(new.last().instance, new.last())
    }
}

impl Default for DeviceRegistry {
    fn default() -> (res: Self)
        ensures
            res@ == Map::<u32, DeviceInfo>::empty(),
    {
        broadcast use group_hash_axioms;

        DeviceRegistry { devices: HashMap::new() }
    }
}

impl DeviceRegistry {
    /// Create an empty registry.
    pub fn new() -> (res: Self)
        ensures
            res@ == Map::<u32, DeviceInfo>::empty(),
    {
        DeviceRegistry::default()
    }

    /// Insert (or overwrite) a device.
    pub fn insert(&mut self, device: DeviceInfo)
        ensures
            final(self)@ == old(self)@.insert(device.instance, device),
    {
        broadcast use group_hash_axioms;

        self.devices.insert(device.instance, device);
    }

    /// Insert several devices in one call.
    pub fn bulk_insert(&mut self, devices: Vec<DeviceInfo>)
        ensures
            final(self)@ == all_inserted(old(self)@, devices@),
    {
        let mut i: usize = 0;
        assert(devices@.subrange(0, 0) =~= Seq::empty());
        while i < devices.len()
            invariant
                i <= devices@.len(),
                self@ == all_inserted(old(self)@, devices@.subrange(0, i as int)),
            decreases devices@.len() - i,
        {
            self.insert(devices[i]);
            i += 1;
            assert(devices@.subrange(0, i as int).drop_last() =~= devices@.subrange(0, i - 1));
        }
        assert(devices@.subrange(0, i as int) =~= devices@);
    }

    /// Look up a device by its instance number.
    pub fn get(&self, instance: u32) -> (res: Option<&DeviceInfo>)
        ensures
            res == if self@.contains_key(instance) {
                Some(&self@[instance])
            } else {
                None
            },
    {
        broadcast use group_hash_axioms;

        self.devices.get(&instance)
    }

    /// Return references to all known devices (order unspecified).
    pub fn all(&self) -> (res: Vec<&DeviceInfo>)
        ensures
            exists|keys: Seq<u32>|
                keys.no_duplicates() && keys.to_set() == self@.dom() && res@.len() == keys.len()
                    && forall|i: int| 0 <= i < keys.len() ==> *res@[i] == self@[#[trigger] keys[i]],
            res@.len() == self@.dom().len(),
    {
        broadcast use group_hash_axioms;

        let keys: Vec<u32> = keys_of(&self.devices);
        let mut out: Vec<&DeviceInfo> = Vec::new();
        let mut i: usize = 0;
        while i < keys.len()
            invariant
                i <= keys@.len(),
                keys@.to_set() == self.devices@.dom(),
                out@.len() == i,
                forall|k: int| 0 <= k < i ==> *out@[k] == self@[#[trigger] keys@[k]],
            decreases keys@.len() - i,
        {
            assert(keys@.to_set().contains(keys@[i as int]));
            if let Some(d) = self.devices.get(&keys[i]) {
                out.push(d);
            }
            i += 1;
        }
        assert(keys@.no_duplicates() && keys@.to_set() == self@.dom());
        out
    }

    /// Return the number of devices in the registry.
    pub fn len(&self) -> (n: usize)
        ensures
            n == self@.dom().len(),
    {
        broadcast use group_hash_axioms;

        self.devices.len()
    }

    /// Return `true` if the registry contains no devices.
    pub fn is_empty(&self) -> (res: bool)
        ensures
            res == (self@.dom().len() == 0),
    {
        broadcast use group_hash_axioms;

        self.devices.len() == 0
    }
}

/// A registry keeps every device under its own instance number: an empty one
/// does, and inserting devices keeps it so.
pub proof fn registry_stays_by_instance(devices: Map<u32, DeviceInfo>, new: Seq<DeviceInfo>)
    requires
        by_instance(devices),
    ensures
        by_instance(Map::<u32, DeviceInfo>::empty()),
        by_instance(all_inserted(devices, new)),
    decreases new.len(),
{
    if new.len() > 0 {
        registry_stays_by_instance(devices, new.drop_last());
    }
}

/// Of several devices with the same instance number the last one stays.
pub proof fn last_inserted_stays(devices: Map<u32, DeviceInfo>, new: Seq<DeviceInfo>, i: int)
    requires
        0 <= i < new.len(),
        forall|j: int| i < j < new.len() ==> (#[trigger] new[j]).instance != new[i].instance,
    ensures
        all_inserted(devices, new).contains_key(new[i].instance),
        all_inserted(devices, new)[new[i].instance] == new[i],
    decreases new.len(),
{
    if i < new.len() - 1 {
        assert(new[new.len() - 1].instance != new[i].instance);
        assert(new.drop_last()[i] == new[i]);
        assert forall|j: int| i < j < new.drop_last().len() implies (
        #[trigger] new.drop_last()[j]).instance != new[i].instance by {
            assert(new[j].instance != new[i].instance);
        }
        last_inserted_stays(devices, new.drop_last(), i);
    }
}

// ── Discovery ───────────────────────────────────────────────

/// The device that a datagram announces, if it is an I-Am.
pub open spec fn announced(addr: SocketAddress, data: Seq<u8>) -> Option<DeviceInfo> {
    match received(data) {
        Some(ApduView::IAm { device_instance, max_apdu, segmentation, vendor_id }) => Some(
            DeviceInfo { instance: device_instance, addr, max_apdu, vendor_id, segmentation },
        ),
        _ => None,
    }
}

/// Read a datagram as an I-Am. Anything else is ignored.
pub fn announced_device(addr: SocketAddress, data: &[u8]) -> (res: Option<DeviceInfo>)
    ensures
        res == announced(addr, data@),
{
    match received_apdu(data) {
        Some(Apdu::IAm { device_instance, max_apdu, segmentation, vendor_id }) => Some(
            DeviceInfo { instance: device_instance, addr, max_apdu, vendor_id, segmentation },
        ),
        _ => None,
    }
}

/// The devices that datagrams announce, in the order of their arrival.
pub open spec fn all_announced(datagrams: Seq<(SocketAddress, Vec<u8>)>) -> Seq<DeviceInfo>
    decreases datagrams.len(),
{
    if datagrams.len() == 0 {
        Seq::empty()
    } else {
        let earlier = all_announced(datagrams.drop_last());
        match announced(datagrams.last().0, datagrams.last().1@) {
            Some(d) => earlier.push(d),
            None => earlier,
        }
    }
}

/// Collect the devices that answered, from the datagrams that arrived during
/// the discovery window.
///
/// Datagrams that cannot be decoded (wrong protocol, malformed APDU) and those
/// of other services are silently ignored.
pub fn collect_i_am(datagrams: &[(SocketAddress, Vec<u8>)]) -> (devices: Vec<DeviceInfo>)
    ensures
        devices@ == all_announced(datagrams@),
{
    let mut devices: Vec<DeviceInfo> = Vec::new();
    let mut i: usize = 0;
    assert(datagrams@.subrange(0, 0) =~= Seq::empty());
    while i < datagrams.len()
        invariant
            i <= datagrams@.len(),
            devices@ == all_announced(datagrams@.subrange(0, i as int)),
        decreases datagrams@.len() - i,
    {
        if let Some(d) = announced_device(datagrams[i].0, datagrams[i].1.as_slice()) {
            devices.push(d);
        }
        i += 1;
        assert(datagrams@.subrange(0, i as int).drop_last() =~= datagrams@.subrange(0, i - 1));
    }
    assert(datagrams@.subrange(0, i as int) =~= datagrams@);
    devices
}

} // verus!
