//! What the driver knows of devices, objects and subscriptions, and where it
//! has it from.

use vstd::prelude::*;

use super::config::{all_configured, object_of, BacnetObjectConfig};
use super::discovery::{all_announced, all_inserted, announced, DeviceInfo, SocketAddress};
use super::driver::{
    fresh_driver, process_id_after, renewal_due, renewal_of, subscription_dropped, watch_asked,
    watch_made, watch_renewed, watch_wanted, watched, well_formed, BacnetDriverView,
};
use super::exchange::{next_attempt, ExchangeView};
use super::frame::decode::received;
use super::frame::types::ApduView;
use super::object::{analog, binary, object_type_number, BacnetObject, ObjectType};
use super::plan::{kind_of, write_target, WriteKind};
use crate::driver::FaultKind;

verus! {

// ── Configuration ───────────────────────────────────────────

/// An entry describes the object with its own numbers and unit; scale and
/// offset are its own where it gives them, and otherwise one and zero.
pub proof fn entry_describes_its_object(c: BacnetObjectConfig)
    ensures
        ({
            let o = object_of(c);
            &&& o.device_id == c.device_id
            &&& o.object_type == c.object_type
            &&& o.instance == c.instance
            &&& o.unit == c.unit
            &&& match c.scale {
                Some(bits) => o.scale == bits,
                None => o.scale == 0x3FF0_0000_0000_0000,
            }
            &&& match c.offset {
                Some(bits) => o.offset == bits,
                None => o.offset == 0,
            }
        }),
{
}

/// Every configured point has the object of its last entry, and points without
/// an entry keep what they had.
pub proof fn last_entry_configures_its_point(
    objects: Map<u32, BacnetObject>,
    entries: Seq<BacnetObjectConfig>,
    i: int,
    other: u32,
)
    requires
        0 <= i < entries.len(),
        forall|j: int| i < j < entries.len() ==> (#[trigger] entries[j]).point_id
            != entries[i].point_id,
        forall|j: int| 0 <= j < entries.len() ==> (#[trigger] entries[j]).point_id != other,
    ensures
        ({
            let all = all_configured(objects, entries);
            &&& all.contains_key(entries[i].point_id)
            &&& all[entries[i].point_id] == object_of(entries[i])
            &&& all.contains_key(other) == objects.contains_key(other)
            &&& objects.contains_key(other) ==> all[other] == objects[other]
        }),
    decreases entries.len(),
{
    let init = entries.drop_last();
    assert(entries[entries.len() - 1] == entries.last());
    lemma_unnamed_point(objects, init, entries, other);
    if i < init.len() {
        assert(init[i] == entries[i]);
        assert forall|j: int| i < j < init.len() implies (#[trigger] init[j]).point_id
            != init[i].point_id by {
            assert(init[j] == entries[j]);
        }
        assert forall|j: int| 0 <= j < init.len() implies (#[trigger] init[j]).point_id
            != other by {
            assert(init[j] == entries[j]);
        }
        assert(entries[entries.len() - 1].point_id != entries[i].point_id);
        last_entry_configures_its_point(objects, init, i, other);
    }
}

/// A point that no entry names keeps what it had.
proof fn lemma_unnamed_point(
    objects: Map<u32, BacnetObject>,
    init: Seq<BacnetObjectConfig>,
    entries: Seq<BacnetObjectConfig>,
    other: u32,
)
    requires
        init.len() <= entries.len(),
        forall|j: int| 0 <= j < init.len() ==> #[trigger] init[j] == entries[j],
        forall|j: int| 0 <= j < entries.len() ==> (#[trigger] entries[j]).point_id != other,
    ensures
        all_configured(objects, init).contains_key(other) == objects.contains_key(other),
        objects.contains_key(other) ==> all_configured(objects, init)[other] == objects[other],
    decreases init.len(),
{
    if init.len() > 0 {
        let rest = init.drop_last();
        assert forall|j: int| 0 <= j < rest.len() implies #[trigger] rest[j] == entries[j] by {
            assert(init[j] == entries[j]);
        }
        lemma_unnamed_point(objects, rest, entries, other);
        assert(init[init.len() - 1] == entries[init.len() - 1]);
    }
}

/// A new driver is pending and not connected, knows nothing yet, sends Who-Is
/// to its own port, waits two seconds for answers, and renews subscriptions
/// well before the lifetime of five minutes that it asks for.
pub proof fn new_driver_knows_nothing(id: Seq<char>, broadcast: Seq<char>, port: u16)
    ensures
        ({
            let d = fresh_driver(id, broadcast, port);
            &&& d.id == id
            &&& d.broadcast_addr == broadcast
            &&& d.port == port
            &&& d.broadcast_port == port
            &&& !d.connected
            &&& !d.is_foreign_device
            &&& d.bbmd_addr is None
            &&& d.status is Pending
            &&& forall|p: u32| !d.objects.contains_key(p)
            &&& forall|p: u32| !d.devices.contains_key(p)
            &&& forall|p: u32| !d.subscriptions.contains_key(p)
            &&& forall|o: (u16, u32)| !d.cache.contains_key(o)
            &&& forall|k: u8| !d.transactions.in_flight.contains(k)
            &&& d.next_process_id == 1
            &&& d.discovery_timeout == 2_000_000_000
            &&& d.renewal_interval == 240_000_000_000
            &&& d.renewal_interval < 300_000_000_000
        }),
{
}

// ── Discovery ───────────────────────────────────────────────

/// A datagram announces a device exactly if it is an I-Am: the device has the
/// instance and the properties that it names, and the address it came from.
pub proof fn i_am_announces_its_sender(addr: SocketAddress, data: Seq<u8>)
    ensures
        match received(data) {
            Some(ApduView::IAm { device_instance, max_apdu, segmentation, vendor_id }) => announced(
                addr,
                data,
            ) matches Some(d) && d.instance == device_instance && d.addr == addr && d.max_apdu
                == max_apdu && d.segmentation == segmentation && d.vendor_id == vendor_id,
            _ => announced(addr, data) is None,
        },
{
}

/// Datagrams are looked at one after the other; each announces its own device
/// or none.
pub proof fn datagrams_announce_one_by_one(
    a: Seq<(SocketAddress, Vec<u8>)>,
    b: Seq<(SocketAddress, Vec<u8>)>,
    datagram: (SocketAddress, Vec<u8>),
)
    ensures
        all_announced(a + b) == all_announced(a) + all_announced(b),
        all_announced(seq![datagram]) == match announced(datagram.0, datagram.1@) {
            Some(d) => seq![d],
            None => Seq::empty(),
        },
    decreases b.len(),
{
    let one = seq![datagram];
    assert(one.drop_last() =~= Seq::empty());
    assert(all_announced(one.drop_last()) =~= Seq::empty());
    if let Some(d) = announced(datagram.0, datagram.1@) {
        assert(all_announced(one) =~= seq![d]);
    }
    if b.len() == 0 {
        assert(a + b =~= a);
        assert(all_announced(a) + all_announced(b) =~= all_announced(a));
    } else {
        assert((a + b).drop_last() =~= a + b.drop_last());
        assert((a + b).last() == b.last());
        datagrams_announce_one_by_one(a, b.drop_last(), datagram);
        assert(all_announced(a + b) =~= all_announced(a) + all_announced(b));
    }
}

/// Devices that are not among the new ones stay as they were.
pub proof fn other_devices_stay(
    devices: Map<u32, DeviceInfo>,
    new: Seq<DeviceInfo>,
    instance: u32,
)
    requires
        forall|j: int| 0 <= j < new.len() ==> (#[trigger] new[j]).instance != instance,
    ensures
        all_inserted(devices, new).contains_key(instance) == devices.contains_key(instance),
        devices.contains_key(instance) ==> all_inserted(devices, new)[instance]
            == devices[instance],
    decreases new.len(),
{
    if new.len() > 0 {
        let init = new.drop_last();
        assert(new[new.len() - 1].instance != instance);
        assert forall|j: int| 0 <= j < init.len() implies (#[trigger] init[j]).instance
            != instance by {
            assert(init[j] == new[j]);
        }
        other_devices_stay(devices, init, instance);
    }
}

// ── Subscriptions ───────────────────────────────────────────

/// A watch asks for the object that a write of the same point goes to, at the
/// same address, for five minutes, under the next identifier.
pub proof fn watch_asks_for_the_points_object(d: BacnetDriverView, point_id: u32)
    requires
        watch_wanted(d, point_id),
    ensures
        ({
            let req = watch_asked(d, point_id);
            &&& req.point_id == point_id
            &&& req.process_id == d.next_process_id
            &&& req.object_type == d.objects[point_id].object_type
            &&& req.object_instance == d.objects[point_id].instance
            &&& req.device_id == d.objects[point_id].device_id
            &&& req.addr == d.devices[d.objects[point_id].device_id].addr
            &&& req.lifetime == Some(300u32)
            &&& write_target(d, point_id) matches Ok(t) ==> t.addr == req.addr && t.object_type
                == req.object_type && t.instance == req.object_instance
        }),
{
}

/// A point is subscribed exactly if it has an object, its device is known and
/// it has no subscription yet.
pub proof fn watch_is_wanted_once(d: BacnetDriverView, point_id: u32)
    ensures
        watch_wanted(d, point_id) <==> {
            &&& d.objects.contains_key(point_id)
            &&& d.devices.contains_key(d.objects[point_id].device_id)
            &&& forall|k: u32| #[trigger]
                d.subscriptions.contains_key(k) ==> d.subscriptions[k].point_id != point_id
        },
{
}

/// An accepted subscription is kept as it was requested, as of now, and is
/// renewed as it was requested. Nothing else of the driver changes.
pub proof fn accepted_watch_is_kept_and_renewed(
    d: BacnetDriverView,
    point_id: u32,
    now: u128,
    later: u128,
    other: u32,
)
    requires
        well_formed(d),
        watch_wanted(d, point_id),
        other != d.next_process_id,
    ensures
        ({
            let req = watch_asked(d, point_id);
            let after = watch_made(d, req, now);
            let id = d.next_process_id;
            &&& watched(after, point_id)
            &&& !watch_wanted(after, point_id)
            &&& after.subscriptions[id].subscribed_at == now
            &&& after.subscriptions[id].lifetime == Some(300u32)
            &&& after.subscriptions.contains_key(other) == d.subscriptions.contains_key(other)
            &&& d.subscriptions.contains_key(other) ==> after.subscriptions[other]
                == d.subscriptions[other]
            &&& after.cache == d.cache
            &&& after.objects == d.objects
            &&& after.devices == d.devices
            &&& renewal_due(after, id, later) <==> (if later >= now {
                later - now
            } else {
                0
            }) >= d.renewal_interval
            &&& ({
                let again = renewal_of(after, id);
                &&& again.process_id == id
                &&& again.addr == req.addr
                &&& again.object_type == req.object_type
                &&& again.object_instance == req.object_instance
                &&& again.lifetime == req.lifetime
            })
        }),
{
    let req = watch_asked(d, point_id);
    let after = watch_made(d, req, now);
    assert(after.subscriptions.contains_key(d.next_process_id));
}

/// A renewal changes the time of its subscription and nothing else; a
/// subscription that has gone stays gone.
pub proof fn renewal_changes_the_time_alone(
    d: BacnetDriverView,
    process_id: u32,
    now: u128,
    other: u32,
)
    requires
        other != process_id,
    ensures
        ({
            let after = watch_renewed(d, process_id, now);
            let before = d.subscriptions[process_id];
            let sub = after.subscriptions[process_id];
            &&& after.subscriptions.dom() == d.subscriptions.dom()
            &&& d.subscriptions.contains_key(process_id) ==> sub.subscribed_at == now
                && sub.point_id == before.point_id && sub.process_id == before.process_id
                && sub.object_type == before.object_type && sub.object_instance
                == before.object_instance && sub.device_id == before.device_id && sub.lifetime
                == before.lifetime
            &&& d.subscriptions.contains_key(other) ==> after.subscriptions[other]
                == d.subscriptions[other]
            &&& after.cache == d.cache
            &&& after.devices == d.devices
            &&& after.objects == d.objects
        }),
{
    let after = watch_renewed(d, process_id, now);
    assert(after.subscriptions.dom() =~= d.subscriptions.dom());
}

/// Dropping a subscription drops it and the cached value of its object, and
/// leaves every other subscription and cached value.
pub proof fn dropping_leaves_the_others(
    d: BacnetDriverView,
    process_id: u32,
    other: u32,
    object: (u16, u32),
)
    requires
        d.subscriptions.contains_key(process_id),
        other != process_id,
    ensures
        ({
            let after = subscription_dropped(d, process_id);
            let sub = d.subscriptions[process_id];
            &&& !after.subscriptions.contains_key(process_id)
            &&& after.subscriptions.contains_key(other) == d.subscriptions.contains_key(other)
            &&& d.subscriptions.contains_key(other) ==> after.subscriptions[other]
                == d.subscriptions[other]
            &&& object == (sub.object_type, sub.object_instance) ==> !after.cache.contains_key(
                object,
            )
            &&& object != (sub.object_type, sub.object_instance) ==> after.cache.contains_key(
                object,
            ) == d.cache.contains_key(object)
            &&& object != (sub.object_type, sub.object_instance) && d.cache.contains_key(object)
                ==> after.cache[object] == d.cache[object]
            &&& after.devices == d.devices
            &&& after.objects == d.objects
            &&& after.next_process_id == d.next_process_id
        }),
{
}

/// Identifiers count up by one; after the largest comes 1.
pub proof fn process_ids_count_up(id: u32)
    ensures
        id < u32::MAX ==> process_id_after(id) == id + 1,
        id == u32::MAX ==> process_id_after(id) == 1,
{
}

// ── Retries ─────────────────────────────────────────────────

/// An attempt that failed is followed by the next one of the same request, up
/// to the number of retries.
pub proof fn attempts_count_up(x: ExchangeView)
    ensures
        match next_attempt(x) {
            Some(y) => x.attempt < x.max_retries && y.attempt == x.attempt + 1 && y.invoke_id
                == x.invoke_id && y.max_retries == x.max_retries && y.receive_errors_retry
                == x.receive_errors_retry,
            None => x.attempt >= x.max_retries,
        },
{
}

// ── Object types ────────────────────────────────────────────

/// Analog object types are written numbers and learnt as numbers, binary ones
/// are written on/off values and learnt as such; devices and trend logs are
/// neither written nor learnt.
pub proof fn object_types_agree(d: BacnetDriverView, point_id: u32, t: ObjectType)
    requires
        d.objects.contains_key(point_id),
        d.devices.contains_key(d.objects[point_id].device_id),
        d.objects[point_id].object_type == object_type_number(t),
    ensures
        analog(t) <==> kind_of(object_type_number(t)) == Some("Number"@),
        binary(t) <==> kind_of(object_type_number(t)) == Some("Bool"@),
        analog(t) <==> (write_target(d, point_id) matches Ok(w) && w.kind == WriteKind::Analog),
        binary(t) <==> (write_target(d, point_id) matches Ok(w) && w.kind == WriteKind::Binary),
        !analog(t) && !binary(t) <==> (write_target(d, point_id) matches Err(e) && e.0
            == FaultKind::ConfigFault),
{
    reveal_strlit("Number");
    reveal_strlit("Bool");
    assert("Number"@.len() != "Bool"@.len());
}

} // verus!
