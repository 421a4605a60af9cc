//! What reading, writing and learning points comes to, whichever way a value
//! or an object took.

use vstd::prelude::*;

use super::discovery::SocketAddress;
use super::driver::BacnetDriverView;
use super::frame::RpmRequestSpec;
use super::object::BacnetObject;
use super::plan::{
    answered_members, batch_outcome, cached, device_order, members_of, reads_members, unconfigured,
    unread_members, value_reading, write_target, written_value, ReadPlan, Reading, WriteKind,
    WriteTarget,
};
use super::sync::{
    advanced, after_batch, after_group, after_read, begun, calls_for, PendingView, SyncStep,
    SyncView,
};
use super::value::{number_of, Number, ValueView};
use crate::driver::{DriverPointRef, FaultKind};
use crate::text::decimal;

verus! {

// ── One value ───────────────────────────────────────────────

/// A value of an object is read as its number, with the scale and the offset
/// of that object; a value without a number is a communication fault.
pub proof fn reading_is_number_with_objects_scaling(
    v: ValueView,
    obj: BacnetObject,
    complaint: Seq<char>,
)
    ensures
        match (number_of(v), value_reading(v, obj, complaint)) {
            (Some(n), Ok(r)) => r.number == n && r.scale == obj.scale && r.offset == obj.offset,
            (None, Err(e)) => e.0 == FaultKind::CommFault && e.1 == complaint,
            _ => false,
        },
{
}

/// Which number a value stands for: that of a number, an enumeration or a
/// boolean is its own, and a list stands for its first value.
pub proof fn value_stands_for_its_number(
    single: u32,
    double: u64,
    unsigned: u32,
    signed: i32,
    items: Seq<ValueView>,
)
    ensures
        number_of(ValueView::Real(single)) == Some(Number::Single(single)),
        number_of(ValueView::Double(double)) == Some(Number::Double(double)),
        number_of(ValueView::Unsigned(unsigned)) == Some(Number::Unsigned(unsigned)),
        number_of(ValueView::Enumerated(unsigned)) == Some(Number::Unsigned(unsigned)),
        number_of(ValueView::Signed(signed)) == Some(Number::Signed(signed)),
        number_of(ValueView::Boolean(true)) == Some(Number::Unsigned(1)),
        number_of(ValueView::Boolean(false)) == Some(Number::Unsigned(0)),
        items.len() > 0 ==> number_of(ValueView::Array(items)) == number_of(items[0]),
        items.len() == 0 ==> number_of(ValueView::Array(items)) is None,
{
}

/// Nothing else than numbers, enumerations, booleans and lists stands for a
/// number.
pub proof fn other_values_stand_for_no_number(v: ValueView)
    requires
        v is Null || v is OctetString || v is CharacterString || v is BitString || v is Date
            || v is Time || v is ObjectId || v is Unknown,
    ensures
        number_of(v) is None,
{
}

/// However a number came, singly, in a batch or by a notification, the point
/// has the same outcome: that number with the scale and the offset of its
/// object.
pub proof fn every_way_of_reading_agrees(
    d: BacnetDriverView,
    v: SyncView,
    addr: SocketAddress,
    point_id: u32,
    obj: BacnetObject,
    value: ValueView,
    n: Number,
    now: u128,
)
    requires
        number_of(value) == Some(n),
        v.pending == (PendingView::Singles { addr, members: seq![(point_id, obj)] }),
        d.devices.contains_key(obj.device_id),
        cached(d, obj, now),
        d.cache[(obj.object_type, obj.instance)].value == value,
    ensures
        ({
            let outcome = (
                point_id,
                Ok::<Reading, (FaultKind, Seq<char>)>(
                    Reading { number: n, scale: obj.scale, offset: obj.offset },
                ),
            );
            &&& after_read(v, Ok(n)).results == v.results.push(outcome)
            &&& batch_outcome((point_id, obj), Ok(value)) == outcome
            &&& answered_members(d, obj.device_id, seq![(point_id, obj)], now) == seq![outcome]
        }),
{
    let members = seq![(point_id, obj)];
    assert(members.drop_last() =~= Seq::empty());
    assert(answered_members(d, obj.device_id, members.drop_last(), now) =~= Seq::empty());
    let outcome = (
        point_id,
        Ok::<Reading, (FaultKind, Seq<char>)>(
            Reading { number: n, scale: obj.scale, offset: obj.offset },
        ),
    );
    assert(Seq::<(u32, Result<Reading, (FaultKind, Seq<char>)>)>::empty().push(outcome) =~= seq![
        outcome,
    ]);
}

// ── A whole round ───────────────────────────────────────────

/// Whether every value in a list of outcomes carries the scale and the offset
/// of the object that is configured for its point.
pub open spec fn scaled_as_configured(
    objects: Map<u32, BacnetObject>,
    results: Seq<(u32, Result<Reading, (FaultKind, Seq<char>)>)>,
) -> bool {
    forall|i: int|
        0 <= i < results.len() ==> ((#[trigger] results[i]).1 matches Ok(r)
            ==> objects.contains_key(results[i].0) && r.scale == objects[results[i].0].scale
            && r.offset == objects[results[i].0].offset)
}

/// Whether points stand with the objects that are configured for them, all of
/// one device.
pub open spec fn members_as_configured(
    objects: Map<u32, BacnetObject>,
    device_id: u32,
    members: Seq<(u32, BacnetObject)>,
) -> bool {
    forall|i: int|
        0 <= i < members.len() ==> objects.contains_key((#[trigger] members[i]).0) && members[i].1
            == objects[members[i].0] && members[i].1.device_id == device_id
}

/// Whether the open reads of a round are of points of one known device, go to
/// its address, and ask for the objects that are configured for the points.
pub open spec fn pending_as_configured(d: BacnetDriverView, pending: PendingView) -> bool {
    match pending {
        PendingView::Nothing => true,
        PendingView::Singles { addr, members } => exists|dev: u32| #[trigger]
            d.devices.contains_key(dev) && d.devices[dev].addr == addr && members_as_configured(
                d.objects,
                dev,
                members,
            ),
        PendingView::Batch { addr, members } => exists|dev: u32| #[trigger]
            d.devices.contains_key(dev) && d.devices[dev].addr == addr && members_as_configured(
                d.objects,
                dev,
                members,
            ),
    }
}

/// Whether a round deals with its points as they are configured.
pub open spec fn round_as_configured(d: BacnetDriverView, v: SyncView) -> bool {
    &&& scaled_as_configured(d.objects, v.results)
    &&& pending_as_configured(d, v.pending)
    &&& forall|i: int|
        0 <= i < v.groups.len() ==> members_as_configured(
            d.objects,
            (#[trigger] v.groups[i]).0,
            v.groups[i].1,
        )
}

/// The members of a device are configured points of it, with their objects.
proof fn lemma_members_as_configured(
    objects: Map<u32, BacnetObject>,
    points: Seq<DriverPointRef>,
    device_id: u32,
)
    ensures
        members_as_configured(objects, device_id, members_of(objects, points, device_id)),
    decreases points.len(),
{
    if points.len() > 0 {
        lemma_members_as_configured(objects, points.drop_last(), device_id);
        let earlier = members_of(objects, points.drop_last(), device_id);
        let all = members_of(objects, points, device_id);
        assert forall|i: int| 0 <= i < all.len() implies objects.contains_key(
            (#[trigger] all[i]).0,
        ) && all[i].1 == objects[all[i].0] && all[i].1.device_id == device_id by {
            if i < earlier.len() {
                assert(all[i] == earlier[i]);
            }
        }
    }
}

/// Points without an object have no value.
proof fn lemma_unconfigured_fail(objects: Map<u32, BacnetObject>, points: Seq<DriverPointRef>)
    ensures
        forall|i: int|
            0 <= i < unconfigured(objects, points).len() ==> (#[trigger] unconfigured(
                objects,
                points,
            )[i]).1 is Err,
    decreases points.len(),
{
    if points.len() > 0 {
        lemma_unconfigured_fail(objects, points.drop_last());
        let earlier = unconfigured(objects, points.drop_last());
        let all = unconfigured(objects, points);
        assert forall|i: int| 0 <= i < all.len() implies (#[trigger] all[i]).1 is Err by {
            if i < earlier.len() {
                assert(all[i] == earlier[i]);
            }
        }
    }
}

/// What is answered or left to be read of members that stand as configured
/// stands so too.
proof fn lemma_group_as_configured(
    d: BacnetDriverView,
    device_id: u32,
    members: Seq<(u32, BacnetObject)>,
    now: u128,
)
    requires
        members_as_configured(d.objects, device_id, members),
    ensures
        scaled_as_configured(d.objects, answered_members(d, device_id, members, now)),
        members_as_configured(d.objects, device_id, unread_members(d, device_id, members, now)),
        unread_members(d, device_id, members, now).len() > 0 ==> d.devices.contains_key(device_id),
    decreases members.len(),
{
    if members.len() > 0 {
        let init = members.drop_last();
        let end = members.len() - 1;
        assert(members[end] == members.last());
        assert forall|i: int| 0 <= i < init.len() implies d.objects.contains_key(
            (#[trigger] init[i]).0,
        ) && init[i].1 == d.objects[init[i].0] && init[i].1.device_id == device_id by {
            assert(init[i] == members[i]);
        }
        lemma_group_as_configured(d, device_id, init, now);
        let answered = answered_members(d, device_id, init, now);
        let all_answered = answered_members(d, device_id, members, now);
        assert forall|i: int| 0 <= i < all_answered.len() implies ((
        #[trigger] all_answered[i]).1 matches Ok(r) ==> d.objects.contains_key(all_answered[i].0)
            && r.scale == d.objects[all_answered[i].0].scale && r.offset
            == d.objects[all_answered[i].0].offset) by {
            if i < answered.len() {
                assert(all_answered[i] == answered[i]);
            }
        }
        let unread = unread_members(d, device_id, init, now);
        let all_unread = unread_members(d, device_id, members, now);
        assert forall|i: int| 0 <= i < all_unread.len() implies d.objects.contains_key(
            (#[trigger] all_unread[i]).0,
        ) && all_unread[i].1 == d.objects[all_unread[i].0] && all_unread[i].1.device_id
            == device_id by {
            if i < unread.len() {
                assert(all_unread[i] == unread[i]);
            }
        }
    }
}

/// Lists of outcomes with configured scaling, one after the other.
proof fn lemma_scaled_append(
    objects: Map<u32, BacnetObject>,
    a: Seq<(u32, Result<Reading, (FaultKind, Seq<char>)>)>,
    b: Seq<(u32, Result<Reading, (FaultKind, Seq<char>)>)>,
)
    requires
        scaled_as_configured(objects, a),
        scaled_as_configured(objects, b),
    ensures
        scaled_as_configured(objects, a + b),
{
    let all = a + b;
    assert forall|i: int| 0 <= i < all.len() implies ((#[trigger] all[i]).1 matches Ok(r)
        ==> objects.contains_key(all[i].0) && r.scale == objects[all[i].0].scale && r.offset
        == objects[all[i].0].offset) by {
        if i < a.len() {
            assert(all[i] == a[i]);
        } else {
            assert(all[i] == b[i - a.len()]);
        }
    }
}

/// A round starts with its points as they are configured.
pub proof fn round_begins_as_configured(d: BacnetDriverView, points: Seq<DriverPointRef>)
    ensures
        round_as_configured(d, begun(d, points)),
{
    lemma_unconfigured_fail(d.objects, points);
    let groups = begun(d, points).groups;
    let order = device_order(d.objects, points);
    assert forall|i: int| 0 <= i < groups.len() implies members_as_configured(
        d.objects,
        (#[trigger] groups[i]).0,
        groups[i].1,
    ) by {
        lemma_members_as_configured(d.objects, points, order[i]);
    }
}

/// Looking at devices keeps a round as it is configured: what notifications
/// brought is scaled as configured, and what is read is the objects of the
/// points, at the address of their device.
pub proof fn advancing_stays_as_configured(d: BacnetDriverView, now: u128, v: SyncView)
    requires
        round_as_configured(d, v),
    ensures
        round_as_configured(d, advanced(d, now, v)),
    decreases v.groups.len(),
{
    if v.pending is Nothing && v.groups.len() > 0 {
        let next = after_group(d, now, v);
        let (device_id, members) = v.groups[0];
        lemma_group_as_configured(d, device_id, members, now);
        lemma_scaled_append(
            d.objects,
            v.results,
            answered_members(d, device_id, members, now),
        );
        assert forall|i: int| 0 <= i < next.groups.len() implies members_as_configured(
            d.objects,
            (#[trigger] next.groups[i]).0,
            next.groups[i].1,
        ) by {
            assert(next.groups[i] == v.groups[i + 1]);
        }
        if unread_members(d, device_id, members, now).len() > 0 {
            assert(d.devices.contains_key(device_id));
        }
        advancing_stays_as_configured(d, now, next);
    }
}

/// The outcome of a single read keeps a round as it is configured.
pub proof fn reading_stays_as_configured(
    d: BacnetDriverView,
    v: SyncView,
    outcome: Result<Number, (FaultKind, Seq<char>)>,
)
    requires
        round_as_configured(d, v),
        v.pending matches PendingView::Singles { members, .. } ==> members.len() > 0,
    ensures
        round_as_configured(d, after_read(v, outcome)),
{
    if let PendingView::Singles { addr, members } = v.pending {
        let after = after_read(v, outcome);
        let dev = choose|dev: u32| #[trigger]
            d.devices.contains_key(dev) && d.devices[dev].addr == addr && members_as_configured(
                d.objects,
                dev,
                members,
            );
        assert(d.objects.contains_key(members[0].0));
        assert forall|i: int| 0 <= i < after.results.len() implies ((
        #[trigger] after.results[i]).1 matches Ok(r) ==> d.objects.contains_key(
            after.results[i].0,
        ) && r.scale == d.objects[after.results[i].0].scale && r.offset
            == d.objects[after.results[i].0].offset) by {
            if i < v.results.len() {
                assert(after.results[i] == v.results[i]);
            }
        }
        let rest = members.drop_first();
        assert forall|i: int| 0 <= i < rest.len() implies d.objects.contains_key(
            (#[trigger] rest[i]).0,
        ) && rest[i].1 == d.objects[rest[i].0] && rest[i].1.device_id == dev by {
            assert(rest[i] == members[i + 1]);
        }
        assert(members_as_configured(d.objects, dev, rest));
    }
}

/// The outcome of a batch keeps a round as it is configured.
pub proof fn batch_stays_as_configured(
    d: BacnetDriverView,
    v: SyncView,
    values: Option<Seq<Result<ValueView, (FaultKind, Seq<char>)>>>,
)
    requires
        round_as_configured(d, v),
    ensures
        round_as_configured(d, after_batch(v, values)),
{
    if let PendingView::Batch { addr, members } = v.pending {
        if let Some(vals) = values {
            let dev = choose|dev: u32| #[trigger]
                d.devices.contains_key(dev) && d.devices[dev].addr == addr
                    && members_as_configured(d.objects, dev, members);
            let outcomes = Seq::new(members.len(), |i: int| batch_outcome(members[i], vals[i]));
            assert forall|i: int| 0 <= i < outcomes.len() implies ((
            #[trigger] outcomes[i]).1 matches Ok(r) ==> d.objects.contains_key(outcomes[i].0)
                && r.scale == d.objects[outcomes[i].0].scale && r.offset
                == d.objects[outcomes[i].0].offset) by {
                assert(d.objects.contains_key(members[i].0));
            }
            lemma_scaled_append(d.objects, v.results, outcomes);
        }
    }
}

/// A step of a round asks for the present value of configured objects: a
/// single one by itself, several with one specification each, in order.
pub proof fn step_asks_for_configured_objects(d: BacnetDriverView, v: SyncView, step: SyncStep)
    requires
        round_as_configured(d, v),
        calls_for(v, step),
        v.pending matches PendingView::Singles { members, .. } ==> members.len() > 0,
    ensures
        match (v.pending, step) {
            (PendingView::Nothing, SyncStep::Done) => true,
            (
                PendingView::Singles { addr, members },
                SyncStep::ReadOne { addr: a, object },
            ) => a == addr && object == d.objects[members[0].0],
            (
                PendingView::Batch { addr, members },
                SyncStep::ReadBatch { addr: a, specs },
            ) => a == addr && specs@.len() == members.len() && forall|i: int|
                0 <= i < members.len() ==> (#[trigger] specs@[i]).object_type
                    == d.objects[members[i].0].object_type && specs@[i].instance
                    == d.objects[members[i].0].instance && specs@[i].property_id == 85
                    && specs@[i].array_index is None,
            _ => false,
        },
{
    match v.pending {
        PendingView::Singles { addr, members } => {
            let dev = choose|dev: u32| #[trigger]
                d.devices.contains_key(dev) && d.devices[dev].addr == addr
                    && members_as_configured(d.objects, dev, members);
            assert(members[0].1 == d.objects[members[0].0]);
        },
        PendingView::Batch { addr, members } => {
            let dev = choose|dev: u32| #[trigger]
                d.devices.contains_key(dev) && d.devices[dev].addr == addr
                    && members_as_configured(d.objects, dev, members);
            assert forall|i: int| 0 <= i < members.len() implies members[i].1
                == d.objects[(#[trigger] members[i]).0] by {}
        },
        _ => {},
    }
}

/// The outcome of a single read is that of the first open point: its number,
/// or the error as it came. The points behind it wait on.
pub proof fn single_read_settles_the_first_point(
    v: SyncView,
    addr: SocketAddress,
    members: Seq<(u32, BacnetObject)>,
    outcome: Result<Number, (FaultKind, Seq<char>)>,
)
    requires
        v.pending == (PendingView::Singles { addr, members }),
        members.len() > 0,
    ensures
        ({
            let after = after_read(v, outcome);
            &&& after.results.len() == v.results.len() + 1
            &&& after.results.subrange(0, v.results.len() as int) == v.results
            &&& after.results.last().0 == members[0].0
            &&& match (outcome, after.results.last().1) {
                (Ok(n), Ok(r)) => r.number == n,
                (Err(e), Err(f)) => e == f,
                _ => false,
            }
            &&& members.len() == 1 ==> after.pending is Nothing
            &&& members.len() > 1 ==> after.pending == (PendingView::Singles {
                addr,
                members: members.subrange(1, members.len() as int),
            })
            &&& after.groups == v.groups
        }),
{
    let after = after_read(v, outcome);
    assert(after.results.subrange(0, v.results.len() as int) =~= v.results);
    assert(members.drop_first() =~= members.subrange(1, members.len() as int));
}

/// The values of a batch settle its points one by one, in order: value `i` is
/// that of point `i`. A batch that failed as a whole is read singly from the
/// same address instead, all points in order.
pub proof fn batch_settles_its_points_in_order(
    v: SyncView,
    addr: SocketAddress,
    members: Seq<(u32, BacnetObject)>,
    values: Option<Seq<Result<ValueView, (FaultKind, Seq<char>)>>>,
)
    requires
        v.pending == (PendingView::Batch { addr, members }),
        values matches Some(vals) ==> vals.len() == members.len(),
    ensures
        ({
            let after = after_batch(v, values);
            let start = v.results.len();
            &&& after.groups == v.groups
            &&& match values {
                None => after.results == v.results && after.pending == (PendingView::Singles {
                    addr,
                    members,
                }),
                Some(vals) => {
                    &&& after.pending is Nothing
                    &&& after.results.len() == start + members.len()
                    &&& after.results.subrange(0, start as int) == v.results
                    &&& forall|i: int|
                        0 <= i < members.len() ==> (#[trigger] after.results[start + i]).0
                            == members[i].0
                    &&& forall|i: int|
                        0 <= i < members.len() ==> match (
                            vals[i],
                            (#[trigger] after.results[start + i]).1,
                        ) {
                            (Ok(value), Ok(r)) => number_of(value) == Some(r.number),
                            (Ok(value), Err(e)) => number_of(value) is None && e.0
                                == FaultKind::CommFault,
                            (Err(e), Err(f)) => e == f,
                            _ => false,
                        }
                },
            }
        }),
{
    if let Some(vals) = values {
        let after = after_batch(v, values);
        assert(after.results.subrange(0, v.results.len() as int) =~= v.results);
    }
}

// ── Grouping ────────────────────────────────────────────────

/// Points in a row are dealt with one after the other: what is complained of
/// and what belongs to a device is that of the first, then that of the rest.
pub proof fn points_are_grouped_one_by_one(
    objects: Map<u32, BacnetObject>,
    a: Seq<DriverPointRef>,
    b: Seq<DriverPointRef>,
    device_id: u32,
)
    ensures
        unconfigured(objects, a + b) == unconfigured(objects, a) + unconfigured(objects, b),
        members_of(objects, a + b, device_id) == members_of(objects, a, device_id) + members_of(
            objects,
            b,
            device_id,
        ),
    decreases b.len(),
{
    if b.len() == 0 {
        assert(a + b =~= a);
        assert(unconfigured(objects, a) + unconfigured(objects, b) =~= unconfigured(objects, a));
        assert(members_of(objects, a, device_id) + members_of(objects, b, device_id)
            =~= members_of(objects, a, device_id));
    } else {
        assert((a + b).drop_last() =~= a + b.drop_last());
        assert((a + b).last() == b.last());
        points_are_grouped_one_by_one(objects, a, b.drop_last(), device_id);
        assert(unconfigured(objects, a + b) =~= unconfigured(objects, a) + unconfigured(
            objects,
            b,
        ));
        assert(members_of(objects, a + b, device_id) =~= members_of(objects, a, device_id)
            + members_of(objects, b, device_id));
    }
}

/// A point with an object belongs to the device of its object and to no other,
/// with that object; one without an object is a configuration fault that names
/// the point.
pub proof fn point_belongs_to_its_device(
    objects: Map<u32, BacnetObject>,
    point: DriverPointRef,
    device_id: u32,
)
    ensures
        ({
            let p = point.point_id;
            let members = members_of(objects, seq![point], device_id);
            let faults = unconfigured(objects, seq![point]);
            if objects.contains_key(p) {
                &&& faults.len() == 0
                &&& objects[p].device_id == device_id ==> members == seq![(p, objects[p])]
                &&& objects[p].device_id != device_id ==> members.len() == 0
            } else {
                &&& members.len() == 0
                &&& faults.len() == 1
                &&& faults[0].0 == p
                &&& faults[0].1 == Err::<Reading, (FaultKind, Seq<char>)>(
                    (
                        FaultKind::ConfigFault,
                        "no BACnet object configured for point "@ + decimal(p as nat),
                    ),
                )
            }
        }),
{
    let one = seq![point];
    assert(one.drop_last() =~= Seq::empty());
    assert(members_of(objects, one.drop_last(), device_id) =~= Seq::empty());
    assert(unconfigured(objects, one.drop_last()) =~= Seq::empty());
    let p = point.point_id;
    if objects.contains_key(p) && objects[p].device_id == device_id {
        assert(members_of(objects, one, device_id) =~= seq![(p, objects[p])]);
    }
}

/// Exactly the devices of configured points are asked, each once, and further
/// points change nothing in the order of the devices before them.
pub proof fn devices_of_points_are_asked_once(
    objects: Map<u32, BacnetObject>,
    points: Seq<DriverPointRef>,
    device_id: u32,
    n: int,
)
    requires
        0 <= n <= points.len(),
    ensures
        device_order(objects, points).no_duplicates(),
        device_order(objects, points).contains(device_id) <==> exists|i: int|
            0 <= i < points.len() && objects.contains_key((#[trigger] points[i]).point_id)
                && objects[points[i].point_id].device_id == device_id,
        ({
            let before = device_order(objects, points.subrange(0, n));
            let all = device_order(objects, points);
            before.len() <= all.len() && all.subrange(0, before.len() as int) == before
        }),
    decreases points.len(),
{
    let all = device_order(objects, points);
    if n == points.len() {
        assert(points.subrange(0, n) =~= points);
        assert(all.subrange(0, all.len() as int) =~= all);
    }
    if points.len() > 0 {
        let init = points.drop_last();
        let end = points.len() - 1;
        let k = if n < points.len() {
            n
        } else {
            end
        };
        devices_of_points_are_asked_once(objects, init, device_id, k);
        let earlier = device_order(objects, init);
        if n < points.len() {
            assert(init.subrange(0, n) =~= points.subrange(0, n));
            let before = device_order(objects, points.subrange(0, n));
            assert(all.subrange(0, before.len() as int) =~= earlier.subrange(
                0,
                before.len() as int,
            ));
        }
        if earlier.contains(device_id) {
            let j = choose|j: int| 0 <= j < earlier.len() && earlier[j] == device_id;
            assert(all[j] == device_id);
            let i = choose|i: int|
                0 <= i < init.len() && objects.contains_key((#[trigger] init[i]).point_id)
                    && objects[init[i].point_id].device_id == device_id;
            assert(points[i] == init[i]);
        }
        if objects.contains_key(points[end].point_id) && objects[points[end].point_id].device_id
            == device_id {
            assert(points[end] == points.last());
            if !earlier.contains(device_id) {
                assert(all[earlier.len() as int] == device_id);
            }
        }
        if all.contains(device_id) && !earlier.contains(device_id) {
            let j = choose|j: int| 0 <= j < all.len() && all[j] == device_id;
            assert(j == earlier.len());
            assert(points[end].point_id == points.last().point_id);
        }
        if exists|i: int|
            0 <= i < points.len() && objects.contains_key((#[trigger] points[i]).point_id)
                && objects[points[i].point_id].device_id == device_id {
            let i = choose|i: int|
                0 <= i < points.len() && objects.contains_key((#[trigger] points[i]).point_id)
                    && objects[points[i].point_id].device_id == device_id;
            if i < end {
                assert(init[i] == points[i]);
            }
        }
    }
}

/// A round starts with one group per device, in the order in which the points
/// name their devices, and each group holds all points of its device.
pub proof fn round_begins_with_a_group_per_device(
    d: BacnetDriverView,
    points: Seq<DriverPointRef>,
)
    ensures
        ({
            let start = begun(d, points);
            let order = device_order(d.objects, points);
            &&& start.pending is Nothing
            &&& start.results == unconfigured(d.objects, points)
            &&& start.groups.len() == order.len()
            &&& forall|i: int|
                0 <= i < order.len() ==> (#[trigger] start.groups[i]).0 == order[i]
                    && start.groups[i].1 == members_of(d.objects, points, order[i])
        }),
{
}

// ── Cache or network ────────────────────────────────────────

/// A value counts as cached if the cache has one of the object that is younger
/// than ten minutes.
pub proof fn cached_means_younger_than_ten_minutes(
    d: BacnetDriverView,
    obj: BacnetObject,
    now: u128,
)
    ensures
        cached(d, obj, now) <==> {
            &&& d.cache.contains_key((obj.object_type, obj.instance))
            &&& now < d.cache[(obj.object_type, obj.instance)].updated_at + 600_000_000_000int
        },
{
}

/// Members of a group in a row are planned one after the other.
pub proof fn members_are_planned_one_by_one(
    d: BacnetDriverView,
    device_id: u32,
    a: Seq<(u32, BacnetObject)>,
    b: Seq<(u32, BacnetObject)>,
    now: u128,
)
    ensures
        answered_members(d, device_id, a + b, now) == answered_members(d, device_id, a, now)
            + answered_members(d, device_id, b, now),
        unread_members(d, device_id, a + b, now) == unread_members(d, device_id, a, now)
            + unread_members(d, device_id, b, now),
    decreases b.len(),
{
    if b.len() == 0 {
        assert(a + b =~= a);
        assert(answered_members(d, device_id, a, now) + answered_members(d, device_id, b, now)
            =~= answered_members(d, device_id, a, now));
        assert(unread_members(d, device_id, a, now) + unread_members(d, device_id, b, now)
            =~= unread_members(d, device_id, a, now));
    } else {
        assert((a + b).drop_last() =~= a + b.drop_last());
        assert((a + b).last() == b.last());
        members_are_planned_one_by_one(d, device_id, a, b.drop_last(), now);
        assert(answered_members(d, device_id, a + b, now) =~= answered_members(
            d,
            device_id,
            a,
            now,
        ) + answered_members(d, device_id, b, now));
        assert(unread_members(d, device_id, a + b, now) =~= unread_members(d, device_id, a, now)
            + unread_members(d, device_id, b, now));
    }
}

/// A point of an unknown device is a communication fault that names the device;
/// one that is cached is answered from the cache; any other is read.
pub proof fn member_is_answered_or_read(
    d: BacnetDriverView,
    device_id: u32,
    member: (u32, BacnetObject),
    now: u128,
)
    ensures
        ({
            let answered = answered_members(d, device_id, seq![member], now);
            let unread = unread_members(d, device_id, seq![member], now);
            if !d.devices.contains_key(device_id) {
                &&& unread.len() == 0
                &&& answered.len() == 1
                &&& answered[0].0 == member.0
                &&& answered[0].1 == Err::<Reading, (FaultKind, Seq<char>)>(
                    (
                        FaultKind::CommFault,
                        "BACnet device "@ + decimal(device_id as nat) + " not in registry"@,
                    ),
                )
            } else if cached(d, member.1, now) {
                &&& unread.len() == 0
                &&& answered.len() == 1
                &&& answered[0].0 == member.0
                &&& match answered[0].1 {
                    Ok(r) => number_of(
                        d.cache[(member.1.object_type, member.1.instance)].value,
                    ) == Some(r.number) && r.scale == member.1.scale && r.offset
                        == member.1.offset,
                    Err(e) => number_of(
                        d.cache[(member.1.object_type, member.1.instance)].value,
                    ) is None && e.0 == FaultKind::CommFault,
                }
            } else {
                &&& answered.len() == 0
                &&& unread == seq![member]
            }
        }),
{
    let one = seq![member];
    assert(one.drop_last() =~= Seq::empty());
    assert(answered_members(d, device_id, one.drop_last(), now) =~= Seq::empty());
    assert(unread_members(d, device_id, one.drop_last(), now) =~= Seq::empty());
    if d.devices.contains_key(device_id) && !cached(d, member.1, now) {
        assert(unread_members(d, device_id, one, now) =~= one);
    }
}

/// Looking at a device adds the outcomes that are known at once and opens the
/// reads of the others, at the address of the device: none, one by itself, or
/// several together.
pub proof fn looking_at_a_device(d: BacnetDriverView, now: u128, v: SyncView)
    requires
        v.groups.len() > 0,
    ensures
        ({
            let (device_id, members) = v.groups[0];
            let unread = unread_members(d, device_id, members, now);
            let after = after_group(d, now, v);
            &&& after.results == v.results + answered_members(d, device_id, members, now)
            &&& after.groups == v.groups.subrange(1, v.groups.len() as int)
            &&& match after.pending {
                PendingView::Nothing => unread.len() == 0,
                PendingView::Singles { addr, members: open } => unread.len() == 1 && open == unread
                    && addr == d.devices[device_id].addr,
                PendingView::Batch { addr, members: open } => unread.len() > 1 && open == unread
                    && addr == d.devices[device_id].addr,
            }
        }),
{
    assert(v.groups.drop_first() =~= v.groups.subrange(1, v.groups.len() as int));
}

/// A plan of reads covers the members that have to be read: a single one by
/// itself, several with a specification of the present value each, in order.
pub proof fn plan_reads_what_is_open(
    reads: ReadPlan,
    addr: SocketAddress,
    unread: Seq<(u32, BacnetObject)>,
)
    requires
        reads_members(reads, addr, unread),
    ensures
        match reads {
            ReadPlan::Nothing => unread.len() == 0,
            ReadPlan::Single { addr: a, point_id, object } => unread == seq![(point_id, object)]
                && a == addr,
            ReadPlan::Batch { addr: a, members, specs } => {
                &&& a == addr
                &&& unread.len() > 1
                &&& members@ == unread
                &&& specs@.len() == unread.len()
                &&& forall|i: int|
                    0 <= i < unread.len() ==> (#[trigger] specs@[i]) == (RpmRequestSpec {
                        object_type: unread[i].1.object_type,
                        instance: unread[i].1.instance,
                        property_id: 85,
                        array_index: None,
                    })
            },
        },
{
    if let ReadPlan::Single { point_id, object, .. } = reads {
        assert(unread =~= seq![(point_id, object)]);
    }
}

// ── Writing ─────────────────────────────────────────────────

/// A write goes to the object that a read of the same point asks for: the one
/// configured for the point, at the address of its device, with its scale and
/// offset. Analog objects take numbers, binary ones on/off values.
pub proof fn write_goes_where_a_read_asks(
    d: BacnetDriverView,
    point: DriverPointRef,
    target: WriteTarget,
    reads: ReadPlan,
    now: u128,
)
    requires
        write_target(d, point.point_id) == Ok::<WriteTarget, (FaultKind, Seq<char>)>(target),
        !cached(d, d.objects[point.point_id], now),
        ({
            let dev = d.objects[point.point_id].device_id;
            reads_members(
                reads,
                d.devices[dev].addr,
                unread_members(d, dev, members_of(d.objects, seq![point], dev), now),
            )
        }),
    ensures
        reads matches ReadPlan::Single { addr, point_id, object } && point_id == point.point_id
            && object == d.objects[point.point_id] && target.addr == addr && target.object_type
            == object.object_type && target.instance == object.instance && target.scale
            == object.scale && target.offset == object.offset,
{
    let dev = d.objects[point.point_id].device_id;
    point_belongs_to_its_device(d.objects, point, dev);
    member_is_answered_or_read(d, dev, (point.point_id, d.objects[point.point_id]), now);
}

/// A write is accepted exactly if its point has an analog or binary object of a
/// known device; then its target is that object. Otherwise the error tells
/// which of these is missing, in this order.
pub proof fn write_is_accepted_iff_configured(d: BacnetDriverView, point_id: u32)
    ensures
        match write_target(d, point_id) {
            Ok(t) => {
                &&& d.objects.contains_key(point_id)
                &&& d.devices.contains_key(d.objects[point_id].device_id)
                &&& t.addr == d.devices[d.objects[point_id].device_id].addr
                &&& t.object_type == d.objects[point_id].object_type
                &&& t.instance == d.objects[point_id].instance
                &&& t.scale == d.objects[point_id].scale
                &&& t.offset == d.objects[point_id].offset
                &&& t.object_type <= 5
                &&& t.kind == WriteKind::Analog <==> t.object_type <= 2
                &&& t.kind == WriteKind::Binary <==> 3 <= t.object_type <= 5
            },
            Err(e) => if !d.objects.contains_key(point_id) {
                e == (
                    FaultKind::ConfigFault,
                    "no BACnet object configured for point "@ + decimal(point_id as nat),
                )
            } else if !d.devices.contains_key(d.objects[point_id].device_id) {
                e == (
                    FaultKind::CommFault,
                    "BACnet device "@ + decimal(d.objects[point_id].device_id as nat)
                        + " not in registry"@,
                )
            } else {
                d.objects[point_id].object_type > 5 && e == (
                    FaultKind::ConfigFault,
                    "unsupported object type "@ + decimal(d.objects[point_id].object_type as nat)
                        + " for write"@,
                )
            },
        },
{
}

/// What is written reads back as what was meant: the number itself on an analog
/// object, one or zero on a binary one.
pub proof fn written_value_reads_back(kind: WriteKind, bits: u32, nonzero: bool)
    ensures
        kind == WriteKind::Analog ==> written_value(kind, bits, nonzero) is Real && number_of(
            written_value(kind, bits, nonzero),
        ) == Some(Number::Single(bits)),
        kind == WriteKind::Binary ==> written_value(kind, bits, nonzero) is Enumerated && number_of(
            written_value(kind, bits, nonzero),
        ) == Some(
            Number::Unsigned(
                if nonzero {
                    1
                } else {
                    0
                },
            ),
        ),
{
}

} // verus!
