//! What to ask which device, and what the answers make of the points.

use vstd::prelude::*;
use vstd::std_specs::hash::*;
use vstd::string::*;

use super::cov::{fresh, PRESENT_VALUE};
use super::discovery::SocketAddress;
use super::driver::{BacnetDriver, BacnetDriverView};
use super::error::{malformed, BacnetError, BacnetErrorView};
use super::frame::decode::parse_bvll_result;
use super::frame::{decode_bvll_result, RpmRequestSpec};
use super::object::BacnetObject;
use super::reply::{numeric, require_number, spec_outcome_view};
use super::value::{BacnetValue, Number, ValueView};
use crate::driver::{
    distinct_keys, outcomes_view, DriverError, DriverPointRef, FaultKind, LearnPoint, LearnPointView,
};
use crate::text::{decimal, hex4, push_hex4, text, text_decimal, text_decimal_tail};

verus! {

// ── Readings ────────────────────────────────────────────────

/// A number read from a device, with the bits of the scale and the offset that
/// make it an engineering value.
#[derive(Debug, Clone, Copy, PartialEq, Eq, Structural)]
pub struct Reading {
    pub number: Number,
    pub scale: u64,
    pub offset: u64,
}

/// The reading of a number from an object.
pub open spec fn reading_of(number: Number, obj: BacnetObject) -> Reading {
    Reading { number, scale: obj.scale, offset: obj.offset }
}

/// The reading that a number of an object is.
pub fn reading(number: Number, obj: &BacnetObject) -> (res: Reading)
    ensures
        res == reading_of(number, *obj),
{
    Reading { number, scale: obj.scale, offset: obj.offset }
}

/// The reading of a value from an object, or the complaint that it is no number.
pub open spec fn value_reading(v: ValueView, obj: BacnetObject, complaint: Seq<char>) -> Result<
    Reading,
    (FaultKind, Seq<char>),
> {
    match numeric(v, complaint) {
        Ok(n) => Ok(reading_of(n, obj)),
        Err(e) => Err(e),
    }
}

/// Read a value of an object as a number.
fn read_value(v: &BacnetValue, obj: &BacnetObject, complaint: &str) -> (res: Result<
    Reading,
    DriverError,
>)
    ensures
        crate::driver::outcome_view(res) == value_reading(v@, *obj, complaint@),
{
    match require_number(v, complaint) {
        Ok(n) => Ok(reading(n, obj)),
        Err(e) => Err(e),
    }
}

// ── Grouping points by device ───────────────────────────────

/// The complaint about a point without an object.
pub open spec fn unconfigured_fault(point_id: u32) -> (FaultKind, Seq<char>) {
    (FaultKind::ConfigFault, "no BACnet object configured for point "@ + decimal(point_id as nat))
}

/// The complaint about a device that has not been discovered.
pub open spec fn unknown_device_fault(device_id: u32) -> (FaultKind, Seq<char>) {
    (FaultKind::CommFault, "BACnet device "@ + decimal(device_id as nat) + " not in registry"@)
}

/// The points without an object, each with the complaint.
pub open spec fn unconfigured(
    objects: Map<u32, BacnetObject>,
    points: Seq<DriverPointRef>,
) -> Seq<(u32, Result<Reading, (FaultKind, Seq<char>)>)>
    decreases points.len(),
{
    if points.len() == 0 {
        Seq::empty()
    } else {
        let earlier = unconfigured(objects, points.drop_last());
        let p = points.last().point_id;
        if objects.contains_key(p) {
            earlier
        } else {
            earlier.push((p, Err(unconfigured_fault(p))))
        }
    }
}

/// The devices of the configured points, in the order of their first point.
pub open spec fn device_order(
    objects: Map<u32, BacnetObject>,
    points: Seq<DriverPointRef>,
) -> Seq<u32>
    decreases points.len(),
{
    if points.len() == 0 {
        Seq::empty()
    } else {
        let earlier = device_order(objects, points.drop_last());
        let p = points.last().point_id;
        if objects.contains_key(p) && !earlier.contains(objects[p].device_id) {
            earlier.push(objects[p].device_id)
        } else {
            earlier
        }
    }
}

/// The configured points of one device, in order, with their objects.
pub open spec fn members_of(
    objects: Map<u32, BacnetObject>,
    points: Seq<DriverPointRef>,
    device_id: u32,
) -> Seq<(u32, BacnetObject)>
    decreases points.len(),
{
    if points.len() == 0 {
        Seq::empty()
    } else {
        let earlier = members_of(objects, points.drop_last(), device_id);
        let p = points.last().point_id;
        if objects.contains_key(p) && objects[p].device_id == device_id {
            earlier.push((p, objects[p]))
        } else {
            earlier
        }
    }
}

/// Whether `x` is in `v`.
fn listed(v: &Vec<u32>, x: u32) -> (res: bool)
    ensures
        res == v@.contains(x),
{
    let mut i: usize = 0;
    while i < v.len()
        invariant
            i <= v@.len(),
            forall|k: int| 0 <= k < i ==> v@[k] != x,
        decreases v@.len() - i,
    {
        if v[i] == x {
            assert(v@[i as int] == x);
            return true;
        }
        i += 1;
    }
    false
}

/// The points of one device.
#[derive(Debug)]
pub struct DeviceGroup {
    pub device_id: u32,
    /// Point IDs with their objects.
    pub members: Vec<(u32, BacnetObject)>,
}

/// What is known of a group of points before anything is read.
#[derive(Debug)]
pub struct GroupPlan {
    /// Points whose outcome is known: the device is unknown, or a notification
    /// brought the value.
    pub answered: Vec<(u32, Result<Reading, DriverError>)>,
    /// How to read the others.
    pub reads: ReadPlan,
}

/// How to read the points of a device.
#[derive(Debug)]
pub enum ReadPlan {
    /// There is nothing to read.
    Nothing,
    /// Read the present value of a single object.
    Single { addr: SocketAddress, point_id: u32, object: BacnetObject },
    /// Read the present values together; if that fails, one by one.
    Batch {
        addr: SocketAddress,
        members: Vec<(u32, BacnetObject)>,
        specs: Vec<RpmRequestSpec>,
    },
}

/// How old a cached value may be: ten minutes.
pub const MAX_CACHE_AGE: u128 = 600_000_000_000;

/// Whether the value of an object is answered from the cache.
pub open spec fn cached(d: BacnetDriverView, obj: BacnetObject, now: u128) -> bool {
    d.cache.contains_key((obj.object_type, obj.instance)) && fresh(
        d.cache[(obj.object_type, obj.instance)].updated_at,
        now,
        MAX_CACHE_AGE,
    )
}

/// The outcomes that are known of the members of a group before reading.
pub open spec fn answered_members(
    d: BacnetDriverView,
    device_id: u32,
    members: Seq<(u32, BacnetObject)>,
    now: u128,
) -> Seq<(u32, Result<Reading, (FaultKind, Seq<char>)>)>
    decreases members.len(),
{
    if members.len() == 0 {
        Seq::empty()
    } else {
        let earlier = answered_members(d, device_id, members.drop_last(), now);
        let (p, obj) = members.last();
        if !d.devices.contains_key(device_id) {
            earlier.push((p, Err(unknown_device_fault(device_id))))
        } else if cached(d, obj, now) {
            earlier.push(
                (
                    p,
                    value_reading(
                        d.cache[(obj.object_type, obj.instance)].value,
                        obj,
                        "bacnet: non-numeric COV value"@,
                    ),
                ),
            )
        } else {
            earlier
        }
    }
}

/// The members of a group that have to be read.
pub open spec fn unread_members(
    d: BacnetDriverView,
    device_id: u32,
    members: Seq<(u32, BacnetObject)>,
    now: u128,
) -> Seq<(u32, BacnetObject)>
    decreases members.len(),
{
    if members.len() == 0 {
        Seq::empty()
    } else {
        let earlier = unread_members(d, device_id, members.drop_last(), now);
        if d.devices.contains_key(device_id) && !cached(d, members.last().1, now) {
            earlier.push(members.last())
        } else {
            earlier
        }
    }
}

/// The specifications that read the present values of several objects.
pub open spec fn present_value_specs(members: Seq<(u32, BacnetObject)>) -> Seq<RpmRequestSpec> {
    members.map_values(
        |m: (u32, BacnetObject)|
            RpmRequestSpec {
                object_type: m.1.object_type,
                instance: m.1.instance,
                property_id: PRESENT_VALUE,
                array_index: None,
            },
    )
}

/// Whether a plan reads just the members in `unread`, from the endpoint `addr`.
pub open spec fn reads_members(
    reads: ReadPlan,
    addr: SocketAddress,
    unread: Seq<(u32, BacnetObject)>,
) -> bool {
    if unread.len() == 0 {
        reads is Nothing
    } else if unread.len() == 1 {
        reads == (ReadPlan::Single { addr, point_id: unread[0].0, object: unread[0].1 })
    } else {
        reads matches ReadPlan::Batch { addr: a, members, specs } && a == addr && members@
            == unread && specs@ == present_value_specs(unread)
    }
}

impl BacnetDriver {
    /// The outcomes of the points without an object.
    pub fn unconfigured_points(&self, points: &[DriverPointRef]) -> (out: Vec<
        (u32, Result<Reading, DriverError>),
    >)
        ensures
            outcomes_view(out@) == unconfigured(self@.objects, points@),
    {
        broadcast use group_hash_axioms;

        let mut out: Vec<(u32, Result<Reading, DriverError>)> = Vec::new();
        let mut i: usize = 0;
        assert(points@.subrange(0, 0) =~= Seq::empty());
        assert(outcomes_view(out@) =~= Seq::empty());
        while i < points.len()
            invariant
                i <= points@.len(),
                outcomes_view(out@) == unconfigured(
                    self@.objects,
                    points@.subrange(0, i as int),
                ),
            decreases points@.len() - i,
        {
            let ghost before = out@;
            assert(points@.subrange(0, i + 1).drop_last() =~= points@.subrange(0, i as int));
            let p: u32 = points[i].point_id;
            if !self.objects().contains_key(&p) {
                out.push(
                    (
                        p,
                        Err(
                            DriverError::ConfigFault(
                                text_decimal("no BACnet object configured for point ", p as u128),
                            ),
                        ),
                    ),
                );
                assert(outcomes_view(out@) =~= outcomes_view(before).push(
                    (p, Err(unconfigured_fault(p))),
                ));
            }
            i += 1;
        }
        assert(points@.subrange(0, i as int) =~= points@);
        out
    }

    /// The devices of the configured points, in the order of their first point.
    fn devices_of(&self, points: &[DriverPointRef]) -> (out: Vec<u32>)
        ensures
            out@ == device_order(self@.objects, points@),
    {
        broadcast use group_hash_axioms;

        let mut out: Vec<u32> = Vec::new();
        let mut i: usize = 0;
        assert(points@.subrange(0, 0) =~= Seq::empty());
        while i < points.len()
            invariant
                i <= points@.len(),
                out@ == device_order(self@.objects, points@.subrange(0, i as int)),
            decreases points@.len() - i,
        {
            assert(points@.subrange(0, i + 1).drop_last() =~= points@.subrange(0, i as int));
            if let Some(obj) = self.objects().get(&points[i].point_id) {
                if !listed(&out, obj.device_id) {
                    out.push(obj.device_id);
                }
            }
            i += 1;
        }
        assert(points@.subrange(0, i as int) =~= points@);
        out
    }

    /// The configured points of one device, with their objects.
    fn group_members(&self, points: &[DriverPointRef], device_id: u32) -> (out: Vec<
        (u32, BacnetObject),
    >)
        ensures
            out@ == members_of(self@.objects, points@, device_id),
    {
        broadcast use group_hash_axioms;

        let mut out: Vec<(u32, BacnetObject)> = Vec::new();
        let mut i: usize = 0;
        assert(points@.subrange(0, 0) =~= Seq::empty());
        while i < points.len()
            invariant
                i <= points@.len(),
                out@ == members_of(self@.objects, points@.subrange(0, i as int), device_id),
            decreases points@.len() - i,
        {
            assert(points@.subrange(0, i + 1).drop_last() =~= points@.subrange(0, i as int));
            let p: u32 = points[i].point_id;
            if let Some(obj) = self.objects().get(&p) {
                if obj.device_id == device_id {
                    out.push((p, obj.clone()));
                }
            }
            i += 1;
        }
        assert(points@.subrange(0, i as int) =~= points@);
        out
    }

    /// Group the configured points by device, in the order of the first point
    /// of each device.
    pub fn group_points(&self, points: &[DriverPointRef]) -> (groups: Vec<DeviceGroup>)
        ensures
            groups@.len() == device_order(self@.objects, points@).len(),
            forall|i: int|
                0 <= i < groups@.len() ==> (#[trigger] groups@[i]).device_id == device_order(
                    self@.objects,
                    points@,
                )[i] && groups@[i].members@ == members_of(
                    self@.objects,
                    points@,
                    groups@[i].device_id,
                ),
    {
        let order: Vec<u32> = self.devices_of(points);
        let mut groups: Vec<DeviceGroup> = Vec::new();
        let mut i: usize = 0;
        while i < order.len()
            invariant
                i <= order@.len(),
                order@ == device_order(self@.objects, points@),
                groups@.len() == i,
                forall|k: int|
                    0 <= k < i ==> (#[trigger] groups@[k]).device_id == order@[k]
                        && groups@[k].members@ == members_of(
                        self@.objects,
                        points@,
                        groups@[k].device_id,
                    ),
            decreases order@.len() - i,
        {
            let members: Vec<(u32, BacnetObject)> = self.group_members(points, order[i]);
            groups.push(DeviceGroup { device_id: order[i], members });
            i += 1;
        }
        groups
    }

    /// Plan the reads of a group at time `now`.
    ///
    /// If the device is not known, every point has its outcome. Otherwise a
    /// point whose cached value is young enough is answered from the cache, and
    /// the rest is read: a single one by itself, several together.
    pub fn plan_group(&self, group: DeviceGroup, now: u128) -> (plan: GroupPlan)
        ensures
            outcomes_view(plan.answered@) == answered_members(
                self@,
                group.device_id,
                group.members@,
                now,
            ),
            reads_members(
                plan.reads,
                self@.devices[group.device_id].addr,
                unread_members(self@, group.device_id, group.members@, now),
            ),
    {
        let members: &Vec<(u32, BacnetObject)> = &group.members;
        let mut answered: Vec<(u32, Result<Reading, DriverError>)> = Vec::new();
        let mut unread: Vec<(u32, BacnetObject)> = Vec::new();
        let known: Option<SocketAddress> = match self.device_registry().get(group.device_id) {
            Some(d) => Some(d.addr),
            None => None,
        };
        let mut i: usize = 0;
        assert(members@.subrange(0, 0) =~= Seq::empty());
        assert(outcomes_view(answered@) =~= Seq::empty());
        while i < members.len()
            invariant
                i <= members@.len(),
                members@ == group.members@,
                known is Some == self@.devices.contains_key(group.device_id),
                outcomes_view(answered@) == answered_members(
                    self@,
                    group.device_id,
                    members@.subrange(0, i as int),
                    now,
                ),
                unread@ == unread_members(
                    self@,
                    group.device_id,
                    members@.subrange(0, i as int),
                    now,
                ),
            decreases members@.len() - i,
        {
            let ghost before = answered@;
            assert(members@.subrange(0, i + 1).drop_last() =~= members@.subrange(0, i as int));
            assert(members@.subrange(0, i + 1).last() == members@[i as int]);
            let p: u32 = members[i].0;
            let obj: &BacnetObject = &members[i].1;
            match known {
                None => {
                    answered.push(
                        (
                            p,
                            Err(
                                DriverError::CommFault(
                                    text_decimal_tail(
                                        "BACnet device ",
                                        group.device_id as u128,
                                        " not in registry",
                                    ),
                                ),
                            ),
                        ),
                    );
                    assert(outcomes_view(answered@) =~= outcomes_view(before).push(
                        (p, Err(unknown_device_fault(group.device_id))),
                    ));
                },
                Some(_) => match self.cov_cache().get(
                    obj.object_type,
                    obj.instance,
                    now,
                    MAX_CACHE_AGE,
                ) {
                    Some(entry) => {
                        let res: Result<Reading, DriverError> = read_value(
                            &entry.value,
                            obj,
                            "bacnet: non-numeric COV value",
                        );
                        let ghost seen = crate::driver::outcome_view(res);
                        answered.push((p, res));
                        assert(outcomes_view(answered@) =~= outcomes_view(before).push((p, seen)));
                    },
                    None => {
                        unread.push((p, obj.clone()));
                    },
                },
            }
            i += 1;
        }
        assert(members@.subrange(0, i as int) =~= members@);
        let reads: ReadPlan = match known {
            None => {
                proof {
                    lemma_unknown_device_reads_nothing(
                        self@,
                        group.device_id,
                        group.members@,
                        now,
                    );
                }
                ReadPlan::Nothing
            },
            Some(addr) => plan_reads(addr, unread),
        };
        GroupPlan { answered, reads }
    }

    /// Where and how the value of a point is written.
    ///
    /// A point without an object and one whose object is neither analog nor
    /// binary is a configuration fault; a device that is not known is a
    /// communication fault.
    pub fn plan_write(&self, point_id: u32) -> (res: Result<WriteTarget, DriverError>)
        ensures
            crate::driver::outcome_view(res) == write_target(self@, point_id),
    {
        broadcast use group_hash_axioms;

        let obj: &BacnetObject = match self.objects().get(&point_id) {
            None => return Err(
                DriverError::ConfigFault(
                    text_decimal("no BACnet object configured for point ", point_id as u128),
                ),
            ),
            Some(o) => o,
        };
        let addr: SocketAddress = match self.device_registry().get(obj.device_id) {
            None => return Err(
                DriverError::CommFault(
                    text_decimal_tail(
                        "BACnet device ",
                        obj.device_id as u128,
                        " not in registry",
                    ),
                ),
            ),
            Some(d) => d.addr,
        };
        let kind: WriteKind = if obj.object_type <= 2 {
            WriteKind::Analog
        } else if obj.object_type <= 5 {
            WriteKind::Binary
        } else {
            return Err(
                DriverError::ConfigFault(
                    text_decimal_tail(
                        "unsupported object type ",
                        obj.object_type as u128,
                        " for write",
                    ),
                ),
            );
        };
        Ok(
            WriteTarget {
                addr,
                object_type: obj.object_type,
                instance: obj.instance,
                scale: obj.scale,
                offset: obj.offset,
                kind,
            },
        )
    }
}

/// Choose how to read the members of a group.
fn plan_reads(addr: SocketAddress, mut unread: Vec<(u32, BacnetObject)>) -> (reads: ReadPlan)
    ensures
        reads_members(reads, addr, unread@),
{
    if unread.len() == 0 {
        ReadPlan::Nothing
    } else if unread.len() == 1 {
        let (point_id, object): (u32, BacnetObject) = unread.remove(0);
        ReadPlan::Single { addr, point_id, object }
    } else {
        let mut specs: Vec<RpmRequestSpec> = Vec::new();
        let mut i: usize = 0;
        while i < unread.len()
            invariant
                i <= unread@.len(),
                specs@.len() == i,
                forall|k: int|
                    0 <= k < i ==> specs@[k] == #[trigger] present_value_specs(unread@)[k],
            decreases unread@.len() - i,
        {
            specs.push(
                RpmRequestSpec {
                    object_type: unread[i].1.object_type,
                    instance: unread[i].1.instance,
                    property_id: PRESENT_VALUE,
                    array_index: None,
                },
            );
            i += 1;
        }
        assert(specs@ =~= present_value_specs(unread@));
        ReadPlan::Batch { addr, members: unread, specs }
    }
}

/// Of a device that is not known nothing is read.
proof fn lemma_unknown_device_reads_nothing(
    d: BacnetDriverView,
    device_id: u32,
    members: Seq<(u32, BacnetObject)>,
    now: u128,
)
    requires
        !d.devices.contains_key(device_id),
    ensures
        unread_members(d, device_id, members, now).len() == 0,
    decreases members.len(),
{
    if members.len() > 0 {
        lemma_unknown_device_reads_nothing(d, device_id, members.drop_last(), now);
    }
}

/// The outcome of each member of a batch from the value that was read for it.
pub open spec fn batch_outcome(
    member: (u32, BacnetObject),
    value: Result<ValueView, (FaultKind, Seq<char>)>,
) -> (u32, Result<Reading, (FaultKind, Seq<char>)>) {
    (
        member.0,
        match value {
            Ok(v) => value_reading(v, member.1, "bacnet: non-numeric value"@),
            Err(e) => Err(e),
        },
    )
}

/// Turn the values of a batch into the outcomes of its members, in order. If
/// there are fewer values than members, the last members get no outcome.
pub fn batch_outcomes(
    members: &Vec<(u32, BacnetObject)>,
    values: &Vec<Result<BacnetValue, DriverError>>,
) -> (out: Vec<(u32, Result<Reading, DriverError>)>)
    ensures
        out@.len() == if members@.len() <= values@.len() {
            members@.len()
        } else {
            values@.len()
        },
        forall|i: int|
            0 <= i < out@.len() ==> #[trigger] outcomes_view(out@)[i] == batch_outcome(
                members@[i],
                spec_outcome_view(values@[i]),
            ),
{
    let mut out: Vec<(u32, Result<Reading, DriverError>)> = Vec::new();
    let mut i: usize = 0;
    while i < members.len() && i < values.len()
        invariant
            i <= members@.len(),
            i <= values@.len(),
            out@.len() == i,
            forall|k: int|
                0 <= k < i ==> #[trigger] outcomes_view(out@)[k] == batch_outcome(
                    members@[k],
                    spec_outcome_view(values@[k]),
                ),
        decreases members@.len() - i,
    {
        let ghost before = out@;
        let res: Result<Reading, DriverError> = match &values[i] {
            Ok(v) => read_value(v, &members[i].1, "bacnet: non-numeric value"),
            Err(e) => Err(e.clone()),
        };
        out.push((members[i].0, res));
        proof {
            assert forall|k: int| 0 <= k < i + 1 implies #[trigger] outcomes_view(out@)[k]
                == batch_outcome(members@[k], spec_outcome_view(values@[k])) by {
                if k < i {
                    assert(outcomes_view(out@)[k] == outcomes_view(before)[k]);
                }
            }
        }
        i += 1;
    }
    out
}

// ── Writing ─────────────────────────────────────────────────

/// Whether an object takes a number or an on/off value.
#[derive(Debug, Clone, Copy, PartialEq, Eq, Structural)]
pub enum WriteKind {
    Analog,
    Binary,
}

/// Where and how a value is written.
#[derive(Debug, Clone, Copy, PartialEq, Eq, Structural)]
pub struct WriteTarget {
    pub addr: SocketAddress,
    pub object_type: u16,
    pub instance: u32,
    /// Bits of the scale and the offset that made the engineering value.
    pub scale: u64,
    pub offset: u64,
    pub kind: WriteKind,
}

/// The priority that values are written with: the lowest, so that every other
/// command wins.
pub const WRITE_PRIORITY: u8 = 16;

/// Where and how the value of a point is written.
pub open spec fn write_target(d: BacnetDriverView, point_id: u32) -> Result<
    WriteTarget,
    (FaultKind, Seq<char>),
> {
    let obj = d.objects[point_id];
    if !d.objects.contains_key(point_id) {
        Err(unconfigured_fault(point_id))
    } else if !d.devices.contains_key(obj.device_id) {
        Err(unknown_device_fault(obj.device_id))
    } else if obj.object_type > 5 {
        Err(
            (
                FaultKind::ConfigFault,
                "unsupported object type "@ + decimal(obj.object_type as nat) + " for write"@,
            ),
        )
    } else {
        Ok(
            WriteTarget {
                addr: d.devices[obj.device_id].addr,
                object_type: obj.object_type,
                instance: obj.instance,
                scale: obj.scale,
                offset: obj.offset,
                kind: if obj.object_type <= 2 {
                    WriteKind::Analog
                } else {
                    WriteKind::Binary
                },
            },
        )
    }
}

/// The value that is sent for a raw value with `bits` in single precision.
pub open spec fn written_value(kind: WriteKind, bits: u32, nonzero: bool) -> ValueView {
    match kind {
        WriteKind::Analog => ValueView::Real(bits),
        WriteKind::Binary => ValueView::Enumerated(
            if nonzero {
                1
            } else {
                0
            },
        ),
    }
}

/// The value to send: a Real for an analog object, an enumeration (0 inactive,
/// 1 active) for a binary one.
///
/// `bits` are those of the raw value in single precision, `nonzero` tells
/// whether the raw value differs from zero.
pub fn write_value(kind: WriteKind, bits: u32, nonzero: bool) -> (res: BacnetValue)
    ensures
        res == match kind {
            WriteKind::Analog => BacnetValue::Real(bits),
            WriteKind::Binary => BacnetValue::Enumerated(
                if nonzero {
                    1
                } else {
                    0
                },
            ),
        },
        res@ == written_value(kind, bits, nonzero),
{
    match kind {
        WriteKind::Analog => BacnetValue::Real(bits),
        WriteKind::Binary => BacnetValue::Enumerated(if nonzero { 1 } else { 0 }),
    }
}

// ── Learning ────────────────────────────────────────────────

/// The kind of point that an object type makes: types 0-2 are numbers, 3-5 are
/// on/off values, others are no points.
pub open spec fn kind_of(object_type: u16) -> Option<Seq<char>> {
    if object_type <= 2 {
        Some("Number"@)
    } else if object_type <= 5 {
        Some("Bool"@)
    } else {
        None
    }
}

/// The kind of point that an object type makes.
pub fn point_kind(object_type: u16) -> (res: Option<&'static str>)
    ensures
        match res {
            Some(kind) => kind_of(object_type) == Some(kind@),
            None => kind_of(object_type) is None,
        },
{
    if object_type <= 2 {
        Some("Number")
    } else if object_type <= 5 {
        Some("Bool")
    } else {
        None
    }
}

/// The point that an object of a device is learnt as. Without a name of its
/// own the object is called by its type and instance.
pub open spec fn learnt(
    device: u32,
    object_type: u16,
    instance: u32,
    name: Option<Seq<char>>,
) -> Option<LearnPointView> {
    let d = decimal(device as nat);
    let t = decimal(object_type as nat);
    let i = decimal(instance as nat);
    match kind_of(object_type) {
        None => None,
        Some(kind) => Some(
            LearnPointView {
                name: d + "-"@ + match name {
                    Some(n) => n,
                    None => t + "-"@ + i,
                },
                address: d + ":"@ + t + ":"@ + i,
                kind,
                unit: None,
                tags: seq![("deviceId"@, d), ("objectType"@, t), ("instance"@, i)],
            },
        ),
    }
}

/// The point that an object of a device is learnt as.
pub fn learn_point(
    device: u32,
    object_type: u16,
    instance: u32,
    name: Option<String>,
) -> (res: Option<LearnPoint>)
    ensures
        match res {
            Some(p) => Some(p@),
            None => None,
        } == learnt(
            device,
            object_type,
            instance,
            match name {
                Some(n) => Some(n@),
                None => None,
            },
        ),
        res matches Some(p) ==> distinct_keys(p@.tags),
{
    let kind: &str = match point_kind(object_type) {
        None => return None,
        Some(k) => k,
    };
    let d: String = text_decimal("", device as u128);
    let t: String = text_decimal("", object_type as u128);
    let i: String = text_decimal("", instance as u128);
    proof {
        reveal_strlit("");
        assert(d@ =~= decimal(device as nat));
        assert(t@ =~= decimal(object_type as nat));
        assert(i@ =~= decimal(instance as nat));
    }
    let mut full: String = d.clone();
    full.append("-");
    match &name {
        Some(n) => full.append(n.as_str()),
        None => {
            full.append(t.as_str());
            full.append("-");
            full.append(i.as_str());
        },
    }
    let mut address: String = d.clone();
    address.append(":");
    address.append(t.as_str());
    address.append(":");
    address.append(i.as_str());
    let p: LearnPoint = LearnPoint {
        name: full,
        address,
        kind: text(kind),
        unit: None,
        tags: vec![(text("deviceId"), d), (text("objectType"), t), (text("instance"), i)],
    };
    proof {
        let want = learnt(
            device,
            object_type,
            instance,
            match name {
                Some(n) => Some(n@),
                None => None,
            },
        )->Some_0;
        assert(p@.name =~= want.name);
        assert(p@.address =~= want.address);
        assert(p@.tags =~= want.tags);
        reveal_strlit("deviceId");
        reveal_strlit("objectType");
        reveal_strlit("instance");
        assert("deviceId"@[0] != "instance"@[0]);
        assert("objectType"@.len() != "deviceId"@.len());
        assert("objectType"@.len() != "instance"@.len());
    }
    Some(p)
}

// ── Foreign device registration ─────────────────────────────

/// The time to live, in seconds, that a registration is requested with.
pub const REGISTRATION_TTL: u16 = 300;

/// How often a registration is requested.
pub const REGISTRATION_ATTEMPTS: u32 = 3;

/// What to do after an attempt to register as a foreign device.
#[derive(Debug, PartialEq, Eq)]
pub enum RegistrationStep {
    /// The BBMD accepted.
    Registered,
    /// Send the request again.
    Retry,
    /// The registration failed.
    Failed(BacnetError),
}

/// What a [`RegistrationStep`] says.
pub enum RegistrationStepView {
    Registered,
    Retry,
    Failed(BacnetErrorView),
}

impl View for RegistrationStep {
    type V = RegistrationStepView;

    open spec fn view(&self) -> RegistrationStepView {
        match *self {
            RegistrationStep::Registered => RegistrationStepView::Registered,
            RegistrationStep::Retry => RegistrationStepView::Retry,
            RegistrationStep::Failed(e) => RegistrationStepView::Failed(e@),
        }
    }
}

/// What to do after attempt `attempt` (from 0), to which `data` arrived, or
/// nothing within the time.
pub open spec fn after_registration(attempt: u32, data: Option<Seq<u8>>) -> RegistrationStepView {
    let again = if attempt + 1 < REGISTRATION_ATTEMPTS {
        RegistrationStepView::Retry
    } else {
        RegistrationStepView::Failed(BacnetErrorView::Timeout(REGISTRATION_ATTEMPTS))
    };
    match data {
        None => again,
        Some(s) => match parse_bvll_result(s) {
            Err(_) => again,
            Ok(code) => if code == 0 {
                RegistrationStepView::Registered
            } else {
                RegistrationStepView::Failed(
                    malformed("BBMD registration NAK: result code 0x"@ + hex4(code)),
                )
            },
        },
    }
}

/// Decide what follows an attempt to register as a foreign device.
///
/// A result code of 0 is success and any other one a refusal. Another packet,
/// or none within the time, leads to another attempt, three in all.
pub fn registration_step(attempt: u32, data: Option<&[u8]>) -> (res: RegistrationStep)
    ensures
        res@ == after_registration(
            attempt,
            match data {
                Some(d) => Some(d@),
                None => None,
            },
        ),
{
    if let Some(d) = data {
        if let Ok(code) = decode_bvll_result(d) {
            if code == 0 {
                return RegistrationStep::Registered;
            }
            let mut msg: String = text("BBMD registration NAK: result code 0x");
            push_hex4(&mut msg, code);
            return RegistrationStep::Failed(BacnetError::MalformedFrame(msg));
        }
    }
    if attempt < REGISTRATION_ATTEMPTS - 1 {
        RegistrationStep::Retry
    } else {
        RegistrationStep::Failed(BacnetError::Timeout(REGISTRATION_ATTEMPTS))
    }
}

} // verus!
