//! One round of reading points: which device is asked next, and what its
//! answers make of the points.
//!
//! The caller performs the reads that [`SyncRun::next`] asks for and reports
//! what came of them, until nothing is left to read.

use vstd::prelude::*;

use super::discovery::SocketAddress;
use super::driver::{BacnetDriver, BacnetDriverView};
use super::frame::RpmRequestSpec;
use super::object::BacnetObject;
use super::plan::{
    answered_members, batch_outcome, batch_outcomes, device_order, members_of,
    present_value_specs, reading, reading_of, unconfigured, unread_members, DeviceGroup,
    GroupPlan, ReadPlan, Reading,
};
use super::reply::spec_outcome_view;
use super::value::{BacnetValue, Number, ValueView};
use crate::driver::{outcome_view, outcomes_view, DriverError, DriverPointRef, FaultKind};

verus! {

// ── State ───────────────────────────────────────────────────

/// Reads that have been planned and whose outcome is open.
#[derive(Debug)]
enum Pending {
    /// There are none.
    Nothing,
    /// Objects of one device that are read one by one.
    Singles { addr: SocketAddress, members: Vec<(u32, BacnetObject)> },
    /// Objects of one device that are read together.
    Batch {
        addr: SocketAddress,
        members: Vec<(u32, BacnetObject)>,
        specs: Vec<RpmRequestSpec>,
    },
}

/// The open reads of a round.
pub enum PendingView {
    Nothing,
    Singles { addr: SocketAddress, members: Seq<(u32, BacnetObject)> },
    Batch { addr: SocketAddress, members: Seq<(u32, BacnetObject)> },
}

/// A round of reading points.
#[derive(Debug)]
pub struct SyncRun {
    results: Vec<(u32, Result<Reading, DriverError>)>,
    groups: Vec<DeviceGroup>,
    pending: Pending,
}

/// What a [`SyncRun`] knows.
pub struct SyncView {
    /// The outcomes so far, in the order in which they were found.
    pub results: Seq<(u32, Result<Reading, (FaultKind, Seq<char>)>)>,
    /// The open reads.
    pub pending: PendingView,
    /// The devices that have not been looked at, with their points.
    pub groups: Seq<(u32, Seq<(u32, BacnetObject)>)>,
}

/// What a list of groups says.
pub open spec fn groups_view(groups: Seq<DeviceGroup>) -> Seq<(u32, Seq<(u32, BacnetObject)>)> {
    groups.map_values(|g: DeviceGroup| (g.device_id, g.members@))
}

impl View for SyncRun {
    type V = SyncView;

    closed spec fn view(&self) -> SyncView {
        SyncView {
            results: outcomes_view(self.results@),
            pending: match self.pending {
                Pending::Nothing => PendingView::Nothing,
                Pending::Singles { addr, members } => PendingView::Singles {
                    addr,
                    members: members@,
                },
                Pending::Batch { addr, members, .. } => PendingView::Batch {
                    addr,
                    members: members@,
                },
            },
            groups: groups_view(self.groups@),
        }
    }
}

/// What is to be read next.
#[derive(Debug, PartialEq, Eq)]
pub enum SyncStep {
    /// The present value of an object.
    ReadOne { addr: SocketAddress, object: BacnetObject },
    /// Several properties together.
    ReadBatch { addr: SocketAddress, specs: Vec<RpmRequestSpec> },
    /// Nothing: the round is complete.
    Done,
}

/// Whether a step is what the state calls for.
pub open spec fn calls_for(v: SyncView, step: SyncStep) -> bool {
    match v.pending {
        PendingView::Nothing => step is Done,
        PendingView::Singles { addr, members } => step == (SyncStep::ReadOne {
            addr,
            object: members[0].1,
        }),
        PendingView::Batch { addr, members } => step matches SyncStep::ReadBatch { addr: a, specs }
            && a == addr && specs@ == present_value_specs(members),
    }
}

// ── Transitions ─────────────────────────────────────────────

/// The state at the start: points without an object have their outcome, the
/// others wait in the group of their device.
pub open spec fn begun(d: BacnetDriverView, points: Seq<DriverPointRef>) -> SyncView {
    SyncView {
        results: unconfigured(d.objects, points),
        pending: PendingView::Nothing,
        groups: device_order(d.objects, points).map_values(
            |dev: u32| (dev, members_of(d.objects, points, dev)),
        ),
    }
}

/// How the members of a device that have to be read are read: a single one by
/// itself, several together.
pub open spec fn opened_reads(
    addr: SocketAddress,
    unread: Seq<(u32, BacnetObject)>,
) -> PendingView {
    if unread.len() == 0 {
        PendingView::Nothing
    } else if unread.len() == 1 {
        PendingView::Singles { addr, members: unread }
    } else {
        PendingView::Batch { addr, members: unread }
    }
}

/// The state after the next device has been looked at.
pub open spec fn after_group(d: BacnetDriverView, now: u128, v: SyncView) -> SyncView {
    let (device_id, members) = v.groups[0];
    SyncView {
        results: v.results + answered_members(d, device_id, members, now),
        pending: opened_reads(
            d.devices[device_id].addr,
            unread_members(d, device_id, members, now),
        ),
        groups: v.groups.drop_first(),
    }
}

/// The state once there is something to read, or nothing is left.
pub open spec fn advanced(d: BacnetDriverView, now: u128, v: SyncView) -> SyncView
    decreases v.groups.len(),
{
    if v.pending is Nothing && v.groups.len() > 0 {
        advanced(d, now, after_group(d, now, v))
    } else {
        v
    }
}

/// The state after the first open single read.
pub open spec fn after_read(
    v: SyncView,
    outcome: Result<Number, (FaultKind, Seq<char>)>,
) -> SyncView {
    match v.pending {
        PendingView::Singles { addr, members } => SyncView {
            results: v.results.push(
                (
                    members[0].0,
                    match outcome {
                        Ok(n) => Ok(reading_of(n, members[0].1)),
                        Err(e) => Err(e),
                    },
                ),
            ),
            pending: if members.len() == 1 {
                PendingView::Nothing
            } else {
                PendingView::Singles { addr, members: members.drop_first() }
            },
            ..v
        },
        _ => v,
    }
}

/// The state after the open batch: its values, or none if it failed as a whole
/// and its members are to be read one by one.
pub open spec fn after_batch(
    v: SyncView,
    values: Option<Seq<Result<ValueView, (FaultKind, Seq<char>)>>>,
) -> SyncView {
    match v.pending {
        PendingView::Batch { addr, members } => match values {
            Some(vals) => SyncView {
                results: v.results + Seq::new(
                    members.len(),
                    |i: int| batch_outcome(members[i], vals[i]),
                ),
                pending: PendingView::Nothing,
                ..v
            },
            None => SyncView { pending: PendingView::Singles { addr, members }, ..v },
        },
        _ => v,
    }
}

/// The views of the values of a batch.
pub open spec fn batch_values_view(values: Seq<Result<BacnetValue, DriverError>>) -> Seq<
    Result<ValueView, (FaultKind, Seq<char>)>,
> {
    values.map_values(|r: Result<BacnetValue, DriverError>| spec_outcome_view(r))
}

/// What came of a batch.
pub open spec fn batch_view(values: Option<Vec<Result<BacnetValue, DriverError>>>) -> Option<
    Seq<Result<ValueView, (FaultKind, Seq<char>)>>,
> {
    match values {
        Some(vals) => Some(batch_values_view(vals@)),
        None => None,
    }
}

// ── Accounting ──────────────────────────────────────────────

/// How often a point occurs in a list of points with something attached.
pub open spec fn times<T>(list: Seq<(u32, T)>, point_id: u32) -> nat
    decreases list.len(),
{
    if list.len() == 0 {
        0
    } else {
        times(list.drop_last(), point_id) + if list.last().0 == point_id {
            1nat
        } else {
            0nat
        }
    }
}

/// How often a point is asked for.
pub open spec fn times_asked(points: Seq<DriverPointRef>, point_id: u32) -> nat
    decreases points.len(),
{
    if points.len() == 0 {
        0
    } else {
        times_asked(points.drop_last(), point_id) + if points.last().point_id == point_id {
            1nat
        } else {
            0nat
        }
    }
}

/// How often a point occurs in several groups.
pub open spec fn times_in_groups(
    groups: Seq<(u32, Seq<(u32, BacnetObject)>)>,
    point_id: u32,
) -> nat
    decreases groups.len(),
{
    if groups.len() == 0 {
        0
    } else {
        times(groups[0].1, point_id) + times_in_groups(groups.drop_first(), point_id)
    }
}

/// How often a point occurs among the open reads.
pub open spec fn times_pending(pending: PendingView, point_id: u32) -> nat {
    match pending {
        PendingView::Nothing => 0,
        PendingView::Singles { members, .. } => times(members, point_id),
        PendingView::Batch { members, .. } => times(members, point_id),
    }
}

/// How many outcomes of a point there are or will be.
pub open spec fn owed(v: SyncView, point_id: u32) -> nat {
    times(v.results, point_id) + times_pending(v.pending, point_id) + times_in_groups(
        v.groups,
        point_id,
    )
}

/// Lists one after the other.
proof fn lemma_times_add<T>(a: Seq<(u32, T)>, b: Seq<(u32, T)>, p: u32)
    ensures
        times(a + b, p) == times(a, p) + times(b, p),
    decreases b.len(),
{
    if b.len() == 0 {
        assert(a + b =~= a);
    } else {
        assert((a + b).drop_last() =~= a + b.drop_last());
        assert((a + b).last() == b.last());
        lemma_times_add(a, b.drop_last(), p);
    }
}

/// A list from its first entry on.
proof fn lemma_times_first<T>(list: Seq<(u32, T)>, p: u32)
    requires
        list.len() > 0,
    ensures
        times(list, p) == times(list.drop_first(), p) + if list[0].0 == p {
            1nat
        } else {
            0nat
        },
{
    let head = seq![list[0]];
    assert(list =~= head + list.drop_first());
    lemma_times_add(head, list.drop_first(), p);
    assert(head.drop_last() =~= Seq::empty());
    assert(times(head.drop_last(), p) == 0);
}

/// Lists of the same points.
proof fn lemma_times_same_points<T, U>(a: Seq<(u32, T)>, b: Seq<(u32, U)>, p: u32)
    requires
        a.len() == b.len(),
        forall|i: int| 0 <= i < a.len() ==> (#[trigger] a[i]).0 == b[i].0,
    ensures
        times(a, p) == times(b, p),
    decreases a.len(),
{
    if a.len() > 0 {
        let x = a.drop_last();
        let y = b.drop_last();
        assert forall|i: int| 0 <= i < x.len() implies (#[trigger] x[i]).0 == y[i].0 by {
            assert(a[i].0 == b[i].0);
        }
        assert(a[a.len() - 1].0 == b[b.len() - 1].0);
        lemma_times_same_points(x, y, p);
    }
}

/// Every member of a group is answered or left to be read, as often as it
/// occurs.
proof fn lemma_group_times(
    d: BacnetDriverView,
    device_id: u32,
    members: Seq<(u32, BacnetObject)>,
    now: u128,
    p: u32,
)
    ensures
        times(answered_members(d, device_id, members, now), p) + times(
            unread_members(d, device_id, members, now),
            p,
        ) == times(members, p),
    decreases members.len(),
{
    if members.len() > 0 {
        let init = members.drop_last();
        lemma_group_times(d, device_id, init, now, p);
        let answered = answered_members(d, device_id, init, now);
        let unread = unread_members(d, device_id, init, now);
        let all_answered = answered_members(d, device_id, members, now);
        let all_unread = unread_members(d, device_id, members, now);
        if all_answered.len() > answered.len() {
            assert(all_answered.drop_last() =~= answered);
        }
        if all_unread.len() > unread.len() {
            assert(all_unread.drop_last() =~= unread);
        }
    }
}

/// How often a point occurs among the members of several devices.
spec fn times_on_devices(
    objects: Map<u32, BacnetObject>,
    points: Seq<DriverPointRef>,
    devices: Seq<u32>,
    p: u32,
) -> nat
    decreases devices.len(),
{
    if devices.len() == 0 {
        0
    } else {
        times_on_devices(objects, points, devices.drop_last(), p) + times(
            members_of(objects, points, devices.last()),
            p,
        )
    }
}

/// How one more point changes the count on several devices.
proof fn lemma_times_on_devices_step(
    objects: Map<u32, BacnetObject>,
    points: Seq<DriverPointRef>,
    devices: Seq<u32>,
    p: u32,
)
    requires
        points.len() > 0,
        devices.no_duplicates(),
    ensures
        ({
            let last = points.last().point_id;
            times_on_devices(objects, points, devices, p) == times_on_devices(
                objects,
                points.drop_last(),
                devices,
                p,
            ) + if last == p && objects.contains_key(last) && devices.contains(
                objects[last].device_id,
            ) {
                1nat
            } else {
                0nat
            }
        }),
    decreases devices.len(),
{
    if devices.len() > 0 {
        let rest = devices.drop_last();
        lemma_times_on_devices_step(objects, points, rest, p);
        let last = points.last().point_id;
        let here = devices.last();
        let before = members_of(objects, points.drop_last(), here);
        let after = members_of(objects, points, here);
        if after.len() > before.len() {
            assert(after.drop_last() =~= before);
        }
        if objects.contains_key(last) {
            let dev = objects[last].device_id;
            if rest.contains(dev) {
                let k = choose|k: int| 0 <= k < rest.len() && rest[k] == dev;
                assert(devices[k] == dev);
                assert(here != dev);
            } else if here == dev {
                assert(devices[devices.len() - 1] == dev);
            } else if devices.contains(dev) {
                let k = choose|k: int| 0 <= k < devices.len() && devices[k] == dev;
                assert(rest[k] == dev);
            }
        }
    }
}

/// A device that no point names has no members.
proof fn lemma_unnamed_device(
    objects: Map<u32, BacnetObject>,
    points: Seq<DriverPointRef>,
    dev: u32,
)
    requires
        !device_order(objects, points).contains(dev),
    ensures
        members_of(objects, points, dev).len() == 0,
    decreases points.len(),
{
    if points.len() > 0 {
        let earlier = device_order(objects, points.drop_last());
        let all = device_order(objects, points);
        if earlier.contains(dev) {
            let k = choose|k: int| 0 <= k < earlier.len() && earlier[k] == dev;
            assert(all[k] == dev);
        }
        lemma_unnamed_device(objects, points.drop_last(), dev);
        let p = points.last().point_id;
        if objects.contains_key(p) && objects[p].device_id == dev {
            assert(all[all.len() - 1] == dev);
        }
    }
}

/// No device is listed twice.
proof fn lemma_devices_distinct(objects: Map<u32, BacnetObject>, points: Seq<DriverPointRef>)
    ensures
        device_order(objects, points).no_duplicates(),
    decreases points.len(),
{
    if points.len() > 0 {
        lemma_devices_distinct(objects, points.drop_last());
    }
}

/// Every point is reported as not configured or counted with its device.
proof fn lemma_points_split(objects: Map<u32, BacnetObject>, points: Seq<DriverPointRef>, p: u32)
    ensures
        times(unconfigured(objects, points), p) + times_on_devices(
            objects,
            points,
            device_order(objects, points),
            p,
        ) == times_asked(points, p),
    decreases points.len(),
{
    if points.len() > 0 {
        let init = points.drop_last();
        lemma_points_split(objects, init, p);
        lemma_devices_distinct(objects, init);
        lemma_devices_distinct(objects, points);
        let before = device_order(objects, init);
        let after = device_order(objects, points);
        let last = points.last().point_id;
        lemma_times_on_devices_step(objects, points, after, p);
        if objects.contains_key(last) {
            let dev = objects[last].device_id;
            if before.contains(dev) {
                assert(after == before);
            } else {
                lemma_unnamed_device(objects, init, dev);
                assert(after.drop_last() =~= before);
                assert(after[after.len() - 1] == dev);
            }
        } else {
            let u = unconfigured(objects, points);
            assert(u.drop_last() =~= unconfigured(objects, init));
        }
    }
}

/// The count in groups is the count on their devices.
proof fn lemma_times_in_groups(
    objects: Map<u32, BacnetObject>,
    points: Seq<DriverPointRef>,
    devices: Seq<u32>,
    p: u32,
)
    ensures
        times_in_groups(
            devices.map_values(|dev: u32| (dev, members_of(objects, points, dev))),
            p,
        ) == times_on_devices(objects, points, devices, p),
    decreases devices.len(),
{
    let f = |dev: u32| (dev, members_of(objects, points, dev));
    let groups = devices.map_values(f);
    if devices.len() > 0 {
        let init = devices.drop_last();
        lemma_times_in_groups(objects, points, init, p);
        assert(groups.drop_last() =~= init.map_values(f));
        lemma_times_in_groups_last(groups, p);
        assert(groups.last() == f(devices.last()));
    }
}

/// Groups up to their last.
proof fn lemma_times_in_groups_last(groups: Seq<(u32, Seq<(u32, BacnetObject)>)>, p: u32)
    requires
        groups.len() > 0,
    ensures
        times_in_groups(groups, p) == times_in_groups(groups.drop_last(), p) + times(
            groups.last().1,
            p,
        ),
    decreases groups.len(),
{
    if groups.len() > 1 {
        lemma_times_in_groups_last(groups.drop_first(), p);
        assert(groups.drop_first().drop_last() =~= groups.drop_last().drop_first());
        assert(groups.drop_first().last() == groups.last());
        assert(groups.drop_last()[0] == groups[0]);
    } else {
        assert(groups.drop_first() =~= Seq::empty());
        assert(groups.drop_last() =~= Seq::empty());
    }
}

// ── Laws ────────────────────────────────────────────────────

/// At the start every point is owed as many outcomes as it was asked for.
pub proof fn round_owes_every_point(
    d: BacnetDriverView,
    points: Seq<DriverPointRef>,
    point_id: u32,
)
    ensures
        owed(begun(d, points), point_id) == times_asked(points, point_id),
{
    lemma_points_split(d.objects, points, point_id);
    lemma_times_in_groups(d.objects, points, device_order(d.objects, points), point_id);
}

/// Looking at devices changes no debt.
pub proof fn advancing_keeps_debts(d: BacnetDriverView, now: u128, v: SyncView, point_id: u32)
    ensures
        owed(advanced(d, now, v), point_id) == owed(v, point_id),
    decreases v.groups.len(),
{
    if v.pending is Nothing && v.groups.len() > 0 {
        let next = after_group(d, now, v);
        let (device_id, members) = v.groups[0];
        lemma_group_times(d, device_id, members, now, point_id);
        lemma_times_add(v.results, answered_members(d, device_id, members, now), point_id);
        advancing_keeps_debts(d, now, next, point_id);
    }
}

/// The outcome of a single read changes no debt.
pub proof fn reading_keeps_debts(
    v: SyncView,
    outcome: Result<Number, (FaultKind, Seq<char>)>,
    point_id: u32,
)
    requires
        v.pending matches PendingView::Singles { members, .. } ==> members.len() > 0,
    ensures
        owed(after_read(v, outcome), point_id) == owed(v, point_id),
{
    if let PendingView::Singles { members, .. } = v.pending {
        lemma_times_first(members, point_id);
        let after = after_read(v, outcome).results;
        assert(after.drop_last() =~= v.results);
        if members.len() == 1 {
            assert(members.drop_first() =~= Seq::empty());
        }
    }
}

/// The outcome of a batch changes no debt, whether it brought values or failed.
pub proof fn batch_keeps_debts(
    v: SyncView,
    values: Option<Seq<Result<ValueView, (FaultKind, Seq<char>)>>>,
    point_id: u32,
)
    ensures
        owed(after_batch(v, values), point_id) == owed(v, point_id),
{
    if let PendingView::Batch { members, .. } = v.pending {
        if let Some(vals) = values {
            let outcomes = Seq::new(members.len(), |i: int| batch_outcome(members[i], vals[i]));
            lemma_times_add(v.results, outcomes, point_id);
            lemma_times_same_points(outcomes, members, point_id);
        }
    }
}

/// A round with nothing left to read has paid its debts: every point has as
/// many outcomes as it was owed.
pub proof fn complete_round_owes_nothing(v: SyncView, point_id: u32)
    requires
        v.pending is Nothing,
        v.groups.len() == 0,
    ensures
        times(v.results, point_id) == owed(v, point_id),
{
}

// ── Operations ──────────────────────────────────────────────

impl SyncRun {
    /// What holds of every round: open single reads are never an empty list,
    /// and a batch asks for the present values of its members.
    pub closed spec fn wf(&self) -> bool {
        match self.pending {
            Pending::Nothing => true,
            Pending::Singles { members, .. } => members@.len() > 0,
            Pending::Batch { members, specs, .. } => members@.len() > 0 && specs@
                == present_value_specs(members@),
        }
    }

    /// Start a round.
    pub fn begin(driver: &BacnetDriver, points: &[DriverPointRef]) -> (res: Self)
        ensures
            res.wf(),
            res@ == begun(driver@, points@),
            forall|p: u32| #[trigger] owed(res@, p) == times_asked(points@, p),
    {
        let results: Vec<(u32, Result<Reading, DriverError>)> = driver.unconfigured_points(points);
        let groups: Vec<DeviceGroup> = driver.group_points(points);
        let res: SyncRun = SyncRun { results, groups, pending: Pending::Nothing };
        proof {
            assert(res@.groups =~= begun(driver@, points@).groups);
            assert forall|p: u32| #[trigger] owed(res@, p) == times_asked(points@, p) by {
                round_owes_every_point(driver@, points@, p);
            }
        }
        res
    }

    /// Find out what to read next, at time `now`.
    pub fn next(&mut self, driver: &BacnetDriver, now: u128) -> (step: SyncStep)
        requires
            old(self).wf(),
        ensures
            final(self).wf(),
            final(self)@ == advanced(driver@, now, old(self)@),
            calls_for(final(self)@, step),
            step is Done ==> final(self)@.groups.len() == 0,
            forall|p: u32| #[trigger] owed(final(self)@, p) == owed(old(self)@, p),
    {
        let ghost start = self@;
        proof {
            assert forall|p: u32| #[trigger] owed(advanced(driver@, now, start), p) == owed(
                start,
                p,
            ) by {
                advancing_keeps_debts(driver@, now, start, p);
            }
        }
        loop
            invariant
                self.wf(),
                advanced(driver@, now, self@) == advanced(driver@, now, start),
            ensures
                self.wf(),
                self@ == advanced(driver@, now, start),
                !(self@.pending is Nothing && self@.groups.len() > 0),
            decreases self.groups@.len(),
        {
            match self.pending {
                Pending::Nothing => {},
                _ => break,
            }
            if self.groups.len() == 0 {
                break;
            }
            self.look_at_next(driver, now);
        }
        match &self.pending {
            Pending::Nothing => SyncStep::Done,
            Pending::Singles { addr, members } => SyncStep::ReadOne {
                addr: *addr,
                object: members[0].1.clone(),
            },
            Pending::Batch { addr, specs, .. } => SyncStep::ReadBatch {
                addr: *addr,
                specs: copied(specs),
            },
        }
    }

    /// Look at the next device.
    fn look_at_next(&mut self, driver: &BacnetDriver, now: u128)
        requires
            old(self).wf(),
            old(self)@.pending is Nothing,
            old(self)@.groups.len() > 0,
        ensures
            final(self).wf(),
            final(self)@ == after_group(driver@, now, old(self)@),
            final(self).groups@.len() < old(self).groups@.len(),
    {
        let ghost before = self@;
        let group: DeviceGroup = self.groups.remove(0);
        let ghost members = group.members@;
        assert((group.device_id, members) == before.groups[0]);
        let mut plan: GroupPlan = driver.plan_group(group, now);
        let ghost answered = outcomes_view(plan.answered@);
        self.results.append(&mut plan.answered);
        assert(outcomes_view(self.results@) =~= before.results + answered);
        self.pending = match plan.reads {
            ReadPlan::Nothing => Pending::Nothing,
            ReadPlan::Single { addr, point_id, object } => {
                let mut members: Vec<(u32, BacnetObject)> = Vec::new();
                members.push((point_id, object));
                Pending::Singles { addr, members }
            },
            ReadPlan::Batch { addr, members, specs } => Pending::Batch { addr, members, specs },
        };
        proof {
            let want = after_group(driver@, now, before);
            assert(self@.groups =~= want.groups);
            if let PendingView::Singles { members, .. } = want.pending {
                assert(self@.pending->Singles_members =~= members);
            }
        }
    }

    /// The open single read has ended.
    pub fn read_one(&mut self, outcome: Result<Number, DriverError>)
        requires
            old(self).wf(),
            old(self)@.pending is Singles,
        ensures
            final(self).wf(),
            final(self)@ == after_read(old(self)@, outcome_view(outcome)),
            forall|p: u32| #[trigger] owed(final(self)@, p) == owed(old(self)@, p),
    {
        let ghost start = self@;
        let ghost seen = outcome_view(outcome);
        let mut pending: Pending = Pending::Nothing;
        std::mem::swap(&mut pending, &mut self.pending);
        if let Pending::Singles { addr, members } = pending {
            let mut rest: Vec<(u32, BacnetObject)> = members;
            let (point_id, object): (u32, BacnetObject) = rest.remove(0);
            let res: Result<Reading, DriverError> = match outcome {
                Ok(n) => Ok(reading(n, &object)),
                Err(e) => Err(e),
            };
            let ghost entry = (point_id, outcome_view(res));
            self.results.push((point_id, res));
            assert(outcomes_view(self.results@) =~= start.results.push(entry));
            if rest.len() > 0 {
                assert(rest@ =~= start.pending->Singles_members.drop_first());
                self.pending = Pending::Singles { addr, members: rest };
            }
        }
        proof {
            assert(self@ == after_read(start, seen));
            assert forall|p: u32| #[trigger] owed(self@, p) == owed(start, p) by {
                reading_keeps_debts(start, seen, p);
            }
        }
    }

    /// The open batch has ended: with a value for each of its specifications,
    /// or, if it failed as a whole, with nothing. Then its members are read one
    /// by one.
    pub fn batch_read(&mut self, values: Option<Vec<Result<BacnetValue, DriverError>>>)
        requires
            old(self).wf(),
            old(self)@.pending is Batch,
            values matches Some(vals) ==> vals@.len() == old(self)@.pending->Batch_members.len(),
        ensures
            final(self).wf(),
            final(self)@ == after_batch(old(self)@, batch_view(values)),
            forall|p: u32| #[trigger] owed(final(self)@, p) == owed(old(self)@, p),
    {
        let ghost start = self@;
        let ghost seen = batch_view(values);
        let mut pending: Pending = Pending::Nothing;
        std::mem::swap(&mut pending, &mut self.pending);
        if let Pending::Batch { addr, members, .. } = pending {
            match values {
                Some(vals) => {
                    let mut outcomes: Vec<(u32, Result<Reading, DriverError>)> = batch_outcomes(
                        &members,
                        &vals,
                    );
                    let ghost found = outcomes_view(outcomes@);
                    self.results.append(&mut outcomes);
                    proof {
                        let want = Seq::new(
                            members@.len(),
                            |i: int| batch_outcome(members@[i], batch_values_view(vals@)[i]),
                        );
                        assert(found =~= want);
                        assert(outcomes_view(self.results@) =~= start.results + want);
                    }
                },
                None => {
                    self.pending = Pending::Singles { addr, members };
                },
            }
        }
        proof {
            assert(self@ == after_batch(start, seen));
            assert forall|p: u32| #[trigger] owed(self@, p) == owed(start, p) by {
                batch_keeps_debts(start, seen, p);
            }
        }
    }

    /// The outcomes of the round.
    pub fn into_results(self) -> (res: Vec<(u32, Result<Reading, DriverError>)>)
        ensures
            outcomes_view(res@) == self@.results,
    {
        self.results
    }
}

/// A copy of a list of specifications.
fn copied(specs: &Vec<RpmRequestSpec>) -> (out: Vec<RpmRequestSpec>)
    ensures
        out@ == specs@,
{
    let mut out: Vec<RpmRequestSpec> = Vec::new();
    let mut i: usize = 0;
    while i < specs.len()
        invariant
            i <= specs@.len(),
            out@ == specs@.subrange(0, i as int),
        decreases specs@.len() - i,
    {
        out.push(specs[i]);
        i += 1;
        assert(specs@.subrange(0, i as int) =~= specs@.subrange(0, i - 1).push(specs@[i - 1]));
    }
    assert(specs@.subrange(0, i as int) =~= specs@);
    out
}

} // verus!
