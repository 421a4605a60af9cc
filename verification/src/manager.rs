//! The driver manager's state and decisions: which drivers there are, which
//! points they own, what status each point shows, and which changes of value
//! are worth telling.
//!
//! The caller owns the drivers themselves. It calls them as the manager says,
//! and reports their status with [`DriverManager::observe`].

use std::collections::HashMap;

use vstd::prelude::*;
use vstd::std_specs::hash::*;
use vstd::string::*;

use crate::driver::{
    outcome_view, outcomes_view, resolved, status_for_fault, DriverError, DriverPointRef,
    DriverStatus, DriverSummary, FaultKind, PointStatus, PointStatusView, PollMode, StatusView,
    SyncRequest,
};
use crate::maps::keys_of;
use crate::poll_scheduler::{
    bucket_points, bucket_positions, buckets_without, BucketView, PollScheduler,
};
use crate::text::{joined, text};
use crate::watch_manager::{
    subscribed_points_are_watched, watchers, with_watches, without_watches, DriverWatchManager,
};

verus! {

/// How many change-of-value events a subscriber may fall behind.
pub const DEFAULT_COV_CAPACITY: usize = 512;

// ── State ───────────────────────────────────────────────────

/// What the manager knows of a driver.
#[derive(Debug)]
pub struct DriverRecord {
    pub id: String,
    pub driver_type: String,
    /// The status that the driver last showed.
    pub status: DriverStatus,
    pub poll_mode: PollMode,
}

/// What a [`DriverRecord`] says.
pub struct DriverRecordView {
    pub id: Seq<char>,
    pub driver_type: Seq<char>,
    pub status: StatusView,
    pub poll_mode: PollMode,
}

impl View for DriverRecord {
    type V = DriverRecordView;

    open spec fn view(&self) -> DriverRecordView {
        DriverRecordView {
            id: self.id@,
            driver_type: self.driver_type@,
            status: self.status@,
            poll_mode: self.poll_mode,
        }
    }
}

/// The views of a list of records.
pub open spec fn records_view(records: Seq<DriverRecord>) -> Seq<DriverRecordView> {
    records.map_values(|r: DriverRecord| r@)
}

/// A change of value that subscribers are told of.
#[derive(Debug, PartialEq, Eq)]
pub struct CovEvent {
    /// Point whose value changed.
    pub point_id: u32,
    /// Bits of the new value.
    pub value: u64,
    /// The point's status when the event was made.
    pub status: PointStatus,
}

/// What a [`CovEvent`] says.
pub struct CovEventView {
    pub point_id: u32,
    pub value: u64,
    pub status: PointStatusView,
}

impl View for CovEvent {
    type V = CovEventView;

    open spec fn view(&self) -> CovEventView {
        CovEventView { point_id: self.point_id, value: self.value, status: self.status@ }
    }
}

/// The views of a list of events.
pub open spec fn events_view(events: Seq<CovEvent>) -> Seq<CovEventView> {
    events.map_values(|e: CovEvent| e@)
}

/// The driver manager.
#[derive(Debug)]
pub struct DriverManager {
    drivers: Vec<DriverRecord>,
    poll_scheduler: PollScheduler,
    watch_manager: DriverWatchManager,
    point_statuses: HashMap<u32, PointStatus>,
    point_driver_map: HashMap<u32, String>,
    last_emitted: HashMap<u32, u64>,
}

/// What a [`DriverManager`] knows.
pub struct ManagerView {
    /// The drivers, in the order of their registration.
    pub drivers: Seq<DriverRecordView>,
    pub buckets: Seq<BucketView>,
    /// The subscribers of each watched point.
    pub watches: Map<u32, Set<Seq<char>>>,
    /// The status of points that do not simply follow their driver.
    pub point_status: Map<u32, PointStatusView>,
    /// The driver that owns each point.
    pub point_driver: Map<u32, Seq<char>>,
    /// Bits of the value that was last told of each point.
    pub last_emitted: Map<u32, u64>,
}

impl View for DriverManager {
    type V = ManagerView;

    closed spec fn view(&self) -> ManagerView {
        ManagerView {
            drivers: records_view(self.drivers@),
            buckets: self.poll_scheduler@,
            watches: self.watch_manager@,
            point_status: self.point_statuses@.map_values(|s: PointStatus| s@),
            point_driver: self.point_driver_map@.map_values(|s: String| s@),
            last_emitted: self.last_emitted@,
        }
    }
}

/// Whether no two drivers have the same ID.
pub open spec fn unique_ids(drivers: Seq<DriverRecordView>) -> bool {
    forall|i: int, j: int|
        0 <= i < drivers.len() && 0 <= j < drivers.len() && (#[trigger] drivers[i]).id == (
        #[trigger] drivers[j]).id ==> i == j
}

/// Whether a driver with an ID is registered.
pub open spec fn registered(drivers: Seq<DriverRecordView>, id: Seq<char>) -> bool {
    exists|i: int| 0 <= i < drivers.len() && (#[trigger] drivers[i]).id == id
}

/// The drivers with one of them left out.
pub open spec fn drivers_without(
    drivers: Seq<DriverRecordView>,
    id: Seq<char>,
) -> Seq<DriverRecordView> {
    drivers.filter(|d: DriverRecordView| d.id != id)
}

/// Driver records after the status of a driver has been seen.
pub open spec fn drivers_observed(
    drivers: Seq<DriverRecordView>,
    id: Seq<char>,
    status: StatusView,
) -> Seq<DriverRecordView> {
    drivers.map_values(
        |d: DriverRecordView|
            if d.id == id {
                DriverRecordView { status, ..d }
            } else {
                d
            },
    )
}

/// The owners of points, without those of one driver.
pub open spec fn points_without(owners: Map<u32, Seq<char>>, id: Seq<char>) -> Map<u32, Seq<char>> {
    owners.restrict(Set::new(|p: u32| owners.contains_key(p) && owners[p] != id))
}

/// The status of a point of its own: it follows its driver unless said otherwise.
pub open spec fn own_status(m: ManagerView, point_id: u32) -> PointStatusView {
    if m.point_status.contains_key(point_id) {
        m.point_status[point_id]
    } else {
        PointStatusView::Inherited
    }
}

/// The status that a point shows, given that of its driver.
pub open spec fn shown(
    statuses: Map<u32, PointStatusView>,
    point_id: u32,
    driver: StatusView,
) -> StatusView {
    resolved(
        if statuses.contains_key(point_id) {
            statuses[point_id]
        } else {
            PointStatusView::Inherited
        },
        driver,
    )
}

/// The error about a driver that is not registered.
pub open spec fn unknown_driver(id: Seq<char>) -> (FaultKind, Seq<char>) {
    (FaultKind::ConfigFault, "driver '"@ + id + "' not found"@)
}

/// The error about an ID that is taken.
pub open spec fn already_registered(id: Seq<char>) -> (FaultKind, Seq<char>) {
    (FaultKind::ConfigFault, "driver '"@ + id + "' already registered"@)
}

// ── Reads and changes of value ──────────────────────────────

/// The status of points after the outcome of one read: a failure leaves its
/// mark, a success clears it.
pub open spec fn status_after_read(
    statuses: Map<u32, PointStatusView>,
    read: (u32, Result<u64, (FaultKind, Seq<char>)>),
) -> Map<u32, PointStatusView> {
    match read.1 {
        Ok(_) => statuses.remove(read.0),
        Err(e) => statuses.insert(read.0, status_for_fault(e)),
    }
}

/// The status of points after several reads.
pub open spec fn status_after_reads(
    statuses: Map<u32, PointStatusView>,
    reads: Seq<(u32, Result<u64, (FaultKind, Seq<char>)>)>,
) -> Map<u32, PointStatusView>
    decreases reads.len(),
{
    if reads.len() == 0 {
        statuses
    } else {
        status_after_read(status_after_reads(statuses, reads.drop_last()), reads.last())
    }
}

/// Whether the bits of a double-precision number are those of no number: the
/// exponent is all ones and the fraction is not zero.
pub open spec fn is_nan_bits(v: u64) -> bool {
    v / 0x10_0000_0000_0000 % 0x800 == 0x7FF && v % 0x10_0000_0000_0000 != 0
}

/// Whether a successful read is news: the first of its point, other bits than
/// were last told, or no number. What has stopped being a number is told every
/// time.
pub open spec fn is_news(
    last: Map<u32, u64>,
    read: (u32, Result<u64, (FaultKind, Seq<char>)>),
) -> bool {
    match read.1 {
        Ok(v) => !last.contains_key(read.0) || last[read.0] != v || is_nan_bits(v),
        Err(_) => false,
    }
}

/// What has been told of points after several reads.
pub open spec fn emitted_after(
    last: Map<u32, u64>,
    reads: Seq<(u32, Result<u64, (FaultKind, Seq<char>)>)>,
) -> Map<u32, u64>
    decreases reads.len(),
{
    if reads.len() == 0 {
        last
    } else {
        let before = emitted_after(last, reads.drop_last());
        if is_news(before, reads.last()) {
            before.insert(reads.last().0, reads.last().1->Ok_0)
        } else {
            before
        }
    }
}

/// The events of several reads, in order. Each carries the status that its
/// point has after all of them.
pub open spec fn events_of(
    last: Map<u32, u64>,
    statuses: Map<u32, PointStatusView>,
    reads: Seq<(u32, Result<u64, (FaultKind, Seq<char>)>)>,
) -> Seq<CovEventView>
    decreases reads.len(),
{
    if reads.len() == 0 {
        Seq::empty()
    } else {
        let earlier = events_of(last, statuses, reads.drop_last());
        let (p, r) = reads.last();
        if is_news(emitted_after(last, reads.drop_last()), reads.last()) {
            earlier.push(
                CovEventView {
                    point_id: p,
                    value: r->Ok_0,
                    status: if statuses.contains_key(p) {
                        statuses[p]
                    } else {
                        PointStatusView::Inherited
                    },
                },
            )
        } else {
            earlier
        }
    }
}

/// The reads of several drivers, one driver after the other.
pub open spec fn all_reads(
    reads: Seq<Seq<(u32, Result<u64, (FaultKind, Seq<char>)>)>>,
) -> Seq<(u32, Result<u64, (FaultKind, Seq<char>)>)>
    decreases reads.len(),
{
    if reads.len() == 0 {
        Seq::empty()
    } else {
        all_reads(reads.drop_last()) + reads.last()
    }
}

/// The answer to a round of reads: every read under the ID of its driver, one
/// driver after the other.
pub open spec fn answer_of(
    ids: Seq<Seq<char>>,
    reads: Seq<Seq<(u32, Result<u64, (FaultKind, Seq<char>)>)>>,
) -> Seq<(Seq<char>, u32, Result<u64, (FaultKind, Seq<char>)>)>
    decreases reads.len(),
{
    if reads.len() == 0 {
        Seq::empty()
    } else {
        answer_of(ids, reads.drop_last()) + reads_under(ids[reads.len() - 1], reads.last())
    }
}

/// The reads of one driver, under its ID.
pub open spec fn reads_under(
    id: Seq<char>,
    reads: Seq<(u32, Result<u64, (FaultKind, Seq<char>)>)>,
) -> Seq<(Seq<char>, u32, Result<u64, (FaultKind, Seq<char>)>)> {
    Seq::new(reads.len(), |j: int| (id, reads[j].0, reads[j].1))
}

/// The driver IDs of a plan.
pub open spec fn plan_ids(plan: Seq<SyncRequest>) -> Seq<Seq<char>> {
    plan.map_values(|r: SyncRequest| r.driver_id@)
}

/// What the reads of several drivers say.
pub open spec fn reads_view(reads: Seq<Vec<(u32, Result<u64, DriverError>)>>) -> Seq<
    Seq<(u32, Result<u64, (FaultKind, Seq<char>)>)>,
> {
    reads.map_values(|r: Vec<(u32, Result<u64, DriverError>)>| outcomes_view(r@))
}

/// What an answer says.
pub open spec fn answer_view(answer: Seq<(String, u32, Result<u64, DriverError>)>) -> Seq<
    (Seq<char>, u32, Result<u64, (FaultKind, Seq<char>)>),
> {
    answer.map_values(
        |a: (String, u32, Result<u64, DriverError>)| (a.0@, a.1, outcome_view(a.2)),
    )
}

/// The requested reads whose driver is registered, in order.
pub open spec fn requests_for(
    drivers: Seq<DriverRecordView>,
    requests: Seq<SyncRequest>,
) -> Seq<SyncRequest>
    decreases requests.len(),
{
    if requests.len() == 0 {
        Seq::empty()
    } else {
        let earlier = requests_for(drivers, requests.drop_last());
        if registered(drivers, requests.last().driver_id@) {
            earlier.push(requests.last())
        } else {
            earlier
        }
    }
}

// ── Watches ─────────────────────────────────────────────────

/// The points of a list that satisfy a condition on their subscribers, in order.
pub open spec fn points_where(points: Seq<u32>, keep: spec_fn(u32) -> bool) -> Seq<u32>
    decreases points.len(),
{
    if points.len() == 0 {
        Seq::empty()
    } else {
        let earlier = points_where(points.drop_last(), keep);
        if keep(points.last()) {
            earlier.push(points.last())
        } else {
            earlier
        }
    }
}

/// The points of a list that nobody watches yet.
pub open spec fn newly_watched(watches: Map<u32, Set<Seq<char>>>, points: Seq<u32>) -> Seq<u32> {
    points_where(points, |p: u32| !watches.contains_key(p))
}

/// The points of a list that only `name` watches.
pub open spec fn no_longer_watched(
    watches: Map<u32, Set<Seq<char>>>,
    name: Seq<char>,
    points: Seq<u32>,
) -> Seq<u32> {
    points_where(points, |p: u32| watchers(watches, p) == set![name])
}

/// The points of a list that a driver owns, in order.
pub open spec fn owned_by(
    owners: Map<u32, Seq<char>>,
    id: Seq<char>,
    points: Seq<u32>,
) -> Seq<u32> {
    points_where(points, |p: u32| owners.contains_key(p) && owners[p] == id)
}

/// Whether `calls` hands the points to the registered drivers that own them:
/// one entry per driver that owns any of them, with its points in order.
pub open spec fn handed_out(
    m: ManagerView,
    points: Seq<u32>,
    calls: Seq<(Seq<char>, Seq<u32>)>,
) -> bool {
    &&& forall|i: int|
        0 <= i < calls.len() ==> registered(m.drivers, (#[trigger] calls[i]).0) && calls[i].1
            == owned_by(m.point_driver, calls[i].0, points) && calls[i].1.len() > 0
    &&& forall|id: Seq<char>|
        registered(m.drivers, id) && (#[trigger] owned_by(m.point_driver, id, points)).len() > 0
            ==> exists|i: int| 0 <= i < calls.len() && (#[trigger] calls[i]).0 == id
    &&& forall|i: int, j: int|
        0 <= i < calls.len() && 0 <= j < calls.len() && (#[trigger] calls[i]).0 == (
        #[trigger] calls[j]).0 ==> i == j
}

/// Whether bits are those of no number.
fn is_nan(v: u64) -> (res: bool)
    ensures
        res == is_nan_bits(v),
{
    v / 0x10_0000_0000_0000 % 0x800 == 0x7FF && v % 0x10_0000_0000_0000 != 0
}

/// Append the reads of one driver to an answer and to a list of reads.
fn push_reads(
    id: &str,
    reads: &Vec<(u32, Result<u64, DriverError>)>,
    answer: &mut Vec<(String, u32, Result<u64, DriverError>)>,
    flat: &mut Vec<(u32, Result<u64, DriverError>)>,
)
    ensures
        answer_view(final(answer)@) == answer_view(old(answer)@) + reads_under(
            id@,
            outcomes_view(reads@),
        ),
        outcomes_view(final(flat)@) == outcomes_view(old(flat)@) + outcomes_view(reads@),
{
    let ghost all = outcomes_view(reads@);
    let ghost under = reads_under(id@, all);
    let ghost answered = answer_view(answer@);
    let ghost noted = outcomes_view(flat@);
    let mut j: usize = 0;
    assert(answered + under.subrange(0, 0) =~= answered);
    assert(noted + all.subrange(0, 0) =~= noted);
    while j < reads.len()
        invariant
            j <= reads@.len(),
            all == outcomes_view(reads@),
            under == reads_under(id@, all),
            answer_view(answer@) == answered + under.subrange(0, j as int),
            outcomes_view(flat@) == noted + all.subrange(0, j as int),
        decreases reads@.len() - j,
    {
        let ghost answered_before = answer_view(answer@);
        let ghost noted_before = outcomes_view(flat@);
        let p: u32 = reads[j].0;
        let value: Result<u64, DriverError> = copy_outcome(&reads[j].1);
        let noted_value: Result<u64, DriverError> = copy_outcome(&reads[j].1);
        answer.push((text(id), p, value));
        flat.push((p, noted_value));
        assert(answer_view(answer@) =~= answered_before.push(under[j as int]));
        assert(outcomes_view(flat@) =~= noted_before.push(all[j as int]));
        assert(answered + under.subrange(0, j + 1) =~= (answered + under.subrange(
            0,
            j as int,
        )).push(under[j as int]));
        assert(noted + all.subrange(0, j + 1) =~= (noted + all.subrange(0, j as int)).push(
            all[j as int],
        ));
        j += 1;
    }
    assert(under.subrange(0, j as int) =~= under);
    assert(all.subrange(0, j as int) =~= all);
}

/// Copy the outcome of a read.
fn copy_outcome(r: &Result<u64, DriverError>) -> (res: Result<u64, DriverError>)
    ensures
        outcome_view(res) == outcome_view(*r),
{
    match r {
        Ok(v) => Ok(*v),
        Err(e) => Err(e.clone()),
    }
}

/// The points that a driver is to be called with.
#[derive(Debug)]
pub struct DriverCall {
    pub driver_id: String,
    pub points: Vec<u32>,
}

/// What a list of calls says.
pub open spec fn calls_view(calls: Seq<DriverCall>) -> Seq<(Seq<char>, Seq<u32>)> {
    calls.map_values(|c: DriverCall| (c.driver_id@, c.points@))
}

impl DriverManager {
    /// What holds of every manager: driver IDs are unique, and the watches are
    /// in order.
    pub closed spec fn wf(&self) -> bool {
        self.watch_manager.wf() && unique_ids(self@.drivers)
    }

    /// Create a manager without drivers.
    pub fn new() -> (res: Self)
        ensures
            res.wf(),
            res@ == (ManagerView {
                drivers: Seq::empty(),
                buckets: Seq::empty(),
                watches: Map::empty(),
                point_status: Map::empty(),
                point_driver: Map::empty(),
                last_emitted: Map::empty(),
            }),
    {
        broadcast use group_hash_axioms;

        let res: DriverManager = DriverManager {
            drivers: Vec::new(),
            poll_scheduler: PollScheduler::new(),
            watch_manager: DriverWatchManager::new(),
            point_statuses: HashMap::new(),
            point_driver_map: HashMap::new(),
            last_emitted: HashMap::new(),
        };
        assert(res@.drivers =~= Seq::empty());
        assert(res@.buckets =~= Seq::empty());
        assert(res@.point_status =~= Map::empty());
        assert(res@.point_driver =~= Map::empty());
        res
    }

    /// Find a driver: its position, or the number of drivers if there is none.
    fn find(&self, id: &str) -> (i: usize)
        ensures
            i <= self@.drivers.len(),
            i == self.drivers@.len() <==> !registered(self@.drivers, id@),
            i < self@.drivers.len() ==> self@.drivers[i as int].id == id@,
    {
        let wanted: String = text(id);
        let mut i: usize = 0;
        while i < self.drivers.len()
            invariant
                i <= self.drivers@.len(),
                wanted@ == id@,
                forall|k: int| 0 <= k < i ==> (#[trigger] self@.drivers[k]).id != id@,
            decreases self.drivers@.len() - i,
        {
            assert(self@.drivers[i as int] == self.drivers@[i as int]@);
            if self.drivers[i].id == wanted {
                return i;
            }
            i += 1;
        }
        i
    }

    /// Whether a driver is registered.
    pub fn is_registered(&self, id: &str) -> (res: bool)
        ensures
            res == registered(self@.drivers, id@),
    {
        self.find(id) < self.drivers.len()
    }

    /// A call to a driver needs the driver.
    pub fn require_driver(&self, id: &str) -> (res: Result<(), DriverError>)
        ensures
            call_outcome(self@, id@, res),
    {
        if self.is_registered(id) {
            Ok(())
        } else {
            let mut msg: String = joined("driver '", id);
            msg.append("' not found");
            Err(DriverError::ConfigFault(msg))
        }
    }

    /// Register a driver. An ID that is taken is refused.
    pub fn register(&mut self, driver: DriverRecord) -> (res: Result<(), DriverError>)
        requires
            old(self).wf(),
        ensures
            final(self).wf(),
            if registered(old(self)@.drivers, driver@.id) {
                &&& outcome_view(res) == Err::<(), (FaultKind, Seq<char>)>(
                    already_registered(driver@.id),
                )
                &&& final(self)@ == old(self)@
            } else {
                &&& res is Ok
                &&& final(self)@ == (ManagerView {
                    drivers: old(self)@.drivers.push(driver@),
                    ..old(self)@
                })
            },
    {
        if self.is_registered(driver.id.as_str()) {
            let mut msg: String = joined("driver '", driver.id.as_str());
            msg.append("' already registered");
            return Err(DriverError::ConfigFault(msg));
        }
        let ghost d = driver@;
        self.drivers.push(driver);
        assert(self@.drivers =~= old(self)@.drivers.push(d));
        Ok(())
    }

    /// Remove a driver, its poll buckets and its ownership of points. The
    /// caller closes the driver. `false` if there is no such driver.
    pub fn remove(&mut self, id: &str) -> (res: bool)
        requires
            old(self).wf(),
        ensures
            final(self).wf(),
            res == registered(old(self)@.drivers, id@),
            final(self)@ == if res {
                ManagerView {
                    drivers: drivers_without(old(self)@.drivers, id@),
                    buckets: buckets_without(old(self)@.buckets, id@),
                    point_driver: points_without(old(self)@.point_driver, id@),
                    ..old(self)@
                }
            } else {
                old(self)@
            },
    {
        let i: usize = self.find(id);
        if i >= self.drivers.len() {
            return false;
        }
        let ghost before = self@.drivers;
        let _ = self.drivers.remove(i);
        proof {
            assert(self@.drivers =~= before.remove(i as int));
            lemma_drivers_without(before, i as int);
        }
        self.poll_scheduler.remove_driver(id);
        self.disown(id);
        true
    }

    /// Forget which points a driver owns.
    fn disown(&mut self, id: &str)
        requires
            old(self).wf(),
        ensures
            final(self).wf(),
            final(self)@ == (ManagerView {
                point_driver: points_without(old(self)@.point_driver, id@),
                ..old(self)@
            }),
    {
        broadcast use group_hash_axioms;

        let wanted: String = text(id);
        let keys: Vec<u32> = keys_of(&self.point_driver_map);
        let ghost owners = self@.point_driver;
        let ghost start = self@;
        assert(keys@.to_set() =~= owners.dom());
        let mut i: usize = 0;
        while i < keys.len()
            invariant
                i <= keys@.len(),
                wanted@ == id@,
                keys@.no_duplicates(),
                self.wf(),
                start.point_driver == owners,
                keys@.to_set() == owners.dom(),
                self@ == (ManagerView { point_driver: self@.point_driver, ..start }),
                forall|p: u32|
                    #![trigger self@.point_driver.contains_key(p)]
                    self@.point_driver.contains_key(p) == (owners.contains_key(p) && !(exists|k:
                        int|
                        0 <= k < i && keys@[k] == p && owners[p] == id@)),
                forall|p: u32|
                    self@.point_driver.contains_key(p) ==> #[trigger] self@.point_driver[p]
                        == owners[p],
            decreases keys@.len() - i,
        {
            let ghost before = self@.point_driver;
            let key: u32 = keys[i];
            assert(keys@.to_set().contains(key));
            assert(before.contains_key(key)) by {
                if exists|k: int| 0 <= k < i && keys@[k] == key && owners[key] == id@ {
                    let k = choose|k: int| 0 <= k < i && keys@[k] == key && owners[key] == id@;
                    assert(keys@[k] == keys@[i as int]);
                }
            }
            let mine: bool = match self.point_driver_map.get(&key) {
                Some(owner) => *owner == wanted,
                None => false,
            };
            assert(before[key] == owners[key]);
            assert(mine == (owners[key] == id@));
            if mine {
                self.point_driver_map.remove(&key);
                assert(self@.point_driver =~= before.remove(key));
            }
            i += 1;
            proof {
                assert forall|p: u32|
                    #![trigger self@.point_driver.contains_key(p)]
                    self@.point_driver.contains_key(p) == (owners.contains_key(p) && !(exists|k:
                        int|
                        0 <= k < i && keys@[k] == p && owners[p] == id@)) by {
                    assert(before.contains_key(p) == (owners.contains_key(p) && !(exists|k: int|
                        0 <= k < i - 1 && keys@[k] == p && owners[p] == id@)));
                    if p == key && mine {
                        assert(keys@[i - 1] == p);
                    } else {
                        assert(before.contains_key(p) == self@.point_driver.contains_key(p));
                    }
                }
            }
        }
        proof {
            let want = points_without(owners, id@);
            assert forall|p: u32| self@.point_driver.contains_key(p) == want.contains_key(p) by {
                if owners.contains_key(p) {
                    assert(keys@.to_set().contains(p));
                    let k = choose|k: int| 0 <= k < keys@.len() && keys@[k] == p;
                    assert(keys@[k] == p);
                }
            }
            assert(self@.point_driver =~= want);
        }
    }

    /// Note the status that a driver shows. A driver that is not registered is
    /// ignored.
    pub fn observe(&mut self, id: &str, status: DriverStatus)
        requires
            old(self).wf(),
        ensures
            final(self).wf(),
            final(self)@ == (ManagerView {
                drivers: old(self)@.drivers.map_values(
                    |d: DriverRecordView|
                        if d.id == id@ {
                            DriverRecordView { status: status@, ..d }
                        } else {
                            d
                        },
                ),
                ..old(self)@
            }),
            final(self)@.drivers == drivers_observed(old(self)@.drivers, id@, status@),
    {
        let i: usize = self.find(id);
        let ghost before = self@.drivers;
        let ghost s = status@;
        let ghost want = before.map_values(
            |d: DriverRecordView|
                if d.id == id@ {
                    DriverRecordView { status: s, ..d }
                } else {
                    d
                },
        );
        if i < self.drivers.len() {
            let record: DriverRecord = DriverRecord {
                id: self.drivers[i].id.clone(),
                driver_type: self.drivers[i].driver_type.clone(),
                status,
                poll_mode: self.drivers[i].poll_mode,
            };
            self.drivers.set(i, record);
            proof {
                assert forall|k: int| 0 <= k < before.len() implies self@.drivers[k]
                    == want[k] by {
                    if k != i {
                        assert(before[k].id != before[i as int].id);
                    }
                }
                assert(self@.drivers =~= want);
                assert forall|a: int, b: int|
                    0 <= a < want.len() && 0 <= b < want.len() && (#[trigger] want[a]).id == (
                    #[trigger] want[b]).id implies a == b by {
                    assert(want[a].id == before[a].id && want[b].id == before[b].id);
                }
            }
        } else {
            proof {
                assert forall|k: int| 0 <= k < before.len() implies before[k] == want[k] by {
                    assert(before[k].id != id@);
                }
                assert(before =~= want);
            }
        }
    }

    /// The IDs of the drivers.
    pub fn driver_ids(&self) -> (out: Vec<String>)
        ensures
            lists_ids(self@, out@),
    {
        let mut out: Vec<String> = Vec::new();
        let mut i: usize = 0;
        while i < self.drivers.len()
            invariant
                i <= self.drivers@.len(),
                out@.len() == i,
                forall|k: int| 0 <= k < i ==> (#[trigger] out@[k])@ == self@.drivers[k].id,
            decreases self.drivers@.len() - i,
        {
            out.push(self.drivers[i].id.clone());
            i += 1;
        }
        assert(out@.map_values(|s: String| s@) =~= self@.drivers.map_values(
            |d: DriverRecordView| d.id,
        ));
        out
    }

    /// The status of a driver.
    pub fn get_driver_status(&self, id: &str) -> (res: Option<DriverStatus>)
        requires
            self.wf(),
        ensures
            driver_shows(self@, id@, res),
    {
        let i: usize = self.find(id);
        if i < self.drivers.len() {
            assert(self@.drivers[i as int].status == self.drivers@[i as int].status@);
            Some(self.drivers[i].status.clone())
        } else {
            None
        }
    }

    /// Summary info for all drivers.
    pub fn driver_summaries(&self) -> (out: Vec<DriverSummary>)
        requires
            forall|id: Seq<char>| #[trigger] bucket_points(self@.buckets, id) <= usize::MAX,
        ensures
            summarises_all(self@, out@),
    {
        let mut out: Vec<DriverSummary> = Vec::new();
        let mut i: usize = 0;
        while i < self.drivers.len()
            invariant
                i <= self.drivers@.len(),
                out@.len() == i,
                forall|id: Seq<char>| #[trigger] bucket_points(self@.buckets, id) <= usize::MAX,
                forall|k: int|
                    0 <= k < i ==> summarises(
                        #[trigger] out@[k],
                        self@.drivers[k],
                        self@.buckets,
                    ),
            decreases self.drivers@.len() - i,
        {
            let d: &DriverRecord = &self.drivers[i];
            assert(self@.drivers[i as int] == d@);
            let poll_buckets: usize = self.poll_scheduler.buckets_for_driver(d.id.as_str()).len();
            assert(bucket_points(self@.buckets, d.id@) <= usize::MAX);
            let poll_points: usize = self.poll_scheduler.points_for_driver(d.id.as_str());
            out.push(
                DriverSummary {
                    id: d.id.clone(),
                    driver_type: d.driver_type.clone(),
                    status: d.status.clone(),
                    poll_mode: text(d.poll_mode.label()),
                    poll_buckets,
                    poll_points,
                },
            );
            i += 1;
        }
        out
    }

    // ── Points ──────────────────────────────────────────────

    /// Register a point as belonging to a driver (for status inheritance).
    pub fn register_point(&mut self, point_id: u32, driver_id: &str)
        requires
            old(self).wf(),
        ensures
            final(self).wf(),
            final(self)@ == (ManagerView {
                point_driver: old(self)@.point_driver.insert(point_id, driver_id@),
                ..old(self)@
            }),
    {
        broadcast use group_hash_axioms;

        self.point_driver_map.insert(point_id, text(driver_id));
        assert(self@.point_driver =~= old(self)@.point_driver.insert(point_id, driver_id@));
    }

    /// Set a point-specific status.
    pub fn set_point_status(&mut self, point_id: u32, status: PointStatus)
        requires
            old(self).wf(),
        ensures
            final(self).wf(),
            final(self)@ == (ManagerView {
                point_status: old(self)@.point_status.insert(point_id, status@),
                ..old(self)@
            }),
    {
        broadcast use group_hash_axioms;

        let ghost s = status@;
        self.point_statuses.insert(point_id, status);
        assert(self@.point_status =~= old(self)@.point_status.insert(point_id, s));
    }

    /// The point-specific status of a point.
    fn point_status(&self, point_id: u32) -> (res: PointStatus)
        ensures
            res@ == own_status(self@, point_id),
    {
        broadcast use group_hash_axioms;

        match self.point_statuses.get(&point_id) {
            Some(s) => s.clone(),
            None => PointStatus::Inherited,
        }
    }

    /// The effective status of a point, with inheritance. `None` if the point
    /// has no driver, or its driver is not registered.
    pub fn effective_point_status(&self, point_id: u32) -> (res: Option<DriverStatus>)
        requires
            self.wf(),
        ensures
            point_shows(self@, point_id, res),
    {
        broadcast use group_hash_axioms;

        match self.point_driver_map.get(&point_id) {
            None => None,
            Some(driver_id) => {
                let i: usize = self.find(driver_id.as_str());
                if i < self.drivers.len() {
                    assert(self@.drivers[i as int] == self.drivers@[i as int]@);
                    Some(self.point_status(point_id).resolve(&self.drivers[i].status))
                } else {
                    None
                }
            },
        }
    }

    /// The status of a driver and of its points, in no particular order.
    pub fn driver_with_points_status(&self, driver_id: &str) -> (res: Option<
        (DriverStatus, Vec<(u32, DriverStatus)>),
    >)
        requires
            self.wf(),
        ensures
            driver_shows_points(self@, driver_id@, res),
    {
        broadcast use group_hash_axioms;

        let at: usize = self.find(driver_id);
        if at >= self.drivers.len() {
            return None;
        }
        let status: DriverStatus = self.drivers[at].status.clone();
        assert(self@.drivers[at as int] == self.drivers@[at as int]@);
        let wanted: String = text(driver_id);
        let keys: Vec<u32> = keys_of(&self.point_driver_map);
        let mut points: Vec<(u32, DriverStatus)> = Vec::new();
        let mut i: usize = 0;
        assert(keys@.to_set() =~= self@.point_driver.dom());
        while i < keys.len()
            invariant
                i <= keys@.len(),
                wanted@ == driver_id@,
                keys@.no_duplicates(),
                keys@.to_set() == self@.point_driver.dom(),
                forall|k: int|
                    0 <= k < points@.len() ==> owns(
                        self@,
                        driver_id@,
                        (#[trigger] points@[k]).0,
                    ) && points@[k].1@ == resolved(own_status(self@, points@[k].0), status@)
                        && exists|j: int| 0 <= j < i && #[trigger] keys@[j] == points@[k].0,
                forall|j: int|
                    0 <= j < i && owns(self@, driver_id@, #[trigger] keys@[j]) ==> exists|k: int|
                        0 <= k < points@.len() && (#[trigger] points@[k]).0 == keys@[j],
                forall|a: int, b: int|
                    0 <= a < b < points@.len() ==> (#[trigger] points@[a]).0 != (
                    #[trigger] points@[b]).0,
            decreases keys@.len() - i,
        {
            let ghost before = points@;
            let key: u32 = keys[i];
            assert(keys@.to_set().contains(key));
            let mine: bool = match self.point_driver_map.get(&key) {
                Some(owner) => *owner == wanted,
                None => false,
            };
            assert(mine == owns(self@, driver_id@, key));
            if mine {
                assert forall|k: int| 0 <= k < points@.len() implies (
                #[trigger] points@[k]).0 != key by {
                    let j = choose|j: int| 0 <= j < i && #[trigger] keys@[j] == points@[k].0;
                    assert(keys@[j] != keys@[i as int]);
                }
                let shown: DriverStatus = self.point_status(key).resolve(&status);
                points.push((key, shown));
                assert(points@[before.len() as int].0 == keys@[i as int]);
            }
            i += 1;
            proof {
                assert forall|j: int|
                    0 <= j < i && owns(self@, driver_id@, #[trigger] keys@[j]) implies exists|
                    k: int,
                |
                    0 <= k < points@.len() && (#[trigger] points@[k]).0 == keys@[j] by {
                    if j < i - 1 {
                        let k = choose|k: int|
                            0 <= k < before.len() && (#[trigger] before[k]).0 == keys@[j];
                        assert(points@[k].0 == keys@[j]);
                    } else {
                        assert(points@[before.len() as int].0 == keys@[j]);
                    }
                }
                assert forall|k: int| 0 <= k < points@.len() implies owns(
                    self@,
                    driver_id@,
                    (#[trigger] points@[k]).0,
                ) && points@[k].1@ == resolved(own_status(self@, points@[k].0), status@)
                    && exists|j: int| 0 <= j < i && #[trigger] keys@[j] == points@[k].0 by {
                    if k < before.len() {
                        assert(points@[k] == before[k]);
                        let j = choose|j: int|
                            0 <= j < i - 1 && #[trigger] keys@[j] == before[k].0;
                        assert(keys@[j] == points@[k].0);
                    } else {
                        assert(keys@[i - 1] == points@[k].0);
                    }
                }
            }
        }
        proof {
            assert forall|p: u32| #[trigger] owns(self@, driver_id@, p) implies exists|k: int|
                0 <= k < points@.len() && (#[trigger] points@[k]).0 == p by {
                assert(keys@.to_set().contains(p));
                let j = choose|j: int| 0 <= j < keys@.len() && keys@[j] == p;
                assert(owns(self@, driver_id@, keys@[j]));
            }
        }
        Some((status, points))
    }

    // ── Reads ───────────────────────────────────────────────

    /// Note the status of a point after a read.
    fn note_status(&mut self, point_id: u32, read: &Result<u64, DriverError>)
        requires
            old(self).wf(),
        ensures
            final(self).wf(),
            final(self)@ == (ManagerView {
                point_status: status_after_read(
                    old(self)@.point_status,
                    (point_id, outcome_view(*read)),
                ),
                ..old(self)@
            }),
    {
        broadcast use group_hash_axioms;

        match read {
            Ok(_) => {
                self.point_statuses.remove(&point_id);
                assert(self@.point_status =~= old(self)@.point_status.remove(point_id));
            },
            Err(e) => {
                self.set_point_status(point_id, PointStatus::from_driver_error(e));
            },
        }
    }

    /// Decide whether a value is news, and remember it if it is.
    fn note_value(&mut self, point_id: u32, value: u64) -> (news: bool)
        requires
            old(self).wf(),
        ensures
            final(self).wf(),
            news == is_news(old(self)@.last_emitted, (point_id, Ok(value))),
            final(self)@ == (ManagerView {
                last_emitted: if news {
                    old(self)@.last_emitted.insert(point_id, value)
                } else {
                    old(self)@.last_emitted
                },
                ..old(self)@
            }),
    {
        broadcast use group_hash_axioms;

        let changed: bool = match self.last_emitted.get(&point_id) {
            Some(prev) => *prev != value || is_nan(value),
            None => true,
        };
        if changed {
            self.last_emitted.insert(point_id, value);
        }
        changed
    }

    /// Note the outcomes of a round of reads, values by their bits.
    ///
    /// First every outcome leaves its mark on the status of its point: a
    /// failure sets it, a success clears it. Then every value that differs from
    /// the one last told, is the first of its point or is not a number becomes
    /// an event.
    pub fn note_reads(&mut self, reads: &[(u32, Result<u64, DriverError>)]) -> (events: Vec<
        CovEvent,
    >)
        requires
            old(self).wf(),
        ensures
            final(self).wf(),
            final(self)@ == (ManagerView {
                point_status: status_after_reads(
                    old(self)@.point_status,
                    outcomes_view(reads@),
                ),
                last_emitted: emitted_after(old(self)@.last_emitted, outcomes_view(reads@)),
                ..old(self)@
            }),
            events_view(events@) == events_of(
                old(self)@.last_emitted,
                final(self)@.point_status,
                outcomes_view(reads@),
            ),
    {
        let ghost start = self@;
        let ghost all = outcomes_view(reads@);
        let mut i: usize = 0;
        assert(all.subrange(0, 0) =~= Seq::empty());
        while i < reads.len()
            invariant
                i <= reads@.len(),
                all == outcomes_view(reads@),
                self.wf(),
                self@ == (ManagerView {
                    point_status: status_after_reads(
                        start.point_status,
                        all.subrange(0, i as int),
                    ),
                    ..start
                }),
            decreases reads@.len() - i,
        {
            self.note_status(reads[i].0, &reads[i].1);
            i += 1;
            assert(all.subrange(0, i as int).drop_last() =~= all.subrange(0, i - 1));
            assert(all.subrange(0, i as int).last() == all[i - 1]);
        }
        assert(all.subrange(0, i as int) =~= all);
        let ghost marked = self@;
        let mut events: Vec<CovEvent> = Vec::new();
        let mut j: usize = 0;
        assert(events_view(events@) =~= Seq::empty());
        while j < reads.len()
            invariant
                j <= reads@.len(),
                all == outcomes_view(reads@),
                self.wf(),
                marked.last_emitted == start.last_emitted,
                self@ == (ManagerView {
                    last_emitted: emitted_after(start.last_emitted, all.subrange(0, j as int)),
                    ..marked
                }),
                events_view(events@) == events_of(
                    start.last_emitted,
                    marked.point_status,
                    all.subrange(0, j as int),
                ),
            decreases reads@.len() - j,
        {
            let ghost before = events@;
            let p: u32 = reads[j].0;
            assert(all.subrange(0, j + 1).drop_last() =~= all.subrange(0, j as int));
            assert(all.subrange(0, j + 1).last() == all[j as int]);
            if let Ok(v) = &reads[j].1 {
                if self.note_value(p, *v) {
                    let event: CovEvent = CovEvent {
                        point_id: p,
                        value: *v,
                        status: self.point_status(p),
                    };
                    let ghost e = event@;
                    events.push(event);
                    assert(events_view(events@) =~= events_view(before).push(e));
                }
            }
            j += 1;
        }
        assert(all.subrange(0, j as int) =~= all);
        events
    }

    /// Keep the requested reads whose driver is registered.
    pub fn sync_plan(&self, requests: Vec<SyncRequest>) -> (plan: Vec<SyncRequest>)
        ensures
            plan@ == requests_for(self@.drivers, requests@),
    {
        let ghost all = requests@;
        let mut rest: Vec<SyncRequest> = requests;
        let mut plan: Vec<SyncRequest> = Vec::new();
        assert(all.skip(0) =~= all);
        let ghost mut done: int = 0;
        while rest.len() > 0
            invariant
                0 <= done <= all.len(),
                rest@ == all.skip(done),
                plan@ == requests_for(self@.drivers, all.subrange(0, done)),
            decreases rest@.len(),
        {
            let next: SyncRequest = rest.remove(0);
            proof {
                assert(all.subrange(0, done + 1).drop_last() =~= all.subrange(0, done));
                assert(all.subrange(0, done + 1).last() == next);
                assert(rest@ =~= all.skip(done + 1));
                done = done + 1;
            }
            if self.is_registered(next.driver_id.as_str()) {
                plan.push(next);
            }
        }
        assert(all.subrange(0, done) =~= all);
        plan
    }

    /// Finish a round of reads, values by their bits: note the outcomes and put
    /// the answer together. `reads` holds the outcomes of each request of the
    /// plan.
    pub fn finish_sync(
        &mut self,
        plan: &Vec<SyncRequest>,
        reads: &Vec<Vec<(u32, Result<u64, DriverError>)>>,
    ) -> (res: (Vec<(String, u32, Result<u64, DriverError>)>, Vec<CovEvent>))
        requires
            old(self).wf(),
            plan@.len() == reads@.len(),
        ensures
            final(self).wf(),
            answer_view(res.0@) == answer_of(plan_ids(plan@), reads_view(reads@)),
            final(self)@ == (ManagerView {
                point_status: status_after_reads(
                    old(self)@.point_status,
                    all_reads(reads_view(reads@)),
                ),
                last_emitted: emitted_after(
                    old(self)@.last_emitted,
                    all_reads(reads_view(reads@)),
                ),
                ..old(self)@
            }),
            events_view(res.1@) == events_of(
                old(self)@.last_emitted,
                final(self)@.point_status,
                all_reads(reads_view(reads@)),
            ),
    {
        let ghost ids = plan_ids(plan@);
        let ghost all = reads_view(reads@);
        let mut answer: Vec<(String, u32, Result<u64, DriverError>)> = Vec::new();
        let mut flat: Vec<(u32, Result<u64, DriverError>)> = Vec::new();
        let mut i: usize = 0;
        assert(all.subrange(0, 0) =~= Seq::empty());
        assert(answer_view(answer@) =~= Seq::empty());
        assert(outcomes_view(flat@) =~= Seq::empty());
        while i < reads.len()
            invariant
                i <= reads@.len(),
                plan@.len() == reads@.len(),
                ids == plan_ids(plan@),
                all == reads_view(reads@),
                answer_view(answer@) == answer_of(ids, all.subrange(0, i as int)),
                outcomes_view(flat@) == all_reads(all.subrange(0, i as int)),
            decreases reads@.len() - i,
        {
            push_reads(plan[i].driver_id.as_str(), &reads[i], &mut answer, &mut flat);
            i += 1;
            assert(all.subrange(0, i as int).drop_last() =~= all.subrange(0, i - 1));
            assert(all.subrange(0, i as int).last() == outcomes_view(reads@[i - 1]@));
            assert(ids[i - 1] == plan@[i - 1].driver_id@);
        }
        assert(all.subrange(0, i as int) =~= all);
        let events: Vec<CovEvent> = self.note_reads(flat.as_slice());
        (answer, events)
    }

    // ── Watches ─────────────────────────────────────────────

    /// Hand points out to the registered drivers that own them.
    fn hand_out(&self, points: &Vec<u32>) -> (calls: Vec<DriverCall>)
        requires
            self.wf(),
        ensures
            handed_out(self@, points@, calls_view(calls@)),
    {
        broadcast use group_hash_axioms;

        let ghost m = self@;
        let ghost mut at: Seq<int> = Seq::empty();
        let mut calls: Vec<DriverCall> = Vec::new();
        let mut i: usize = 0;
        while i < self.drivers.len()
            invariant
                i <= self.drivers@.len(),
                m == self@,
                picked(m, points@, calls_view(calls@), at, i as int),
            decreases self.drivers@.len() - i,
        {
            let ghost before = calls_view(calls@);
            assert(m.drivers[i as int] == self.drivers@[i as int]@);
            let mine: Vec<u32> = self.owned(self.drivers[i].id.as_str(), points);
            if mine.len() > 0 {
                let ghost call = (m.drivers[i as int].id, mine@);
                calls.push(DriverCall { driver_id: self.drivers[i].id.clone(), points: mine });
                proof {
                    assert(calls_view(calls@) =~= before.push(call));
                    lemma_picked_one(m, points@, before, at, i as int);
                    at = at.push(i as int);
                }
            } else {
                proof {
                    lemma_picked_none(m, points@, before, at, i as int);
                }
            }
            i += 1;
        }
        proof {
            lemma_picked_is_handed_out(m, points@, calls_view(calls@), at);
        }
        calls
    }

    /// The points of a list that a driver owns.
    fn owned(&self, driver_id: &str, points: &Vec<u32>) -> (out: Vec<u32>)
        ensures
            out@ == owned_by(self@.point_driver, driver_id@, points@),
    {
        broadcast use group_hash_axioms;

        let wanted: String = text(driver_id);
        let ghost keep = |p: u32|
            self@.point_driver.contains_key(p) && self@.point_driver[p] == driver_id@;
        let mut out: Vec<u32> = Vec::new();
        let mut i: usize = 0;
        assert(points@.subrange(0, 0) =~= Seq::empty());
        while i < points.len()
            invariant
                i <= points@.len(),
                wanted@ == driver_id@,
                keep == (|p: u32|
                    self@.point_driver.contains_key(p) && self@.point_driver[p] == driver_id@),
                out@ == points_where(points@.subrange(0, i as int), keep),
            decreases points@.len() - i,
        {
            assert(points@.subrange(0, i + 1).drop_last() =~= points@.subrange(0, i as int));
            let p: u32 = points[i];
            let mine: bool = match self.point_driver_map.get(&p) {
                Some(owner) => *owner == wanted,
                None => false,
            };
            assert(mine == keep(p));
            if mine {
                out.push(p);
            }
            i += 1;
        }
        assert(points@.subrange(0, i as int) =~= points@);
        out
    }

    /// Add a watch. The result says which drivers are to subscribe to which
    /// points: those that nobody watched before.
    pub fn add_watch(&mut self, subscriber: &str, point_ids: &[u32]) -> (calls: Vec<DriverCall>)
        requires
            old(self).wf(),
        ensures
            final(self).wf(),
            final(self)@ == (ManagerView {
                watches: with_watches(old(self)@.watches, subscriber@, point_ids@),
                ..old(self)@
            }),
            handed_out(
                old(self)@,
                newly_watched(old(self)@.watches, point_ids@),
                calls_view(calls@),
            ),
    {
        let ghost watches = self@.watches;
        let ghost keep = |p: u32| !watches.contains_key(p);
        let mut new: Vec<u32> = Vec::new();
        let mut i: usize = 0;
        assert(point_ids@.subrange(0, 0) =~= Seq::empty());
        while i < point_ids.len()
            invariant
                i <= point_ids@.len(),
                watches == self@.watches,
                self@ == old(self)@,
                self.wf(),
                keep == (|p: u32| !watches.contains_key(p)),
                new@ == points_where(point_ids@.subrange(0, i as int), keep),
            decreases point_ids@.len() - i,
        {
            assert(point_ids@.subrange(0, i + 1).drop_last() =~= point_ids@.subrange(
                0,
                i as int,
            ));
            if !self.watch_manager.is_watched(point_ids[i]) {
                assert(keep(point_ids@[i as int]));
                new.push(point_ids[i]);
            }
            i += 1;
        }
        assert(point_ids@.subrange(0, i as int) =~= point_ids@);
        let calls: Vec<DriverCall> = self.hand_out(&new);
        self.watch_manager.subscribe(subscriber, point_ids);
        calls
    }

    /// Remove a watch. The result says which drivers are to unsubscribe from
    /// which points: those that nobody else watches.
    pub fn remove_watch(&mut self, subscriber: &str, point_ids: &[u32]) -> (calls: Vec<
        DriverCall,
    >)
        requires
            old(self).wf(),
        ensures
            final(self).wf(),
            final(self)@ == (ManagerView {
                watches: without_watches(old(self)@.watches, subscriber@, point_ids@),
                ..old(self)@
            }),
            handed_out(
                old(self)@,
                no_longer_watched(old(self)@.watches, subscriber@, point_ids@),
                calls_view(calls@),
            ),
    {
        let ghost watches = self@.watches;
        let ghost keep = |p: u32| watchers(watches, p) == set![subscriber@];
        let mut gone: Vec<u32> = Vec::new();
        let mut i: usize = 0;
        assert(point_ids@.subrange(0, 0) =~= Seq::empty());
        while i < point_ids.len()
            invariant
                i <= point_ids@.len(),
                watches == self@.watches,
                self@ == old(self)@,
                self.wf(),
                keep == (|p: u32| watchers(watches, p) == set![subscriber@]),
                gone@ == points_where(point_ids@.subrange(0, i as int), keep),
            decreases point_ids@.len() - i,
        {
            assert(point_ids@.subrange(0, i + 1).drop_last() =~= point_ids@.subrange(
                0,
                i as int,
            ));
            let only: bool = self.watch_manager.only_watcher(subscriber, point_ids[i]);
            assert(only == keep(point_ids@[i as int]));
            if only {
                gone.push(point_ids[i]);
            }
            i += 1;
        }
        assert(point_ids@.subrange(0, i as int) =~= point_ids@);
        let calls: Vec<DriverCall> = self.hand_out(&gone);
        self.watch_manager.unsubscribe(subscriber, point_ids);
        calls
    }

    /// Add a polling bucket for a driver.
    pub fn add_poll_bucket(
        &mut self,
        driver_id: &str,
        interval: u128,
        points: Vec<DriverPointRef>,
    )
        requires
            old(self).wf(),
        ensures
            final(self).wf(),
            final(self)@ == (ManagerView {
                buckets: old(self)@.buckets.push(
                    BucketView { driver_id: driver_id@, interval, points: points@ },
                ),
                ..old(self)@
            }),
    {
        self.poll_scheduler.add_bucket(driver_id, interval, points);
    }
}

// ── Commands ────────────────────────────────────────────────

/// A command to the driver manager.
#[derive(Debug)]
pub enum ManagerCmd {
    /// Register a new driver.
    Register(DriverRecord),
    /// Remove a driver; it is closed first.
    Remove(String),
    /// Open all drivers.
    OpenAll,
    /// Close all drivers.
    CloseAll,
    /// Open one driver.
    OpenDriver(String),
    /// Close one driver without removing it.
    CloseDriver(String),
    /// Ping one driver.
    PingDriver(String),
    /// Read current values.
    SyncAll(Vec<SyncRequest>),
    /// Discover the points of a driver.
    Learn(String),
    /// Write to the points of a driver.
    Write(String),
    /// Summarise all drivers.
    Status,
    /// The status of a driver and of its points.
    DriverStatus(String),
    /// List the driver IDs.
    ListIds,
    /// The status of a driver.
    GetDriverStatus(String),
    /// Register a point as belonging to a driver.
    RegisterPoint(u32, String),
    /// Set a point-specific status.
    SetPointStatus(u32, PointStatus),
    /// The effective status of a point.
    EffectivePointStatus(u32),
    /// Add a watch.
    AddWatch(String, Vec<u32>),
    /// Remove a watch.
    RemoveWatch(String, Vec<u32>),
    /// Add a poll bucket.
    AddPollBucket(String, u128, Vec<DriverPointRef>),
}

/// What follows from a command.
#[derive(Debug)]
pub enum Reaction {
    /// The outcome of a registration.
    Registered(Result<(), DriverError>),
    /// Whether there was a driver to remove. It is to be closed.
    Removed(bool),
    /// These drivers are to be called one after the other.
    CallEach(Vec<String>),
    /// The driver is to be called, or the command is answered with the error.
    Call(Result<(), DriverError>),
    /// These points are to be read.
    Read(Vec<SyncRequest>),
    /// The summaries of all drivers.
    Summaries(Vec<DriverSummary>),
    /// The status of a driver and of its points.
    Detail(Option<(DriverStatus, Vec<(u32, DriverStatus)>)>),
    /// The driver IDs.
    Ids(Vec<String>),
    /// The status of a driver or of a point.
    Status(Option<DriverStatus>),
    /// These drivers are to be told of points that are now watched.
    Watch(Vec<DriverCall>),
    /// These drivers are to be told of points that are no longer watched.
    Unwatch(Vec<DriverCall>),
    /// Nothing: the command has been carried out.
    Done,
}

/// The state after a command.
pub open spec fn after_command(m: ManagerView, cmd: ManagerCmd) -> ManagerView {
    match cmd {
        ManagerCmd::Register(d) => if registered(m.drivers, d@.id) {
            m
        } else {
            ManagerView { drivers: m.drivers.push(d@), ..m }
        },
        ManagerCmd::Remove(id) => if registered(m.drivers, id@) {
            ManagerView {
                drivers: drivers_without(m.drivers, id@),
                buckets: buckets_without(m.buckets, id@),
                point_driver: points_without(m.point_driver, id@),
                ..m
            }
        } else {
            m
        },
        ManagerCmd::RegisterPoint(point_id, id) => ManagerView {
            point_driver: m.point_driver.insert(point_id, id@),
            ..m
        },
        ManagerCmd::SetPointStatus(point_id, status) => ManagerView {
            point_status: m.point_status.insert(point_id, status@),
            ..m
        },
        ManagerCmd::AddWatch(name, points) => ManagerView {
            watches: with_watches(m.watches, name@, points@),
            ..m
        },
        ManagerCmd::RemoveWatch(name, points) => ManagerView {
            watches: without_watches(m.watches, name@, points@),
            ..m
        },
        ManagerCmd::AddPollBucket(id, interval, points) => ManagerView {
            buckets: m.buckets.push(BucketView { driver_id: id@, interval, points: points@ }),
            ..m
        },
        _ => m,
    }
}

/// Whether a result is that a driver may be called if it is registered.
pub open spec fn call_outcome(
    m: ManagerView,
    id: Seq<char>,
    res: Result<(), DriverError>,
) -> bool {
    outcome_view(res) == if registered(m.drivers, id) {
        Ok(())
    } else {
        Err(unknown_driver(id))
    }
}

/// Whether a list holds the driver IDs.
pub open spec fn lists_ids(m: ManagerView, ids: Seq<String>) -> bool {
    ids.map_values(|s: String| s@) == m.drivers.map_values(|d: DriverRecordView| d.id)
}

/// Whether a status is that of a driver; there is none if it is not registered.
pub open spec fn driver_shows(
    m: ManagerView,
    id: Seq<char>,
    status: Option<DriverStatus>,
) -> bool {
    match status {
        Some(s) => exists|i: int|
            0 <= i < m.drivers.len() && (#[trigger] m.drivers[i]).id == id && m.drivers[i].status
                == s@,
        None => !registered(m.drivers, id),
    }
}

/// Whether a status is the effective one of a point; there is none if it has
/// no driver, or its driver is not registered.
pub open spec fn point_shows(
    m: ManagerView,
    point_id: u32,
    status: Option<DriverStatus>,
) -> bool {
    match status {
        Some(s) => m.point_driver.contains_key(point_id) && exists|i: int|
            0 <= i < m.drivers.len() && (#[trigger] m.drivers[i]).id == m.point_driver[point_id]
                && s@ == resolved(own_status(m, point_id), m.drivers[i].status),
        None => !m.point_driver.contains_key(point_id) || !registered(
            m.drivers,
            m.point_driver[point_id],
        ),
    }
}

/// Whether a detailed status is that of a driver: its own, and that of each of
/// its points once.
pub open spec fn driver_shows_points(
    m: ManagerView,
    id: Seq<char>,
    detail: Option<(DriverStatus, Vec<(u32, DriverStatus)>)>,
) -> bool {
    match detail {
        None => !registered(m.drivers, id),
        Some((status, points)) => {
            &&& driver_shows(m, id, Some(status))
            &&& forall|k: int|
                0 <= k < points@.len() ==> owns(m, id, (#[trigger] points@[k]).0)
                    && points@[k].1@ == resolved(own_status(m, points@[k].0), status@)
            &&& forall|p: u32|
                #[trigger] owns(m, id, p) ==> exists|k: int|
                    0 <= k < points@.len() && (#[trigger] points@[k]).0 == p
            &&& forall|a: int, b: int|
                0 <= a < b < points@.len() ==> (#[trigger] points@[a]).0 != (
                #[trigger] points@[b]).0
        },
    }
}

/// Whether summaries are those of all drivers, in the order of registration.
pub open spec fn summarises_all(m: ManagerView, out: Seq<DriverSummary>) -> bool {
    &&& out.len() == m.drivers.len()
    &&& forall|i: int|
        0 <= i < out.len() ==> summarises(#[trigger] out[i], m.drivers[i], m.buckets)
}

/// Whether a reaction is the one that a command calls for.
pub open spec fn reacts(m: ManagerView, cmd: ManagerCmd, r: Reaction) -> bool {
    match cmd {
        ManagerCmd::Register(d) => r matches Reaction::Registered(res) && outcome_view(res)
            == if registered(m.drivers, d@.id) {
            Err(already_registered(d@.id))
        } else {
            Ok(())
        },
        ManagerCmd::Remove(id) => r matches Reaction::Removed(found) && found == registered(
            m.drivers,
            id@,
        ),
        ManagerCmd::OpenAll | ManagerCmd::CloseAll => r matches Reaction::CallEach(ids)
            && lists_ids(m, ids@),
        ManagerCmd::OpenDriver(id)
        | ManagerCmd::CloseDriver(id)
        | ManagerCmd::PingDriver(id)
        | ManagerCmd::Learn(id)
        | ManagerCmd::Write(id) => r matches Reaction::Call(res) && call_outcome(m, id@, res),
        ManagerCmd::SyncAll(requests) => r matches Reaction::Read(plan) && plan@ == requests_for(
            m.drivers,
            requests@,
        ),
        ManagerCmd::Status => r matches Reaction::Summaries(out) && summarises_all(m, out@),
        ManagerCmd::DriverStatus(id) => r matches Reaction::Detail(detail)
            && driver_shows_points(m, id@, detail),
        ManagerCmd::ListIds => r matches Reaction::Ids(ids) && lists_ids(m, ids@),
        ManagerCmd::GetDriverStatus(id) => r matches Reaction::Status(status) && driver_shows(
            m,
            id@,
            status,
        ),
        ManagerCmd::EffectivePointStatus(point_id) => r matches Reaction::Status(status)
            && point_shows(m, point_id, status),
        ManagerCmd::AddWatch(_, points) => r matches Reaction::Watch(calls) && handed_out(
            m,
            newly_watched(m.watches, points@),
            calls_view(calls@),
        ),
        ManagerCmd::RemoveWatch(name, points) => r matches Reaction::Unwatch(calls) && handed_out(
            m,
            no_longer_watched(m.watches, name@, points@),
            calls_view(calls@),
        ),
        ManagerCmd::RegisterPoint(..)
        | ManagerCmd::SetPointStatus(..)
        | ManagerCmd::AddPollBucket(..) => r is Done,
    }
}

impl DriverManager {
    /// Carry out a command, as far as no driver has to be called.
    pub fn handle(&mut self, cmd: ManagerCmd) -> (reaction: Reaction)
        requires
            old(self).wf(),
            cmd is Status ==> forall|id: Seq<char>| #[trigger]
                bucket_points(old(self)@.buckets, id) <= usize::MAX,
        ensures
            final(self).wf(),
            final(self)@ == after_command(old(self)@, cmd),
            reacts(old(self)@, cmd, reaction),
    {
        match cmd {
            ManagerCmd::Register(driver) => Reaction::Registered(self.register(driver)),
            ManagerCmd::Remove(id) => Reaction::Removed(self.remove(id.as_str())),
            ManagerCmd::OpenAll => Reaction::CallEach(self.driver_ids()),
            ManagerCmd::CloseAll => Reaction::CallEach(self.driver_ids()),
            ManagerCmd::OpenDriver(id) => Reaction::Call(self.require_driver(id.as_str())),
            ManagerCmd::CloseDriver(id) => Reaction::Call(self.require_driver(id.as_str())),
            ManagerCmd::PingDriver(id) => Reaction::Call(self.require_driver(id.as_str())),
            ManagerCmd::SyncAll(requests) => Reaction::Read(self.sync_plan(requests)),
            ManagerCmd::Learn(id) => Reaction::Call(self.require_driver(id.as_str())),
            ManagerCmd::Write(id) => Reaction::Call(self.require_driver(id.as_str())),
            ManagerCmd::Status => Reaction::Summaries(self.driver_summaries()),
            ManagerCmd::DriverStatus(id) => {
                Reaction::Detail(self.driver_with_points_status(id.as_str()))
            },
            ManagerCmd::ListIds => Reaction::Ids(self.driver_ids()),
            ManagerCmd::GetDriverStatus(id) => Reaction::Status(
                self.get_driver_status(id.as_str()),
            ),
            ManagerCmd::RegisterPoint(point_id, id) => {
                self.register_point(point_id, id.as_str());
                Reaction::Done
            },
            ManagerCmd::SetPointStatus(point_id, status) => {
                self.set_point_status(point_id, status);
                Reaction::Done
            },
            ManagerCmd::EffectivePointStatus(point_id) => Reaction::Status(
                self.effective_point_status(point_id),
            ),
            ManagerCmd::AddWatch(name, points) => Reaction::Watch(
                self.add_watch(name.as_str(), points.as_slice()),
            ),
            ManagerCmd::RemoveWatch(name, points) => Reaction::Unwatch(
                self.remove_watch(name.as_str(), points.as_slice()),
            ),
            ManagerCmd::AddPollBucket(id, interval, points) => {
                self.add_poll_bucket(id.as_str(), interval, points);
                Reaction::Done
            },
        }
    }
}

/// Whether a driver owns a point.
pub open spec fn owns(m: ManagerView, driver_id: Seq<char>, point_id: u32) -> bool {
    m.point_driver.contains_key(point_id) && m.point_driver[point_id] == driver_id
}

/// Whether a summary is that of a driver.
pub open spec fn summarises(
    s: DriverSummary,
    d: DriverRecordView,
    buckets: Seq<BucketView>,
) -> bool {
    &&& s.id@ == d.id
    &&& s.driver_type@ == d.driver_type
    &&& s.status@ == d.status
    &&& s.poll_mode@ == match d.poll_mode {
        PollMode::Buckets => "Buckets"@,
        PollMode::Manual => "Manual"@,
    }
    &&& s.poll_buckets == bucket_positions(buckets, d.id).len()
    &&& s.poll_points == bucket_points(buckets, d.id)
}

/// Whether `calls` hands the points to those of the first `n` drivers that own
/// any, in order; call `k` is for the driver at `at[k]`.
spec fn picked(
    m: ManagerView,
    points: Seq<u32>,
    calls: Seq<(Seq<char>, Seq<u32>)>,
    at: Seq<int>,
    n: int,
) -> bool {
    &&& at.len() == calls.len()
    &&& forall|k: int|
        0 <= k < at.len() ==> 0 <= #[trigger] at[k] < n && calls[k] == (
            m.drivers[at[k]].id,
            owned_by(m.point_driver, m.drivers[at[k]].id, points),
        ) && calls[k].1.len() > 0
    &&& forall|j: int, k: int|
        0 <= j < k < at.len() ==> (#[trigger] at[j]) < (#[trigger] at[k])
    &&& forall|d: int|
        0 <= d < n && owned_by(m.point_driver, (#[trigger] m.drivers[d]).id, points).len() > 0
            ==> at.contains(d)
}

/// One more driver that owns some of the points.
proof fn lemma_picked_one(
    m: ManagerView,
    points: Seq<u32>,
    calls: Seq<(Seq<char>, Seq<u32>)>,
    at: Seq<int>,
    n: int,
)
    requires
        picked(m, points, calls, at, n),
        0 <= n < m.drivers.len(),
        owned_by(m.point_driver, m.drivers[n].id, points).len() > 0,
    ensures
        picked(
            m,
            points,
            calls.push(
                (m.drivers[n].id, owned_by(m.point_driver, m.drivers[n].id, points)),
            ),
            at.push(n),
            n + 1,
        ),
{
    let more = at.push(n);
    assert forall|d: int|
        0 <= d < n + 1 && owned_by(
            m.point_driver,
            (#[trigger] m.drivers[d]).id,
            points,
        ).len() > 0 implies more.contains(d) by {
        if d < n {
            let k = choose|k: int| 0 <= k < at.len() && at[k] == d;
            assert(at.contains(d));
            assert(more[k] == d);
        } else {
            assert(more[at.len() as int] == d);
        }
    }
}

/// One more driver that owns none of the points.
proof fn lemma_picked_none(
    m: ManagerView,
    points: Seq<u32>,
    calls: Seq<(Seq<char>, Seq<u32>)>,
    at: Seq<int>,
    n: int,
)
    requires
        picked(m, points, calls, at, n),
        owned_by(m.point_driver, m.drivers[n].id, points).len() == 0,
    ensures
        picked(m, points, calls, at, n + 1),
{
}

/// When every driver has been looked at, the points have been handed out.
proof fn lemma_picked_is_handed_out(
    m: ManagerView,
    points: Seq<u32>,
    calls: Seq<(Seq<char>, Seq<u32>)>,
    at: Seq<int>,
)
    requires
        unique_ids(m.drivers),
        picked(m, points, calls, at, m.drivers.len() as int),
    ensures
        handed_out(m, points, calls),
{
    assert forall|k: int| 0 <= k < calls.len() implies registered(
        m.drivers,
        (#[trigger] calls[k]).0,
    ) && calls[k].1 == owned_by(m.point_driver, calls[k].0, points) && calls[k].1.len() > 0 by {
        assert(m.drivers[at[k]].id == calls[k].0);
    }
    assert forall|id: Seq<char>|
        registered(m.drivers, id) && (#[trigger] owned_by(m.point_driver, id, points)).len()
            > 0 implies exists|k: int| 0 <= k < calls.len() && (#[trigger] calls[k]).0 == id by {
        let d = choose|d: int| 0 <= d < m.drivers.len() && (#[trigger] m.drivers[d]).id == id;
        assert(at.contains(d));
        let k = choose|k: int| 0 <= k < at.len() && at[k] == d;
        assert(calls[k].0 == id);
    }
    assert forall|j: int, k: int|
        0 <= j < calls.len() && 0 <= k < calls.len() && (#[trigger] calls[j]).0 == (
        #[trigger] calls[k]).0 implies j == k by {
        assert(m.drivers[at[j]].id == m.drivers[at[k]].id);
        assert(at[j] == at[k]);
        if j < k {
            assert(at[j] < at[k]);
        } else if k < j {
            assert(at[k] < at[j]);
        }
    }
}

/// Leaving one driver out of a list without duplicate IDs removes just it.
proof fn lemma_drivers_without(drivers: Seq<DriverRecordView>, i: int)
    requires
        unique_ids(drivers),
        0 <= i < drivers.len(),
    ensures
        drivers_without(drivers, drivers[i].id) == drivers.remove(i),
        unique_ids(drivers.remove(i)),
{
    let id = drivers[i].id;
    let keep = |d: DriverRecordView| d.id != id;
    let a = drivers.subrange(0, i);
    let b = drivers.subrange(i + 1, drivers.len() as int);
    assert(drivers =~= a + seq![drivers[i]] + b);
    assert forall|k: int| 0 <= k < a.len() implies keep(#[trigger] a[k]) by {
        assert(a[k] == drivers[k]);
        assert(drivers[k].id != drivers[i].id);
    }
    assert forall|k: int| 0 <= k < b.len() implies keep(#[trigger] b[k]) by {
        assert(b[k] == drivers[i + 1 + k]);
        assert(drivers[i + 1 + k].id != drivers[i].id);
    }
    lemma_filter_all(a, keep);
    lemma_filter_all(b, keep);
    vstd::seq::Seq::filter_distributes_over_add(a + seq![drivers[i]], b, keep);
    vstd::seq::Seq::filter_distributes_over_add(a, seq![drivers[i]], keep);
    assert(seq![drivers[i]].filter(keep) =~= Seq::empty()) by {
        reveal(Seq::filter);
        assert(seq![drivers[i]].drop_last() =~= Seq::empty());
        assert(Seq::<DriverRecordView>::empty().filter(keep) =~= Seq::empty());
    }
    assert(drivers.filter(keep) =~= a + b);
    assert(drivers.remove(i) =~= a + b);
    let rest = drivers.remove(i);
    assert forall|x: int, y: int|
        0 <= x < rest.len() && 0 <= y < rest.len() && (#[trigger] rest[x]).id == (
        #[trigger] rest[y]).id implies x == y by {
        let px = if x < i { x } else { x + 1 };
        let py = if y < i { y } else { y + 1 };
        assert(rest[x] == drivers[px] && rest[y] == drivers[py]);
    }
}

/// A filter that keeps everything keeps the list.
proof fn lemma_filter_all(s: Seq<DriverRecordView>, keep: spec_fn(DriverRecordView) -> bool)
    requires
        forall|k: int| 0 <= k < s.len() ==> keep(#[trigger] s[k]),
    ensures
        s.filter(keep) == s,
    decreases s.len(),
{
    reveal(Seq::filter);
    if s.len() > 0 {
        lemma_filter_all(s.drop_last(), keep);
        assert(s.drop_last().push(s.last()) =~= s);
        assert(keep(s[s.len() - 1]));
    } else {
        assert(s.filter(keep) =~= s);
    }
}

// ── Laws ────────────────────────────────────────────────────

/// A value that is read again unchanged is told again only if it is not a
/// number; another value always is.
pub proof fn only_changes_are_told(last: Map<u32, u64>, point_id: u32, first: u64, second: u64)
    ensures
        ({
            let told = emitted_after(last, seq![(point_id, Ok(first))]);
            &&& told.contains_key(point_id)
            &&& told[point_id] == first
            &&& is_news(told, (point_id, Ok(second))) <==> second != first || is_nan_bits(second)
        }),
{
    let reads: Seq<(u32, Result<u64, (FaultKind, Seq<char>)>)> = seq![(point_id, Ok(first))];
    assert(reads.drop_last() =~= Seq::empty());
    assert(emitted_after(last, reads.drop_last()) == last);
}

/// A failed read is never told, whatever was told before.
pub proof fn failures_are_not_told(last: Map<u32, u64>, point_id: u32, e: (FaultKind, Seq<char>))
    ensures
        !is_news(last, (point_id, Err(e))),
{
}

/// A point that was read successfully shows the status of its driver again,
/// whatever an earlier failure said of it.
pub proof fn success_clears_failure(
    statuses: Map<u32, PointStatusView>,
    point_id: u32,
    e: (FaultKind, Seq<char>),
    value: u64,
    driver: StatusView,
)
    ensures
        ({
            let failed = status_after_read(statuses, (point_id, Err(e)));
            let healed = status_after_read(failed, (point_id, Ok(value)));
            &&& shown(failed, point_id, driver) == resolved(status_for_fault(e), driver)
            &&& shown(healed, point_id, driver) == driver
        }),
{
}

/// Whether every point has the same value in all of its successful reads, and
/// that value is a number.
pub open spec fn steady(reads: Seq<(u32, Result<u64, (FaultKind, Seq<char>)>)>) -> bool {
    &&& forall|i: int, j: int|
        0 <= i < reads.len() && 0 <= j < reads.len() && (#[trigger] reads[i]).0 == (
        #[trigger] reads[j]).0 && reads[i].1 is Ok && reads[j].1 is Ok ==> reads[i].1 == reads[j].1
    &&& forall|i: int|
        0 <= i < reads.len() && (#[trigger] reads[i]).1 is Ok ==> !is_nan_bits(reads[i].1->Ok_0)
}

/// Whether what was told of points is what they were read to have, and a
/// number.
spec fn up_to_date(
    last: Map<u32, u64>,
    reads: Seq<(u32, Result<u64, (FaultKind, Seq<char>)>)>,
) -> bool {
    forall|i: int|
        0 <= i < reads.len() && (#[trigger] reads[i]).1 is Ok ==> last.contains_key(reads[i].0)
            && last[reads[i].0] == reads[i].1->Ok_0 && !is_nan_bits(reads[i].1->Ok_0)
}

/// A round of steady reads leaves everything told.
proof fn lemma_round_is_told(
    last: Map<u32, u64>,
    reads: Seq<(u32, Result<u64, (FaultKind, Seq<char>)>)>,
)
    requires
        steady(reads),
    ensures
        up_to_date(emitted_after(last, reads), reads),
    decreases reads.len(),
{
    if reads.len() > 0 {
        let init = reads.drop_last();
        assert(steady(init)) by {
            assert forall|i: int, j: int|
                0 <= i < init.len() && 0 <= j < init.len() && (#[trigger] init[i]).0 == (
                #[trigger] init[j]).0 && init[i].1 is Ok && init[j].1 is Ok implies init[i].1
                == init[j].1 by {
                assert(init[i] == reads[i] && init[j] == reads[j]);
            }
            assert forall|i: int|
                0 <= i < init.len() && (#[trigger] init[i]).1 is Ok implies !is_nan_bits(
                init[i].1->Ok_0,
            ) by {
                assert(init[i] == reads[i]);
            }
        }
        lemma_round_is_told(last, init);
        let after = emitted_after(last, reads);
        let end = reads.len() - 1;
        assert forall|i: int| 0 <= i < reads.len() && (#[trigger] reads[i]).1 is Ok implies
            after.contains_key(reads[i].0) && after[reads[i].0] == reads[i].1->Ok_0
                && !is_nan_bits(reads[i].1->Ok_0) by {
            if i < end {
                assert(init[i] == reads[i]);
                if reads[end].0 == reads[i].0 && reads[end].1 is Ok {
                    assert(reads[i].1 == reads[end].1);
                }
            }
        }
    }
}

/// Reads that tell nothing new change nothing.
proof fn lemma_nothing_new(
    last: Map<u32, u64>,
    statuses: Map<u32, PointStatusView>,
    reads: Seq<(u32, Result<u64, (FaultKind, Seq<char>)>)>,
)
    requires
        up_to_date(last, reads),
    ensures
        emitted_after(last, reads) == last,
        events_of(last, statuses, reads).len() == 0,
    decreases reads.len(),
{
    if reads.len() > 0 {
        let init = reads.drop_last();
        assert forall|i: int| 0 <= i < init.len() && (#[trigger] init[i]).1 is Ok implies
            last.contains_key(init[i].0) && last[init[i].0] == init[i].1->Ok_0 && !is_nan_bits(
            init[i].1->Ok_0,
        ) by {
            assert(init[i] == reads[i]);
        }
        lemma_nothing_new(last, statuses, init);
        assert(reads[reads.len() - 1] == reads.last());
        assert(!is_news(last, reads.last()));
    }
}

/// A round that brings every point its old value makes no event: after a round
/// of reads, the same reads again are not told. Reads of what is not a number
/// are left out, since they are told every time.
pub proof fn repeated_round_is_not_told(
    last: Map<u32, u64>,
    statuses: Map<u32, PointStatusView>,
    reads: Seq<(u32, Result<u64, (FaultKind, Seq<char>)>)>,
)
    requires
        steady(reads),
    ensures
        events_of(emitted_after(last, reads), statuses, reads).len() == 0,
        emitted_after(emitted_after(last, reads), reads) == emitted_after(last, reads),
{
    lemma_round_is_told(last, reads);
    lemma_nothing_new(emitted_after(last, reads), statuses, reads);
}

/// Points that somebody watches already are not subscribed to again: whoever
/// watches them next calls no driver.
pub proof fn watched_points_are_not_subscribed_again(
    watches: Map<u32, Set<Seq<char>>>,
    name: Seq<char>,
    points: Seq<u32>,
)
    ensures
        newly_watched(with_watches(watches, name, points), points).len() == 0,
{
    let after = with_watches(watches, name, points);
    let keep = |p: u32| !after.contains_key(p);
    assert forall|p: u32| points.contains(p) implies !keep(p) by {
        subscribed_points_are_watched(watches, name, points, p);
    }
    lemma_points_where_none(points, keep);
}

/// Points that somebody else watches too are not unsubscribed from.
pub proof fn points_watched_by_others_stay_subscribed(
    watches: Map<u32, Set<Seq<char>>>,
    name: Seq<char>,
    other: Seq<char>,
    points: Seq<u32>,
)
    requires
        other != name,
        forall|p: u32| points.contains(p) ==> #[trigger] watchers(watches, p).contains(other),
    ensures
        no_longer_watched(watches, name, points).len() == 0,
{
    let keep = |p: u32| watchers(watches, p) == set![name];
    assert forall|p: u32| points.contains(p) implies !keep(p) by {
        assert(watchers(watches, p).contains(other));
        assert(!set![name].contains(other));
    }
    lemma_points_where_none(points, keep);
}

/// A condition that holds of no point of a list leaves none.
proof fn lemma_points_where_none(points: Seq<u32>, keep: spec_fn(u32) -> bool)
    requires
        forall|p: u32| points.contains(p) ==> !keep(p),
    ensures
        points_where(points, keep).len() == 0,
    decreases points.len(),
{
    if points.len() > 0 {
        let rest = points.drop_last();
        assert(points[points.len() - 1] == points.last());
        assert(points.contains(points.last()));
        assert forall|p: u32| rest.contains(p) implies !keep(p) by {
            let k = choose|k: int| 0 <= k < rest.len() && rest[k] == p;
            assert(points[k] == p);
            assert(points.contains(p));
        }
        lemma_points_where_none(rest, keep);
    }
}

/// A driver that was removed is not registered, owns no points and has no
/// status to inherit.
pub proof fn removed_driver_is_gone(m: ManagerView, id: Seq<char>, point_id: u32)
    ensures
        !registered(drivers_without(m.drivers, id), id),
        !owns(
            ManagerView { point_driver: points_without(m.point_driver, id), ..m },
            id,
            point_id,
        ),
{
    let left = drivers_without(m.drivers, id);
    let keep = |d: DriverRecordView| d.id != id;
    assert forall|i: int| 0 <= i < left.len() implies (#[trigger] left[i]).id != id by {
        lemma_filter_holds(m.drivers, keep, i);
    }
}

/// What a filter keeps satisfies its condition.
proof fn lemma_filter_holds(
    s: Seq<DriverRecordView>,
    keep: spec_fn(DriverRecordView) -> bool,
    i: int,
)
    requires
        0 <= i < s.filter(keep).len(),
    ensures
        keep(s.filter(keep)[i]),
    decreases s.len(),
{
    reveal(Seq::filter);
    if s.len() > 0 {
        let init = s.drop_last().filter(keep);
        if i < init.len() {
            lemma_filter_holds(s.drop_last(), keep, i);
        }
    }
}

} // verus!
