//! What holds of the driver manager over whole rounds of reads and over any
//! sequence of commands.

use vstd::prelude::*;

use crate::driver::{
    outcome_view, status_for_fault, DriverError, DriverPointRef, DriverStatus, DriverSummary,
    FaultKind, PointStatus, PointStatusView, PollMode, StatusView, SyncRequest,
};
use crate::manager::{
    after_command, all_reads, already_registered, answer_of, answer_view, call_outcome, calls_view,
    driver_shows, driver_shows_points, drivers_observed, drivers_without, emitted_after, events_of,
    events_view, handed_out, is_nan_bits, is_news, lists_ids, newly_watched, no_longer_watched,
    own_status, owned_by, owns, plan_ids, point_shows, points_where, reacts, reads_under,
    registered, requests_for, status_after_reads, summarises, summarises_all, unique_ids, CovEvent,
    CovEventView, DriverCall, DriverRecord, DriverRecordView, ManagerCmd, ManagerView, Reaction,
};
use crate::poll_scheduler::{bucket_points, bucket_positions, BucketView};
use crate::watch_manager::watchers;

verus! {

// ── Rounds of reads ─────────────────────────────────────────

/// The events about one point.
pub open spec fn events_about(events: Seq<CovEventView>, point_id: u32) -> Seq<CovEventView>
    decreases events.len(),
{
    if events.len() == 0 {
        Seq::empty()
    } else {
        let earlier = events_about(events.drop_last(), point_id);
        if events.last().point_id == point_id {
            earlier.push(events.last())
        } else {
            earlier
        }
    }
}

/// Reads of other points leave what was told of a point, and make no event
/// about it.
pub proof fn unread_point_is_not_told(
    last: Map<u32, u64>,
    statuses: Map<u32, PointStatusView>,
    reads: Seq<(u32, Result<u64, (FaultKind, Seq<char>)>)>,
    point_id: u32,
)
    requires
        forall|k: int| 0 <= k < reads.len() ==> (#[trigger] reads[k]).0 != point_id,
    ensures
        events_about(events_of(last, statuses, reads), point_id).len() == 0,
        emitted_after(last, reads).contains_key(point_id) == last.contains_key(point_id),
        last.contains_key(point_id) ==> emitted_after(last, reads)[point_id] == last[point_id],
    decreases reads.len(),
{
    if reads.len() > 0 {
        let init = reads.drop_last();
        assert forall|k: int| 0 <= k < init.len() implies (#[trigger] init[k]).0 != point_id by {
            assert(init[k] == reads[k]);
        }
        unread_point_is_not_told(last, statuses, init, point_id);
        assert(reads[reads.len() - 1] == reads.last());
        lemma_events_grow(last, statuses, reads);
    }
}

/// What the last read adds to the events.
proof fn lemma_events_grow(
    last: Map<u32, u64>,
    statuses: Map<u32, PointStatusView>,
    reads: Seq<(u32, Result<u64, (FaultKind, Seq<char>)>)>,
)
    requires
        reads.len() > 0,
    ensures
        ({
            let events = events_of(last, statuses, reads);
            let earlier = events_of(last, statuses, reads.drop_last());
            if is_news(emitted_after(last, reads.drop_last()), reads.last()) {
                events.drop_last() == earlier && events.len() > 0 && events.last().point_id
                    == reads.last().0
            } else {
                events == earlier
            }
        }),
{
    let events = events_of(last, statuses, reads);
    let earlier = events_of(last, statuses, reads.drop_last());
    if is_news(emitted_after(last, reads.drop_last()), reads.last()) {
        assert(events.drop_last() =~= earlier);
    }
}

/// A point that is read once in a round has exactly one event if its value is
/// news, with that value and the status after the round, and none otherwise.
pub proof fn single_read_is_told_once(
    last: Map<u32, u64>,
    statuses: Map<u32, PointStatusView>,
    reads: Seq<(u32, Result<u64, (FaultKind, Seq<char>)>)>,
    i: int,
)
    requires
        0 <= i < reads.len(),
        forall|k: int|
            0 <= k < reads.len() && (#[trigger] reads[k]).0 == reads[i].0 ==> k == i,
    ensures
        ({
            let (p, r) = reads[i];
            let told = events_about(events_of(last, statuses, reads), p);
            if is_news(last, reads[i]) {
                told == seq![
                    CovEventView {
                        point_id: p,
                        value: r->Ok_0,
                        status: if statuses.contains_key(p) {
                            statuses[p]
                        } else {
                            PointStatusView::Inherited
                        },
                    },
                ]
            } else {
                told == Seq::<CovEventView>::empty()
            }
        }),
    decreases reads.len(),
{
    let p = reads[i].0;
    let init = reads.drop_last();
    let end = reads.len() - 1;
    assert(reads[end] == reads.last());
    lemma_events_grow(last, statuses, reads);
    if i == end {
        assert forall|k: int| 0 <= k < init.len() implies (#[trigger] init[k]).0 != p by {
            assert(init[k] == reads[k]);
        }
        unread_point_is_not_told(last, statuses, init, p);
        let told = events_about(events_of(last, statuses, reads), p);
        if is_news(last, reads[i]) {
            assert(told.len() == 1);
            assert(told =~= seq![told[0]]);
        } else {
            assert(told =~= Seq::<CovEventView>::empty());
        }
    } else {
        assert(init[i] == reads[i]);
        assert forall|k: int|
            0 <= k < init.len() && (#[trigger] init[k]).0 == init[i].0 implies k == i by {
            assert(init[k] == reads[k]);
        }
        assert(reads[end].0 != p);
        single_read_is_told_once(last, statuses, init, i);
    }
}

/// How many reads the first `i` drivers brought.
pub open spec fn reads_before(
    reads: Seq<Seq<(u32, Result<u64, (FaultKind, Seq<char>)>)>>,
    i: int,
) -> int
    decreases i,
{
    if i <= 0 {
        0
    } else {
        reads_before(reads, i - 1) + reads[i - 1].len()
    }
}

/// Whether entry `k` of an answer is read `j` of driver `i`, in its place.
pub open spec fn answered_at(
    ids: Seq<Seq<char>>,
    reads: Seq<Seq<(u32, Result<u64, (FaultKind, Seq<char>)>)>>,
    k: int,
    i: int,
    j: int,
) -> bool {
    &&& 0 <= i < reads.len()
    &&& 0 <= j < reads[i].len()
    &&& k == reads_before(reads, i) + j
    &&& 0 <= k < answer_of(ids, reads).len()
    &&& answer_of(ids, reads)[k] == (ids[i], reads[i][j].0, reads[i][j].1)
}

/// The answer holds every read in its place, under the ID of its driver.
pub proof fn every_read_is_answered(
    ids: Seq<Seq<char>>,
    reads: Seq<Seq<(u32, Result<u64, (FaultKind, Seq<char>)>)>>,
    i: int,
    j: int,
)
    requires
        ids.len() == reads.len(),
        0 <= i < reads.len(),
        0 <= j < reads[i].len(),
    ensures
        answered_at(ids, reads, reads_before(reads, i) + j, i, j),
    decreases reads.len(),
{
    let init = reads.drop_last();
    let n = init.len() as int;
    lemma_answer_grows(ids, reads);
    lemma_reads_before(init, reads, i);
    if i < n {
        assert(init[i] == reads[i]);
        every_read_is_answered(ids.drop_last(), init, i, j);
    }
}

/// The answer holds nothing but reads, each in its place under the ID of its
/// driver.
pub proof fn every_answer_was_read(
    ids: Seq<Seq<char>>,
    reads: Seq<Seq<(u32, Result<u64, (FaultKind, Seq<char>)>)>>,
    k: int,
) -> (place: (int, int))
    requires
        ids.len() == reads.len(),
        0 <= k < answer_of(ids, reads).len(),
    ensures
        answered_at(ids, reads, k, place.0, place.1),
    decreases reads.len(),
{
    let init = reads.drop_last();
    let n = init.len() as int;
    lemma_answer_grows(ids, reads);
    let earlier = answer_of(ids.drop_last(), init);
    if k < earlier.len() {
        let place = every_answer_was_read(ids.drop_last(), init, k);
        lemma_reads_before(init, reads, place.0);
        assert(init[place.0] == reads[place.0]);
        place
    } else {
        (n, k - earlier.len())
    }
}

/// What the reads of the last driver add to the answer.
proof fn lemma_answer_grows(
    ids: Seq<Seq<char>>,
    reads: Seq<Seq<(u32, Result<u64, (FaultKind, Seq<char>)>)>>,
)
    requires
        reads.len() > 0,
        ids.len() == reads.len(),
    ensures
        answer_of(ids, reads) == answer_of(ids.drop_last(), reads.drop_last()) + reads_under(
            ids.last(),
            reads.last(),
        ),
        answer_of(ids.drop_last(), reads.drop_last()).len() == reads_before(
            reads,
            reads.len() - 1,
        ),
    decreases reads.len(),
{
    let init = reads.drop_last();
    lemma_answer_prefix(ids.drop_last(), ids, init);
    lemma_reads_before(init, reads, init.len() as int);
    if init.len() > 0 {
        lemma_answer_grows(ids.drop_last(), init);
        lemma_reads_before(init.drop_last(), init, init.len() - 1);
    }
}

/// How many reads the first drivers brought does not depend on the last.
proof fn lemma_reads_before(
    init: Seq<Seq<(u32, Result<u64, (FaultKind, Seq<char>)>)>>,
    reads: Seq<Seq<(u32, Result<u64, (FaultKind, Seq<char>)>)>>,
    i: int,
)
    requires
        reads.len() > 0,
        init == reads.drop_last(),
        0 <= i <= init.len(),
    ensures
        reads_before(init, i) == reads_before(reads, i),
        0 <= reads_before(reads, i),
    decreases i,
{
    if i > 0 {
        lemma_reads_before(init, reads, i - 1);
        assert(init[i - 1] == reads[i - 1]);
    }
}

/// The answer to the reads of the first drivers does not depend on the IDs of
/// the others.
proof fn lemma_answer_prefix(
    some_ids: Seq<Seq<char>>,
    ids: Seq<Seq<char>>,
    reads: Seq<Seq<(u32, Result<u64, (FaultKind, Seq<char>)>)>>,
)
    requires
        reads.len() <= some_ids.len() <= ids.len(),
        forall|i: int| 0 <= i < some_ids.len() ==> some_ids[i] == ids[i],
    ensures
        answer_of(some_ids, reads) == answer_of(ids, reads),
    decreases reads.len(),
{
    if reads.len() > 0 {
        lemma_answer_prefix(some_ids, ids, reads.drop_last());
    }
}

/// A point that its driver reads once stands in the answer exactly once, with
/// what was read, if the round reads that driver once.
pub proof fn single_read_is_answered_once(
    ids: Seq<Seq<char>>,
    reads: Seq<Seq<(u32, Result<u64, (FaultKind, Seq<char>)>)>>,
    i: int,
    j: int,
)
    requires
        ids.len() == reads.len(),
        0 <= i < reads.len(),
        0 <= j < reads[i].len(),
        forall|a: int| 0 <= a < ids.len() && #[trigger] ids[a] == ids[i] ==> a == i,
        forall|b: int|
            0 <= b < reads[i].len() && (#[trigger] reads[i][b]).0 == reads[i][j].0 ==> b == j,
    ensures
        ({
            let answer = answer_of(ids, reads);
            let at = reads_before(reads, i) + j;
            &&& answered_at(ids, reads, at, i, j)
            &&& forall|k: int|
                0 <= k < answer.len() && (#[trigger] answer[k]).0 == ids[i] && answer[k].1
                    == reads[i][j].0 ==> k == at
        }),
{
    every_read_is_answered(ids, reads, i, j);
    let answer = answer_of(ids, reads);
    let at = reads_before(reads, i) + j;
    assert forall|k: int|
        0 <= k < answer.len() && (#[trigger] answer[k]).0 == ids[i] && answer[k].1
            == reads[i][j].0 implies k == at by {
        let (a, b) = every_answer_was_read(ids, reads, k);
        assert(ids[a] == ids[i]);
        assert(reads[i][b].0 == reads[i][j].0);
    }
}

/// Only registered drivers are read: one that is not registered contributes
/// nothing to the answer.
pub proof fn only_registered_drivers_answer(
    drivers: Seq<DriverRecordView>,
    requests: Seq<SyncRequest>,
    reads: Seq<Seq<(u32, Result<u64, (FaultKind, Seq<char>)>)>>,
    id: Seq<char>,
)
    requires
        reads.len() == requests_for(drivers, requests).len(),
        !registered(drivers, id),
    ensures
        forall|k: int|
            #![auto]
            0 <= k < answer_of(plan_ids(requests_for(drivers, requests)), reads).len()
                ==> answer_of(plan_ids(requests_for(drivers, requests)), reads)[k].0 != id,
{
    let ids = plan_ids(requests_for(drivers, requests));
    let answer = answer_of(ids, reads);
    assert forall|k: int| 0 <= k < answer.len() implies (#[trigger] answer[k]).0 != id by {
        let (a, b) = every_answer_was_read(ids, reads, k);
        lemma_planned_driver_is_registered(drivers, requests, a);
    }
}

/// Every driver of a plan is registered.
proof fn lemma_planned_driver_is_registered(
    drivers: Seq<DriverRecordView>,
    requests: Seq<SyncRequest>,
    i: int,
)
    requires
        0 <= i < requests_for(drivers, requests).len(),
    ensures
        registered(drivers, requests_for(drivers, requests)[i].driver_id@),
    decreases requests.len(),
{
    if requests.len() > 0 {
        let earlier = requests_for(drivers, requests.drop_last());
        if i < earlier.len() {
            lemma_planned_driver_is_registered(drivers, requests.drop_last(), i);
        }
    }
}

// ── Sequences of commands ───────────────────────────────────

/// The state after several commands, in the order in which they arrive.
pub open spec fn after_commands(m: ManagerView, cmds: Seq<ManagerCmd>) -> ManagerView
    decreases cmds.len(),
{
    if cmds.len() == 0 {
        m
    } else {
        after_command(after_commands(m, cmds.drop_last()), cmds.last())
    }
}

/// Commands act on one state: whoever sends the later ones finds what the
/// earlier ones left.
pub proof fn later_commands_see_earlier_ones(
    m: ManagerView,
    first: Seq<ManagerCmd>,
    second: Seq<ManagerCmd>,
)
    ensures
        after_commands(m, first + second) == after_commands(after_commands(m, first), second),
    decreases second.len(),
{
    if second.len() == 0 {
        assert(first + second =~= first);
    } else {
        assert((first + second).drop_last() =~= first + second.drop_last());
        later_commands_see_earlier_ones(m, first, second.drop_last());
    }
}

/// Once a driver has been registered its ID is taken until it is removed: after
/// any commands but its removal the ID is listed, and whoever registers it
/// again is refused and changes nothing.
pub proof fn registered_id_is_taken(
    m: ManagerView,
    driver: DriverRecord,
    cmds: Seq<ManagerCmd>,
    another: DriverRecord,
)
    requires
        forall|k: int|
            0 <= k < cmds.len() ==> !((#[trigger] cmds[k]) matches ManagerCmd::Remove(id)
                && id@ == driver@.id),
        another@.id == driver@.id,
    ensures
        ({
            let now = after_commands(after_command(m, ManagerCmd::Register(driver)), cmds);
            &&& registered(now.drivers, driver@.id)
            &&& forall|ids: Vec<String>|
                #[trigger] reacts(now, ManagerCmd::ListIds, Reaction::Ids(ids)) ==> exists|k: int|
                    0 <= k < ids@.len() && (#[trigger] ids@[k])@ == driver@.id
            &&& after_command(now, ManagerCmd::Register(another)) == now
            &&& forall|r: Reaction|
                #[trigger] reacts(now, ManagerCmd::Register(another), r) ==> (
                r matches Reaction::Registered(res) && outcome_view(res) == Err::<
                    (),
                    (FaultKind, Seq<char>),
                >(already_registered(driver@.id)))
        }),
{
    let id = driver@.id;
    let then = after_command(m, ManagerCmd::Register(driver));
    if !registered(m.drivers, id) {
        assert(then.drivers[m.drivers.len() as int] == driver@);
    }
    lemma_stays_registered(then, id, cmds);
    let now = after_commands(then, cmds);
    assert forall|ids: Vec<String>|
        #[trigger] reacts(now, ManagerCmd::ListIds, Reaction::Ids(ids)) implies exists|k: int|
        0 <= k < ids@.len() && (#[trigger] ids@[k])@ == id by {
        let k = choose|k: int| 0 <= k < now.drivers.len() && (#[trigger] now.drivers[k]).id == id;
        let listed = ids@.map_values(|s: String| s@);
        let expected = now.drivers.map_values(|d: DriverRecordView| d.id);
        assert(lists_ids(now, ids@));
        assert(listed == expected);
        assert(expected[k] == id);
        assert(listed.len() == ids@.len());
        assert(listed[k] == ids@[k]@);
    }
}

/// A registered driver stays so under commands that do not remove it.
proof fn lemma_stays_registered(m: ManagerView, id: Seq<char>, cmds: Seq<ManagerCmd>)
    requires
        registered(m.drivers, id),
        forall|k: int|
            0 <= k < cmds.len() ==> !((#[trigger] cmds[k]) matches ManagerCmd::Remove(gone)
                && gone@ == id),
    ensures
        registered(after_commands(m, cmds).drivers, id),
    decreases cmds.len(),
{
    if cmds.len() > 0 {
        let init = cmds.drop_last();
        assert forall|k: int| 0 <= k < init.len() implies !((
        #[trigger] init[k]) matches ManagerCmd::Remove(gone) && gone@ == id) by {
            assert(init[k] == cmds[k]);
        }
        lemma_stays_registered(m, id, init);
        let before = after_commands(m, init);
        let i = choose|i: int|
            0 <= i < before.drivers.len() && (#[trigger] before.drivers[i]).id == id;
        let after = after_command(before, cmds.last());
        assert(cmds[cmds.len() - 1] == cmds.last());
        match cmds.last() {
            ManagerCmd::Register(d) => {
                assert(after.drivers[i] == before.drivers[i]);
            },
            ManagerCmd::Remove(gone) => {
                lemma_others_stay(before.drivers, gone@, i);
            },
            _ => {},
        }
    }
}

/// Removing a driver leaves the others.
proof fn lemma_others_stay(drivers: Seq<DriverRecordView>, gone: Seq<char>, i: int)
    requires
        0 <= i < drivers.len(),
        drivers[i].id != gone,
    ensures
        registered(drivers_without(drivers, gone), drivers[i].id),
    decreases drivers.len(),
{
    reveal(Seq::filter);
    let keep = |d: DriverRecordView| d.id != gone;
    let init = drivers.drop_last();
    let left = drivers_without(drivers, gone);
    let earlier = drivers_without(init, gone);
    if i == drivers.len() - 1 {
        assert(keep(drivers.last()));
        assert(left == earlier.push(drivers.last()));
        assert(left[earlier.len() as int].id == drivers[i].id);
    } else {
        assert(init[i] == drivers[i]);
        lemma_others_stay(init, gone, i);
        let k = choose|k: int|
            0 <= k < earlier.len() && (#[trigger] earlier[k]).id == drivers[i].id;
        assert(left[k] == earlier[k]);
    }
}

// ── What a read leaves ──────────────────────────────────────

/// The last read of a point decides its status: a success clears it, a failure
/// sets the status of that failure.
pub proof fn last_read_decides_the_status(
    statuses: Map<u32, PointStatusView>,
    reads: Seq<(u32, Result<u64, (FaultKind, Seq<char>)>)>,
    i: int,
)
    requires
        0 <= i < reads.len(),
        forall|k: int| i < k < reads.len() ==> (#[trigger] reads[k]).0 != reads[i].0,
    ensures
        ({
            let after = status_after_reads(statuses, reads);
            match reads[i].1 {
                Ok(_) => !after.contains_key(reads[i].0),
                Err(e) => after.contains_key(reads[i].0) && after[reads[i].0] == status_for_fault(
                    e,
                ),
            }
        }),
    decreases reads.len(),
{
    let init = reads.drop_last();
    if i < reads.len() - 1 {
        assert(init[i] == reads[i]);
        assert forall|k: int| i < k < init.len() implies (#[trigger] init[k]).0 != init[i].0 by {
            assert(init[k] == reads[k]);
        }
        last_read_decides_the_status(statuses, init, i);
        assert(reads[reads.len() - 1].0 != reads[i].0);
    }
}

/// A point that is not read keeps its status.
pub proof fn unread_point_keeps_its_status(
    statuses: Map<u32, PointStatusView>,
    reads: Seq<(u32, Result<u64, (FaultKind, Seq<char>)>)>,
    point_id: u32,
)
    requires
        forall|k: int| 0 <= k < reads.len() ==> (#[trigger] reads[k]).0 != point_id,
    ensures
        status_after_reads(statuses, reads).contains_key(point_id) == statuses.contains_key(
            point_id,
        ),
        statuses.contains_key(point_id) ==> status_after_reads(statuses, reads)[point_id]
            == statuses[point_id],
    decreases reads.len(),
{
    if reads.len() > 0 {
        let init = reads.drop_last();
        assert forall|k: int| 0 <= k < init.len() implies (#[trigger] init[k]).0 != point_id by {
            assert(init[k] == reads[k]);
        }
        unread_point_keeps_its_status(statuses, init, point_id);
        assert(reads[reads.len() - 1].0 != point_id);
    }
}

/// What was last told of a point is what was last read of it.
pub proof fn last_value_read_was_told(
    last: Map<u32, u64>,
    reads: Seq<(u32, Result<u64, (FaultKind, Seq<char>)>)>,
    i: int,
)
    requires
        0 <= i < reads.len(),
        reads[i].1 is Ok,
        forall|k: int|
            i < k < reads.len() && (#[trigger] reads[k]).0 == reads[i].0 ==> reads[k].1 is Err,
    ensures
        emitted_after(last, reads).contains_key(reads[i].0),
        emitted_after(last, reads)[reads[i].0] == reads[i].1->Ok_0,
    decreases reads.len(),
{
    let init = reads.drop_last();
    if i < reads.len() - 1 {
        assert(init[i] == reads[i]);
        assert forall|k: int|
            i < k < init.len() && (#[trigger] init[k]).0 == init[i].0 implies init[k].1 is Err by {
            assert(init[k] == reads[k]);
        }
        last_value_read_was_told(last, init, i);
        assert(reads[reads.len() - 1].0 == reads[i].0 ==> reads[reads.len() - 1].1 is Err);
    }
}

/// A value is news exactly if nothing or something else was told of the point,
/// or if it is no number; a failure never is.
pub proof fn changed_value_is_news(
    last: Map<u32, u64>,
    point_id: u32,
    value: u64,
    e: (FaultKind, Seq<char>),
)
    ensures
        !last.contains_key(point_id) ==> is_news(last, (point_id, Ok(value))),
        last.contains_key(point_id) && last[point_id] != value ==> is_news(
            last,
            (point_id, Ok(value)),
        ),
        last.contains_key(point_id) && last[point_id] == value ==> (is_news(
            last,
            (point_id, Ok(value)),
        ) <==> is_nan_bits(value)),
        !is_news(last, (point_id, Err(e))),
{
}

/// The bits of a double are no number exactly if they are above those of
/// infinity, whatever the sign.
pub proof fn nan_bits_lie_above_infinity(v: u64)
    ensures
        is_nan_bits(v) <==> v as int % 0x8000_0000_0000_0000 > 0x7FF0_0000_0000_0000,
{
    let x = v as int;
    let high = x / 0x10_0000_0000_0000;
    let low = x % 0x10_0000_0000_0000;
    assert(x == high * 0x10_0000_0000_0000 + low);
    let exponent = high % 0x800;
    let sign = high / 0x800;
    assert(high == sign * 0x800 + exponent);
    assert(0 <= sign <= 1);
    assert(x == sign * 0x8000_0000_0000_0000 + exponent * 0x10_0000_0000_0000 + low);
    assert(x % 0x8000_0000_0000_0000 == exponent * 0x10_0000_0000_0000 + low);
}

/// An event tells of the point that was read, with what was read and the status
/// after the round.
pub proof fn event_tells_what_was_read(
    last: Map<u32, u64>,
    statuses: Map<u32, PointStatusView>,
    reads: Seq<(u32, Result<u64, (FaultKind, Seq<char>)>)>,
    k: int,
) -> (i: int)
    requires
        0 <= k < events_of(last, statuses, reads).len(),
    ensures
        0 <= i < reads.len(),
        events_of(last, statuses, reads)[k].point_id == reads[i].0,
        reads[i].1 matches Ok(v) && events_of(last, statuses, reads)[k].value == v,
        statuses.contains_key(reads[i].0) ==> events_of(last, statuses, reads)[k].status
            == statuses[reads[i].0],
        !statuses.contains_key(reads[i].0) ==> events_of(last, statuses, reads)[k].status
            is Inherited,
    decreases reads.len(),
{
    let init = reads.drop_last();
    let earlier = events_of(last, statuses, init);
    if k < earlier.len() {
        let i = event_tells_what_was_read(last, statuses, init, k);
        assert(init[i] == reads[i]);
        assert(events_of(last, statuses, reads)[k] == earlier[k]);
        i
    } else {
        reads.len() - 1
    }
}

/// The reads of a round are those of its drivers, one driver after the other.
pub proof fn reads_follow_their_drivers(
    a: Seq<Seq<(u32, Result<u64, (FaultKind, Seq<char>)>)>>,
    b: Seq<Seq<(u32, Result<u64, (FaultKind, Seq<char>)>)>>,
    one: Seq<(u32, Result<u64, (FaultKind, Seq<char>)>)>,
)
    ensures
        all_reads(a + b) == all_reads(a) + all_reads(b),
        all_reads(seq![one]) == one,
    decreases b.len(),
{
    assert(seq![one].drop_last() =~= Seq::empty());
    assert(all_reads(seq![one].drop_last()) =~= Seq::empty());
    assert(all_reads(seq![one]) =~= one);
    if b.len() == 0 {
        assert(a + b =~= a);
        assert(all_reads(a) + all_reads(b) =~= all_reads(a));
    } else {
        reads_follow_their_drivers(a, b.drop_last(), one);
        assert((a + b).drop_last() =~= a + b.drop_last());
        assert(all_reads(a + b) =~= all_reads(a) + all_reads(b));
    }
}

/// A round reads exactly the requests for registered drivers, in order.
pub proof fn registered_requests_are_planned(
    drivers: Seq<DriverRecordView>,
    requests: Seq<SyncRequest>,
)
    ensures
        requests_for(drivers, requests) == requests.filter(
            |r: SyncRequest| registered(drivers, r.driver_id@),
        ),
    decreases requests.len(),
{
    reveal(Seq::filter);
    if requests.len() > 0 {
        registered_requests_are_planned(drivers, requests.drop_last());
    }
}

// ── Watches ─────────────────────────────────────────────────

/// Picking points keeps those of the condition, as often as they stand there,
/// in order.
pub proof fn picked_points_keep_their_order(points: Seq<u32>, keep: spec_fn(u32) -> bool)
    ensures
        points_where(points, keep) == points.filter(keep),
    decreases points.len(),
{
    reveal(Seq::filter);
    if points.len() > 0 {
        picked_points_keep_their_order(points.drop_last(), keep);
    }
}

/// Which points are picked.
proof fn lemma_picked_iff(points: Seq<u32>, keep: spec_fn(u32) -> bool, p: u32)
    ensures
        points_where(points, keep).contains(p) <==> points.contains(p) && keep(p),
    decreases points.len(),
{
    if points.len() > 0 {
        let init = points.drop_last();
        lemma_picked_iff(init, keep, p);
        let earlier = points_where(init, keep);
        let all = points_where(points, keep);
        assert(points == init.push(points.last()));
        if keep(points.last()) {
            assert(all == earlier.push(points.last()));
            assert(all[earlier.len() as int] == points.last());
            if earlier.contains(p) {
                let k = choose|k: int| 0 <= k < earlier.len() && earlier[k] == p;
                assert(all[k] == p);
            }
            if all.contains(p) && p != points.last() {
                let k = choose|k: int| 0 <= k < all.len() && all[k] == p;
                assert(earlier[k] == p);
            }
        }
        assert(points[points.len() - 1] == points.last());
        if init.contains(p) {
            let k = choose|k: int| 0 <= k < init.len() && init[k] == p;
            assert(points[k] == p);
        }
        if points.contains(p) && p != points.last() {
            let k = choose|k: int| 0 <= k < points.len() && points[k] == p;
            assert(init[k] == p);
        }
    }
}

/// Which points a driver owns.
proof fn lemma_owned_iff(owners: Map<u32, Seq<char>>, id: Seq<char>, points: Seq<u32>, p: u32)
    ensures
        owned_by(owners, id, points).contains(p) <==> points.contains(p) && owners.contains_key(p)
            && owners[p] == id,
    decreases points.len(),
{
    if points.len() > 0 {
        let init = points.drop_last();
        let q = points.last();
        lemma_owned_iff(owners, id, init, p);
        let earlier = owned_by(owners, id, init);
        let all = owned_by(owners, id, points);
        assert(all == if owners.contains_key(q) && owners[q] == id {
            earlier.push(q)
        } else {
            earlier
        });
        if all != earlier {
            assert(all[earlier.len() as int] == q);
        }
        if earlier.contains(p) {
            let k = choose|k: int| 0 <= k < earlier.len() && earlier[k] == p;
            assert(all[k] == p);
        }
        if all.contains(p) && p != q {
            let k = choose|k: int| 0 <= k < all.len() && all[k] == p;
            assert(earlier[k] == p);
        }
        assert(points[points.len() - 1] == q);
        if init.contains(p) {
            let k = choose|k: int| 0 <= k < init.len() && init[k] == p;
            assert(points[k] == p);
        }
        if points.contains(p) && p != q {
            let k = choose|k: int| 0 <= k < points.len() && points[k] == p;
            assert(init[k] == p);
        }
    }
}

/// A point is newly watched exactly if it is asked for and nobody watched it,
/// and no longer watched exactly if it is given up by its only subscriber; a
/// driver is handed exactly its own points.
pub proof fn points_are_picked_by_their_state(
    watches: Map<u32, Set<Seq<char>>>,
    owners: Map<u32, Seq<char>>,
    name: Seq<char>,
    points: Seq<u32>,
    p: u32,
)
    ensures
        newly_watched(watches, points).contains(p) <==> points.contains(p)
            && !watches.contains_key(p),
        no_longer_watched(watches, name, points).contains(p) <==> points.contains(p) && watchers(
            watches,
            p,
        ) == set![name],
        owned_by(owners, name, points).contains(p) <==> points.contains(p) && owners.contains_key(
            p,
        ) && owners[p] == name,
{
    lemma_picked_iff(points, |q: u32| !watches.contains_key(q), p);
    lemma_picked_iff(points, |q: u32| watchers(watches, q) == set![name], p);
    lemma_owned_iff(owners, name, points, p);
}

/// Every point of a registered driver is handed to that driver, in one call and
/// no other.
pub proof fn point_is_handed_to_its_driver(
    m: ManagerView,
    points: Seq<u32>,
    calls: Seq<(Seq<char>, Seq<u32>)>,
    p: u32,
) -> (c: int)
    requires
        handed_out(m, points, calls),
        points.contains(p),
        m.point_driver.contains_key(p),
        registered(m.drivers, m.point_driver[p]),
    ensures
        0 <= c < calls.len(),
        calls[c].0 == m.point_driver[p],
        calls[c].1.contains(p),
        forall|k: int| 0 <= k < calls.len() && (#[trigger] calls[k]).1.contains(p) ==> k == c,
{
    let id = m.point_driver[p];
    points_are_picked_by_their_state(m.watches, m.point_driver, id, points, p);
    let own = owned_by(m.point_driver, id, points);
    assert(own.len() > 0);
    let c = choose|c: int| 0 <= c < calls.len() && (#[trigger] calls[c]).0 == id;
    assert(calls[c].1 == own);
    assert forall|k: int| 0 <= k < calls.len() && (#[trigger] calls[k]).1.contains(p) implies k
        == c by {
        points_are_picked_by_their_state(m.watches, m.point_driver, calls[k].0, points, p);
        assert(calls[k].0 == id);
    }
    c
}

/// A call hands its driver nothing but points of that driver that were asked
/// for.
pub proof fn handed_point_belongs_to_the_driver(
    m: ManagerView,
    points: Seq<u32>,
    calls: Seq<(Seq<char>, Seq<u32>)>,
    c: int,
    p: u32,
)
    requires
        handed_out(m, points, calls),
        0 <= c < calls.len(),
        calls[c].1.contains(p),
    ensures
        registered(m.drivers, calls[c].0),
        points.contains(p),
        owns(m, calls[c].0, p),
{
    assert(calls[c].1 == owned_by(m.point_driver, calls[c].0, points));
    points_are_picked_by_their_state(m.watches, m.point_driver, calls[c].0, points, p);
}

// ── What a command leaves ───────────────────────────────────

/// A new driver is registered as it is, after the others; nothing else changes.
pub proof fn new_driver_comes_last(m: ManagerView, driver: DriverRecord)
    requires
        !registered(m.drivers, driver@.id),
    ensures
        ({
            let after = after_command(m, ManagerCmd::Register(driver));
            &&& after.drivers.len() == m.drivers.len() + 1
            &&& after.drivers.drop_last() == m.drivers
            &&& after.drivers.last().id == driver.id@
            &&& after.drivers.last().driver_type == driver.driver_type@
            &&& after.drivers.last().status == driver.status@
            &&& after.drivers.last().poll_mode == driver.poll_mode
            &&& after.buckets == m.buckets
            &&& after.watches == m.watches
            &&& after.point_status == m.point_status
            &&& after.point_driver == m.point_driver
            &&& after.last_emitted == m.last_emitted
        }),
{
    assert(after_command(m, ManagerCmd::Register(driver)).drivers.drop_last() =~= m.drivers);
}

/// A removed driver takes its record, its buckets and its points along; other
/// drivers and their points stay as they were, and so does what was told.
pub proof fn removal_touches_one_driver(m: ManagerView, id: String, p: u32)
    requires
        registered(m.drivers, id@),
    ensures
        ({
            let after = after_command(m, ManagerCmd::Remove(id));
            &&& after.drivers == m.drivers.filter(|r: DriverRecordView| r.id != id@)
            &&& after.buckets == m.buckets.filter(|b: BucketView| b.driver_id != id@)
            &&& after.point_driver.contains_key(p) <==> m.point_driver.contains_key(p)
                && m.point_driver[p] != id@
            &&& after.point_driver.contains_key(p) ==> after.point_driver[p] == m.point_driver[p]
            &&& after.watches == m.watches
            &&& after.point_status == m.point_status
            &&& after.last_emitted == m.last_emitted
        }),
{
    crate::poll_scheduler::other_buckets_stay_in_order(m.buckets, id@);
}

/// Removing a driver that is not registered changes nothing.
pub proof fn unknown_removal_changes_nothing(m: ManagerView, id: String)
    requires
        !registered(m.drivers, id@),
    ensures
        after_command(m, ManagerCmd::Remove(id)) == m,
{
}

/// A point belongs to the driver that it was last registered with; nothing else
/// changes.
pub proof fn registered_point_belongs_to_its_driver(
    m: ManagerView,
    point_id: u32,
    id: String,
    other: u32,
)
    ensures
        ({
            let after = after_command(m, ManagerCmd::RegisterPoint(point_id, id));
            &&& owns(after, id@, point_id)
            &&& other != point_id ==> after.point_driver.contains_key(other)
                == m.point_driver.contains_key(other)
            &&& other != point_id && m.point_driver.contains_key(other)
                ==> after.point_driver[other] == m.point_driver[other]
            &&& after.drivers == m.drivers
            &&& after.buckets == m.buckets
            &&& after.watches == m.watches
            &&& after.point_status == m.point_status
            &&& after.last_emitted == m.last_emitted
        }),
{
}

/// A point has the status that was set last; nothing else changes.
pub proof fn set_status_is_the_points_own(
    m: ManagerView,
    point_id: u32,
    status: PointStatus,
    other: u32,
)
    ensures
        ({
            let after = after_command(m, ManagerCmd::SetPointStatus(point_id, status));
            &&& own_status(after, point_id) == status@
            &&& other != point_id ==> own_status(after, other) == own_status(m, other)
            &&& after.drivers == m.drivers
            &&& after.buckets == m.buckets
            &&& after.watches == m.watches
            &&& after.point_driver == m.point_driver
            &&& after.last_emitted == m.last_emitted
        }),
{
}

/// Watching points changes who watches them; nothing else changes.
pub proof fn watch_commands_change_watches_alone(
    m: ManagerView,
    name: String,
    points: Vec<u32>,
    p: u32,
)
    requires
        watchers(m.watches, p).finite(),
        m.watches.contains_key(p) <==> watchers(m.watches, p).len() > 0,
    ensures
        ({
            let more = after_command(m, ManagerCmd::AddWatch(name, points));
            let less = after_command(m, ManagerCmd::RemoveWatch(name, points));
            &&& points@.contains(p) ==> watchers(more.watches, p) == watchers(m.watches, p).insert(
                name@,
            )
            &&& points@.contains(p) ==> watchers(less.watches, p) == watchers(m.watches, p).remove(
                name@,
            )
            &&& !points@.contains(p) ==> watchers(more.watches, p) == watchers(m.watches, p)
            &&& !points@.contains(p) ==> watchers(less.watches, p) == watchers(m.watches, p)
            &&& more.drivers == m.drivers && less.drivers == m.drivers
            &&& more.buckets == m.buckets && less.buckets == m.buckets
            &&& more.point_status == m.point_status && less.point_status == m.point_status
            &&& more.point_driver == m.point_driver && less.point_driver == m.point_driver
            &&& more.last_emitted == m.last_emitted && less.last_emitted == m.last_emitted
        }),
{
    crate::watch_manager::subscribing_adds_the_name_alone(m.watches, name@, points@, p);
    crate::watch_manager::unsubscribing_takes_the_name_alone(m.watches, name@, points@, p);
}

/// A poll bucket is added as it is, after the others; nothing else changes.
pub proof fn new_bucket_comes_last(
    m: ManagerView,
    id: String,
    interval: u128,
    points: Vec<DriverPointRef>,
)
    ensures
        ({
            let after = after_command(m, ManagerCmd::AddPollBucket(id, interval, points));
            &&& after.buckets.len() == m.buckets.len() + 1
            &&& after.buckets.drop_last() == m.buckets
            &&& after.buckets.last().driver_id == id@
            &&& after.buckets.last().interval == interval
            &&& after.buckets.last().points == points@
            &&& after.drivers == m.drivers
            &&& after.watches == m.watches
            &&& after.point_status == m.point_status
            &&& after.point_driver == m.point_driver
            &&& after.last_emitted == m.last_emitted
        }),
{
    assert(after_command(
        m,
        ManagerCmd::AddPollBucket(id, interval, points),
    ).buckets.drop_last() =~= m.buckets);
}

/// Seeing the status of a driver changes that status and nothing else.
pub proof fn observed_status_is_the_drivers(
    drivers: Seq<DriverRecordView>,
    id: Seq<char>,
    status: StatusView,
    i: int,
)
    requires
        0 <= i < drivers.len(),
    ensures
        ({
            let after = drivers_observed(drivers, id, status);
            &&& after.len() == drivers.len()
            &&& after[i].id == drivers[i].id
            &&& after[i].driver_type == drivers[i].driver_type
            &&& after[i].poll_mode == drivers[i].poll_mode
            &&& drivers[i].id == id ==> after[i].status == status
            &&& drivers[i].id != id ==> after[i].status == drivers[i].status
        }),
{
}

// ── What is answered ────────────────────────────────────────

/// The status shown for a driver is that of its record.
pub proof fn shown_status_is_the_drivers(m: ManagerView, i: int, status: Option<DriverStatus>)
    requires
        unique_ids(m.drivers),
        0 <= i < m.drivers.len(),
        driver_shows(m, m.drivers[i].id, status),
    ensures
        status matches Some(s) && s@ == m.drivers[i].status,
{
    assert(registered(m.drivers, m.drivers[i].id));
}

/// The status shown for a point of a registered driver is its own, and that of
/// the driver if it has none.
pub proof fn shown_point_status_is_its_own(
    m: ManagerView,
    point_id: u32,
    i: int,
    status: Option<DriverStatus>,
)
    requires
        unique_ids(m.drivers),
        0 <= i < m.drivers.len(),
        owns(m, m.drivers[i].id, point_id),
        point_shows(m, point_id, status),
    ensures
        !m.point_status.contains_key(point_id) ==> (status matches Some(s) && s@
            == m.drivers[i].status),
        m.point_status.contains_key(point_id) ==> match m.point_status[point_id] {
            PointStatusView::Inherited => status matches Some(s) && s@ == m.drivers[i].status,
            PointStatusView::Own(own) => status matches Some(s) && s@ == own,
            PointStatusView::RemoteDisabled => status matches Some(s) && s@ is Disabled,
            PointStatusView::RemoteDown => status matches Some(s) && s@ is Down,
            PointStatusView::RemoteFault(msg) => status matches Some(s) && s@ == StatusView::Fault(
                msg,
            ),
        },
{
    assert(registered(m.drivers, m.drivers[i].id));
}

/// A summary tells the driver's own ID, type, status, mode and buckets.
pub proof fn summary_tells_the_driver(
    s: DriverSummary,
    d: DriverRecordView,
    buckets: Seq<BucketView>,
)
    requires
        summarises(s, d, buckets),
    ensures
        s.id@ == d.id,
        s.driver_type@ == d.driver_type,
        s.status@ == d.status,
        d.poll_mode == PollMode::Buckets ==> s.poll_mode@ == "Buckets"@,
        d.poll_mode == PollMode::Manual ==> s.poll_mode@ == "Manual"@,
        s.poll_buckets == bucket_positions(buckets, d.id).len(),
        s.poll_points == bucket_points(buckets, d.id),
{
}

/// A command to a driver goes on to it exactly if it is registered, and is
/// answered with a configuration fault that names it otherwise.
pub proof fn command_reaches_a_registered_driver(m: ManagerView, id: String, r: Reaction)
    requires
        reacts(m, ManagerCmd::OpenDriver(id), r) || reacts(m, ManagerCmd::CloseDriver(id), r)
            || reacts(m, ManagerCmd::PingDriver(id), r) || reacts(m, ManagerCmd::Learn(id), r)
            || reacts(m, ManagerCmd::Write(id), r),
    ensures
        r matches Reaction::Call(res) && (res is Ok <==> registered(m.drivers, id@)) && (
        res matches Err(e) ==> e@ == (
            FaultKind::ConfigFault,
            "driver '"@ + id@ + "' not found"@,
        )),
{
}

/// The IDs that are listed are those of the drivers, in order.
pub proof fn listed_ids_are_the_drivers(m: ManagerView, ids: Seq<String>, i: int)
    requires
        lists_ids(m, ids),
        0 <= i < m.drivers.len(),
    ensures
        ids.len() == m.drivers.len(),
        ids[i]@ == m.drivers[i].id,
{
    let listed = ids.map_values(|s: String| s@);
    let expected = m.drivers.map_values(|d: DriverRecordView| d.id);
    assert(listed.len() == ids.len() && expected.len() == m.drivers.len());
    assert(listed[i] == ids[i]@);
    assert(expected[i] == m.drivers[i].id);
}

/// The summaries are those of the drivers, in order.
pub proof fn summaries_follow_the_drivers(m: ManagerView, out: Seq<DriverSummary>, i: int)
    requires
        summarises_all(m, out),
        0 <= i < m.drivers.len(),
    ensures
        out.len() == m.drivers.len(),
        out[i].id@ == m.drivers[i].id,
        out[i].driver_type@ == m.drivers[i].driver_type,
        out[i].status@ == m.drivers[i].status,
        out[i].poll_buckets == bucket_positions(m.buckets, m.drivers[i].id).len(),
        out[i].poll_points == bucket_points(m.buckets, m.drivers[i].id),
{
    assert(summarises(out[i], m.drivers[i], m.buckets));
}

/// The points that are shown with a driver are exactly its own, each once, each
/// with the status that it shows alone.
pub proof fn shown_points_are_the_drivers_own(
    m: ManagerView,
    i: int,
    status: DriverStatus,
    points: Vec<(u32, DriverStatus)>,
    p: u32,
)
    requires
        unique_ids(m.drivers),
        0 <= i < m.drivers.len(),
        driver_shows_points(m, m.drivers[i].id, Some((status, points))),
    ensures
        status@ == m.drivers[i].status,
        owns(m, m.drivers[i].id, p) <==> exists|k: int|
            0 <= k < points@.len() && (#[trigger] points@[k]).0 == p,
        forall|k: int|
            0 <= k < points@.len() ==> point_shows(
                m,
                (#[trigger] points@[k]).0,
                Some(points@[k].1),
            ),
        forall|a: int, b: int|
            0 <= a < b < points@.len() ==> (#[trigger] points@[a]).0 != (#[trigger] points@[b]).0,
{
    let id = m.drivers[i].id;
    shown_status_is_the_drivers(m, i, Some(status));
    assert forall|k: int| 0 <= k < points@.len() implies point_shows(
        m,
        (#[trigger] points@[k]).0,
        Some(points@[k].1),
    ) by {
        assert(owns(m, id, points@[k].0));
        assert(m.drivers[i].id == m.point_driver[points@[k].0]);
    }
}

/// Events, answers and calls are seen in order, each with all that it carries.
pub proof fn lists_are_seen_in_order(
    events: Seq<CovEvent>,
    answer: Seq<(String, u32, Result<u64, DriverError>)>,
    calls: Seq<DriverCall>,
    i: int,
)
    requires
        0 <= i,
    ensures
        events_view(events).len() == events.len(),
        i < events.len() ==> events_view(events)[i].point_id == events[i].point_id && events_view(
            events,
        )[i].value == events[i].value && events_view(events)[i].status == events[i].status@,
        answer_view(answer).len() == answer.len(),
        i < answer.len() ==> answer_view(answer)[i].0 == answer[i].0@ && answer_view(answer)[i].1
            == answer[i].1 && answer_view(answer)[i].2 == outcome_view(answer[i].2),
        calls_view(calls).len() == calls.len(),
        i < calls.len() ==> calls_view(calls)[i].0 == calls[i].driver_id@ && calls_view(calls)[i].1
            == calls[i].points@,
{
}

/// A call to a driver succeeds exactly if the driver is registered.
pub proof fn call_needs_a_registered_driver(
    m: ManagerView,
    id: Seq<char>,
    res: Result<(), DriverError>,
)
    requires
        call_outcome(m, id, res),
    ensures
        res is Ok <==> registered(m.drivers, id),
        res matches Err(e) ==> e@ == (
            FaultKind::ConfigFault,
            "driver '"@ + id + "' not found"@,
        ),
{
}

/// A driver that is refused is told that its ID is taken.
pub proof fn taken_id_is_named(id: Seq<char>)
    ensures
        already_registered(id) == (
            FaultKind::ConfigFault,
            "driver '"@ + id + "' already registered"@,
        ),
{
}

/// A command gets its own answer: what watches and rounds ask of the drivers,
/// and whether a driver was removed.
pub proof fn commands_get_their_own_answers(
    m: ManagerView,
    name: String,
    points: Vec<u32>,
    id: String,
    requests: Vec<SyncRequest>,
    r: Reaction,
)
    ensures
        reacts(m, ManagerCmd::AddWatch(name, points), r) ==> (r matches Reaction::Watch(calls)
            && handed_out(m, newly_watched(m.watches, points@), calls_view(calls@))),
        reacts(m, ManagerCmd::RemoveWatch(name, points), r) ==> (r matches Reaction::Unwatch(calls)
            && handed_out(m, no_longer_watched(m.watches, name@, points@), calls_view(calls@))),
        reacts(m, ManagerCmd::Remove(id), r) ==> (r matches Reaction::Removed(found) && (found
            <==> registered(m.drivers, id@))),
        reacts(m, ManagerCmd::SyncAll(requests), r) ==> (r matches Reaction::Read(plan) && plan@
            == requests@.filter(|q: SyncRequest| registered(m.drivers, q.driver_id@))),
        reacts(m, ManagerCmd::OpenAll, r) ==> (r matches Reaction::CallEach(ids) && lists_ids(
            m,
            ids@,
        )),
        reacts(m, ManagerCmd::CloseAll, r) ==> (r matches Reaction::CallEach(ids) && lists_ids(
            m,
            ids@,
        )),
{
    registered_requests_are_planned(m.drivers, requests@);
}

} // verus!
