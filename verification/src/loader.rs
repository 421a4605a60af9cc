//! The rules of loading drivers from configuration: which points are polled,
//! and what a poll tick writes to the engine.

use vstd::prelude::*;
use vstd::string::*;

use crate::driver::{DriverError, DriverPointRef};
use crate::text::{joined, text};

verus! {

/// Write priority for driver-reported values: the lowest, so that any operator
/// or control-logic write overrides them.
pub const DRIVER_WRITE_LEVEL: u8 = 16;

/// Seconds after which a written value expires if it is not refreshed. Longer
/// than the poll interval, so that successful polls leave no gap.
pub const DRIVER_WRITE_DURATION_SECS: u32 = 30;

/// Nanoseconds from one poll tick to the next.
pub const DRIVER_POLL_INTERVAL: u128 = 5_000_000_000;

/// A configured driver and the points that it is to poll.
#[derive(Debug)]
pub struct ConfiguredDriver {
    pub driver_id: String,
    pub point_ids: Vec<u32>,
}

/// What a list of configured drivers says.
pub open spec fn configured_view(drivers: Seq<ConfiguredDriver>) -> Seq<(Seq<char>, Seq<u32>)> {
    drivers.map_values(|d: ConfiguredDriver| (d.driver_id@, d.point_ids@))
}

/// A driver and the references by which its points are polled.
#[derive(Debug)]
pub struct PolledDriver {
    pub driver_id: String,
    pub points: Vec<DriverPointRef>,
}

/// Whether references are those of points that have no address of their own.
pub open spec fn bare_refs(refs: Seq<DriverPointRef>, point_ids: Seq<u32>) -> bool {
    &&& refs.len() == point_ids.len()
    &&& forall|i: int|
        0 <= i < refs.len() ==> (#[trigger] refs[i]).point_id == point_ids[i]
            && refs[i].address@.len() == 0
}

/// The drivers that are polled: those that were registered and have points, in
/// order.
pub open spec fn polled(
    drivers: Seq<(Seq<char>, Seq<u32>)>,
    registered: Seq<bool>,
) -> Seq<(Seq<char>, Seq<u32>)>
    decreases drivers.len(),
{
    if drivers.len() == 0 {
        Seq::empty()
    } else {
        let earlier = polled(drivers.drop_last(), registered);
        if registered[drivers.len() - 1] && drivers.last().1.len() > 0 {
            earlier.push(drivers.last())
        } else {
            earlier
        }
    }
}

/// Whether a plan polls the given drivers.
pub open spec fn polls(plan: Seq<PolledDriver>, drivers: Seq<(Seq<char>, Seq<u32>)>) -> bool {
    &&& plan.len() == drivers.len()
    &&& forall|i: int|
        0 <= i < plan.len() ==> (#[trigger] plan[i]).driver_id@ == drivers[i].0 && bare_refs(
            plan[i].points@,
            drivers[i].1,
        )
}

/// References to points that have no address of their own.
pub fn point_refs(point_ids: &[u32]) -> (out: Vec<DriverPointRef>)
    ensures
        bare_refs(out@, point_ids@),
{
    proof {
        reveal_strlit("");
    }
    let mut out: Vec<DriverPointRef> = Vec::new();
    let mut i: usize = 0;
    while i < point_ids.len()
        invariant
            i <= point_ids@.len(),
            ""@.len() == 0,
            bare_refs(out@, point_ids@.subrange(0, i as int)),
        decreases point_ids@.len() - i,
    {
        let ghost before = out@;
        out.push(DriverPointRef { point_id: point_ids[i], address: text("") });
        i += 1;
        assert forall|k: int| 0 <= k < out@.len() implies (#[trigger] out@[k]).point_id
            == point_ids@.subrange(0, i as int)[k] && out@[k].address@.len() == 0 by {
            if k < before.len() {
                assert(out@[k] == before[k]);
                assert(before[k].point_id == point_ids@.subrange(0, i - 1)[k]);
            }
        }
    }
    assert(point_ids@.subrange(0, i as int) =~= point_ids@);
    out
}

/// What is done once the configured drivers have been offered to the manager.
#[derive(Debug)]
pub struct LoadPlan {
    /// Whether the drivers are opened.
    pub open: bool,
    /// The drivers whose points go into a poll bucket and are read at each tick.
    pub polled: Vec<PolledDriver>,
    /// Whether the tick task is started.
    pub tick: bool,
}

/// Plan what follows once configured drivers have been offered to the manager,
/// given which of them were registered. If none was, nothing follows. A driver
/// without points is not polled, and without points there are no ticks.
pub fn load_plan(drivers: &[ConfiguredDriver], registered: &[bool]) -> (plan: LoadPlan)
    requires
        registered@.len() == drivers@.len(),
    ensures
        plan.open == registered@.contains(true),
        polls(plan.polled@, polled(configured_view(drivers@), registered@)),
        plan.tick == (polled(configured_view(drivers@), registered@).len() > 0),
{
    let polled: Vec<PolledDriver> = poll_plan(drivers, registered);
    let mut open: bool = false;
    let mut i: usize = 0;
    while i < registered.len()
        invariant
            i <= registered@.len(),
            open == exists|k: int| 0 <= k < i && #[trigger] registered@[k],
        decreases registered@.len() - i,
    {
        if registered[i] {
            open = true;
        }
        i += 1;
    }
    proof {
        if open {
            let k = choose|k: int| 0 <= k < i && #[trigger] registered@[k];
            assert(registered@[k] == true);
        }
    }
    let tick: bool = polled.len() > 0;
    LoadPlan { open, polled, tick }
}

/// The drivers that are polled, with references to their points.
fn poll_plan(drivers: &[ConfiguredDriver], registered: &[bool]) -> (plan: Vec<PolledDriver>)
    requires
        registered@.len() == drivers@.len(),
    ensures
        polls(plan@, polled(configured_view(drivers@), registered@)),
{
    let ghost all = configured_view(drivers@);
    let mut plan: Vec<PolledDriver> = Vec::new();
    let mut i: usize = 0;
    assert(all.subrange(0, 0) =~= Seq::empty());
    while i < drivers.len()
        invariant
            i <= drivers@.len(),
            registered@.len() == drivers@.len(),
            all == configured_view(drivers@),
            polls(plan@, polled(all.subrange(0, i as int), registered@)),
        decreases drivers@.len() - i,
    {
        assert(all.subrange(0, i + 1).drop_last() =~= all.subrange(0, i as int));
        assert(all.subrange(0, i + 1).last() == all[i as int]);
        let ghost before = plan@;
        if registered[i] && drivers[i].point_ids.len() > 0 {
            plan.push(
                PolledDriver {
                    driver_id: drivers[i].driver_id.clone(),
                    points: point_refs(drivers[i].point_ids.as_slice()),
                },
            );
            proof {
                let want = polled(all.subrange(0, i + 1), registered@);
                assert forall|k: int| 0 <= k < plan@.len() implies (
                #[trigger] plan@[k]).driver_id@ == want[k].0 && bare_refs(
                    plan@[k].points@,
                    want[k].1,
                ) by {
                    if k < before.len() {
                        assert(plan@[k] == before[k]);
                    }
                }
            }
        }
        i += 1;
    }
    assert(all.subrange(0, i as int) =~= all);
    plan
}

// ── Ticks ───────────────────────────────────────────────────

/// A value that is written to an engine channel.
#[derive(Debug, PartialEq, Eq)]
pub struct ChannelWrite {
    pub channel: u32,
    /// Bits of the value.
    pub value: u64,
    pub level: u8,
    /// Who writes: the driver's type and ID.
    pub who: String,
    /// Seconds until the value expires.
    pub duration_secs: u32,
}

/// What a [`ChannelWrite`] says of channel, value and writer.
pub open spec fn channel_write_view(w: ChannelWrite) -> (u32, u64, Seq<char>) {
    (w.channel, w.value, w.who@)
}

/// What a list of reads says: the driver, the point, and the value if there is
/// one.
pub open spec fn reads_view(reads: Seq<(String, u32, Result<u64, DriverError>)>) -> Seq<
    (Seq<char>, u32, Option<u64>),
> {
    reads.map_values(
        |r: (String, u32, Result<u64, DriverError>)|
            (
                r.0@,
                r.1,
                match r.2 {
                    Ok(v) => Some(v),
                    Err(_) => None,
                },
            ),
    )
}

/// The name under which a driver writes to the engine.
pub open spec fn writer(driver_type: Seq<char>, driver_id: Seq<char>) -> Seq<char> {
    driver_type + ":"@ + driver_id
}

/// The writes of a tick: one for each point that was read, in order.
pub open spec fn tick_writes(
    driver_type: Seq<char>,
    reads: Seq<(Seq<char>, u32, Option<u64>)>,
) -> Seq<(u32, u64, Seq<char>)>
    decreases reads.len(),
{
    if reads.len() == 0 {
        Seq::empty()
    } else {
        let earlier = tick_writes(driver_type, reads.drop_last());
        match reads.last().2 {
            Some(v) => earlier.push((reads.last().1, v, writer(driver_type, reads.last().0))),
            None => earlier,
        }
    }
}

/// What a poll tick does: the writes to perform, and how many points could not
/// be read.
#[derive(Debug)]
pub struct TickPlan {
    pub writes: Vec<ChannelWrite>,
    pub err_count: usize,
}

/// Turn the outcome of a tick's reads into writes to the engine.
pub fn plan_tick(
    driver_type: &str,
    reads: &[(String, u32, Result<u64, DriverError>)],
) -> (plan: TickPlan)
    ensures
        plan.writes@.map_values(|w: ChannelWrite| channel_write_view(w)) == tick_writes(
            driver_type@,
            reads_view(reads@),
        ),
        forall|i: int|
            0 <= i < plan.writes@.len() ==> (#[trigger] plan.writes@[i]).level
                == DRIVER_WRITE_LEVEL && plan.writes@[i].duration_secs
                == DRIVER_WRITE_DURATION_SECS,
        plan.writes@.len() + plan.err_count == reads@.len(),
{
    let ghost all = reads_view(reads@);
    let ghost dt = driver_type@;
    let mut writes: Vec<ChannelWrite> = Vec::new();
    let mut err_count: usize = 0;
    let mut i: usize = 0;
    assert(all.subrange(0, 0) =~= Seq::empty());
    assert(writes@.map_values(|w: ChannelWrite| channel_write_view(w)) =~= Seq::empty());
    while i < reads.len()
        invariant
            i <= reads@.len(),
            all == reads_view(reads@),
            dt == driver_type@,
            writes@.map_values(|w: ChannelWrite| channel_write_view(w)) == tick_writes(
                dt,
                all.subrange(0, i as int),
            ),
            forall|k: int|
                0 <= k < writes@.len() ==> (#[trigger] writes@[k]).level == DRIVER_WRITE_LEVEL
                    && writes@[k].duration_secs == DRIVER_WRITE_DURATION_SECS,
            writes@.len() + err_count == i,
        decreases reads@.len() - i,
    {
        assert(all.subrange(0, i + 1).drop_last() =~= all.subrange(0, i as int));
        assert(all.subrange(0, i + 1).last() == all[i as int]);
        let ghost before = writes@.map_values(|w: ChannelWrite| channel_write_view(w));
        match &reads[i].2 {
            Ok(v) => {
                let mut who: String = joined(driver_type, ":");
                who.append(reads[i].0.as_str());
                let write: ChannelWrite = ChannelWrite {
                    channel: reads[i].1,
                    value: *v,
                    level: DRIVER_WRITE_LEVEL,
                    who,
                    duration_secs: DRIVER_WRITE_DURATION_SECS,
                };
                let ghost view = channel_write_view(write);
                writes.push(write);
                assert(writes@.map_values(|w: ChannelWrite| channel_write_view(w))
                    =~= before.push(view));
            },
            Err(_) => {
                err_count += 1;
            },
        }
        i += 1;
    }
    assert(all.subrange(0, i as int) =~= all);
    TickPlan { writes, err_count }
}

// ── Laws ────────────────────────────────────────────────────

/// Every driver that was registered and has points is polled, and no other.
pub proof fn polled_iff_registered_with_points(
    drivers: Seq<(Seq<char>, Seq<u32>)>,
    registered: Seq<bool>,
    driver: (Seq<char>, Seq<u32>),
)
    requires
        registered.len() >= drivers.len(),
    ensures
        polled(drivers, registered).contains(driver) <==> exists|i: int|
            0 <= i < drivers.len() && #[trigger] drivers[i] == driver && registered[i]
                && driver.1.len() > 0,
    decreases drivers.len(),
{
    if drivers.len() > 0 {
        let rest = drivers.drop_last();
        let n = drivers.len() - 1;
        polled_iff_registered_with_points(rest, registered, driver);
        let earlier = polled(rest, registered);
        let all = polled(drivers, registered);
        if earlier.contains(driver) {
            let k = choose|k: int| 0 <= k < earlier.len() && earlier[k] == driver;
            assert(all[k] == driver);
            let i = choose|i: int|
                0 <= i < rest.len() && #[trigger] rest[i] == driver && registered[i]
                    && driver.1.len() > 0;
            assert(drivers[i] == driver);
        }
        if registered[n] && drivers[n].1.len() > 0 && drivers[n] == driver {
            assert(all[earlier.len() as int] == driver);
        }
        if exists|i: int|
            0 <= i < drivers.len() && #[trigger] drivers[i] == driver && registered[i]
                && driver.1.len() > 0 {
            let i = choose|i: int|
                0 <= i < drivers.len() && #[trigger] drivers[i] == driver && registered[i]
                    && driver.1.len() > 0;
            if i < n {
                assert(rest[i] == driver);
            }
        }
    }
}

/// Reads of a tick are dealt with one after the other: a value that was read is
/// written to the channel of its point, under the name of its driver, and a
/// read that failed writes nothing.
pub proof fn reads_are_written_one_by_one(
    driver_type: Seq<char>,
    a: Seq<(String, u32, Result<u64, DriverError>)>,
    b: Seq<(String, u32, Result<u64, DriverError>)>,
    read: (String, u32, Result<u64, DriverError>),
)
    ensures
        tick_writes(driver_type, reads_view(a + b)) == tick_writes(driver_type, reads_view(a))
            + tick_writes(driver_type, reads_view(b)),
        tick_writes(driver_type, reads_view(seq![read])) == match read.2 {
            Ok(v) => seq![(read.1, v, driver_type + ":"@ + read.0@)],
            Err(_) => Seq::empty(),
        },
    decreases b.len(),
{
    let one = reads_view(seq![read]);
    assert(one.drop_last() =~= Seq::empty());
    assert(tick_writes(driver_type, one.drop_last()) =~= Seq::empty());
    if let Ok(v) = read.2 {
        assert(tick_writes(driver_type, one) =~= seq![
            (read.1, v, driver_type + ":"@ + read.0@),
        ]);
    }
    let x = reads_view(a);
    let y = reads_view(b);
    assert(reads_view(a + b) =~= x + y);
    if b.len() == 0 {
        assert(x + y =~= x);
        assert(tick_writes(driver_type, x) + tick_writes(driver_type, y) =~= tick_writes(
            driver_type,
            x,
        ));
    } else {
        reads_are_written_one_by_one(driver_type, a, b.drop_last(), read);
        assert(reads_view(b.drop_last()) =~= y.drop_last());
        assert(reads_view(a + b.drop_last()) =~= x + y.drop_last());
        assert((x + y).drop_last() =~= x + y.drop_last());
        assert((x + y).last() == y.last());
        assert(tick_writes(driver_type, x + y) =~= tick_writes(driver_type, x) + tick_writes(
            driver_type,
            y,
        ));
    }
}

/// The `k`-th write of a tick is the `k`-th successful read: its value goes to
/// the channel of its point. There are as many writes as successful reads.
pub proof fn kth_write_is_kth_success(
    driver_type: Seq<char>,
    reads: Seq<(String, u32, Result<u64, DriverError>)>,
)
    ensures
        ({
            let writes = tick_writes(driver_type, reads_view(reads));
            let read = reads.filter(|r: (String, u32, Result<u64, DriverError>)| r.2 is Ok);
            &&& writes.len() == read.len()
            &&& forall|k: int|
                0 <= k < writes.len() ==> (#[trigger] writes[k]).0 == read[k].1 && Ok::<
                    u64,
                    DriverError,
                >(writes[k].1) == read[k].2 && writes[k].2 == driver_type + ":"@ + read[k].0@
        }),
    decreases reads.len(),
{
    reveal(Seq::filter);
    let good = |r: (String, u32, Result<u64, DriverError>)| r.2 is Ok;
    if reads.len() > 0 {
        let init = reads.drop_last();
        kth_write_is_kth_success(driver_type, init);
        assert(reads_view(init) =~= reads_view(reads).drop_last());
        let earlier = tick_writes(driver_type, reads_view(init));
        let writes = tick_writes(driver_type, reads_view(reads));
        let read = reads.filter(good);
        let before = init.filter(good);
        assert forall|k: int| 0 <= k < writes.len() implies (#[trigger] writes[k]).0 == read[k].1
            && Ok::<u64, DriverError>(writes[k].1) == read[k].2 && writes[k].2 == driver_type
            + ":"@ + read[k].0@ by {
            if k < earlier.len() {
                assert(writes[k] == earlier[k]);
                assert(read[k] == before[k]);
            }
        }
    }
}

/// What a write tells: the channel, the value and the writer are its own.
pub proof fn write_is_seen_as_it_is(w: ChannelWrite)
    ensures
        channel_write_view(w).0 == w.channel,
        channel_write_view(w).1 == w.value,
        channel_write_view(w).2 == w.who@,
{
}

/// A written value has the lowest priority and outlives the next polls.
pub proof fn written_value_outlives_the_next_poll()
    ensures
        DRIVER_WRITE_LEVEL == 16,
        DRIVER_WRITE_DURATION_SECS == 30,
        DRIVER_POLL_INTERVAL == 5_000_000_000,
        DRIVER_WRITE_DURATION_SECS * 1_000_000_000 > 2 * DRIVER_POLL_INTERVAL,
{
}

/// Drivers are polled in their order: one more driver is polled last, if it was
/// registered and has points, and changes nothing before it.
pub proof fn drivers_are_polled_in_order(
    drivers: Seq<(Seq<char>, Seq<u32>)>,
    registered: Seq<bool>,
    driver: (Seq<char>, Seq<u32>),
    ok: bool,
)
    requires
        registered.len() == drivers.len(),
    ensures
        polled(drivers.push(driver), registered.push(ok)) == if ok && driver.1.len() > 0 {
            polled(drivers, registered).push(driver)
        } else {
            polled(drivers, registered)
        },
        polled(Seq::empty(), registered).len() == 0,
{
    assert(drivers.push(driver).drop_last() =~= drivers);
    lemma_polled_depends_on_its_drivers(drivers, registered, registered.push(ok));
}

/// Which drivers are polled depends on their own registration alone.
proof fn lemma_polled_depends_on_its_drivers(
    drivers: Seq<(Seq<char>, Seq<u32>)>,
    a: Seq<bool>,
    b: Seq<bool>,
)
    requires
        forall|i: int| 0 <= i < drivers.len() ==> #[trigger] a[i] == b[i],
    ensures
        polled(drivers, a) == polled(drivers, b),
    decreases drivers.len(),
{
    if drivers.len() > 0 {
        lemma_polled_depends_on_its_drivers(drivers.drop_last(), a, b);
        assert(a[drivers.len() - 1] == b[drivers.len() - 1]);
    }
}

/// A plan polls each driver under its own ID, with a reference to each of its
/// points, in order.
pub proof fn plan_refers_to_every_point(
    plan: Seq<PolledDriver>,
    drivers: Seq<(Seq<char>, Seq<u32>)>,
    i: int,
    j: int,
)
    requires
        polls(plan, drivers),
        0 <= i < drivers.len(),
        0 <= j < drivers[i].1.len(),
    ensures
        i < plan.len(),
        plan[i].driver_id@ == drivers[i].0,
        plan[i].points@.len() == drivers[i].1.len(),
        plan[i].points@[j].point_id == drivers[i].1[j],
        plan[i].points@[j].address@.len() == 0,
{
    assert(plan[i].driver_id@ == drivers[i].0);
    assert(plan[i].points@[j].point_id == drivers[i].1[j]);
}

/// Configured drivers are seen in order, each with its ID and its points.
pub proof fn configured_drivers_are_seen_in_order(drivers: Seq<ConfiguredDriver>, i: int)
    requires
        0 <= i < drivers.len(),
    ensures
        configured_view(drivers).len() == drivers.len(),
        configured_view(drivers)[i].0 == drivers[i].driver_id@,
        configured_view(drivers)[i].1 == drivers[i].point_ids@,
{
}

} // verus!
