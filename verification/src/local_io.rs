//! Local I/O driver: hardware channels (GPIO / ADC / I2C / PWM) as points.
//!
//! An engine-backed driver delegates reads and writes to the engine, whose own
//! poll loop stays authoritative for the hardware. Without an engine the driver
//! answers from a cached value per channel.

use vstd::prelude::*;
use vstd::string::*;

use crate::driver::{
    distinct_keys, outcome_view, outcomes_view, tags_view, DriverError, DriverMeta, DriverPointRef,
    DriverStatus, FaultKind, LearnPoint, LearnPointView, PollMode, StatusView, SyncContext,
    WriteContext,
};
use crate::text::{decimal, joined, text, text_decimal, text_decimal_tail};

verus! {

/// Write level of writes that are delegated to the engine. Level 16 is the
/// lowest-priority driver write, so higher-priority writes override cleanly.
pub const LOCAL_IO_WRITE_LEVEL: u8 = 16;

// ── LocalIoChannel ──────────────────────────────────────────

/// A single I/O channel mapped to hardware.
#[derive(Debug, PartialEq, Eq)]
pub struct LocalIoChannel {
    /// Numeric channel ID (matches engine channel numbering, e.g. 1713).
    pub channel_id: u32,
    /// Human-readable label (e.g. "AI1 10K Thermistor").
    pub label: String,
    /// I/O direction: `"AI"`, `"DI"`, `"AO"`, `"DO"`, `"PWM"`.
    pub direction: String,
    /// Channel kind: `"analog"`, `"digital"`, `"pwm"`.
    pub channel_type: String,
    /// Hardware address string (e.g. `"AIN0"`, `"GPIO60"`, `"I2C2:0x25"`).
    pub address: String,
    /// Whether the channel is enabled for polling.
    pub enabled: bool,
    /// Bits of the last value read from hardware (cached by poll cycle).
    pub last_value: u64,
    /// Status of the last read (e.g. `"ok"`, `"fault"`, `"stale"`).
    pub last_status: String,
}

/// What a [`LocalIoChannel`] says.
pub struct ChannelView {
    pub channel_id: u32,
    pub label: Seq<char>,
    pub direction: Seq<char>,
    pub channel_type: Seq<char>,
    pub address: Seq<char>,
    pub enabled: bool,
    pub last_value: u64,
    pub last_status: Seq<char>,
}

impl View for LocalIoChannel {
    type V = ChannelView;

    open spec fn view(&self) -> ChannelView {
        ChannelView {
            channel_id: self.channel_id,
            label: self.label@,
            direction: self.direction@,
            channel_type: self.channel_type@,
            address: self.address@,
            enabled: self.enabled,
            last_value: self.last_value,
            last_status: self.last_status@,
        }
    }
}

impl Clone for LocalIoChannel {
    fn clone(&self) -> (res: Self)
        ensures
            res == *self,
    {
        LocalIoChannel {
            channel_id: self.channel_id,
            label: self.label.clone(),
            direction: self.direction.clone(),
            channel_type: self.channel_type.clone(),
            address: self.address.clone(),
            enabled: self.enabled,
            last_value: self.last_value,
            last_status: self.last_status.clone(),
        }
    }
}

/// Whether a direction is that of a writable output.
pub open spec fn output_direction(direction: Seq<char>) -> bool {
    direction == "DO"@ || direction == "AO"@ || direction == "PWM"@
}

impl LocalIoChannel {
    /// Create a new enabled channel with default values.
    pub fn new(
        channel_id: u32,
        label: String,
        direction: String,
        channel_type: String,
        address: String,
    ) -> (res: Self)
        ensures
            res@ == (ChannelView {
                channel_id,
                label: label@,
                direction: direction@,
                channel_type: channel_type@,
                address: address@,
                enabled: true,
                last_value: 0,
                last_status: "ok"@,
            }),
    {
        LocalIoChannel {
            channel_id,
            label,
            direction,
            channel_type,
            address,
            enabled: true,
            last_value: 0,
            last_status: text("ok"),
        }
    }

    /// Returns true if this channel is a writable output.
    pub fn is_output(&self) -> (res: bool)
        ensures
            res == output_direction(self@.direction),
    {
        self.direction == text("DO") || self.direction == text("AO") || self.direction == text(
            "PWM",
        )
    }
}

/// The views of a list of channels.
pub open spec fn channels_view(channels: Seq<LocalIoChannel>) -> Seq<ChannelView> {
    channels.map_values(|c: LocalIoChannel| c@)
}

/// The index of the first channel with an ID; the length if there is none.
pub open spec fn channel_index(channels: Seq<ChannelView>, id: u32) -> int
    decreases channels.len(),
{
    if channels.len() == 0 {
        0
    } else if channels[0].channel_id == id {
        0
    } else {
        1 + channel_index(channels.drop_first(), id)
    }
}

/// What the index of a channel means.
pub proof fn channel_index_is_first(channels: Seq<ChannelView>, id: u32)
    ensures
        0 <= channel_index(channels, id) <= channels.len(),
        forall|k: int|
            0 <= k < channel_index(channels, id) ==> (#[trigger] channels[k]).channel_id != id,
        channel_index(channels, id) < channels.len() ==> channels[channel_index(
            channels,
            id,
        )].channel_id == id,
    decreases channels.len(),
{
    if channels.len() > 0 && channels[0].channel_id != id {
        channel_index_is_first(channels.drop_first(), id);
        let rest = channel_index(channels.drop_first(), id);
        assert forall|k: int| 0 <= k < 1 + rest implies (#[trigger] channels[k]).channel_id
            != id by {
            if k > 0 {
                assert(channels.drop_first()[k - 1] == channels[k]);
            }
        }
    }
}

/// The cached outcome of reading a channel.
pub open spec fn cached_value(channels: Seq<ChannelView>, id: u32) -> Result<
    u64,
    (FaultKind, Seq<char>),
> {
    let i = channel_index(channels, id);
    if i >= channels.len() {
        Err((FaultKind::ConfigFault, "channel "@ + decimal(id as nat) + " not found"@))
    } else if channels[i].enabled {
        Ok(channels[i].last_value)
    } else {
        Err((FaultKind::ConfigFault, "channel disabled"@))
    }
}

/// The cached outcomes of reading several points, in order.
pub open spec fn cached_values(
    channels: Seq<ChannelView>,
    points: Seq<DriverPointRef>,
) -> Seq<(u32, Result<u64, (FaultKind, Seq<char>)>)> {
    points.map_values(|p: DriverPointRef| (p.point_id, cached_value(channels, p.point_id)))
}

/// The outcome of writing to a channel.
pub open spec fn write_outcome(channels: Seq<ChannelView>, id: u32) -> Result<
    (),
    (FaultKind, Seq<char>),
> {
    let i = channel_index(channels, id);
    if i >= channels.len() {
        Err((FaultKind::ConfigFault, "channel "@ + decimal(id as nat) + " not found"@))
    } else if output_direction(channels[i].direction) {
        Ok(())
    } else {
        Err((FaultKind::ConfigFault, "not an output channel"@))
    }
}

/// The channels after a write: an output takes the value, others stay.
pub open spec fn channels_written(
    channels: Seq<ChannelView>,
    id: u32,
    value: u64,
) -> Seq<ChannelView> {
    let i = channel_index(channels, id);
    if write_outcome(channels, id) is Ok {
        channels.update(i, ChannelView { last_value: value, ..channels[i] })
    } else {
        channels
    }
}

/// The channels after the poll loop has read a channel: the first channel with
/// the ID takes the value and the status, others stay.
pub open spec fn channels_updated(
    channels: Seq<ChannelView>,
    id: u32,
    value: u64,
    status: Seq<char>,
) -> Seq<ChannelView> {
    let i = channel_index(channels, id);
    if i < channels.len() {
        channels.update(
            i,
            ChannelView { last_value: value, last_status: status, ..channels[i] },
        )
    } else {
        channels
    }
}

/// The channel that the simple form of a point stands for.
pub open spec fn simple_channel(
    point_id: u32,
    address: Seq<char>,
    kind: Seq<char>,
) -> ChannelView {
    ChannelView {
        channel_id: point_id,
        label: "point_"@ + decimal(point_id as nat),
        direction: if kind == "Bool"@ {
            "DI"@
        } else {
            "AI"@
        },
        channel_type: if kind == "Bool"@ {
            "digital"@
        } else {
            "analog"@
        },
        address,
        enabled: true,
        last_value: 0,
        last_status: "ok"@,
    }
}

/// The channels after several writes, one after the other.
pub open spec fn channels_all_written(
    channels: Seq<ChannelView>,
    writes: Seq<(u32, u64)>,
) -> Seq<ChannelView>
    decreases writes.len(),
{
    if writes.len() == 0 {
        channels
    } else {
        channels_written(
            channels_all_written(channels, writes.drop_last()),
            writes.last().0,
            writes.last().1,
        )
    }
}

/// The outcomes of several writes, in order.
pub open spec fn write_outcomes(
    channels: Seq<ChannelView>,
    writes: Seq<(u32, u64)>,
) -> Seq<(u32, Result<(), (FaultKind, Seq<char>)>)> {
    writes.map_values(|w: (u32, u64)| (w.0, write_outcome(channels, w.0)))
}

/// A write does not change which channels there are nor their directions, so
/// that the outcome of another write does not depend on it.
pub proof fn writes_do_not_interfere(channels: Seq<ChannelView>, id: u32, value: u64, other: u32)
    ensures
        channel_index(channels_written(channels, id, value), other) == channel_index(
            channels,
            other,
        ),
        write_outcome(channels_written(channels, id, value), other) == write_outcome(
            channels,
            other,
        ),
{
    let after = channels_written(channels, id, value);
    channel_index_is_first(channels, id);
    channel_index_is_first(channels, other);
    channel_index_is_first(after, other);
    let a = channel_index(channels, other);
    let b = channel_index(after, other);
    assert forall|k: int| 0 <= k < channels.len() implies (#[trigger] after[k]).channel_id
        == channels[k].channel_id && after[k].direction == channels[k].direction by {}
    if a < b {
        assert(after[a].channel_id != other);
    } else if b < a {
        assert(channels[b].channel_id != other);
    }
}

/// What was written to an enabled output is read back.
pub proof fn written_value_is_read(channels: Seq<ChannelView>, id: u32, value: u64)
    requires
        write_outcome(channels, id) is Ok,
        channels[channel_index(channels, id)].enabled,
    ensures
        cached_value(channels_written(channels, id, value), id) == Ok::<
            u64,
            (FaultKind, Seq<char>),
        >(value),
{
    writes_do_not_interfere(channels, id, value, id);
    channel_index_is_first(channels, id);
}

// ── LocalIoDriver ───────────────────────────────────────────

/// Local I/O driver.
///
/// Registers local hardware channels and answers learn/sync/write requests.
#[derive(Debug)]
pub struct LocalIoDriver {
    id: String,
    status: DriverStatus,
    channels: Vec<LocalIoChannel>,
    engine_backed: bool,
}

/// What a [`LocalIoDriver`] knows.
pub struct LocalIoDriverView {
    pub id: Seq<char>,
    pub status: StatusView,
    pub channels: Seq<ChannelView>,
    /// Whether reads and writes are delegated to an engine.
    pub engine_backed: bool,
}

impl View for LocalIoDriver {
    type V = LocalIoDriverView;

    closed spec fn view(&self) -> LocalIoDriverView {
        LocalIoDriverView {
            id: self.id@,
            status: self.status@,
            channels: channels_view(self.channels@),
            engine_backed: self.engine_backed,
        }
    }
}

impl LocalIoDriver {
    /// Create a new local I/O driver with the given instance ID and no engine
    /// backing: values come from `configure_channels` / `update_value`.
    pub fn new(id: String) -> (res: Self)
        ensures
            res@ == (LocalIoDriverView {
                id: id@,
                status: StatusView::Pending,
                channels: Seq::empty(),
                engine_backed: false,
            }),
    {
        let res: LocalIoDriver = LocalIoDriver {
            id,
            status: DriverStatus::Pending,
            channels: Vec::new(),
            engine_backed: false,
        };
        assert(res@.channels =~= Seq::empty());
        res
    }

    /// Create a new local I/O driver whose reads and writes the caller
    /// delegates to an engine.
    pub fn with_engine(id: String) -> (res: Self)
        ensures
            res@ == (LocalIoDriverView {
                id: id@,
                status: StatusView::Pending,
                channels: Seq::empty(),
                engine_backed: true,
            }),
    {
        let res: LocalIoDriver = LocalIoDriver {
            id,
            status: DriverStatus::Pending,
            channels: Vec::new(),
            engine_backed: true,
        };
        assert(res@.channels =~= Seq::empty());
        res
    }

    /// Add a point using the simple (id, address, kind) form.
    ///
    /// Creates a default channel with direction inferred from the kind
    /// (`"Bool"` is `"DI"`, anything else `"AI"`).
    pub fn add_point(&mut self, point_id: u32, address: String, kind: String)
        ensures
            final(self)@ == (LocalIoDriverView {
                channels: old(self)@.channels.push(
                    ChannelView {
                        channel_id: point_id,
                        label: "point_"@ + decimal(point_id as nat),
                        direction: if kind@ == "Bool"@ {
                            "DI"@
                        } else {
                            "AI"@
                        },
                        channel_type: if kind@ == "Bool"@ {
                            "digital"@
                        } else {
                            "analog"@
                        },
                        address: address@,
                        enabled: true,
                        last_value: 0,
                        last_status: "ok"@,
                    },
                ),
                ..old(self)@
            }),
            final(self)@.channels.last() == simple_channel(point_id, address@, kind@),
    {
        let (direction, channel_type): (&str, &str) = if kind == text("Bool") {
            ("DI", "digital")
        } else {
            ("AI", "analog")
        };
        let channel: LocalIoChannel = LocalIoChannel::new(
            point_id,
            text_decimal("point_", point_id as u128),
            text(direction),
            text(channel_type),
            address,
        );
        let ghost c = channel@;
        self.channels.push(channel);
        assert(self@.channels =~= old(self)@.channels.push(c));
    }

    /// Configure channels from a pre-built list.
    pub fn configure_channels(&mut self, channels: Vec<LocalIoChannel>)
        ensures
            final(self)@ == (LocalIoDriverView {
                channels: channels_view(channels@),
                ..old(self)@
            }),
    {
        self.channels = channels;
    }

    /// Get the number of registered channels/points.
    pub fn point_count(&self) -> (n: usize)
        ensures
            n == self@.channels.len(),
    {
        self.channels.len()
    }

    /// Get a reference to all configured channels.
    pub fn channels(&self) -> (res: &[LocalIoChannel])
        ensures
            channels_view(res@) == self@.channels,
    {
        self.channels.as_slice()
    }

    /// Returns `true` iff reads and writes are delegated to an engine.
    pub fn is_engine_backed(&self) -> (res: bool)
        ensures
            res == self@.engine_backed,
    {
        self.engine_backed
    }

    /// Find the first channel with an ID.
    fn find(&self, channel_id: u32) -> (i: usize)
        ensures
            i == channel_index(self@.channels, channel_id),
            i <= self.channels@.len(),
    {
        proof {
            channel_index_is_first(self@.channels, channel_id);
        }
        let mut i: usize = 0;
        while i < self.channels.len()
            invariant
                i <= self.channels@.len(),
                i <= channel_index(self@.channels, channel_id) <= self@.channels.len(),
                forall|k: int|
                    0 <= k < channel_index(self@.channels, channel_id) ==> (
                    #[trigger] self@.channels[k]).channel_id != channel_id,
                channel_index(self@.channels, channel_id) < self@.channels.len() ==> (
                self@.channels[channel_index(self@.channels, channel_id)].channel_id
                    == channel_id),
            decreases self.channels@.len() - i,
        {
            assert(self@.channels[i as int] == self.channels@[i as int]@);
            if self.channels[i].channel_id == channel_id {
                return i;
            }
            i += 1;
        }
        i
    }

    /// Store a value in a channel.
    fn store(&mut self, i: usize, value: u64)
        requires
            i < old(self)@.channels.len(),
        ensures
            final(self)@ == (LocalIoDriverView {
                channels: old(self)@.channels.update(
                    i as int,
                    ChannelView { last_value: value, ..old(self)@.channels[i as int] },
                ),
                ..old(self)@
            }),
    {
        let mut channel: LocalIoChannel = self.channels[i].clone();
        channel.last_value = value;
        let ghost c = channel@;
        self.channels.set(i, channel);
        assert(self@.channels =~= old(self)@.channels.update(i as int, c));
    }

    /// Update the cached value for a channel (called by the engine poll loop).
    /// A channel that is not there is ignored.
    pub fn update_value(&mut self, channel_id: u32, value: u64, status: &str)
        ensures
            ({
                let i = channel_index(old(self)@.channels, channel_id);
                final(self)@ == if i < old(self)@.channels.len() {
                    LocalIoDriverView {
                        channels: old(self)@.channels.update(
                            i,
                            ChannelView {
                                last_value: value,
                                last_status: status@,
                                ..old(self)@.channels[i]
                            },
                        ),
                        ..old(self)@
                    }
                } else {
                    old(self)@
                }
            }),
            final(self)@.channels == channels_updated(
                old(self)@.channels,
                channel_id,
                value,
                status@,
            ),
    {
        let i: usize = self.find(channel_id);
        if i < self.channels.len() {
            let mut channel: LocalIoChannel = self.channels[i].clone();
            channel.last_value = value;
            channel.last_status = text(status);
            let ghost c = channel@;
            self.channels.set(i, channel);
            assert(self@.channels =~= old(self)@.channels.update(i as int, c));
        }
    }

    /// The driver type.
    pub fn driver_type(&self) -> (res: &'static str)
        ensures
            res@ == "localIo"@,
    {
        "localIo"
    }

    /// The instance identifier.
    pub fn id(&self) -> (res: &str)
        ensures
            res@ == self@.id,
    {
        self.id.as_str()
    }

    /// The operational status.
    pub fn status(&self) -> (res: &DriverStatus)
        ensures
            res@ == self@.status,
    {
        &self.status
    }

    /// Points are polled in buckets.
    pub fn poll_mode(&self) -> (res: PollMode)
        ensures
            res == PollMode::Buckets,
    {
        PollMode::Buckets
    }

    /// Open the driver: it is running at once.
    pub fn open(&mut self) -> (meta: DriverMeta)
        ensures
            final(self)@ == (LocalIoDriverView { status: StatusView::Running, ..old(self)@ }),
            meta.firmware_version matches Some(v) && v@ == "1.6.0"@,
            meta.model matches Some(m) && m@ == "BeagleBone Black"@,
            meta.extra@.len() == 0,
            distinct_keys(tags_view(meta.extra@)),
    {
        self.status = DriverStatus::Running;
        DriverMeta {
            firmware_version: Some(text("1.6.0")),
            model: Some(text("BeagleBone Black")),
            extra: Vec::new(),
        }
    }

    /// Shut the driver down.
    pub fn close(&mut self)
        ensures
            final(self)@ == (LocalIoDriverView { status: StatusView::Down, ..old(self)@ }),
    {
        self.status = DriverStatus::Down;
    }

    /// Local I/O is always healthy.
    pub fn ping(&self) -> (meta: DriverMeta)
        ensures
            meta.firmware_version is None,
            meta.model matches Some(m) && m@ == "BeagleBone Black"@,
            meta.extra@.len() == 0,
            distinct_keys(tags_view(meta.extra@)),
    {
        DriverMeta {
            firmware_version: None,
            model: Some(text("BeagleBone Black")),
            extra: Vec::new(),
        }
    }

    /// Describe the channels, in order.
    pub fn learn(&self) -> (grid: Vec<LearnPoint>)
        ensures
            grid@.len() == self@.channels.len(),
            forall|i: int|
                0 <= i < grid@.len() ==> (#[trigger] grid@[i])@ == learnt_channel(
                    self@.channels[i],
                ) && distinct_keys(grid@[i]@.tags),
    {
        let mut grid: Vec<LearnPoint> = Vec::new();
        let mut i: usize = 0;
        while i < self.channels.len()
            invariant
                i <= self.channels@.len(),
                grid@.len() == i,
                forall|k: int|
                    0 <= k < i ==> (#[trigger] grid@[k])@ == learnt_channel(self@.channels[k])
                        && distinct_keys(grid@[k]@.tags),
            decreases self.channels@.len() - i,
        {
            grid.push(learn_channel(&self.channels[i]));
            i += 1;
        }
        grid
    }

    /// Read several points from the cache: one outcome per point, in order.
    pub fn sync_cached(&self, points: &[DriverPointRef], ctx: &mut SyncContext<u64>)
        ensures
            outcomes_view(final(ctx)@) == outcomes_view(old(ctx)@) + cached_values(
                self@.channels,
                points@,
            ),
    {
        let mut i: usize = 0;
        assert(outcomes_view(ctx@) =~= outcomes_view(old(ctx)@) + cached_values(
            self@.channels,
            points@.subrange(0, 0),
        ));
        while i < points.len()
            invariant
                i <= points@.len(),
                outcomes_view(ctx@) == outcomes_view(old(ctx)@) + cached_values(
                    self@.channels,
                    points@.subrange(0, i as int),
                ),
            decreases points@.len() - i,
        {
            let ghost before = ctx@;
            let p: u32 = points[i].point_id;
            match self.read_cached(p) {
                Ok(v) => ctx.update_cur_ok(p, v),
                Err(e) => ctx.update_cur_err(p, e),
            }
            i += 1;
            proof {
                let all = cached_values(self@.channels, points@.subrange(0, i as int));
                assert(outcomes_view(ctx@) =~= outcomes_view(before).push(
                    (p, cached_value(self@.channels, p)),
                ));
                assert(all =~= cached_values(self@.channels, points@.subrange(0, i - 1)).push(
                    (p, cached_value(self@.channels, p)),
                ));
                assert(outcomes_view(ctx@) =~= outcomes_view(old(ctx)@) + all);
            }
        }
        assert(points@.subrange(0, i as int) =~= points@);
    }

    /// Read one point from the cache.
    pub fn read_cached(&self, point_id: u32) -> (res: Result<u64, DriverError>)
        ensures
            outcome_view(res) == cached_value(self@.channels, point_id),
    {
        let i: usize = self.find(point_id);
        if i < self.channels.len() {
            if self.channels[i].enabled {
                Ok(self.channels[i].last_value)
            } else {
                Err(DriverError::ConfigFault(text("channel disabled")))
            }
        } else {
            Err(
                DriverError::ConfigFault(
                    text_decimal_tail("channel ", point_id as u128, " not found"),
                ),
            )
        }
    }

    /// Write one value to the cache. Only outputs can be written.
    pub fn write_one(&mut self, point_id: u32, value: u64) -> (res: Result<(), DriverError>)
        ensures
            outcome_view(res) == write_outcome(old(self)@.channels, point_id),
            final(self)@ == (LocalIoDriverView {
                channels: channels_written(old(self)@.channels, point_id, value),
                ..old(self)@
            }),
    {
        let i: usize = self.find(point_id);
        if i < self.channels.len() {
            if self.channels[i].is_output() {
                self.store(i, value);
                Ok(())
            } else {
                Err(DriverError::ConfigFault(text("not an output channel")))
            }
        } else {
            Err(
                DriverError::ConfigFault(
                    text_decimal_tail("channel ", point_id as u128, " not found"),
                ),
            )
        }
    }

    /// Write several values to the cache: one outcome per write, in order.
    pub fn write_cached(&mut self, writes: &[(u32, u64)], ctx: &mut WriteContext)
        ensures
            outcomes_view(final(ctx)@) == outcomes_view(old(ctx)@) + write_outcomes(
                old(self)@.channels,
                writes@,
            ),
            final(self)@ == (LocalIoDriverView {
                channels: channels_all_written(old(self)@.channels, writes@),
                ..old(self)@
            }),
    {
        let ghost start = self@;
        let mut i: usize = 0;
        assert(writes@.subrange(0, 0) =~= Seq::empty());
        assert(outcomes_view(ctx@) =~= outcomes_view(old(ctx)@) + write_outcomes(
            start.channels,
            writes@.subrange(0, 0),
        ));
        while i < writes.len()
            invariant
                i <= writes@.len(),
                start == old(self)@,
                self@ == (LocalIoDriverView {
                    channels: channels_all_written(start.channels, writes@.subrange(0, i as int)),
                    ..start
                }),
                outcomes_view(ctx@) == outcomes_view(old(ctx)@) + write_outcomes(
                    start.channels,
                    writes@.subrange(0, i as int),
                ),
            decreases writes@.len() - i,
        {
            let ghost before = ctx@;
            let (id, value): (u32, u64) = writes[i];
            proof {
                lemma_outcome_after_writes(start.channels, writes@.subrange(0, i as int), id);
            }
            match self.write_one(id, value) {
                Ok(_) => ctx.update_write_ok(id),
                Err(e) => ctx.update_write_err(id, e),
            }
            i += 1;
            proof {
                let some = writes@.subrange(0, i as int);
                assert(some.drop_last() =~= writes@.subrange(0, i - 1));
                let all = write_outcomes(start.channels, some);
                assert(outcomes_view(ctx@) =~= outcomes_view(before).push(
                    (id, write_outcome(start.channels, id)),
                ));
                assert(all =~= write_outcomes(start.channels, some.drop_last()).push(
                    (id, write_outcome(start.channels, id)),
                ));
                assert(outcomes_view(ctx@) =~= outcomes_view(old(ctx)@) + all);
            }
        }
        assert(writes@.subrange(0, i as int) =~= writes@);
    }

    /// The name under which the engine sees the writes of this driver.
    pub fn writer_name(&self) -> (res: String)
        ensures
            res@ == "localIo:"@ + self@.id,
    {
        joined("localIo:", self.id.as_str())
    }
}

/// The outcome of a write does not depend on earlier writes.
proof fn lemma_outcome_after_writes(
    channels: Seq<ChannelView>,
    writes: Seq<(u32, u64)>,
    id: u32,
)
    ensures
        write_outcome(channels_all_written(channels, writes), id) == write_outcome(channels, id),
    decreases writes.len(),
{
    if writes.len() > 0 {
        lemma_outcome_after_writes(channels, writes.drop_last(), id);
        writes_do_not_interfere(
            channels_all_written(channels, writes.drop_last()),
            writes.last().0,
            writes.last().1,
            id,
        );
    }
}

/// The point that a channel is learnt as.
pub open spec fn learnt_channel(c: ChannelView) -> LearnPointView {
    LearnPointView {
        name: c.label,
        address: c.address,
        kind: c.channel_type,
        unit: None,
        tags: if c.enabled {
            seq![("direction"@, c.direction)]
        } else {
            seq![("direction"@, c.direction), ("disabled"@, "true"@)]
        },
    }
}

/// The point that a channel is learnt as.
fn learn_channel(c: &LocalIoChannel) -> (res: LearnPoint)
    ensures
        res@ == learnt_channel(c@),
        distinct_keys(res@.tags),
{
    let mut tags: Vec<(String, String)> = vec![(text("direction"), c.direction.clone())];
    if !c.enabled {
        tags.push((text("disabled"), text("true")));
    }
    let res: LearnPoint = LearnPoint {
        name: c.label.clone(),
        address: c.address.clone(),
        kind: c.channel_type.clone(),
        unit: None,
        tags,
    };
    proof {
        reveal_strlit("direction");
        reveal_strlit("disabled");
        assert("direction"@.len() != "disabled"@.len());
    }
    assert(tags_view(res.tags@) =~= learnt_channel(c@).tags);
    res
}

// ── Laws ────────────────────────────────────────────────────

/// Whether channel `i` is the first with its ID.
pub open spec fn first_of_its_id(channels: Seq<ChannelView>, i: int) -> bool {
    0 <= i < channels.len() && forall|k: int|
        0 <= k < i ==> (#[trigger] channels[k]).channel_id != channels[i].channel_id
}

/// The index of an ID is that of the first channel with it.
proof fn lemma_first_is_index(channels: Seq<ChannelView>, i: int)
    requires
        first_of_its_id(channels, i),
    ensures
        channel_index(channels, channels[i].channel_id) == i,
{
    let id = channels[i].channel_id;
    channel_index_is_first(channels, id);
    let a = channel_index(channels, id);
    if a < i {
        assert(channels[a].channel_id != id);
    } else if i < a {
        assert(channels[i].channel_id != id);
    }
}

/// An enabled channel is read with its own last value, and a disabled one is
/// not read.
pub proof fn channel_is_read_by_its_id(channels: Seq<ChannelView>, i: int)
    requires
        first_of_its_id(channels, i),
    ensures
        channels[i].enabled ==> (cached_value(channels, channels[i].channel_id) matches Ok(v) && v
            == channels[i].last_value),
        !channels[i].enabled ==> (cached_value(channels, channels[i].channel_id) matches Err(e)
            && e.0 == FaultKind::ConfigFault && e.1 == "channel disabled"@),
{
    lemma_first_is_index(channels, i);
}

/// Exactly the outputs can be written: digital, analog and pulse-width ones.
pub proof fn outputs_can_be_written(channels: Seq<ChannelView>, i: int)
    requires
        first_of_its_id(channels, i),
    ensures
        write_outcome(channels, channels[i].channel_id) is Ok <==> channels[i].direction == "DO"@
            || channels[i].direction == "AO"@ || channels[i].direction == "PWM"@,
        write_outcome(channels, channels[i].channel_id) matches Err(e) ==> e.0
            == FaultKind::ConfigFault && e.1 == "not an output channel"@,
{
    lemma_first_is_index(channels, i);
}

/// A channel that is not there is neither read nor written.
pub proof fn missing_channel_is_a_fault(channels: Seq<ChannelView>, id: u32, value: u64)
    requires
        forall|k: int| 0 <= k < channels.len() ==> (#[trigger] channels[k]).channel_id != id,
    ensures
        cached_value(channels, id) matches Err(e) && e.0 == FaultKind::ConfigFault && e.1
            == "channel "@ + decimal(id as nat) + " not found"@,
        write_outcome(channels, id) matches Err(e) && e.0 == FaultKind::ConfigFault && e.1
            == "channel "@ + decimal(id as nat) + " not found"@,
        channels_written(channels, id, value) == channels,
{
    channel_index_is_first(channels, id);
    let i = channel_index(channels, id);
    if i < channels.len() {
        assert(channels[i].channel_id != id);
    }
}

/// A write to an output changes the value of that channel and nothing else.
pub proof fn write_changes_one_value(channels: Seq<ChannelView>, i: int, value: u64, k: int)
    requires
        first_of_its_id(channels, i),
        write_outcome(channels, channels[i].channel_id) is Ok,
        0 <= k < channels.len(),
    ensures
        ({
            let after = channels_written(channels, channels[i].channel_id, value);
            &&& after.len() == channels.len()
            &&& k == i ==> after[k].last_value == value
            &&& k != i ==> after[k] == channels[k]
            &&& after[k].channel_id == channels[k].channel_id
            &&& after[k].label == channels[k].label
            &&& after[k].direction == channels[k].direction
            &&& after[k].channel_type == channels[k].channel_type
            &&& after[k].address == channels[k].address
            &&& after[k].enabled == channels[k].enabled
            &&& after[k].last_status == channels[k].last_status
        }),
{
    lemma_first_is_index(channels, i);
}

/// A write that is refused changes nothing.
pub proof fn refused_write_changes_nothing(channels: Seq<ChannelView>, id: u32, value: u64)
    requires
        write_outcome(channels, id) is Err,
    ensures
        channels_written(channels, id, value) == channels,
{
}

/// Writes take effect one after the other.
pub proof fn writes_take_effect_in_order(
    channels: Seq<ChannelView>,
    a: Seq<(u32, u64)>,
    b: Seq<(u32, u64)>,
    id: u32,
    value: u64,
)
    ensures
        channels_all_written(channels, a + b) == channels_all_written(
            channels_all_written(channels, a),
            b,
        ),
        channels_all_written(channels, seq![(id, value)]) == channels_written(
            channels,
            id,
            value,
        ),
    decreases b.len(),
{
    let one = seq![(id, value)];
    assert(one.drop_last() =~= Seq::empty());
    assert(channels_all_written(channels, one.drop_last()) == channels);
    if b.len() == 0 {
        assert(a + b =~= a);
    } else {
        assert((a + b).drop_last() =~= a + b.drop_last());
        writes_take_effect_in_order(channels, a, b.drop_last(), id, value);
    }
}

/// Of several writes to an enabled output the last one counts, whatever other
/// channels are written before, between and after.
pub proof fn last_write_counts(channels: Seq<ChannelView>, writes: Seq<(u32, u64)>, n: int)
    requires
        0 <= n < writes.len(),
        forall|k: int| n < k < writes.len() ==> (#[trigger] writes[k]).0 != writes[n].0,
        write_outcome(channels, writes[n].0) is Ok,
        channels[channel_index(channels, writes[n].0)].enabled,
    ensures
        cached_value(channels_all_written(channels, writes), writes[n].0) matches Ok(v) && v
            == writes[n].1,
    decreases writes.len(),
{
    let id = writes[n].0;
    let init = writes.drop_last();
    let before = channels_all_written(channels, init);
    let (last_id, last_value) = writes.last();
    channel_index_is_first(channels, id);
    lemma_writes_keep_channels(channels, init, id);
    if n == writes.len() - 1 {
        written_value_is_read(before, id, last_value);
    } else {
        assert(init[n] == writes[n]);
        assert forall|k: int| n < k < init.len() implies (#[trigger] init[k]).0 != init[n].0 by {
            assert(init[k] == writes[k]);
        }
        last_write_counts(channels, init, n);
        assert(writes[writes.len() - 1].0 != id);
        writes_do_not_interfere(before, last_id, last_value, id);
        channel_index_is_first(before, last_id);
        channel_index_is_first(before, id);
    }
}

/// Writes leave the place of a channel and whether it is enabled.
proof fn lemma_writes_keep_channels(
    channels: Seq<ChannelView>,
    writes: Seq<(u32, u64)>,
    id: u32,
)
    requires
        channel_index(channels, id) < channels.len(),
    ensures
        ({
            let after = channels_all_written(channels, writes);
            let i = channel_index(channels, id);
            &&& after.len() == channels.len()
            &&& channel_index(after, id) == i
            &&& write_outcome(after, id) == write_outcome(channels, id)
            &&& after[i].enabled == channels[i].enabled
        }),
    decreases writes.len(),
{
    channel_index_is_first(channels, id);
    if writes.len() > 0 {
        let init = writes.drop_last();
        lemma_writes_keep_channels(channels, init, id);
        let before = channels_all_written(channels, init);
        writes_do_not_interfere(before, writes.last().0, writes.last().1, id);
        channel_index_is_first(before, writes.last().0);
    }
}

/// What the poll loop reads is what a later read of an enabled channel gives,
/// with the status of that poll; other channels stay.
pub proof fn polled_value_is_read(
    channels: Seq<ChannelView>,
    i: int,
    value: u64,
    status: Seq<char>,
    k: int,
)
    requires
        first_of_its_id(channels, i),
        0 <= k < channels.len(),
    ensures
        ({
            let after = channels_updated(channels, channels[i].channel_id, value, status);
            &&& after.len() == channels.len()
            &&& after[i].last_value == value
            &&& after[i].last_status == status
            &&& k != i ==> after[k] == channels[k]
            &&& after[k].channel_id == channels[k].channel_id
            &&& after[k].label == channels[k].label
            &&& after[k].direction == channels[k].direction
            &&& after[k].channel_type == channels[k].channel_type
            &&& after[k].address == channels[k].address
            &&& after[k].enabled == channels[k].enabled
            &&& channels[i].enabled ==> (cached_value(
                after,
                channels[i].channel_id,
            ) matches Ok(v) && v == value)
        }),
{
    lemma_first_is_index(channels, i);
    let after = channels_updated(channels, channels[i].channel_id, value, status);
    assert forall|j: int| 0 <= j < i implies (#[trigger] after[j]).channel_id
        != after[i].channel_id by {
        assert(after[j] == channels[j]);
    }
    lemma_first_is_index(after, i);
}

/// A poll of a channel that is not there changes nothing.
pub proof fn unknown_poll_changes_nothing(
    channels: Seq<ChannelView>,
    id: u32,
    value: u64,
    status: Seq<char>,
)
    requires
        forall|k: int| 0 <= k < channels.len() ==> (#[trigger] channels[k]).channel_id != id,
    ensures
        channels_updated(channels, id, value, status) == channels,
{
    channel_index_is_first(channels, id);
    let i = channel_index(channels, id);
    if i < channels.len() {
        assert(channels[i].channel_id != id);
    }
}

/// Several reads give one outcome per point, in order: what a single read of
/// that point gives. So do several writes.
pub proof fn batches_answer_point_by_point(
    channels: Seq<ChannelView>,
    points: Seq<DriverPointRef>,
    writes: Seq<(u32, u64)>,
    i: int,
)
    ensures
        cached_values(channels, points).len() == points.len(),
        0 <= i < points.len() ==> cached_values(channels, points)[i].0 == points[i].point_id
            && cached_values(channels, points)[i].1 == cached_value(channels, points[i].point_id),
        write_outcomes(channels, writes).len() == writes.len(),
        0 <= i < writes.len() ==> write_outcomes(channels, writes)[i].0 == writes[i].0
            && write_outcomes(channels, writes)[i].1 == write_outcome(channels, writes[i].0),
{
}

/// A channel is learnt with its own label, address, kind and direction; it is
/// marked as disabled exactly if it is.
pub proof fn channel_is_learnt_as_it_is(c: ChannelView)
    ensures
        learnt_channel(c).name == c.label,
        learnt_channel(c).address == c.address,
        learnt_channel(c).kind == c.channel_type,
        learnt_channel(c).unit is None,
        learnt_channel(c).tags[0] == ("direction"@, c.direction),
        learnt_channel(c).tags.len() == if c.enabled {
            1int
        } else {
            2int
        },
        !c.enabled ==> learnt_channel(c).tags[1] == ("disabled"@, "true"@),
{
}

/// A point in the simple form is an enabled input at its address: a digital one
/// for `"Bool"`, an analog one otherwise. It reads as zero and is not written.
pub proof fn simple_point_is_an_input(point_id: u32, address: Seq<char>, kind: Seq<char>)
    ensures
        ({
            let c = simple_channel(point_id, address, kind);
            &&& c.channel_id == point_id
            &&& c.address == address
            &&& c.label == "point_"@ + decimal(point_id as nat)
            &&& c.last_status == "ok"@
            &&& c.direction == "DI"@ <==> kind == "Bool"@
            &&& c.direction == "AI"@ <==> kind != "Bool"@
            &&& c.channel_type == "digital"@ <==> kind == "Bool"@
            &&& c.channel_type == "analog"@ <==> kind != "Bool"@
            &&& cached_value(seq![c], point_id) matches Ok(v) && v == 0
            &&& write_outcome(seq![c], point_id) is Err
        }),
{
    reveal_strlit("DI");
    reveal_strlit("AI");
    reveal_strlit("DO");
    reveal_strlit("AO");
    reveal_strlit("PWM");
    reveal_strlit("digital");
    reveal_strlit("analog");
    let c = simple_channel(point_id, address, kind);
    assert("DI"@[0] == 'D' && "DI"@[1] == 'I' && "AI"@[0] == 'A' && "AI"@[1] == 'I');
    assert("DO"@[0] == 'D' && "DO"@[1] == 'O' && "AO"@[0] == 'A' && "AO"@[1] == 'O');
    assert("PWM"@.len() == 3 && "DI"@.len() == 2 && "AI"@.len() == 2);
    assert("digital"@.len() == 7 && "analog"@.len() == 6);
    lemma_first_is_index(seq![c], 0);
}

/// Writes that are delegated have the lowest priority.
pub proof fn delegated_writes_have_the_lowest_priority()
    ensures
        LOCAL_IO_WRITE_LEVEL == 16,
{
}

} // verus!
