//! Core driver types: status, errors, point status with inheritance, and the
//! collectors that drivers fill while reading or writing points.
//!
//! A floating-point number is carried by its IEEE 754 bit pattern wherever the
//! rules of this crate only store, forward or compare it bit by bit.

use vstd::prelude::*;
use vstd::string::*;

use crate::json::Json;
use crate::text::text;

verus! {

/// Unique driver instance identifier.
pub type DriverId = String;

/// A discovered set of points.
pub type LearnGrid = Vec<LearnPoint>;

/// Outcome of a write to the points of one driver.
pub type WritePointsResult = Result<Vec<(u32, Result<(), DriverError>)>, DriverError>;

// ── DriverStatus ────────────────────────────────────────────

/// Driver operational status (cascades to child points via [`PointStatus`]).
#[derive(Debug, PartialEq, Eq)]
pub enum DriverStatus {
    /// Driver not yet initialized.
    Pending,
    /// Driver running normally.
    Running,
    /// No recent data received within stale timeout.
    Stale,
    /// Communication/hardware fault.
    Fault(String),
    /// Driver disabled by configuration.
    Disabled,
    /// Driver shut down.
    Down,
    /// Initial data load / synchronization in progress.
    Syncing,
}

/// What a [`DriverStatus`] says, with its text as a sequence of characters.
pub enum StatusView {
    Pending,
    Running,
    Stale,
    Fault(Seq<char>),
    Disabled,
    Down,
    Syncing,
}

impl View for DriverStatus {
    type V = StatusView;

    open spec fn view(&self) -> StatusView {
        match *self {
            DriverStatus::Pending => StatusView::Pending,
            DriverStatus::Running => StatusView::Running,
            DriverStatus::Stale => StatusView::Stale,
            DriverStatus::Fault(msg) => StatusView::Fault(msg@),
            DriverStatus::Disabled => StatusView::Disabled,
            DriverStatus::Down => StatusView::Down,
            DriverStatus::Syncing => StatusView::Syncing,
        }
    }
}

impl Clone for DriverStatus {
    fn clone(&self) -> (res: Self)
        ensures
            res == *self,
    {
        match self {
            DriverStatus::Pending => DriverStatus::Pending,
            DriverStatus::Running => DriverStatus::Running,
            DriverStatus::Stale => DriverStatus::Stale,
            DriverStatus::Fault(msg) => DriverStatus::Fault(msg.clone()),
            DriverStatus::Disabled => DriverStatus::Disabled,
            DriverStatus::Down => DriverStatus::Down,
            DriverStatus::Syncing => DriverStatus::Syncing,
        }
    }
}

/// The text that a status is shown as.
pub open spec fn status_text(s: StatusView) -> Seq<char> {
    match s {
        StatusView::Pending => "pending"@,
        StatusView::Running => "ok"@,
        StatusView::Stale => "stale"@,
        StatusView::Fault(msg) => "fault: "@ + msg,
        StatusView::Disabled => "disabled"@,
        StatusView::Down => "down"@,
        StatusView::Syncing => "syncing"@,
    }
}

impl DriverStatus {
    /// The status as text, for example `fault: timeout`.
    pub fn to_string(&self) -> (out: String)
        ensures
            out@ == status_text(self@),
    {
        match self {
            DriverStatus::Pending => text("pending"),
            DriverStatus::Running => text("ok"),
            DriverStatus::Stale => text("stale"),
            DriverStatus::Fault(msg) => {
                let mut out: String = text("fault: ");
                out.append(msg.as_str());
                out
            },
            DriverStatus::Disabled => text("disabled"),
            DriverStatus::Down => text("down"),
            DriverStatus::Syncing => text("syncing"),
        }
    }
}

// ── DriverError ─────────────────────────────────────────────

/// Driver error types.
#[derive(Debug, PartialEq, Eq)]
pub enum DriverError {
    /// Configuration error (bad address, missing parameter): won't recover without a fix.
    ConfigFault(String),
    /// Communication error (timeout, connection refused): may recover on retry.
    CommFault(String),
    /// Feature not supported by this driver.
    NotSupported(&'static str),
    /// Remote device/system reported an error status.
    RemoteStatus(String),
    /// Communication timeout waiting for response.
    Timeout(String),
    /// Internal driver error (logic bug, unexpected state).
    Internal(String),
    /// Hardware device not found or inaccessible.
    HardwareNotFound(String),
}

/// The category of a [`DriverError`].
pub enum FaultKind {
    ConfigFault,
    CommFault,
    NotSupported,
    RemoteStatus,
    Timeout,
    Internal,
    HardwareNotFound,
}

impl View for DriverError {
    type V = (FaultKind, Seq<char>);

    open spec fn view(&self) -> (FaultKind, Seq<char>) {
        match *self {
            DriverError::ConfigFault(msg) => (FaultKind::ConfigFault, msg@),
            DriverError::CommFault(msg) => (FaultKind::CommFault, msg@),
            DriverError::NotSupported(feat) => (FaultKind::NotSupported, feat@),
            DriverError::RemoteStatus(msg) => (FaultKind::RemoteStatus, msg@),
            DriverError::Timeout(msg) => (FaultKind::Timeout, msg@),
            DriverError::Internal(msg) => (FaultKind::Internal, msg@),
            DriverError::HardwareNotFound(msg) => (FaultKind::HardwareNotFound, msg@),
        }
    }
}

impl Clone for DriverError {
    fn clone(&self) -> (res: Self)
        ensures
            res == *self,
    {
        match self {
            DriverError::ConfigFault(msg) => DriverError::ConfigFault(msg.clone()),
            DriverError::CommFault(msg) => DriverError::CommFault(msg.clone()),
            DriverError::NotSupported(feat) => DriverError::NotSupported(*feat),
            DriverError::RemoteStatus(msg) => DriverError::RemoteStatus(msg.clone()),
            DriverError::Timeout(msg) => DriverError::Timeout(msg.clone()),
            DriverError::Internal(msg) => DriverError::Internal(msg.clone()),
            DriverError::HardwareNotFound(msg) => DriverError::HardwareNotFound(msg.clone()),
        }
    }
}

/// The words that introduce an error of the given category.
pub open spec fn fault_prefix(kind: FaultKind) -> Seq<char> {
    match kind {
        FaultKind::ConfigFault => "config fault: "@,
        FaultKind::CommFault => "comm fault: "@,
        FaultKind::NotSupported => "not supported: "@,
        FaultKind::RemoteStatus => "remote status: "@,
        FaultKind::Timeout => "timeout: "@,
        FaultKind::Internal => "internal error: "@,
        FaultKind::HardwareNotFound => "hardware not found: "@,
    }
}

/// The text that an error is shown as.
pub open spec fn fault_text(e: (FaultKind, Seq<char>)) -> Seq<char> {
    fault_prefix(e.0) + e.1
}

impl DriverError {
    /// The error as text, for example `comm fault: connection refused`.
    pub fn to_string(&self) -> (out: String)
        ensures
            out@ == fault_text(self@),
    {
        let (prefix, msg): (&str, &str) = match self {
            DriverError::ConfigFault(msg) => ("config fault: ", msg.as_str()),
            DriverError::CommFault(msg) => ("comm fault: ", msg.as_str()),
            DriverError::NotSupported(feat) => ("not supported: ", *feat),
            DriverError::RemoteStatus(msg) => ("remote status: ", msg.as_str()),
            DriverError::Timeout(msg) => ("timeout: ", msg.as_str()),
            DriverError::Internal(msg) => ("internal error: ", msg.as_str()),
            DriverError::HardwareNotFound(msg) => ("hardware not found: ", msg.as_str()),
        };
        let mut out: String = text(prefix);
        out.append(msg);
        out
    }
}

/// What a per-point result says, with the error by its view.
pub open spec fn outcome_view<T>(r: Result<T, DriverError>) -> Result<T, (FaultKind, Seq<char>)> {
    match r {
        Ok(v) => Ok(v),
        Err(e) => Err(e@),
    }
}

/// What a list of per-point results says.
pub open spec fn outcomes_view<T>(s: Seq<(u32, Result<T, DriverError>)>) -> Seq<
    (u32, Result<T, (FaultKind, Seq<char>)>),
> {
    s.map_values(|p: (u32, Result<T, DriverError>)| (p.0, outcome_view(p.1)))
}

// ── PointStatus ─────────────────────────────────────────────

/// Point-level status that can inherit from its parent driver or carry a
/// remote-reported per-point status distinct from the driver's status.
///
/// The `Remote*` variants are terminal: they do not fall back to the driver's
/// status.
#[derive(Debug, PartialEq, Eq)]
pub enum PointStatus {
    /// Point inherits status from its parent driver (default).
    Inherited,
    /// Point has its own explicit status (local override).
    Own(DriverStatus),
    /// Remote reports this specific point is disabled.
    RemoteDisabled,
    /// Remote reports this specific point is down / unreachable.
    RemoteDown,
    /// Remote reports this specific point has a fault, with a descriptive reason.
    RemoteFault(String),
}

/// What a [`PointStatus`] says.
pub enum PointStatusView {
    Inherited,
    Own(StatusView),
    RemoteDisabled,
    RemoteDown,
    RemoteFault(Seq<char>),
}

impl View for PointStatus {
    type V = PointStatusView;

    open spec fn view(&self) -> PointStatusView {
        match *self {
            PointStatus::Inherited => PointStatusView::Inherited,
            PointStatus::Own(s) => PointStatusView::Own(s@),
            PointStatus::RemoteDisabled => PointStatusView::RemoteDisabled,
            PointStatus::RemoteDown => PointStatusView::RemoteDown,
            PointStatus::RemoteFault(msg) => PointStatusView::RemoteFault(msg@),
        }
    }
}

impl Clone for PointStatus {
    fn clone(&self) -> (res: Self)
        ensures
            res == *self,
    {
        match self {
            PointStatus::Inherited => PointStatus::Inherited,
            PointStatus::Own(s) => PointStatus::Own(s.clone()),
            PointStatus::RemoteDisabled => PointStatus::RemoteDisabled,
            PointStatus::RemoteDown => PointStatus::RemoteDown,
            PointStatus::RemoteFault(msg) => PointStatus::RemoteFault(msg.clone()),
        }
    }
}

impl Default for PointStatus {
    fn default() -> (res: Self)
        ensures
            res == PointStatus::Inherited,
    {
        PointStatus::Inherited
    }
}

/// The status a point shows under a driver with status `driver`.
pub open spec fn resolved(point: PointStatusView, driver: StatusView) -> StatusView {
    match point {
        PointStatusView::Inherited => driver,
        PointStatusView::Own(s) => s,
        PointStatusView::RemoteDisabled => StatusView::Disabled,
        PointStatusView::RemoteDown => StatusView::Down,
        PointStatusView::RemoteFault(msg) => StatusView::Fault(msg),
    }
}

/// The point status that an error of a read stands for.
pub open spec fn status_for_fault(e: (FaultKind, Seq<char>)) -> PointStatusView {
    match e.0 {
        FaultKind::RemoteStatus => PointStatusView::RemoteFault(e.1),
        FaultKind::CommFault => PointStatusView::RemoteDown,
        FaultKind::Timeout => PointStatusView::RemoteDown,
        FaultKind::ConfigFault => PointStatusView::Own(StatusView::Fault(e.1)),
        FaultKind::HardwareNotFound => PointStatusView::Own(StatusView::Fault(e.1)),
        FaultKind::Internal => PointStatusView::Own(StatusView::Fault(e.1)),
        FaultKind::NotSupported => PointStatusView::Own(
            StatusView::Fault("not supported: "@ + e.1),
        ),
    }
}

/// Whether a status was reported by the remote side for this point alone.
pub open spec fn remote_reported(point: PointStatusView) -> bool {
    point is RemoteDisabled || point is RemoteDown || point is RemoteFault
}

impl PointStatus {
    /// Resolve the effective status given the parent driver status.
    ///
    /// A point's own status takes precedence, a remote-reported one is turned
    /// into the matching driver status, and an inheriting point shows what the
    /// driver shows.
    pub fn resolve(&self, driver_status: &DriverStatus) -> (res: DriverStatus)
        ensures
            res@ == resolved(self@, driver_status@),
            *self is Inherited ==> res == *driver_status,
            *self matches PointStatus::Own(s) ==> res == s,
    {
        match self {
            PointStatus::Own(s) => s.clone(),
            PointStatus::Inherited => driver_status.clone(),
            PointStatus::RemoteDisabled => DriverStatus::Disabled,
            PointStatus::RemoteDown => DriverStatus::Down,
            PointStatus::RemoteFault(msg) => DriverStatus::Fault(msg.clone()),
        }
    }

    /// Map an error of a read to the status of the point that was read.
    ///
    /// - `RemoteStatus` becomes `RemoteFault`: the device reported the point
    /// - `CommFault` / `Timeout` become `RemoteDown`: the device is out of reach
    /// - everything else is a local fault, `Own(Fault(..))`
    pub fn from_driver_error(err: &DriverError) -> (res: Self)
        ensures
            res@ == status_for_fault(err@),
    {
        match err {
            DriverError::RemoteStatus(msg) => PointStatus::RemoteFault(msg.clone()),
            DriverError::CommFault(_) => PointStatus::RemoteDown,
            DriverError::Timeout(_) => PointStatus::RemoteDown,
            DriverError::ConfigFault(msg) => PointStatus::Own(DriverStatus::Fault(msg.clone())),
            DriverError::HardwareNotFound(msg) => PointStatus::Own(
                DriverStatus::Fault(msg.clone()),
            ),
            DriverError::Internal(msg) => PointStatus::Own(DriverStatus::Fault(msg.clone())),
            DriverError::NotSupported(feat) => {
                let mut msg: String = text("not supported: ");
                msg.append(feat);
                PointStatus::Own(DriverStatus::Fault(msg))
            },
        }
    }

    /// `true` if this status represents a remote-reported per-point state.
    pub fn is_remote(&self) -> (res: bool)
        ensures
            res == remote_reported(self@),
    {
        match self {
            PointStatus::RemoteDisabled => true,
            PointStatus::RemoteDown => true,
            PointStatus::RemoteFault(_) => true,
            _ => false,
        }
    }
}

/// A remote-reported status is terminal: what the point shows does not depend
/// on the status of its driver.
pub proof fn remote_status_is_terminal(point: PointStatusView, d1: StatusView, d2: StatusView)
    requires
        remote_reported(point),
    ensures
        resolved(point, d1) == resolved(point, d2),
{
}

/// A point that cannot be reached, or that the device itself reports, gets a
/// remote-reported status; a local fault does not.
pub proof fn fault_status_is_remote_iff_remote_fault(e: (FaultKind, Seq<char>))
    ensures
        remote_reported(status_for_fault(e)) <==> (e.0 is RemoteStatus || e.0 is CommFault
            || e.0 is Timeout),
{
}

/// The status given to a point after a failed read never shows the point as
/// following its driver: it resolves the same under every driver status.
pub proof fn fault_status_is_independent_of_driver(
    e: (FaultKind, Seq<char>),
    d1: StatusView,
    d2: StatusView,
)
    ensures
        resolved(status_for_fault(e), d1) == resolved(status_for_fault(e), d2),
{
}

// ── Plain records ───────────────────────────────────────────

/// Whether no key occurs twice in a list of key/value pairs.
pub open spec fn distinct_keys(tags: Seq<(Seq<char>, Seq<char>)>) -> bool {
    forall|i: int, j: int|
        0 <= i < j < tags.len() ==> (#[trigger] tags[i]).0 != (#[trigger] tags[j]).0
}

/// Driver metadata returned when a driver is opened or pinged.
///
/// `extra` holds key/value pairs, no key twice.
#[derive(Debug)]
pub struct DriverMeta {
    pub firmware_version: Option<String>,
    pub model: Option<String>,
    pub extra: Vec<(String, String)>,
}

impl Default for DriverMeta {
    fn default() -> (res: Self)
        ensures
            res.firmware_version is None,
            res.model is None,
            res.extra@.len() == 0,
            distinct_keys(tags_view(res.extra@)),
    {
        DriverMeta { firmware_version: None, model: None, extra: Vec::new() }
    }
}

/// Point reference for batch operations.
#[derive(Debug, PartialEq, Eq)]
pub struct DriverPointRef {
    /// Channel/point ID.
    pub point_id: u32,
    /// Driver-specific address (e.g., "AIN0", "40001", "AI:1").
    pub address: String,
}

impl Clone for DriverPointRef {
    fn clone(&self) -> (res: Self)
        ensures
            res == *self,
    {
        DriverPointRef { point_id: self.point_id, address: self.address.clone() }
    }
}

/// The points to read from a driver.
#[derive(Debug)]
pub struct SyncRequest {
    pub driver_id: String,
    pub points: Vec<DriverPointRef>,
}

/// A discovered point.
///
/// `tags` holds key/value pairs, no key twice.
#[derive(Debug, PartialEq, Eq)]
pub struct LearnPoint {
    pub name: String,
    pub address: String,
    /// Point kind: "Number", "Bool", "Str".
    pub kind: String,
    pub unit: Option<String>,
    /// Additional metadata tags.
    pub tags: Vec<(String, String)>,
}

/// What a [`LearnPoint`] says.
pub struct LearnPointView {
    pub name: Seq<char>,
    pub address: Seq<char>,
    pub kind: Seq<char>,
    pub unit: Option<Seq<char>>,
    pub tags: Seq<(Seq<char>, Seq<char>)>,
}

/// What a list of tags says.
pub open spec fn tags_view(tags: Seq<(String, String)>) -> Seq<(Seq<char>, Seq<char>)> {
    tags.map_values(|t: (String, String)| (t.0@, t.1@))
}

impl View for LearnPoint {
    type V = LearnPointView;

    open spec fn view(&self) -> LearnPointView {
        LearnPointView {
            name: self.name@,
            address: self.address@,
            kind: self.kind@,
            unit: match self.unit {
                Some(u) => Some(u@),
                None => None,
            },
            tags: tags_view(self.tags@),
        }
    }
}

/// A list of tags with `key` set to `value`: in its place where there is such a
/// tag, at the end otherwise.
pub open spec fn tags_with(
    tags: Seq<(Seq<char>, Seq<char>)>,
    key: Seq<char>,
    value: Seq<char>,
) -> Seq<(Seq<char>, Seq<char>)>
    decreases tags.len(),
{
    if tags.len() == 0 {
        seq![(key, value)]
    } else if tags[0].0 == key {
        seq![(key, value)] + tags.skip(1)
    } else {
        seq![tags[0]] + tags_with(tags.skip(1), key, value)
    }
}

/// Setting a tag at the place of the first one with its key, or at the end.
proof fn lemma_tags_with(
    tags: Seq<(Seq<char>, Seq<char>)>,
    key: Seq<char>,
    value: Seq<char>,
    i: int,
)
    requires
        0 <= i <= tags.len(),
        forall|k: int| 0 <= k < i ==> (#[trigger] tags[k]).0 != key,
        i < tags.len() ==> tags[i].0 == key,
    ensures
        tags_with(tags, key, value) == if i < tags.len() {
            tags.update(i, (key, value))
        } else {
            tags.push((key, value))
        },
    decreases tags.len(),
{
    if tags.len() == 0 {
        assert(tags.push((key, value)) =~= seq![(key, value)]);
    } else if i == 0 {
        assert(tags.update(0, (key, value)) =~= seq![(key, value)] + tags.skip(1));
    } else {
        let rest = tags.skip(1);
        assert forall|k: int| 0 <= k < i - 1 implies (#[trigger] rest[k]).0 != key by {
            assert(rest[k] == tags[k + 1]);
        }
        assert(tags[0].0 != key);
        lemma_tags_with(rest, key, value, i - 1);
        if i < tags.len() {
            assert(tags.update(i, (key, value)) =~= seq![tags[0]] + rest.update(
                i - 1,
                (key, value),
            ));
        } else {
            assert(tags.push((key, value)) =~= seq![tags[0]] + rest.push((key, value)));
        }
    }
}

impl LearnPoint {
    /// Set a tag. A tag with the same key is replaced.
    pub fn set_tag(&mut self, key: String, value: String)
        ensures
            final(self)@ == (LearnPointView {
                tags: tags_with(old(self)@.tags, key@, value@),
                ..old(self)@
            }),
            distinct_keys(old(self)@.tags) ==> distinct_keys(final(self)@.tags),
    {
        let ghost before = self@.tags;
        let ghost entry = (key@, value@);
        let mut i: usize = 0;
        while i < self.tags.len()
            invariant
                i <= self.tags@.len(),
                *self == *old(self),
                before == tags_view(self.tags@),
                entry == (key@, value@),
                forall|k: int| 0 <= k < i ==> (#[trigger] before[k]).0 != key@,
            decreases self.tags@.len() - i,
        {
            if self.tags[i].0 == key {
                proof {
                    assert(before[i as int].0 == key@);
                    lemma_tags_with(before, key@, value@, i as int);
                }
                self.tags.set(i, (key, value));
                assert(self@.tags =~= before.update(i as int, entry));
                return;
            }
            i += 1;
        }
        proof {
            lemma_tags_with(before, key@, value@, i as int);
        }
        self.tags.push((key, value));
        assert(self@.tags =~= before.push(entry));
    }

    /// The value of the first tag named `key`.
    pub fn tag(&self, key: &str) -> (res: Option<&String>)
        ensures
            match res {
                Some(v) => exists|i: int|
                    0 <= i < self@.tags.len() && #[trigger] self@.tags[i] == (key@, v@) && (
                    forall|j: int| 0 <= j < i ==> (#[trigger] self@.tags[j]).0 != key@),
                None => forall|j: int|
                    0 <= j < self@.tags.len() ==> (#[trigger] self@.tags[j]).0 != key@,
            },
    {
        let wanted: String = text(key);
        let mut i: usize = 0;
        while i < self.tags.len()
            invariant
                i <= self.tags@.len(),
                wanted@ == key@,
                forall|j: int| 0 <= j < i ==> (#[trigger] self@.tags[j]).0 != key@,
            decreases self.tags@.len() - i,
        {
            if self.tags[i].0 == wanted {
                assert(self@.tags[i as int] == (key@, self.tags@[i as int].1@));
                return Some(&self.tags[i].1);
            }
            i += 1;
        }
        None
    }
}

/// Poll configuration mode.
#[derive(Debug, Clone, Copy, PartialEq, Eq, Structural)]
pub enum PollMode {
    /// Automatic bucket-based polling (default).
    Buckets,
    /// Manual polling (driver controls timing).
    Manual,
}

impl PollMode {
    /// The mode's name.
    pub fn label(&self) -> (res: &'static str)
        ensures
            res@ == match *self {
                PollMode::Buckets => "Buckets"@,
                PollMode::Manual => "Manual"@,
            },
    {
        match self {
            PollMode::Buckets => "Buckets",
            PollMode::Manual => "Manual",
        }
    }
}

/// Summary info for a driver.
#[derive(Debug)]
pub struct DriverSummary {
    pub id: String,
    pub driver_type: String,
    pub status: DriverStatus,
    pub poll_mode: String,
    /// Number of poll buckets assigned to this driver.
    pub poll_buckets: usize,
    /// Total number of points across all poll buckets.
    pub poll_points: usize,
}

// ── Driver-specific messages ────────────────────────────────

/// A driver-specific custom message.
///
/// Lets a consumer send a command to a specific driver. Request and response
/// share this shape: drivers answer with a message with a matching or
/// well-known `id` and any response payload.
#[derive(Debug)]
pub struct DriverMessage {
    /// Message-type identifier (e.g. `"whoIs"`, `"reconnect"`, `"stats"`).
    /// Drivers decide their own vocabulary; unknown identifiers are answered
    /// with [`DriverError::NotSupported`].
    pub id: String,
    /// Driver-specific payload. An empty object is valid when the identifier
    /// alone says everything.
    pub payload: Json,
}

impl DriverMessage {
    /// Construct a message with an identifier and an empty payload.
    pub fn new(id: &str) -> (res: Self)
        ensures
            res.id@ == id@,
            res.payload matches Json::Object(members) && members@.len() == 0,
    {
        DriverMessage { id: text(id), payload: Json::Object(Vec::new()) }
    }

    /// Construct a message with an identifier and a payload.
    pub fn with_payload(id: &str, payload: Json) -> (res: Self)
        ensures
            res.id@ == id@,
            res.payload == payload,
    {
        DriverMessage { id: text(id), payload }
    }
}

// ── Result collectors ───────────────────────────────────────

/// Result collector that drivers fill while reading: one entry per point, in
/// the order in which the entries were recorded.
#[derive(Debug)]
pub struct SyncContext<T> {
    results: Vec<(u32, Result<T, DriverError>)>,
}

impl<T> View for SyncContext<T> {
    type V = Seq<(u32, Result<T, DriverError>)>;

    closed spec fn view(&self) -> Seq<(u32, Result<T, DriverError>)> {
        self.results@
    }
}

impl<T> SyncContext<T> {
    /// Create a new, empty sync context.
    pub fn new() -> (res: Self)
        ensures
            res@.len() == 0,
    {
        SyncContext { results: Vec::new() }
    }

    /// Pre-size the internal buffer for a known batch size.
    pub fn with_capacity(cap: usize) -> (res: Self)
        ensures
            res@.len() == 0,
    {
        SyncContext { results: Vec::with_capacity(cap) }
    }

    /// Record a successful read.
    pub fn update_cur_ok(&mut self, point_id: u32, value: T)
        ensures
            final(self)@ == old(self)@.push((point_id, Ok(value))),
    {
        self.results.push((point_id, Ok(value)));
    }

    /// Record a failed read.
    pub fn update_cur_err(&mut self, point_id: u32, err: DriverError)
        ensures
            final(self)@ == old(self)@.push((point_id, Err(err))),
    {
        self.results.push((point_id, Err(err)));
    }

    /// Consume the context and return the collected results.
    pub fn into_results(self) -> (res: Vec<(u32, Result<T, DriverError>)>)
        ensures
            res@ == self@,
    {
        self.results
    }

    /// Borrow the collected results.
    pub fn results(&self) -> (res: &[(u32, Result<T, DriverError>)])
        ensures
            res@ == self@,
    {
        self.results.as_slice()
    }
}

/// Result collector that drivers fill while writing: one entry per point, in
/// the order in which the entries were recorded.
#[derive(Debug)]
pub struct WriteContext {
    results: Vec<(u32, Result<(), DriverError>)>,
}

impl View for WriteContext {
    type V = Seq<(u32, Result<(), DriverError>)>;

    closed spec fn view(&self) -> Seq<(u32, Result<(), DriverError>)> {
        self.results@
    }
}

impl WriteContext {
    /// Create a new, empty write context.
    pub fn new() -> (res: Self)
        ensures
            res@.len() == 0,
    {
        WriteContext { results: Vec::new() }
    }

    /// Pre-size the internal buffer for a known batch size.
    pub fn with_capacity(cap: usize) -> (res: Self)
        ensures
            res@.len() == 0,
    {
        WriteContext { results: Vec::with_capacity(cap) }
    }

    /// Record a successful write.
    pub fn update_write_ok(&mut self, point_id: u32)
        ensures
            final(self)@ == old(self)@.push((point_id, Ok(()))),
    {
        self.results.push((point_id, Ok(())));
    }

    /// Record a failed write.
    pub fn update_write_err(&mut self, point_id: u32, err: DriverError)
        ensures
            final(self)@ == old(self)@.push((point_id, Err(err))),
    {
        self.results.push((point_id, Err(err)));
    }

    /// Consume the context and return the collected results.
    pub fn into_results(self) -> (res: Vec<(u32, Result<(), DriverError>)>)
        ensures
            res@ == self@,
    {
        self.results
    }

    /// Borrow the collected results.
    pub fn results(&self) -> (res: &[(u32, Result<(), DriverError>)])
        ensures
            res@ == self@,
    {
        self.results.as_slice()
    }
}

// ── Laws ────────────────────────────────────────────────────

/// A point that inherits shows the status of its driver, one with a status of
/// its own shows that, and what the remote side reported is shown as such.
pub proof fn point_shows_its_own_status_first(driver: StatusView, s: StatusView, msg: Seq<char>)
    ensures
        resolved(PointStatusView::Inherited, driver) == driver,
        resolved(PointStatusView::Own(s), driver) == s,
        resolved(PointStatusView::RemoteDisabled, driver) == StatusView::Disabled,
        resolved(PointStatusView::RemoteDown, driver) == StatusView::Down,
        resolved(PointStatusView::RemoteFault(msg), driver) == StatusView::Fault(msg),
{
}

/// What a failed read makes of a point: the remote side is down if it does not
/// answer, its fault is its own message, and any other failure is a fault of
/// the point.
pub proof fn failure_tells_the_status(kind: FaultKind, msg: Seq<char>, driver: StatusView)
    ensures
        resolved(status_for_fault((kind, msg)), driver) == match kind {
            FaultKind::CommFault => StatusView::Down,
            FaultKind::Timeout => StatusView::Down,
            FaultKind::NotSupported => StatusView::Fault("not supported: "@ + msg),
            FaultKind::ConfigFault
            | FaultKind::RemoteStatus
            | FaultKind::Internal
            | FaultKind::HardwareNotFound => StatusView::Fault(msg),
        },
{
}

/// The text of an error ends with its message, and begins with the words for
/// its kind.
pub proof fn error_text_tells_kind_and_message(msg: Seq<char>)
    ensures
        fault_text((FaultKind::ConfigFault, msg)) == "config fault: "@ + msg,
        fault_text((FaultKind::CommFault, msg)) == "comm fault: "@ + msg,
        fault_text((FaultKind::NotSupported, msg)) == "not supported: "@ + msg,
        fault_text((FaultKind::RemoteStatus, msg)) == "remote status: "@ + msg,
        fault_text((FaultKind::Timeout, msg)) == "timeout: "@ + msg,
        fault_text((FaultKind::Internal, msg)) == "internal error: "@ + msg,
        fault_text((FaultKind::HardwareNotFound, msg)) == "hardware not found: "@ + msg,
{
}

/// Each status has its own word.
pub proof fn status_text_tells_the_status(msg: Seq<char>)
    ensures
        status_text(StatusView::Pending) == "pending"@,
        status_text(StatusView::Running) == "ok"@,
        status_text(StatusView::Stale) == "stale"@,
        status_text(StatusView::Fault(msg)) == "fault: "@ + msg,
        status_text(StatusView::Disabled) == "disabled"@,
        status_text(StatusView::Down) == "down"@,
        status_text(StatusView::Syncing) == "syncing"@,
{
}

/// An error is of the kind of its variant and carries the variant's text.
pub proof fn error_is_seen_as_its_kind(msg: String, feature: &'static str)
    ensures
        DriverError::ConfigFault(msg)@ == (FaultKind::ConfigFault, msg@),
        DriverError::CommFault(msg)@ == (FaultKind::CommFault, msg@),
        DriverError::NotSupported(feature)@ == (FaultKind::NotSupported, feature@),
        DriverError::RemoteStatus(msg)@ == (FaultKind::RemoteStatus, msg@),
        DriverError::Timeout(msg)@ == (FaultKind::Timeout, msg@),
        DriverError::Internal(msg)@ == (FaultKind::Internal, msg@),
        DriverError::HardwareNotFound(msg)@ == (FaultKind::HardwareNotFound, msg@),
{
}

/// Outcomes are seen in order, each with its own point, value and error.
pub proof fn outcomes_are_seen_in_order<T>(s: Seq<(u32, Result<T, DriverError>)>, i: int)
    requires
        0 <= i < s.len(),
    ensures
        outcomes_view(s).len() == s.len(),
        outcomes_view(s)[i].0 == s[i].0,
        s[i].1 matches Ok(v) ==> (outcomes_view(s)[i].1 matches Ok(w) && w == v),
        s[i].1 matches Err(e) ==> (outcomes_view(s)[i].1 matches Err(f) && f == e@),
{
}

/// Setting a tag gives its key that value, once, and leaves every other tag in
/// its place.
pub proof fn set_tag_is_found(
    tags: Seq<(Seq<char>, Seq<char>)>,
    key: Seq<char>,
    value: Seq<char>,
)
    ensures
        ({
            let after = tags_with(tags, key, value);
            &&& after.contains((key, value))
            &&& tags.len() <= after.len() <= tags.len() + 1
            &&& after.len() == tags.len() + 1 <==> forall|i: int|
                0 <= i < tags.len() ==> (#[trigger] tags[i]).0 != key
            &&& forall|i: int|
                0 <= i < tags.len() && (#[trigger] tags[i]).0 != key ==> after[i] == tags[i]
            &&& forall|i: int|
                0 <= i < tags.len() ==> (#[trigger] after[i]).0 == tags[i].0
        }),
    decreases tags.len(),
{
    let after = tags_with(tags, key, value);
    if tags.len() == 0 || tags[0].0 == key {
        assert(after[0] == (key, value));
        assert forall|i: int| 0 < i < tags.len() implies #[trigger] after[i] == tags[i] by {}
    } else {
        let rest = tags.skip(1);
        let later = tags_with(rest, key, value);
        set_tag_is_found(rest, key, value);
        assert(after == seq![tags[0]] + later);
        let k = choose|k: int| 0 <= k < later.len() && later[k] == (key, value);
        assert(after[k + 1] == (key, value));
        assert forall|i: int| 0 <= i < tags.len() implies (#[trigger] after[i]).0 == tags[i].0
            && (tags[i].0 != key ==> after[i] == tags[i]) by {
            if i > 0 {
                assert(rest[i - 1] == tags[i]);
                assert(after[i] == later[i - 1]);
            }
        }
        if after.len() == tags.len() + 1 {
            assert forall|i: int| 0 <= i < tags.len() implies (#[trigger] tags[i]).0 != key by {
                if i > 0 {
                    assert(rest[i - 1] == tags[i]);
                }
            }
        }
        if forall|i: int| 0 <= i < tags.len() ==> (#[trigger] tags[i]).0 != key {
            assert forall|i: int| 0 <= i < rest.len() implies (#[trigger] rest[i]).0 != key by {
                assert(rest[i] == tags[i + 1]);
            }
        }
    }
}

} // verus!
