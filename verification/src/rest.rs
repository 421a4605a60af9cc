//! The rules of the REST interface: how request bodies are read, and with
//! which status and message a failed request is answered.

use vstd::prelude::*;
use vstd::string::*;

use crate::driver::{fault_text, DriverError, DriverPointRef, FaultKind, SyncRequest};
use crate::json::{double_of, member, text_of, unsigned_of, Json};
use crate::text::{joined, mentions, occurs, text};

verus! {

/// The request succeeded and made something.
pub const CREATED: u16 = 201;

/// The request body cannot be read.
pub const BAD_REQUEST: u16 = 400;

/// The driver is not registered.
pub const NOT_FOUND: u16 = 404;

/// The driver is registered already.
pub const CONFLICT: u16 = 409;

/// The driver or the manager failed.
pub const INTERNAL_SERVER_ERROR: u16 = 500;

/// The driver does not do this.
pub const NOT_IMPLEMENTED: u16 = 501;

/// The driver does not answer.
pub const SERVICE_UNAVAILABLE: u16 = 503;

/// The answer to a request that failed: an HTTP status and the text of the
/// `error` member of the response body.
#[derive(Debug, PartialEq, Eq)]
pub struct Refusal {
    pub status: u16,
    pub error: String,
}

impl View for Refusal {
    type V = (u16, Seq<char>);

    open spec fn view(&self) -> (u16, Seq<char>) {
        (self.status, self.error@)
    }
}

/// Refuse a request.
fn refuse(status: u16, error: &str) -> (res: Refusal)
    ensures
        res@ == (status, error@),
{
    Refusal { status, error: text(error) }
}

// ── Failures of the manager ─────────────────────────────────

/// Whether an error says that the driver is not registered.
pub open spec fn says_not_found(e: (FaultKind, Seq<char>)) -> bool {
    e.0 == FaultKind::ConfigFault && occurs("not found"@, e.1)
}

/// The answer to a request for a driver that fails: a driver that is not
/// registered is answered with the bare message, anything else with `otherwise`
/// and the text of the error.
pub open spec fn driver_refusal(e: (FaultKind, Seq<char>), otherwise: u16) -> (u16, Seq<char>) {
    if says_not_found(e) {
        (NOT_FOUND, e.1)
    } else {
        (otherwise, fault_text(e))
    }
}

/// Any failure, with a given status.
fn failed(err: &DriverError, status: u16) -> (res: Refusal)
    ensures
        res@ == (status, fault_text(err@)),
{
    Refusal { status, error: err.to_string() }
}

/// A failure that may be that the driver is not registered.
fn refused_by_driver(err: &DriverError, otherwise: u16) -> (res: Refusal)
    ensures
        res@ == driver_refusal(err@, otherwise),
{
    if let DriverError::ConfigFault(msg) = err {
        if mentions(msg.as_str(), "not found") {
            return Refusal { status: NOT_FOUND, error: msg.clone() };
        }
    }
    failed(err, otherwise)
}

/// The manager failed to list, inspect, remove or read drivers.
pub fn manager_failed(err: &DriverError) -> (res: Refusal)
    ensures
        res@ == (INTERNAL_SERVER_ERROR, fault_text(err@)),
{
    failed(err, INTERNAL_SERVER_ERROR)
}

/// A driver could not be registered.
pub fn create_failed(err: &DriverError) -> (res: Refusal)
    ensures
        res@ == (CONFLICT, fault_text(err@)),
{
    failed(err, CONFLICT)
}

/// A driver could not be opened or closed.
pub fn lifecycle_failed(err: &DriverError) -> (res: Refusal)
    ensures
        res@ == driver_refusal(err@, INTERNAL_SERVER_ERROR),
{
    refused_by_driver(err, INTERNAL_SERVER_ERROR)
}

/// A driver failed its health check.
pub fn ping_failed(err: &DriverError) -> (res: Refusal)
    ensures
        res@ == driver_refusal(err@, SERVICE_UNAVAILABLE),
{
    refused_by_driver(err, SERVICE_UNAVAILABLE)
}

/// A driver could not discover its points.
pub fn learn_failed(err: &DriverError) -> (res: Refusal)
    ensures
        res@ == if err@.0 == FaultKind::NotSupported {
            (NOT_IMPLEMENTED, "learn not supported by this driver"@)
        } else {
            (INTERNAL_SERVER_ERROR, fault_text(err@))
        },
{
    match err {
        DriverError::NotSupported(_) => refuse(
            NOT_IMPLEMENTED,
            "learn not supported by this driver",
        ),
        _ => failed(err, INTERNAL_SERVER_ERROR),
    }
}

/// A write did not reach a driver.
pub fn write_failed(err: &DriverError) -> (res: Refusal)
    ensures
        res@ == (NOT_FOUND, fault_text(err@)),
{
    failed(err, NOT_FOUND)
}

/// A driver refused a custom message.
pub fn message_failed(err: &DriverError) -> (res: Refusal)
    ensures
        res@ == if err@.0 == FaultKind::NotSupported {
            (NOT_IMPLEMENTED, "not supported: "@ + err@.1)
        } else {
            driver_refusal(err@, INTERNAL_SERVER_ERROR)
        },
{
    match err {
        DriverError::NotSupported(feature) => {
            Refusal { status: NOT_IMPLEMENTED, error: joined("not supported: ", feature) }
        },
        _ => refused_by_driver(err, INTERNAL_SERVER_ERROR),
    }
}

/// The driver of a request is not registered.
pub fn driver_not_found(id: &str) -> (res: Refusal)
    ensures
        res@ == (NOT_FOUND, "driver '"@ + id@ + "' not found"@),
{
    let mut error: String = joined("driver '", id);
    error.append("' not found");
    Refusal { status: NOT_FOUND, error }
}

/// The body of a message request does not describe a message.
pub fn invalid_message(reason: &str) -> (res: Refusal)
    ensures
        res@ == (BAD_REQUEST, "invalid DriverMessage: "@ + reason@),
{
    Refusal { status: BAD_REQUEST, error: joined("invalid DriverMessage: ", reason) }
}

// ── Creating a driver ───────────────────────────────────────

/// The driver types that can be created while running.
#[derive(Debug, PartialEq, Eq, Structural, Clone, Copy)]
pub enum DriverKind {
    Bacnet,
    Mqtt,
}

/// The kind of driver that a type name stands for.
pub open spec fn kind_of(driver_type: Seq<char>) -> Option<DriverKind> {
    if driver_type == "bacnet"@ {
        Some(DriverKind::Bacnet)
    } else if driver_type == "mqtt"@ {
        Some(DriverKind::Mqtt)
    } else {
        None
    }
}

/// Read a request to create a driver: its type name and its configuration.
pub fn parse_create(body: &Json) -> (res: Result<(&String, &Json), Refusal>)
    ensures
        match member(*body, "driver_type"@) {
            Some(Json::Text(driver_type)) => match member(*body, "config"@) {
                Some(config) => res == Ok::<(&String, &Json), Refusal>((&driver_type, &config)),
                None => res matches Err(r) && r@ == (BAD_REQUEST, "missing 'config'"@),
            },
            _ => res matches Err(r) && r@ == (
                BAD_REQUEST,
                "missing or non-string 'driver_type'"@,
            ),
        },
{
    let driver_type: &String = match body.get("driver_type") {
        Some(v) => match v.as_text() {
            Some(s) => s,
            None => {
                return Err(refuse(BAD_REQUEST, "missing or non-string 'driver_type'"));
            },
        },
        None => {
            return Err(refuse(BAD_REQUEST, "missing or non-string 'driver_type'"));
        },
    };
    match body.get("config") {
        Some(config) => Ok((driver_type, config)),
        None => Err(refuse(BAD_REQUEST, "missing 'config'")),
    }
}

/// Decide which kind of driver to build.
pub fn driver_kind(driver_type: &str) -> (res: Result<DriverKind, Refusal>)
    ensures
        match kind_of(driver_type@) {
            Some(kind) => res == Ok::<DriverKind, Refusal>(kind),
            None => res matches Err(r) && r@ == (
                BAD_REQUEST,
                "unknown driver_type '"@ + driver_type@ + "'"@,
            ),
        },
{
    let name: String = text(driver_type);
    proof {
        reveal_strlit("bacnet");
        reveal_strlit("mqtt");
    }
    if name == text("bacnet") {
        Ok(DriverKind::Bacnet)
    } else if name == text("mqtt") {
        Ok(DriverKind::Mqtt)
    } else {
        let mut error: String = joined("unknown driver_type '", driver_type);
        error.append("'");
        Err(Refusal { status: BAD_REQUEST, error })
    }
}

/// The configuration of a driver to create cannot be read.
pub fn invalid_config(kind: DriverKind, reason: &str) -> (res: Refusal)
    ensures
        res@ == (
            BAD_REQUEST,
            match kind {
                DriverKind::Bacnet => "invalid bacnet config: "@,
                DriverKind::Mqtt => "invalid mqtt config: "@,
            } + reason@,
        ),
{
    match kind {
        DriverKind::Bacnet => Refusal {
            status: BAD_REQUEST,
            error: joined("invalid bacnet config: ", reason),
        },
        DriverKind::Mqtt => Refusal {
            status: BAD_REQUEST,
            error: joined("invalid mqtt config: ", reason),
        },
    }
}

// ── Writing points ──────────────────────────────────────────

/// The write that an item of a request asks for: a pair of a point and a
/// value. The point is taken modulo 2^32. Other items ask for nothing.
pub open spec fn write_of(item: Json) -> Option<(u32, u64)> {
    match item {
        Json::List(pair) => if pair@.len() == 2 {
            match (unsigned_of(pair@[0]), double_of(pair@[1])) {
                (Some(id), Some(bits)) => Some(((id % 0x1_0000_0000) as u32, bits)),
                _ => None,
            }
        } else {
            None
        },
        _ => None,
    }
}

/// The writes that the items of a request ask for, in order.
pub open spec fn writes_of(items: Seq<Json>) -> Seq<(u32, u64)>
    decreases items.len(),
{
    if items.len() == 0 {
        Seq::empty()
    } else {
        match write_of(items.last()) {
            Some(w) => writes_of(items.drop_last()).push(w),
            None => writes_of(items.drop_last()),
        }
    }
}

/// Read one item of a request to write points.
fn parse_write(item: &Json) -> (res: Option<(u32, u64)>)
    ensures
        res == write_of(*item),
{
    match item.as_list() {
        Some(pair) => {
            if pair.len() != 2 {
                return None;
            }
            match (pair[0].as_unsigned(), pair[1].as_double()) {
                (Some(id), Some(bits)) => Some(((id % 0x1_0000_0000) as u32, bits)),
                _ => None,
            }
        },
        None => None,
    }
}

/// Read a request to write points: `{"writes": [[pointId, value], ...]}`.
/// Items that are not such pairs are skipped.
pub fn parse_writes(body: &Json) -> (res: Result<Vec<(u32, u64)>, Refusal>)
    ensures
        match member(*body, "writes"@) {
            Some(Json::List(items)) => res matches Ok(w) && w@ == writes_of(items@),
            _ => res matches Err(r) && r@ == (
                BAD_REQUEST,
                "expected {\"writes\": [[pointId, value], ...]}"@,
            ),
        },
{
    let items: &Vec<Json> = match body.get("writes") {
        Some(v) => match v.as_list() {
            Some(items) => items,
            None => {
                return Err(
                    refuse(BAD_REQUEST, "expected {\"writes\": [[pointId, value], ...]}"),
                );
            },
        },
        None => {
            return Err(refuse(BAD_REQUEST, "expected {\"writes\": [[pointId, value], ...]}"));
        },
    };
    let mut out: Vec<(u32, u64)> = Vec::new();
    let mut i: usize = 0;
    assert(items@.subrange(0, 0) =~= Seq::empty());
    while i < items.len()
        invariant
            i <= items@.len(),
            out@ == writes_of(items@.subrange(0, i as int)),
        decreases items@.len() - i,
    {
        assert(items@.subrange(0, i + 1).drop_last() =~= items@.subrange(0, i as int));
        assert(items@.subrange(0, i + 1).last() == items@[i as int]);
        if let Some(w) = parse_write(&items[i]) {
            out.push(w);
        }
        i += 1;
    }
    assert(items@.subrange(0, i as int) =~= items@);
    Ok(out)
}

/// What is answered for one write: the point, and the error if it failed.
#[derive(Debug, PartialEq, Eq)]
pub struct WriteRow {
    pub point_id: u32,
    pub error: Option<String>,
}

/// Whether a row tells the outcome of a write.
pub open spec fn tells_write(
    row: WriteRow,
    point_id: u32,
    outcome: Result<(), DriverError>,
) -> bool {
    &&& row.point_id == point_id
    &&& match outcome {
        Ok(_) => row.error is None,
        Err(e) => row.error matches Some(s) && s@ == fault_text(e@),
    }
}

/// The rows of the answer to a request to write points.
pub fn write_rows(results: &[(u32, Result<(), DriverError>)]) -> (out: Vec<WriteRow>)
    ensures
        out@.len() == results@.len(),
        forall|i: int|
            0 <= i < out@.len() ==> tells_write(
                #[trigger] out@[i],
                results@[i].0,
                results@[i].1,
            ),
{
    let mut out: Vec<WriteRow> = Vec::new();
    let mut i: usize = 0;
    while i < results.len()
        invariant
            i <= results@.len(),
            out@.len() == i,
            forall|k: int|
                0 <= k < i ==> tells_write(#[trigger] out@[k], results@[k].0, results@[k].1),
        decreases results@.len() - i,
    {
        let error: Option<String> = match &results[i].1 {
            Ok(_) => None,
            Err(e) => Some(e.to_string()),
        };
        out.push(WriteRow { point_id: results[i].0, error });
        i += 1;
    }
    out
}

// ── Reading points ──────────────────────────────────────────

/// The point that an item of a request names, and its address. The point is
/// taken modulo 2^32.
pub open spec fn point_of(item: Json) -> Option<(u32, Seq<char>)> {
    match (member(item, "pointId"@), member(item, "address"@)) {
        (Some(id), Some(address)) => match (unsigned_of(id), text_of(address)) {
            (Some(n), Some(a)) => Some(((n % 0x1_0000_0000) as u32, a)),
            _ => None,
        },
        _ => None,
    }
}

/// What is wrong with the entry of a driver, if anything.
pub open spec fn entry_fault(entry: (String, Json)) -> Option<Seq<char>> {
    match entry.1 {
        Json::List(items) => if forall|i: int|
            0 <= i < items@.len() ==> point_of(#[trigger] items@[i]) is Some {
            None
        } else {
            Some("each point entry requires pointId (u32) and address (string)"@)
        },
        _ => Some("'"@ + entry.0@ + "' value must be an array"@),
    }
}

/// Whether references are those of the items of an entry.
pub open spec fn refs_match(refs: Seq<DriverPointRef>, items: Seq<Json>) -> bool {
    &&& refs.len() == items.len()
    &&& forall|i: int|
        0 <= i < refs.len() ==> point_of(items[i]) == Some(
            ((#[trigger] refs[i]).point_id, refs[i].address@),
        )
}

/// Read one item of a request to read points.
fn parse_point(item: &Json) -> (res: Option<DriverPointRef>)
    ensures
        match res {
            Some(r) => point_of(*item) == Some((r.point_id, r.address@)),
            None => point_of(*item) is None,
        },
{
    match (item.get("pointId"), item.get("address")) {
        (Some(id), Some(address)) => match (id.as_unsigned(), address.as_text()) {
            (Some(n), Some(a)) => Some(
                DriverPointRef { point_id: (n % 0x1_0000_0000) as u32, address: a.clone() },
            ),
            _ => None,
        },
        _ => None,
    }
}

/// Read the entry of one driver in a request to read points.
fn parse_entry(entry: &(String, Json)) -> (res: Result<SyncRequest, Refusal>)
    ensures
        match res {
            Ok(req) => entry_fault(*entry) is None && req.driver_id@ == entry.0@ && (
            entry.1 matches Json::List(items) && refs_match(req.points@, items@)),
            Err(r) => entry_fault(*entry) matches Some(msg) && r@ == (BAD_REQUEST, msg),
        },
{
    match entry.1.as_list() {
        Some(items) => {
            let mut points: Vec<DriverPointRef> = Vec::new();
            let mut i: usize = 0;
            while i < items.len()
                invariant
                    i <= items@.len(),
                    entry.1 == Json::List(*items),
                    points@.len() == i,
                    forall|k: int|
                        0 <= k < i ==> point_of(items@[k]) == Some(
                            ((#[trigger] points@[k]).point_id, points@[k].address@),
                        ),
                decreases items@.len() - i,
            {
                match parse_point(&items[i]) {
                    Some(r) => {
                        points.push(r);
                    },
                    None => {
                        assert(point_of(items@[i as int]) is None);
                        return Err(
                            refuse(
                                BAD_REQUEST,
                                "each point entry requires pointId (u32) and address (string)",
                            ),
                        );
                    },
                }
                i += 1;
            }
            assert forall|k: int| 0 <= k < items@.len() implies point_of(
                #[trigger] items@[k],
            ) is Some by {
                assert(point_of(items@[k]) == Some((points@[k].point_id, points@[k].address@)));
            }
            Ok(SyncRequest { driver_id: entry.0.clone(), points })
        },
        None => {
            let mut error: String = joined("'", entry.0.as_str());
            error.append("' value must be an array");
            Err(Refusal { status: BAD_REQUEST, error })
        },
    }
}

/// Read a request to read points:
/// `{"driverPoints": {driverId: [{"pointId": .., "address": ..}, ...], ...}}`.
/// The first entry that is not of this form decides the answer.
pub fn parse_sync(body: &Json) -> (res: Result<Vec<SyncRequest>, Refusal>)
    ensures
        match member(*body, "driverPoints"@) {
            Some(Json::Object(entries)) => match res {
                Ok(reqs) => {
                    &&& reqs@.len() == entries@.len()
                    &&& forall|i: int|
                        0 <= i < entries@.len() ==> entry_fault(#[trigger] entries@[i]) is None
                    &&& forall|i: int|
                        0 <= i < reqs@.len() ==> (#[trigger] reqs@[i]).driver_id@
                            == entries@[i].0@ && (entries@[i].1 matches Json::List(items)
                            && refs_match(reqs@[i].points@, items@))
                },
                Err(r) => exists|i: int|
                    0 <= i < entries@.len() && entry_fault(#[trigger] entries@[i]) == Some(r@.1)
                        && r@.0 == BAD_REQUEST && forall|j: int|
                        0 <= j < i ==> entry_fault(#[trigger] entries@[j]) is None,
            },
            _ => res matches Err(r) && r@ == (BAD_REQUEST, "missing 'driverPoints' object"@),
        },
{
    let entries: &Vec<(String, Json)> = match body.get("driverPoints") {
        Some(v) => match v.as_object() {
            Some(entries) => entries,
            None => {
                return Err(refuse(BAD_REQUEST, "missing 'driverPoints' object"));
            },
        },
        None => {
            return Err(refuse(BAD_REQUEST, "missing 'driverPoints' object"));
        },
    };
    let mut reqs: Vec<SyncRequest> = Vec::new();
    let mut i: usize = 0;
    while i < entries.len()
        invariant
            i <= entries@.len(),
            member(*body, "driverPoints"@) == Some(Json::Object(*entries)),
            reqs@.len() == i,
            forall|k: int| 0 <= k < i ==> entry_fault(#[trigger] entries@[k]) is None,
            forall|k: int|
                0 <= k < i ==> (#[trigger] reqs@[k]).driver_id@ == entries@[k].0@ && (
                entries@[k].1 matches Json::List(items) && refs_match(
                    reqs@[k].points@,
                    items@,
                )),
        decreases entries@.len() - i,
    {
        match parse_entry(&entries[i]) {
            Ok(req) => {
                reqs.push(req);
            },
            Err(r) => {
                assert(entry_fault(entries@[i as int]) == Some(r@.1));
                return Err(r);
            },
        }
        i += 1;
    }
    Ok(reqs)
}

/// What is answered for one point that was read: the bits of its value, or the
/// error.
#[derive(Debug, PartialEq, Eq)]
pub struct SyncRow {
    pub driver_id: String,
    pub point_id: u32,
    pub outcome: Result<u64, String>,
}

/// Whether a row tells the outcome of a read.
pub open spec fn tells_read(row: SyncRow, read: (String, u32, Result<u64, DriverError>)) -> bool {
    &&& row.driver_id@ == read.0@
    &&& row.point_id == read.1
    &&& match read.2 {
        Ok(bits) => row.outcome == Ok::<u64, String>(bits),
        Err(e) => row.outcome matches Err(s) && s@ == fault_text(e@),
    }
}

/// The rows of the answer to a request to read points.
pub fn sync_rows(results: &[(String, u32, Result<u64, DriverError>)]) -> (out: Vec<SyncRow>)
    ensures
        out@.len() == results@.len(),
        forall|i: int| 0 <= i < out@.len() ==> tells_read(#[trigger] out@[i], results@[i]),
{
    let mut out: Vec<SyncRow> = Vec::new();
    let mut i: usize = 0;
    while i < results.len()
        invariant
            i <= results@.len(),
            out@.len() == i,
            forall|k: int| 0 <= k < i ==> tells_read(#[trigger] out@[k], results@[k]),
        decreases results@.len() - i,
    {
        let outcome: Result<u64, String> = match &results[i].2 {
            Ok(bits) => Ok(*bits),
            Err(e) => Err(e.to_string()),
        };
        out.push(
            SyncRow { driver_id: results[i].0.clone(), point_id: results[i].1, outcome },
        );
        i += 1;
    }
    out
}

// ── Laws ────────────────────────────────────────────────────

/// Opening and closing a driver that is not registered, its health check and
/// messages to it are answered with 404 and the bare message, which names it.
pub proof fn unknown_driver_is_not_found(id: Seq<char>)
    ensures
        ({
            let e = crate::manager::unknown_driver(id);
            &&& driver_refusal(e, INTERNAL_SERVER_ERROR) == (NOT_FOUND, e.1)
            &&& driver_refusal(e, SERVICE_UNAVAILABLE) == (NOT_FOUND, e.1)
            &&& occurs(id, e.1)
        }),
{
    let e = crate::manager::unknown_driver(id);
    let head = "driver '"@ + id;
    let tail = "' not found"@;
    reveal_strlit("' not found");
    reveal_strlit("not found");
    reveal_strlit("driver '");
    let i: int = head.len() + 2int;
    assert(e.1.subrange(i, i + "not found"@.len()) =~= "not found"@);
    assert(e.1.subrange(8int, 8int + id.len()) =~= id);
}

/// Items that are not pairs of a point and a value do not disturb the others:
/// the writes of two lists in a row are those of the first, then those of the
/// second.
pub proof fn writes_follow_items(a: Seq<Json>, b: Seq<Json>)
    ensures
        writes_of(a + b) == writes_of(a) + writes_of(b),
    decreases b.len(),
{
    if b.len() == 0 {
        assert(a + b =~= a);
        assert(writes_of(a) + writes_of(b) =~= writes_of(a));
    } else {
        assert((a + b).drop_last() =~= a + b.drop_last());
        assert((a + b).last() == b.last());
        writes_follow_items(a, b.drop_last());
        assert(writes_of(a + b) =~= writes_of(a) + writes_of(b));
    }
}

/// A write is asked for by a pair of a point and a value and by nothing else:
/// the value goes to that point.
pub proof fn write_is_a_point_and_a_value(pair: Vec<Json>, id: u64, bits: u64)
    requires
        pair@.len() == 2,
        pair@[0] matches Json::Number(n) && n.unsigned == Some(id),
        pair@[1] matches Json::Number(n) && n.bits == bits,
    ensures
        write_of(Json::List(pair)) matches Some(w) && w.1 == bits && w.0 == id % 0x1_0000_0000,
        id <= u32::MAX ==> (write_of(Json::List(pair)) matches Some(w) && w.0 == id),
{
}

/// Items of another form ask for no write.
pub proof fn other_items_ask_for_no_write(item: Json)
    requires
        !(item matches Json::List(pair) && pair@.len() == 2 && (pair@[0] matches Json::Number(n)
            && n.unsigned is Some) && pair@[1] is Number),
    ensures
        write_of(item) is None,
{
}

/// One item asks for its own write, or for none.
pub proof fn item_asks_for_its_own_write(item: Json)
    ensures
        writes_of(seq![item]) == match write_of(item) {
            Some(w) => seq![w],
            None => Seq::empty(),
        },
{
    let one = seq![item];
    assert(one.drop_last() =~= Seq::empty());
    assert(writes_of(one.drop_last()) =~= Seq::empty());
    if let Some(w) = write_of(item) {
        assert(writes_of(one) =~= seq![w]);
    }
}

/// A point is named by a number and an address; it is that number and that
/// address.
pub proof fn point_is_its_number_and_address(item: Json, id: u64, address: Seq<char>)
    requires
        member(item, "pointId"@) matches Some(Json::Number(n)) && n.unsigned == Some(id),
        member(item, "address"@) matches Some(Json::Text(s)) && s@ == address,
    ensures
        point_of(item) matches Some(p) && p.1 == address && p.0 == id % 0x1_0000_0000,
{
}

/// An item without a number or without an address names no point.
pub proof fn incomplete_item_names_no_point(item: Json)
    requires
        !(member(item, "pointId"@) matches Some(Json::Number(n)) && n.unsigned is Some) || !(member(
            item,
            "address"@,
        ) matches Some(Json::Text(_))),
    ensures
        point_of(item) is None,
{
}

/// The references of an entry are those of its items, one each, in order.
pub proof fn references_follow_their_items(
    refs: Seq<DriverPointRef>,
    items: Seq<Json>,
    i: int,
    id: u64,
    address: Seq<char>,
)
    requires
        refs_match(refs, items),
        0 <= i < items.len(),
        member(items[i], "pointId"@) matches Some(Json::Number(n)) && n.unsigned == Some(id),
        member(items[i], "address"@) matches Some(Json::Text(s)) && s@ == address,
    ensures
        refs.len() == items.len(),
        refs[i].point_id == id % 0x1_0000_0000,
        refs[i].address@ == address,
{
    point_is_its_number_and_address(items[i], id, address);
    assert(point_of(items[i]) == Some((refs[i].point_id, refs[i].address@)));
}

/// An entry is in order exactly if it is a list of items that all name points.
pub proof fn entry_is_in_order_iff_all_items_are(entry: (String, Json))
    ensures
        entry_fault(entry) is None <==> (entry.1 matches Json::List(items) && forall|i: int|
            0 <= i < items@.len() ==> point_of(#[trigger] items@[i]) is Some),
        !(entry.1 is List) ==> entry_fault(entry) == Some(
            "'"@ + entry.0@ + "' value must be an array"@,
        ),
        entry.1 is List && entry_fault(entry) is Some ==> entry_fault(entry) == Some(
            "each point entry requires pointId (u32) and address (string)"@,
        ),
{
}

/// A row tells of the point that was read: its driver, its value or its error.
pub proof fn row_tells_what_was_read(
    row: SyncRow,
    read: (String, u32, Result<u64, DriverError>),
)
    requires
        tells_read(row, read),
    ensures
        row.driver_id@ == read.0@,
        row.point_id == read.1,
        read.2 matches Ok(bits) ==> (row.outcome matches Ok(told) && told == bits),
        read.2 matches Err(e) ==> (row.outcome matches Err(told) && told@ == fault_text(e@)),
{
}

/// A row tells of the point that was written: no error if the write succeeded,
/// its error otherwise.
pub proof fn row_tells_what_was_written(
    row: WriteRow,
    point_id: u32,
    outcome: Result<(), DriverError>,
)
    requires
        tells_write(row, point_id, outcome),
    ensures
        row.point_id == point_id,
        row.error is None <==> outcome is Ok,
        outcome matches Err(e) ==> (row.error matches Some(told) && told@ == fault_text(e@)),
{
}

/// A failed request is answered with 404 exactly if the error is a
/// configuration fault that says "not found", and otherwise with the status of
/// the operation; the text tells the error.
pub proof fn refusal_tells_the_error(e: (FaultKind, Seq<char>), otherwise: u16)
    requires
        otherwise != 404,
    ensures
        driver_refusal(e, otherwise).0 == 404 <==> e.0 == FaultKind::ConfigFault && occurs(
            "not found"@,
            e.1,
        ),
        driver_refusal(e, otherwise).0 == 404 ==> driver_refusal(e, otherwise).1 == e.1,
        driver_refusal(e, otherwise).0 != 404 ==> driver_refusal(e, otherwise) == (
            otherwise,
            fault_text(e),
        ),
{
}

/// The status codes are those of HTTP.
pub proof fn status_codes_are_those_of_http()
    ensures
        CREATED == 201,
        BAD_REQUEST == 400,
        NOT_FOUND == 404,
        CONFLICT == 409,
        INTERNAL_SERVER_ERROR == 500,
        NOT_IMPLEMENTED == 501,
        SERVICE_UNAVAILABLE == 503,
{
}

/// A driver kind is named by exactly one type name.
pub proof fn kind_is_named_by_one_type(driver_type: Seq<char>)
    ensures
        kind_of(driver_type) == Some(DriverKind::Bacnet) <==> driver_type == "bacnet"@,
        kind_of(driver_type) == Some(DriverKind::Mqtt) <==> driver_type == "mqtt"@,
        kind_of(driver_type) is None <==> driver_type != "bacnet"@ && driver_type != "mqtt"@,
{
    reveal_strlit("bacnet");
    reveal_strlit("mqtt");
    assert("bacnet"@.len() != "mqtt"@.len());
}

} // verus!
