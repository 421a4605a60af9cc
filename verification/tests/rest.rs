//! Request bodies and answers of the REST interface.

use sandstar_drivers::driver::{DriverError, DriverMessage, DriverPointRef};
use sandstar_drivers::json::{Json, JsonNumber};
use sandstar_drivers::rest::{
    create_failed, driver_kind, driver_not_found, invalid_config, invalid_message, learn_failed,
    lifecycle_failed, manager_failed, message_failed, parse_create, parse_sync, parse_writes,
    ping_failed, sync_rows, write_failed, write_rows, DriverKind, Refusal,
};

fn text(s: &str) -> Json {
    Json::Text(s.to_string())
}

fn number(n: u64) -> Json {
    Json::Number(JsonNumber { unsigned: Some(n), signed: None, bits: (n as f64).to_bits() })
}

fn fraction(v: f64) -> Json {
    Json::Number(JsonNumber { unsigned: None, signed: None, bits: v.to_bits() })
}

fn object(members: Vec<(&str, Json)>) -> Json {
    Json::Object(members.into_iter().map(|(k, v)| (k.to_string(), v)).collect())
}

fn refusal(status: u16, error: &str) -> Refusal {
    Refusal { status, error: error.to_string() }
}

#[test]
fn writes_are_read_and_malformed_items_skipped() {
    let body = object(vec![(
        "writes",
        Json::List(vec![
            Json::List(vec![number(1), fraction(2.5)]),
            Json::List(vec![number(2)]),
            Json::List(vec![text("3"), number(3)]),
            Json::List(vec![fraction(-4.0), number(4)]),
            Json::Null,
            Json::List(vec![number(5), number(6)]),
            Json::List(vec![number(0x1_0000_0007), number(8)]),
        ]),
    )]);
    assert_eq!(
        parse_writes(&body),
        Ok(vec![(1, 2.5f64.to_bits()), (5, 6.0f64.to_bits()), (7, 8.0f64.to_bits())])
    );
}

#[test]
fn writes_must_be_a_list() {
    let expected = Err(refusal(400, "expected {\"writes\": [[pointId, value], ...]}"));
    assert_eq!(parse_writes(&object(vec![])), expected);
    assert_eq!(parse_writes(&object(vec![("writes", number(1))])), expected);
    assert_eq!(parse_writes(&Json::Bool(true)), expected);
}

#[test]
fn write_rows_tell_each_outcome() {
    let rows = write_rows(&[(1, Ok(())), (2, Err(DriverError::CommFault("x".to_string())))]);
    assert_eq!(rows[0].point_id, 1);
    assert_eq!(rows[0].error, None);
    assert_eq!(rows[1].point_id, 2);
    assert_eq!(rows[1].error.as_deref(), Some("comm fault: x"));
}

#[test]
fn create_needs_type_and_config() {
    let body = object(vec![("driver_type", text("bacnet")), ("config", object(vec![]))]);
    let (kind, config) = parse_create(&body).unwrap();
    assert_eq!(kind, "bacnet");
    assert_eq!(*config, object(vec![]));
    assert_eq!(
        parse_create(&object(vec![("driver_type", number(1))])),
        Err(refusal(400, "missing or non-string 'driver_type'"))
    );
    assert_eq!(
        parse_create(&object(vec![("config", Json::Null)])),
        Err(refusal(400, "missing or non-string 'driver_type'"))
    );
    assert_eq!(
        parse_create(&object(vec![("driver_type", text("mqtt"))])),
        Err(refusal(400, "missing 'config'"))
    );
}

#[test]
fn only_known_kinds_are_created() {
    assert_eq!(driver_kind("bacnet"), Ok(DriverKind::Bacnet));
    assert_eq!(driver_kind("mqtt"), Ok(DriverKind::Mqtt));
    assert_eq!(driver_kind("modbus"), Err(refusal(400, "unknown driver_type 'modbus'")));
    assert_eq!(
        invalid_config(DriverKind::Bacnet, "no id"),
        refusal(400, "invalid bacnet config: no id")
    );
    assert_eq!(
        invalid_config(DriverKind::Mqtt, "no id"),
        refusal(400, "invalid mqtt config: no id")
    );
}

#[test]
fn sync_request_is_read_in_order() {
    let entry = |id: u64, addr: &str| {
        object(vec![("pointId", number(id)), ("address", text(addr))])
    };
    let body = object(vec![(
        "driverPoints",
        object(vec![
            ("bac-1", Json::List(vec![entry(100, "AI:0"), entry(101, "AI:1")])),
            ("mqtt-1", Json::List(vec![])),
        ]),
    )]);
    let reqs = parse_sync(&body).unwrap();
    assert_eq!(reqs.len(), 2);
    assert_eq!(reqs[0].driver_id, "bac-1");
    assert_eq!(
        reqs[0].points[1],
        DriverPointRef { point_id: 101, address: "AI:1".to_string() }
    );
    assert_eq!(reqs[1].driver_id, "mqtt-1");
    assert!(reqs[1].points.is_empty());
}

#[test]
fn first_bad_entry_decides_the_answer() {
    let missing = parse_sync(&object(vec![("driverPoints", Json::Null)])).unwrap_err();
    assert_eq!(missing, refusal(400, "missing 'driverPoints' object"));
    let bad_item = Json::List(vec![object(vec![("pointId", number(1))])]);
    let body = object(vec![(
        "driverPoints",
        object(vec![("a", number(1)), ("b", bad_item)]),
    )]);
    assert_eq!(parse_sync(&body).unwrap_err(), refusal(400, "'a' value must be an array"));
    let bad_item = Json::List(vec![object(vec![("pointId", number(1))])]);
    let body = object(vec![("driverPoints", object(vec![("b", bad_item)]))]);
    assert_eq!(
        parse_sync(&body).unwrap_err(),
        refusal(400, "each point entry requires pointId (u32) and address (string)")
    );
}

#[test]
fn sync_rows_tell_each_outcome() {
    let rows = sync_rows(&[
        ("a".to_string(), 1, Ok(2.5f64.to_bits())),
        ("b".to_string(), 2, Err(DriverError::Timeout("5s".to_string()))),
    ]);
    assert_eq!(rows[0].driver_id, "a");
    assert_eq!(rows[0].outcome, Ok(2.5f64.to_bits()));
    assert_eq!(rows[1].point_id, 2);
    assert_eq!(rows[1].outcome, Err("timeout: 5s".to_string()));
}

#[test]
fn failures_have_their_status() {
    let missing = DriverError::ConfigFault("driver 'x' not found".to_string());
    let bad = DriverError::ConfigFault("bad port".to_string());
    let comm = DriverError::CommFault("driver 'x' not found".to_string());
    let unsupported = DriverError::NotSupported("on_receive");
    assert_eq!(lifecycle_failed(&missing), refusal(404, "driver 'x' not found"));
    assert_eq!(lifecycle_failed(&bad), refusal(500, "config fault: bad port"));
    assert_eq!(lifecycle_failed(&comm).status, 500);
    assert_eq!(ping_failed(&missing).status, 404);
    assert_eq!(ping_failed(&bad), refusal(503, "config fault: bad port"));
    assert_eq!(
        learn_failed(&DriverError::NotSupported("learn")),
        refusal(501, "learn not supported by this driver")
    );
    assert_eq!(learn_failed(&missing), refusal(500, "config fault: driver 'x' not found"));
    assert_eq!(write_failed(&missing), refusal(404, "config fault: driver 'x' not found"));
    assert_eq!(create_failed(&bad), refusal(409, "config fault: bad port"));
    assert_eq!(manager_failed(&bad).status, 500);
    assert_eq!(message_failed(&unsupported), refusal(501, "not supported: on_receive"));
    assert_eq!(message_failed(&missing), refusal(404, "driver 'x' not found"));
    assert_eq!(message_failed(&bad).status, 500);
    assert_eq!(driver_not_found("x"), refusal(404, "driver 'x' not found"));
    assert_eq!(invalid_message("no id"), refusal(400, "invalid DriverMessage: no id"));
}

#[test]
fn messages_have_an_empty_object_by_default() {
    let m = DriverMessage::new("whoIs");
    assert_eq!(m.id, "whoIs");
    assert_eq!(m.payload, object(vec![]));
    let m = DriverMessage::with_payload("stats", number(3));
    assert_eq!(m.payload, number(3));
}
