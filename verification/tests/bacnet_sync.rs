//! Rounds of reading BACnet points.

use sandstar_drivers::bacnet::frame::{
    encode_read_property_ack, encode_read_property_multiple_ack, CovNotification,
    CovPropertyValue, RpmResult, RpmRequestSpec,
};
use sandstar_drivers::bacnet::exchange::{reply_or_bacnet_error, reply_or_driver_error, Step};
use sandstar_drivers::bacnet::object::BacnetObject;
use sandstar_drivers::bacnet::plan::Reading;
use sandstar_drivers::bacnet::reply::{batch_reply, present_value_reply};
use sandstar_drivers::bacnet::sync::{SyncRun, SyncStep};
use sandstar_drivers::bacnet::transaction::MAX_RETRIES;
use sandstar_drivers::bacnet::value::{BacnetValue, Number};
use sandstar_drivers::bacnet::{BacnetDriver, DeviceInfo, SocketAddress};
use sandstar_drivers::driver::{DriverError, DriverPointRef};

fn make_driver() -> BacnetDriver {
    BacnetDriver::new("b9-test".to_string(), "127.0.0.1".to_string(), 0)
}

fn make_point(point_id: u32) -> DriverPointRef {
    DriverPointRef { point_id, address: String::new() }
}

fn local_port(port: u16) -> SocketAddress {
    SocketAddress::V4 { octets: u32::from_be_bytes([127, 0, 0, 1]), port }
}

fn device(instance: u32, port: u16) -> DeviceInfo {
    DeviceInfo { instance, addr: local_port(port), max_apdu: 1476, vendor_id: 8, segmentation: 3 }
}

fn insert_object(driver: &mut BacnetDriver, point_id: u32, device_id: u32, instance: u32) {
    driver.add_object(
        point_id,
        BacnetObject {
            device_id,
            object_type: 0,
            instance,
            scale: 1.0f64.to_bits(),
            offset: 0.0f64.to_bits(),
            unit: None,
        },
    );
}

fn single(v: f32) -> BacnetValue {
    BacnetValue::Real(v.to_bits())
}

fn spec(instance: u32) -> RpmRequestSpec {
    RpmRequestSpec { object_type: 0, instance, property_id: 85, array_index: None }
}

fn value(r: &Reading) -> f64 {
    let raw = match r.number {
        Number::Single(bits) => f64::from(f32::from_bits(bits)),
        Number::Double(bits) => f64::from_bits(bits),
        Number::Unsigned(v) => f64::from(v),
        Number::Signed(v) => f64::from(v),
    };
    raw * f64::from_bits(r.scale) + f64::from_bits(r.offset)
}

#[test]
fn sync_cur_single_point_uses_read_present_value() {
    let mut d = make_driver();
    insert_object(&mut d, 500, 42, 1);
    let mut run = SyncRun::begin(&d, &[make_point(500)]);
    assert_eq!(run.next(&d, 0), SyncStep::Done);
    let result = run.into_results();
    assert_eq!(result.len(), 1);
    let (id, err) = &result[0];
    assert_eq!(*id, 500);
    assert!(matches!(err, Err(DriverError::CommFault(_))));
}

#[test]
fn single_point_is_read_by_itself() {
    let mut d = make_driver();
    insert_object(&mut d, 500, 42, 1);
    d.opened(vec![device(42, 5000)]);
    let mut run = SyncRun::begin(&d, &[make_point(500)]);
    match run.next(&d, 0) {
        SyncStep::ReadOne { addr, object } => {
            assert_eq!(addr, local_port(5000));
            assert_eq!(object.instance, 1);
        }
        other => panic!("expected one read, got {other:?}"),
    }
    run.read_one(Ok(Number::Single(21.5f32.to_bits())));
    assert_eq!(run.next(&d, 0), SyncStep::Done);
    let results = run.into_results();
    assert_eq!(results.len(), 1);
    assert_eq!(results[0].0, 500);
    assert_eq!(value(results[0].1.as_ref().unwrap()), 21.5);
}

#[test]
fn read_present_value_applies_scale_and_offset() {
    let mut d = make_driver();
    d.opened(vec![device(42, 5000)]);
    d.add_object(
        200,
        BacnetObject {
            device_id: 42,
            object_type: 0,
            instance: 1,
            scale: 2.0f64.to_bits(),
            offset: 1.0f64.to_bits(),
            unit: None,
        },
    );
    let mut run = SyncRun::begin(&d, &[make_point(200)]);
    assert!(matches!(run.next(&d, 0), SyncStep::ReadOne { .. }));
    let x = d.begin_exchange(MAX_RETRIES).unwrap();
    let ack = encode_read_property_ack(x.invoke_id(), 0, 1, 85, &single(23.5));
    let outcome = match d.exchange_packet(&x, &ack, 0) {
        Step::Finished(outcome) => outcome,
        other => panic!("expected the end, got {other:?}"),
    };
    match present_value_reply(reply_or_driver_error(outcome).unwrap()) {
        Ok(n) => run.read_one(Ok(n)),
        Err(_) => panic!("expected a number"),
    }
    assert_eq!(run.next(&d, 0), SyncStep::Done);
    let results = run.into_results();
    assert_eq!(results.len(), 1);
    let (id, val) = &results[0];
    assert_eq!(*id, 200);
    match val {
        Ok(r) => {
            let v = value(r);
            let expected = 23.5f64 * 2.0 + 1.0;
            assert!((v - expected).abs() < 0.001, "expected {expected}, got {v}");
        }
        Err(e) => panic!("expected Ok value, got Err: {e:?}"),
    }
}

#[test]
fn sync_cur_unknown_point_still_returns_config_fault() {
    let d = make_driver();
    let mut run = SyncRun::begin(&d, &[make_point(9001)]);
    assert_eq!(run.next(&d, 0), SyncStep::Done);
    let result = run.into_results();
    assert_eq!(result.len(), 1);
    let (id, err) = &result[0];
    assert_eq!(*id, 9001);
    assert!(matches!(err, Err(DriverError::ConfigFault(_))));
}

#[test]
fn sync_cur_device_not_in_registry_returns_comm_fault_for_group() {
    let mut d = make_driver();
    insert_object(&mut d, 701, 42, 1);
    insert_object(&mut d, 702, 42, 2);
    let mut run = SyncRun::begin(&d, &[make_point(701), make_point(702)]);
    assert_eq!(run.next(&d, 0), SyncStep::Done);
    let result = run.into_results();
    assert_eq!(result.len(), 2);
    for (_, r) in &result {
        assert!(matches!(r, Err(DriverError::CommFault(_))));
    }
    let ids: Vec<u32> = result.iter().map(|(id, _)| *id).collect();
    assert!(ids.contains(&701));
    assert!(ids.contains(&702));
}

#[test]
fn several_points_of_a_device_are_read_together() {
    let mut d = make_driver();
    insert_object(&mut d, 801, 42, 0);
    insert_object(&mut d, 802, 42, 1);
    d.opened(vec![device(42, 5000)]);
    let mut run = SyncRun::begin(&d, &[make_point(801), make_point(802)]);
    match run.next(&d, 0) {
        SyncStep::ReadBatch { addr, specs } => {
            assert_eq!(addr, local_port(5000));
            assert_eq!(specs, vec![spec(0), spec(1)]);
        }
        other => panic!("expected a batch, got {other:?}"),
    }
    run.batch_read(Some(vec![
        Ok(single(30.0)),
        Err(DriverError::RemoteStatus("BACnet error class=2 code=31".to_string())),
    ]));
    assert_eq!(run.next(&d, 0), SyncStep::Done);
    let results = run.into_results();
    assert_eq!(results.len(), 2);
    assert_eq!(results[0].0, 801);
    assert_eq!(value(results[0].1.as_ref().unwrap()), 30.0);
    assert_eq!(results[1].0, 802);
    assert_eq!(
        results[1].1.as_ref().unwrap_err().to_string(),
        "remote status: BACnet error class=2 code=31"
    );
}

#[test]
fn sync_cur_falls_back_to_individual_reads_on_rpm_error() {
    let mut d = make_driver();
    insert_object(&mut d, 801, 42, 0);
    insert_object(&mut d, 802, 42, 1);
    d.opened(vec![device(42, 5000)]);
    let mut run = SyncRun::begin(&d, &[make_point(801), make_point(802)]);
    assert!(matches!(run.next(&d, 0), SyncStep::ReadBatch { .. }));
    run.batch_read(None);
    for (instance, v) in [(0, 30.0f32), (1, 40.0f32)] {
        match run.next(&d, 0) {
            SyncStep::ReadOne { addr, object } => {
                assert_eq!(addr, local_port(5000));
                assert_eq!(object.instance, instance);
            }
            other => panic!("expected one read, got {other:?}"),
        }
        run.read_one(Ok(Number::Single(v.to_bits())));
    }
    assert_eq!(run.next(&d, 0), SyncStep::Done);
    let results = run.into_results();
    assert_eq!(results.len(), 2);
    assert_eq!(results[0].0, 801);
    assert_eq!(value(results[0].1.as_ref().unwrap()), 30.0);
    assert_eq!(results[1].0, 802);
    assert_eq!(value(results[1].1.as_ref().unwrap()), 40.0);
}

#[test]
fn every_point_gets_as_many_outcomes_as_it_was_asked_for() {
    let mut d = make_driver();
    insert_object(&mut d, 1, 10, 1);
    insert_object(&mut d, 2, 10, 2);
    insert_object(&mut d, 3, 20, 3);
    insert_object(&mut d, 4, 30, 4);
    d.opened(vec![device(10, 5010), device(20, 5020)]);
    let asked = [1, 3, 9, 2, 4, 1];
    let points: Vec<DriverPointRef> = asked.iter().map(|&p| make_point(p)).collect();
    let mut run = SyncRun::begin(&d, &points);
    let mut reads = 0;
    loop {
        match run.next(&d, 0) {
            SyncStep::ReadOne { .. } => {
                reads += 1;
                run.read_one(Err(DriverError::Timeout("no reply".to_string())));
            }
            SyncStep::ReadBatch { specs, .. } => {
                reads += 1;
                run.batch_read(Some(specs.iter().map(|_| Ok(single(1.0))).collect()));
            }
            SyncStep::Done => break,
        }
    }
    assert_eq!(reads, 2);
    let mut ids: Vec<u32> = run.into_results().into_iter().map(|r| r.0).collect();
    ids.sort();
    assert_eq!(ids, vec![1, 1, 2, 3, 4, 9]);
}

#[test]
fn fresh_notifications_answer_part_of_a_group() {
    let mut d = make_driver();
    insert_object(&mut d, 1, 10, 1);
    insert_object(&mut d, 2, 10, 2);
    d.opened(vec![device(10, 5010)]);
    let note = CovNotification {
        subscriber_process_id: 1,
        initiating_device_instance: 10,
        monitored_object_type: 0,
        monitored_object_instance: 1,
        time_remaining: Some(300),
        values: vec![CovPropertyValue { property_id: 85, array_index: None, value: single(7.5) }],
    };
    d.handle_cov_notification(&note, 1_000);
    let points = [make_point(1), make_point(2)];

    let mut run = SyncRun::begin(&d, &points);
    match run.next(&d, 2_000) {
        SyncStep::ReadOne { object, .. } => assert_eq!(object.instance, 2),
        other => panic!("expected one read, got {other:?}"),
    }
    run.read_one(Ok(Number::Unsigned(3)));
    assert_eq!(run.next(&d, 2_000), SyncStep::Done);
    let results = run.into_results();
    assert_eq!(results[0].0, 1);
    assert_eq!(value(results[0].1.as_ref().unwrap()), 7.5);
    assert_eq!(value(results[1].1.as_ref().unwrap()), 3.0);

    // Ten minutes later the notification no longer counts.
    let late = 1_000 + 600 * 1_000_000_000u128;
    let mut run = SyncRun::begin(&d, &points);
    assert!(matches!(run.next(&d, late), SyncStep::ReadBatch { .. }));
}

#[test]
fn read_properties_multiple_mock_success() {
    let mut d = make_driver();
    d.opened(vec![device(42, 5000)]);
    let specs = [spec(0), spec(1)];
    let mut x = d.begin_exchange(3).unwrap();
    assert!(matches!(x.sent(), Step::Receive));
    let answers = vec![
        RpmResult {
            object_type: 0,
            instance: 0,
            property_id: 85,
            array_index: None,
            value: Ok(single(10.0)),
        },
        RpmResult {
            object_type: 0,
            instance: 1,
            property_id: 85,
            array_index: None,
            value: Ok(single(20.0)),
        },
    ];
    let packet = encode_read_property_multiple_ack(x.invoke_id(), &answers);
    let outcome = match d.exchange_packet(&x, &packet, 0) {
        Step::Finished(outcome) => outcome,
        other => panic!("expected the end, got {other:?}"),
    };
    let reply = reply_or_bacnet_error(outcome).unwrap();
    let result = match batch_reply(reply, &specs) {
        Ok(values) => values,
        Err(_) => panic!("rpm should succeed"),
    };
    assert_eq!(result.len(), 2);
    assert_eq!(result[0].as_ref().unwrap(), &single(10.0));
    assert_eq!(result[1].as_ref().unwrap(), &single(20.0));
}

#[test]
fn receive_failure_ends_the_exchange() {
    let mut d = make_driver();
    let mut x = d.begin_exchange(3).unwrap();
    assert!(matches!(x.sent(), Step::Receive));
    let outcome = match d.exchange_receive_failed(&mut x, "unreachable".to_string()) {
        Step::Finished(outcome) => outcome,
        other => panic!("expected the end, got {other:?}"),
    };
    assert_eq!(
        reply_or_driver_error(outcome).unwrap_err().to_string(),
        "comm fault: bacnet recv: unreachable"
    );
}

#[test]
fn stray_packets_do_not_end_an_exchange() {
    let mut d = make_driver();
    let mut x = d.begin_exchange(0).unwrap();
    assert!(matches!(x.sent(), Step::Receive));
    let other_id = x.invoke_id().wrapping_add(1);
    let stray = encode_read_property_ack(other_id, 0, 1, 85, &single(1.0));
    assert!(matches!(d.exchange_packet(&x, &stray, 0), Step::Receive));
    assert!(matches!(d.exchange_packet(&x, &[0x81, 0x0A], 0), Step::Receive));
    let ours = encode_read_property_ack(x.invoke_id(), 0, 1, 85, &single(2.5));
    let outcome = match d.exchange_packet(&x, &ours, 0) {
        Step::Finished(outcome) => outcome,
        other => panic!("expected the end, got {other:?}"),
    };
    match present_value_reply(reply_or_driver_error(outcome).unwrap()) {
        Ok(n) => assert_eq!(n, Number::Single(2.5f32.to_bits())),
        Err(_) => panic!("expected a number"),
    }
}
