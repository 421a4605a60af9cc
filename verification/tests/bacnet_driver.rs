//! BACnet driver state, planning of reads and writes, watches and exchanges.

use sandstar_drivers::bacnet::cov::CovCache;
use sandstar_drivers::bacnet::driver::{UnwatchPlan, WatchRequest};
use sandstar_drivers::bacnet::exchange::{
    apdu_invoke_id, reply_or_driver_error, Outcome, Step,
};
use sandstar_drivers::bacnet::frame::{
    decode_packet, encode_read_property, encode_read_property_ack,
    encode_read_property_multiple_ack, encode_register_foreign_device, encode_simple_ack, Apdu,
    CovNotification, CovPropertyValue, RpmRequestSpec, RpmResult, BVLL_REGISTER_FOREIGN_DEVICE,
};
use sandstar_drivers::bacnet::object::BacnetObject;
use sandstar_drivers::bacnet::plan::{
    batch_outcomes, learn_point, point_kind, registration_step, write_value, ReadPlan,
    RegistrationStep, WriteKind,
};
use sandstar_drivers::bacnet::reply::{
    batch_reply, object_list, object_name, present_value_reply, subscribe_reply, write_reply,
    BatchFault, ReplyFault,
};
use sandstar_drivers::bacnet::sync::{SyncRun, SyncStep};
use sandstar_drivers::bacnet::transaction::MAX_RETRIES;
use sandstar_drivers::bacnet::value::{BacnetValue, Number};
use sandstar_drivers::bacnet::{
    BacnetConfig, BacnetDriver, BacnetError, BacnetLoader, BacnetObjectConfig, DeviceInfo,
    SocketAddress, DEFAULT_BACNET_PORT,
};
use sandstar_drivers::driver::{DriverError, DriverPointRef, DriverStatus, PollMode};

const SECOND: u128 = 1_000_000_000;

fn single(v: f32) -> BacnetValue {
    BacnetValue::Real(v.to_bits())
}

fn driver(id: &str, broadcast: &str, port: u16) -> BacnetDriver {
    BacnetDriver::new(id.to_string(), broadcast.to_string(), port)
}

fn local_port(port: u16) -> SocketAddress {
    SocketAddress::V4 { octets: u32::from_be_bytes([127, 0, 0, 1]), port }
}

fn device(instance: u32, port: u16) -> DeviceInfo {
    DeviceInfo { instance, addr: local_port(port), max_apdu: 1476, vendor_id: 8, segmentation: 3 }
}

fn object(device_id: u32, object_type: u16, instance: u32) -> BacnetObject {
    BacnetObject {
        device_id,
        object_type,
        instance,
        scale: 1.0f64.to_bits(),
        offset: 0.0f64.to_bits(),
        unit: None,
    }
}

fn make_point(point_id: u32) -> DriverPointRef {
    DriverPointRef { point_id, address: String::new() }
}

fn config(id: &str) -> BacnetConfig {
    BacnetConfig { id: id.into(), port: None, broadcast: None, objects: vec![], bbmd: None }
}

fn notification(
    process_id: u32,
    object_type: u16,
    instance: u32,
    value: BacnetValue,
) -> CovNotification {
    CovNotification {
        subscriber_process_id: process_id,
        initiating_device_instance: 100,
        monitored_object_type: object_type,
        monitored_object_instance: instance,
        time_remaining: Some(300),
        values: vec![CovPropertyValue { property_id: 85, array_index: None, value }],
    }
}

fn encode_i_am(device_instance: u32, max_apdu: u16, segmentation: u8, vendor_id: u16) -> Vec<u8> {
    let obj_id_val: u32 = (8u32 << 22) | (device_instance & 0x3F_FFFF);
    let obj_id = obj_id_val.to_be_bytes();
    let mut apdu: Vec<u8> = vec![0x10, 0x00, 0xC4, obj_id[0], obj_id[1], obj_id[2], obj_id[3]];
    if max_apdu <= 0xFF {
        apdu.extend_from_slice(&[0x21, max_apdu as u8]);
    } else {
        apdu.extend_from_slice(&[0x22, (max_apdu >> 8) as u8, (max_apdu & 0xFF) as u8]);
    }
    apdu.extend_from_slice(&[0x91, segmentation]);
    if vendor_id <= 0xFF {
        apdu.extend_from_slice(&[0x21, vendor_id as u8]);
    } else {
        apdu.extend_from_slice(&[0x22, (vendor_id >> 8) as u8, (vendor_id & 0xFF) as u8]);
    }
    let total_len = 4u16 + 2 + apdu.len() as u16;
    let mut out =
        vec![0x81, 0x0A, (total_len >> 8) as u8, (total_len & 0xFF) as u8, 0x01, 0x00];
    out.extend_from_slice(&apdu);
    out
}

fn extract_invoke_id(data: &[u8], n: usize) -> u8 {
    if n >= 9 {
        data[8]
    } else {
        0
    }
}

fn error_packet(invoke_id: u8, service: u8, class: u8, code: u8) -> Vec<u8> {
    let apdu: Vec<u8> = vec![0x50, invoke_id, service, 0x91, class, 0x91, code];
    let total_len = (4u16 + 2 + apdu.len() as u16).to_be_bytes();
    let mut pkt = vec![0x81, 0x0A, total_len[0], total_len[1], 0x01, 0x00];
    pkt.extend_from_slice(&apdu);
    pkt
}

// ── Construction ────────────────────────────────────────────

#[test]
fn bacnet_driver_new_has_expected_fields() {
    let d = driver("bac-new", "192.168.1.255", DEFAULT_BACNET_PORT);
    assert_eq!(d.id(), "bac-new");
    assert_eq!(d.port(), DEFAULT_BACNET_PORT);
    assert_eq!(d.broadcast_addr(), "192.168.1.255");
    assert!(matches!(d.status(), DriverStatus::Pending));
    assert!(d.require_connected().is_err());
    assert!(d.objects().is_empty());
    assert!(d.device_registry().is_empty());
}

#[test]
fn bacnet_add_object_stores_it() {
    let mut d = driver("bac-obj", "255.255.255.255", DEFAULT_BACNET_PORT);
    d.add_object(
        1001,
        BacnetObject {
            device_id: 42,
            object_type: 0,
            instance: 5,
            scale: 1.0f64.to_bits(),
            offset: 0.0f64.to_bits(),
            unit: Some("degF".into()),
        },
    );
    assert_eq!(d.objects().len(), 1);
    let obj = d.objects().get(&1001).expect("point 1001 should be present");
    assert_eq!(obj.device_id, 42);
    assert_eq!(obj.object_type, 0);
    assert_eq!(obj.instance, 5);
    assert_eq!(obj.unit.as_deref(), Some("degF"));
}

#[test]
fn bacnet_from_config_creates_objects() {
    let config = BacnetConfig {
        id: "bac-cfg".into(),
        port: Some(47808),
        broadcast: Some("192.168.0.255".into()),
        objects: vec![
            BacnetObjectConfig {
                point_id: 2001,
                device_id: 100,
                object_type: 0,
                instance: 10,
                unit: Some("psi".into()),
                scale: Some(2.5f64.to_bits()),
                offset: Some((-10.0f64).to_bits()),
            },
            BacnetObjectConfig {
                point_id: 2002,
                device_id: 100,
                object_type: 1,
                instance: 1,
                unit: None,
                scale: None,
                offset: None,
            },
        ],
        bbmd: None,
    };

    let d = BacnetDriver::from_config(config, None);
    assert_eq!(d.id(), "bac-cfg");
    assert_eq!(d.port(), 47808);
    assert_eq!(d.broadcast_addr(), "192.168.0.255");
    assert_eq!(d.objects().len(), 2);

    let obj = d.objects().get(&2001).expect("point 2001 should exist");
    assert_eq!(f64::from_bits(obj.scale), 2.5);
    assert_eq!(f64::from_bits(obj.offset), -10.0);
    assert_eq!(obj.unit.as_deref(), Some("psi"));

    let obj2 = d.objects().get(&2002).expect("point 2002 should exist");
    assert_eq!(f64::from_bits(obj2.scale), 1.0, "default scale should be 1.0");
    assert_eq!(f64::from_bits(obj2.offset), 0.0, "default offset should be 0.0");
}

#[test]
fn bacnet_from_config_default_port_and_broadcast() {
    let d = BacnetDriver::from_config(config("bac-defaults"), None);
    assert_eq!(d.port(), DEFAULT_BACNET_PORT);
    assert_eq!(d.broadcast_addr(), "255.255.255.255");
}

#[test]
fn from_config_applies_defaults() {
    let driver = BacnetDriver::from_config(config("bac-defaults"), None);
    assert_eq!(driver.id(), "bac-defaults");
    assert!(driver.objects().is_empty());
    assert_eq!(driver.port(), DEFAULT_BACNET_PORT);
    assert_eq!(driver.broadcast_addr(), "255.255.255.255");
}

#[test]
fn from_config_with_objects_sets_scale_offset() {
    let config = BacnetConfig {
        id: "bac-objs".into(),
        port: Some(47808),
        broadcast: Some("255.255.255.255".into()),
        objects: vec![
            BacnetObjectConfig {
                point_id: 500,
                device_id: 10,
                object_type: 0,
                instance: 1,
                unit: Some("psi".into()),
                scale: Some(0.5f64.to_bits()),
                offset: Some((-10.0f64).to_bits()),
            },
            BacnetObjectConfig {
                point_id: 501,
                device_id: 10,
                object_type: 2,
                instance: 0,
                unit: None,
                scale: None,
                offset: None,
            },
        ],
        bbmd: None,
    };
    let driver = BacnetDriver::from_config(config, None);
    let objects = driver.objects();
    assert_eq!(objects.len(), 2);
    let obj500 = objects.get(&500).unwrap();
    assert_eq!(f64::from_bits(obj500.scale), 0.5);
    assert_eq!(f64::from_bits(obj500.offset), -10.0);
    assert_eq!(obj500.unit.as_deref(), Some("psi"));
    let obj501 = objects.get(&501).unwrap();
    assert_eq!(f64::from_bits(obj501.scale), 1.0, "default scale");
    assert_eq!(f64::from_bits(obj501.offset), 0.0, "default offset");
    assert!(obj501.unit.is_none());
}

#[test]
fn bbmd_addr_none_by_default() {
    let d = driver("bac-1", "255.255.255.255", DEFAULT_BACNET_PORT);
    assert!(d.bbmd_addr().is_none());
    assert!(!d.is_foreign_device());
}

#[test]
fn from_config_with_bbmd() {
    let config = BacnetConfig {
        id: "bac-bbmd".into(),
        port: Some(47808),
        broadcast: Some("255.255.255.255".into()),
        objects: vec![],
        bbmd: Some("192.168.2.1:47808".into()),
    };
    let bbmd = SocketAddress::V4 { octets: u32::from_be_bytes([192, 168, 2, 1]), port: 47808 };
    let d = BacnetDriver::from_config(config, Some(bbmd));
    let addr = d.bbmd_addr().expect("bbmd_addr should be Some");
    assert_eq!(addr, bbmd);
    assert_eq!(addr.port(), 47808);
    assert!(!d.is_foreign_device(), "not registered until open");
}

#[test]
fn from_config_with_invalid_bbmd_logs_warning() {
    let config = BacnetConfig {
        id: "bac-bad-bbmd".into(),
        port: None,
        broadcast: None,
        objects: vec![],
        bbmd: Some("not-an-address".into()),
    };
    let d = BacnetDriver::from_config(config, None);
    assert!(d.bbmd_addr().is_none(), "invalid bbmd should be silently ignored");
}

#[test]
fn renewal_interval_default_is_240s() {
    let d = driver("bac", "127.0.0.1", 47808);
    assert_eq!(d.renewal_interval(), 240 * SECOND);
}

#[test]
fn with_renewal_interval_builder_works() {
    let d = driver("bac", "127.0.0.1", 47808).with_renewal_interval(60 * SECOND);
    assert_eq!(d.renewal_interval(), 60 * SECOND);
}

#[test]
fn builders_override_one_field_each() {
    let d = driver("bac", "10.0.0.255", 5000)
        .with_broadcast_port(6000)
        .with_discovery_timeout(7)
        .with_bbmd_addr(local_port(9));
    assert_eq!(d.port(), 5000);
    assert_eq!(d.bind_address(), "0.0.0.0:5000");
    assert_eq!(d.broadcast_target(), "10.0.0.255:6000");
    assert_eq!(d.discovery_timeout(), 7);
    assert_eq!(d.bbmd_addr(), Some(local_port(9)));
    assert_eq!(d.poll_mode(), PollMode::Buckets);
}

#[test]
fn loader_names_bacnet() {
    assert_eq!(BacnetLoader::env_var(), "SANDSTAR_BACNET_CONFIGS");
    assert_eq!(BacnetLoader::driver_type(), "bacnet");
    assert_eq!(BacnetLoader::label(), "BACnet");
    let mut c = config("b");
    c.objects.push(BacnetObjectConfig {
        point_id: 9,
        device_id: 1,
        object_type: 0,
        instance: 0,
        unit: None,
        scale: None,
        offset: None,
    });
    assert_eq!(BacnetLoader::config_id(&c), "b");
    assert_eq!(BacnetLoader::config_point_ids(&c), vec![9]);
}

// ── Errors ──────────────────────────────────────────────────

#[test]
fn bacnet_error_converts_to_driver_error() {
    let e: DriverError = BacnetError::DeviceNotFound(99).into();
    assert!(matches!(e, DriverError::CommFault(_)));
}

#[test]
fn bacnet_error_display_messages() {
    assert_eq!(
        BacnetError::MalformedFrame("bad header".into()).to_string(),
        "malformed frame: bad header"
    );
    assert_eq!(BacnetError::PropertyNotFound.to_string(), "property not found");
    assert_eq!(BacnetError::Timeout(3).to_string(), "transaction timeout after 3 retries");
    assert_eq!(
        BacnetError::RemoteError { class: 2, code: 31 }.to_string(),
        "remote error class=2 code=31"
    );
}

// ── Lifecycle ───────────────────────────────────────────────

#[test]
fn mod_bacnet_lifecycle() {
    let mut d = driver("bac-1", "255.255.255.255", DEFAULT_BACNET_PORT);
    assert_eq!(*d.status(), DriverStatus::Pending);
    assert_eq!(d.driver_type(), "bacnet");
    d.close();
    assert_eq!(*d.status(), DriverStatus::Down);
}

#[test]
fn bacnet_ping_not_connected() {
    let d = driver("bac-3", "255.255.255.255", DEFAULT_BACNET_PORT);
    assert!(d.ping().is_err());
}

#[test]
fn opening_registers_the_devices_that_answered() {
    let mut d = driver("bac", "255.255.255.255", 47808);
    let meta = d.opened(vec![device(1, 1000)]);
    assert_eq!(meta.model.as_deref(), Some("BACnet/IP port=47808 (1 device)"));
    assert_eq!(*d.status(), DriverStatus::Running);
    assert_eq!(d.device_registry().len(), 1);
    assert_eq!(d.ping().unwrap().model.as_deref(), Some("BACnet/IP port=47808"));
    let meta = d.opened(vec![]);
    assert_eq!(meta.model.as_deref(), Some("BACnet/IP port=47808 (0 devices)"));
    assert_eq!(d.device_registry().len(), 1);
    d.close();
    assert!(d.ping().is_err());
}

// ── Helpers of the wire ─────────────────────────────────────

#[test]
fn encode_i_am_is_decodable() {
    let frame_bytes = encode_i_am(1001, 1476, 3, 8);
    let (_, apdu) = decode_packet(&frame_bytes).expect("should decode cleanly");
    match apdu {
        Apdu::IAm { device_instance, max_apdu, segmentation, vendor_id } => {
            assert_eq!(device_instance, 1001);
            assert_eq!(max_apdu, 1476);
            assert_eq!(segmentation, 3);
            assert_eq!(vendor_id, 8);
        }
        other => panic!("expected IAm, got {other:?}"),
    }
}

#[test]
fn extract_invoke_id_short_packet_returns_zero() {
    let short = [0x81u8, 0x00, 0x00, 0x08];
    assert_eq!(extract_invoke_id(&short, 4), 0);
}

#[test]
fn read_property_invoke_id_is_at_offset_8() {
    let req = encode_read_property(42, 0, 0, 85, None);
    assert!(req.len() >= 9, "request must be at least 9 bytes");
    assert_eq!(req[8], 42, "invoke_id should be at byte index 8");
    assert_eq!(extract_invoke_id(&req, req.len()), 42);
}

#[test]
fn apdu_invoke_id_extracts_correctly() {
    let iam = Apdu::IAm { device_instance: 1, max_apdu: 1476, segmentation: 3, vendor_id: 8 };
    assert_eq!(apdu_invoke_id(&iam), None);

    let whois = Apdu::WhoIs { low_limit: None, high_limit: None };
    assert_eq!(apdu_invoke_id(&whois), None);

    let ack = Apdu::ReadPropertyAck {
        invoke_id: 42,
        object_type: 0,
        instance: 1,
        property_id: 85,
        value: single(23.5),
    };
    assert_eq!(apdu_invoke_id(&ack), Some(42));

    let err = Apdu::Error { invoke_id: 7, service_choice: 0x0C, error_class: 2, error_code: 31 };
    assert_eq!(apdu_invoke_id(&err), Some(7));

    let other = Apdu::Other { pdu_type: 0x30, invoke_id: 5, data: vec![] };
    assert_eq!(apdu_invoke_id(&other), Some(5));
}

// ── Reading points ──────────────────────────────────────────

#[test]
fn sync_cur_empty_points_returns_empty() {
    let d = driver("b3-test", "127.0.0.1", 0);
    assert!(d.unconfigured_points(&[]).is_empty());
    assert!(d.group_points(&[]).is_empty());
}

#[test]
fn sync_cur_unknown_point_returns_config_fault() {
    let d = driver("b3-test", "127.0.0.1", 0);
    let mut run = SyncRun::begin(&d, &[make_point(9999)]);
    assert_eq!(run.next(&d, 0), SyncStep::Done);
    let result = run.into_results();
    assert_eq!(result.len(), 1);
    let (id, err) = &result[0];
    assert_eq!(*id, 9999);
    assert!(
        matches!(err, Err(DriverError::ConfigFault(_))),
        "expected ConfigFault, got {err:?}"
    );
}

#[test]
fn sync_cur_device_not_in_registry_returns_comm_fault() {
    let mut d = driver("b3-test", "127.0.0.1", 0);
    d.add_object(100, object(42, 0, 1));
    let mut groups = d.group_points(&[make_point(100)]);
    assert_eq!(groups.len(), 1);
    let plan = d.plan_group(groups.remove(0), 0);
    assert_eq!(plan.answered.len(), 1);
    assert_eq!(plan.answered[0].0, 100);
    assert!(matches!(plan.answered[0].1, Err(DriverError::CommFault(_))));
    assert!(matches!(plan.reads, ReadPlan::Nothing));
}

#[test]
fn sync_cur_groups_points_by_device() {
    let mut d = driver("b9-test", "127.0.0.1", 0);
    d.add_object(601, object(10, 0, 1));
    d.add_object(602, object(10, 0, 2));
    d.add_object(603, object(20, 0, 5));

    let pts = [make_point(601), make_point(602), make_point(603)];
    let mut run = SyncRun::begin(&d, &pts);
    assert_eq!(run.next(&d, 0), SyncStep::Done);
    let result = run.into_results();
    assert_eq!(result.len(), 3);
    let ids: Vec<u32> = result.iter().map(|(id, _)| *id).collect();
    assert!(ids.contains(&601));
    assert!(ids.contains(&602));
    assert!(ids.contains(&603));
    for (_, r) in &result {
        assert!(
            matches!(r, Err(DriverError::CommFault(_))),
            "expected CommFault, got {r:?}"
        );
    }
}

#[test]
fn points_of_known_devices_are_grouped() {
    let mut d = driver("b9-test", "127.0.0.1", 0);
    d.add_object(1, object(10, 0, 1));
    d.add_object(2, object(20, 0, 2));
    d.add_object(3, object(10, 0, 3));
    d.opened(vec![device(10, 1010), device(20, 1020)]);
    let mut groups = d.group_points(&[make_point(1), make_point(2), make_point(3)]);
    assert_eq!(groups.len(), 2);
    assert_eq!(groups[0].device_id, 10);
    assert_eq!(groups[1].device_id, 20);
    let first = d.plan_group(groups.remove(0), 0);
    match first.reads {
        ReadPlan::Batch { addr, members, specs } => {
            assert_eq!(addr, local_port(1010));
            assert_eq!(members.len(), 2);
            assert_eq!(specs.len(), 2);
            assert_eq!(specs[1].instance, 3);
            assert_eq!(specs[1].property_id, 85);
        }
        other => panic!("expected Batch, got {other:?}"),
    }
    let second = d.plan_group(groups.remove(0), 0);
    assert!(matches!(second.reads, ReadPlan::Single { point_id: 2, .. }));
}

#[test]
fn cached_value_answers_without_a_read() {
    let mut d = driver("b9-test", "127.0.0.1", 0);
    d.add_object(1, object(10, 0, 1));
    d.opened(vec![device(10, 1010)]);
    d.handle_cov_notification(&notification(3, 0, 1, single(72.5)), 5);
    let mut groups = d.group_points(&[make_point(1)]);
    let plan = d.plan_group(groups.remove(0), 6);
    assert!(matches!(plan.reads, ReadPlan::Nothing));
    assert_eq!(plan.answered[0].1.as_ref().unwrap().number, Number::Single(72.5f32.to_bits()));
}

#[test]
fn handle_cov_notification_updates_cache() {
    let mut d = driver("test-bac", "255.255.255.255", 0);
    d.handle_cov_notification(&notification(3, 0, 1, single(72.5)), 0);
    let entry = d.cov_cache().get(0, 1, 0, 600 * SECOND).expect("cache hit");
    assert_eq!(entry.value, single(72.5));
    assert_eq!(entry.process_id, 3);
}

#[test]
fn batch_results_are_matched_by_array_index() {
    let spec = |index: Option<u32>| RpmRequestSpec {
        object_type: 14,
        instance: 1,
        property_id: 87,
        array_index: index,
    };
    let result = |index: Option<u32>, v: f32| RpmResult {
        object_type: 14,
        instance: 1,
        property_id: 87,
        array_index: index,
        value: Ok(single(v)),
    };
    let results = vec![result(Some(1), 10.0), result(Some(2), 20.0)];
    let pkt = encode_read_property_multiple_ack(1, &results);
    let (_, apdu) = decode_packet(&pkt).unwrap();
    let specs = [spec(Some(2)), spec(Some(1)), spec(None)];
    let values = batch_reply(apdu, &specs).ok().expect("batch should be read");
    assert_eq!(values[0], Ok(single(20.0)));
    assert_eq!(values[1], Ok(single(10.0)));
    match &values[2] {
        Err(e) => assert_eq!(e.to_string(), "comm fault: BACnet RPM: missing result for spec"),
        Ok(v) => panic!("expected an error, got {v:?}"),
    }
}

#[test]
fn batch_results_are_matched_to_points() {
    let members = vec![(1, object(10, 0, 1)), (2, object(10, 0, 2)), (3, object(10, 0, 3))];
    let mut d = driver("b9-test", "127.0.0.1", 0);
    d.add_object(1, object(10, 0, 1));
    d.add_object(2, object(10, 0, 2));
    d.add_object(3, object(10, 0, 3));
    d.opened(vec![device(10, 1010)]);
    let mut groups = d.group_points(&[make_point(1), make_point(2), make_point(3)]);
    let specs = match d.plan_group(groups.remove(0), 0).reads {
        ReadPlan::Batch { specs, .. } => specs,
        other => panic!("expected Batch, got {other:?}"),
    };
    let results = vec![
        RpmResult {
            object_type: 0,
            instance: 2,
            property_id: 85,
            array_index: None,
            value: Err((2, 31)),
        },
        RpmResult {
            object_type: 0,
            instance: 1,
            property_id: 85,
            array_index: None,
            value: Ok(single(10.0)),
        },
    ];
    let pkt = encode_read_property_multiple_ack(1, &results);
    let (_, apdu) = decode_packet(&pkt).unwrap();
    let values = batch_reply(apdu, &specs).ok().expect("batch should be read");
    let out = batch_outcomes(&members, &values);
    assert_eq!(out.len(), 3);
    assert_eq!(out[0].1.as_ref().unwrap().number, Number::Single(10.0f32.to_bits()));
    assert!(matches!(out[1].1, Err(DriverError::RemoteStatus(_))));
    assert!(out[2].1.is_err());
}

#[test]
fn batch_error_pdu_fails_the_whole_batch() {
    let (_, apdu) = decode_packet(&error_packet(1, 0x0E, 2, 31)).unwrap();
    match batch_reply(apdu, &[]) {
        Err(BatchFault::Fault(BacnetError::RemoteError { class: 2, code: 31 })) => {}
        other => panic!("expected RemoteError, got {:?}", other.is_ok()),
    }
    let (_, apdu) = decode_packet(&encode_simple_ack(1, 0x0F)).unwrap();
    assert!(matches!(batch_reply(apdu, &[]), Err(BatchFault::Unexpected(_))));
}

#[test]
fn read_object_list_parses_array_of_object_ids() {
    let items = vec![
        BacnetValue::ObjectId { object_type: 0, instance: 1 },
        BacnetValue::ObjectId { object_type: 8, instance: 99 },
        BacnetValue::ObjectId { object_type: 3, instance: 0 },
    ];
    assert_eq!(object_list(BacnetValue::Array(items)), vec![(0, 1), (3, 0)]);
}

#[test]
fn learn_skips_device_objects_and_unknown_types() {
    let candidates: &[(u16, &str)] = &[
        (0, "Number"),
        (1, "Number"),
        (2, "Number"),
        (3, "Bool"),
        (4, "Bool"),
        (5, "Bool"),
        (6, "skip"),
        (7, "skip"),
        (8, "skip"),
        (20, "skip"),
    ];

    let included: Vec<(u16, &str)> = candidates
        .iter()
        .filter_map(|(obj_type, expected_kind)| {
            let kind = point_kind(*obj_type)?;
            assert_eq!(kind, *expected_kind, "wrong kind for type {obj_type}");
            Some((*obj_type, kind))
        })
        .collect();

    assert_eq!(included.len(), 6, "expected 6 included types, got {included:?}");
    for (ot, k) in &included {
        match ot {
            0..=2 => assert_eq!(*k, "Number"),
            3..=5 => assert_eq!(*k, "Bool"),
            _ => panic!("unexpected type {ot} in included"),
        }
    }
}

#[test]
fn learnt_point_is_named_after_device_and_object() {
    let p = learn_point(1001, 0, 1, Some("TempSensor".to_string())).unwrap();
    assert_eq!(p.name, "1001-TempSensor");
    assert_eq!(p.address, "1001:0:1");
    assert_eq!(p.kind, "Number");
    assert!(learn_point(1001, 8, 1, None).is_none());
    assert_eq!(
        object_name(BacnetValue::CharacterString("x".to_string())),
        Ok("x".to_string())
    );
    assert_eq!(object_name(BacnetValue::Null), Err(BacnetValue::Null));
}

// ── Writing points ──────────────────────────────────────────

#[test]
fn write_unknown_point_returns_config_fault() {
    let d = driver("b7-test", "127.0.0.1", 0);
    assert!(matches!(d.plan_write(999), Err(DriverError::ConfigFault(_))));
}

#[test]
fn write_device_not_in_registry_returns_comm_fault() {
    let mut d = driver("b7-test", "127.0.0.1", 0);
    d.add_object(100, object(42, 1, 5));
    assert!(matches!(d.plan_write(100), Err(DriverError::CommFault(_))));
}

#[test]
fn write_object_type_out_of_range_returns_config_fault() {
    let mut d = driver("b7-test", "127.0.0.1", 0);
    d.add_object(200, object(42, 99, 1));
    d.opened(vec![device(42, 47808)]);
    match d.plan_write(200) {
        Err(DriverError::ConfigFault(msg)) => {
            assert!(
                msg.contains("unsupported object type"),
                "msg should mention unsupported object type, got: {msg}"
            );
        }
        other => panic!("expected ConfigFault, got {other:?}"),
    }
}

#[test]
fn write_target_tells_the_kind_of_value() {
    let mut d = driver("b7-test", "127.0.0.1", 0);
    d.add_object(1, object(42, 1, 5));
    d.add_object(2, object(42, 4, 6));
    d.opened(vec![device(42, 47808)]);
    let analog = d.plan_write(1).unwrap();
    assert_eq!(analog.kind, WriteKind::Analog);
    assert_eq!(analog.addr, local_port(47808));
    let binary = d.plan_write(2).unwrap();
    assert_eq!(binary.kind, WriteKind::Binary);
    assert_eq!(write_value(WriteKind::Analog, 50.0f32.to_bits(), true), single(50.0));
    assert_eq!(write_value(WriteKind::Binary, 0, true), BacnetValue::Enumerated(1));
    assert_eq!(write_value(WriteKind::Binary, 0, false), BacnetValue::Enumerated(0));
}

#[test]
fn replies_to_writes_and_reads() {
    let ack = Apdu::SimpleAck { invoke_id: 1, service_choice: 0x0F };
    assert!(write_reply(ack).is_ok());
    let (_, err) = decode_packet(&error_packet(1, 0x0F, 2, 31)).unwrap();
    match write_reply(err) {
        Err(ReplyFault::Fault(DriverError::RemoteStatus(msg))) => {
            assert_eq!(msg, "BACnet error class=2 code=31");
        }
        _ => panic!("expected RemoteStatus"),
    }
    let (_, ack) =
        decode_packet(&encode_read_property_ack(1, 0, 1, 85, &single(72.5))).unwrap();
    assert_eq!(
        present_value_reply(ack).ok().expect("a number"),
        Number::Single(72.5f32.to_bits())
    );
    let whois = Apdu::WhoIs { low_limit: None, high_limit: None };
    assert!(matches!(present_value_reply(whois), Err(ReplyFault::Unexpected(_))));
}

// ── Watching points ─────────────────────────────────────────

#[test]
fn allocate_process_id_increments() {
    let mut d = driver("b8-test", "127.0.0.1", 0);
    assert_eq!(d.allocate_process_id(), 1);
    assert_eq!(d.allocate_process_id(), 2);
    assert_eq!(d.allocate_process_id(), 3);
}

#[test]
fn allocate_process_id_skips_zero_on_wrap() {
    let mut d = driver("b8-test", "127.0.0.1", 0).with_first_process_id(u32::MAX);
    assert_eq!(d.allocate_process_id(), u32::MAX);
    assert_eq!(d.allocate_process_id(), 1);
}

#[test]
fn on_watch_unknown_point_is_noop() {
    let mut d = driver("b8-test", "127.0.0.1", 0);
    assert!(d.plan_watch(9999).is_none());
    assert!(d.subscriptions().is_empty());
}

#[test]
fn on_watch_device_not_in_registry_is_noop() {
    let mut d = driver("b8-test", "127.0.0.1", 0);
    d.add_object(8001, object(77, 0, 1));
    assert!(d.plan_watch(8001).is_none());
    assert!(d.subscriptions().is_empty());
}

#[test]
fn on_unwatch_without_subscription_is_noop() {
    let mut d = driver("b8-test", "127.0.0.1", 0);
    assert_eq!(d.plan_unwatch(1234), UnwatchPlan::NotWatched);
    assert!(d.subscriptions().is_empty());
}

#[test]
fn subscribe_cov_mock_error_pdu_returns_remote_status() {
    let (_, apdu) = decode_packet(&error_packet(0, 0x05, 2, 5)).unwrap();
    match subscribe_reply(apdu) {
        Err(ReplyFault::Fault(DriverError::RemoteStatus(msg))) => {
            assert!(
                msg.contains("class=2") && msg.contains("code=5"),
                "error message should mention class=2 code=5, got: {msg}"
            );
        }
        _ => panic!("expected RemoteStatus"),
    }
}

#[test]
fn on_watch_happy_path_tracks_subscription() {
    let mut d = driver("b8-test", "127.0.0.1", 0);
    d.opened(vec![device(42, 5000)]);
    d.add_object(8001, object(42, 0, 1));
    let req = d.plan_watch(8001).expect("to be subscribed");
    assert_eq!(req.addr, local_port(5000));
    assert_eq!(req.lifetime, Some(300));
    d.watch_accepted(req, 10);
    assert_eq!(d.subscriptions().len(), 1);
    let sub = d.subscriptions().values().next().unwrap();
    assert_eq!(sub.point_id, 8001);
    assert_eq!(sub.object_type, 0);
    assert_eq!(sub.object_instance, 1);
    assert_ne!(sub.process_id, 0);
    assert!(d.is_watched(8001));
}

#[test]
fn on_watch_idempotent_for_same_point() {
    let mut d = driver("b8-test", "127.0.0.1", 0);
    d.opened(vec![device(42, 5000)]);
    d.add_object(8001, object(42, 0, 1));
    let req = d.plan_watch(8001).unwrap();
    let x = d.begin_exchange(MAX_RETRIES).unwrap();
    let ack = encode_simple_ack(x.invoke_id(), 0x05);
    let outcome = match d.exchange_packet(&x, &ack, 10) {
        Step::Finished(outcome) => outcome,
        other => panic!("expected the end, got {other:?}"),
    };
    assert!(subscribe_reply(reply_or_driver_error(outcome).unwrap()).is_ok());
    d.watch_accepted(req, 10);
    assert_eq!(d.subscriptions().len(), 1);

    // Second call: nothing to subscribe to.
    assert!(d.plan_watch(8001).is_none());
    assert_eq!(d.subscriptions().len(), 1);
    assert!(d.is_watched(8001));
}

fn watch_request(point_id: u32, process_id: u32, device_id: u32) -> WatchRequest {
    WatchRequest {
        point_id,
        process_id,
        object_type: 0,
        object_instance: 1,
        device_id,
        addr: local_port(1),
        lifetime: Some(300),
    }
}

#[test]
fn on_unwatch_removes_local_state_even_if_cancel_fails() {
    let mut d = driver("b8-test", "127.0.0.1", 0);
    d.opened(vec![]);
    d.watch_accepted(watch_request(8001, 42, 999), 0);
    assert_eq!(d.plan_unwatch(8001), UnwatchPlan::Dropped);
    assert!(d.subscriptions().is_empty());
}

#[test]
fn unwatching_cancels_and_forgets() {
    let mut d = driver("b8-test", "127.0.0.1", 0);
    d.opened(vec![device(42, 5000)]);
    d.add_object(8001, object(42, 0, 1));
    let req = d.plan_watch(8001).unwrap();
    d.watch_accepted(req, 0);
    d.handle_cov_notification(&notification(1, 0, 1, single(1.0)), 0);
    match d.plan_unwatch(8001) {
        UnwatchPlan::Cancel { addr, process_id, object_type, object_instance } => {
            assert_eq!(addr, local_port(5000));
            assert_eq!(process_id, req.process_id);
            assert_eq!((object_type, object_instance), (0, 1));
            d.drop_subscription(process_id);
        }
        other => panic!("expected Cancel, got {other:?}"),
    }
    assert!(!d.is_watched(8001));
    assert!(d.cov_cache().get(0, 1, 0, 600 * SECOND).is_none());
}

#[test]
fn renew_due_subscriptions_empty_is_noop() {
    let d = driver("b8-2-test", "127.0.0.1", 0);
    assert!(d.due_renewals(1_000_000 * SECOND).is_empty());
}

#[test]
fn renew_due_subscriptions_skips_fresh_entries() {
    let mut d = driver("b8-2-test", "127.0.0.1", 0).with_renewal_interval(60 * SECOND);
    d.opened(vec![device(42, 5000)]);
    d.watch_accepted(watch_request(8001, 1, 42), 100);
    assert!(d.due_renewals(100 + 60 * SECOND - 1).is_empty());
    assert_eq!(d.subscriptions().get(&1).unwrap().subscribed_at, 100);
}

#[test]
fn renew_due_subscriptions_device_not_in_registry_skipped() {
    let mut d = driver("b8-2-test", "127.0.0.1", 0).with_renewal_interval(1_000_000);
    d.watch_accepted(watch_request(8001, 1, 99), 0);
    assert!(d.due_renewals(20_000_000).is_empty());
    assert!(d.subscriptions().contains_key(&1));
    assert_eq!(d.subscriptions().get(&1).unwrap().subscribed_at, 0);
}

#[test]
fn renew_due_subscriptions_renews_against_mock_socket() {
    let mut d = driver("b8-2-test", "127.0.0.1", 0).with_renewal_interval(1_000_000);
    d.opened(vec![device(42, 5000)]);
    d.watch_accepted(watch_request(8001, 7, 42), 0);
    let due = d.due_renewals(20_000_000);
    assert_eq!(due.len(), 1);
    assert_eq!(due[0].process_id, 7);
    assert_eq!(due[0].addr, local_port(5000));
    d.renewed(7, 20_000_000);
    assert_eq!(d.subscriptions().get(&7).unwrap().subscribed_at, 20_000_000);
    assert!(d.due_renewals(20_000_001).is_empty());
}

// ── COV cache ───────────────────────────────────────────────

#[test]
fn cov_cache_insert_and_get() {
    let mut cache = CovCache::new();
    cache.update(&notification(1, 0, 1, single(42.0)), 0);

    let entry = cache.get(0, 1, 0, 600 * SECOND).expect("cache hit");
    assert_eq!(entry.value, single(42.0));
    assert_eq!(entry.process_id, 1);
}

#[test]
fn cov_cache_expired_returns_none() {
    let mut cache = CovCache::new();
    cache.update(&notification(1, 0, 1, single(42.0)), 0);
    let entry = cache.get(0, 1, 601 * SECOND, 600 * SECOND);
    assert!(entry.is_none(), "expired entry should return None");
}

#[test]
fn cov_cache_remove_works() {
    let mut cache = CovCache::new();
    cache.update(&notification(1, 0, 1, single(42.0)), 0);
    assert!(cache.get(0, 1, 0, 600 * SECOND).is_some());

    cache.remove(0, 1);
    assert!(cache.get(0, 1, 0, 600 * SECOND).is_none());
}

#[test]
fn cov_cache_update_from_notification() {
    let mut cache = CovCache::new();
    let notification = CovNotification {
        subscriber_process_id: 7,
        initiating_device_instance: 200,
        monitored_object_type: 2,
        monitored_object_instance: 10,
        time_remaining: Some(300),
        values: vec![
            CovPropertyValue {
                property_id: 111,
                array_index: None,
                value: BacnetValue::Unsigned(0),
            },
            CovPropertyValue { property_id: 85, array_index: None, value: single(42.0) },
        ],
    };
    cache.update(&notification, 0);

    let entry = cache.get(2, 10, 0, 600 * SECOND).expect("cache hit for AV:10");
    assert_eq!(entry.value, single(42.0));
    assert_eq!(entry.process_id, 7);
}

#[test]
fn cov_cache_ignores_non_present_value() {
    let mut cache = CovCache::new();
    let notification = CovNotification {
        subscriber_process_id: 1,
        initiating_device_instance: 100,
        monitored_object_type: 0,
        monitored_object_instance: 5,
        time_remaining: Some(300),
        values: vec![CovPropertyValue {
            property_id: 77,
            array_index: None,
            value: BacnetValue::CharacterString("test".into()),
        }],
    };
    cache.update(&notification, 0);

    assert!(
        cache.get(0, 5, 0, 600 * SECOND).is_none(),
        "non-PresentValue property should not populate cache"
    );
}

// ── Exchanges ───────────────────────────────────────────────

#[test]
fn exchange_ends_with_the_matching_reply() {
    let mut d = driver("x", "127.0.0.1", 0);
    let x = d.begin_exchange(3).unwrap();
    assert_eq!(x.sent(), Step::Receive);
    assert_eq!(d.exchange_packet(&x, &[0x81, 0x0A], 0), Step::Receive);
    let other = encode_simple_ack(x.invoke_id().wrapping_add(1), 0x0F);
    assert_eq!(d.exchange_packet(&x, &other, 0), Step::Receive);
    let mine = encode_simple_ack(x.invoke_id(), 0x0F);
    match d.exchange_packet(&x, &mine, 0) {
        Step::Finished(Outcome::Reply(Apdu::SimpleAck { invoke_id, service_choice })) => {
            assert_eq!(invoke_id, x.invoke_id());
            assert_eq!(service_choice, 0x0F);
        }
        other => panic!("expected the reply, got {other:?}"),
    }
}

#[test]
fn exchange_gives_up_after_the_last_retry() {
    let mut d = driver("x", "127.0.0.1", 0);
    let mut x = d.begin_exchange(2).unwrap();
    assert_eq!(d.exchange_timed_out(&mut x), Step::Send);
    assert_eq!(d.exchange_timed_out(&mut x), Step::Send);
    let last = d.exchange_timed_out(&mut x);
    assert_eq!(last, Step::Finished(Outcome::TimedOut(2)));
    match last {
        Step::Finished(outcome) => assert!(reply_or_driver_error(outcome).is_err()),
        _ => unreachable!(),
    }
    for _ in 0..256 {
        assert!(d.begin_exchange(0).is_some());
    }
    assert!(d.begin_exchange(0).is_none());
}

#[test]
fn failed_send_ends_the_exchange() {
    let mut d = driver("x", "127.0.0.1", 0);
    let x = d.begin_exchange(2).unwrap();
    assert_eq!(
        x.send_failed("no route".to_string()),
        Step::Finished(Outcome::SendFailed("no route".to_string()))
    );
}

// ── Foreign-device registration ─────────────────────────────

#[test]
fn registration_is_accepted_refused_or_retried() {
    let request = encode_register_foreign_device(300);
    assert_eq!(request, vec![0x81, BVLL_REGISTER_FOREIGN_DEVICE, 0x00, 0x06, 0x01, 0x2C]);
    let accepted = [0x81, 0x00, 0x00, 0x06, 0x00, 0x00];
    assert!(matches!(
        registration_step(0, Some(&accepted)),
        RegistrationStep::Registered
    ));
    let refused = [0x81, 0x00, 0x00, 0x06, 0x00, 0x30];
    match registration_step(0, Some(&refused)) {
        RegistrationStep::Failed(e) => assert_eq!(
            e.to_string(),
            "malformed frame: BBMD registration NAK: result code 0x0030"
        ),
        other => panic!("expected a refusal, got {other:?}"),
    }
    assert!(matches!(registration_step(0, None), RegistrationStep::Retry));
    assert!(matches!(registration_step(1, Some(&[0x81])), RegistrationStep::Retry));
    match registration_step(2, None) {
        RegistrationStep::Failed(BacnetError::Timeout(n)) => assert_eq!(n, 3),
        other => panic!("expected Timeout, got {other:?}"),
    }
}

#[test]
fn foreign_device_distributes_who_is() {
    let mut d = driver("x", "127.0.0.1", 0).with_bbmd_addr(local_port(47808));
    assert!(d.distributed_who_is().is_none());
    d.registered_with_bbmd();
    assert!(d.is_foreign_device());
    let (addr, pkt) = d.distributed_who_is().unwrap();
    assert_eq!(addr, local_port(47808));
    assert_eq!(pkt, vec![0x81, 0x09, 0x00, 0x08, 0x01, 0x00, 0x10, 0x08]);
}
