//! Rounds of learning the points of BACnet devices.

use sandstar_drivers::bacnet::learn::{LearnRun, LearnStep};
use sandstar_drivers::bacnet::value::BacnetValue;
use sandstar_drivers::bacnet::{BacnetDriver, DeviceInfo, SocketAddress, DEFAULT_BACNET_PORT};

fn driver(id: &str, broadcast: &str, port: u16) -> BacnetDriver {
    BacnetDriver::new(id.to_string(), broadcast.to_string(), port)
}

fn local_port(port: u16) -> SocketAddress {
    SocketAddress::V4 { octets: u32::from_be_bytes([127, 0, 0, 1]), port }
}

fn device(instance: u32, port: u16) -> DeviceInfo {
    DeviceInfo { instance, addr: local_port(port), max_apdu: 1476, vendor_id: 8, segmentation: 3 }
}

fn object_id(object_type: u16, instance: u32) -> BacnetValue {
    BacnetValue::ObjectId { object_type, instance }
}

#[test]
fn learn_with_no_devices_returns_empty_grid() {
    let driver = driver("b4-empty", "127.0.0.1", 0);
    let mut run = LearnRun::begin(&driver);
    assert_eq!(run.next(), LearnStep::Done);
    assert!(run.into_grid().is_empty());
}

#[test]
fn bacnet_learn_empty_registry_returns_empty_grid() {
    let d = driver("bac-2", "255.255.255.255", DEFAULT_BACNET_PORT);
    let mut run = LearnRun::begin(&d);
    assert_eq!(run.next(), LearnStep::Done);
    assert!(run.into_grid().is_empty());
}

#[test]
fn learn_integration_with_mock_device() {
    let mut driver = driver("b4-integ", "127.0.0.1", 0);
    driver.opened(vec![device(1001, 5000)]);
    assert_eq!(driver.device_registry().len(), 1);

    let mut run = LearnRun::begin(&driver);
    assert_eq!(run.next(), LearnStep::ReadList { addr: local_port(5000), device: 1001 });
    run.list_read(Some(BacnetValue::Array(vec![
        object_id(0, 0),
        object_id(1, 1),
        object_id(3, 0),
    ])));
    for (object_type, instance, name) in
        [(0, 0, "TempSensor"), (1, 1, "Valve"), (3, 0, "MotionSensor")]
    {
        assert_eq!(
            run.next(),
            LearnStep::ReadName { addr: local_port(5000), object_type, instance }
        );
        run.name_read(Some(name.to_string()));
    }
    assert_eq!(run.next(), LearnStep::Done);

    let grid = run.into_grid();
    assert_eq!(grid.len(), 3, "expected 3 points, got {grid:?}");
    let temp = grid.iter().find(|p| p.name == "1001-TempSensor").unwrap();
    assert_eq!(temp.kind, "Number");
    let valve = grid.iter().find(|p| p.name == "1001-Valve").unwrap();
    assert_eq!(valve.kind, "Number");
    let motion = grid.iter().find(|p| p.name == "1001-MotionSensor").unwrap();
    assert_eq!(motion.kind, "Bool");
}

#[test]
fn only_objects_that_make_points_are_asked_for_their_name() {
    let mut driver = driver("b4", "127.0.0.1", 0);
    driver.opened(vec![device(7, 5000)]);
    let mut run = LearnRun::begin(&driver);
    assert!(matches!(run.next(), LearnStep::ReadList { .. }));
    run.list_read(Some(BacnetValue::Array(vec![
        object_id(8, 7),
        object_id(20, 1),
        BacnetValue::Null,
        object_id(5, 9),
    ])));
    assert!(matches!(run.next(), LearnStep::ReadName { object_type: 5, instance: 9, .. }));
    run.name_read(None);
    assert_eq!(run.next(), LearnStep::Done);
    let grid = run.into_grid();
    assert_eq!(grid.len(), 1);
    assert_eq!(grid[0].name, "7-5-9");
    assert_eq!(grid[0].address, "7:5:9");
    assert_eq!(grid[0].tag("objectType"), Some(&"5".to_string()));
}

#[test]
fn device_without_a_list_is_passed_over() {
    let mut driver = driver("b4", "127.0.0.1", 0);
    driver.opened(vec![device(1, 5001), device(2, 5002), device(3, 5003)]);
    let mut run = LearnRun::begin(&driver);
    let mut asked = Vec::new();
    loop {
        match run.next() {
            LearnStep::ReadList { device, .. } => {
                asked.push(device);
                match device {
                    1 => run.list_read(None),
                    2 => run.list_read(Some(object_id(0, 4))),
                    _ => run.list_read(Some(BacnetValue::Array(vec![]))),
                }
            }
            LearnStep::ReadName { .. } => run.name_read(Some("only".to_string())),
            LearnStep::Done => break,
        }
    }
    asked.sort();
    assert_eq!(asked, vec![1, 2, 3]);
    let grid = run.into_grid();
    assert_eq!(grid.len(), 1);
    assert_eq!(grid[0].name, "2-only");
}
