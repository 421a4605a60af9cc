//! Loading drivers and poll ticks.

use sandstar_drivers::driver::DriverError;
use sandstar_drivers::loader::{
    load_plan, plan_tick, point_refs, ConfiguredDriver, DRIVER_POLL_INTERVAL,
    DRIVER_WRITE_DURATION_SECS, DRIVER_WRITE_LEVEL,
};

fn configured(id: &str, point_ids: Vec<u32>) -> ConfiguredDriver {
    ConfiguredDriver { driver_id: id.to_string(), point_ids }
}

#[test]
fn registered_drivers_with_points_are_polled() {
    let drivers = [
        configured("a", vec![1, 2]),
        configured("b", vec![3]),
        configured("c", vec![]),
    ];
    let plan = load_plan(&drivers, &[true, false, true]);
    assert!(plan.open);
    assert!(plan.tick);
    assert_eq!(plan.polled.len(), 1);
    assert_eq!(plan.polled[0].driver_id, "a");
    assert_eq!(plan.polled[0].points.len(), 2);
    assert_eq!(plan.polled[0].points[1].point_id, 2);
    assert_eq!(plan.polled[0].points[1].address, "");
}

#[test]
fn nothing_follows_if_nothing_was_registered() {
    let plan = load_plan(&[configured("a", vec![1])], &[false]);
    assert!(!plan.open);
    assert!(!plan.tick);
    assert!(plan.polled.is_empty());
}

#[test]
fn drivers_without_points_are_opened_but_not_ticked() {
    let plan = load_plan(&[configured("a", vec![])], &[true]);
    assert!(plan.open);
    assert!(!plan.tick);
    assert!(point_refs(&[]).is_empty());
}

#[test]
fn ticks_write_what_was_read() {
    let plan = plan_tick(
        "bacnet",
        &[
            ("bac-1".to_string(), 100, Ok(72.5f64.to_bits())),
            ("bac-1".to_string(), 101, Err(DriverError::CommFault("x".to_string()))),
            ("bac-2".to_string(), 102, Ok(1.0f64.to_bits())),
        ],
    );
    assert_eq!(plan.err_count, 1);
    assert_eq!(plan.writes.len(), 2);
    assert_eq!(plan.writes[0].channel, 100);
    assert_eq!(f64::from_bits(plan.writes[0].value), 72.5);
    assert_eq!(plan.writes[0].level, DRIVER_WRITE_LEVEL);
    assert_eq!(plan.writes[0].who, "bacnet:bac-1");
    assert_eq!(plan.writes[0].duration_secs, DRIVER_WRITE_DURATION_SECS);
    assert_eq!(plan.writes[1].who, "bacnet:bac-2");
    assert_eq!(DRIVER_WRITE_LEVEL, 16);
    assert_eq!(DRIVER_POLL_INTERVAL, 5_000_000_000);
}
