//! The local I/O driver.

use sandstar_drivers::driver::{
    DriverPointRef, DriverStatus, PollMode, SyncContext, WriteContext,
};
use sandstar_drivers::local_io::{LocalIoChannel, LocalIoDriver};

fn local(id: &str) -> LocalIoDriver {
    LocalIoDriver::new(id.to_string())
}

fn channel(id: u32, label: &str, direction: &str, kind: &str, address: &str) -> LocalIoChannel {
    LocalIoChannel::new(
        id,
        label.to_string(),
        direction.to_string(),
        kind.to_string(),
        address.to_string(),
    )
}

fn make_driver_with_channels() -> LocalIoDriver {
    let mut d = local("test-local");
    d.configure_channels(vec![
        channel(1100, "AI1 RTD", "AI", "analog", "AIN0"),
        channel(1200, "AI2 Therm", "AI", "analog", "AIN1"),
        channel(5000, "DO1 Relay", "DO", "digital", "GPIO60"),
        channel(6000, "PWM Fan", "PWM", "pwm", "PWM0:0"),
        {
            let mut ch = channel(7000, "AI3 Disabled", "AI", "analog", "AIN2");
            ch.enabled = false;
            ch
        },
    ]);
    d
}

#[test]
fn open_close_lifecycle() {
    let mut d = local("lc");
    assert_eq!(*d.status(), DriverStatus::Pending);

    let meta = d.open();
    assert_eq!(meta.firmware_version, Some("1.6.0".into()));
    assert_eq!(meta.model, Some("BeagleBone Black".into()));
    assert_eq!(*d.status(), DriverStatus::Running);

    d.close();
    assert_eq!(*d.status(), DriverStatus::Down);
}

#[test]
fn ping_returns_model() {
    let mut d = local("ping");
    d.open();
    let meta = d.ping();
    assert_eq!(meta.model, Some("BeagleBone Black".into()));
}

#[test]
fn driver_type_is_local_io() {
    let d = local("dt");
    assert_eq!(d.driver_type(), "localIo");
}

#[test]
fn learn_returns_all_channels() {
    let mut d = make_driver_with_channels();
    let grid = d.learn();
    assert_eq!(grid.len(), 5);
    assert_eq!(grid[0].name, "AI1 RTD");
    assert_eq!(grid[0].address, "AIN0");
    assert_eq!(grid[0].kind, "analog");
    assert_eq!(grid[0].tag("direction").unwrap(), "AI");

    // Disabled channel has disabled tag
    assert_eq!(grid[4].tag("disabled").unwrap(), "true");
}

#[test]
fn sync_cur_enabled_channel() {
    let mut d = make_driver_with_channels();
    d.open();
    d.update_value(1100, 72.5f64.to_bits(), "ok");

    let refs = vec![DriverPointRef {
        point_id: 1100,
        address: "AIN0".into(),
    }];
    let mut ctx = SyncContext::new();
    d.sync_cached(&refs, &mut ctx);
    let results = ctx.into_results();
    assert_eq!(results.len(), 1);
    assert_eq!(results[0].0, 1100);
    assert!((f64::from_bits(*results[0].1.as_ref().unwrap()) - 72.5).abs() < f64::EPSILON);
}

#[test]
fn sync_cur_disabled_channel() {
    let mut d = make_driver_with_channels();
    d.open();

    let refs = vec![DriverPointRef {
        point_id: 7000,
        address: "AIN2".into(),
    }];
    let mut ctx = SyncContext::new();
    d.sync_cached(&refs, &mut ctx);
    let results = ctx.into_results();
    assert!(results[0].1.is_err());
    assert!(results[0]
        .1
        .as_ref()
        .unwrap_err()
        .to_string()
        .contains("disabled"));
}

#[test]
fn sync_cur_unknown_channel() {
    let mut d = make_driver_with_channels();
    d.open();

    let refs = vec![DriverPointRef {
        point_id: 9999,
        address: "X".into(),
    }];
    let mut ctx = SyncContext::new();
    d.sync_cached(&refs, &mut ctx);
    let results = ctx.into_results();
    assert!(results[0].1.is_err());
    assert!(results[0]
        .1
        .as_ref()
        .unwrap_err()
        .to_string()
        .contains("not found"));
}

#[test]
fn write_output_channel() {
    let mut d = make_driver_with_channels();
    d.open();

    let mut ctx = WriteContext::new();
    d.write_cached(&[(5000, 1.0f64.to_bits()), (6000, 0.75f64.to_bits())], &mut ctx);
    let results = ctx.into_results();
    assert_eq!(results.len(), 2);
    assert!(results[0].1.is_ok());
    assert!(results[1].1.is_ok());

    // Verify value was cached
    let ch = d.channels().iter().find(|c| c.channel_id == 5000).unwrap();
    assert!((f64::from_bits(ch.last_value) - 1.0).abs() < f64::EPSILON);
}

#[test]
fn write_input_channel_fails() {
    let mut d = make_driver_with_channels();
    d.open();

    let mut ctx = WriteContext::new();
    d.write_cached(&[(1100, 50.0f64.to_bits())], &mut ctx);
    let results = ctx.into_results();
    assert!(results[0].1.is_err());
    assert!(results[0]
        .1
        .as_ref()
        .unwrap_err()
        .to_string()
        .contains("not an output"));
}

#[test]
fn write_unknown_channel_fails() {
    let mut d = make_driver_with_channels();
    d.open();

    let mut ctx = WriteContext::new();
    d.write_cached(&[(9999, 0.0f64.to_bits())], &mut ctx);
    let results = ctx.into_results();
    assert!(results[0].1.is_err());
}

#[test]
fn poll_mode_is_buckets() {
    let d = local("pm");
    assert_eq!(d.poll_mode(), PollMode::Buckets);
}

#[test]
fn point_count_tracks_channels() {
    let mut d = local("pc");
    assert_eq!(d.point_count(), 0);
    d.add_point(1, "AIN0".to_string(), "Number".to_string());
    d.add_point(2, "GPIO60".to_string(), "Bool".to_string());
    assert_eq!(d.point_count(), 2);
}

#[test]
fn add_point_infers_direction() {
    let mut d = local("inf");
    d.add_point(100, "AIN0".to_string(), "Number".to_string());
    d.add_point(200, "GPIO5".to_string(), "Bool".to_string());

    assert_eq!(d.channels()[0].direction, "AI");
    assert_eq!(d.channels()[0].channel_type, "analog");
    assert_eq!(d.channels()[1].direction, "DI");
    assert_eq!(d.channels()[1].channel_type, "digital");
}

#[test]
fn update_value_updates_cache() {
    let mut d = make_driver_with_channels();
    d.update_value(1100, 85.3f64.to_bits(), "ok");
    let ch = d.channels().iter().find(|c| c.channel_id == 1100).unwrap();
    assert!((f64::from_bits(ch.last_value) - 85.3).abs() < f64::EPSILON);
    assert_eq!(ch.last_status, "ok");
}

#[test]
fn local_io_channel_is_output() {
    assert!(channel(1, "x", "DO", "digital", "G").is_output());
    assert!(channel(2, "x", "AO", "analog", "A").is_output());
    assert!(channel(3, "x", "PWM", "pwm", "P").is_output());
    assert!(!channel(4, "x", "AI", "analog", "A").is_output());
    assert!(!channel(5, "x", "DI", "digital", "G").is_output());
}

#[test]
fn is_engine_backed_reports_constructor_choice() {
    let d1 = local("no-eng");
    assert!(!d1.is_engine_backed());

    let d2 = LocalIoDriver::with_engine("with-eng".to_string());
    assert!(d2.is_engine_backed());
}

#[test]
fn written_value_is_read_and_others_stay() {
    let mut d = local("io");
    d.configure_channels(vec![
        channel(1, "fan", "DO", "digital", "GPIO60"),
        channel(2, "valve", "AO", "analog", "PWM0"),
        channel(3, "sensor", "AI", "analog", "AIN0"),
    ]);
    assert!(d.write_one(1, 1.0f64.to_bits()).is_ok());
    assert!(d.write_one(2, 0.25f64.to_bits()).is_ok());
    assert!(d.write_one(3, 9.0f64.to_bits()).is_err());
    assert_eq!(d.read_cached(1).unwrap(), 1.0f64.to_bits());
    assert_eq!(d.read_cached(2).unwrap(), 0.25f64.to_bits());
    assert_eq!(d.read_cached(3).unwrap(), 0.0f64.to_bits());
}

#[test]
fn engine_writes_are_signed_with_the_driver() {
    assert_eq!(local("io-1").writer_name(), "localIo:io-1");
}
