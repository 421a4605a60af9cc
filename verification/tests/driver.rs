//! Driver status, errors, point status and result collectors.

use sandstar_drivers::driver::{
    DriverError, DriverStatus, LearnPoint, PointStatus, SyncContext, WriteContext,
};

#[test]
fn sync_context_collects_ok_and_err() {
    let mut ctx: SyncContext<f64> = SyncContext::new();
    ctx.update_cur_ok(1, 1.5);
    ctx.update_cur_err(2, DriverError::CommFault("x".into()));
    ctx.update_cur_ok(3, 3.5);

    let results = ctx.into_results();
    assert_eq!(results.len(), 3);
    assert_eq!(results[0].0, 1);
    assert!((results[0].1.as_ref().unwrap() - 1.5).abs() < f64::EPSILON);
    assert_eq!(results[1].0, 2);
    assert!(matches!(results[1].1, Err(DriverError::CommFault(_))));
    assert_eq!(results[2].0, 3);
    assert!(results[2].1.is_ok());
}

#[test]
fn sync_context_with_capacity_starts_empty() {
    let ctx = SyncContext::<f64>::with_capacity(16);
    assert!(ctx.results().is_empty());
}

#[test]
fn write_context_collects_ok_and_err() {
    let mut ctx = WriteContext::new();
    ctx.update_write_ok(10);
    ctx.update_write_err(20, DriverError::ConfigFault("bad".into()));

    let results = ctx.into_results();
    assert_eq!(results.len(), 2);
    assert_eq!(results[0].0, 10);
    assert!(results[0].1.is_ok());
    assert_eq!(results[1].0, 20);
    assert!(matches!(results[1].1, Err(DriverError::ConfigFault(_))));
}

#[test]
fn write_context_with_capacity_starts_empty() {
    let ctx = WriteContext::with_capacity(4);
    assert!(ctx.results().is_empty());
}

#[test]
fn sync_context_preserves_insertion_order() {
    let mut ctx = SyncContext::new();
    for i in (0..5u32).rev() {
        ctx.update_cur_ok(i, f64::from(i));
    }
    let results = ctx.into_results();
    assert_eq!(
        results.iter().map(|(id, _)| *id).collect::<Vec<_>>(),
        vec![4, 3, 2, 1, 0]
    );
}

#[test]
fn driver_status_display() {
    assert_eq!(DriverStatus::Pending.to_string(), "pending");
    assert_eq!(DriverStatus::Running.to_string(), "ok");
    assert_eq!(DriverStatus::Stale.to_string(), "stale");
    assert_eq!(
        DriverStatus::Fault("timeout".into()).to_string(),
        "fault: timeout"
    );
    assert_eq!(DriverStatus::Disabled.to_string(), "disabled");
    assert_eq!(DriverStatus::Down.to_string(), "down");
    assert_eq!(DriverStatus::Syncing.to_string(), "syncing");
}

#[test]
fn driver_status_clone_and_eq() {
    let statuses = vec![
        DriverStatus::Pending,
        DriverStatus::Running,
        DriverStatus::Stale,
        DriverStatus::Fault("x".into()),
        DriverStatus::Disabled,
        DriverStatus::Down,
        DriverStatus::Syncing,
    ];
    for s in &statuses {
        assert_eq!(s, &s.clone());
    }
    assert_ne!(DriverStatus::Running, DriverStatus::Stale);
    assert_ne!(DriverStatus::Running, DriverStatus::Syncing);
}

#[test]
fn driver_error_display() {
    let e = DriverError::ConfigFault("bad addr".into());
    assert!(e.to_string().contains("config fault"));

    let e = DriverError::CommFault("timeout".into());
    assert!(e.to_string().contains("comm fault"));

    let e = DriverError::NotSupported("learn");
    assert!(e.to_string().contains("not supported"));

    let e = DriverError::RemoteStatus("device offline".into());
    assert!(e.to_string().contains("remote status"));

    let e = DriverError::Timeout("5s elapsed".into());
    assert!(e.to_string().contains("timeout"));

    let e = DriverError::Internal("unexpected state".into());
    assert!(e.to_string().contains("internal error"));

    let e = DriverError::HardwareNotFound("/dev/i2c-2".into());
    assert!(e.to_string().contains("hardware not found"));
}

#[test]
fn driver_error_all_variants_are_errors() {
    let errors: Vec<DriverError> = vec![
        DriverError::ConfigFault("a".into()),
        DriverError::CommFault("b".into()),
        DriverError::NotSupported("c"),
        DriverError::RemoteStatus("d".into()),
        DriverError::Timeout("e".into()),
        DriverError::Internal("f".into()),
        DriverError::HardwareNotFound("g".into()),
    ];
    for e in &errors {
        let msg = e.to_string();
        assert!(!msg.is_empty());
    }
}

#[test]
fn point_status_inherited_resolves_to_driver() {
    let ps = PointStatus::Inherited;
    assert_eq!(ps.resolve(&DriverStatus::Running), DriverStatus::Running);
    assert_eq!(ps.resolve(&DriverStatus::Down), DriverStatus::Down);
    assert_eq!(ps.resolve(&DriverStatus::Stale), DriverStatus::Stale);
    assert_eq!(ps.resolve(&DriverStatus::Syncing), DriverStatus::Syncing);
    assert_eq!(
        ps.resolve(&DriverStatus::Fault("x".into())),
        DriverStatus::Fault("x".into())
    );
}

#[test]
fn point_status_own_overrides_driver() {
    let ps = PointStatus::Own(DriverStatus::Fault("point-specific".into()));
    // Even if driver is Ok, point has its own fault
    assert_eq!(
        ps.resolve(&DriverStatus::Running),
        DriverStatus::Fault("point-specific".into())
    );
}

#[test]
fn point_status_default_is_inherited() {
    assert_eq!(PointStatus::default(), PointStatus::Inherited);
}

#[test]
fn point_status_remote_disabled_is_terminal() {
    let ps = PointStatus::RemoteDisabled;
    // Terminal — does NOT fall back to driver status even when driver is Ok.
    assert_eq!(ps.resolve(&DriverStatus::Running), DriverStatus::Disabled);
    assert_eq!(ps.resolve(&DriverStatus::Down), DriverStatus::Disabled);
}

#[test]
fn point_status_remote_down_is_terminal() {
    let ps = PointStatus::RemoteDown;
    assert_eq!(ps.resolve(&DriverStatus::Running), DriverStatus::Down);
    assert_eq!(ps.resolve(&DriverStatus::Stale), DriverStatus::Down);
}

#[test]
fn point_status_remote_fault_carries_reason() {
    let ps = PointStatus::RemoteFault("write-access-denied".into());
    let resolved = ps.resolve(&DriverStatus::Running);
    assert_eq!(resolved, DriverStatus::Fault("write-access-denied".into()));
}

#[test]
fn point_status_is_remote_classifier() {
    assert!(!PointStatus::Inherited.is_remote());
    assert!(!PointStatus::Own(DriverStatus::Running).is_remote());
    assert!(PointStatus::RemoteDisabled.is_remote());
    assert!(PointStatus::RemoteDown.is_remote());
    assert!(PointStatus::RemoteFault("x".into()).is_remote());
}

#[test]
fn point_status_from_driver_error_remote_status() {
    let err = DriverError::RemoteStatus("class=2 code=31".into());
    let ps = PointStatus::from_driver_error(&err);
    assert_eq!(
        ps,
        PointStatus::RemoteFault("class=2 code=31".into())
    );
}

#[test]
fn point_status_from_driver_error_comm_fault_is_remote_down() {
    let err = DriverError::CommFault("socket closed".into());
    let ps = PointStatus::from_driver_error(&err);
    assert_eq!(ps, PointStatus::RemoteDown);
}

#[test]
fn point_status_from_driver_error_timeout_is_remote_down() {
    let err = DriverError::Timeout("5s".into());
    let ps = PointStatus::from_driver_error(&err);
    assert_eq!(ps, PointStatus::RemoteDown);
}

#[test]
fn point_status_from_driver_error_config_fault_is_own() {
    let err = DriverError::ConfigFault("bad address".into());
    let ps = PointStatus::from_driver_error(&err);
    match ps {
        PointStatus::Own(DriverStatus::Fault(msg)) => assert_eq!(msg, "bad address"),
        other => panic!("expected Own(Fault), got {other:?}"),
    }
}

#[test]
fn point_status_from_driver_error_hardware_not_found_is_own() {
    let err = DriverError::HardwareNotFound("/dev/gpiochip9".into());
    let ps = PointStatus::from_driver_error(&err);
    match ps {
        PointStatus::Own(DriverStatus::Fault(msg)) => assert_eq!(msg, "/dev/gpiochip9"),
        other => panic!("expected Own(Fault), got {other:?}"),
    }
}

#[test]
fn point_status_from_driver_error_not_supported_is_own() {
    let err = DriverError::NotSupported("write");
    let ps = PointStatus::from_driver_error(&err);
    match ps {
        PointStatus::Own(DriverStatus::Fault(msg)) => {
            assert!(msg.contains("not supported"));
            assert!(msg.contains("write"));
        }
        other => panic!("expected Own(Fault), got {other:?}"),
    }
}

#[test]
fn setting_a_tag_replaces_the_one_with_its_key() {
    let mut p = LearnPoint {
        name: "n".to_string(),
        address: "a".to_string(),
        kind: "Number".to_string(),
        unit: None,
        tags: vec![],
    };
    p.set_tag("scale".to_string(), "2".to_string());
    p.set_tag("offset".to_string(), "1".to_string());
    p.set_tag("scale".to_string(), "0.5".to_string());
    assert_eq!(
        p.tags,
        vec![
            ("scale".to_string(), "0.5".to_string()),
            ("offset".to_string(), "1".to_string()),
        ]
    );
    assert_eq!(p.tag("offset").unwrap(), "1");
    assert_eq!(p.tag("unit"), None);
}
