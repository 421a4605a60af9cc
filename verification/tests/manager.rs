//! The driver manager's decisions.

use sandstar_drivers::driver::{
    DriverError, DriverPointRef, DriverStatus, PointStatus, PollMode, SyncRequest,
};
use sandstar_drivers::manager::{CovEvent, DriverManager, DriverRecord, ManagerCmd, Reaction};
use sandstar_drivers::poll_scheduler::PollScheduler;
use sandstar_drivers::watch_manager::DriverWatchManager;

fn record(id: &str, status: DriverStatus) -> DriverRecord {
    DriverRecord {
        id: id.to_string(),
        driver_type: "stub".to_string(),
        status,
        poll_mode: PollMode::Buckets,
    }
}

fn manager_with(ids: &[&str]) -> DriverManager {
    let mut m = DriverManager::new();
    for id in ids {
        m.register(record(id, DriverStatus::Running)).unwrap();
    }
    m
}

fn point(id: u32) -> DriverPointRef {
    DriverPointRef { point_id: id, address: String::new() }
}

fn bits(v: f64) -> u64 {
    v.to_bits()
}

#[test]
fn duplicate_registration_is_refused() {
    let mut m = manager_with(&["a"]);
    let err = m.register(record("a", DriverStatus::Pending)).unwrap_err();
    assert_eq!(err, DriverError::ConfigFault("driver 'a' already registered".to_string()));
    assert_eq!(m.driver_ids(), vec!["a".to_string()]);
    assert_eq!(m.get_driver_status("a"), Some(DriverStatus::Running));
}

#[test]
fn unknown_driver_is_reported() {
    let m = manager_with(&["a"]);
    assert!(m.require_driver("a").is_ok());
    assert_eq!(
        m.require_driver("b"),
        Err(DriverError::ConfigFault("driver 'b' not found".to_string()))
    );
    assert_eq!(m.get_driver_status("b"), None);
    assert!(m.driver_with_points_status("b").is_none());
}

#[test]
fn observed_status_is_shown() {
    let mut m = manager_with(&["a", "b"]);
    m.observe("b", DriverStatus::Down);
    m.observe("c", DriverStatus::Stale);
    assert_eq!(m.get_driver_status("a"), Some(DriverStatus::Running));
    assert_eq!(m.get_driver_status("b"), Some(DriverStatus::Down));
    assert_eq!(m.get_driver_status("c"), None);
}

#[test]
fn removing_a_driver_removes_its_points_and_buckets() {
    let mut m = manager_with(&["a", "b"]);
    m.register_point(1, "a");
    m.register_point(2, "b");
    m.add_poll_bucket("a", 5, vec![point(1)]);
    m.add_poll_bucket("b", 5, vec![point(2)]);
    assert!(m.remove("a"));
    assert!(!m.remove("a"));
    assert_eq!(m.driver_ids(), vec!["b".to_string()]);
    assert_eq!(m.effective_point_status(1), None);
    assert_eq!(m.effective_point_status(2), Some(DriverStatus::Running));
    m.register(record("a", DriverStatus::Running)).unwrap();
    let summaries = m.driver_summaries();
    assert_eq!(summaries[0].id, "b");
    assert_eq!(summaries[0].poll_buckets, 1);
    assert_eq!(summaries[1].id, "a");
    assert_eq!(summaries[1].poll_buckets, 0);
}

#[test]
fn summaries_count_buckets_and_points() {
    let mut m = manager_with(&["a"]);
    m.add_poll_bucket("a", 5, vec![point(1), point(2)]);
    m.add_poll_bucket("a", 9, vec![point(3)]);
    m.add_poll_bucket("x", 9, vec![point(4)]);
    let s = &m.driver_summaries()[0];
    assert_eq!(s.driver_type, "stub");
    assert_eq!(s.status, DriverStatus::Running);
    assert_eq!(s.poll_mode, "Buckets");
    assert_eq!(s.poll_buckets, 2);
    assert_eq!(s.poll_points, 3);
}

#[test]
fn points_inherit_or_override_status() {
    let mut m = manager_with(&["a"]);
    assert_eq!(m.effective_point_status(1), None);
    m.register_point(1, "a");
    assert_eq!(m.effective_point_status(1), Some(DriverStatus::Running));
    m.set_point_status(1, PointStatus::RemoteDown);
    assert_eq!(m.effective_point_status(1), Some(DriverStatus::Down));
    m.set_point_status(1, PointStatus::Own(DriverStatus::Stale));
    assert_eq!(m.effective_point_status(1), Some(DriverStatus::Stale));
    m.register_point(2, "missing");
    assert_eq!(m.effective_point_status(2), None);
    let (status, points) = m.driver_with_points_status("a").unwrap();
    assert_eq!(status, DriverStatus::Running);
    assert_eq!(points, vec![(1, DriverStatus::Stale)]);
}

#[test]
fn only_changed_values_are_told() {
    let mut m = manager_with(&["a"]);
    let first = m.note_reads(&[(1, Ok(bits(1.5))), (2, Ok(bits(2.5)))]);
    assert_eq!(
        first,
        vec![
            CovEvent { point_id: 1, value: bits(1.5), status: PointStatus::Inherited },
            CovEvent { point_id: 2, value: bits(2.5), status: PointStatus::Inherited },
        ]
    );
    assert!(m.note_reads(&[(1, Ok(bits(1.5)))]).is_empty());
    let third = m.note_reads(&[(1, Ok(bits(1.5))), (2, Ok(bits(3.0)))]);
    assert_eq!(third.len(), 1);
    assert_eq!(third[0].point_id, 2);
    assert!(m.note_reads(&[(1, Ok(bits(f64::NAN)))]).len() == 1);
    assert!(m.note_reads(&[(1, Ok(bits(f64::NAN)))]).len() == 1);
    assert!(m.note_reads(&[(1, Ok(bits(-f64::NAN)))]).len() == 1);
    assert!(m.note_reads(&[(1, Ok(bits(-f64::NAN)))]).len() == 1);
    assert!(m.note_reads(&[(1, Ok(bits(f64::INFINITY)))]).len() == 1);
    assert!(m.note_reads(&[(1, Ok(bits(f64::INFINITY)))]).is_empty());
    assert!(m.note_reads(&[(1, Ok(bits(f64::NEG_INFINITY)))]).len() == 1);
    assert!(m.note_reads(&[(1, Ok(bits(f64::NEG_INFINITY)))]).is_empty());
    assert!(m.note_reads(&[(1, Ok(bits(f64::MAX)))]).len() == 1);
    assert!(m.note_reads(&[(1, Ok(bits(f64::MAX)))]).is_empty());
}

#[test]
fn failures_mark_and_successes_clear_a_point() {
    let mut m = manager_with(&["a"]);
    m.register_point(1, "a");
    let events = m.note_reads(&[(1, Err(DriverError::RemoteStatus("class=2 code=31".into())))]);
    assert!(events.is_empty());
    assert_eq!(
        m.effective_point_status(1),
        Some(DriverStatus::Fault("class=2 code=31".to_string()))
    );
    m.note_reads(&[(1, Ok(bits(1.0)))]);
    assert_eq!(m.effective_point_status(1), Some(DriverStatus::Running));
}

#[test]
fn event_carries_the_status_after_the_whole_round() {
    let mut m = manager_with(&["a"]);
    let events = m.note_reads(&[
        (1, Ok(bits(1.0))),
        (1, Err(DriverError::Timeout("5s".into()))),
    ]);
    assert_eq!(events.len(), 1);
    assert_eq!(events[0].status, PointStatus::RemoteDown);
}

#[test]
fn first_and_last_watcher_call_the_driver() {
    let mut m = manager_with(&["a", "b"]);
    m.register_point(1, "a");
    m.register_point(2, "b");
    m.register_point(3, "gone");
    let calls = m.add_watch("x", &[1, 2, 3, 4]);
    assert_eq!(calls.len(), 2);
    assert_eq!(calls[0].driver_id, "a");
    assert_eq!(calls[0].points, vec![1]);
    assert_eq!(calls[1].driver_id, "b");
    assert_eq!(calls[1].points, vec![2]);
    assert!(m.add_watch("y", &[1]).is_empty());
    assert!(m.remove_watch("x", &[1]).is_empty());
    let calls = m.remove_watch("y", &[1]);
    assert_eq!(calls.len(), 1);
    assert_eq!(calls[0].points, vec![1]);
    assert!(m.remove_watch("y", &[1]).is_empty());
}

#[test]
fn reads_are_planned_for_registered_drivers() {
    let m = manager_with(&["a"]);
    let plan = m.sync_plan(vec![
        SyncRequest { driver_id: "x".to_string(), points: vec![point(9)] },
        SyncRequest { driver_id: "a".to_string(), points: vec![point(1), point(2)] },
    ]);
    assert_eq!(plan.len(), 1);
    assert_eq!(plan[0].driver_id, "a");
    assert_eq!(plan[0].points.len(), 2);
}

#[test]
fn commands_lead_to_reactions() {
    let mut m = DriverManager::new();
    let r = m.handle(ManagerCmd::Register(record("a", DriverStatus::Pending)));
    assert!(matches!(r, Reaction::Registered(Ok(()))));
    let r = m.handle(ManagerCmd::Register(record("a", DriverStatus::Pending)));
    assert!(matches!(r, Reaction::Registered(Err(_))));
    match m.handle(ManagerCmd::OpenAll) {
        Reaction::CallEach(ids) => assert_eq!(ids, vec!["a".to_string()]),
        other => panic!("unexpected: {other:?}"),
    }
    let r = m.handle(ManagerCmd::OpenDriver("a".to_string()));
    assert!(matches!(r, Reaction::Call(Ok(()))));
    for cmd in [
        ManagerCmd::OpenDriver("b".to_string()),
        ManagerCmd::CloseDriver("b".to_string()),
        ManagerCmd::PingDriver("b".to_string()),
        ManagerCmd::Learn("b".to_string()),
        ManagerCmd::Write("b".to_string()),
    ] {
        match m.handle(cmd) {
            Reaction::Call(Err(e)) => {
                assert_eq!(e.to_string(), "config fault: driver 'b' not found");
            }
            other => panic!("unexpected: {other:?}"),
        }
    }
    assert!(matches!(m.handle(ManagerCmd::RegisterPoint(7, "a".to_string())), Reaction::Done));
    let r = m.handle(ManagerCmd::SetPointStatus(7, PointStatus::RemoteDisabled));
    assert!(matches!(r, Reaction::Done));
    match m.handle(ManagerCmd::EffectivePointStatus(7)) {
        Reaction::Status(s) => assert_eq!(s, Some(DriverStatus::Disabled)),
        other => panic!("unexpected: {other:?}"),
    }
    match m.handle(ManagerCmd::DriverStatus("a".to_string())) {
        Reaction::Detail(Some((s, points))) => {
            assert_eq!(s, DriverStatus::Pending);
            assert_eq!(points, vec![(7, DriverStatus::Disabled)]);
        }
        other => panic!("unexpected: {other:?}"),
    }
    match m.handle(ManagerCmd::AddWatch("w".to_string(), vec![7])) {
        Reaction::Watch(calls) => assert_eq!(calls[0].points, vec![7]),
        other => panic!("unexpected: {other:?}"),
    }
    match m.handle(ManagerCmd::RemoveWatch("w".to_string(), vec![7])) {
        Reaction::Unwatch(calls) => assert_eq!(calls[0].driver_id, "a"),
        other => panic!("unexpected: {other:?}"),
    }
    let bucket = ManagerCmd::AddPollBucket("a".to_string(), 5, vec![point(7)]);
    assert!(matches!(m.handle(bucket), Reaction::Done));
    match m.handle(ManagerCmd::Status) {
        Reaction::Summaries(s) => assert_eq!(s[0].poll_points, 1),
        other => panic!("unexpected: {other:?}"),
    }
    match m.handle(ManagerCmd::SyncAll(vec![])) {
        Reaction::Read(plan) => assert!(plan.is_empty()),
        other => panic!("unexpected: {other:?}"),
    }
    match m.handle(ManagerCmd::GetDriverStatus("a".to_string())) {
        Reaction::Status(s) => assert_eq!(s, Some(DriverStatus::Pending)),
        other => panic!("unexpected: {other:?}"),
    }
    assert!(matches!(m.handle(ManagerCmd::Remove("a".to_string())), Reaction::Removed(true)));
    assert!(matches!(m.handle(ManagerCmd::Remove("a".to_string())), Reaction::Removed(false)));
    match m.handle(ManagerCmd::ListIds) {
        Reaction::Ids(ids) => assert!(ids.is_empty()),
        other => panic!("unexpected: {other:?}"),
    }
    match m.handle(ManagerCmd::CloseAll) {
        Reaction::CallEach(ids) => assert!(ids.is_empty()),
        other => panic!("unexpected: {other:?}"),
    }
}

#[test]
fn poll_buckets_are_kept_per_driver() {
    let mut s = PollScheduler::new();
    s.add_bucket("a", 5, vec![point(1)]);
    s.add_bucket("b", 6, vec![point(2), point(3)]);
    s.add_bucket("a", 7, vec![]);
    assert_eq!(s.buckets_for_driver("a"), vec![0, 2]);
    assert_eq!(s.bucket(1).unwrap().points.len(), 2);
    assert!(s.bucket(3).is_none());
    assert_eq!(s.points_for_driver("b"), 2);
    s.remove_driver("a");
    assert_eq!(s.buckets_for_driver("b"), vec![0]);
    assert!(s.buckets_for_driver("a").is_empty());
}

#[test]
fn watches_are_counted_per_subscriber() {
    let mut w = DriverWatchManager::new();
    w.subscribe("x", &[1, 2, 1]);
    w.subscribe("y", &[1]);
    assert!(w.is_watched(1));
    assert!(!w.is_watched(3));
    assert_eq!(w.subscribers_for(1).len(), 2);
    assert!(!w.only_watcher("x", 1));
    assert!(w.only_watcher("x", 2));
    w.unsubscribe("y", &[1, 3]);
    assert!(w.only_watcher("x", 1));
    w.unsubscribe("x", &[1, 2]);
    assert!(!w.is_watched(1));
    assert!(w.subscribers_for(2).is_empty());
}

#[test]
fn repeated_round_makes_no_event() {
    let mut m = manager_with(&["a"]);
    let round: Vec<(u32, Result<u64, DriverError>)> = vec![
        (1, Ok(bits(1.5))),
        (2, Err(DriverError::Timeout("no reply".into()))),
        (3, Ok(bits(-2.0))),
        (1, Ok(bits(1.5))),
    ];
    assert_eq!(m.note_reads(&round).len(), 2);
    assert!(m.note_reads(&round).is_empty());
}

#[test]
fn values_are_compared_by_their_bits() {
    let mut m = manager_with(&["a"]);
    assert_eq!(m.note_reads(&[(1, Ok(bits(0.0)))]).len(), 1);
    assert_eq!(m.note_reads(&[(1, Ok(bits(-0.0)))]).len(), 1);
}

#[test]
fn finished_round_is_answered_and_told() {
    let mut m = manager_with(&["a", "b"]);
    let plan = m.sync_plan(vec![
        SyncRequest { driver_id: "b".to_string(), points: vec![point(3)] },
        SyncRequest { driver_id: "x".to_string(), points: vec![point(9)] },
        SyncRequest { driver_id: "a".to_string(), points: vec![point(1), point(2)] },
    ]);
    let reads = vec![
        vec![(3, Ok(bits(3.5)))],
        vec![(1, Ok(bits(1.5))), (2, Err(DriverError::Timeout("5s".into())))],
    ];
    let (answer, events) = m.finish_sync(&plan, &reads);
    assert_eq!(
        answer,
        vec![
            ("b".to_string(), 3, Ok(bits(3.5))),
            ("a".to_string(), 1, Ok(bits(1.5))),
            ("a".to_string(), 2, Err(DriverError::Timeout("5s".into()))),
        ]
    );
    assert_eq!(
        events,
        vec![
            CovEvent { point_id: 3, value: bits(3.5), status: PointStatus::Inherited },
            CovEvent { point_id: 1, value: bits(1.5), status: PointStatus::Inherited },
        ]
    );
    m.register_point(2, "a");
    assert_eq!(m.effective_point_status(2), Some(DriverStatus::Down));

    let (answer, events) = m.finish_sync(&plan, &reads);
    assert_eq!(answer.len(), 3);
    assert!(events.is_empty());
    let (answer, events) = m.finish_sync(&vec![], &vec![]);
    assert!(answer.is_empty());
    assert!(events.is_empty());
}

#[test]
fn registered_id_stays_taken() {
    let mut m = DriverManager::new();
    m.handle(ManagerCmd::Register(record("a", DriverStatus::Pending)));
    m.handle(ManagerCmd::Register(record("b", DriverStatus::Pending)));
    m.handle(ManagerCmd::Remove("b".to_string()));
    m.handle(ManagerCmd::SetPointStatus(1, PointStatus::RemoteDown));
    let ids = |m: &mut DriverManager| match m.handle(ManagerCmd::ListIds) {
        Reaction::Ids(ids) => ids,
        other => panic!("unexpected: {other:?}"),
    };
    assert_eq!(ids(&mut m), vec!["a".to_string()]);
    match m.handle(ManagerCmd::Register(record("a", DriverStatus::Running))) {
        Reaction::Registered(Err(e)) => {
            assert_eq!(e.to_string(), "config fault: driver 'a' already registered");
        }
        other => panic!("unexpected: {other:?}"),
    }
    assert_eq!(ids(&mut m), vec!["a".to_string()]);
}
