use pfp::models::FlowRun;
use pfp::monitor::{RunWatch, WatchOutcome};
use pfp::params::ParamValue;

fn snapshot(id: &str, state_type: &str, state_name: &str, start_time: Option<&str>) -> FlowRun {
    FlowRun {
        id: id.to_string(),
        name: "run".to_string(),
        state_type: state_type.to_string(),
        state_name: state_name.to_string(),
        deployment_id: None,
        start_time: start_time.map(|t| t.to_string()),
        end_time: None,
        total_run_time: 0,
        parameters: ParamValue::Null,
    }
}

#[test]
fn running_then_completed_emits_two_events_and_succeeds() {
    let id = "171a3f55-e9a5-4100-a2dd-efe5c711f847";
    let mut watch = RunWatch::new();
    let mut events = 0;

    let (e1, o1) = watch.observe(&snapshot(id, "RUNNING", "Running", None));
    if e1.is_some() {
        events += 1;
    }
    assert!(matches!(o1, WatchOutcome::Continue));

    let (e2, o2) = watch.observe(&snapshot(id, "COMPLETED", "Completed", None));
    if e2.is_some() {
        events += 1;
    }
    assert!(matches!(o2, WatchOutcome::Success));

    assert_eq!(events, 2);
}

#[test]
fn repeated_identical_snapshot_emits_nothing() {
    let id = "171a3f55-e9a5-4100-a2dd-efe5c711f847";
    let mut watch = RunWatch::new();
    let (e1, _) = watch.observe(&snapshot(id, "RUNNING", "Running", None));
    assert!(e1.is_some());
    let (e2, _) = watch.observe(&snapshot(id, "RUNNING", "Running", None));
    assert!(e2.is_none());
    let (e3, o3) = watch.observe(&snapshot(id, "COMPLETED", "Completed", None));
    assert!(e3.is_some());
    assert!(matches!(o3, WatchOutcome::Success));
}

#[test]
fn crashed_run_fails_with_state_name_and_short_id() {
    let id = "171a3f55-e9a5-4100-a2dd-efe5c711f847";
    let mut watch = RunWatch::new();
    let (_, outcome) = watch.observe(&snapshot(id, "CRASHED", "Crashed", None));
    match outcome {
        WatchOutcome::Failed(m) => assert_eq!(m, "Crashed (171a3f55)"),
        _ => panic!("expected a failed outcome"),
    }
}

#[test]
fn failed_and_cancelled_are_failures() {
    let id = "171a3f55-e9a5-4100-a2dd-efe5c711f847";
    for (ty, name, expected) in [
        ("FAILED", "Failed", "Failed (171a3f55)"),
        ("CANCELLED", "Cancelled", "Cancelled (171a3f55)"),
    ] {
        let mut watch = RunWatch::new();
        let (_, outcome) = watch.observe(&snapshot(id, ty, name, None));
        match outcome {
            WatchOutcome::Failed(m) => assert_eq!(m, expected),
            _ => panic!("expected a failed outcome"),
        }
    }
}

#[test]
fn event_timestamp_prefers_start_time() {
    let id = "171a3f55-e9a5-4100-a2dd-efe5c711f847";
    let mut watch = RunWatch::new();
    let (e, _) = watch.observe(&snapshot(
        id,
        "RUNNING",
        "Running",
        Some("2026-02-21T17:34:05.301Z"),
    ));
    assert_eq!(e.unwrap().timestamp, "2026-02-21T17:34:05.301Z");
}

#[test]
fn event_timestamp_falls_back_to_short_id() {
    let id = "171a3f55-e9a5-4100-a2dd-efe5c711f847";
    let mut watch = RunWatch::new();
    let (e, _) = watch.observe(&snapshot(id, "RUNNING", "Running", None));
    assert_eq!(e.unwrap().timestamp, "171a3f55");
}

#[test]
fn event_timestamp_placeholder_for_tiny_identifier() {
    let mut watch = RunWatch::new();
    let (e, _) = watch.observe(&snapshot("abc", "RUNNING", "Running", None));
    assert_eq!(e.unwrap().timestamp, "-");
}

#[test]
fn unknown_state_type_keeps_polling() {
    let mut watch = RunWatch::new();
    let (_, outcome) = watch.observe(&snapshot("abc", "SOMETHING_NEW", "Odd", None));
    assert!(matches!(outcome, WatchOutcome::Continue));
}
