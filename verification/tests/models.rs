use pfp::models::{truncate, Deployment, FlowRun, LogEntry};
use pfp::params::ParamValue;

fn deployment(name: &str, flow_name: &str, paused: bool) -> Deployment {
    Deployment {
        id: "abc".to_string(),
        name: name.to_string(),
        flow_name: flow_name.to_string(),
        description: None,
        paused,
        work_pool_name: None,
        tags: vec![],
        parameters: ParamValue::Null,
    }
}

fn flow_run(id: &str, state_type: &str, state_name: &str) -> FlowRun {
    FlowRun {
        id: id.to_string(),
        name: "run".to_string(),
        state_type: state_type.to_string(),
        state_name: state_name.to_string(),
        deployment_id: None,
        start_time: None,
        end_time: None,
        total_run_time: 0,
        parameters: ParamValue::Null,
    }
}

#[test]
fn deployment_full_name() {
    let d = deployment("my-deploy-prod", "my_flow", false);
    assert_eq!(d.full_name(), "my_flow/my-deploy-prod");
}

#[test]
fn deployment_status_active() {
    let d = deployment("d", "f", false);
    assert_eq!(d.status_str(), "active");
}

#[test]
fn deployment_status_paused() {
    let d = deployment("d", "f", true);
    assert_eq!(d.status_str(), "paused");
}

#[test]
fn flow_run_terminal_states() {
    for state in &["COMPLETED", "FAILED", "CANCELLED", "CRASHED"] {
        let fr = flow_run("abc", state, state);
        assert!(fr.is_terminal(), "{} should be terminal", state);
    }
}

#[test]
fn flow_run_non_terminal_states() {
    for state in &["SCHEDULED", "PENDING", "RUNNING"] {
        let fr = flow_run("abc", state, state);
        assert!(!fr.is_terminal(), "{} should not be terminal", state);
    }
}

#[test]
fn flow_run_success_only_when_completed() {
    assert!(flow_run("a", "COMPLETED", "Completed").is_success());
    assert!(!flow_run("a", "FAILED", "Failed").is_success());
}

#[test]
fn flow_run_duration_seconds_only() {
    let mut fr = flow_run("a", "", "");
    fr.total_run_time = 45;
    assert_eq!(fr.duration_str(), "45s");
}

#[test]
fn flow_run_duration_with_minutes() {
    let mut fr = flow_run("a", "", "");
    fr.total_run_time = 125;
    assert_eq!(fr.duration_str(), "2m 05s");
}

#[test]
fn flow_run_short_id() {
    let fr = flow_run("171a3f55-e9a5-4100-a2dd-efe5c711f847", "", "");
    assert_eq!(fr.short_id(), "171a3f55");
}

#[test]
fn flow_run_short_id_of_short_identifier() {
    let fr = flow_run("abc", "", "");
    assert_eq!(fr.short_id(), "abc");
}

#[test]
fn flow_run_start_time_formatting() {
    let mut fr = flow_run("a", "", "");
    fr.start_time = Some("2026-02-21T17:34:05.301Z".to_string());
    assert_eq!(fr.start_time_short(), "2026-02-21 17:34");
}

#[test]
fn flow_run_start_time_none() {
    let fr = flow_run("a", "", "");
    assert_eq!(fr.start_time_short(), "-");
}

#[test]
fn log_entry_fields_carry_through() {
    let entry = LogEntry {
        level: "INFO".to_string(),
        message: "Flow started".to_string(),
        timestamp: "2026-02-21T17:34:05.301Z".to_string(),
    };
    assert_eq!(entry.level, "INFO");
}

#[test]
fn truncate_short_unchanged() {
    assert_eq!(truncate("hello", 10), "hello");
}

#[test]
fn truncate_long_adds_ellipsis() {
    assert_eq!(truncate("hello world!", 8), "hello...");
}

#[test]
fn truncate_exact_length() {
    assert_eq!(truncate("hello", 5), "hello");
}
