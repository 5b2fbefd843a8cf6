use pfp::error::PfpError;
use pfp::models::{Deployment, FlowRun};
use pfp::params::ParamValue;
use pfp::resolve::{is_full_uuid, resolve_deployment, resolve_flow_run};

fn deployment(id: &str, name: &str, flow_name: &str) -> Deployment {
    Deployment {
        id: id.to_string(),
        name: name.to_string(),
        flow_name: flow_name.to_string(),
        description: None,
        paused: false,
        work_pool_name: None,
        tags: vec![],
        parameters: ParamValue::Null,
    }
}

fn sample_deployments() -> Vec<Deployment> {
    vec![
        deployment("1", "happy-terraform-prod", "happy_terraform"),
        deployment("2", "happy-ansible-prod", "happy_ansible"),
        deployment("3", "hello_world-dev", "hello_world"),
    ]
}

fn flow_run(id: &str, name: &str, state_type: &str, state_name: &str) -> FlowRun {
    FlowRun {
        id: id.to_string(),
        name: name.to_string(),
        state_type: state_type.to_string(),
        state_name: state_name.to_string(),
        deployment_id: None,
        start_time: None,
        end_time: None,
        total_run_time: 0,
        parameters: ParamValue::Null,
    }
}

fn sample_flow_runs() -> Vec<FlowRun> {
    vec![
        flow_run(
            "171a3f55-e9a5-4100-a2dd-efe5c711f847",
            "cool-run-1",
            "COMPLETED",
            "Completed",
        ),
        flow_run(
            "171a3f55-ffff-4200-b3ee-1234567890ab",
            "cool-run-2",
            "FAILED",
            "Failed",
        ),
        flow_run(
            "9d9ca60c-abcd-4300-9999-abcdef012345",
            "other-run",
            "RUNNING",
            "Running",
        ),
    ]
}

#[test]
fn unique_substring_match() {
    let result = resolve_deployment("happy-t", sample_deployments());
    let d = result.unwrap();
    assert_eq!(d.full_name(), "happy_terraform/happy-terraform-prod");
}

#[test]
fn ambiguous_match() {
    let result = resolve_deployment("happy", sample_deployments());
    match result.unwrap_err() {
        PfpError::AmbiguousMatch { query, candidates } => {
            assert_eq!(query, "happy");
            assert_eq!(
                candidates,
                "  happy_terraform/happy-terraform-prod\n  happy_ansible/happy-ansible-prod"
            );
        }
        other => panic!("expected AmbiguousMatch, got: {}", other.message()),
    }
}

#[test]
fn no_match() {
    let result = resolve_deployment("nonexistent", sample_deployments());
    match result.unwrap_err() {
        PfpError::NoMatch(m) => assert_eq!(m, "no deployment matching 'nonexistent'"),
        other => panic!("expected NoMatch, got: {}", other.message()),
    }
}

#[test]
fn exact_full_name_match() {
    let result = resolve_deployment(
        "happy_terraform/happy-terraform-prod",
        sample_deployments(),
    );
    assert!(result.is_ok());
}

#[test]
fn match_by_deployment_name_only() {
    let result = resolve_deployment("hello_world-dev", sample_deployments());
    assert!(result.is_ok());
}

#[test]
fn flow_run_unique_prefix_match() {
    let runs = sample_flow_runs();
    let result = resolve_flow_run("9d9ca60c", &runs);
    assert_eq!(result.unwrap(), "9d9ca60c-abcd-4300-9999-abcdef012345");
}

#[test]
fn flow_run_ambiguous_prefix() {
    let runs = sample_flow_runs();
    let result = resolve_flow_run("171a3f55", &runs);
    assert!(matches!(
        result.unwrap_err(),
        PfpError::AmbiguousMatch { .. }
    ));
}

#[test]
fn flow_run_no_match() {
    let runs = sample_flow_runs();
    let result = resolve_flow_run("deadbeef", &runs);
    assert!(matches!(result.unwrap_err(), PfpError::NoMatch(_)));
}

#[test]
fn flow_run_full_uuid_matches() {
    let runs = sample_flow_runs();
    let result = resolve_flow_run("9d9ca60c-abcd-4300-9999-abcdef012345", &runs);
    assert_eq!(result.unwrap(), "9d9ca60c-abcd-4300-9999-abcdef012345");
}

#[test]
fn is_full_uuid_with_hyphens() {
    assert!(is_full_uuid("171a3f55-e9a5-4100-a2dd-efe5c711f847"));
}

#[test]
fn is_full_uuid_without_hyphens() {
    assert!(is_full_uuid("171a3f55e9a54100a2ddefe5c711f847"));
}

#[test]
fn is_full_uuid_short_prefix() {
    assert!(!is_full_uuid("171a3f55"));
}

#[test]
fn is_full_uuid_not_hex() {
    assert!(!is_full_uuid("not-a-uuid-at-all-zzzz-zzzzzzzzzzzz"));
}

#[test]
fn resolve_full_uuid_skips_api() {
    // A complete identifier resolves against an empty listing: nothing is
    // ever fetched for it.
    let result = resolve_flow_run("171a3f55-e9a5-4100-a2dd-efe5c711f847", &vec![]);
    assert_eq!(result.unwrap(), "171a3f55-e9a5-4100-a2dd-efe5c711f847");
}

#[test]
fn resolve_unique_prefix() {
    let runs = sample_flow_runs();
    let result = resolve_flow_run("9d9ca60c", &runs);
    assert_eq!(result.unwrap(), "9d9ca60c-abcd-4300-9999-abcdef012345");
}

#[test]
fn resolve_ambiguous_prefix() {
    let runs = sample_flow_runs();
    let result = resolve_flow_run("171a3f55", &runs);
    match result.unwrap_err() {
        PfpError::AmbiguousMatch { query, candidates } => {
            assert_eq!(query, "171a3f55");
            assert!(candidates.contains("171a3f55"));
            assert!(candidates.contains("Completed"));
            assert!(candidates.contains("Failed"));
            assert_eq!(
                candidates,
                "  171a3f55 (Completed)\n  171a3f55 (Failed)"
            );
        }
        other => panic!("Expected AmbiguousMatch, got: {}", other.message()),
    }
}

#[test]
fn resolve_no_match_prefix() {
    let runs = sample_flow_runs();
    let result = resolve_flow_run("deadbeef", &runs);
    match result.unwrap_err() {
        PfpError::NoMatch(m) => assert!(m.contains("deadbeef")),
        other => panic!("expected NoMatch, got: {}", other.message()),
    }
}

#[test]
fn prefix_may_straddle_a_hyphen() {
    let runs = sample_flow_runs();
    // The prefix crosses the first hyphen group, so it only matches the
    // hyphen-stripped form of the identifier.
    let result = resolve_flow_run("171a3f55e9a5", &runs);
    assert_eq!(result.unwrap(), "171a3f55-e9a5-4100-a2dd-efe5c711f847");
}
