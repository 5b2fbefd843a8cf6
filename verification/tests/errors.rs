use pfp::error::PfpError;

#[test]
fn exit_code_flow_run_failed() {
    let err = PfpError::FlowRunFailed("bad".to_string());
    assert_eq!(err.exit_code(), 1);
}

#[test]
fn exit_code_no_match() {
    let err = PfpError::NoMatch("no deployment matching 'foo'".to_string());
    assert_eq!(err.exit_code(), 2);
}

#[test]
fn exit_code_api_error() {
    let err = PfpError::Api("500".to_string());
    assert_eq!(err.exit_code(), 2);
}

#[test]
fn no_match_displays_message() {
    let err = PfpError::NoMatch("no flow run matching 'abc123'".to_string());
    assert_eq!(err.message(), "No match: no flow run matching 'abc123'");
}

#[test]
fn ambiguous_match_displays_candidates() {
    let err = PfpError::AmbiguousMatch {
        query: "abc".to_string(),
        candidates: "  abc-123\n  abc-456".to_string(),
    };
    let msg = err.message();
    assert!(msg.contains("abc"));
    assert!(msg.contains("abc-123"));
}

#[test]
fn other_messages_name_their_kind() {
    assert_eq!(
        PfpError::Api("401: Unauthorized".to_string()).message(),
        "API error: 401: Unauthorized"
    );
    assert_eq!(
        PfpError::Http("connection refused".to_string()).message(),
        "HTTP error: connection refused"
    );
    assert_eq!(
        PfpError::Config("bad".to_string()).message(),
        "Config error: bad"
    );
    assert_eq!(
        PfpError::FlowRunFailed("Crashed (171a3f55)".to_string()).message(),
        "Flow run failed: Crashed (171a3f55)"
    );
}
