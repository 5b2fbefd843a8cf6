use pfp::config::{resolve_api_url, resolve_auth, Config, Profile, Profiles};
use pfp::error::PfpError;

fn no_profiles() -> Profiles {
    Profiles { active: None, entries: vec![] }
}

fn one_profile(active: Option<&str>, name: &str, url: Option<&str>) -> Profiles {
    Profiles {
        active: active.map(|a| a.to_string()),
        entries: vec![(
            name.to_string(),
            Profile { api_url: url.map(|u| u.to_string()) },
        )],
    }
}

#[test]
fn resolve_api_url_from_env() {
    let result = resolve_api_url(
        Some("https://test.example.com/api".to_string()),
        &no_profiles(),
    );
    assert_eq!(result.unwrap(), "https://test.example.com/api");
}

#[test]
fn resolve_api_url_from_active_profile() {
    let profiles = one_profile(Some("work"), "work", Some("https://profile.example.com/api"));
    let result = resolve_api_url(None, &profiles);
    assert_eq!(result.unwrap(), "https://profile.example.com/api");
}

#[test]
fn resolve_api_url_defaults_to_default_profile() {
    let profiles = one_profile(None, "default", Some("https://default.example.com/api"));
    let result = resolve_api_url(None, &profiles);
    assert_eq!(result.unwrap(), "https://default.example.com/api");
}

#[test]
fn resolve_api_url_missing_profile_is_config_error() {
    let result = resolve_api_url(None, &no_profiles());
    match result.unwrap_err() {
        PfpError::Config(m) => assert_eq!(m, "Profile 'default' not found"),
        other => panic!("expected Config error, got: {}", other.message()),
    }
}

#[test]
fn resolve_api_url_profile_without_url() {
    let profiles = one_profile(None, "default", None);
    let result = resolve_api_url(None, &profiles);
    assert!(matches!(result.unwrap_err(), PfpError::NoApiUrl));
}

#[test]
fn resolve_auth_encodes_basic_auth() {
    let result = resolve_auth(Some("user:pass"));
    let header = result.unwrap();
    assert!(header.starts_with("Basic "));
    assert_eq!(header, "Basic dXNlcjpwYXNz");
}

#[test]
fn resolve_auth_missing_returns_error() {
    let result = resolve_auth(None);
    assert!(matches!(result, Err(PfpError::NoAuth)));
}

#[test]
fn load_combines_url_and_auth() {
    let config = Config::load(
        Some("https://test.example.com/api".to_string()),
        &no_profiles(),
        Some("user:pass"),
    )
    .unwrap();
    assert_eq!(config.api_url, "https://test.example.com/api");
    assert_eq!(config.auth_header, "Basic dXNlcjpwYXNz");
}

#[test]
fn load_propagates_the_first_failure() {
    let err = Config::load(None, &no_profiles(), Some("user:pass")).unwrap_err();
    assert!(matches!(err, PfpError::Config(_)));
    let err = Config::load(
        Some("https://test.example.com/api".to_string()),
        &no_profiles(),
        None,
    )
    .unwrap_err();
    assert!(matches!(err, PfpError::NoAuth));
}
