use getlogs::config::AuthMethod;
use getlogs::config::Config;

fn base_config() -> Config {
    Config {
        default_path: "/home/user/logs".to_string(),
        jira_url: "https://tracker.example.com".to_string(),
        proxy: None,
        bearer_token: None,
        user_email: None,
        api_token: None,
        logfile_regex: r".*\.(logcat|dlt|txt)$".to_string(),
        archive_regex: None,
    }
}

#[test]
fn bearer_token_takes_precedence() {
    let mut c = base_config();
    c.bearer_token = Some("tok".to_string());
    c.user_email = Some("user@example.com".to_string());
    c.api_token = Some("api".to_string());
    match c.auth_method() {
        Some(AuthMethod::Bearer { token }) => assert_eq!(token, "tok"),
        other => panic!("expected bearer auth, got {:?}", other.is_some()),
    }
}

#[test]
fn basic_auth_needs_email_and_api_token() {
    let mut c = base_config();
    c.user_email = Some("user@example.com".to_string());
    c.api_token = Some("api".to_string());
    match c.auth_method() {
        Some(AuthMethod::Basic { email, token }) => {
            assert_eq!(email, "user@example.com");
            assert_eq!(token, "api");
        },
        _ => panic!("expected basic auth"),
    }
}

#[test]
fn missing_credentials_give_no_auth() {
    let c = base_config();
    assert!(c.auth_method().is_none());
    let mut only_email = base_config();
    only_email.user_email = Some("user@example.com".to_string());
    assert!(only_email.auth_method().is_none());
    let mut only_token = base_config();
    only_token.api_token = Some("api".to_string());
    assert!(only_token.auth_method().is_none());
}

#[test]
fn archive_regex_defaults_to_logfile_regex() {
    let c = base_config();
    assert_eq!(c.effective_archive_regex(), c.logfile_regex.as_str());
    let mut with_archive = base_config();
    with_archive.archive_regex = Some(r".*\.dlt$".to_string());
    assert_eq!(with_archive.effective_archive_regex(), r".*\.dlt$");
}
