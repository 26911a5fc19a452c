use oxidns::api_auth::{is_authorized, ApiAuthConfig};

fn basic(user: &str, pass: &str) -> ApiAuthConfig {
    ApiAuthConfig::Basic { username: user.to_string(), password: pass.to_string() }
}

#[test]
fn no_configured_auth_lets_everything_through() {
    assert!(is_authorized(None, None));
    assert!(is_authorized(Some("Basic garbage"), None));
}

#[test]
fn basic_auth_accepts_only_the_configured_account() {
    let auth = basic("user", "pass");
    assert!(is_authorized(Some("Basic dXNlcjpwYXNz"), Some(&auth)));
    assert!(!is_authorized(Some("Basic dXNlcjpwYXNw"), Some(&auth)));
    assert!(!is_authorized(None, Some(&auth)));
    assert!(!is_authorized(Some("Bearer dXNlcjpwYXNz"), Some(&auth)));
    assert!(!is_authorized(Some("basic dXNlcjpwYXNz"), Some(&auth)));
    assert!(!is_authorized(Some("Basic !!!!"), Some(&auth)));
    assert!(!is_authorized(Some("Basic"), Some(&auth)));
}

#[test]
fn basic_auth_compares_utf8_accounts() {
    let auth = basic("ü", "p");
    assert!(is_authorized(Some("Basic w7w6cA=="), Some(&auth)));
}
