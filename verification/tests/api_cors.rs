use oxidns::api_cors::{cors_allow, infer_cors_config, normalize_origin_host, resolve_cors_config, ApiCorsConfig};

fn config(origins: &[&str], any: bool, hosts: &[&str]) -> ApiCorsConfig {
    ApiCorsConfig {
        allowed_origins: origins.iter().map(|s| s.to_string()).collect(),
        allow_any_origin: any,
        allowed_origin_hosts: hosts.iter().map(|s| s.to_string()).collect(),
    }
}

#[test]
fn wildcard_allows_any_origin_without_credentials() {
    assert_eq!(cors_allow(Some("http://x"), &config(&[], true, &[])), Some(("*".to_string(), false)));
    assert_eq!(cors_allow(None, &config(&["*"], false, &[])), Some(("*".to_string(), false)));
}

#[test]
fn listed_origins_and_hosts_are_echoed_with_credentials() {
    let cors = config(&["http://a.example"], false, &["127.0.0.1", "::1"]);
    assert_eq!(cors_allow(Some("http://a.example"), &cors), Some(("http://a.example".to_string(), true)));
    assert_eq!(
        cors_allow(Some("http://127.0.0.1:8080"), &cors),
        Some(("http://127.0.0.1:8080".to_string(), true))
    );
    assert_eq!(cors_allow(Some("http://[::1]:9"), &cors), Some(("http://[::1]:9".to_string(), true)));
    assert_eq!(cors_allow(Some("http://evil.example"), &cors), None);
}

#[test]
fn missing_origin_falls_back_to_first_listed() {
    assert_eq!(
        cors_allow(None, &config(&["https://x", "https://y"], false, &[])),
        Some(("https://x".to_string(), true))
    );
    assert_eq!(cors_allow(None, &config(&[], false, &["h"])), None);
}

#[test]
fn unusable_header_value_becomes_wildcard() {
    let cors = config(&["bad\nvalue"], false, &[]);
    assert_eq!(cors_allow(Some("bad\nvalue"), &cors), Some(("*".to_string(), true)));
}

#[test]
fn origin_hosts_are_normalized() {
    assert_eq!(normalize_origin_host("[::1]"), "::1");
    assert_eq!(normalize_origin_host("LocalHost"), "localhost");
    assert_eq!(normalize_origin_host("[]"), "");
}

#[test]
fn inferred_config_follows_listen_address() {
    let any = infer_cors_config("0.0.0.0", true, false);
    assert!(any.allow_any_origin);
    assert!(any.allowed_origin_hosts.is_empty());
    let lo = infer_cors_config("127.0.0.1", false, true);
    assert!(!lo.allow_any_origin);
    assert_eq!(lo.allowed_origin_hosts, vec!["127.0.0.1".to_string(), "localhost".to_string()]);
    let v6 = infer_cors_config("::1", false, true);
    assert_eq!(v6.allowed_origin_hosts, vec!["::1".to_string(), "localhost".to_string()]);
    let plain = infer_cors_config("192.0.2.1", false, false);
    assert_eq!(plain.allowed_origin_hosts, vec!["192.0.2.1".to_string()]);
}

#[test]
fn configured_settings_win_unless_empty() {
    let kept = resolve_cors_config(Some(config(&[], false, &["h"])), "127.0.0.1", false, true);
    assert_eq!(kept.allowed_origin_hosts, vec!["h".to_string()]);
    let inferred = resolve_cors_config(Some(config(&[], false, &[])), "192.0.2.1", false, false);
    assert_eq!(inferred.allowed_origin_hosts, vec!["192.0.2.1".to_string()]);
    let none = resolve_cors_config(None, "0.0.0.0", true, false);
    assert!(none.allow_any_origin);
}
