use kaku::proxy::{normalize_no_proxy_entry, parse_scutil_exceptions, parse_scutil_proxy, proxy_env_vars};

#[test]
fn normalizes_macos_exception_forms() {
    assert_eq!(normalize_no_proxy_entry("169.254/16"), "169.254.0.0/16");
    assert_eq!(normalize_no_proxy_entry("10/8"), "10.0.0.0/8");
    assert_eq!(normalize_no_proxy_entry("*.local"), ".local");
    // Already well-formed entries pass through untouched.
    assert_eq!(normalize_no_proxy_entry("192.168.1.0/24"), "192.168.1.0/24");
    assert_eq!(normalize_no_proxy_entry("example.com"), "example.com");
    assert_eq!(normalize_no_proxy_entry("100.65.0.14"), "100.65.0.14");
}

#[test]
fn parses_scutil_exceptions_list() {
    let text = r#"
<dictionary> {
  ExceptionsList : <array> {
    0 : *.local
    1 : 169.254/16
  }
  SOCKSEnable : 1
  SOCKSPort : 7070
  SOCKSProxy : 100.65.0.2
}
"#;
    assert_eq!(
        parse_scutil_exceptions(text),
        vec![".local".to_string(), "169.254.0.0/16".to_string()]
    );
}

#[test]
fn parses_no_exceptions_when_list_absent() {
    let text = "<dictionary> {\n  SOCKSEnable : 1\n}\n";
    assert!(parse_scutil_exceptions(text).is_empty());
}

#[test]
fn prefers_https_then_http_then_socks() {
    let text = r#"
<dictionary> {
  HTTPEnable : 1
  HTTPPort : 8080
  HTTPProxy : 127.0.0.1
  HTTPSEnable : 1
  HTTPSPort : 8443
  HTTPSProxy : proxy.example.com
  SOCKSEnable : 1
  SOCKSPort : 1080
  SOCKSProxy : socks.example.com
}
"#;
    assert_eq!(
        parse_scutil_proxy(text).as_deref(),
        Some("http://proxy.example.com:8443")
    );
}

#[test]
fn uses_socks5h_for_socks_proxy() {
    let text = r#"
<dictionary> {
  HTTPEnable : 0
  HTTPSEnable : 0
  SOCKSEnable : 1
  SOCKSPort : 1080
  SOCKSProxy : 127.0.0.1
}
"#;
    assert_eq!(
        parse_scutil_proxy(text).as_deref(),
        Some("socks5h://127.0.0.1:1080")
    );
}

#[test]
fn returns_none_when_no_enabled_proxy_has_endpoint() {
    let text = r#"
<dictionary> {
  HTTPEnable : 0
  HTTPSEnable : 0
  SOCKSEnable : 0
}
"#;
    assert_eq!(parse_scutil_proxy(text), None);
}

#[test]
fn rejects_invalid_port() {
    let text = r#"
<dictionary> {
  HTTPSEnable : 1
  HTTPSPort : not-a-number
  HTTPSProxy : proxy.example.com
}
"#;
    assert_eq!(parse_scutil_proxy(text), None);
}

#[test]
fn rejects_host_with_whitespace_or_separator() {
    let text = r#"
<dictionary> {
  HTTPSEnable : 1
  HTTPSPort : 8443
  HTTPSProxy : bad host/value
}
"#;
    assert_eq!(parse_scutil_proxy(text), None);
}

#[test]
fn falls_back_to_http_when_https_port_is_zero() {
    let text = "HTTPSEnable : 1\nHTTPSPort : 0\nHTTPSProxy : a.example\nHTTPEnable : 1\nHTTPPort : +80\nHTTPProxy : b.example\n";
    assert_eq!(parse_scutil_proxy(text).as_deref(), Some("http://b.example:+80"));
}

#[test]
fn exceptions_stop_at_the_end_of_the_array() {
    let text = "ExceptionsList : <array> {\n  0 : a.example\n}\n  1 : b.example\n";
    assert_eq!(parse_scutil_exceptions(text), vec!["a.example".to_string()]);
}

#[test]
fn normalizing_twice_changes_nothing_more() {
    for entry in ["169.254/16", "10/8", "*.local", "*.*.corp", "192.168.1.0/24", "example.com", "1.2/x", ""] {
        let once = normalize_no_proxy_entry(entry);
        assert_eq!(normalize_no_proxy_entry(&once), once, "{}", entry);
    }
}

#[test]
fn proxy_variables_in_both_cases() {
    assert_eq!(
        proxy_env_vars(),
        vec!["https_proxy", "HTTPS_PROXY", "http_proxy", "HTTP_PROXY", "ALL_PROXY", "all_proxy"]
    );
}
