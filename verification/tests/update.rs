use kaku::update::{
    check_round, startup_notice_due,
    compare_versions, first_check_delay, is_newer, is_primary_instance, parse_scutil_proxy,
    parse_version_numbers, tag_from_effective_url, update_available_message,
    update_completed_notice,
};
use std::cmp::Ordering;

#[test]
fn semver_numeric_comparison() {
    assert!(is_newer("0.1.10", "0.1.9"));
    assert!(!is_newer("0.2.0", "0.11.0"));
    assert!(!is_newer("0.1.1", "0.1.1"));
    assert!(is_newer("v0.1.2", "0.1.1"));
}

#[test]
fn parse_scutil_proxy_prefers_https_then_http_then_socks() {
    let text = r#"
<dictionary> {
  HTTPEnable : 1
  HTTPPort : 8080
  HTTPProxy : 127.0.0.1
  HTTPSEnable : 1
  HTTPSPort : 8443
  HTTPSProxy : proxy.example.com
  SOCKSEnable : 1
  SOCKSPort : 1080
  SOCKSProxy : socks.example.com
}
"#;

    assert_eq!(
        parse_scutil_proxy(text).as_deref(),
        Some("http://proxy.example.com:8443")
    );
}

#[test]
fn parse_scutil_proxy_uses_socks5h_for_socks_proxy() {
    let text = r#"
<dictionary> {
  HTTPEnable : 0
  HTTPSEnable : 0
  SOCKSEnable : 1
  SOCKSPort : 1080
  SOCKSProxy : 127.0.0.1
}
"#;

    assert_eq!(
        parse_scutil_proxy(text).as_deref(),
        Some("socks5h://127.0.0.1:1080")
    );
}

#[test]
fn parse_scutil_proxy_returns_none_when_no_enabled_proxy_has_endpoint() {
    let text = r#"
<dictionary> {
  HTTPEnable : 0
  HTTPSEnable : 0
  SOCKSEnable : 0
}
"#;

    assert_eq!(parse_scutil_proxy(text), None);
}

#[test]
fn version_numbers_and_order() {
    assert_eq!(parse_version_numbers("1.2.3"), Some(vec![1, 2, 3]));
    assert_eq!(parse_version_numbers("1.x"), None);
    assert_eq!(compare_versions("1.2", "1.2.0"), Some(Ordering::Equal));
    assert_eq!(compare_versions("V1.3", "1.2.9"), Some(Ordering::Greater));
    assert_eq!(compare_versions("1.10", "1.9"), Some(Ordering::Greater));
    assert_eq!(compare_versions("2.0", "2.0"), Some(Ordering::Equal));
    assert_eq!(compare_versions("2.0", "beta"), None);
    assert!(is_newer("nightly", "0.1.0"));
    assert!(!is_newer("nightly", "nightly"));
    assert!(!is_newer("20240203-110809-5046fc22", "0.1.0"));
}

#[test]
fn tag_from_redirect_url() {
    assert_eq!(
        tag_from_effective_url("https://github.com/tw93/Kaku/releases/tag/V0.9.0").as_deref(),
        Some("V0.9.0")
    );
}

#[test]
fn first_check_waits_for_the_rest_of_the_interval() {
    assert_eq!(first_check_delay(86400, None, false), (3, 0));
    assert_eq!(first_check_delay(86400, Some((100, 0)), true), (3, 0));
    assert_eq!(first_check_delay(86400, Some((86000, 0)), false), (400, 0));
    assert_eq!(first_check_delay(10, Some((4, 250_000_000)), false), (5, 750_000_000));
    assert_eq!(first_check_delay(10, Some((11, 0)), false), (3, 0));
}

#[test]
fn primary_instance_and_messages() {
    let socks = vec!["/a.sock".to_string(), "/b.sock".to_string()];
    assert!(is_primary_instance(false, &socks, "/a.sock"));
    assert!(!is_primary_instance(false, &socks, "/b.sock"));
    assert!(is_primary_instance(true, &socks, "/b.sock"));
    assert!(is_primary_instance(false, &[], "/b.sock"));
    assert_eq!(update_available_message("V1.0"), "V1.0 is available. Click to update.");
    assert_eq!(
        update_completed_notice(Some(" 1.2.3\n"), Some(10)).as_deref(),
        Some("Successfully updated to 1.2.3.")
    );
    assert_eq!(update_completed_notice(Some("1.2.3"), Some(300)), None);
    assert_eq!(update_completed_notice(Some("  "), Some(1)), None);
    assert_eq!(update_completed_notice(None, Some(1)), None);
}

#[test]
fn update_check_rounds() {
    let socks = vec!["/a.sock".to_string(), "/b.sock".to_string()];
    let r = check_round(true, Some("V9.0.0"), "0.1.0", false, &socks, "/a.sock");
    assert_eq!(r.notify.as_deref(), Some("V9.0.0 is available. Click to update."));
    assert!(r.record_release);
    let other = check_round(true, Some("V9.0.0"), "0.1.0", false, &socks, "/b.sock");
    assert_eq!(other.notify, None);
    assert!(other.record_release);
    let old = check_round(true, Some("0.1.0"), "0.1.0", false, &socks, "/a.sock");
    assert_eq!(old.notify, None);
    let forced = check_round(true, Some("0.1.0"), "0.1.0", true, &socks, "/b.sock");
    assert!(forced.notify.is_some());
    let failed = check_round(true, None, "0.1.0", false, &socks, "/a.sock");
    assert_eq!(failed.notify, None);
    assert!(!failed.record_release);
    let off = check_round(false, Some("V9.0.0"), "0.1.0", true, &socks, "/a.sock");
    assert!(off.notify.is_none() && !off.record_release);
    assert!(startup_notice_due(true, Some("0.2.0"), "0.1.0"));
    assert!(!startup_notice_due(false, Some("0.2.0"), "0.1.0"));
    assert!(!startup_notice_due(true, None, "0.1.0"));
}

#[test]
fn version_order_is_transitive() {
    let versions = ["0.1.9", "v0.1.10", "0.2", "0.2.0.1", "0.11.0", "1"];
    for a in versions {
        for b in versions {
            for c in versions {
                let ab = compare_versions(a, b).expect("parses");
                let bc = compare_versions(b, c).expect("parses");
                let ac = compare_versions(a, c).expect("parses");
                if ab != Ordering::Greater && bc != Ordering::Greater {
                    assert_ne!(ac, Ordering::Greater, "{} {} {}", a, b, c);
                }
                if ab == Ordering::Less && bc != Ordering::Greater {
                    assert_eq!(ac, Ordering::Less, "{} {} {}", a, b, c);
                }
            }
        }
    }
    assert_eq!(compare_versions("0.2", "0.2.0"), Some(Ordering::Equal));
}
