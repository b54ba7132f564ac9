use flowly_gui::system_proxy::{
    clear_stale_system_proxy, merge_local_proxy_override, proxy_server_uses_addr,
    restore_system_proxy, set_system_proxy, ProxySettings,
};

#[test]
fn merge_local_proxy_override_preserves_existing_and_adds_local_bypass() {
    let merged = merge_local_proxy_override(Some("example.com;<local>"));

    assert_eq!(merged, "example.com;<local>;localhost;127.0.0.1;::1");
}

#[test]
fn merge_local_proxy_override_deduplicates_case_insensitively() {
    let merged = merge_local_proxy_override(Some("LOCALHOST;127.0.0.1"));

    assert_eq!(merged, "LOCALHOST;127.0.0.1;::1;<local>");
}

#[test]
fn proxy_server_uses_addr_matches_direct_and_protocol_specific_settings() {
    assert!(proxy_server_uses_addr("127.0.0.1:34567", "127.0.0.1:34567"));
    assert!(proxy_server_uses_addr(
        "http=127.0.0.1:34567;https=127.0.0.1:34567",
        "127.0.0.1:34567"
    ));
    assert!(proxy_server_uses_addr(
        "http=http://127.0.0.1:34567",
        "127.0.0.1:34567"
    ));
    assert!(!proxy_server_uses_addr("127.0.0.1:7890", "127.0.0.1:34567"));
}

#[test]
fn merge_without_existing_override_lists_local_entries() {
    assert_eq!(merge_local_proxy_override(None), "localhost;127.0.0.1;::1;<local>");
}

#[test]
fn merge_trims_entries_and_drops_empty_ones() {
    assert_eq!(
        merge_local_proxy_override(Some(" a.com ;; b.com;  ;::1")),
        "a.com;b.com;::1;localhost;127.0.0.1;<local>"
    );
}

#[test]
fn proxy_server_uses_addr_ignores_case_whitespace_and_repeated_schemes() {
    assert!(proxy_server_uses_addr(" HTTPS=https://LOCALHOST:1 ", "localhost:1"));
    assert!(proxy_server_uses_addr("http=http://http://h:1", "h:1"));
    assert!(!proxy_server_uses_addr("", "h:1"));
    assert!(proxy_server_uses_addr("", ""));
}

fn settings(enable: u32, server: &str, bypass: Option<&str>) -> ProxySettings {
    ProxySettings {
        enable,
        server: server.to_string(),
        bypass: bypass.map(|b| b.to_string()),
    }
}

#[test]
fn takeover_points_at_addr_and_restore_gives_back_old_settings() {
    let current = settings(0, "10.0.0.1:8080", Some("corp.local"));
    let (guard, next) = set_system_proxy(&current, "127.0.0.1:34567");
    assert_eq!(next.enable, 1);
    assert_eq!(next.server, "127.0.0.1:34567");
    assert_eq!(next.bypass.as_deref(), Some("corp.local;localhost;127.0.0.1;::1;<local>"));
    let back = restore_system_proxy(&guard);
    assert_eq!(back.enable, 0);
    assert_eq!(back.server, "10.0.0.1:8080");
    assert_eq!(back.bypass.as_deref(), Some("corp.local"));
}

#[test]
fn restore_keeps_a_missing_override_missing() {
    let current = settings(1, "", None);
    let (guard, _next) = set_system_proxy(&current, "127.0.0.1:1");
    let back = restore_system_proxy(&guard);
    assert_eq!(back.enable, 1);
    assert_eq!(back.bypass, None);
}

#[test]
fn stale_proxy_is_cleared_only_when_enabled_and_pointing_here() {
    assert!(clear_stale_system_proxy(&settings(1, "http=127.0.0.1:34567", None), "127.0.0.1:34567"));
    assert!(!clear_stale_system_proxy(&settings(0, "127.0.0.1:34567", None), "127.0.0.1:34567"));
    assert!(!clear_stale_system_proxy(&settings(1, "127.0.0.1:7890", None), "127.0.0.1:34567"));
}

#[test]
fn merging_a_merged_override_changes_nothing() {
    for existing in [None, Some(""), Some(" a.com ;; LOCALHOST"), Some("example.com;<local>"), Some(";;")] {
        let once = merge_local_proxy_override(existing);
        let twice = merge_local_proxy_override(Some(once.as_str()));
        assert_eq!(twice, once);
    }
}
