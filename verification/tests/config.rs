use flowly_gui::config::has_mitm_hosts_config;
use flowly_gui::config::AppConfig;

#[test]
fn default_config_listens_on_all_ipv4_interfaces() {
    assert_eq!(AppConfig::default().listen_addr, "0.0.0.0:34567");
}

#[test]
fn default_config_values() {
    let cfg = AppConfig::default();
    assert_eq!(cfg.upstream_proxy, None);
    assert!(cfg.capture_body);
    assert_eq!(cfg.max_body_size, 256 * 1024);
    assert!(cfg.auto_system_proxy);
    assert!(cfg.mitm_hosts.is_empty());
}

#[test]
fn global_mitm_hosts_are_found_only_as_a_top_level_member() {
    assert!(has_mitm_hosts_config(Some(r#"{"mitmHosts": []}"#.to_string())));
    assert!(has_mitm_hosts_config(Some(r#"{"listenAddr": "x", "mitmHosts": null}"#.to_string())));
    assert!(!has_mitm_hosts_config(Some(r#"{"listenAddr": "x"}"#.to_string())));
    assert!(!has_mitm_hosts_config(Some(r#"{"a": {"mitmHosts": 1}}"#.to_string())));
    assert!(!has_mitm_hosts_config(Some(r#"["mitmHosts"]"#.to_string())));
    assert!(!has_mitm_hosts_config(Some("not json".to_string())));
    assert!(!has_mitm_hosts_config(None));
}
