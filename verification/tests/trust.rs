use flowly_gui::trust::{der_to_pem, get_ca_root, linux_trust_target, manual_install_path};

#[test]
fn der_to_pem_wraps_base64_in_64_character_lines() {
    let der: Vec<u8> = (0u8..60).collect();
    let pem = der_to_pem(&der);
    let lines: Vec<&str> = pem.lines().collect();
    assert_eq!(lines[0], "-----BEGIN CERTIFICATE-----");
    assert_eq!(lines[1].len(), 64);
    assert_eq!(lines[2].len(), 16);
    assert_eq!(lines[3], "-----END CERTIFICATE-----");
    assert_eq!(lines.len(), 4);
    assert!(pem.ends_with("-----END CERTIFICATE-----\n"));
    assert_eq!(
        der_to_pem(b"Man"),
        "-----BEGIN CERTIFICATE-----\nTWFu\n-----END CERTIFICATE-----\n"
    );
    assert_eq!(der_to_pem(b""), "-----BEGIN CERTIFICATE-----\n-----END CERTIFICATE-----\n");
}

#[test]
fn trust_target_follows_the_first_known_store() {
    let t = linux_trust_target(true, true, true, true);
    assert_eq!(t.file, "/etc/pki/ca-trust/source/anchors/Flowly.pem");
    assert_eq!(t.command, "update-ca-trust");
    assert_eq!(t.args, vec!["extract".to_string()]);
    let t = linux_trust_target(false, true, false, false);
    assert_eq!(t.file, "/usr/local/share/ca-certificates/Flowly.crt");
    assert_eq!(t.command, "update-ca-certificates");
    assert!(t.args.is_empty());
    let t = linux_trust_target(false, false, true, true);
    assert_eq!(t.file, "/etc/ca-certificates/trust-source/anchors/Flowly.crt");
    assert_eq!(t.command, "trust");
    assert_eq!(t.args, vec!["extract-compat".to_string()]);
    let t = linux_trust_target(false, false, false, true);
    assert_eq!(t.file, "/usr/share/pki/trust/anchors/Flowly.pem");
    let t = linux_trust_target(false, false, false, false);
    assert_eq!(t.file, "Flowly.pem");
    assert!(t.command.is_empty());
}

#[test]
fn ca_root_prefers_caroot_then_xdg_then_home() {
    let s = |v: &str| Some(v.to_string());
    assert_eq!(get_ca_root(s("/c"), s("/x"), s("/h")), "/c");
    assert_eq!(get_ca_root(None, s("/x"), s("/h")), "/x");
    assert_eq!(get_ca_root(None, None, s("/home/u")), "/home/u/.local/share");
    assert_eq!(get_ca_root(None, None, s("/home/u/")), "/home/u/.local/share");
    assert_eq!(get_ca_root(None, None, None), "");
}

#[test]
fn manual_install_path_joins_the_file_name() {
    assert_eq!(manual_install_path("/x"), "/x/Flowly.pem");
    assert_eq!(manual_install_path(""), "Flowly.pem");
}
