use flowly_gui::proxy_ctrl::{
    listen_addr_from_port, normalize_listen_addr, plan_proxy_start, proxy_start_step, proxy_status,
    settings_to_restore, system_proxy_addr, IpValue, ListenAddr, ListenAddrError, ListenTarget, ProxyRecord,
    ProxyStatus, StartAction, StartError, StartEvent,
};
use flowly_gui::system_proxy::{set_system_proxy, ProxySettings};

fn v4(o: [u8; 4], port: u16) -> ListenAddr {
    ListenAddr { ip: IpValue::V4(o), port }
}

fn is_v4(a: &ListenAddr, o: [u8; 4], port: u16) -> bool {
    matches!(a.ip, IpValue::V4(x) if x == o) && a.port == port
}

#[test]
fn system_proxy_addr_uses_loopback_for_unspecified_ipv4_listen_addr() {
    let listen_addr = v4([0, 0, 0, 0], 34567);

    assert!(is_v4(&system_proxy_addr(listen_addr), [127, 0, 0, 1], 34567));
}

#[test]
fn system_proxy_addr_preserves_specific_listen_addr() {
    let listen_addr = v4([192, 168, 1, 10], 34567);

    assert!(is_v4(&system_proxy_addr(listen_addr), [192, 168, 1, 10], 34567));
}

#[test]
fn system_proxy_addr_uses_loopback_for_unspecified_ipv6_listen_addr() {
    let listen_addr = ListenAddr { ip: IpValue::V6 { segments: [0; 8], flowinfo: 3, scope_id: 4 }, port: 80 };
    let r = system_proxy_addr(listen_addr);
    assert!(matches!(r.ip, IpValue::V6 { segments: [0, 0, 0, 0, 0, 0, 0, 1], flowinfo: 0, scope_id: 0 }));
    assert_eq!(r.port, 80);
}

#[test]
fn listen_addr_from_port_listens_on_all_ipv4_interfaces() {
    assert!(is_v4(&listen_addr_from_port(34567), [0, 0, 0, 0], 34567));
}

#[test]
fn normalize_listen_addr_accepts_port_only() {
    assert!(matches!(normalize_listen_addr("34567"), Ok(ListenTarget::AllInterfaces(34567))));
    assert!(matches!(normalize_listen_addr(" +80 "), Ok(ListenTarget::AllInterfaces(80))));
}

#[test]
fn normalize_listen_addr_preserves_legacy_full_addr() {
    assert!(matches!(
        normalize_listen_addr("127.0.0.1:34567"),
        Ok(ListenTarget::Address(a)) if a == "127.0.0.1:34567"
    ));
}

#[test]
fn normalize_listen_addr_errors() {
    assert!(matches!(normalize_listen_addr("  "), Err(ListenAddrError::Empty)));
    assert!(matches!(normalize_listen_addr("70000"), Err(ListenAddrError::InvalidPort(_))));
    assert!(matches!(normalize_listen_addr("-1"), Err(ListenAddrError::InvalidPort(_))));
}

#[test]
fn start_is_refused_while_running() {
    assert!(matches!(plan_proxy_start(true, "80"), Err(StartError::AlreadyRunning)));
    assert!(matches!(plan_proxy_start(false, ""), Err(StartError::ListenAddr(ListenAddrError::Empty))));
    assert!(matches!(plan_proxy_start(false, "8080"), Ok(ListenTarget::AllInterfaces(8080))));
}

#[test]
fn status_reflects_the_running_proxy() {
    let idle = proxy_status(&None);
    assert!(!idle.running);
    assert!(idle.listen_addr.is_empty());
    let d = ProxyStatus::default();
    assert!(!d.running && d.upstream_proxy.is_none());
    let record = ProxyRecord {
        listen_addr: "0.0.0.0:1".into(),
        upstream_proxy: Some("http://u:1".into()),
        system_proxy: None,
    };
    let s = proxy_status(&Some(record));
    assert!(s.running);
    assert_eq!(s.listen_addr, "0.0.0.0:1");
    assert_eq!(s.upstream_proxy.as_deref(), Some("http://u:1"));
}

#[test]
fn stop_restores_the_saved_system_proxy() {
    let current = ProxySettings { enable: 0, server: "old:1".into(), bypass: None };
    let (guard, _) = set_system_proxy(&current, "127.0.0.1:1");
    let record = ProxyRecord { listen_addr: "x".into(), upstream_proxy: None, system_proxy: Some(guard) };
    let back = settings_to_restore(&Some(record)).unwrap();
    assert_eq!(back.enable, 0);
    assert_eq!(back.server, "old:1");
    assert!(back.bypass.is_none());
    let record = ProxyRecord { listen_addr: "x".into(), upstream_proxy: None, system_proxy: None };
    assert!(settings_to_restore(&Some(record)).is_none());
    assert!(settings_to_restore(&None).is_none());
}

#[test]
fn a_start_probes_checks_takes_over_then_launches() {
    assert!(matches!(proxy_start_step(StartEvent::Planned, true, true), StartAction::ProbePort));
    assert!(matches!(proxy_start_step(StartEvent::Probed(Ok(())), true, true), StartAction::CheckUpstream));
    assert!(matches!(proxy_start_step(StartEvent::Probed(Ok(())), false, true), StartAction::TakeOverSystemProxy));
    assert!(matches!(proxy_start_step(StartEvent::Probed(Ok(())), false, false), StartAction::Launch));
    assert!(matches!(proxy_start_step(StartEvent::UpstreamChecked(Ok(())), true, true), StartAction::TakeOverSystemProxy));
    assert!(matches!(proxy_start_step(StartEvent::UpstreamChecked(Ok(())), true, false), StartAction::Launch));
    assert!(matches!(proxy_start_step(StartEvent::TookOver(Ok(())), true, true), StartAction::Launch));
    match proxy_start_step(StartEvent::Probed(Err("in use".into())), true, true) {
        StartAction::Fail(e) => assert_eq!(e.message(), "端口监听失败: in use"),
        _ => panic!("a busy port ends the start"),
    }
    match proxy_start_step(StartEvent::UpstreamChecked(Err("bad".into())), true, true) {
        StartAction::Fail(e) => assert_eq!(e.message(), "上游代理地址无效: bad"),
        _ => panic!("a bad upstream ends the start"),
    }
    match proxy_start_step(StartEvent::TookOver(Err("denied".into())), false, true) {
        StartAction::Fail(e) => assert_eq!(e.message(), "自动设置系统代理失败，代理未启动：denied（可在设置中关闭该选项）"),
        _ => panic!("a failed takeover ends the start"),
    }
}

#[test]
fn start_errors_have_their_messages() {
    assert_eq!(StartError::AlreadyRunning.message(), "代理已在运行，请先停止");
    assert_eq!(StartError::ListenAddr(ListenAddrError::Empty).message(), "监听端口不能为空");
    assert_eq!(StartError::ListenAddr(ListenAddrError::InvalidPort("x".into())).message(), "监听端口无效: x");
    assert_eq!(StartError::InvalidAddress("y".into()).message(), "监听地址无效: y");
}
