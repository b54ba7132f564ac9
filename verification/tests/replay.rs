use flowly_gui::replay::{
    find_header, is_hop_by_hop_replay_header, plan_replay, response_text, sanitize_replay_headers,
    start_replay, ReplayError,
};
use flowly_gui::traffic::SharedTraffic;

fn h(name: &str, value: &str) -> (String, String) {
    (name.to_string(), value.to_string())
}

#[test]
fn hop_by_hop_headers_are_recognised_in_any_case() {
    for name in [
        "Connection", "keep-alive", "Proxy-Authenticate", "proxy-authorization", "TE", "trailer",
        "Transfer-Encoding", "upgrade", "HOST", "Content-Length",
    ] {
        assert!(is_hop_by_hop_replay_header(name), "{name}");
    }
    assert!(!is_hop_by_hop_replay_header("Content-Type"));
    assert!(!is_hop_by_hop_replay_header("hosts"));
}

#[test]
fn sanitize_keeps_end_to_end_headers_in_order() {
    let headers = vec![
        h("Host", "a"),
        h("Accept", "*/*"),
        h("Connection", "close"),
        h("Content-Type", "text/plain"),
        h("content-length", "4"),
    ];
    assert_eq!(
        sanitize_replay_headers(&headers),
        vec![h("Accept", "*/*"), h("Content-Type", "text/plain")]
    );
}

#[test]
fn find_header_ignores_case_and_takes_the_first() {
    let headers = vec![h("X", "1"), h("content-TYPE", "a"), h("Content-Type", "b")];
    assert_eq!(find_header(&headers, "content-type").as_deref(), Some("a"));
    assert_eq!(find_header(&headers, "missing"), None);
}

#[test]
fn replay_of_a_captured_request() {
    let mut t = SharedTraffic::new();
    let id = t.next_id();
    t.begin_request(
        id,
        "POST".into(),
        "http://example.com/p".into(),
        "example.com".into(),
        vec![h("Host", "example.com"), h("Content-Type", "application/json"), h("X-A", "1")],
        Some("{}".into()),
        2,
        Some("application/json".into()),
    );
    t.complete(id, 200, None, vec![], None, 0, false);
    let (rid, plan) = start_replay(&mut t, id).ok().unwrap();
    assert_eq!(rid, id + 1);
    assert_eq!(plan.method, "POST");
    assert_eq!(plan.url, "http://example.com/p");
    assert_eq!(plan.host, "example.com");
    assert_eq!(plan.headers, vec![h("Content-Type", "application/json"), h("X-A", "1")]);
    assert_eq!(plan.body, "{}");
    assert_eq!(plan.req_body.as_deref(), Some("{}"));
    assert_eq!(plan.content_type.as_deref(), Some("application/json"));
}

#[test]
fn replay_without_captured_body_sends_an_empty_one() {
    let mut t = SharedTraffic::new();
    t.begin_request(5, "GET".into(), "http://a/".into(), "a".into(), vec![], None, 0, None);
    let detail = t.get(5).unwrap();
    let plan = plan_replay(&detail);
    assert_eq!(plan.body, "");
    assert_eq!(plan.req_body, None);
    assert_eq!(plan.content_type, None);
}

#[test]
fn replay_of_an_expired_transaction_is_refused() {
    let mut t = SharedTraffic::new();
    assert!(matches!(start_replay(&mut t, 3), Err(ReplayError::Expired)));
    assert_eq!(t.next_id(), 1);
}

#[test]
fn replay_response_text_needs_utf8() {
    assert_eq!(response_text(b"hi".to_vec()).as_deref(), Some("hi"));
    assert_eq!(response_text(vec![0xff]), None);
}

#[test]
fn replay_of_an_invalid_url_is_refused_after_taking_an_id() {
    let mut t = SharedTraffic::new();
    t.begin_request(1, "GET".into(), "http://exa mple.com/".into(), "a".into(), vec![], None, 0, None);
    assert!(matches!(start_replay(&mut t, 1), Err(ReplayError::InvalidUrl(_))));
    assert_eq!(t.next_id(), 2);
    assert_eq!(t.list(10, 0).len(), 0);
}
