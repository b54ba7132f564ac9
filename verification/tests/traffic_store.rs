use flowly_gui::capture::{capture_body, should_read_body, TrafficBatcher};
use flowly_gui::traffic::{should_capture_content_type, SharedTraffic, TrafficSummary};

fn begin(t: &mut SharedTraffic, id: u64, method: &str) {
    t.begin_request(
        id,
        method.to_string(),
        format!("http://example.com/{id}"),
        "example.com".to_string(),
        vec![("Content-Type".to_string(), "text/plain".to_string())],
        Some("body".to_string()),
        4,
        Some("text/plain".to_string()),
    );
}

#[test]
fn ids_start_at_one_and_increase() {
    let mut t = SharedTraffic::new();
    assert_eq!(t.next_id(), 1);
    assert_eq!(t.next_id(), 2);
    assert_eq!(t.next_id(), 3);
}

#[test]
fn begun_request_is_held_but_not_listed() {
    let mut t = SharedTraffic::new();
    begin(&mut t, 7, "PUT");
    assert!(t.list(10, 0).is_empty());
    let d = t.get(7).unwrap();
    assert_eq!(d.summary.method, "PUT");
    assert_eq!(d.summary.status, None);
    assert_eq!(d.req_body.as_deref(), Some("body"));
    assert_eq!(d.summary.req_size, 4);
}

#[test]
fn complete_at_fills_response_and_duration() {
    let mut t = SharedTraffic::new();
    t.begin_request_at(
        1,
        "GET".to_string(),
        "http://a/".to_string(),
        "a".to_string(),
        vec![],
        None,
        0,
        Some("text/html".to_string()),
        1_000,
    );
    let s = t
        .complete_at(
            1,
            200,
            None,
            vec![("content-type".to_string(), "text/html".to_string())],
            Some("ok".to_string()),
            2,
            false,
            1_250,
        )
        .unwrap();
    assert_eq!(s.status, Some(200));
    assert_eq!(s.duration_ms, 250);
    assert_eq!(s.content_type.as_deref(), Some("text/html"));
    assert_eq!(s.res_size, 2);
    let d = t.get(1).unwrap();
    assert_eq!(d.res_body.as_deref(), Some("ok"));
    assert_eq!(d.res_headers.len(), 1);
    assert_eq!(t.list(10, 0).len(), 1);
}

#[test]
fn response_content_type_wins_and_clock_going_back_gives_zero() {
    let mut t = SharedTraffic::new();
    t.begin_request_at(1, "GET".into(), "u".into(), "h".into(), vec![], None, 0, Some("a/b".into()), 500);
    let s = t.complete_at(1, 404, Some("c/d".into()), vec![], None, 0, true, 100).unwrap();
    assert_eq!(s.content_type.as_deref(), Some("c/d"));
    assert_eq!(s.duration_ms, 0);
    assert!(s.truncated);
}

#[test]
fn completing_an_unknown_transaction_changes_nothing() {
    let mut t = SharedTraffic::new();
    assert!(t.complete(42, 200, None, vec![], None, 0, false).is_none());
    assert!(t.list(10, 0).is_empty());
    assert!(t.get(42).is_none());
}

#[test]
fn list_pages_by_offset_and_limit() {
    let mut t = SharedTraffic::new();
    for id in 1..=5 {
        begin(&mut t, id, "GET");
        t.complete(id, 200, None, vec![], None, 0, false);
    }
    let ids: Vec<u64> = t.list(2, 1).into_iter().map(|s| s.id).collect();
    assert_eq!(ids, vec![2, 3]);
    let ids: Vec<u64> = t.list(10, 4).into_iter().map(|s| s.id).collect();
    assert_eq!(ids, vec![5]);
    assert!(t.list(10, 9).is_empty());
    assert!(t.list(0, 0).is_empty());
}

#[test]
fn clear_forgets_listed_and_waiting_transactions() {
    let mut t = SharedTraffic::new();
    begin(&mut t, 1, "GET");
    t.complete(1, 200, None, vec![], None, 0, false);
    begin(&mut t, 2, "GET");
    t.clear();
    assert!(t.list(10, 0).is_empty());
    assert!(t.get(1).is_none());
    assert!(t.get(2).is_none());
    assert!(t.complete(2, 200, None, vec![], None, 0, false).is_none());
}

#[test]
fn delete_with_no_ids_keeps_everything() {
    let mut t = SharedTraffic::new();
    begin(&mut t, 1, "GET");
    t.complete(1, 200, None, vec![], None, 0, false);
    t.delete(&[]);
    assert_eq!(t.list(10, 0).len(), 1);
    assert!(t.get(1).is_some());
}

#[test]
fn oldest_waiting_request_is_dropped_beyond_capacity() {
    let mut t = SharedTraffic::new();
    for id in 1..=501 {
        begin(&mut t, id, "GET");
    }
    assert!(t.get(1).is_none());
    assert!(t.get(2).is_some());
    assert!(t.get(501).is_some());
}

#[test]
fn answered_request_is_recorded_without_request_details() {
    let mut t = SharedTraffic::new();
    let s = t
        .record_answered(
            9,
            "GET".into(),
            "http://x/".into(),
            "x".into(),
            Some("text/plain".into()),
            502,
            None,
            vec![],
            Some("bad gateway".into()),
            11,
        )
        .unwrap();
    assert_eq!(s.status, Some(502));
    assert!(s.truncated);
    assert_eq!(t.get(9).unwrap().summary.req_size, 0);
    assert_eq!(s.content_type.as_deref(), Some("text/plain"));
    let d = t.get(9).unwrap();
    assert!(d.req_headers.is_empty());
    assert!(d.req_body.is_none());
    assert_eq!(t.list(10, 0).len(), 1);
}

#[test]
fn response_for_id_zero_is_not_recorded() {
    let mut t = SharedTraffic::new();
    assert!(t.record_response(0, 200, None, vec![], None, 0, false).is_none());
    begin(&mut t, 3, "GET");
    assert!(t.record_response(3, 200, None, vec![], None, 0, false).is_some());
}

#[test]
fn textual_bodies_are_captured_and_others_not() {
    assert!(should_capture_content_type(Some("text/plain")));
    assert!(should_capture_content_type(Some("Application/JSON; charset=utf-8")));
    assert!(should_capture_content_type(Some("application/problem+json")));
    assert!(should_capture_content_type(Some("image/svg+xml")));
    assert!(!should_capture_content_type(Some("image/png")));
    assert!(!should_capture_content_type(Some(" TEXT/EVENT-STREAM ; x=1")));
    assert!(!should_capture_content_type(Some("text/plain\u{7f}")));
    assert!(!should_capture_content_type(None));
}

#[test]
fn body_is_read_only_when_capture_is_on() {
    assert!(should_read_body(true, Some("text/plain")));
    assert!(!should_read_body(false, Some("text/plain")));
    assert!(!should_read_body(true, Some("image/png")));
}

#[test]
fn large_bodies_are_marked_truncated() {
    let c = capture_body(b"hello", 5);
    assert_eq!(c.text.as_deref(), Some("hello"));
    assert_eq!(c.size, 5);
    assert!(!c.truncated);
    let c = capture_body(b"hello!", 5);
    assert!(c.text.is_none());
    assert_eq!(c.size, 6);
    assert!(c.truncated);
    let c = capture_body(&[0x66, 0xff], 10);
    assert_eq!(c.text.as_deref(), Some("f\u{fffd}"));
}

fn summary(id: u64) -> TrafficSummary {
    TrafficSummary {
        id,
        method: "GET".into(),
        url: "u".into(),
        host: "h".into(),
        status: Some(200),
        content_type: None,
        req_size: 0,
        res_size: 0,
        duration_ms: 0,
        started_at: 0,
        truncated: false,
    }
}

#[test]
fn batcher_emits_full_batches_of_fifty_in_order() {
    let mut b = TrafficBatcher::new();
    assert!(b.on_tick().is_none());
    for id in 0..49 {
        assert!(b.on_summary(summary(id)).is_none());
    }
    let batch = b.on_summary(summary(49)).unwrap();
    assert_eq!(batch.len(), 50);
    assert_eq!(batch[0].id, 0);
    assert_eq!(batch[49].id, 49);
    assert!(b.on_tick().is_none());
}

#[test]
fn batcher_tick_flushes_pending_summaries() {
    let mut b = TrafficBatcher::new();
    b.on_summary(summary(1));
    b.on_summary(summary(2));
    let batch = b.on_tick().unwrap();
    let ids: Vec<u64> = batch.iter().map(|s| s.id).collect();
    assert_eq!(ids, vec![1, 2]);
    assert!(b.on_tick().is_none());
}

#[test]
fn batcher_delivers_every_summary_once_in_order() {
    let mut b = TrafficBatcher::new();
    let mut sent: Vec<u64> = Vec::new();
    for id in 0..137u64 {
        if let Some(batch) = b.on_summary(summary(id)) {
            assert!(!batch.is_empty() && batch.len() <= 50);
            sent.extend(batch.iter().map(|s| s.id));
        }
        if id % 23 == 0 {
            if let Some(batch) = b.on_tick() {
                assert!(!batch.is_empty() && batch.len() < 50);
                sent.extend(batch.iter().map(|s| s.id));
            }
        }
    }
    if let Some(batch) = b.on_tick() {
        sent.extend(batch.iter().map(|s| s.id));
    }
    assert_eq!(sent, (0..137u64).collect::<Vec<_>>());
}
