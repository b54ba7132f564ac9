use flowly_gui::intercept::{
    decision_response, resolve_intercept, InterceptDecision, InterceptTable, ResolveError, WaitOutcome,
};

#[test]
fn waiting_requests_get_increasing_ids() {
    let mut t = InterceptTable::new();
    assert_eq!(t.begin(), 1);
    assert_eq!(t.begin(), 2);
}

#[test]
fn a_decision_reaches_a_waiting_request_once() {
    let mut t = InterceptTable::new();
    let id = t.begin();
    assert!(resolve_intercept(&mut t, id, true).is_ok());
    assert!(matches!(resolve_intercept(&mut t, id, true), Err(ResolveError::NotFound)));
}

#[test]
fn a_decision_for_a_closed_connection_is_reported() {
    let mut t = InterceptTable::new();
    let id = t.begin();
    assert!(matches!(resolve_intercept(&mut t, id, false), Err(ResolveError::Closed)));
}

#[test]
fn timeout_and_closed_channel_let_the_request_through() {
    let mut t = InterceptTable::new();
    let a = t.begin();
    let r = t.finish(a, WaitOutcome::TimedOut);
    assert!(matches!(r.decision, InterceptDecision::Allow));
    assert!(r.notify_timeout);
    assert!(matches!(resolve_intercept(&mut t, a, true), Err(ResolveError::NotFound)));
    let b = t.begin();
    let r = t.finish(b, WaitOutcome::Closed);
    assert!(matches!(r.decision, InterceptDecision::Allow));
    assert!(!r.notify_timeout);
    let c = t.begin();
    let r = t.finish(c, WaitOutcome::Decided(InterceptDecision::Reject));
    assert!(matches!(r.decision, InterceptDecision::Reject));
}

#[test]
fn decisions_become_responses() {
    assert!(decision_response(&InterceptDecision::Allow).is_none());
    let r = decision_response(&InterceptDecision::Reject).unwrap();
    assert_eq!(r.status, 502);
    assert!(r.location.is_none());
    let r = decision_response(&InterceptDecision::Redirect { url: "https://b/".into() }).unwrap();
    assert_eq!(r.status, 302);
    assert_eq!(r.location.as_deref(), Some("https://b/"));
    let r = decision_response(&InterceptDecision::Redirect { url: "bad\nurl".into() }).unwrap();
    assert_eq!(r.status, 302);
    assert!(r.location.is_none());
}

#[test]
fn a_decision_after_the_timeout_is_refused() {
    let mut t = InterceptTable::new();
    let id = t.begin();
    let r = t.finish(id, WaitOutcome::TimedOut);
    assert!(r.notify_timeout);
    assert!(matches!(resolve_intercept(&mut t, id, true), Err(ResolveError::NotFound)));
    assert!(matches!(resolve_intercept(&mut t, 999, true), Err(ResolveError::NotFound)));
}
