use flowly_gui::intercept::InterceptDecision;
use flowly_gui::hook::{request_hook_step, HookAction, HookEvent};
use flowly_gui::sender::validate_request_url;
use flowly_gui::sender::{send_response, status_text};
use flowly_gui::window::window_placement;

#[test]
fn window_is_centred_in_the_work_area() {
    let p = window_placement(0, 40, 1920, 1040, 1200, 832);
    assert_eq!((p.width, p.height, p.x, p.y), (1200, 832, 360, 144));
    let p = window_placement(-100, 0, 800, 600, 1000, 700);
    assert_eq!((p.width, p.height, p.x, p.y), (800, 700, -100, 0));
}

#[test]
fn status_text_uses_the_reason_phrase() {
    assert_eq!(status_text(404), "Not Found");
    assert_eq!(status_text(200), "OK");
    assert_eq!(status_text(599), "Unknown");
    let r = send_response(201, vec![("a".into(), "b".into())], vec![1], 12);
    assert_eq!(r.status_text, "Created");
    assert_eq!(r.duration_ms, 12);
    assert_eq!(r.body, vec![1]);
}

#[test]
fn request_urls_are_checked_before_sending() {
    assert!(validate_request_url("http://example.com/a?b=1").is_ok());
    assert!(validate_request_url("/relative").is_ok());
    assert!(validate_request_url("http://exa mple.com/").is_err());
    assert!(validate_request_url("").is_err());
}

#[test]
fn the_request_hook_chooses_each_next_step() {
    assert!(matches!(request_hook_step(HookEvent::Arrived { intercept_hit: true }), HookAction::AwaitDecision));
    assert!(matches!(request_hook_step(HookEvent::Arrived { intercept_hit: false }), HookAction::RunEngine));
    assert!(matches!(request_hook_step(HookEvent::Decided(InterceptDecision::Allow)), HookAction::RunEngine));
    match request_hook_step(HookEvent::Decided(InterceptDecision::Reject)) {
        HookAction::Respond(m) => assert!(m.status == 502 && m.location.is_none()),
        _ => panic!("a rejected request is answered"),
    }
    match request_hook_step(HookEvent::Decided(InterceptDecision::Redirect { url: "https://b/".into() })) {
        HookAction::Respond(m) => assert!(m.status == 302 && m.location.as_deref() == Some("https://b/")),
        _ => panic!("a redirected request is answered"),
    }
    assert!(matches!(request_hook_step(HookEvent::Forwarded), HookAction::RecordRequest));
    assert!(matches!(request_hook_step(HookEvent::Answered), HookAction::RecordAnswered));
}
