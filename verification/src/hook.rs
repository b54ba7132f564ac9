//! The choices of the proxy's request hook: from what just happened to a
//! request, the next thing to do with it. The proxy core and the front end
//! perform the actions and report the events.
use vstd::prelude::*;
use crate::capture::valid_header_value;
use crate::intercept::{decision_response, InterceptDecision, MadeResponse};

verus! {

/// What happened to a request in the request hook.
pub enum HookEvent {
    /// The request arrived; `intercept_hit` tells whether a rule with an
    /// `intercept` action matches it.
    Arrived { intercept_hit: bool },
    /// The decision on the held request came (a timeout or a closed channel
    /// counts as `Allow`).
    Decided(InterceptDecision),
    /// The rule engine let the request through to the server.
    Forwarded,
    /// The rule engine answered the request itself.
    Answered,
}

/// What the request hook does next.
pub enum HookAction {
    /// Hold the request and wait for the front end's decision.
    AwaitDecision,
    /// Run the rule engine on the request.
    RunEngine,
    /// Answer with this made-up response, recorded as an answered request.
    Respond(MadeResponse),
    /// Record the request, which goes on; its response is recorded later.
    RecordRequest,
    /// Record the request as answered, with the rule engine's response.
    RecordAnswered,
}

/// The next step of the request hook: a request that hits an `intercept`
/// rule waits for a decision, others go to the rule engine; `Allow` sends it
/// on to the rule engine, `Reject` answers 502, `Redirect` answers 302 (with
/// the target as `Location` when it is a valid header value); a forwarded
/// request is recorded and its response awaited; an answered one is recorded
/// with its response.
pub fn request_hook_step(event: HookEvent) -> (r: HookAction)
    ensures
        match event {
            HookEvent::Arrived { intercept_hit } => if intercept_hit {
                r is AwaitDecision
            } else {
                r is RunEngine
            },
            HookEvent::Decided(d) => match d {
                InterceptDecision::Allow => r is RunEngine,
                InterceptDecision::Reject => r matches HookAction::Respond(m) && m.status == 502 && m.location is None,
                InterceptDecision::Redirect { url } => r matches HookAction::Respond(m) && m.status == 302 && (
                match m.location {
                    Some(l) => l@ == url@ && valid_header_value(url@),
                    None => !valid_header_value(url@),
                }),
            },
            HookEvent::Forwarded => r is RecordRequest,
            HookEvent::Answered => r is RecordAnswered,
        },
{
    match event {
        HookEvent::Arrived { intercept_hit } => if intercept_hit {
            HookAction::AwaitDecision
        } else {
            HookAction::RunEngine
        },
        HookEvent::Decided(d) => match decision_response(&d) {
            Some(m) => HookAction::Respond(m),
            None => HookAction::RunEngine,
        },
        HookEvent::Forwarded => HookAction::RecordRequest,
        HookEvent::Answered => HookAction::RecordAnswered,
    }
}

} // verus!
