//! Interactive interception: requests that hit an `intercept` rule wait for a
//! decision from the front end. This module tracks which requests wait and
//! turns each outcome into what the proxy answers.
use vstd::prelude::*;
use std::collections::HashSet;
use crate::capture::{header_value_valid, valid_header_value};

verus! {

broadcast use vstd::std_specs::hash::group_hash_axioms;

/// The decision taken in the front end.
pub enum InterceptDecision {
    /// Let the request through.
    Allow,
    /// Refuse it with 502.
    Reject,
    /// Answer with a 302 to `url`.
    Redirect { url: String },
}

/// The summary of a waiting request sent to the front end.
pub struct InterceptRequest {
    pub id: u64,
    pub method: String,
    pub url: String,
    pub headers: Vec<(String, String)>,
}

/// How waiting for a decision ended.
pub enum WaitOutcome {
    /// The front end decided.
    Decided(InterceptDecision),
    /// The waiting channel closed (the connection went away).
    Closed,
    /// No decision came within the timeout.
    TimedOut,
}

/// What the proxy does once waiting ended.
pub struct WaitResult {
    pub decision: InterceptDecision,
    /// The front end must be told that this request timed out.
    pub notify_timeout: bool,
}

/// The requests waiting for a decision, and the id the next one gets.
pub struct InterceptTable {
    pending: HashSet<u64>,
    next_id: u64,
}

impl InterceptTable {
    /// The ids of the requests waiting for a decision.
    pub closed spec fn pending(&self) -> Set<u64> {
        self.pending@
    }

    /// The id the next waiting request gets.
    pub closed spec fn next(&self) -> u64 {
        self.next_id
    }

    /// No request waits; the first id is 1.
    pub fn new() -> (r: Self)
        ensures
            r.pending() == Set::<u64>::empty(),
            r.next() == 1,
    {
        InterceptTable { pending: HashSet::new(), next_id: 1 }
    }

    /// A request starts waiting: it gets the next id (ids wrap around after
    /// `u64::MAX`).
    pub fn begin(&mut self) -> (r: u64)
        ensures
            r == old(self).next(),
            final(self).next() == (if r == u64::MAX { 0 } else { (r + 1) as u64 }),
            final(self).pending() == old(self).pending().insert(r),
    {
        let id = self.next_id;
        self.next_id = self.next_id.wrapping_add(1);
        self.pending.insert(id);
        id
    }

    /// The front end answered request `id`: true when it was waiting (it
    /// waits no more), false when it is unknown (timed out or answered).
    pub fn resolve(&mut self, id: u64) -> (r: bool)
        ensures
            r == old(self).pending().contains(id),
            final(self).pending() == old(self).pending().remove(id),
            final(self).next() == old(self).next(),
    {
        self.pending.remove(&id)
    }

    /// Waiting for request `id` ended: it waits no more; the decision is the
    /// one taken, or `Allow` when the channel closed or the wait timed out;
    /// the front end is told of a timeout.
    pub fn finish(&mut self, id: u64, outcome: WaitOutcome) -> (r: WaitResult)
        ensures
            final(self).pending() == old(self).pending().remove(id),
            final(self).next() == old(self).next(),
            match outcome {
                WaitOutcome::Decided(d) => r.decision == d && !r.notify_timeout,
                WaitOutcome::Closed => r.decision is Allow && !r.notify_timeout,
                WaitOutcome::TimedOut => r.decision is Allow && r.notify_timeout,
            },
    {
        self.pending.remove(&id);
        match outcome {
            WaitOutcome::Decided(d) => WaitResult { decision: d, notify_timeout: false },
            WaitOutcome::Closed => WaitResult { decision: InterceptDecision::Allow, notify_timeout: false },
            WaitOutcome::TimedOut => WaitResult { decision: InterceptDecision::Allow, notify_timeout: true },
        }
    }
}

/// Why a decision from the front end was not delivered.
pub enum ResolveError {
    /// No request with this id waits (it timed out or was answered).
    NotFound,
    /// The request waited but its connection had gone away.
    Closed,
}

/// Delivers a front-end decision: refused for an id that does not wait; else
/// delivered, unless the waiting side is gone (`delivered` is false).
pub fn resolve_intercept(table: &mut InterceptTable, id: u64, delivered: bool) -> (r: Result<(), ResolveError>)
    ensures
        final(table).pending() == old(table).pending().remove(id),
        !old(table).pending().contains(id) <==> r matches Err(ResolveError::NotFound),
        old(table).pending().contains(id) ==> (r is Ok <==> delivered),
{
    if !table.resolve(id) {
        return Err(ResolveError::NotFound);
    }
    if delivered {
        Ok(())
    } else {
        Err(ResolveError::Closed)
    }
}

/// A response the proxy makes up itself.
pub struct MadeResponse {
    pub status: u16,
    /// The `Location` header, when there is one.
    pub location: Option<String>,
}

/// The response for a decision: none for `Allow`; 502 for `Reject`; 302 for
/// `Redirect`, with the target as `Location` when it is a valid header value.
pub fn decision_response(decision: &InterceptDecision) -> (r: Option<MadeResponse>)
    ensures
        match decision {
            InterceptDecision::Allow => r is None,
            InterceptDecision::Reject => r matches Some(m) && m.status == 502 && m.location is None,
            InterceptDecision::Redirect { url } => r matches Some(m) && m.status == 302 && (match m.location {
                Some(l) => l@ == url@ && valid_header_value(url@),
                None => !valid_header_value(url@),
            }),
        },
{
    match decision {
        InterceptDecision::Allow => None,
        InterceptDecision::Reject => Some(MadeResponse { status: 502, location: None }),
        InterceptDecision::Redirect { url } => {
            let ok = header_value_valid(url.as_str());
            let location = if ok {
                Some(url.clone())
            } else {
                None
            };
            Some(MadeResponse { status: 302, location })
        },
    }
}

} // verus!
