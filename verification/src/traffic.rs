//! Captured traffic: the ring of recent transaction summaries shown in the
//! list, the bounded cache of full transactions, and the batching of summaries
//! pushed to the front end.
use vstd::prelude::*;
use std::collections::{HashMap, VecDeque};
pub use crate::capture::should_capture_content_type;

verus! {

broadcast use vstd::std_specs::hash::group_hash_axioms;

/// A header list as values.
pub type HeadersView = Seq<(Seq<char>, Seq<char>)>;

pub open spec fn headers_view(h: Seq<(String, String)>) -> HeadersView {
    Seq::new(h.len(), |i: int| (h[i].0@, h[i].1@))
}

pub open spec fn opt_text(o: Option<String>) -> Option<Seq<char>> {
    match o {
        Some(s) => Some(s@),
        None => None,
    }
}

pub fn clone_opt_string(o: &Option<String>) -> (r: Option<String>)
    ensures
        opt_text(r) == opt_text(*o),
{
    match o {
        Some(s) => Some(s.clone()),
        None => None,
    }
}

pub fn clone_headers(h: &Vec<(String, String)>) -> (r: Vec<(String, String)>)
    ensures
        headers_view(r@) == headers_view(h@),
{
    let mut r: Vec<(String, String)> = Vec::new();
    let mut i: usize = 0;
    while i < h.len()
        invariant
            i <= h.len(),
            r@.len() == i,
            forall|k: int| 0 <= k < i ==> (#[trigger] r@[k]).0@ == h@[k].0@ && r@[k].1@ == h@[k].1@,
        decreases h.len() - i,
    {
        let pair = &h[i];
        let name = pair.0.clone();
        let value = pair.1.clone();
        r.push((name, value));
        i = i + 1;
    }
    assert(headers_view(r@) =~= headers_view(h@));
    r
}

/// The summary of one transaction, as listed by the front end.
pub struct TrafficSummary {
    pub id: u64,
    pub method: String,
    pub url: String,
    pub host: String,
    pub status: Option<u16>,
    pub content_type: Option<String>,
    pub req_size: usize,
    pub res_size: usize,
    pub duration_ms: u128,
    /// Start of the request, in Unix milliseconds.
    pub started_at: u128,
    /// The body exceeded the capture limit, or the request was answered early.
    pub truncated: bool,
}

/// A transaction summary as values.
pub struct TrafficSummaryView {
    pub id: u64,
    pub method: Seq<char>,
    pub url: Seq<char>,
    pub host: Seq<char>,
    pub status: Option<u16>,
    pub content_type: Option<Seq<char>>,
    pub req_size: usize,
    pub res_size: usize,
    pub duration_ms: u128,
    pub started_at: u128,
    pub truncated: bool,
}

impl View for TrafficSummary {
    type V = TrafficSummaryView;

    open spec fn view(&self) -> TrafficSummaryView {
        TrafficSummaryView {
            id: self.id,
            method: self.method@,
            url: self.url@,
            host: self.host@,
            status: self.status,
            content_type: opt_text(self.content_type),
            req_size: self.req_size,
            res_size: self.res_size,
            duration_ms: self.duration_ms,
            started_at: self.started_at,
            truncated: self.truncated,
        }
    }
}

impl Clone for TrafficSummary {
    fn clone(&self) -> (r: Self)
        ensures
            r@ == self@,
    {
        TrafficSummary {
            id: self.id,
            method: self.method.clone(),
            url: self.url.clone(),
            host: self.host.clone(),
            status: self.status,
            content_type: clone_opt_string(&self.content_type),
            req_size: self.req_size,
            res_size: self.res_size,
            duration_ms: self.duration_ms,
            started_at: self.started_at,
            truncated: self.truncated,
        }
    }
}

/// A full transaction: summary, request and response headers and bodies.
pub struct TransactionDetail {
    pub summary: TrafficSummary,
    pub req_headers: Vec<(String, String)>,
    pub req_body: Option<String>,
    pub res_headers: Vec<(String, String)>,
    pub res_body: Option<String>,
}

/// A full transaction as values.
pub struct TransactionDetailView {
    pub summary: TrafficSummaryView,
    pub req_headers: HeadersView,
    pub req_body: Option<Seq<char>>,
    pub res_headers: HeadersView,
    pub res_body: Option<Seq<char>>,
}

impl View for TransactionDetail {
    type V = TransactionDetailView;

    open spec fn view(&self) -> TransactionDetailView {
        TransactionDetailView {
            summary: self.summary@,
            req_headers: headers_view(self.req_headers@),
            req_body: opt_text(self.req_body),
            res_headers: headers_view(self.res_headers@),
            res_body: opt_text(self.res_body),
        }
    }
}

impl Clone for TransactionDetail {
    fn clone(&self) -> (r: Self)
        ensures
            r@ == self@,
    {
        TransactionDetail {
            summary: self.summary.clone(),
            req_headers: clone_headers(&self.req_headers),
            req_body: clone_opt_string(&self.req_body),
            res_headers: clone_headers(&self.res_headers),
            res_body: clone_opt_string(&self.res_body),
        }
    }
}

/// The current time in Unix milliseconds (`SystemTime::now()` since the Unix
/// epoch, 0 for a clock set before it). Nothing is claimed of the value.
#[verifier::external_body]
fn now_unix_millis() -> u128 {
    std::time::SystemTime::now().duration_since(std::time::SystemTime::UNIX_EPOCH).unwrap_or_default().as_millis()
}


/// Capacity of the summary ring: the list keeps the latest 500 transactions.
pub const SUMMARY_RING_CAP: usize = 500;

pub open spec fn summaries_view(s: Seq<TrafficSummary>) -> Seq<TrafficSummaryView> {
    Seq::new(s.len(), |i: int| s[i]@)
}

/// The detail recorded when a request is seen: no response yet.
pub open spec fn begun_detail(
    id: u64,
    method: Seq<char>,
    url: Seq<char>,
    host: Seq<char>,
    req_headers: HeadersView,
    req_body: Option<Seq<char>>,
    req_size: usize,
    content_type: Option<Seq<char>>,
    started_at: u128,
) -> TransactionDetailView {
    TransactionDetailView {
        summary: TrafficSummaryView {
            id,
            method,
            url,
            host,
            status: None,
            content_type,
            req_size,
            res_size: 0,
            duration_ms: 0,
            started_at,
            truncated: false,
        },
        req_headers,
        req_body,
        res_headers: Seq::empty(),
        res_body: None,
    }
}

/// The summary once the response is seen at time `now`: the status, the
/// response's content type if it has one (else the request's), the response
/// size, the elapsed time (0 if the clock went back) and the truncation flag.
pub open spec fn completed_summary(
    s: TrafficSummaryView,
    status: u16,
    content_type: Option<Seq<char>>,
    res_size: usize,
    truncated: bool,
    now: u128,
) -> TrafficSummaryView {
    TrafficSummaryView {
        status: Some(status),
        content_type: match content_type {
            Some(c) => Some(c),
            None => s.content_type,
        },
        res_size,
        duration_ms: if now >= s.started_at { (now - s.started_at) as u128 } else { 0 },
        truncated,
        ..s
    }
}

/// The full transaction once its response is seen.
pub open spec fn completed_detail(
    d: TransactionDetailView,
    status: u16,
    content_type: Option<Seq<char>>,
    res_headers: HeadersView,
    res_body: Option<Seq<char>>,
    res_size: usize,
    truncated: bool,
    now: u128,
) -> TransactionDetailView {
    TransactionDetailView {
        summary: completed_summary(d.summary, status, content_type, res_size, truncated, now),
        res_headers,
        res_body,
        ..d
    }
}

/// The ring after a completed summary is appended: when full, its oldest
/// summary leaves first.
pub open spec fn ring_after(ring: Seq<TrafficSummaryView>, s: TrafficSummaryView) -> Seq<TrafficSummaryView> {
    if ring.len() >= SUMMARY_RING_CAP {
        ring.drop_first().push(s)
    } else {
        ring.push(s)
    }
}

/// The page of `ring` that starts at `offset` and holds at most `limit`
/// summaries.
pub open spec fn page(ring: Seq<TrafficSummaryView>, limit: usize, offset: usize) -> Seq<TrafficSummaryView> {
    let start = if offset <= ring.len() { offset as int } else { ring.len() as int };
    let end = if start + limit <= ring.len() { start + limit } else { ring.len() as int };
    ring.subrange(start, end)
}

/// `ring` without the summaries whose id is in `ids`, order kept.
pub open spec fn without_ids(ring: Seq<TrafficSummaryView>, ids: Seq<u64>) -> Seq<TrafficSummaryView>
    decreases ring.len(),
{
    if ring.len() == 0 {
        ring
    } else {
        let rest = without_ids(ring.drop_last(), ids);
        if ids.contains(ring.last().id) {
            rest
        } else {
            rest.push(ring.last())
        }
    }
}

/// At most this many transactions wait for their response; when one more
/// begins, the oldest waiting one is dropped (unless it is listed).
pub const PENDING_CAP: usize = 500;

/// Some summary of `ring` has id `id`.
pub open spec fn listed(ring: Seq<TrafficSummaryView>, id: u64) -> bool {
    exists|i: int| 0 <= i < ring.len() && #[trigger] ring[i].id == id
}

/// `s` without the occurrences of `x`, order kept.
pub open spec fn seq_without(s: Seq<u64>, x: u64) -> Seq<u64>
    decreases s.len(),
{
    if s.len() == 0 {
        s
    } else {
        let rest = seq_without(s.drop_last(), x);
        if s.last() == x {
            rest
        } else {
            rest.push(s.last())
        }
    }
}

/// The waiting ids after transaction `id` begins: `id` joins at the back
/// unless it already waits; beyond `PENDING_CAP` the oldest leaves.
pub open spec fn pending_after_begin(pending: Seq<u64>, id: u64) -> Seq<u64> {
    if pending.contains(id) {
        pending
    } else if pending.len() + 1 > PENDING_CAP {
        pending.push(id).drop_first()
    } else {
        pending.push(id)
    }
}

/// The waiting transaction whose detail is dropped when `id` begins: the
/// oldest waiting one, when the waiting list overflows and it is not listed.
pub open spec fn dropped_on_begin(ring: Seq<TrafficSummaryView>, pending: Seq<u64>, id: u64) -> Option<u64> {
    if !pending.contains(id) && pending.len() + 1 > PENDING_CAP && !listed(ring, pending[0]) {
        Some(pending[0])
    } else {
        None
    }
}

/// The id whose detail leaves when a summary for `id` is appended to
/// `ring`: the oldest summary's, when the ring is full and that id is
/// neither `id` nor listed again.
pub open spec fn dropped_on_complete(ring: Seq<TrafficSummaryView>, id: u64) -> Option<u64> {
    if ring.len() >= SUMMARY_RING_CAP && ring[0].id != id && !listed(ring.drop_first(), ring[0].id) {
        Some(ring[0].id)
    } else {
        None
    }
}

pub open spec fn remove_opt(m: Map<u64, TransactionDetailView>, k: Option<u64>) -> Map<u64, TransactionDetailView> {
    match k {
        Some(x) => m.remove(x),
        None => m,
    }
}

/// The captured traffic: the ring of completed summaries (at most 500, oldest
/// first), the full transactions by id, the ids still waiting for their
/// response (oldest first), and the next transaction id.
pub struct SharedTraffic {
    next_id: u64,
    summaries: VecDeque<TrafficSummary>,
    transactions: HashMap<u64, TransactionDetail>,
    pending: VecDeque<u64>,
}

impl SharedTraffic {
    /// The summaries in the list, oldest first.
    pub closed spec fn ring(&self) -> Seq<TrafficSummaryView> {
        summaries_view(self.summaries@)
    }

    /// The full transactions held, by id.
    pub closed spec fn details(&self) -> Map<u64, TransactionDetailView> {
        self.transactions@.map_values(|d: TransactionDetail| d@)
    }

    /// The ids of the transactions waiting for their response, oldest first.
    pub closed spec fn pending_ids(&self) -> Seq<u64> {
        self.pending@
    }

    /// The next id `next_id` hands out.
    pub closed spec fn next(&self) -> u64 {
        self.next_id
    }

    /// The list holds at most `SUMMARY_RING_CAP` summaries and at most
    /// `PENDING_CAP` transactions wait; every listed summary's transaction
    /// is held; every held transaction is listed or waiting, under its own id.
    pub closed spec fn wf(&self) -> bool {
        &&& self.summaries@.len() <= SUMMARY_RING_CAP
        &&& self.pending@.len() <= PENDING_CAP
        &&& forall|i: int| 0 <= i < self.ring().len() ==> self.details().contains_key(#[trigger] self.ring()[i].id)
        &&& forall|k: u64| #[trigger]
            self.details().contains_key(k) ==> (listed(self.ring(), k) || self.pending_ids().contains(k))
                && self.details()[k].summary.id == k
    }

    /// An empty store whose first id is 1.
    pub fn new() -> (r: Self)
        ensures
            r.wf(),
            r.ring() == Seq::<TrafficSummaryView>::empty(),
            r.details().dom().is_empty(),
            r.pending_ids() == Seq::<u64>::empty(),
            r.next() == 1,
    {
        let r = SharedTraffic {
            next_id: 1,
            summaries: VecDeque::with_capacity(SUMMARY_RING_CAP),
            transactions: HashMap::new(),
            pending: VecDeque::new(),
        };
        assert(r.ring() =~= Seq::<TrafficSummaryView>::empty());
        assert(r.details().dom() =~= Set::<u64>::empty());
        r
    }

    /// Hands out a fresh transaction id (ids wrap around after `u64::MAX`).
    pub fn next_id(&mut self) -> (r: u64)
        requires
            old(self).wf(),
        ensures
            final(self).wf(),
            r == old(self).next(),
            final(self).next() == (if r == u64::MAX { 0 } else { (r + 1) as u64 }),
            final(self).ring() == old(self).ring(),
            final(self).details() == old(self).details(),
            final(self).pending_ids() == old(self).pending_ids(),
    {
        let r = self.next_id;
        self.next_id = self.next_id.wrapping_add(1);
        r
    }

    fn lists(&self, id: u64) -> (r: bool)
        ensures
            r == listed(self.ring(), id),
    {
        let mut i: usize = 0;
        while i < self.summaries.len()
            invariant
                i <= self.summaries@.len(),
                forall|k: int| 0 <= k < i ==> self.ring()[k].id != id,
            decreases self.summaries@.len() - i,
        {
            if self.summaries[i].id == id {
                assert(self.ring()[i as int].id == id);
                return true;
            }
            i = i + 1;
        }
        false
    }

    fn waits(&self, id: u64) -> (r: bool)
        ensures
            r == self.pending@.contains(id),
    {
        let mut i: usize = 0;
        while i < self.pending.len()
            invariant
                i <= self.pending@.len(),
                forall|k: int| 0 <= k < i ==> self.pending@[k] != id,
            decreases self.pending@.len() - i,
        {
            if self.pending[i] == id {
                assert(self.pending@[i as int] == id);
                return true;
            }
            i = i + 1;
        }
        false
    }

    /// Request phase: records a transaction `id` that has no response yet,
    /// started now.
    pub fn begin_request(
        &mut self,
        id: u64,
        method: String,
        url: String,
        host: String,
        req_headers: Vec<(String, String)>,
        req_body: Option<String>,
        req_size: usize,
        content_type: Option<String>,
    )
        requires
            old(self).wf(),
        ensures
            final(self).wf(),
            final(self).ring() == old(self).ring(),
            final(self).next() == old(self).next(),
            final(self).pending_ids() == pending_after_begin(old(self).pending_ids(), id),
            exists|started_at: u128|
                final(self).details() == remove_opt(
                    old(self).details().insert(
                        id,
                        #[trigger] begun_detail(
                            id,
                            method@,
                            url@,
                            host@,
                            headers_view(req_headers@),
                            opt_text(req_body),
                            req_size,
                            opt_text(content_type),
                            started_at,
                        ),
                    ),
                    dropped_on_begin(old(self).ring(), old(self).pending_ids(), id),
                ),
    {
        let now = now_unix_millis();
        self.begin_request_at(id, method, url, host, req_headers, req_body, req_size, content_type, now);
    }

    /// Request phase with the start time given: the transaction is held
    /// (replacing any held under `id`) and waits for its response.
    pub fn begin_request_at(
        &mut self,
        id: u64,
        method: String,
        url: String,
        host: String,
        req_headers: Vec<(String, String)>,
        req_body: Option<String>,
        req_size: usize,
        content_type: Option<String>,
        started_at: u128,
    )
        requires
            old(self).wf(),
        ensures
            final(self).wf(),
            final(self).ring() == old(self).ring(),
            final(self).next() == old(self).next(),
            final(self).pending_ids() == pending_after_begin(old(self).pending_ids(), id),
            final(self).details() == remove_opt(
                old(self).details().insert(
                    id,
                    begun_detail(
                        id,
                        method@,
                        url@,
                        host@,
                        headers_view(req_headers@),
                        opt_text(req_body),
                        req_size,
                        opt_text(content_type),
                        started_at,
                    ),
                ),
                dropped_on_begin(old(self).ring(), old(self).pending_ids(), id),
            ),
    {
        let ghost pre_details = self.details();
        let ghost pre_pending = self.pending@;
        let summary = TrafficSummary {
            id,
            method,
            url,
            host,
            status: None,
            content_type,
            req_size,
            res_size: 0,
            duration_ms: 0,
            started_at,
            truncated: false,
        };
        let detail = TransactionDetail {
            summary,
            req_headers,
            req_body,
            res_headers: Vec::new(),
            res_body: None,
        };
        let ghost dv = detail@;
        assert(detail@.res_headers =~= Seq::<(Seq<char>, Seq<char>)>::empty());
        self.transactions.insert(id, detail);
        assert(self.details() =~= pre_details.insert(id, dv));
        let ghost mid_details = self.details();
        if !self.waits(id) {
            self.pending.push_back(id);
            if self.pending.len() > PENDING_CAP {
                match self.pending.pop_front() {
                    Some(p) => {
                        assert(p == pre_pending.push(id)[0]);
                        if !self.lists(p) {
                            self.transactions.remove(&p);
                            assert(self.details() =~= mid_details.remove(p));
                        }
                    },
                    None => {},
                }
            }
        }
        proof {
            let drop = dropped_on_begin(old(self).ring(), old(self).pending_ids(), id);
            assert(self.pending@ =~= pending_after_begin(pre_pending, id));
            assert(self.details() =~= remove_opt(mid_details, drop));
            assert forall|k: u64| #[trigger]
                self.details().contains_key(k) implies (listed(self.ring(), k) || self.pending_ids().contains(k))
                && self.details()[k].summary.id == k by {
                if k != id {
                    assert(old(self).details().contains_key(k));
                    if !listed(self.ring(), k) {
                        assert(pre_pending.contains(k));
                        let j = choose|j: int| 0 <= j < pre_pending.len() && pre_pending[j] == k;
                        if !pre_pending.contains(id) && pre_pending.len() + 1 > PENDING_CAP {
                            assert(j != 0);
                            assert(self.pending_ids()[j - 1] == k);
                        } else if !pre_pending.contains(id) {
                            assert(self.pending_ids()[j] == k);
                        }
                    }
                } else {
                    if !pre_pending.contains(id) {
                        assert(self.pending_ids().last() == id);
                    }
                }
            }
            assert forall|i: int| 0 <= i < self.ring().len() implies self.details().contains_key(
                #[trigger] self.ring()[i].id,
            ) by {
                assert(old(self).details().contains_key(self.ring()[i].id));
                if drop is Some {
                    assert(listed(old(self).ring(), self.ring()[i].id));
                }
            }
        }
    }
}

impl SharedTraffic {
    /// `post` is `pre` after transaction `id` completed at `now` with summary
    /// `sm`: the held detail was updated with the response and `sm` is its
    /// summary; `sm` was appended to the list (the oldest leaving a full
    /// list, its detail dropped unless still listed); `id` no longer waits.
    pub open spec fn completed_as(
        pre: Self,
        post: Self,
        id: u64,
        status: u16,
        content_type: Option<Seq<char>>,
        res_headers: HeadersView,
        res_body: Option<Seq<char>>,
        res_size: usize,
        truncated: bool,
        now: u128,
        sm: TrafficSummaryView,
    ) -> bool {
        let d = pre.details()[id];
        let updated = completed_detail(d, status, content_type, res_headers, res_body, res_size, truncated, now);
        &&& pre.details().contains_key(id)
        &&& sm == updated.summary
        &&& post.ring() == ring_after(pre.ring(), sm)
        &&& post.details() == remove_opt(pre.details().insert(id, updated), dropped_on_complete(pre.ring(), id))
        &&& post.pending_ids() == seq_without(pre.pending_ids(), id)
    }

    fn stop_waiting(&mut self, id: u64)
        ensures
            final(self).pending@ == seq_without(old(self).pending@, id),
            final(self).summaries@ == old(self).summaries@,
            final(self).transactions@ == old(self).transactions@,
            final(self).next_id == old(self).next_id,
    {
        let mut kept: VecDeque<u64> = VecDeque::new();
        let n = self.pending.len();
        let mut i: usize = 0;
        while i < n
            invariant
                n == self.pending@.len(),
                self.pending@ == old(self).pending@,
                i <= n,
                kept@ == seq_without(self.pending@.take(i as int), id),
            decreases n - i,
        {
            let x = self.pending[i];
            assert(self.pending@.take(i + 1).drop_last() =~= self.pending@.take(i as int));
            if x != id {
                kept.push_back(x);
            }
            i = i + 1;
        }
        assert(self.pending@.take(n as int) =~= self.pending@);
        self.pending = kept;
    }

    /// Response phase: completes transaction `id` now, appends its summary to
    /// the list and returns it for the live feed. Nothing changes, and `None`
    /// is returned, when transaction `id` is not held.
    pub fn complete(
        &mut self,
        id: u64,
        status: u16,
        content_type: Option<String>,
        res_headers: Vec<(String, String)>,
        res_body: Option<String>,
        res_size: usize,
        truncated: bool,
    ) -> (r: Option<TrafficSummary>)
        requires
            old(self).wf(),
        ensures
            final(self).wf(),
            final(self).next() == old(self).next(),
            !old(self).details().contains_key(id) <==> r is None,
            r is None ==> final(self).ring() == old(self).ring() && final(self).details()
                == old(self).details() && final(self).pending_ids() == old(self).pending_ids(),
            r matches Some(sm) ==> exists|now: u128|
                #[trigger] Self::completed_as(
                    *old(self),
                    *final(self),
                    id,
                    status,
                    opt_text(content_type),
                    headers_view(res_headers@),
                    opt_text(res_body),
                    res_size,
                    truncated,
                    now,
                    sm@,
                ),
    {
        let now = now_unix_millis();
        self.complete_at(id, status, content_type, res_headers, res_body, res_size, truncated, now)
    }

    /// Response phase with the completion time given.
    pub fn complete_at(
        &mut self,
        id: u64,
        status: u16,
        content_type: Option<String>,
        res_headers: Vec<(String, String)>,
        res_body: Option<String>,
        res_size: usize,
        truncated: bool,
        now: u128,
    ) -> (r: Option<TrafficSummary>)
        requires
            old(self).wf(),
        ensures
            final(self).wf(),
            final(self).next() == old(self).next(),
            !old(self).details().contains_key(id) <==> r is None,
            r is None ==> final(self).ring() == old(self).ring() && final(self).details()
                == old(self).details() && final(self).pending_ids() == old(self).pending_ids(),
            r matches Some(sm) ==> Self::completed_as(
                *old(self),
                *final(self),
                id,
                status,
                opt_text(content_type),
                headers_view(res_headers@),
                opt_text(res_body),
                res_size,
                truncated,
                now,
                sm@,
            ),
    {
        let ghost pre = *self;
        let mut detail = match self.transactions.get(&id) {
            Some(d) => d.clone(),
            None => return None,
        };
        let ghost d0 = detail@;
        assert(d0 == old(self).details()[id]);
        assert(old(self).details().contains_key(id));
        assert(d0.summary.id == id);
        let start = detail.summary.started_at;
        detail.summary.status = Some(status);
        let ct = match content_type {
            Some(c) => Some(c),
            None => detail.summary.content_type,
        };
        detail.summary.content_type = ct;
        detail.summary.res_size = res_size;
        detail.summary.duration_ms = now.saturating_sub(start);
        detail.summary.truncated = truncated;
        detail.res_headers = res_headers;
        detail.res_body = res_body;
        let summary = detail.summary.clone();
        let ghost updated = detail@;
        assert(updated == completed_detail(
            d0,
            status,
            opt_text(content_type),
            headers_view(res_headers@),
            opt_text(res_body),
            res_size,
            truncated,
            now,
        ));
        self.transactions.insert(id, detail);
        assert(self.details() =~= old(self).details().insert(id, updated));
        let ghost kept = self.details();
        self.stop_waiting(id);
        if self.summaries.len() >= SUMMARY_RING_CAP {
            match self.summaries.pop_front() {
                Some(expired) => {
                    assert(expired@ == old(self).ring()[0]);
                    assert(self.ring() =~= old(self).ring().drop_first());
                    if expired.id != id && !self.lists(expired.id) {
                        self.transactions.remove(&expired.id);
                        assert(self.details() =~= kept.remove(expired.id));
                    }
                },
                None => {},
            }
        }
        let ghost before_push = self.summaries@;
        self.summaries.push_back(summary.clone());
        proof {
            lemma_summaries_view_push(before_push, summary);
            assert(self.ring() =~= ring_after(old(self).ring(), summary@));
            assert(self.details() =~= remove_opt(kept, dropped_on_complete(old(self).ring(), id)));
            lemma_seq_without(old(self).pending@, id);
            let ring0 = old(self).ring();
            assert forall|i: int| 0 <= i < self.ring().len() implies self.details().contains_key(
                #[trigger] self.ring()[i].id,
            ) by {
                if i == self.ring().len() - 1 {
                    assert(self.ring()[i].id == id);
                } else {
                    let j = if ring0.len() >= SUMMARY_RING_CAP { i + 1 } else { i };
                    assert(self.ring()[i] == ring0[j]);
                    assert(old(self).details().contains_key(ring0[j].id));
                    if dropped_on_complete(ring0, id) is Some {
                        assert(ring0.drop_first()[i] == ring0[j]);
                        assert(listed(ring0.drop_first(), ring0[j].id));
                    }
                }
            }
            assert forall|k: u64| #[trigger]
                self.details().contains_key(k) implies (listed(self.ring(), k) || self.pending_ids().contains(k))
                && self.details()[k].summary.id == k by {
                if k == id {
                    assert(self.ring()[self.ring().len() - 1].id == id);
                } else {
                    assert(old(self).details().contains_key(k));
                    if old(self).pending_ids().contains(k) {
                        assert(self.pending_ids().contains(k));
                    } else {
                        let j = choose|j: int| 0 <= j < ring0.len() && #[trigger] ring0[j].id == k;
                        if ring0.len() >= SUMMARY_RING_CAP {
                            if j > 0 {
                                assert(self.ring()[j - 1] == ring0[j]);
                            } else {
                                if listed(ring0.drop_first(), k) {
                                    let m = choose|m: int| 0 <= m < ring0.drop_first().len() && #[trigger] ring0.drop_first()[m].id == k;
                                    assert(self.ring()[m] == ring0.drop_first()[m]);
                                }
                            }
                        } else {
                            assert(self.ring()[j] == ring0[j]);
                        }
                    }
                }
            }
        }
        Some(summary)
    }

    /// `post` is `pre` after a request answered without forwarding was
    /// recorded (request begun at `started_at` without headers or body,
    /// giving `mid`) and completed at `now` with summary `sm`, marked
    /// truncated since the request was cut short in the request phase.
    pub open spec fn answered_as(
        pre: Self,
        mid: Self,
        post: Self,
        id: u64,
        method: Seq<char>,
        url: Seq<char>,
        host: Seq<char>,
        req_content_type: Option<Seq<char>>,
        status: u16,
        res_content_type: Option<Seq<char>>,
        res_headers: HeadersView,
        res_body: Option<Seq<char>>,
        res_size: usize,
        started_at: u128,
        now: u128,
        sm: TrafficSummaryView,
    ) -> bool {
        &&& mid.ring() == pre.ring()
        &&& mid.pending_ids() == pending_after_begin(pre.pending_ids(), id)
        &&& mid.details() == remove_opt(
            pre.details().insert(
                id,
                begun_detail(id, method, url, host, Seq::empty(), None, 0, req_content_type, started_at),
            ),
            dropped_on_begin(pre.ring(), pre.pending_ids(), id),
        )
        &&& Self::completed_as(mid, post, id, status, res_content_type, res_headers, res_body, res_size, true, now, sm)
    }

    /// Records a request that was answered without being forwarded (refused,
    /// redirected, or answered by a rule): the request is recorded without
    /// headers or body, then completed with the response at once, and its
    /// summary is marked truncated (the request was cut short).
    pub fn record_answered(
        &mut self,
        id: u64,
        method: String,
        url: String,
        host: String,
        req_content_type: Option<String>,
        status: u16,
        res_content_type: Option<String>,
        res_headers: Vec<(String, String)>,
        res_body: Option<String>,
        res_size: usize,
    ) -> (r: Option<TrafficSummary>)
        requires
            old(self).wf(),
        ensures
            final(self).wf(),
            final(self).next() == old(self).next(),
            r is Some,
            r matches Some(sm) ==> sm@.truncated,
            r matches Some(sm) ==> exists|mid: Self, started_at: u128, now: u128|
                #[trigger] Self::answered_as(
                    *old(self),
                    mid,
                    *final(self),
                    id,
                    method@,
                    url@,
                    host@,
                    opt_text(req_content_type),
                    status,
                    opt_text(res_content_type),
                    headers_view(res_headers@),
                    opt_text(res_body),
                    res_size,
                    started_at,
                    now,
                    sm@,
                ),
    {
        let ghost pre = *self;
        let ghost (mv, uv, hv, qv) = (method@, url@, host@, opt_text(req_content_type));
        let ghost (sv, rcv, rhv, rbv) = (status, opt_text(res_content_type), headers_view(res_headers@), opt_text(res_body));
        let started_at = now_unix_millis();
        self.begin_request_at(id, method, url, host, Vec::new(), None, 0, req_content_type, started_at);
        proof {
            assert(headers_view(Seq::<(String, String)>::empty()) =~= Seq::<(Seq<char>, Seq<char>)>::empty());
            assert(self.details().contains_key(id));
        }
        let ghost mid = *self;
        let now = now_unix_millis();
        let r = self.complete_at(id, status, res_content_type, res_headers, res_body, res_size, true, now);
        proof {
            if r is Some {
                let sm = r->0;
                assert(Self::answered_as(
                    pre, mid, *self, id, mv, uv, hv, qv, sv, rcv, rhv, rbv, res_size, started_at, now, sm@,
                ));
            }
        }
        r
    }

    /// Records the response of a forwarded request: completes transaction
    /// `id`, unless `id` is 0 (no request was recorded for it).
    pub fn record_response(
        &mut self,
        id: u64,
        status: u16,
        content_type: Option<String>,
        res_headers: Vec<(String, String)>,
        res_body: Option<String>,
        res_size: usize,
        truncated: bool,
    ) -> (r: Option<TrafficSummary>)
        requires
            old(self).wf(),
        ensures
            final(self).wf(),
            final(self).next() == old(self).next(),
            id == 0 ==> r is None,
            id != 0 ==> (!old(self).details().contains_key(id) <==> r is None),
            r is None ==> final(self).ring() == old(self).ring() && final(self).details()
                == old(self).details() && final(self).pending_ids() == old(self).pending_ids(),
            r matches Some(sm) ==> exists|now: u128|
                #[trigger] Self::completed_as(
                    *old(self),
                    *final(self),
                    id,
                    status,
                    opt_text(content_type),
                    headers_view(res_headers@),
                    opt_text(res_body),
                    res_size,
                    truncated,
                    now,
                    sm@,
                ),
    {
        if id == 0 {
            return None;
        }
        self.complete(id, status, content_type, res_headers, res_body, res_size, truncated)
    }

    /// Up to `limit` summaries of the list, starting at position `offset`
    /// (oldest first).
    pub fn list(&self, limit: usize, offset: usize) -> (r: Vec<TrafficSummary>)
        ensures
            summaries_view(r@) == page(self.ring(), limit, offset),
    {
        let n = self.summaries.len();
        let start = if offset <= n { offset } else { n };
        let end = if limit <= n - start { start + limit } else { n };
        let mut r: Vec<TrafficSummary> = Vec::new();
        let mut i = start;
        while i < end
            invariant
                n == self.summaries@.len(),
                start <= i <= end <= n,
                summaries_view(r@) == self.ring().subrange(start as int, i as int),
            decreases end - i,
        {
            let s = self.summaries[i].clone();
            assert(s@ == self.ring()[i as int]);
            let ghost before = r@;
            r.push(s);
            proof {
                lemma_summaries_view_push(before, r@.last());
                assert(r@ == before.push(r@.last()));
                assert(self.ring().subrange(start as int, i + 1) =~= self.ring().subrange(
                    start as int,
                    i as int,
                ).push(self.ring()[i as int]));
            }
            i = i + 1;
        }
        r
    }

    /// The full transaction `id`, if it is held.
    pub fn get(&self, id: u64) -> (r: Option<TransactionDetail>)
        ensures
            r is Some <==> self.details().contains_key(id),
            r matches Some(d) ==> self.details()[id] == d@,
    {
        match self.transactions.get(&id) {
            Some(d) => Some(d.clone()),
            None => None,
        }
    }

    /// The full transactions of `ids`, in the order of `ids`, `None` for each
    /// one not held.
    pub fn get_batch(&self, ids: &[u64]) -> (r: Vec<Option<TransactionDetail>>)
        ensures
            r@.len() == ids@.len(),
            forall|i: int|
                0 <= i < ids@.len() ==> (#[trigger] r@[i] is Some <==> self.details().contains_key(ids@[i])),
            forall|i: int|
                0 <= i < ids@.len() ==> (#[trigger] r@[i] matches Some(d) ==> self.details()[ids@[i]] == d@),
    {
        let mut r: Vec<Option<TransactionDetail>> = Vec::new();
        let mut i: usize = 0;
        while i < ids.len()
            invariant
                i <= ids@.len(),
                r@.len() == i,
                forall|k: int| 0 <= k < i ==> (#[trigger] r@[k] is Some <==> self.details().contains_key(ids@[k])),
                forall|k: int| 0 <= k < i ==> (#[trigger] r@[k] matches Some(d) ==> self.details()[ids@[k]] == d@),
            decreases ids@.len() - i,
        {
            let d = self.get(ids[i]);
            r.push(d);
            i = i + 1;
        }
        r
    }

    /// Forgets every transaction, listed or waiting.
    pub fn clear(&mut self)
        requires
            old(self).wf(),
        ensures
            final(self).wf(),
            final(self).ring() == Seq::<TrafficSummaryView>::empty(),
            final(self).details().dom().is_empty(),
            final(self).pending_ids() == Seq::<u64>::empty(),
            final(self).next() == old(self).next(),
    {
        self.summaries.clear();
        self.transactions.clear();
        self.pending.clear();
        assert(summaries_view(self.summaries@) =~= Seq::<TrafficSummaryView>::empty());
        assert(self.details().dom() =~= Set::<u64>::empty());
    }

    /// Forgets the transactions `ids`: their summaries leave the list (the
    /// others keep their order) and their details are dropped.
    pub fn delete(&mut self, ids: &[u64])
        requires
            old(self).wf(),
        ensures
            final(self).wf(),
            final(self).next() == old(self).next(),
            final(self).pending_ids() == old(self).pending_ids(),
            final(self).ring() == without_ids(old(self).ring(), ids@),
            forall|k: u64| #[trigger]
                final(self).details().contains_key(k) <==> old(self).details().contains_key(k) && !ids@.contains(
                    k,
                ),
            forall|k: u64| #[trigger] final(self).details().contains_key(k) ==> final(self).details()[k]
                == old(self).details()[k],
    {
        if ids.len() == 0 {
            proof {
                lemma_without_none(old(self).ring(), ids@);
            }
            return;
        }
        let n = self.summaries.len();
        let mut kept: VecDeque<TrafficSummary> = VecDeque::new();
        let mut i: usize = 0;
        while i < n
            invariant
                n == self.summaries@.len(),
                self.summaries@ == old(self).summaries@,
                n <= SUMMARY_RING_CAP,
                i <= n,
                kept@.len() <= i,
                summaries_view(kept@) == without_ids(self.ring().take(i as int), ids@),
            decreases n - i,
        {
            let s = self.summaries[i].clone();
            let mut j: usize = 0;
            let mut hit = false;
            while j < ids.len()
                invariant
                    j <= ids@.len(),
                    hit <==> exists|k: int| 0 <= k < j && ids@[k] == s.id,
                decreases ids@.len() - j,
            {
                if ids[j] == s.id {
                    hit = true;
                }
                j = j + 1;
            }
            assert(hit <==> ids@.contains(s.id));
            assert(self.ring().take(i + 1).drop_last() =~= self.ring().take(i as int));
            assert(self.ring().take(i + 1).last() == s@);
            if !hit {
                let ghost before = kept@;
                kept.push_back(s);
                proof {
                    lemma_summaries_view_push(before, kept@.last());
                    assert(kept@ == before.push(kept@.last()));
                }
            }
            i = i + 1;
        }
        assert(self.ring().take(n as int) =~= self.ring());
        self.summaries = kept;
        let mut k: usize = 0;
        while k < ids.len()
            invariant
                k <= ids@.len(),
                self.next_id == old(self).next_id,
                self.pending@ == old(self).pending@,
                self.summaries@.len() <= SUMMARY_RING_CAP,
                summaries_view(self.summaries@) == without_ids(old(self).ring(), ids@),
                forall|x: u64| #[trigger]
                    self.details().contains_key(x) <==> old(self).details().contains_key(x) && !ids@.take(
                        k as int,
                    ).contains(x),
                forall|x: u64| #[trigger] self.details().contains_key(x) ==> self.details()[x]
                    == old(self).details()[x],
            decreases ids@.len() - k,
        {
            let ghost prev = self.details();
            self.transactions.remove(&ids[k]);
            proof {
                assert(self.details() =~= prev.remove(ids@[k as int]));
                let t1 = ids@.take(k as int);
                let t2 = ids@.take(k + 1);
                assert(t2 =~= t1.push(ids@[k as int]));
                assert forall|x: u64| t2.contains(x) <==> (t1.contains(x) || x == ids@[k as int]) by {
                    if t2.contains(x) && x != ids@[k as int] {
                        let m = choose|m: int| 0 <= m < t2.len() && #[trigger] t2[m] == x;
                        assert(m < t1.len());
                        assert(t1[m] == x);
                    }
                    if t1.contains(x) {
                        let m = choose|m: int| 0 <= m < t1.len() && #[trigger] t1[m] == x;
                        assert(t2[m] == x);
                    }
                    if x == ids@[k as int] {
                        assert(t2[k as int] == x);
                    }
                }
            }
            k = k + 1;
        }
        proof {
            assert(ids@.take(ids@.len() as int) =~= ids@);
            lemma_without_ids_listed(old(self).ring(), ids@);
            assert forall|i: int| 0 <= i < self.ring().len() implies self.details().contains_key(
                #[trigger] self.ring()[i].id,
            ) by {
                let x = self.ring()[i].id;
                assert(listed(self.ring(), x));
            }
            assert forall|x: u64| #[trigger]
                self.details().contains_key(x) implies (listed(self.ring(), x) || self.pending_ids().contains(x))
                && self.details()[x].summary.id == x by {
                assert(old(self).details().contains_key(x));
            }
        }
    }
}

/// The waiting list without an id: it holds no occurrence of it, and holds
/// every other id it held.
proof fn lemma_seq_without(s: Seq<u64>, x: u64)
    ensures
        !seq_without(s, x).contains(x),
        forall|y: u64| s.contains(y) && y != x ==> #[trigger] seq_without(s, x).contains(y),
        forall|y: u64| #[trigger] seq_without(s, x).contains(y) ==> s.contains(y),
        seq_without(s, x).len() <= s.len(),
    decreases s.len(),
{
    if s.len() > 0 {
        lemma_seq_without(s.drop_last(), x);
        let rest = seq_without(s.drop_last(), x);
        assert forall|y: u64| s.contains(y) && y != x implies #[trigger] seq_without(s, x).contains(y) by {
            let j = choose|j: int| 0 <= j < s.len() && s[j] == y;
            if j < s.len() - 1 {
                assert(s.drop_last()[j] == y);
                assert(s.drop_last().contains(y));
                assert(rest.contains(y));
                let m = choose|m: int| 0 <= m < rest.len() && rest[m] == y;
                if s.last() != x {
                    assert(rest.push(s.last())[m] == y);
                }
            } else {
                assert(rest.push(s.last())[rest.len() as int] == y);
            }
        }
        assert forall|y: u64| #[trigger] seq_without(s, x).contains(y) implies s.contains(y) by {
            let m = choose|m: int| 0 <= m < seq_without(s, x).len() && seq_without(s, x)[m] == y;
            if m < rest.len() {
                assert(rest[m] == y);
                assert(rest.contains(y));
                let j = choose|j: int| 0 <= j < s.drop_last().len() && s.drop_last()[j] == y;
                assert(s[j] == y);
            } else {
                assert(s[s.len() - 1] == y);
            }
        }
        if seq_without(s, x).contains(x) {
            let m = choose|m: int| 0 <= m < seq_without(s, x).len() && seq_without(s, x)[m] == x;
            if m < rest.len() {
                assert(rest.contains(x));
            }
        }
    }
}

/// The summaries kept by `without_ids` are summaries of `ring` whose id is
/// not in `ids`; every summary of `ring` whose id is not in `ids` stays
/// listed.
proof fn lemma_without_ids_listed(ring: Seq<TrafficSummaryView>, ids: Seq<u64>)
    ensures
        forall|i: int|
            0 <= i < without_ids(ring, ids).len() ==> listed(ring, #[trigger] without_ids(ring, ids)[i].id)
                && !ids.contains(without_ids(ring, ids)[i].id),
        forall|x: u64| listed(ring, x) && !ids.contains(x) ==> #[trigger] listed(without_ids(ring, ids), x),
    decreases ring.len(),
{
    if ring.len() > 0 {
        let rest = without_ids(ring.drop_last(), ids);
        lemma_without_ids_listed(ring.drop_last(), ids);
        assert forall|i: int|
            0 <= i < without_ids(ring, ids).len() implies listed(ring, #[trigger] without_ids(ring, ids)[i].id)
            && !ids.contains(without_ids(ring, ids)[i].id) by {
            if i < rest.len() {
                assert(without_ids(ring, ids)[i] == rest[i]);
                let x = rest[i].id;
                assert(listed(ring.drop_last(), x));
                let j = choose|j: int| 0 <= j < ring.drop_last().len() && #[trigger] ring.drop_last()[j].id == x;
                assert(ring[j].id == x);
            } else {
                assert(ring[ring.len() - 1].id == without_ids(ring, ids)[i].id);
            }
        }
        assert forall|x: u64| listed(ring, x) && !ids.contains(x) implies #[trigger] listed(without_ids(ring, ids), x) by {
            let j = choose|j: int| 0 <= j < ring.len() && #[trigger] ring[j].id == x;
            if j < ring.len() - 1 {
                assert(ring.drop_last()[j].id == x);
                assert(listed(ring.drop_last(), x));
                assert(listed(rest, x));
                let m = choose|m: int| 0 <= m < rest.len() && #[trigger] rest[m].id == x;
                assert(without_ids(ring, ids)[m] == rest[m]);
            } else {
                assert(without_ids(ring, ids)[rest.len() as int].id == x);
            }
        }
    }
}

/// Every summary in the list has its full transaction held, under the
/// summary's id: the list never shows a transaction whose details are gone.
pub proof fn lemma_listed_transactions_are_held(t: SharedTraffic)
    requires
        t.wf(),
    ensures
        forall|i: int| 0 <= i < t.ring().len() ==> t.details().contains_key(#[trigger] t.ring()[i].id),
        forall|k: u64| #[trigger] t.details().contains_key(k) ==> t.details()[k].summary.id == k,
        t.ring().len() <= SUMMARY_RING_CAP,
        t.pending_ids().len() <= PENDING_CAP,
{
}

/// Every transaction held is listed or waiting for its response, so at most
/// `SUMMARY_RING_CAP` + `PENDING_CAP` ids have one.
pub proof fn lemma_held_transactions_are_listed_or_waiting(t: SharedTraffic, k: u64)
    requires
        t.wf(),
        t.details().contains_key(k),
    ensures
        listed(t.ring(), k) || t.pending_ids().contains(k),
{
}

/// What is recorded is what is read back: right after a transaction begins,
/// it is held under its id with the detail recorded (the one a full waiting
/// list drops is never the transaction itself).
pub proof fn lemma_begun_transaction_is_held(
    ring: Seq<TrafficSummaryView>,
    pending: Seq<u64>,
    details: Map<u64, TransactionDetailView>,
    id: u64,
    d: TransactionDetailView,
)
    ensures
        remove_opt(details.insert(id, d), dropped_on_begin(ring, pending, id)).contains_key(id),
        remove_opt(details.insert(id, d), dropped_on_begin(ring, pending, id))[id] == d,
{
    if dropped_on_begin(ring, pending, id) is Some && pending[0] == id {
        assert(pending.contains(id));
    }
}

/// Right after a transaction completes, it is held under its id with the
/// response recorded, and its summary is the newest in the list (the one a
/// full list drops is never the transaction itself).
pub proof fn lemma_completed_transaction_is_held(
    ring: Seq<TrafficSummaryView>,
    details: Map<u64, TransactionDetailView>,
    id: u64,
    d: TransactionDetailView,
)
    ensures
        remove_opt(details.insert(id, d), dropped_on_complete(ring, id)).contains_key(id),
        remove_opt(details.insert(id, d), dropped_on_complete(ring, id))[id] == d,
        ring_after(ring, d.summary).last() == d.summary,
        ring_after(ring, d.summary).len() <= (if ring.len() >= SUMMARY_RING_CAP { ring.len() } else { ring.len() + 1 }),
{
}

pub proof fn lemma_summaries_view_push(a: Seq<TrafficSummary>, x: TrafficSummary)
    ensures
        summaries_view(a.push(x)) == summaries_view(a).push(x@),
{
    assert(summaries_view(a.push(x)) =~= summaries_view(a).push(x@));
}

proof fn lemma_without_none(ring: Seq<TrafficSummaryView>, ids: Seq<u64>)
    requires
        ids.len() == 0,
    ensures
        without_ids(ring, ids) == ring,
    decreases ring.len(),
{
    if ring.len() > 0 {
        lemma_without_none(ring.drop_last(), ids);
        assert(ring.drop_last().push(ring.last()) =~= ring);
    }
}

} // verus!
