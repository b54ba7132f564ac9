//! Replaying a captured request: which headers are carried over, which body is
//! sent, and how the replay is recorded as a new transaction.
use vstd::prelude::*;
use crate::text::{ascii_lower, chars_of, eq_ignore_case, eq_ignore_case_exec, lower_seq};
use crate::traffic::{
    clone_opt_string, headers_view, opt_text, HeadersView, SharedTraffic,
    TransactionDetail, TransactionDetailView,
};
use vstd::utf8::{decode_utf8, valid_utf8};
use crate::sender::{parse_uri, uri_error_text, uri_parses};

verus! {

broadcast use vstd::string::group_string_axioms;

/// Headers that belong to one connection, or that the HTTP client computes
/// itself, and so are not copied into a replayed request.
pub open spec fn hop_by_hop_names() -> Seq<Seq<char>> {
    seq![
        "connection"@,
        "keep-alive"@,
        "proxy-authenticate"@,
        "proxy-authorization"@,
        "te"@,
        "trailer"@,
        "transfer-encoding"@,
        "upgrade"@,
        "host"@,
        "content-length"@,
    ]
}

/// The header `name` is not copied into a replayed request (its ASCII lower
/// case is one of `hop_by_hop_names`).
pub open spec fn is_hop_by_hop(name: Seq<char>) -> bool {
    hop_by_hop_names().contains(lower_seq(name))
}

fn lower_chars(s: &Vec<char>) -> (r: Vec<char>)
    ensures
        r@ == lower_seq(s@),
{
    let mut r: Vec<char> = Vec::new();
    let mut i: usize = 0;
    while i < s.len()
        invariant
            i <= s.len(),
            r@ == lower_seq(s@).take(i as int),
        decreases s.len() - i,
    {
        r.push(ascii_lower(s[i]));
        assert(r@ =~= lower_seq(s@).take(i + 1));
        i = i + 1;
    }
    assert(lower_seq(s@).take(s.len() as int) =~= lower_seq(s@));
    r
}

fn same_chars(a: &Vec<char>, b: &Vec<char>) -> (r: bool)
    ensures
        r == (a@ == b@),
{
    if a.len() != b.len() {
        return false;
    }
    let mut i: usize = 0;
    while i < a.len()
        invariant
            a.len() == b.len(),
            i <= a.len(),
            forall|k: int| 0 <= k < i ==> a@[k] == b@[k],
        decreases a.len() - i,
    {
        if a[i] != b[i] {
            return false;
        }
        i = i + 1;
    }
    assert(a@ =~= b@);
    true
}

/// Whether the header `name` is left out of a replayed request.
pub fn is_hop_by_hop_replay_header(name: &str) -> (r: bool)
    ensures
        r == is_hop_by_hop(name@),
{
    let lowered = lower_chars(&chars_of(name));
    let names: Vec<Vec<char>> = vec![
        chars_of("connection"),
        chars_of("keep-alive"),
        chars_of("proxy-authenticate"),
        chars_of("proxy-authorization"),
        chars_of("te"),
        chars_of("trailer"),
        chars_of("transfer-encoding"),
        chars_of("upgrade"),
        chars_of("host"),
        chars_of("content-length"),
    ];
    let mut i: usize = 0;
    while i < names.len()
        invariant
            i <= names.len(),
            names@.len() == hop_by_hop_names().len(),
            forall|k: int| 0 <= k < names@.len() ==> #[trigger] names@[k]@ == hop_by_hop_names()[k],
            lowered@ == lower_seq(name@),
            forall|k: int| 0 <= k < i ==> hop_by_hop_names()[k] != lower_seq(name@),
        decreases names.len() - i,
    {
        if same_chars(&lowered, &names[i]) {
            assert(hop_by_hop_names()[i as int] == lower_seq(name@));
            return true;
        }
        i = i + 1;
    }
    assert(!hop_by_hop_names().contains(lower_seq(name@))) by {
        if hop_by_hop_names().contains(lower_seq(name@)) {
            let k = choose|k: int| 0 <= k < hop_by_hop_names().len() && hop_by_hop_names()[k] == lower_seq(name@);
            assert(hop_by_hop_names()[k] != lower_seq(name@));
        }
    }
    false
}

/// The headers of `h` that are copied into a replayed request, order kept.
pub open spec fn replay_headers(h: HeadersView) -> HeadersView
    decreases h.len(),
{
    if h.len() == 0 {
        h
    } else {
        let rest = replay_headers(h.drop_last());
        if is_hop_by_hop(h.last().0) {
            rest
        } else {
            rest.push(h.last())
        }
    }
}

/// The headers of a captured request that a replay sends: all but the
/// hop-by-hop ones, in their order.
pub fn sanitize_replay_headers(headers: &[(String, String)]) -> (r: Vec<(String, String)>)
    ensures
        headers_view(r@) == replay_headers(headers_view(headers@)),
{
    let mut r: Vec<(String, String)> = Vec::new();
    let mut i: usize = 0;
    while i < headers.len()
        invariant
            i <= headers@.len(),
            headers_view(r@) == replay_headers(headers_view(headers@).take(i as int)),
        decreases headers@.len() - i,
    {
        let pair = &headers[i];
        assert(headers_view(headers@).take(i + 1).drop_last() =~= headers_view(headers@).take(i as int));
        assert(headers_view(headers@).take(i + 1).last() == (pair.0@, pair.1@));
        if !is_hop_by_hop_replay_header(pair.0.as_str()) {
            let ghost before = r@;
            r.push((pair.0.clone(), pair.1.clone()));
            assert(headers_view(r@) =~= headers_view(before).push((pair.0@, pair.1@)));
        }
        i = i + 1;
    }
    assert(headers_view(headers@).take(headers@.len() as int) =~= headers_view(headers@));
    r
}

/// The value of the first header of `h` named `name`, ASCII case ignored.
pub open spec fn first_header_value(h: HeadersView, name: Seq<char>) -> Option<Seq<char>>
    decreases h.len(),
{
    if h.len() == 0 {
        None
    } else if eq_ignore_case(h[0].0, name) {
        Some(h[0].1)
    } else {
        first_header_value(h.drop_first(), name)
    }
}

/// The value of the first header named `name`, ASCII case ignored.
pub fn find_header(headers: &Vec<(String, String)>, name: &str) -> (r: Option<String>)
    ensures
        opt_text(r) == first_header_value(headers_view(headers@), name@),
{
    let target = chars_of(name);
    let n = headers.len();
    let mut i: usize = 0;
    assert(headers_view(headers@).subrange(0, n as int) =~= headers_view(headers@));
    while i < n
        invariant
            n == headers@.len(),
            i <= n,
            target@ == name@,
            first_header_value(headers_view(headers@), name@) == first_header_value(
                headers_view(headers@).subrange(i as int, n as int),
                name@,
            ),
        decreases n - i,
    {
        let pair = &headers[i];
        let ghost rest = headers_view(headers@).subrange(i as int, n as int);
        assert(rest[0] == (pair.0@, pair.1@));
        assert(rest.drop_first() =~= headers_view(headers@).subrange(i + 1, n as int));
        if eq_ignore_case_exec(&chars_of(pair.0.as_str()), &target) {
            return Some(pair.1.clone());
        }
        i = i + 1;
    }
    None
}

/// What a replay sends and records, taken from the captured transaction.
pub struct ReplayPlan {
    pub method: String,
    pub url: String,
    pub host: String,
    /// The captured request headers without the hop-by-hop ones.
    pub headers: Vec<(String, String)>,
    /// The captured request body, recorded with the replay.
    pub req_body: Option<String>,
    /// The body sent: the captured one, or empty when none was captured.
    pub body: String,
    /// The `Content-Type` of the replayed request, if it has one.
    pub content_type: Option<String>,
}

/// The replay of a captured transaction: same method, URL and host, the
/// headers without the hop-by-hop ones, the captured body (empty when none).
pub open spec fn replay_plan_of(d: TransactionDetailView) -> (
    Seq<char>,
    Seq<char>,
    Seq<char>,
    HeadersView,
    Option<Seq<char>>,
    Seq<char>,
    Option<Seq<char>>,
) {
    let headers = replay_headers(d.req_headers);
    (
        d.summary.method,
        d.summary.url,
        d.summary.host,
        headers,
        d.req_body,
        match d.req_body {
            Some(b) => b,
            None => Seq::<char>::empty(),
        },
        first_header_value(headers, "content-type"@),
    )
}

impl ReplayPlan {
    pub open spec fn view_tuple(&self) -> (
        Seq<char>,
        Seq<char>,
        Seq<char>,
        HeadersView,
        Option<Seq<char>>,
        Seq<char>,
        Option<Seq<char>>,
    ) {
        (
            self.method@,
            self.url@,
            self.host@,
            headers_view(self.headers@),
            opt_text(self.req_body),
            self.body@,
            opt_text(self.content_type),
        )
    }
}

/// Builds the replay of a captured transaction.
pub fn plan_replay(detail: &TransactionDetail) -> (r: ReplayPlan)
    ensures
        r.view_tuple() == replay_plan_of(detail@),
{
    let headers = sanitize_replay_headers(detail.req_headers.as_slice());
    let req_body = clone_opt_string(&detail.req_body);
    let body = match &detail.req_body {
        Some(b) => b.clone(),
        None => String::new(),
    };
    let content_type = find_header(&headers, "content-type");
    ReplayPlan {
        method: detail.summary.method.clone(),
        url: detail.summary.url.clone(),
        host: detail.summary.host.clone(),
        headers,
        req_body,
        body,
        content_type,
    }
}

/// Why a replay did not start.
pub enum ReplayError {
    /// The transaction is no longer held (expired from the cache or deleted).
    Expired,
    /// The captured URL does not read as a URI (the parser's message).
    InvalidUrl(String),
}

/// Starts the replay of transaction `id`: refused when the cache no longer
/// holds it; else a fresh id is taken for the replay, and the replay is
/// refused when the captured URL does not read as a URI, or planned.
pub fn start_replay(traffic: &mut SharedTraffic, id: u64) -> (r: Result<(u64, ReplayPlan), ReplayError>)
    requires
        old(traffic).wf(),
    ensures
        final(traffic).wf(),
        final(traffic).ring() == old(traffic).ring(),
        final(traffic).details() == old(traffic).details(),
        final(traffic).pending_ids() == old(traffic).pending_ids(),
        !old(traffic).details().contains_key(id) <==> r matches Err(ReplayError::Expired),
        r matches Err(ReplayError::Expired) ==> final(traffic).next() == old(traffic).next(),
        old(traffic).details().contains_key(id) ==> final(traffic).next() == (if old(traffic).next() == u64::MAX {
            0
        } else {
            (old(traffic).next() + 1) as u64
        }),
        old(traffic).details().contains_key(id) ==> (r is Ok <==> uri_parses(
            old(traffic).details()[id].summary.url,
        )),
        r matches Err(ReplayError::InvalidUrl(m)) ==> m@ == uri_error_text(old(traffic).details()[id].summary.url),
        r matches Ok((rid, plan)) ==> rid == old(traffic).next() && old(traffic).details().contains_key(id)
            && plan.view_tuple() == replay_plan_of(old(traffic).details()[id]),
{
    let detail = match traffic.get(id) {
        Some(d) => d,
        None => return Err(ReplayError::Expired),
    };
    let replay_id = traffic.next_id();
    if let Err(e) = parse_uri(detail.summary.url.as_str()) {
        return Err(ReplayError::InvalidUrl(e));
    }
    let plan = plan_replay(&detail);
    Ok((replay_id, plan))
}

/// `String::from_utf8`, keeping the text only. Claimed, as documented: text
/// exactly for valid UTF-8, and then its decoding.
#[verifier::external_body]
pub(crate) fn string_from_utf8(bytes: Vec<u8>) -> (r: Option<String>)
    ensures
        r is Some <==> valid_utf8(bytes@),
        r matches Some(s) ==> s@ == decode_utf8(bytes@),
{
    String::from_utf8(bytes).ok()
}

/// The text of a replayed response body, kept only when it is valid UTF-8.
pub fn response_text(bytes: Vec<u8>) -> (r: Option<String>)
    ensures
        r is Some <==> valid_utf8(bytes@),
        r matches Some(s) ==> s@ == decode_utf8(bytes@),
{
    string_from_utf8(bytes)
}

} // verus!
