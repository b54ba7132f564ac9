//! What of the traffic is captured and how it reaches the front end: which
//! bodies are kept, and the batching of summaries for the live feed.
use vstd::prelude::*;
use crate::text::{
    ascii_lower, chars_of, lower_seq, split, split_chars, starts_with, starts_with_exec, trim, trim_chars,
};
use crate::traffic::{lemma_summaries_view_push, summaries_view, TrafficSummary, TrafficSummaryView};
use vstd::utf8::{decode_utf8, valid_utf8};

verus! {

broadcast use vstd::string::group_string_axioms;

/// Summaries are pushed to the front end in batches of at most this many.
pub const BATCH_MAX: usize = 50;

/// Collects summaries for the live feed: a batch leaves when it reaches
/// `BATCH_MAX` summaries or when the timer ticks with a non-empty batch.
pub struct TrafficBatcher {
    batch: Vec<TrafficSummary>,
}

impl TrafficBatcher {
    /// A batch never waits full: it leaves when it reaches `BATCH_MAX`.
    #[verifier::type_invariant]
    spec fn below_max(&self) -> bool {
        self.batch@.len() < BATCH_MAX
    }

    /// The summaries waiting, oldest first.
    pub closed spec fn pending(&self) -> Seq<TrafficSummaryView> {
        summaries_view(self.batch@)
    }

    pub fn new() -> (r: Self)
        ensures
            r.pending() == Seq::<TrafficSummaryView>::empty(),
    {
        let r = TrafficBatcher { batch: Vec::new() };
        assert(r.pending() =~= Seq::<TrafficSummaryView>::empty());
        r
    }

    /// Timer tick: every waiting summary leaves as one batch, if there is any.
    pub fn on_tick(&mut self) -> (r: Option<Vec<TrafficSummary>>)
        ensures
            old(self).pending().len() == 0 <==> r is None,
            r matches Some(b) ==> summaries_view(b@) == old(self).pending(),
            r matches Some(b) ==> 1 <= b@.len() < BATCH_MAX,
            final(self).pending() == Seq::<TrafficSummaryView>::empty(),
            feed_step(old(self).pending(), FeedEvent::Tick, batch_view(r), final(self).pending()),
    {
        proof {
            use_type_invariant(&*self);
        }
        if self.batch.len() == 0 {
            assert(self.pending() =~= Seq::<TrafficSummaryView>::empty());
            return None;
        }
        let mut out: Vec<TrafficSummary> = Vec::new();
        std::mem::swap(&mut out, &mut self.batch);
        assert(self.pending() =~= Seq::<TrafficSummaryView>::empty());
        Some(out)
    }

    /// A summary arrived: it joins the batch, and the batch leaves once it
    /// holds `BATCH_MAX` summaries.
    pub fn on_summary(&mut self, summary: TrafficSummary) -> (r: Option<Vec<TrafficSummary>>)
        ensures
            match r {
                Some(b) => summaries_view(b@) == old(self).pending().push(summary@) && b@.len()
                    == BATCH_MAX && final(self).pending() == Seq::<TrafficSummaryView>::empty(),
                None => final(self).pending() == old(self).pending().push(summary@),
            },
            final(self).pending().len() < BATCH_MAX,
            feed_step(old(self).pending(), FeedEvent::Summary(summary@), batch_view(r), final(self).pending()),
    {
        proof {
            use_type_invariant(&*self);
            lemma_summaries_view_push(self.batch@, summary);
        }
        let mut b: Vec<TrafficSummary> = Vec::new();
        std::mem::swap(&mut b, &mut self.batch);
        b.push(summary);
        if b.len() >= BATCH_MAX {
            assert(self.pending() =~= Seq::<TrafficSummaryView>::empty());
            return Some(b);
        }
        self.batch = b;
        None
    }
}

/// What reaches the live feed: a completed summary, or a timer tick.
pub enum FeedEvent {
    Summary(TrafficSummaryView),
    Tick,
}

/// The batch that leaves, as values.
pub open spec fn batch_view(r: Option<Vec<TrafficSummary>>) -> Option<Seq<TrafficSummaryView>> {
    match r {
        Some(b) => Some(summaries_view(b@)),
        None => None,
    }
}

/// One event handled by the batcher: `pending` waited before, `out` is the
/// batch that leaves (if any), `after` waits afterwards. A summary joins the
/// waiting ones, and all leave once they are `BATCH_MAX`; a tick sends what
/// waits, if anything does. Fewer than `BATCH_MAX` ever wait.
pub open spec fn feed_step(
    pending: Seq<TrafficSummaryView>,
    ev: FeedEvent,
    out: Option<Seq<TrafficSummaryView>>,
    after: Seq<TrafficSummaryView>,
) -> bool {
    &&& after.len() < BATCH_MAX
    &&& match ev {
        FeedEvent::Summary(s) => match out {
            Some(b) => b == pending.push(s) && b.len() == BATCH_MAX && after.len() == 0,
            None => after == pending.push(s),
        },
        FeedEvent::Tick => after.len() == 0 && match out {
            Some(b) => b == pending && pending.len() > 0,
            None => pending.len() == 0,
        },
    }
}

/// The summaries among `events`, in order.
pub open spec fn received(events: Seq<FeedEvent>) -> Seq<TrafficSummaryView>
    decreases events.len(),
{
    if events.len() == 0 {
        Seq::<TrafficSummaryView>::empty()
    } else {
        received(events.drop_last()) + match events.last() {
            FeedEvent::Summary(s) => seq![s],
            FeedEvent::Tick => Seq::<TrafficSummaryView>::empty(),
        }
    }
}

/// The batches sent, one after another.
pub open spec fn emitted(outs: Seq<Option<Seq<TrafficSummaryView>>>) -> Seq<TrafficSummaryView>
    decreases outs.len(),
{
    if outs.len() == 0 {
        Seq::<TrafficSummaryView>::empty()
    } else {
        emitted(outs.drop_last()) + match outs.last() {
            Some(b) => b,
            None => Seq::<TrafficSummaryView>::empty(),
        }
    }
}

/// The live feed delivers every summary once and in order, in batches of 1
/// to `BATCH_MAX`: along any run of events handled from an empty batcher
/// (as `on_summary` and `on_tick` do, see `feed_step`), the batches sent, one
/// after another, followed by what still waits, are the summaries received,
/// in order.
pub proof fn lemma_feed_delivers_in_order(
    pendings: Seq<Seq<TrafficSummaryView>>,
    events: Seq<FeedEvent>,
    outs: Seq<Option<Seq<TrafficSummaryView>>>,
)
    requires
        pendings.len() == events.len() + 1,
        outs.len() == events.len(),
        pendings[0].len() == 0,
        forall|k: int| 0 <= k < events.len() ==> #[trigger] feed_step(pendings[k], events[k], outs[k], pendings[k + 1]),
    ensures
        emitted(outs) + pendings.last() == received(events),
        forall|k: int| 0 <= k < outs.len() ==> (#[trigger] outs[k] matches Some(b) ==> 1 <= b.len() <= BATCH_MAX),
    decreases events.len(),
{
    if events.len() > 0 {
        let n = events.len() - 1;
        let ps = pendings.drop_last();
        assert forall|k: int| 0 <= k < events.drop_last().len() implies #[trigger] feed_step(
            ps[k],
            events.drop_last()[k],
            outs.drop_last()[k],
            ps[k + 1],
        ) by {
            assert(feed_step(pendings[k], events[k], outs[k], pendings[k + 1]));
        }
        lemma_feed_delivers_in_order(ps, events.drop_last(), outs.drop_last());
        assert(feed_step(pendings[n], events[n], outs[n], pendings[n + 1]));
        if n > 0 {
            let m = n - 1;
            assert(feed_step(pendings[m], events[m], outs[m], pendings[m + 1]));
            assert(m + 1 == n);
        }
        assert(ps.last() == pendings[n]);
        match events[n] {
            FeedEvent::Summary(s) => {
                match outs[n] {
                    Some(b) => {
                        assert(emitted(outs) =~= emitted(outs.drop_last()) + b);
                        assert(pendings.last() =~= Seq::<TrafficSummaryView>::empty());
                    },
                    None => {
                        assert(emitted(outs) =~= emitted(outs.drop_last()));
                    },
                }
                assert(received(events) =~= received(events.drop_last()) + seq![s]);
            },
            FeedEvent::Tick => {
                match outs[n] {
                    Some(b) => {
                        assert(emitted(outs) =~= emitted(outs.drop_last()) + b);
                    },
                    None => {
                        assert(emitted(outs) =~= emitted(outs.drop_last()));
                    },
                }
                assert(pendings.last() =~= Seq::<TrafficSummaryView>::empty());
                assert(received(events) =~= received(events.drop_last()));
            },
        }
        assert(emitted(outs) + pendings.last() =~= received(events));
        assert forall|k: int| 0 <= k < outs.len() implies (#[trigger] outs[k] matches Some(b) ==> 1 <= b.len()
            <= BATCH_MAX) by {
            if k < n {
                assert(outs.drop_last()[k] == outs[k]);
            }
        }
    }
}

/// The media type of a `Content-Type` value: the part before the first `;`,
/// trimmed, in ASCII lower case.
pub open spec fn media_type(ct: Seq<char>) -> Seq<char> {
    lower_seq(trim(split(ct, ';')[0]))
}

/// What `http::HeaderValue::from_str` accepts: tab, and every character from
/// the space on except DEL (the bytes of non-ASCII characters are all at least
/// 0x80, which it accepts).
pub open spec fn valid_header_value(s: Seq<char>) -> bool {
    forall|i: int| 0 <= i < s.len() ==> #[trigger] s[i] == '\t' || (s[i] >= ' ' && s[i] != '\u{7f}')
}

/// Body types held to be text: `text/*`, JSON, JavaScript and XML (also as
/// `+json` / `+xml` suffixes), judged on the media type.
pub open spec fn is_textual_media_type(m: Seq<char>) -> bool {
    ||| starts_with(m, "text/"@)
    ||| m == "application/json"@
    ||| m == "application/javascript"@
    ||| m == "application/xml"@
    ||| (m.len() >= 5 && m.subrange(m.len() - 5, m.len() as int) == "+json"@)
    ||| (m.len() >= 4 && m.subrange(m.len() - 4, m.len() as int) == "+xml"@)
}

/// Whether a body with this `Content-Type` is worth capturing: form data and
/// textual types are, server-sent event streams (which full buffering would
/// break) and bodies without a content type are not, nor are values that are
/// not valid header values.
pub open spec fn captures(ct: Option<Seq<char>>) -> bool {
    match ct {
        None => false,
        Some(c) => {
            let m = media_type(c);
            if m == "text/event-stream"@ {
                false
            } else if m == "application/x-www-form-urlencoded"@ {
                true
            } else {
                valid_header_value(c) && is_textual_media_type(m)
            }
        },
    }
}

fn lower_chars(s: &Vec<char>) -> (r: Vec<char>)
    ensures
        r@ == lower_seq(s@),
{
    let mut r: Vec<char> = Vec::new();
    let mut i: usize = 0;
    while i < s.len()
        invariant
            i <= s.len(),
            r@ == lower_seq(s@).take(i as int),
        decreases s.len() - i,
    {
        r.push(ascii_lower(s[i]));
        assert(r@ =~= lower_seq(s@).take(i + 1));
        i = i + 1;
    }
    assert(lower_seq(s@).take(s.len() as int) =~= lower_seq(s@));
    r
}

fn chars_eq(a: &Vec<char>, b: &Vec<char>) -> (r: bool)
    ensures
        r == (a@ == b@),
{
    if a.len() != b.len() {
        return false;
    }
    let mut i: usize = 0;
    while i < a.len()
        invariant
            a.len() == b.len(),
            i <= a.len(),
            forall|k: int| 0 <= k < i ==> a@[k] == b@[k],
        decreases a.len() - i,
    {
        if a[i] != b[i] {
            return false;
        }
        i = i + 1;
    }
    assert(a@ =~= b@);
    true
}

fn ends_with_chars(a: &Vec<char>, suffix: &Vec<char>) -> (r: bool)
    ensures
        r == (a@.len() >= suffix@.len() && a@.subrange(a@.len() - suffix@.len(), a@.len() as int)
            == suffix@),
{
    if suffix.len() > a.len() {
        return false;
    }
    let start = a.len() - suffix.len();
    let mut i: usize = 0;
    while i < suffix.len()
        invariant
            start + suffix.len() == a.len(),
            i <= suffix.len(),
            forall|k: int| 0 <= k < i ==> a@[start + k] == suffix@[k],
        decreases suffix.len() - i,
    {
        if a[start + i] != suffix[i] {
            assert(a@.subrange(start as int, a@.len() as int)[i as int] != suffix@[i as int]);
            return false;
        }
        i = i + 1;
    }
    assert(a@.subrange(start as int, a@.len() as int) =~= suffix@);
    true
}

/// `http::HeaderValue::from_str(..).is_ok()`. Claimed, as its source shows:
/// a text is accepted exactly when each byte is a tab or at least 32 and not
/// 127; on characters that is `valid_header_value` (the bytes of non-ASCII
/// characters are all at least 0x80).
#[verifier::external_body]
pub(crate) fn header_value_valid(s: &str) -> (r: bool)
    ensures
        r == valid_header_value(s@),
{
    http::HeaderValue::from_str(s).is_ok()
}

/// Whether a body with this `Content-Type` is captured (see `captures`).
pub fn should_capture_content_type(content_type: Option<&str>) -> (r: bool)
    ensures
        r == captures(match content_type {
            Some(c) => Some(c@),
            None => None,
        }),
{
    let ct = match content_type {
        Some(c) => c,
        None => return false,
    };
    let chars = chars_of(ct);
    let pieces = split_chars(&chars, ';');
    proof {
        crate::text::lemma_split_nonempty(chars@, ';');
    }
    let first = trim_chars(&pieces[0]);
    let m = lower_chars(&first);
    assert(m@ == media_type(ct@));
    let sse = chars_of("text/event-stream");
    if chars_eq(&m, &sse) {
        return false;
    }
    let form = chars_of("application/x-www-form-urlencoded");
    if chars_eq(&m, &form) {
        return true;
    }
    if !header_value_valid(ct) {
        return false;
    }
    let text_prefix = chars_of("text/");
    let json = chars_of("application/json");
    let js = chars_of("application/javascript");
    let xml = chars_of("application/xml");
    let json_suffix = chars_of("+json");
    let xml_suffix = chars_of("+xml");
    proof {
        reveal_strlit("+json");
        reveal_strlit("+xml");
    }
    starts_with_exec(&m, &text_prefix) || chars_eq(&m, &json) || chars_eq(&m, &js) || chars_eq(&m, &xml)
        || ends_with_chars(&m, &json_suffix) || ends_with_chars(&m, &xml_suffix)
}

/// `String::from_utf8_lossy`: the text of the bytes, each invalid sequence
/// replaced by U+FFFD.
pub uninterp spec fn utf8_lossy(bytes: Seq<u8>) -> Seq<char>;

/// `String::from_utf8_lossy(..).into_owned()`. Claimed: the result is the
/// name `utf8_lossy` of the bytes and, for valid UTF-8, their decoding, as
/// the documentation states.
#[verifier::external_body]
fn from_utf8_lossy(bytes: &[u8]) -> (r: String)
    ensures
        r@ == utf8_lossy(bytes@),
        valid_utf8(bytes@) ==> r@ == decode_utf8(bytes@),
{
    String::from_utf8_lossy(bytes).into_owned()
}

/// A body as captured for the traffic view.
pub struct CapturedBody {
    /// The body's text; `None` when it was not kept.
    pub text: Option<String>,
    /// The body's size in bytes.
    pub size: usize,
    /// The body was over the capture limit and not kept.
    pub truncated: bool,
}

/// Whether a body is read for capture: capture is on and its content type is
/// worth capturing.
pub fn should_read_body(capture_body: bool, content_type: Option<&str>) -> (r: bool)
    ensures
        r == (capture_body && captures(match content_type {
            Some(c) => Some(c@),
            None => None,
        })),
{
    capture_body && should_capture_content_type(content_type)
}

/// Captures a body that was read in full: its text (invalid UTF-8 replaced)
/// and size, or only the size and the truncation mark when it is larger than
/// `max_body_size` bytes.
pub fn capture_body(bytes: &[u8], max_body_size: usize) -> (r: CapturedBody)
    ensures
        r.size == bytes@.len(),
        r.truncated == (bytes@.len() > max_body_size),
        r.truncated ==> r.text is None,
        !r.truncated ==> (r.text matches Some(t) && t@ == utf8_lossy(bytes@)),
        !r.truncated && valid_utf8(bytes@) ==> (r.text matches Some(t) && t@ == decode_utf8(bytes@)),
{
    let size = bytes.len();
    if size > max_body_size {
        return CapturedBody { text: None, size, truncated: true };
    }
    let text = from_utf8_lossy(bytes);
    CapturedBody { text: Some(text), size, truncated: false }
}

} // verus!
