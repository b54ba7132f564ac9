//! The request sender's history: saved requests, newest first, each with an id
//! of its own.
use vstd::prelude::*;
use crate::traffic::{clone_headers, headers_view, HeadersView};

verus! {

/// At most this many requests are kept; saving more drops the oldest.
pub const MAX_HISTORY: usize = 200;

/// A row that does not say whether it is enabled is enabled.
pub fn default_enabled() -> (r: bool)
    ensures
        r,
{
    true
}

/// An entry that does not name its body type has none.
pub fn default_body_type() -> (r: String)
    ensures
        r@ == "none"@,
{
    "none".to_owned()
}

/// An entry that does not name the format of its raw body holds text.
pub fn default_body_raw_format() -> (r: String)
    ensures
        r@ == "Text"@,
{
    "Text".to_owned()
}

/// A key/value row of the sender form (query parameter or form field).
pub struct KeyValueRow {
    pub key: String,
    pub value: String,
    pub enabled: bool,
}

pub struct KeyValueRowView {
    pub key: Seq<char>,
    pub value: Seq<char>,
    pub enabled: bool,
}

impl View for KeyValueRow {
    type V = KeyValueRowView;

    open spec fn view(&self) -> KeyValueRowView {
        KeyValueRowView { key: self.key@, value: self.value@, enabled: self.enabled }
    }
}

impl Clone for KeyValueRow {
    fn clone(&self) -> (r: Self)
        ensures
            r@ == self@,
    {
        KeyValueRow { key: self.key.clone(), value: self.value.clone(), enabled: self.enabled }
    }
}

pub open spec fn rows_view(rows: Seq<KeyValueRow>) -> Seq<KeyValueRowView> {
    Seq::new(rows.len(), |i: int| rows[i]@)
}

fn clone_rows(rows: &Vec<KeyValueRow>) -> (r: Vec<KeyValueRow>)
    ensures
        rows_view(r@) == rows_view(rows@),
{
    let mut r: Vec<KeyValueRow> = Vec::new();
    let mut i: usize = 0;
    while i < rows.len()
        invariant
            i <= rows.len(),
            r@.len() == i,
            forall|k: int| 0 <= k < i ==> (#[trigger] r@[k])@ == rows@[k]@,
        decreases rows.len() - i,
    {
        r.push(rows[i].clone());
        i = i + 1;
    }
    assert(rows_view(r@) =~= rows_view(rows@));
    r
}

fn clone_bytes(b: &Vec<u8>) -> (r: Vec<u8>)
    ensures
        r@ == b@,
{
    let mut r: Vec<u8> = Vec::new();
    let mut i: usize = 0;
    while i < b.len()
        invariant
            i <= b.len(),
            r@ == b@.take(i as int),
        decreases b.len() - i,
    {
        r.push(b[i]);
        assert(r@ =~= b@.take(i + 1));
        i = i + 1;
    }
    assert(b@.take(b.len() as int) =~= b@);
    r
}

/// A saved request of the sender.
pub struct HistoryEntry {
    pub id: u64,
    pub method: String,
    pub url: String,
    pub params: Vec<KeyValueRow>,
    pub form_rows: Vec<KeyValueRow>,
    pub headers: Vec<(String, String)>,
    pub body_type: String,
    pub body_raw_format: String,
    pub body: Option<Vec<u8>>,
    pub timestamp: i64,
}

pub struct HistoryEntryView {
    pub id: u64,
    pub method: Seq<char>,
    pub url: Seq<char>,
    pub params: Seq<KeyValueRowView>,
    pub form_rows: Seq<KeyValueRowView>,
    pub headers: HeadersView,
    pub body_type: Seq<char>,
    pub body_raw_format: Seq<char>,
    pub body: Option<Seq<u8>>,
    pub timestamp: i64,
}

impl View for HistoryEntry {
    type V = HistoryEntryView;

    open spec fn view(&self) -> HistoryEntryView {
        HistoryEntryView {
            id: self.id,
            method: self.method@,
            url: self.url@,
            params: rows_view(self.params@),
            form_rows: rows_view(self.form_rows@),
            headers: headers_view(self.headers@),
            body_type: self.body_type@,
            body_raw_format: self.body_raw_format@,
            body: match self.body {
                Some(b) => Some(b@),
                None => None,
            },
            timestamp: self.timestamp,
        }
    }
}

impl Clone for HistoryEntry {
    fn clone(&self) -> (r: Self)
        ensures
            r@ == self@,
    {
        HistoryEntry {
            id: self.id,
            method: self.method.clone(),
            url: self.url.clone(),
            params: clone_rows(&self.params),
            form_rows: clone_rows(&self.form_rows),
            headers: clone_headers(&self.headers),
            body_type: self.body_type.clone(),
            body_raw_format: self.body_raw_format.clone(),
            body: match &self.body {
                Some(b) => Some(clone_bytes(b)),
                None => None,
            },
            timestamp: self.timestamp,
        }
    }
}

pub open spec fn entries_view(e: Seq<HistoryEntry>) -> Seq<HistoryEntryView> {
    Seq::new(e.len(), |i: int| e[i]@)
}

/// The largest id among `entries`, 0 when there is none.
pub open spec fn max_id(entries: Seq<HistoryEntryView>) -> u64
    decreases entries.len(),
{
    if entries.len() == 0 {
        0
    } else {
        let m = max_id(entries.drop_last());
        if entries.last().id > m {
            entries.last().id
        } else {
            m
        }
    }
}

pub proof fn lemma_max_id(entries: Seq<HistoryEntryView>)
    ensures
        forall|i: int| 0 <= i < entries.len() ==> (#[trigger] entries[i]).id <= max_id(entries),
    decreases entries.len(),
{
    if entries.len() > 0 {
        lemma_max_id(entries.drop_last());
        assert forall|i: int| 0 <= i < entries.len() implies (#[trigger] entries[i]).id <= max_id(entries) by {
            if i < entries.len() - 1 {
                assert(entries.drop_last()[i] == entries[i]);
            }
        }
    }
}

/// `entries` without those whose id is `id`, order kept.
pub open spec fn without_id(entries: Seq<HistoryEntryView>, id: u64) -> Seq<HistoryEntryView>
    decreases entries.len(),
{
    if entries.len() == 0 {
        entries
    } else {
        let rest = without_id(entries.drop_last(), id);
        if entries.last().id == id {
            rest
        } else {
            rest.push(entries.last())
        }
    }
}

/// The entries after `entry` is saved in front of `entries`: at most
/// `MAX_HISTORY` are kept, the oldest leaving first.
pub open spec fn saved_entries(entries: Seq<HistoryEntryView>, entry: HistoryEntryView) -> Seq<HistoryEntryView> {
    let all = seq![entry] + entries;
    if all.len() > MAX_HISTORY {
        all.take(MAX_HISTORY as int)
    } else {
        all
    }
}

/// The saved requests, newest first, and the id the next save hands out.
pub struct HistoryStore {
    entries: Vec<HistoryEntry>,
    next_id: u64,
}

impl HistoryStore {
    /// The saved requests, newest first.
    pub closed spec fn entries(&self) -> Seq<HistoryEntryView> {
        entries_view(self.entries@)
    }

    /// The id the next save hands out.
    pub closed spec fn next(&self) -> u64 {
        self.next_id
    }

    /// Every saved id is below the next id, so a save never reuses one.
    pub open spec fn wf(&self) -> bool {
        forall|i: int| 0 <= i < self.entries().len() ==> (#[trigger] self.entries()[i]).id < self.next()
    }

    /// A store holding the requests loaded from disk; the next id is one above
    /// the largest loaded id (1 when none was loaded).
    pub fn new(entries: Vec<HistoryEntry>) -> (r: Self)
        requires
            forall|i: int| 0 <= i < entries@.len() ==> (#[trigger] entries@[i]).id < u64::MAX,
        ensures
            r.wf(),
            r.entries() == entries_view(entries@),
            r.next() == max_id(entries_view(entries@)) + 1,
    {
        let mut max: u64 = 0;
        let mut i: usize = 0;
        while i < entries.len()
            invariant
                i <= entries.len(),
                max == max_id(entries_view(entries@).take(i as int)),
                max < u64::MAX,
                forall|k: int| 0 <= k < entries@.len() ==> (#[trigger] entries@[k]).id < u64::MAX,
            decreases entries.len() - i,
        {
            assert(entries_view(entries@).take(i + 1).drop_last() =~= entries_view(entries@).take(i as int));
            assert(entries_view(entries@).take(i + 1).last() == entries@[i as int]@);
            if entries[i].id > max {
                max = entries[i].id;
            }
            i = i + 1;
        }
        assert(entries_view(entries@).take(entries.len() as int) =~= entries_view(entries@));
        proof {
            lemma_max_id(entries_view(entries@));
        }
        HistoryStore { entries, next_id: max + 1 }
    }

    /// The id the next save hands out.
    pub fn next_id(&self) -> (r: u64)
        ensures
            r == self.next(),
    {
        self.next_id
    }

    /// All saved requests, newest first.
    pub fn list(&self) -> (r: Vec<HistoryEntry>)
        ensures
            entries_view(r@) == self.entries(),
    {
        let mut r: Vec<HistoryEntry> = Vec::new();
        let mut i: usize = 0;
        while i < self.entries.len()
            invariant
                i <= self.entries@.len(),
                r@.len() == i,
                forall|k: int| 0 <= k < i ==> (#[trigger] r@[k])@ == self.entries@[k]@,
            decreases self.entries@.len() - i,
        {
            r.push(self.entries[i].clone());
            i = i + 1;
        }
        assert(entries_view(r@) =~= self.entries());
        r
    }

    /// Saves `entry` under the next id, in front of the others, dropping the
    /// oldest beyond `MAX_HISTORY`; returns the saved entry.
    pub fn save(&mut self, entry: HistoryEntry) -> (r: HistoryEntry)
        requires
            old(self).wf(),
            old(self).next() < u64::MAX,
        ensures
            final(self).wf(),
            r@ == (HistoryEntryView { id: old(self).next(), ..entry@ }),
            final(self).next() == old(self).next() + 1,
            call_step(*old(self), HistoryCall::Save, *final(self)),
            final(self).entries() == saved_entries(old(self).entries(), r@),
            forall|i: int| 0 <= i < old(self).entries().len() ==> (#[trigger] old(self).entries()[i]).id != r.id,
    {
        let mut entry = entry;
        entry.id = self.next_id;
        self.next_id = self.next_id + 1;
        let saved = entry.clone();
        let ghost before = self.entries@;
        self.entries.insert(0, entry);
        assert(entries_view(self.entries@) =~= seq![saved@] + entries_view(before));
        if self.entries.len() > MAX_HISTORY {
            self.entries.truncate(MAX_HISTORY);
            assert(entries_view(self.entries@) =~= (seq![saved@] + entries_view(before)).take(MAX_HISTORY as int));
        }
        assert forall|i: int| 0 <= i < self.entries().len() implies (#[trigger] self.entries()[i]).id < self.next() by {
            if i > 0 {
                assert(self.entries()[i] == entries_view(before)[i - 1]);
            }
        }
        saved
    }

    /// Forgets every saved request.
    pub fn clear(&mut self)
        requires
            old(self).wf(),
        ensures
            final(self).wf(),
            final(self).entries() == Seq::<HistoryEntryView>::empty(),
            final(self).next() == old(self).next(),
            call_step(*old(self), HistoryCall::Clear, *final(self)),
    {
        self.entries.clear();
        assert(self.entries() =~= Seq::<HistoryEntryView>::empty());
    }

    /// Forgets the saved requests with id `id`; the others keep their order.
    pub fn delete(&mut self, id: u64)
        requires
            old(self).wf(),
        ensures
            final(self).wf(),
            final(self).entries() == without_id(old(self).entries(), id),
            final(self).next() == old(self).next(),
            call_step(*old(self), HistoryCall::Delete(id), *final(self)),
    {
        let n = self.entries.len();
        let mut kept: Vec<HistoryEntry> = Vec::new();
        let mut old_entries: Vec<HistoryEntry> = Vec::new();
        std::mem::swap(&mut old_entries, &mut self.entries);
        let ghost all = entries_view(old_entries@);
        let mut i: usize = 0;
        while i < n
            invariant
                n == old_entries@.len(),
                all == entries_view(old_entries@),
                all == old(self).entries(),
                i <= n,
                entries_view(kept@) == without_id(all.take(i as int), id),
                forall|k: int| 0 <= k < kept@.len() ==> (#[trigger] kept@[k])@.id < old(self).next(),
                old(self).wf(),
            decreases n - i,
        {
            assert(all.take(i + 1).drop_last() =~= all.take(i as int));
            assert(all.take(i + 1).last() == old_entries@[i as int]@);
            if old_entries[i].id != id {
                let e = old_entries[i].clone();
                let ghost before = kept@;
                kept.push(e);
                assert(entries_view(kept@) =~= entries_view(before).push(old_entries@[i as int]@));
                assert(all[i as int].id < old(self).next());
            }
            i = i + 1;
        }
        assert(all.take(n as int) =~= all);
        self.entries = kept;
    }
}

/// A call on the store.
pub enum HistoryCall {
    Save,
    Clear,
    Delete(u64),
    List,
}

/// `post` is the store after `call` on `pre`, as far as the next id goes
/// (see the contracts of `save`, `clear`, `delete` and `list`): a save hands
/// out `pre.next()` and moves it on by one; the other calls leave it.
pub open spec fn call_step(pre: HistoryStore, call: HistoryCall, post: HistoryStore) -> bool {
    match call {
        HistoryCall::Save => post.next() == pre.next() + 1,
        _ => post.next() == pre.next(),
    }
}

/// The number of saves among `calls`.
pub open spec fn saves(calls: Seq<HistoryCall>) -> nat
    decreases calls.len(),
{
    if calls.len() == 0 {
        0
    } else {
        saves(calls.drop_last()) + if calls.last() is Save {
            1nat
        } else {
            0nat
        }
    }
}

proof fn lemma_saves_grow(calls: Seq<HistoryCall>, a: int, b: int)
    requires
        0 <= a <= b <= calls.len(),
    ensures
        saves(calls.take(a)) <= saves(calls.take(b)),
        a < b && calls[a] is Save ==> saves(calls.take(a)) < saves(calls.take(b)),
    decreases b - a,
{
    if a < b {
        lemma_saves_grow(calls, a, b - 1);
        assert(calls.take(b).drop_last() =~= calls.take(b - 1));
        if a == b - 1 && calls[a] is Save {
            assert(calls.take(b).last() == calls[a]);
        }
    }
}

/// History ids are never reused, not even after `clear` or `delete`: along
/// any run of calls on a store opened on `loaded` (whose next id is then
/// `max_id(loaded) + 1`), the next id after `j` calls is `max_id(loaded) + 1`
/// plus the number of saves among them. So the save that is call `i` hands
/// out `max_id(loaded) + 1` plus the number of earlier saves: above every
/// loaded id, and below the id of every later save.
pub proof fn lemma_history_ids_never_reused(
    loaded: Seq<HistoryEntryView>,
    runs: Seq<HistoryStore>,
    calls: Seq<HistoryCall>,
    j: int,
)
    requires
        runs.len() == calls.len() + 1,
        runs[0].next() == max_id(loaded) + 1,
        forall|k: int| 0 <= k < calls.len() ==> #[trigger] call_step(runs[k], calls[k], runs[k + 1]),
        0 <= j < runs.len(),
    ensures
        runs[j].next() == max_id(loaded) + 1 + saves(calls.take(j)),
        forall|e: int| 0 <= e < loaded.len() ==> (#[trigger] loaded[e]).id < runs[j].next(),
        forall|i: int| 0 <= i < j && (#[trigger] calls[i]) is Save ==> runs[i].next() < runs[j].next(),
    decreases j,
{
    lemma_max_id(loaded);
    if j > 0 {
        lemma_history_ids_never_reused(loaded, runs, calls, j - 1);
        let m = j - 1;
        assert(call_step(runs[m], calls[m], runs[m + 1]));
        assert(calls.take(j).drop_last() =~= calls.take(m));
        assert(calls.take(j).last() == calls[m]);
        assert forall|i: int| 0 <= i < j && (#[trigger] calls[i]) is Save implies runs[i].next() < runs[j].next() by {
            lemma_history_ids_never_reused(loaded, runs, calls, i);
            lemma_saves_grow(calls, i, j);
        }
    } else {
        assert(calls.take(0) =~= Seq::<HistoryCall>::empty());
    }
}

} // verus!
