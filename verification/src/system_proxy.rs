//! System proxy takeover: what is written to the WinINET proxy settings when the
//! proxy starts, what is written back when it stops, and when a stale setting
//! left behind by an earlier run is switched off.
//!
//! The registry reads and writes happen around these functions; here they are
//! plain values.
use vstd::prelude::*;
use crate::text::{
    is_space, trim_end, trim_start,
    after_first, find_char, has_char, strip_all, strip_all_exec, subrange_chars,
    chars_of, eq_ignore_case, eq_ignore_case_exec, join, join_chars, split, split_chars, string_of,
    trim, trim_chars, trimmed_nonempty, trimmed_nonempty_exec, views,
};

verus! {

broadcast use vstd::string::group_string_axioms;

/// The three proxy values of the user's Internet Settings: `ProxyEnable`,
/// `ProxyServer` and `ProxyOverride` (`None` when the value is absent).
pub struct ProxySettings {
    pub enable: u32,
    pub server: String,
    pub bypass: Option<String>,
}

/// The system proxy settings saved at takeover, used to restore them on stop.
pub struct SystemProxyGuard {
    old_enable: u32,
    old_server: String,
    old_override: Option<String>,
}

/// The proxy settings as values: enable flag, server list, bypass list.
pub struct ProxySettingsView {
    pub enable: u32,
    pub server: Seq<char>,
    pub bypass: Option<Seq<char>>,
}

impl View for ProxySettings {
    type V = ProxySettingsView;

    open spec fn view(&self) -> ProxySettingsView {
        ProxySettingsView { enable: self.enable, server: self.server@, bypass: opt_view(self.bypass) }
    }
}

impl View for SystemProxyGuard {
    type V = ProxySettingsView;

    /// The settings that were in place before the takeover.
    closed spec fn view(&self) -> ProxySettingsView {
        ProxySettingsView {
            enable: self.old_enable,
            server: self.old_server@,
            bypass: opt_view(self.old_override),
        }
    }
}

pub open spec fn opt_view(o: Option<String>) -> Option<Seq<char>> {
    match o {
        Some(s) => Some(s@),
        None => None,
    }
}

/// The separator of WinINET proxy lists.
pub open spec fn semi() -> Seq<char> {
    seq![';']
}

/// Some entry of `parts` equals `name`, ASCII case ignored.
pub open spec fn has_entry(parts: Seq<Seq<char>>, name: Seq<char>) -> bool {
    exists|i: int| 0 <= i < parts.len() && eq_ignore_case(#[trigger] parts[i], name)
}

pub open spec fn add_missing(parts: Seq<Seq<char>>, name: Seq<char>) -> Seq<Seq<char>> {
    if has_entry(parts, name) {
        parts
    } else {
        parts.push(name)
    }
}

pub open spec fn add_all_missing(parts: Seq<Seq<char>>, names: Seq<Seq<char>>) -> Seq<Seq<char>>
    decreases names.len(),
{
    if names.len() == 0 {
        parts
    } else {
        add_missing(add_all_missing(parts, names.drop_last()), names.last())
    }
}

/// The local addresses that must always bypass the proxy, in the order they
/// are added.
pub open spec fn local_bypass_names() -> Seq<Seq<char>> {
    seq!["localhost"@, "127.0.0.1"@, "::1"@, "<local>"@]
}

/// The entries of the existing `ProxyOverride` list.
pub open spec fn override_entries(existing: Option<Seq<char>>) -> Seq<Seq<char>> {
    let text = match existing {
        Some(s) => s,
        None => Seq::<char>::empty(),
    };
    trimmed_nonempty(split(text, ';'))
}

/// The entries of the merged `ProxyOverride` list.
pub open spec fn merged_override_entries(existing: Option<Seq<char>>) -> Seq<Seq<char>> {
    add_all_missing(override_entries(existing), local_bypass_names())
}

/// The merged `ProxyOverride` value.
pub open spec fn merged_override(existing: Option<Seq<char>>) -> Seq<char> {
    join(merged_override_entries(existing), semi())
}

fn has_entry_exec(parts: &Vec<Vec<char>>, name: &Vec<char>) -> (r: bool)
    ensures
        r == has_entry(views(parts@), name@),
{
    let mut i: usize = 0;
    while i < parts.len()
        invariant
            i <= parts.len(),
            forall|k: int| 0 <= k < i ==> !eq_ignore_case(#[trigger] views(parts@)[k], name@),
        decreases parts.len() - i,
    {
        if eq_ignore_case_exec(&parts[i], name) {
            assert(eq_ignore_case(views(parts@)[i as int], name@));
            return true;
        }
        i = i + 1;
    }
    false
}

/// Merges the existing `ProxyOverride` list with the local bypass entries:
/// existing entries are kept in order (trimmed, empty ones dropped), and each of
/// `localhost`, `127.0.0.1`, `::1`, `<local>` that is not already there, ASCII
/// case ignored, is appended.
pub fn merge_local_proxy_override(existing: Option<&str>) -> (r: String)
    ensures
        r@ == merged_override(match existing {
            Some(s) => Some(s@),
            None => None,
        }),
{
    let text: Vec<char> = match existing {
        Some(s) => chars_of(s),
        None => Vec::new(),
    };
    let ghost ex = match existing {
        Some(s) => Some(s@),
        None => None::<Seq<char>>,
    };
    assert(text@ == match ex { Some(s) => s, None => Seq::<char>::empty() });
    let pieces = split_chars(&text, ';');
    let mut parts = trimmed_nonempty_exec(&pieces);
    assert(views(parts@) == override_entries(ex));
    assert(add_all_missing(override_entries(ex), Seq::<Seq<char>>::empty()) == override_entries(ex));
    let names: Vec<Vec<char>> = vec![
        chars_of("localhost"),
        chars_of("127.0.0.1"),
        chars_of("::1"),
        chars_of("<local>"),
    ];
    assert(views(names@) =~= local_bypass_names());
    let mut i: usize = 0;
    while i < names.len()
        invariant
            i <= names.len(),
            views(names@) == local_bypass_names(),
            views(parts@) == add_all_missing(override_entries(ex), views(names@).take(i as int)),
        decreases names.len() - i,
    {
        assert(views(names@).take(i + 1).drop_last() =~= views(names@).take(i as int));
        let ghost before = views(parts@);
        if !has_entry_exec(&parts, &names[i]) {
            let n = names[i].clone();
            parts.push(n);
            assert(views(parts@) =~= before.push(names@[i as int]@));
        }
        i = i + 1;
    }
    assert(views(names@).take(4) =~= views(names@));
    assert(views(parts@) == merged_override_entries(ex));
    let sep = vec![';'];
    assert(sep@ =~= semi());
    let joined = join_chars(&parts, &sep);
    string_of(&joined)
}


/// The value of one `ProxyServer` entry: the text after its first `=` (the
/// entry may be `http=host:port`), trimmed, with leading `http://` and then
/// `https://` removed.
pub open spec fn server_entry_value(entry: Seq<char>) -> Seq<char> {
    let value = if has_char(entry, '=') {
        after_first(entry, '=')
    } else {
        entry
    };
    strip_all(strip_all(trim(value), "http://"@), "https://"@)
}

/// Some entry of the `ProxyServer` list points at `addr`, ASCII case ignored.
pub open spec fn server_uses_addr(server: Seq<char>, addr: Seq<char>) -> bool {
    exists|i: int|
        0 <= i < split(server, ';').len() && eq_ignore_case(
            server_entry_value(#[trigger] split(server, ';')[i]),
            addr,
        )
}

fn server_entry_value_exec(entry: &Vec<char>) -> (r: Vec<char>)
    ensures
        r@ == server_entry_value(entry@),
{
    let value = match find_char(entry, '=') {
        Some(i) => subrange_chars(entry, i + 1, entry.len()),
        None => subrange_chars(entry, 0, entry.len()),
    };
    assert(entry@.subrange(0, entry.len() as int) =~= entry@);
    let t = trim_chars(&value);
    let http = chars_of("http://");
    let https = chars_of("https://");
    proof {
        reveal_strlit("http://");
        reveal_strlit("https://");
    }
    let a = strip_all_exec(&t, &http);
    strip_all_exec(&a, &https)
}

/// Whether the `ProxyServer` value points at `addr`: one of its `;`-separated
/// entries, plain or `scheme=value`, equals `addr` once trimmed and stripped of
/// a leading `http://` or `https://`, ASCII case ignored.
pub fn proxy_server_uses_addr(proxy_server: &str, addr: &str) -> (r: bool)
    ensures
        r == server_uses_addr(proxy_server@, addr@),
{
    let server = chars_of(proxy_server);
    let target = chars_of(addr);
    let entries = split_chars(&server, ';');
    let mut i: usize = 0;
    while i < entries.len()
        invariant
            i <= entries.len(),
            views(entries@) == split(proxy_server@, ';'),
            target@ == addr@,
            forall|k: int|
                0 <= k < i ==> !eq_ignore_case(
                    server_entry_value(#[trigger] split(proxy_server@, ';')[k]),
                    addr@,
                ),
        decreases entries.len() - i,
    {
        let v = server_entry_value_exec(&entries[i]);
        assert(entries@[i as int]@ == split(proxy_server@, ';')[i as int]);
        if eq_ignore_case_exec(&v, &target) {
            return true;
        }
        i = i + 1;
    }
    false
}


/// The settings written at takeover: proxy on, pointing at `addr`, with the
/// local bypass entries merged into the existing bypass list.
pub open spec fn takeover_settings(current: ProxySettingsView, addr: Seq<char>) -> ProxySettingsView {
    ProxySettingsView { enable: 1, server: addr, bypass: Some(merged_override(current.bypass)) }
}

fn clone_opt_string(o: &Option<String>) -> (r: Option<String>)
    ensures
        opt_view(r) == opt_view(*o),
{
    match o {
        Some(s) => Some(s.clone()),
        None => None,
    }
}

/// Takeover of the system proxy: returns the guard that records the settings
/// found (`current`) and the settings to write so that the system proxy points
/// at `addr`.
pub fn set_system_proxy(current: &ProxySettings, addr: &str) -> (r: (SystemProxyGuard, ProxySettings))
    ensures
        r.0@ == current@,
        r.1@ == takeover_settings(current@, addr@),
{
    let merged = match &current.bypass {
        Some(b) => merge_local_proxy_override(Some(b.as_str())),
        None => merge_local_proxy_override(None),
    };
    let guard = SystemProxyGuard {
        old_enable: current.enable,
        old_server: current.server.clone(),
        old_override: clone_opt_string(&current.bypass),
    };
    let next = ProxySettings { enable: 1, server: addr.to_owned(), bypass: Some(merged) };
    (guard, next)
}

/// The settings to write back on stop: exactly those recorded in the guard
/// (a `None` bypass list means the value is deleted).
pub fn restore_system_proxy(guard: &SystemProxyGuard) -> (r: ProxySettings)
    ensures
        r@ == guard@,
{
    ProxySettings {
        enable: guard.old_enable,
        server: guard.old_server.clone(),
        bypass: clone_opt_string(&guard.old_override),
    }
}

/// Whether a system proxy left enabled and pointing at this application's
/// listen address `addr` must be switched off (`ProxyEnable` set to 0) before
/// the application loads its pages.
pub fn clear_stale_system_proxy(current: &ProxySettings, addr: &str) -> (r: bool)
    ensures
        r == (current.enable != 0 && server_uses_addr(current.server@, addr@)),
{
    current.enable != 0 && proxy_server_uses_addr(current.server.as_str(), addr)
}

proof fn lemma_add_all_missing(parts: Seq<Seq<char>>, names: Seq<Seq<char>>)
    ensures
        add_all_missing(parts, names).len() >= parts.len(),
        add_all_missing(parts, names).subrange(0, parts.len() as int) == parts,
        forall|j: int| 0 <= j < names.len() ==> has_entry(add_all_missing(parts, names), #[trigger] names[j]),
    decreases names.len(),
{
    if names.len() > 0 {
        let prev = add_all_missing(parts, names.drop_last());
        lemma_add_all_missing(parts, names.drop_last());
        let r = add_all_missing(parts, names);
        assert(r == add_missing(prev, names.last()));
        assert forall|j: int| 0 <= j < names.len() implies has_entry(r, #[trigger] names[j]) by {
            if j < names.len() - 1 {
                assert(names.drop_last()[j] == names[j]);
                assert(has_entry(prev, names[j]));
                let k = choose|k: int| 0 <= k < prev.len() && eq_ignore_case(#[trigger] prev[k], names[j]);
                if !has_entry(prev, names.last()) {
                    assert(r[k] == prev[k]);
                }
                assert(eq_ignore_case(r[k], names[j]));
            } else {
                if !has_entry(prev, names.last()) {
                    assert(r[prev.len() as int] == names.last());
                    assert(eq_ignore_case(r[prev.len() as int], names[j]));
                }
            }
        }
        assert(r.subrange(0, parts.len() as int) =~= prev.subrange(0, parts.len() as int));
    }
}

/// After a takeover the bypass list holds every local address (`localhost`,
/// `127.0.0.1`, `::1`, `<local>`), ASCII case ignored, and starts with the
/// entries that were already there, in their order.
pub proof fn lemma_takeover_bypasses_local(existing: Option<Seq<char>>)
    ensures
        forall|j: int|
            0 <= j < local_bypass_names().len() ==> has_entry(
                merged_override_entries(existing),
                #[trigger] local_bypass_names()[j],
            ),
        merged_override_entries(existing).subrange(0, override_entries(existing).len() as int)
            == override_entries(existing),
{
    lemma_add_all_missing(override_entries(existing), local_bypass_names());
}


proof fn lemma_split_plain(y: Seq<char>, sep: char)
    requires
        !has_char(y, sep),
    ensures
        split(y, sep) == seq![y],
    decreases y.len(),
{
    if y.len() > 0 {
        assert(!has_char(y.drop_last(), sep)) by {
            if has_char(y.drop_last(), sep) {
                let i = choose|i: int| 0 <= i < y.drop_last().len() && y.drop_last()[i] == sep;
                assert(y[i] == sep);
            }
        }
        lemma_split_plain(y.drop_last(), sep);
        assert(y.last() != sep) by {
            if y.last() == sep {
                assert(y[y.len() - 1] == sep);
            }
        }
        assert(y.drop_last().push(y.last()) =~= y);
        assert(seq![y.drop_last()].update(0, y.drop_last().push(y.last())) =~= seq![y]);
    } else {
        assert(y =~= Seq::<char>::empty());
    }
}

proof fn lemma_split_after_sep(x: Seq<char>, y: Seq<char>, sep: char)
    requires
        !has_char(y, sep),
    ensures
        split(x + seq![sep] + y, sep) == split(x, sep).push(y),
    decreases y.len(),
{
    let s = x + seq![sep] + y;
    if y.len() == 0 {
        assert(s.drop_last() =~= x);
        assert(s.last() == sep);
        assert(y =~= Seq::<char>::empty());
    } else {
        assert(!has_char(y.drop_last(), sep)) by {
            if has_char(y.drop_last(), sep) {
                let i = choose|i: int| 0 <= i < y.drop_last().len() && y.drop_last()[i] == sep;
                assert(y[i] == sep);
            }
        }
        lemma_split_after_sep(x, y.drop_last(), sep);
        assert(s.drop_last() =~= x + seq![sep] + y.drop_last());
        assert(s.last() == y.last());
        assert(y.last() != sep) by {
            if y.last() == sep {
                assert(y[y.len() - 1] == sep);
            }
        }
        let p = split(x, sep).push(y.drop_last());
        assert(y.drop_last().push(y.last()) =~= y);
        assert(p.last() == y.drop_last());
        assert(p.update(p.len() - 1, p.last().push(y.last())) =~= split(x, sep).push(y));
    }
}

/// Entries that splitting their `;`-joined text gives back: none holds `;`.
proof fn lemma_split_join(parts: Seq<Seq<char>>)
    requires
        parts.len() > 0,
        forall|i: int| 0 <= i < parts.len() ==> !has_char(#[trigger] parts[i], ';'),
    ensures
        split(join(parts, semi()), ';') == parts,
    decreases parts.len(),
{
    if parts.len() == 1 {
        lemma_split_plain(parts[0], ';');
        assert(seq![parts[0]] =~= parts);
    } else {
        let init = parts.drop_last();
        lemma_split_join(init);
        assert(!has_char(parts.last(), ';'));
        lemma_split_after_sep(join(init, semi()), parts.last(), ';');
        assert(join(parts, semi()) == join(init, semi()) + semi() + parts.last());
        assert(init.push(parts.last()) =~= parts);
    }
}

/// An entry as `trimmed_nonempty` keeps it: non-empty, trimmed, without `;`.
pub open spec fn clean_entry(p: Seq<char>) -> bool {
    p.len() > 0 && trim(p) == p && !has_char(p, ';')
}

proof fn lemma_trimmed_nonempty_of_clean(parts: Seq<Seq<char>>)
    requires
        forall|i: int| 0 <= i < parts.len() ==> clean_entry(#[trigger] parts[i]),
    ensures
        trimmed_nonempty(parts) == parts,
    decreases parts.len(),
{
    if parts.len() > 0 {
        lemma_trimmed_nonempty_of_clean(parts.drop_last());
        assert(clean_entry(parts[parts.len() - 1]));
        assert(parts.drop_last().push(parts.last()) =~= parts);
    }
}

proof fn lemma_trim_start_shape(s: Seq<char>)
    ensures
        trim_start(s).len() == 0 || !is_space(trim_start(s)[0]),
        exists|i: int| 0 <= i <= s.len() && trim_start(s) == #[trigger] s.subrange(i, s.len() as int),
    decreases s.len(),
{
    if s.len() > 0 && is_space(s[0]) {
        lemma_trim_start_shape(s.drop_first());
        let i = choose|i: int| 0 <= i <= s.drop_first().len() && trim_start(s.drop_first()) == #[trigger] s.drop_first().subrange(i, s.drop_first().len() as int);
        assert(s.drop_first().subrange(i, s.drop_first().len() as int) =~= s.subrange(i + 1, s.len() as int));
    } else {
        assert(s.subrange(0, s.len() as int) =~= s);
    }
}

proof fn lemma_trim_end_shape(s: Seq<char>)
    ensures
        trim_end(s).len() == 0 || !is_space(trim_end(s).last()),
        exists|j: int| 0 <= j <= s.len() && trim_end(s) == #[trigger] s.subrange(0, j),
        trim_end(trim_end(s)) == trim_end(s),
        s.len() > 0 && !is_space(s[0]) ==> trim_end(s).len() > 0 && trim_end(s)[0] == s[0],
    decreases s.len(),
{
    if s.len() > 0 && is_space(s.last()) {
        lemma_trim_end_shape(s.drop_last());
        let j = choose|j: int| 0 <= j <= s.drop_last().len() && trim_end(s.drop_last()) == #[trigger] s.drop_last().subrange(0, j);
        assert(s.drop_last().subrange(0, j) =~= s.subrange(0, j));
        if s.len() > 0 && !is_space(s[0]) {
            assert(s.len() > 1);
            assert(s.drop_last()[0] == s[0]);
        }
    } else {
        assert(s.subrange(0, s.len() as int) =~= s);
    }
}

/// Trimming a trimmed text changes nothing.
proof fn lemma_trim_idempotent(s: Seq<char>)
    ensures
        trim(trim(s)) == trim(s),
{
    let u = trim_start(s);
    lemma_trim_start_shape(s);
    lemma_trim_end_shape(u);
    let t = trim_end(u);
    if t.len() > 0 {
        assert(!is_space(u[0]));
        assert(!is_space(t[0]));
    }
    assert(trim_start(t) == t);
    assert(trim(t) == trim_end(trim_start(t)));
}

/// What trimming keeps is part of the text: no character it did not hold.
proof fn lemma_trim_keeps_chars(s: Seq<char>, c: char)
    ensures
        has_char(trim(s), c) ==> has_char(s, c),
{
    lemma_trim_start_shape(s);
    let u = trim_start(s);
    let i = choose|i: int| 0 <= i <= s.len() && u == #[trigger] s.subrange(i, s.len() as int);
    lemma_trim_end_shape(u);
    let j = choose|j: int| 0 <= j <= u.len() && trim_end(u) == #[trigger] u.subrange(0, j);
    if has_char(trim(s), c) {
        let k = choose|k: int| 0 <= k < trim(s).len() && trim(s)[k] == c;
        assert(s[i + k] == c);
    }
}

proof fn lemma_split_pieces_plain(s: Seq<char>, sep: char)
    ensures
        forall|i: int| 0 <= i < split(s, sep).len() ==> !has_char(#[trigger] split(s, sep)[i], sep),
    decreases s.len(),
{
    if s.len() > 0 {
        lemma_split_pieces_plain(s.drop_last(), sep);
        crate::text::lemma_split_nonempty(s.drop_last(), sep);
        let p = split(s.drop_last(), sep);
        assert forall|i: int| 0 <= i < split(s, sep).len() implies !has_char(#[trigger] split(s, sep)[i], sep) by {
            if s.last() != sep && i == p.len() - 1 {
                let q = p.last().push(s.last());
                assert(split(s, sep)[i] == q);
                assert(!has_char(p[i], sep));
                if has_char(q, sep) {
                    let k = choose|k: int| 0 <= k < q.len() && q[k] == sep;
                    if k < p.last().len() {
                        assert(p[i][k] == sep);
                    }
                }
            } else if i < p.len() {
                assert(split(s, sep)[i] == p[i]);
            }
        }
    }
}

proof fn lemma_trimmed_nonempty_clean(pieces: Seq<Seq<char>>)
    requires
        forall|i: int| 0 <= i < pieces.len() ==> !has_char(#[trigger] pieces[i], ';'),
    ensures
        forall|i: int| 0 <= i < trimmed_nonempty(pieces).len() ==> clean_entry(#[trigger] trimmed_nonempty(pieces)[i]),
    decreases pieces.len(),
{
    if pieces.len() > 0 {
        lemma_trimmed_nonempty_clean(pieces.drop_last());
        let rest = trimmed_nonempty(pieces.drop_last());
        let t = trim(pieces.last());
        lemma_trim_idempotent(pieces.last());
        lemma_trim_keeps_chars(pieces.last(), ';');
        assert(!has_char(pieces[pieces.len() - 1], ';'));
        if t.len() > 0 {
            assert(clean_entry(t));
            assert(trimmed_nonempty(pieces) == rest.push(t));
            assert forall|i: int| 0 <= i < rest.push(t).len() implies clean_entry(#[trigger] rest.push(t)[i]) by {
                if i < rest.len() {
                    assert(rest.push(t)[i] == rest[i]);
                }
            }
        } else {
            assert(trimmed_nonempty(pieces) == rest);
        }
    }
}

proof fn lemma_local_names_clean()
    ensures
        forall|j: int| 0 <= j < local_bypass_names().len() ==> clean_entry(#[trigger] local_bypass_names()[j]),
{
    reveal_strlit("localhost");
    reveal_strlit("127.0.0.1");
    reveal_strlit("::1");
    reveal_strlit("<local>");
    assert forall|j: int| 0 <= j < local_bypass_names().len() implies clean_entry(#[trigger] local_bypass_names()[j]) by {
        let n = local_bypass_names()[j];
        assert(!is_space(n[0]));
        assert(!is_space(n.last()));
        assert(trim_start(n) == n);
        assert(trim_end(n) == n);
        assert(!has_char(n, ';'));
    }
}

proof fn lemma_add_all_missing_clean(parts: Seq<Seq<char>>, names: Seq<Seq<char>>)
    requires
        forall|i: int| 0 <= i < parts.len() ==> clean_entry(#[trigger] parts[i]),
        forall|i: int| 0 <= i < names.len() ==> clean_entry(#[trigger] names[i]),
    ensures
        forall|i: int| 0 <= i < add_all_missing(parts, names).len() ==> clean_entry(#[trigger] add_all_missing(parts, names)[i]),
    decreases names.len(),
{
    if names.len() > 0 {
        lemma_add_all_missing_clean(parts, names.drop_last());
        let prev = add_all_missing(parts, names.drop_last());
        assert(clean_entry(names[names.len() - 1]));
        assert forall|i: int| 0 <= i < add_all_missing(parts, names).len() implies clean_entry(#[trigger] add_all_missing(parts, names)[i]) by {
            if i < prev.len() {
                assert(add_all_missing(parts, names)[i] == prev[i]);
            }
        }
    }
}

proof fn lemma_add_all_present(parts: Seq<Seq<char>>, names: Seq<Seq<char>>)
    requires
        forall|j: int| 0 <= j < names.len() ==> has_entry(parts, #[trigger] names[j]),
    ensures
        add_all_missing(parts, names) == parts,
    decreases names.len(),
{
    if names.len() > 0 {
        lemma_add_all_present(parts, names.drop_last());
        assert(has_entry(parts, names[names.len() - 1]));
    }
}

/// Taking over the system proxy again over a bypass list that a takeover
/// wrote leaves that list as it is: merging is idempotent.
pub proof fn lemma_merge_idempotent(existing: Option<Seq<char>>)
    ensures
        merged_override(Some(merged_override(existing))) == merged_override(existing),
{
    let pieces = split(match existing {
        Some(s) => s,
        None => Seq::<char>::empty(),
    }, ';');
    lemma_split_pieces_plain(match existing {
        Some(s) => s,
        None => Seq::<char>::empty(),
    }, ';');
    lemma_trimmed_nonempty_clean(pieces);
    lemma_local_names_clean();
    let entries = override_entries(existing);
    lemma_add_all_missing_clean(entries, local_bypass_names());
    let merged = merged_override_entries(existing);
    lemma_takeover_bypasses_local(existing);
    assert(merged.len() > 0) by {
        assert(has_entry(merged, local_bypass_names()[0]));
    }
    assert forall|i: int| 0 <= i < merged.len() implies !has_char(#[trigger] merged[i], ';') by {
        assert(clean_entry(merged[i]));
    }
    lemma_split_join(merged);
    lemma_trimmed_nonempty_of_clean(merged);
    assert(override_entries(Some(merged_override(existing))) == merged);
    lemma_add_all_present(merged, local_bypass_names());
}

} // verus!
