//! Rules: the rule file's entries, their conversion into the rules the proxy
//! runs, the hot-swappable rule set, and which rules a request hits.
//!
//! Filters and modifications are carried here as data; what a filter matches
//! and which MITM host pattern it implies are decided by the rule engine that
//! evaluates requests, and reach these functions as inputs.
use vstd::prelude::*;
use crate::text::{chars_of, eq_ignore_case, eq_ignore_case_exec, string_of, trim_chars, trimmed_nonempty};
use crate::traffic::{clone_opt_string, headers_view, opt_text, HeadersView};

verus! {

/// The conditions a filter can test.
#[derive(Clone, Copy, PartialEq, Eq, Structural)]
pub enum FilterKind {
    /// Every request.
    All,
    /// The host is exactly the value.
    Domain,
    /// The host contains the value.
    DomainKeyword,
    /// The host starts with the value.
    DomainPrefix,
    /// The host ends with the value.
    DomainSuffix,
    /// The URL contains the value.
    UrlContains,
    /// The URL matches the value as a regular expression.
    UrlRegex,
}

/// A rule filter: a condition and its value (empty for `All`).
pub struct Filter {
    pub kind: FilterKind,
    pub value: String,
}

impl View for Filter {
    type V = (FilterKind, Seq<char>);

    open spec fn view(&self) -> (FilterKind, Seq<char>) {
        (self.kind, self.value@)
    }
}

impl Clone for Filter {
    fn clone(&self) -> (r: Self)
        ensures
            r@ == self@,
    {
        Filter { kind: self.kind, value: self.value.clone() }
    }
}

/// A body or header modification, as written in the rule file (JSON); it is
/// carried, not interpreted, here.
pub struct Modify {
    pub raw: String,
}

/// What a rule does to the requests it hits.
pub enum Action {
    /// Refuse the request with 502.
    Reject,
    /// Redirect to this URL.
    Redirect(String),
    ModifyRequest(Modify),
    ModifyResponse(Modify),
    /// Log the response.
    LogRes,
    /// Log the request.
    LogReq,
    /// Hold the request for a decision in the front end; the rule engine
    /// itself ignores this action.
    Intercept,
}

/// The tag of an action and its text (URL or modification; empty otherwise).
pub open spec fn action_view(a: Action) -> (u8, Seq<char>) {
    match a {
        Action::Reject => (0u8, Seq::<char>::empty()),
        Action::Redirect(u) => (1u8, u@),
        Action::ModifyRequest(m) => (2u8, m.raw@),
        Action::ModifyResponse(m) => (3u8, m.raw@),
        Action::LogRes => (4u8, Seq::<char>::empty()),
        Action::LogReq => (5u8, Seq::<char>::empty()),
        Action::Intercept => (6u8, Seq::<char>::empty()),
    }
}

impl Clone for Action {
    fn clone(&self) -> (r: Self)
        ensures
            action_view(r) == action_view(*self),
    {
        match self {
            Action::Reject => Action::Reject,
            Action::Redirect(u) => Action::Redirect(u.clone()),
            Action::ModifyRequest(m) => Action::ModifyRequest(Modify { raw: m.raw.clone() }),
            Action::ModifyResponse(m) => Action::ModifyResponse(Modify { raw: m.raw.clone() }),
            Action::LogRes => Action::LogRes,
            Action::LogReq => Action::LogReq,
            Action::Intercept => Action::Intercept,
        }
    }
}

pub open spec fn filters_view(f: Seq<Filter>) -> Seq<(FilterKind, Seq<char>)> {
    Seq::new(f.len(), |i: int| f[i]@)
}

pub open spec fn actions_view(a: Seq<Action>) -> Seq<(u8, Seq<char>)> {
    Seq::new(a.len(), |i: int| action_view(a[i]))
}

pub open spec fn strings_view(s: Seq<String>) -> Seq<Seq<char>> {
    Seq::new(s.len(), |i: int| s[i]@)
}

fn clone_filters(f: &Vec<Filter>) -> (r: Vec<Filter>)
    ensures
        filters_view(r@) == filters_view(f@),
{
    let mut r: Vec<Filter> = Vec::new();
    let mut i: usize = 0;
    while i < f.len()
        invariant
            i <= f.len(),
            r@.len() == i,
            forall|k: int| 0 <= k < i ==> (#[trigger] r@[k])@ == f@[k]@,
        decreases f.len() - i,
    {
        r.push(f[i].clone());
        i = i + 1;
    }
    assert(filters_view(r@) =~= filters_view(f@));
    r
}

fn clone_actions(a: &Vec<Action>) -> (r: Vec<Action>)
    ensures
        actions_view(r@) == actions_view(a@),
{
    let mut r: Vec<Action> = Vec::new();
    let mut i: usize = 0;
    while i < a.len()
        invariant
            i <= a.len(),
            r@.len() == i,
            forall|k: int| 0 <= k < i ==> action_view(#[trigger] r@[k]) == action_view(a@[k]),
        decreases a.len() - i,
    {
        r.push(a[i].clone());
        i = i + 1;
    }
    assert(actions_view(r@) =~= actions_view(a@));
    r
}

fn clone_strings(s: &Vec<String>) -> (r: Vec<String>)
    ensures
        strings_view(r@) == strings_view(s@),
{
    let mut r: Vec<String> = Vec::new();
    let mut i: usize = 0;
    while i < s.len()
        invariant
            i <= s.len(),
            r@.len() == i,
            forall|k: int| 0 <= k < i ==> (#[trigger] r@[k])@ == s@[k]@,
        decreases s.len() - i,
    {
        r.push(s[i].clone());
        i = i + 1;
    }
    assert(strings_view(r@) =~= strings_view(s@));
    r
}

/// A rule as the proxy runs it: a request hits it when any filter matches;
/// its actions then apply in order.
pub struct ExecRule {
    pub filters: Vec<Filter>,
    pub actions: Vec<Action>,
    pub url: Option<String>,
}

pub struct ExecRuleView {
    pub filters: Seq<(FilterKind, Seq<char>)>,
    pub actions: Seq<(u8, Seq<char>)>,
    pub url: Option<Seq<char>>,
}

impl View for ExecRule {
    type V = ExecRuleView;

    open spec fn view(&self) -> ExecRuleView {
        ExecRuleView {
            filters: filters_view(self.filters@),
            actions: actions_view(self.actions@),
            url: opt_text(self.url),
        }
    }
}

impl Clone for ExecRule {
    fn clone(&self) -> (r: Self)
        ensures
            r@ == self@,
    {
        ExecRule {
            filters: clone_filters(&self.filters),
            actions: clone_actions(&self.actions),
            url: clone_opt_string(&self.url),
        }
    }
}

pub open spec fn exec_rules_view(r: Seq<ExecRule>) -> Seq<ExecRuleView> {
    Seq::new(r.len(), |i: int| r[i]@)
}

fn clone_exec_rules(r: &Vec<ExecRule>) -> (o: Vec<ExecRule>)
    ensures
        exec_rules_view(o@) == exec_rules_view(r@),
{
    let mut o: Vec<ExecRule> = Vec::new();
    let mut i: usize = 0;
    while i < r.len()
        invariant
            i <= r.len(),
            o@.len() == i,
            forall|k: int| 0 <= k < i ==> (#[trigger] o@[k])@ == r@[k]@,
        decreases r.len() - i,
    {
        o.push(r[i].clone());
        i = i + 1;
    }
    assert(exec_rules_view(o@) =~= exec_rules_view(r@));
    o
}

/// A rule as written in the rule file.
pub struct Rule {
    pub name: String,
    /// A disabled rule takes part neither in matching nor in MITM.
    pub enabled: bool,
    /// The HTTPS hosts to decrypt for this rule, when given explicitly.
    pub mitm_list: Option<Vec<String>>,
    pub filters: Vec<Filter>,
    pub actions: Vec<Action>,
}

/// The MITM host patterns a rule contributes: none when disabled; its
/// explicit list when it has one (filter-derived patterns are then not
/// added, so that an `all` filter cannot widen an explicit list to every
/// host); else the patterns its filters imply, in order.
pub open spec fn rule_mitm_hosts(
    enabled: bool,
    mitm_list: Option<Seq<Seq<char>>>,
    derived: Seq<Option<Seq<char>>>,
) -> Seq<Seq<char>> {
    if !enabled {
        Seq::<Seq<char>>::empty()
    } else {
        match mitm_list {
            Some(l) => l,
            None => present(derived),
        }
    }
}

/// The `Some` values of `s`, in order.
pub open spec fn present(s: Seq<Option<Seq<char>>>) -> Seq<Seq<char>>
    decreases s.len(),
{
    if s.len() == 0 {
        Seq::<Seq<char>>::empty()
    } else {
        match s.last() {
            Some(v) => present(s.drop_last()).push(v),
            None => present(s.drop_last()),
        }
    }
}

pub open spec fn opt_strings_view(s: Seq<Option<String>>) -> Seq<Option<Seq<char>>> {
    Seq::new(s.len(), |i: int| opt_text(s[i]))
}

impl Clone for Rule {
    fn clone(&self) -> (r: Self)
        ensures
            r.name@ == self.name@,
            r.enabled == self.enabled,
            r.mitm_view() == self.mitm_view(),
            filters_view(r.filters@) == filters_view(self.filters@),
            actions_view(r.actions@) == actions_view(self.actions@),
    {
        Rule {
            name: self.name.clone(),
            enabled: self.enabled,
            mitm_list: match &self.mitm_list {
                Some(l) => Some(clone_strings(l)),
                None => None,
            },
            filters: clone_filters(&self.filters),
            actions: clone_actions(&self.actions),
        }
    }
}

impl Rule {
    pub open spec fn mitm_view(&self) -> Option<Seq<Seq<char>>> {
        match self.mitm_list {
            Some(l) => Some(strings_view(l@)),
            None => None,
        }
    }

    /// Converts the rule into the rule the proxy runs and its MITM host
    /// patterns. `derived[i]` is the MITM pattern that filter `i` implies,
    /// if any. A disabled rule becomes a rule with no filter and no action
    /// (it matches nothing) and contributes no pattern.
    pub fn into_exec(self, derived: &Vec<Option<String>>) -> (r: (ExecRule, Vec<String>))
        requires
            derived@.len() == self.filters@.len(),
        ensures
            self.enabled ==> r.0@ == (ExecRuleView {
                filters: filters_view(self.filters@),
                actions: actions_view(self.actions@),
                url: None,
            }),
            !self.enabled ==> r.0@.filters.len() == 0 && r.0@.actions.len() == 0 && r.0@.url is None,
            strings_view(r.1@) == rule_mitm_hosts(self.enabled, self.mitm_view(), opt_strings_view(derived@)),
    {
        if !self.enabled {
            let e = ExecRule { filters: Vec::new(), actions: Vec::new(), url: None };
            let m: Vec<String> = Vec::new();
            assert(strings_view(m@) =~= Seq::<Seq<char>>::empty());
            return (e, m);
        }
        let ghost mv = self.mitm_view();
        let mut mitm: Vec<String> = Vec::new();
        match &self.mitm_list {
            Some(l) => {
                mitm = clone_strings(l);
            },
            None => {
                let mut i: usize = 0;
                while i < derived.len()
                    invariant
                        i <= derived@.len(),
                        strings_view(mitm@) == present(opt_strings_view(derived@).take(i as int)),
                    decreases derived@.len() - i,
                {
                    assert(opt_strings_view(derived@).take(i + 1).drop_last() =~= opt_strings_view(derived@).take(
                        i as int,
                    ));
                    match &derived[i] {
                        Some(p) => {
                            let ghost before = mitm@;
                            mitm.push(p.clone());
                            assert(strings_view(mitm@) =~= strings_view(before).push(p@));
                        },
                        None => {},
                    }
                    i = i + 1;
                }
                assert(opt_strings_view(derived@).take(derived@.len() as int) =~= opt_strings_view(derived@));
            },
        }
        let e = ExecRule { filters: self.filters, actions: self.actions, url: None };
        (e, mitm)
    }
}

/// Whether `matches[j]` holds for some filter `j`.
pub open spec fn any_true(matches: Seq<bool>) -> bool {
    exists|j: int| 0 <= j < matches.len() && matches[j]
}

/// The rules a request hits, in order: those with a matching filter.
/// `matches[i][j]` tells whether filter `j` of rule `i` matches.
pub open spec fn hit_rules(rules: Seq<ExecRuleView>, matches: Seq<Seq<bool>>) -> Seq<ExecRuleView>
    decreases rules.len(),
{
    if rules.len() == 0 {
        rules
    } else {
        let rest = hit_rules(rules.drop_last(), matches);
        if any_true(matches[rules.len() - 1]) {
            rest.push(rules.last())
        } else {
            rest
        }
    }
}

/// The match outcomes line up with the rules and their filters.
pub open spec fn matches_fit(rules: Seq<ExecRuleView>, matches: Seq<Seq<bool>>) -> bool {
    &&& matches.len() == rules.len()
    &&& forall|i: int| 0 <= i < rules.len() ==> (#[trigger] matches[i]).len() == rules[i].filters.len()
}

pub open spec fn bools_view(v: Seq<Vec<bool>>) -> Seq<Seq<bool>> {
    Seq::new(v.len(), |i: int| v[i]@)
}

fn any_true_exec(m: &Vec<bool>) -> (r: bool)
    ensures
        r == any_true(m@),
{
    let mut i: usize = 0;
    while i < m.len()
        invariant
            i <= m.len(),
            forall|k: int| 0 <= k < i ==> !m@[k],
        decreases m.len() - i,
    {
        if m[i] {
            return true;
        }
        i = i + 1;
    }
    false
}

/// The rule set the proxy runs; it can be replaced while the proxy runs.
pub struct RuleHttpHandler {
    rules: Vec<ExecRule>,
}

impl RuleHttpHandler {
    /// The rules, in order.
    pub closed spec fn rules(&self) -> Seq<ExecRuleView> {
        exec_rules_view(self.rules@)
    }

    pub fn new(rules: Vec<ExecRule>) -> (r: Self)
        ensures
            r.rules() == exec_rules_view(rules@),
    {
        RuleHttpHandler { rules }
    }

    /// Replaces the rules.
    pub fn set_rules(&mut self, rules: Vec<ExecRule>)
        ensures
            final(self).rules() == exec_rules_view(rules@),
    {
        self.rules = rules;
    }

    /// A copy of the rules.
    pub fn get_rules(&self) -> (r: Vec<ExecRule>)
        ensures
            exec_rules_view(r@) == self.rules(),
    {
        clone_exec_rules(&self.rules)
    }

    /// The rules a request hits, in order (`matches[i][j]` tells whether
    /// filter `j` of rule `i` matches the request).
    pub fn match_rules(&self, matches: &Vec<Vec<bool>>) -> (r: Vec<ExecRule>)
        requires
            matches_fit(self.rules(), bools_view(matches@)),
        ensures
            exec_rules_view(r@) == hit_rules(self.rules(), bools_view(matches@)),
    {
        let mut r: Vec<ExecRule> = Vec::new();
        let mut i: usize = 0;
        while i < self.rules.len()
            invariant
                i <= self.rules@.len(),
                matches@.len() == self.rules@.len(),
                exec_rules_view(r@) == hit_rules(self.rules().take(i as int), bools_view(matches@)),
            decreases self.rules@.len() - i,
        {
            assert(self.rules().take(i + 1).drop_last() =~= self.rules().take(i as int));
            assert(bools_view(matches@)[i as int] == matches@[i as int]@);
            if any_true_exec(&matches[i]) {
                let ghost before = r@;
                r.push(self.rules[i].clone());
                assert(exec_rules_view(r@) =~= exec_rules_view(before).push(self.rules()[i as int]));
            }
            i = i + 1;
        }
        assert(self.rules().take(self.rules@.len() as int) =~= self.rules());
        r
    }

    /// Whether a request is held for a decision: some rule with an
    /// `Intercept` action has a filter that matches it.
    pub fn matched_intercept(&self, matches: &Vec<Vec<bool>>) -> (r: bool)
        requires
            matches_fit(self.rules(), bools_view(matches@)),
        ensures
            r == exists|i: int|
                0 <= i < self.rules().len() && #[trigger] has_intercept(self.rules()[i].actions) && any_true(
                    bools_view(matches@)[i],
                ),
    {
        let mut i: usize = 0;
        while i < self.rules.len()
            invariant
                i <= self.rules@.len(),
                matches@.len() == self.rules@.len(),
                forall|k: int|
                    0 <= k < i ==> !(#[trigger] has_intercept(self.rules()[k].actions) && any_true(
                        bools_view(matches@)[k],
                    )),
            decreases self.rules@.len() - i,
        {
            let rule = &self.rules[i];
            let mut j: usize = 0;
            let mut intercept = false;
            while j < rule.actions.len()
                invariant
                    j <= rule.actions@.len(),
                    intercept <==> exists|k: int| 0 <= k < j && (#[trigger] action_view(rule.actions@[k])).0 == 6u8,
                decreases rule.actions@.len() - j,
            {
                let is_intercept = match &rule.actions[j] {
                    Action::Intercept => true,
                    _ => false,
                };
                assert(is_intercept == (action_view(rule.actions@[j as int]).0 == 6u8));
                if is_intercept {
                    intercept = true;
                }
                j = j + 1;
            }
            assert(intercept == has_intercept(self.rules()[i as int].actions)) by {
                let av = self.rules()[i as int].actions;
                if intercept {
                    let k = choose|k: int| 0 <= k < j && (#[trigger] action_view(rule.actions@[k])).0 == 6u8;
                    assert(av[k] == action_view(rule.actions@[k]));
                }
                if has_intercept(av) {
                    let k = choose|k: int| 0 <= k < av.len() && (#[trigger] av[k]).0 == 6u8;
                    assert(av[k] == action_view(rule.actions@[k]));
                }
            }
            assert(bools_view(matches@)[i as int] == matches@[i as int]@);
            if intercept && any_true_exec(&matches[i]) {
                return true;
            }
            i = i + 1;
        }
        false
    }
}

/// Some action is `Intercept`.
pub open spec fn has_intercept(actions: Seq<(u8, Seq<char>)>) -> bool {
    exists|k: int| 0 <= k < actions.len() && (#[trigger] actions[k]).0 == 6u8
}

/// Per-request rule state: the rules the request hit, and the id that ties its
/// request and response records together.
pub struct RuleHandlerCtx {
    pub rules: Vec<ExecRule>,
    pub request_id: u64,
}

impl Default for RuleHandlerCtx {
    /// No rule hit, id 0.
    fn default() -> (r: Self)
        ensures
            r.rules@.len() == 0,
            r.request_id == 0,
    {
        RuleHandlerCtx { rules: Vec::new(), request_id: 0 }
    }
}

/// What the rule engine does next with a request.
pub enum RuleAction {
    /// Apply this hit rule to the request (it was recorded in the request's
    /// context first).
    Apply(ExecRule),
    /// Every hit rule was applied: the request goes on to the server.
    Forward,
    /// The rule applied last answered the request: stop, and send the answer.
    Answered,
}

/// The rule engine's request loop over the rules a request hits: they are
/// applied in order until one answers the request.
pub struct RuleRun {
    hits: Vec<ExecRule>,
    applied: usize,
}

impl RuleRun {
    #[verifier::type_invariant]
    spec fn applied_in_range(&self) -> bool {
        self.applied <= self.hits@.len()
    }

    /// The rules the request hits, in order.
    pub closed spec fn hits(&self) -> Seq<ExecRuleView> {
        exec_rules_view(self.hits@)
    }

    /// How many of them were handed out to be applied.
    pub closed spec fn applied(&self) -> nat {
        self.applied as nat
    }

    /// Starts the loop for a request (`matches[i][j]` tells whether filter
    /// `j` of rule `i` matches it): the rules it hits, none applied yet.
    pub fn start(handler: &RuleHttpHandler, matches: &Vec<Vec<bool>>) -> (r: Self)
        requires
            matches_fit(handler.rules(), bools_view(matches@)),
        ensures
            r.hits() == hit_rules(handler.rules(), bools_view(matches@)),
            r.applied() == 0,
    {
        RuleRun { hits: handler.match_rules(matches), applied: 0 }
    }

    /// Whether the response is handled by the rules too: some rule was hit.
    pub fn should_modify_response(&self) -> (r: bool)
        ensures
            r == (self.hits().len() > 0),
    {
        self.hits.len() > 0
    }

    /// The next step, given whether the rule applied last answered the
    /// request: stop when it did; else hand out the next hit rule, recorded
    /// in the request's context before it is applied; `Forward` once every
    /// hit rule was applied.
    pub fn next(&mut self, ctx: &mut RuleHandlerCtx, answered: bool) -> (r: RuleAction)
        ensures
            final(self).hits() == old(self).hits(),
            final(ctx).request_id == old(ctx).request_id,
            answered ==> r is Answered && final(self).applied() == old(self).applied() && exec_rules_view(
                final(ctx).rules@,
            ) == exec_rules_view(old(ctx).rules@),
            !answered && old(self).applied() < old(self).hits().len() ==> (r matches RuleAction::Apply(x) && x@
                == old(self).hits()[old(self).applied() as int] && final(self).applied() == old(self).applied() + 1
                && exec_rules_view(final(ctx).rules@) == exec_rules_view(old(ctx).rules@).push(x@)),
            !answered && old(self).applied() >= old(self).hits().len() ==> r is Forward && final(self).applied()
                == old(self).applied() && exec_rules_view(final(ctx).rules@) == exec_rules_view(old(ctx).rules@),
    {
        if answered {
            return RuleAction::Answered;
        }
        if self.applied < self.hits.len() {
            let rule = self.hits[self.applied].clone();
            let ghost before = ctx.rules@;
            ctx.rules.push(rule.clone());
            assert(exec_rules_view(ctx.rules@) =~= exec_rules_view(before).push(rule@));
            self.applied = self.applied + 1;
            return RuleAction::Apply(rule);
        }
        RuleAction::Forward
    }
}

impl RuleHandlerCtx {
    /// Response phase of the rule engine: the rules applied to the response,
    /// in order: those the request hit, when the response is handled; none
    /// otherwise (the response passes unchanged).
    pub fn response_rules(&self, should_modify_response: bool) -> (r: Vec<ExecRule>)
        ensures
            exec_rules_view(r@) == (if should_modify_response {
                exec_rules_view(self.rules@)
            } else {
                Seq::<ExecRuleView>::empty()
            }),
    {
        if !should_modify_response || self.rules.len() == 0 {
            let r: Vec<ExecRule> = Vec::new();
            assert(exec_rules_view(r@) =~= Seq::<ExecRuleView>::empty());
            assert(self.rules@.len() == 0 ==> exec_rules_view(self.rules@) =~= Seq::<ExecRuleView>::empty());
            return r;
        }
        clone_exec_rules(&self.rules)
    }
}

/// `h` without its `Accept-Encoding` headers (ASCII case ignored), order kept.
pub open spec fn without_accept_encoding(h: HeadersView) -> HeadersView
    decreases h.len(),
{
    if h.len() == 0 {
        h
    } else {
        let rest = without_accept_encoding(h.drop_last());
        if eq_ignore_case(h.last().0, "accept-encoding"@) {
            rest
        } else {
            rest.push(h.last())
        }
    }
}

/// The request headers the rule engine works on: every `Accept-Encoding`
/// header is removed, so that responses come back unencoded and their bodies
/// can be read and changed.
pub fn engine_request_headers(headers: Vec<(String, String)>) -> (r: Vec<(String, String)>)
    ensures
        headers_view(r@) == without_accept_encoding(headers_view(headers@)),
{
    let name = chars_of("accept-encoding");
    let mut r: Vec<(String, String)> = Vec::new();
    let mut i: usize = 0;
    while i < headers.len()
        invariant
            i <= headers@.len(),
            name@ == "accept-encoding"@,
            headers_view(r@) == without_accept_encoding(headers_view(headers@).take(i as int)),
        decreases headers@.len() - i,
    {
        let pair = &headers[i];
        assert(headers_view(headers@).take(i + 1).drop_last() =~= headers_view(headers@).take(i as int));
        assert(headers_view(headers@).take(i + 1).last() == (pair.0@, pair.1@));
        if !eq_ignore_case_exec(&chars_of(pair.0.as_str()), &name) {
            let ghost before = r@;
            r.push((pair.0.clone(), pair.1.clone()));
            assert(headers_view(r@) =~= headers_view(before).push((pair.0@, pair.1@)));
        }
        i = i + 1;
    }
    assert(headers_view(headers@).take(headers@.len() as int) =~= headers_view(headers@));
    r
}

/// A rule, or a rule entry, that does not say whether it is enabled is enabled.
pub fn default_enabled() -> (r: bool)
    ensures
        r,
{
    true
}

/// A rule as edited in the front end: its name and switch for the list, and
/// its JSON text.
pub struct RuleEntry {
    pub name: String,
    pub enabled: bool,
    pub json: String,
}

impl RuleEntry {
    /// The entry of a rule: its name and switch, and `json`, its JSON text.
    pub fn of_rule(rule: &Rule, json: String) -> (r: RuleEntry)
        ensures
            r.name@ == rule.name@,
            r.enabled == rule.enabled,
            r.json@ == json@,
    {
        RuleEntry { name: rule.name.clone(), enabled: rule.enabled, json }
    }
}

/// The MITM host patterns used at start-up: the global list of the
/// configuration when the configuration file has one, else the patterns
/// the rule file implies.
pub fn startup_mitm_filters(has_global_config: bool, config_hosts: &Vec<String>, legacy: Vec<String>) -> (r: Vec<String>)
    ensures
        has_global_config ==> strings_view(r@) == strings_view(config_hosts@),
        !has_global_config ==> strings_view(r@) == strings_view(legacy@),
{
    if has_global_config {
        clone_strings(config_hosts)
    } else {
        legacy
    }
}

/// The global MITM host patterns as saved: each trimmed, empty ones dropped,
/// order kept.
pub fn normalize_mitm_hosts(hosts: Vec<String>) -> (r: Vec<String>)
    ensures
        strings_view(r@) == trimmed_nonempty(strings_view(hosts@)),
{
    let mut r: Vec<String> = Vec::new();
    let mut i: usize = 0;
    while i < hosts.len()
        invariant
            i <= hosts@.len(),
            strings_view(r@) == trimmed_nonempty(strings_view(hosts@).take(i as int)),
        decreases hosts@.len() - i,
    {
        assert(strings_view(hosts@).take(i + 1).drop_last() =~= strings_view(hosts@).take(i as int));
        let t = trim_chars(&chars_of(hosts[i].as_str()));
        if t.len() > 0 {
            let ghost before = r@;
            r.push(string_of(&t));
            assert(strings_view(r@) =~= strings_view(before).push(t@));
        }
        i = i + 1;
    }
    assert(strings_view(hosts@).take(hosts@.len() as int) =~= strings_view(hosts@));
    r
}


/// The rule the proxy runs for a rule-file entry.
pub open spec fn exec_of(enabled: bool, filters: Seq<(FilterKind, Seq<char>)>, actions: Seq<(u8, Seq<char>)>) -> ExecRuleView {
    if enabled {
        ExecRuleView { filters, actions, url: None }
    } else {
        ExecRuleView { filters: Seq::empty(), actions: Seq::empty(), url: None }
    }
}

/// What saving the rules applies: the rules the proxy runs, the normalised
/// global MITM hosts, and the number of rules saved.
pub struct RulesSavePlan {
    pub exec_rules: Vec<ExecRule>,
    pub mitm_hosts: Vec<String>,
    pub count: usize,
}

/// Converts the edited rules for hot application: each into the rule the
/// proxy runs (the MITM patterns they imply are not used: the global MITM
/// host list replaces them), and normalises the global MITM host list.
/// `derived[i][j]` is the MITM pattern filter `j` of rule `i` implies.
pub fn plan_rules_save(rules: &Vec<Rule>, derived: &Vec<Vec<Option<String>>>, mitm_hosts: Vec<String>) -> (r: RulesSavePlan)
    requires
        derived@.len() == rules@.len(),
        forall|i: int| 0 <= i < rules@.len() ==> (#[trigger] derived@[i])@.len() == rules@[i].filters@.len(),
    ensures
        r.count == rules@.len(),
        r.exec_rules@.len() == rules@.len(),
        forall|i: int|
            0 <= i < rules@.len() ==> (#[trigger] r.exec_rules@[i])@ == exec_of(
                rules@[i].enabled,
                filters_view(rules@[i].filters@),
                actions_view(rules@[i].actions@),
            ),
        strings_view(r.mitm_hosts@) == trimmed_nonempty(strings_view(mitm_hosts@)),
{
    let mut exec_rules: Vec<ExecRule> = Vec::new();
    let mut i: usize = 0;
    while i < rules.len()
        invariant
            i <= rules@.len(),
            derived@.len() == rules@.len(),
            forall|k: int| 0 <= k < rules@.len() ==> (#[trigger] derived@[k])@.len() == rules@[k].filters@.len(),
            exec_rules@.len() == i,
            forall|k: int|
                0 <= k < i ==> (#[trigger] exec_rules@[k])@ == exec_of(
                    rules@[k].enabled,
                    filters_view(rules@[k].filters@),
                    actions_view(rules@[k].actions@),
                ),
        decreases rules@.len() - i,
    {
        let rule = rules[i].clone();
        assert(filters_view(rule.filters@).len() == filters_view(rules@[i as int].filters@).len());
        let (e, _legacy) = rule.into_exec(&derived[i]);
        proof {
            if !rules@[i as int].enabled {
                assert(e@.filters =~= Seq::<(FilterKind, Seq<char>)>::empty());
                assert(e@.actions =~= Seq::<(u8, Seq<char>)>::empty());
            }
        }
        exec_rules.push(e);
        i = i + 1;
    }
    let hosts = normalize_mitm_hosts(mitm_hosts);
    RulesSavePlan { exec_rules, mitm_hosts: hosts, count: rules.len() }
}

/// The deep view of the per-rule, per-filter MITM patterns.
pub open spec fn derived_view(d: Seq<Vec<Option<String>>>) -> Seq<Seq<Option<Seq<char>>>> {
    Seq::new(d.len(), |i: int| opt_strings_view(d[i]@))
}

/// The MITM host patterns of a whole rule file: those of each rule, rule
/// after rule.
pub open spec fn all_mitm_hosts(rules: Seq<Rule>, derived: Seq<Seq<Option<Seq<char>>>>) -> Seq<Seq<char>>
    decreases rules.len(),
{
    if rules.len() == 0 || derived.len() == 0 {
        Seq::<Seq<char>>::empty()
    } else {
        all_mitm_hosts(rules.drop_last(), derived.drop_last()) + rule_mitm_hosts(
            rules.last().enabled,
            rules.last().mitm_view(),
            derived.last(),
        )
    }
}

/// Loads the rules of a rule file: each becomes the rule the proxy runs, in
/// order, and the MITM host patterns of all of them are collected, rule after
/// rule. `derived[i][j]` is the MITM pattern filter `j` of rule `i` implies.
pub fn load_rules(rules: Vec<Rule>, derived: &Vec<Vec<Option<String>>>) -> (r: (Vec<ExecRule>, Vec<String>))
    requires
        derived@.len() == rules@.len(),
        forall|i: int| 0 <= i < rules@.len() ==> (#[trigger] derived@[i])@.len() == rules@[i].filters@.len(),
    ensures
        r.0@.len() == rules@.len(),
        forall|i: int|
            0 <= i < rules@.len() ==> (#[trigger] r.0@[i])@ == exec_of(
                rules@[i].enabled,
                filters_view(rules@[i].filters@),
                actions_view(rules@[i].actions@),
            ),
        strings_view(r.1@) == all_mitm_hosts(rules@, derived_view(derived@)),
{
    let mut exec_rules: Vec<ExecRule> = Vec::new();
    let mut hosts: Vec<String> = Vec::new();
    let mut i: usize = 0;
    while i < rules.len()
        invariant
            i <= rules@.len(),
            derived@.len() == rules@.len(),
            forall|k: int| 0 <= k < rules@.len() ==> (#[trigger] derived@[k])@.len() == rules@[k].filters@.len(),
            exec_rules@.len() == i,
            forall|k: int|
                0 <= k < i ==> (#[trigger] exec_rules@[k])@ == exec_of(
                    rules@[k].enabled,
                    filters_view(rules@[k].filters@),
                    actions_view(rules@[k].actions@),
                ),
            strings_view(hosts@) == all_mitm_hosts(rules@.take(i as int), derived_view(derived@).take(i as int)),
        decreases rules@.len() - i,
    {
        let rule = rules[i].clone();
        assert(filters_view(rule.filters@).len() == filters_view(rules@[i as int].filters@).len());
        let (e, rule_hosts) = rule.into_exec(&derived[i]);
        proof {
            if !rules@[i as int].enabled {
                assert(e@.filters =~= Seq::<(FilterKind, Seq<char>)>::empty());
                assert(e@.actions =~= Seq::<(u8, Seq<char>)>::empty());
            }
            assert(rules@.take(i + 1).drop_last() =~= rules@.take(i as int));
            assert(derived_view(derived@).take(i + 1).drop_last() =~= derived_view(derived@).take(i as int));
            assert(rules@.take(i + 1).last() == rules@[i as int]);
            assert(derived_view(derived@).take(i + 1).last() == opt_strings_view(derived@[i as int]@));
        }
        exec_rules.push(e);
        let ghost before = strings_view(hosts@);
        let mut j: usize = 0;
        while j < rule_hosts.len()
            invariant
                j <= rule_hosts@.len(),
                strings_view(hosts@) == before + strings_view(rule_hosts@).take(j as int),
            decreases rule_hosts@.len() - j,
        {
            let ghost prev = hosts@;
            hosts.push(rule_hosts[j].clone());
            assert(strings_view(hosts@) =~= strings_view(prev).push(rule_hosts@[j as int]@));
            assert(strings_view(rule_hosts@).take(j + 1) =~= strings_view(rule_hosts@).take(j as int).push(
                rule_hosts@[j as int]@,
            ));
            j = j + 1;
        }
        assert(strings_view(rule_hosts@).take(rule_hosts@.len() as int) =~= strings_view(rule_hosts@));
        i = i + 1;
    }
    assert(rules@.take(rules@.len() as int) =~= rules@);
    assert(derived_view(derived@).take(rules@.len() as int) =~= derived_view(derived@));
    (exec_rules, hosts)
}

} // verus!
