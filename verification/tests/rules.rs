use flowly_gui::rules::{RuleAction, RuleRun};
use flowly_gui::rules::{
    normalize_mitm_hosts, plan_rules_save, startup_mitm_filters, Action, ExecRule, Filter, FilterKind,
    Modify, Rule, RuleEntry, RuleHandlerCtx, RuleHttpHandler,
};

fn filter(kind: FilterKind, value: &str) -> Filter {
    Filter { kind, value: value.to_string() }
}

fn rule(enabled: bool, mitm: Option<Vec<&str>>, actions: Vec<Action>) -> Rule {
    Rule {
        name: "r".to_string(),
        enabled,
        mitm_list: mitm.map(|l| l.into_iter().map(String::from).collect()),
        filters: vec![filter(FilterKind::All, ""), filter(FilterKind::DomainSuffix, "example.com")],
        actions,
    }
}

#[test]
fn disabled_rule_matches_nothing_and_adds_no_mitm_host() {
    let derived = vec![Some("*".to_string()), Some("*.example.com".to_string())];
    let (exec, mitm) = rule(false, Some(vec!["a.com"]), vec![Action::Reject]).into_exec(&derived);
    assert!(exec.filters.is_empty());
    assert!(exec.actions.is_empty());
    assert!(mitm.is_empty());
}

#[test]
fn explicit_mitm_list_takes_precedence_over_filters() {
    let derived = vec![Some("*".to_string()), Some("*.example.com".to_string())];
    let (exec, mitm) = rule(true, Some(vec!["*.example.com"]), vec![Action::LogReq]).into_exec(&derived);
    assert_eq!(mitm, vec!["*.example.com".to_string()]);
    assert_eq!(exec.filters.len(), 2);
    assert!(matches!(exec.actions[0], Action::LogReq));
    assert!(exec.url.is_none());
}

#[test]
fn without_mitm_list_filter_patterns_are_used() {
    let derived = vec![Some("*".to_string()), None];
    let (_exec, mitm) = rule(true, None, vec![]).into_exec(&derived);
    assert_eq!(mitm, vec!["*".to_string()]);
}

fn exec(actions: Vec<Action>) -> ExecRule {
    ExecRule { filters: vec![filter(FilterKind::DomainKeyword, "127.0.0.1")], actions, url: None }
}

#[test]
fn set_rules_then_get_rules_gives_them_back() {
    let mut handler = RuleHttpHandler::new(vec![]);
    assert!(handler.get_rules().is_empty());
    handler.set_rules(vec![exec(vec![Action::Reject]), exec(vec![Action::Redirect("http://b/".into())])]);
    let rules = handler.get_rules();
    assert_eq!(rules.len(), 2);
    assert!(matches!(&rules[1].actions[0], Action::Redirect(u) if u == "http://b/"));
    assert_eq!(rules[0].filters[0].value, "127.0.0.1");
}

#[test]
fn match_rules_keeps_rules_with_a_matching_filter_in_order() {
    let handler = RuleHttpHandler::new(vec![
        exec(vec![Action::LogReq]),
        exec(vec![Action::Reject]),
        exec(vec![Action::LogRes]),
    ]);
    let hit = handler.match_rules(&vec![vec![true], vec![false], vec![true]]);
    assert_eq!(hit.len(), 2);
    assert!(matches!(hit[0].actions[0], Action::LogReq));
    assert!(matches!(hit[1].actions[0], Action::LogRes));
}

#[test]
fn intercept_needs_an_intercept_action_and_a_matching_filter() {
    let handler = RuleHttpHandler::new(vec![exec(vec![Action::LogReq]), exec(vec![Action::Intercept])]);
    assert!(handler.matched_intercept(&vec![vec![false], vec![true]]));
    assert!(!handler.matched_intercept(&vec![vec![true], vec![false]]));
}

#[test]
fn mitm_hosts_are_trimmed_and_blank_ones_dropped() {
    let hosts = vec![" *.a.com ".to_string(), "".to_string(), "  ".to_string(), "b.com".to_string()];
    assert_eq!(normalize_mitm_hosts(hosts), vec!["*.a.com".to_string(), "b.com".to_string()]);
}

#[test]
fn saving_rules_converts_each_and_counts_them() {
    let rules = vec![
        rule(true, None, vec![Action::ModifyResponse(Modify { raw: "{}".into() })]),
        rule(false, None, vec![Action::Reject]),
    ];
    let derived = vec![vec![None, None], vec![None, None]];
    let plan = plan_rules_save(&rules, &derived, vec![" * ".to_string()]);
    assert_eq!(plan.count, 2);
    assert_eq!(plan.exec_rules[0].filters.len(), 2);
    assert!(plan.exec_rules[1].actions.is_empty());
    assert_eq!(plan.mitm_hosts, vec!["*".to_string()]);
}

#[test]
fn startup_uses_global_hosts_when_configured() {
    let cfg = vec!["*.a".to_string()];
    assert_eq!(startup_mitm_filters(true, &cfg, vec!["legacy".into()]), cfg);
    assert_eq!(startup_mitm_filters(false, &cfg, vec!["legacy".into()]), vec!["legacy".to_string()]);
}

#[test]
fn rule_entry_and_context_defaults() {
    let r = rule(false, None, vec![]);
    let e = RuleEntry::of_rule(&r, "{\"name\":\"r\"}".to_string());
    assert_eq!(e.name, "r");
    assert!(!e.enabled);
    let ctx = RuleHandlerCtx::default();
    assert_eq!(ctx.request_id, 0);
    assert!(ctx.rules.is_empty());
}

#[test]
fn loading_rules_collects_their_mitm_hosts_in_order() {
    let rules = vec![
        rule(true, Some(vec!["a.com", "b.com"]), vec![Action::LogReq]),
        rule(false, Some(vec!["c.com"]), vec![Action::Reject]),
        rule(true, None, vec![Action::Intercept]),
    ];
    let derived = vec![
        vec![Some("*".to_string()), None],
        vec![None, None],
        vec![None, Some("*.example.com".to_string())],
    ];
    let (exec, hosts) = flowly_gui::rules::load_rules(rules, &derived);
    assert_eq!(exec.len(), 3);
    assert_eq!(exec[0].filters.len(), 2);
    assert!(exec[1].filters.is_empty() && exec[1].actions.is_empty());
    assert!(matches!(exec[2].actions[0], Action::Intercept));
    assert_eq!(hosts, vec!["a.com", "b.com", "*.example.com"]);
}

#[test]
fn rules_are_enabled_unless_they_say_otherwise() {
    assert!(flowly_gui::rules::default_enabled());
}

#[test]
fn accept_encoding_is_removed_from_engine_requests() {
    let headers = vec![
        ("Host".to_string(), "a.com".to_string()),
        ("Accept-Encoding".to_string(), "gzip".to_string()),
        ("accept-encoding".to_string(), "br".to_string()),
        ("Accept".to_string(), "*/*".to_string()),
    ];
    let kept = flowly_gui::rules::engine_request_headers(headers);
    assert_eq!(
        kept,
        vec![("Host".to_string(), "a.com".to_string()), ("Accept".to_string(), "*/*".to_string())]
    );
}

#[test]
fn responses_get_the_hit_rules_only_when_handled() {
    let mut ctx = RuleHandlerCtx::default();
    ctx.rules.push(exec(vec![Action::LogRes]));
    assert_eq!(ctx.response_rules(true).len(), 1);
    assert!(ctx.response_rules(false).is_empty());
    assert!(RuleHandlerCtx::default().response_rules(true).is_empty());
}

#[test]
fn the_request_loop_applies_hit_rules_in_order_until_one_answers() {
    let h = RuleHttpHandler::new(vec![exec(vec![Action::LogReq]), exec(vec![Action::Reject]), exec(vec![Action::LogRes])]);
    let matches = vec![vec![true], vec![false], vec![true]];
    let mut run = RuleRun::start(&h, &matches);
    assert!(run.should_modify_response());
    let mut ctx = RuleHandlerCtx::default();
    assert!(matches!(run.next(&mut ctx, false), RuleAction::Apply(r) if matches!(r.actions[0], Action::LogReq)));
    assert_eq!(ctx.rules.len(), 1);
    assert!(matches!(run.next(&mut ctx, false), RuleAction::Apply(r) if matches!(r.actions[0], Action::LogRes)));
    assert_eq!(ctx.rules.len(), 2);
    assert!(matches!(run.next(&mut ctx, false), RuleAction::Forward));
    assert!(matches!(run.next(&mut ctx, true), RuleAction::Answered));
    assert_eq!(ctx.rules.len(), 2);

    let mut none = RuleRun::start(&h, &vec![vec![false], vec![false], vec![false]]);
    assert!(!none.should_modify_response());
    assert!(matches!(none.next(&mut ctx, false), RuleAction::Forward));
}
