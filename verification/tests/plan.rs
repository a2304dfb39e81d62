use aaos::json::Json;
use aaos::plan::escalation::{
    carry_tiers_forward, decide_escalation, default_escalation_signals, signals_for_subtask,
    EscalationSignal, FailedSubtask,
};
use aaos::plan::hops::apply_depth_to_hops;
use aaos::plan::placeholders::Substitutions;
use aaos::plan::planner::{
    accept_plan, apply_ttl_fallback, build_prompt, default_task_ttl_with_env, extract_json,
    response_json, truncate, validate_plan_structure, PlannerError,
};
use aaos::plan::role::{
    default_role_priority, ParameterSchema, ParameterType, Role, RoleBudget, RoleCatalog,
    RoleRetry,
};
use aaos::audit::{AuditEvent, AuditEventKind};
use aaos::llm::ContentBlock;
use aaos::plan::{topo_batches, Plan, Subtask};
use aaos::table::Table;
use aaos::types::{AgentId, Span, TaskTtl};

fn t(s: &str) -> Json {
    Json::Text(s.to_string())
}

fn obj(fields: Vec<(&str, Json)>) -> Json {
    Json::Object(fields.into_iter().map(|(k, v)| (k.to_string(), v)).collect())
}

fn empty() -> Json {
    obj(vec![])
}

fn subtask(id: &str, deps: &[&str]) -> Subtask {
    Subtask {
        id: id.into(),
        role: "role".into(),
        params: empty(),
        depends_on: deps.iter().map(|s| s.to_string()).collect(),
        ttl: None,
        current_model_tier: 0,
    }
}

fn with_role(id: &str, role: &str) -> Subtask {
    let mut s = subtask(id, &[]);
    s.role = role.into();
    s
}

fn with_ttl(id: &str, deps: &[&str], ttl: TaskTtl) -> Subtask {
    let mut s = subtask(id, deps);
    s.ttl = Some(ttl);
    s
}

fn plan_of(ss: Vec<Subtask>) -> Plan {
    Plan { subtasks: ss, final_output: "/out".into() }
}

fn schema(param_type: ParameterType) -> ParameterSchema {
    ParameterSchema { param_type, required: true, description: "".into() }
}

fn catalog_with_fetcher() -> RoleCatalog {
    let mut parameters = Table::new();
    parameters.insert("url".to_string(), schema(ParameterType::String));
    parameters.insert("workspace".to_string(), schema(ParameterType::Path));
    let r = Role {
        name: "fetcher".into(),
        model: "deepseek-chat".into(),
        parameters,
        capabilities: vec![],
        system_prompt: "fetcher".into(),
        message_template: "fetch {url} to {workspace}".into(),
        budget: RoleBudget { max_input_tokens: 20000, max_output_tokens: 2000 },
        retry: RoleRetry { max_attempts: 1, on: vec![] },
        priority: 128,
        model_ladder: vec![],
        escalate_on: default_escalation_signals(),
        scaffold: None,
    };
    let mut cat = RoleCatalog::new();
    cat.roles_mut().insert("fetcher".into(), r);
    cat
}

// Escalation.

#[test]
fn default_set_contains_all_three() {
    let defaults = default_escalation_signals();
    assert_eq!(defaults.len(), 3);
    assert!(defaults.contains(&EscalationSignal::ReplanRetry));
    assert!(defaults.contains(&EscalationSignal::ToolRepeatGuard));
    assert!(defaults.contains(&EscalationSignal::MaxTokens));
}

#[test]
fn ladder_too_short_returns_none() {
    let f = FailedSubtask {
        subtask_id: "a".into(),
        role: "writer".into(),
        observed_signals: vec![EscalationSignal::ReplanRetry],
    };
    assert_eq!(decide_escalation(&f, &default_escalation_signals(), 1, 0), None);
}

#[test]
fn top_of_ladder_returns_none() {
    let f = FailedSubtask {
        subtask_id: "a".into(),
        role: "writer".into(),
        observed_signals: vec![EscalationSignal::ReplanRetry],
    };
    // Ladder len 2, already at tier 1 (top).
    assert_eq!(decide_escalation(&f, &default_escalation_signals(), 2, 1), None);
}

#[test]
fn replan_retry_wins_over_tool_repeat_when_both_fired() {
    let f = FailedSubtask {
        subtask_id: "a".into(),
        role: "writer".into(),
        observed_signals: vec![EscalationSignal::ToolRepeatGuard, EscalationSignal::ReplanRetry],
    };
    assert_eq!(
        decide_escalation(&f, &default_escalation_signals(), 2, 0),
        Some(EscalationSignal::ReplanRetry)
    );
}

#[test]
fn configured_off_signal_does_not_fire() {
    let f = FailedSubtask {
        subtask_id: "a".into(),
        role: "writer".into(),
        observed_signals: vec![EscalationSignal::ReplanRetry],
    };
    // Only MaxTokens is configured; ReplanRetry not listed.
    assert_eq!(decide_escalation(&f, &[EscalationSignal::MaxTokens], 2, 0), None);
}

#[test]
fn max_tokens_comes_before_tool_repeat() {
    let f = FailedSubtask {
        subtask_id: "a".into(),
        role: "writer".into(),
        observed_signals: vec![EscalationSignal::ToolRepeatGuard, EscalationSignal::MaxTokens],
    };
    assert_eq!(
        decide_escalation(&f, &default_escalation_signals(), 3, 1),
        Some(EscalationSignal::MaxTokens)
    );
}

#[test]
fn signals_have_their_names() {
    assert_eq!(EscalationSignal::ReplanRetry.reason(), "replan_retry");
    assert_eq!(EscalationSignal::ToolRepeatGuard.reason(), "tool_repeat_guard");
    assert_eq!(EscalationSignal::MaxTokens.reason(), "max_tokens");
}

#[test]
fn carry_tiers_forward_preserves_survivors_and_applies_bumps() {
    let mut a = with_role("a", "writer");
    a.current_model_tier = 1; // was tier 1
    let old = Plan { subtasks: vec![a, with_role("b", "writer")], final_output: "a".into() };
    let mut new_plan = Plan {
        subtasks: vec![
            with_role("a", "writer"), // survives
            with_role("b", "writer"), // survives, bumped
            with_role("c", "writer"), // brand new, stays at tier 0
        ],
        final_output: "c".into(),
    };

    let mut bumps = Table::new();
    bumps.insert("b".to_string(), 1u8);

    carry_tiers_forward(&mut new_plan, &old, &bumps);

    // "a" inherits its previous tier (1)
    assert_eq!(new_plan.subtasks[0].current_model_tier, 1);
    // "b" applies the bump (1), ignoring its previous tier
    assert_eq!(new_plan.subtasks[1].current_model_tier, 1);
    // "c" is brand new, stays at tier 0
    assert_eq!(new_plan.subtasks[2].current_model_tier, 0);
}

#[test]
fn signals_are_read_from_the_events_of_a_subtask() {
    let me = AgentId { uuid: 1 };
    let other = AgentId { uuid: 2 };
    let events = vec![
        AuditEvent::new(
            me,
            AuditEventKind::AgentExecutionCompleted {
                stop_reason: "MaxTokens".into(),
                total_iterations: 3,
            },
        ),
        AuditEvent::new(
            me,
            AuditEventKind::ToolRepeatGuardFired {
                agent_id: other,
                tool: "file_read".into(),
                attempt_count: 3,
            },
        ),
        AuditEvent::new(
            other,
            AuditEventKind::SubtaskCompleted { subtask_id: "s".into(), success: false },
        ),
        AuditEvent::new(
            other,
            AuditEventKind::SubtaskCompleted { subtask_id: "s".into(), success: false },
        ),
        AuditEvent::new(
            other,
            AuditEventKind::SubtaskCompleted { subtask_id: "x".into(), success: true },
        ),
    ];
    assert_eq!(
        signals_for_subtask("s", &[me], &events),
        vec![EscalationSignal::MaxTokens, EscalationSignal::ReplanRetry]
    );
    assert_eq!(
        signals_for_subtask("x", &[other], &events),
        vec![EscalationSignal::ToolRepeatGuard]
    );
}

// Batches.

#[test]
fn single_task_single_batch() {
    let p = plan_of(vec![subtask("a", &[])]);
    let b = topo_batches(&p).unwrap();
    assert_eq!(b.len(), 1);
    assert_eq!(b[0].len(), 1);
    assert_eq!(b[0][0].id, "a");
}

#[test]
fn two_independent_same_batch() {
    let p = plan_of(vec![subtask("b", &[]), subtask("a", &[])]);
    let b = topo_batches(&p).unwrap();
    assert_eq!(b.len(), 1);
    assert_eq!(b[0].len(), 2);
    assert_eq!(b[0][0].id, "a");
    assert_eq!(b[0][1].id, "b");
}

#[test]
fn linear_chain_separate_batches() {
    let p = plan_of(vec![subtask("c", &["b"]), subtask("b", &["a"]), subtask("a", &[])]);
    let b = topo_batches(&p).unwrap();
    assert_eq!(b.len(), 3);
    assert_eq!(b[0][0].id, "a");
    assert_eq!(b[1][0].id, "b");
    assert_eq!(b[2][0].id, "c");
}

#[test]
fn fan_in_structure() {
    // Two fetchers, then one writer depending on both.
    let p = plan_of(vec![
        subtask("write", &["hn", "lob"]),
        subtask("hn", &[]),
        subtask("lob", &[]),
    ]);
    let b = topo_batches(&p).unwrap();
    assert_eq!(b.len(), 2);
    assert_eq!(b[0].len(), 2); // parallel fetchers
    assert_eq!(b[1].len(), 1); // writer
    assert_eq!(b[1][0].id, "write");
}

#[test]
fn unknown_dependency_errors() {
    let p = plan_of(vec![subtask("a", &["ghost"])]);
    let err = topo_batches(&p).unwrap_err();
    assert!(err.contains("unknown id"), "err: {}", err);
    assert!(err.contains("ghost"), "err: {}", err);
}

#[test]
fn cycle_errors() {
    let p = plan_of(vec![subtask("a", &["b"]), subtask("b", &["a"])]);
    let err = topo_batches(&p).unwrap_err();
    assert!(err.contains("cycle"), "err: {}", err);
}

#[test]
fn no_plan_no_batches() {
    assert_eq!(topo_batches(&plan_of(vec![])).unwrap().len(), 0);
}

// Placeholders.

#[test]
fn replaces_run_in_string() {
    let s = Substitutions::new("/var/lib/aaos/workspace/abc".to_string());
    assert_eq!(s.apply_str("{run}/hn.html"), "/var/lib/aaos/workspace/abc/hn.html");
}

#[test]
fn leaves_other_text_alone() {
    let s = Substitutions::new("/r".to_string());
    assert_eq!(s.apply_str("no placeholders here"), "no placeholders here");
}

#[test]
fn walks_nested_object_values() {
    let s = Substitutions::new("/r".to_string());
    let v = obj(vec![
        ("url", t("https://x.com")),
        ("workspace", t("{run}/x.html")),
        ("meta", obj(vec![("nested", t("{run}/nested"))])),
    ]);
    let out = s.apply(&v);
    assert_eq!(out.get_str("workspace").unwrap(), "/r/x.html");
    assert_eq!(out.get("meta").unwrap().get_str("nested").unwrap(), "/r/nested");
    assert_eq!(out.get_str("url").unwrap(), "https://x.com");
}

#[test]
fn walks_string_arrays() {
    let s = Substitutions::new("/r".to_string());
    let v = Json::Array(vec![t("{run}/a"), t("{run}/b"), t("static")]);
    let out = s.apply(&v);
    match out {
        Json::Array(items) => {
            assert_eq!(items[0].as_str().unwrap(), "/r/a");
            assert_eq!(items[1].as_str().unwrap(), "/r/b");
            assert_eq!(items[2].as_str().unwrap(), "static");
        }
        _ => panic!("an array stays an array"),
    }
}

#[test]
fn resolve_path_returns_pathbuf() {
    let s = Substitutions::new("/r".to_string());
    let p = s.resolve_path("{run}/out.json");
    assert_eq!(p, "/r/out.json");
}

// The planner.

#[test]
fn extract_json_from_pure_json() {
    let j = extract_json(r#"{"a":1}"#).unwrap();
    assert_eq!(j, r#"{"a":1}"#);
}

#[test]
fn extract_json_from_prose_wrapper() {
    let j = extract_json("Here's the plan:\n{\"a\":1}\nThat's it.").unwrap();
    assert_eq!(j, r#"{"a":1}"#);
}

#[test]
fn extract_json_takes_the_balanced_part() {
    assert_eq!(extract_json("x {\"a\":{\"b\":{}}} {}").unwrap(), "{\"a\":{\"b\":{}}}");
    assert!(extract_json("no braces").is_none());
    assert!(extract_json("{ never closed").is_none());
}

#[test]
fn truncate_keeps_short_text_and_marks_long_text() {
    assert_eq!(truncate("abc", 3), "abc");
    assert_eq!(truncate("abcd", 3), "abc...");
    assert_eq!(truncate("日本", 4), "日...");
}

#[test]
fn response_json_reads_the_first_text() {
    let blocks = vec![
        ContentBlock::ToolUse { id: "1".into(), name: "x".into(), input: Json::Null },
        ContentBlock::Text { text: "so: {\"subtasks\":[]}".into() },
    ];
    assert_eq!(response_json(&blocks).unwrap(), "{\"subtasks\":[]}");
    let none: Vec<ContentBlock> = vec![];
    assert!(matches!(response_json(&none), Err(PlannerError::Malformed(_))));
}

#[test]
fn validate_ok_on_good_plan() {
    let cat = catalog_with_fetcher();
    let p = plan_of(vec![with_role("a", "fetcher")]);
    assert!(validate_plan_structure(&p, &cat).is_ok());
}

#[test]
fn validate_rejects_unknown_role() {
    let cat = catalog_with_fetcher();
    let p = plan_of(vec![with_role("a", "wizard")]);
    let err = validate_plan_structure(&p, &cat).unwrap_err();
    assert!(matches!(err, PlannerError::Malformed(_)));
}

#[test]
fn validate_rejects_empty_subtasks() {
    let cat = catalog_with_fetcher();
    let p = plan_of(vec![]);
    assert!(validate_plan_structure(&p, &cat).is_err());
}

#[test]
fn validate_rejects_dup_id() {
    let cat = catalog_with_fetcher();
    let p = plan_of(vec![with_role("a", "fetcher"), with_role("a", "fetcher")]);
    assert!(validate_plan_structure(&p, &cat).is_err());
}

#[test]
fn default_ttl_from_env_populates_both_fields() {
    let ttl = default_task_ttl_with_env(Some("5".into()), Some("30".into()))
        .expect("both env vars set => Some(TaskTtl)");
    assert_eq!(ttl.max_hops, Some(5));
    assert_eq!(ttl.max_wall_clock, Some(Span::from_secs(30)));
}

#[test]
fn default_ttl_returns_none_when_no_env() {
    assert!(default_task_ttl_with_env(None, None).is_none());
}

#[test]
fn default_ttl_passes_over_what_is_no_number() {
    assert!(default_task_ttl_with_env(Some("five".into()), None).is_none());
    let ttl = default_task_ttl_with_env(Some("x".into()), Some("7".into())).unwrap();
    assert_eq!(ttl.max_hops, None);
    assert_eq!(ttl.max_wall_clock, Some(Span::from_secs(7)));
}

#[test]
fn apply_ttl_fallback_fills_only_missing_ttls() {
    let fallback = TaskTtl { max_hops: Some(5), max_wall_clock: Some(Span::from_secs(60)) };
    let explicit = TaskTtl { max_hops: Some(2), max_wall_clock: None };
    let mut plan = plan_of(vec![with_ttl("has_ttl", &[], explicit), subtask("no_ttl", &[])]);

    apply_ttl_fallback(&mut plan, Some(fallback));

    assert_eq!(plan.subtasks[0].ttl, Some(explicit), "explicit ttl must be preserved");
    assert_eq!(plan.subtasks[1].ttl, Some(fallback), "missing ttl must be filled");
}

#[test]
fn apply_ttl_fallback_with_none_is_noop() {
    let mut plan = plan_of(vec![subtask("no_ttl", &[])]);
    apply_ttl_fallback(&mut plan, None);
    assert!(plan.subtasks[0].ttl.is_none());
}

fn hops(n: u32) -> TaskTtl {
    TaskTtl { max_hops: Some(n), max_wall_clock: None }
}

fn hops_of(plan: &Plan, i: usize) -> Option<u32> {
    plan.subtasks[i].ttl.as_ref().unwrap().max_hops
}

#[test]
fn apply_depth_to_hops_chain_decrements_along_longest_path() {
    // A -> B -> C chain, max_hops=3 on all. Depths: 0, 1, 2. After
    // decrement: 3, 2, 1.
    let mut plan = plan_of(vec![
        with_ttl("a", &[], hops(3)),
        with_ttl("b", &["a"], hops(3)),
        with_ttl("c", &["b"], hops(3)),
    ]);
    apply_depth_to_hops(&mut plan);
    assert_eq!(hops_of(&plan, 0), Some(3));
    assert_eq!(hops_of(&plan, 1), Some(2));
    assert_eq!(hops_of(&plan, 2), Some(1));
}

#[test]
fn apply_depth_to_hops_saturates_at_zero() {
    // max_hops=1, chain of 3: C's depth=2 > 1, should saturate to 0.
    let mut plan = plan_of(vec![
        with_ttl("a", &[], hops(1)),
        with_ttl("b", &["a"], hops(1)),
        with_ttl("c", &["b"], hops(1)),
    ]);
    apply_depth_to_hops(&mut plan);
    assert_eq!(hops_of(&plan, 0), Some(1));
    assert_eq!(hops_of(&plan, 1), Some(0));
    assert_eq!(hops_of(&plan, 2), Some(0));
}

#[test]
fn apply_depth_to_hops_uses_longest_path_not_min() {
    // Diamond: A at 0, B depends on A (depth 1), C depends on A (depth 1),
    // D depends on B AND C (depth 2). max_hops=5 -> 5,4,4,3.
    let mut plan = plan_of(vec![
        with_ttl("a", &[], hops(5)),
        with_ttl("b", &["a"], hops(5)),
        with_ttl("c", &["a"], hops(5)),
        with_ttl("d", &["b", "c"], hops(5)),
    ]);
    apply_depth_to_hops(&mut plan);
    assert_eq!(hops_of(&plan, 0), Some(5));
    assert_eq!(hops_of(&plan, 1), Some(4));
    assert_eq!(hops_of(&plan, 2), Some(4));
    assert_eq!(hops_of(&plan, 3), Some(3));
}

#[test]
fn apply_depth_to_hops_leaves_none_ttl_untouched() {
    let mut plan = plan_of(vec![subtask("a", &[])]);
    apply_depth_to_hops(&mut plan);
    assert!(plan.subtasks[0].ttl.is_none());
}

#[test]
fn an_accepted_plan_has_its_ttls() {
    let cat = catalog_with_fetcher();
    let mut b = with_role("b", "fetcher");
    b.depends_on = vec!["a".to_string()];
    let p = plan_of(vec![with_role("a", "fetcher"), b]);
    let accepted = accept_plan(p, &cat, Some(hops(4))).unwrap();
    assert_eq!(hops_of(&accepted, 0), Some(4));
    assert_eq!(hops_of(&accepted, 1), Some(4));
    let bad = plan_of(vec![with_role("a", "wizard")]);
    assert!(accept_plan(bad, &cat, None).is_err());
}

#[test]
fn the_prompt_names_the_goal_and_the_roles() {
    let cat = catalog_with_fetcher();
    let prompt = build_prompt("read the news", &cat, None);
    assert!(prompt.contains("read the news"));
    assert!(prompt.contains("fetcher"));
    let again = build_prompt("read the news", &cat, Some(("{\"old\":1}", "it failed")));
    assert!(again.contains("{\"old\":1}"));
    assert!(again.contains("it failed"));
}

#[test]
fn roles_have_a_middle_priority() {
    assert_eq!(default_role_priority(), 128);
}
