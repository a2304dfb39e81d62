use aaos::audit::{AuditEvent, AuditEventKind};
use aaos::error::CoreError;
use aaos::json::Json;
use aaos::plan::escalation::{
    bump_tiers, default_escalation_signals, escalate, EscalationSignal,
};
use aaos::plan::executor::{
    check_deadline, check_declared_outputs_exist, conclude_subtask, declared_outputs,
    failed_subtasks, fallback_generalist_plan, first_plan, prepare_subtask, schedule_plan,
    ExecutorError, Launch, PlanRun, RunProgress, SubtaskExecutorOverrides, SubtaskOutcome, Verdict,
    MAX_REPLANS, TOTAL_DEADLINE_SECS, TTL_WALL_CLOCK_SENTINEL,
};
use aaos::plan::placeholders::Substitutions;
use aaos::plan::planner::PlannerError;
use aaos::plan::role::{
    ParameterSchema, ParameterType, Role, RoleBudget, RoleCatalog, RoleRetry, RoleScaffold,
};
use aaos::plan::{Plan, PlanResult, Subtask, SubtaskResult};
use aaos::table::Table;
use aaos::types::{AgentId, Span, TaskTtl};

fn t(s: &str) -> Json {
    Json::Text(s.to_string())
}

fn obj(fields: Vec<(&str, Json)>) -> Json {
    Json::Object(fields.into_iter().map(|(k, v)| (k.to_string(), v)).collect())
}

fn role(name: &str, params: Vec<(&str, ParameterType)>, capabilities: &[&str], template: &str) -> Role {
    let mut parameters = Table::new();
    for (n, param_type) in params {
        parameters.insert(
            n.to_string(),
            ParameterSchema { param_type, required: true, description: "".into() },
        );
    }
    Role {
        name: name.into(),
        model: "deepseek-chat".into(),
        parameters,
        capabilities: capabilities.iter().map(|s| s.to_string()).collect(),
        system_prompt: "x".into(),
        message_template: template.into(),
        budget: RoleBudget { max_input_tokens: 1000, max_output_tokens: 500 },
        retry: RoleRetry { max_attempts: 1, on: vec![] },
        priority: 128,
        model_ladder: vec![],
        escalate_on: default_escalation_signals(),
        scaffold: None,
    }
}

fn catalog_of(r: Role) -> RoleCatalog {
    let mut cat = RoleCatalog::new();
    assert!(cat.take_in(r, "role.yaml").is_ok());
    cat
}

fn fetcher() -> Role {
    role(
        "fetcher",
        vec![("url", ParameterType::String), ("workspace", ParameterType::Path)],
        &[],
        "fetch {url} to {workspace}",
    )
}

fn fetcher_catalog() -> RoleCatalog {
    catalog_of(fetcher())
}

fn generalist_catalog() -> RoleCatalog {
    catalog_of(role(
        "generalist",
        vec![("task_description", ParameterType::String)],
        &[],
        "{task_description}",
    ))
}

fn reporter_catalog() -> RoleCatalog {
    // Role that declares a single-path output via `file_write: {report}`.
    catalog_of(role(
        "reporter",
        vec![("report", ParameterType::Path)],
        &["file_write: {report}", "file_write: {report}/*", "file_write: /tmp/x", "tool: echo"],
        "write a report to {report}",
    ))
}

fn task(id: &str, role: &str, params: Json, deps: &[&str], ttl: Option<TaskTtl>) -> Subtask {
    Subtask {
        id: id.into(),
        role: role.into(),
        params,
        depends_on: deps.iter().map(|d| d.to_string()).collect(),
        ttl,
        current_model_tier: 0,
    }
}

fn fetch(id: &str, url: &str, file: &str) -> Subtask {
    task(id, "fetcher", obj(vec![("url", t(url)), ("workspace", t(file))]), &[], None)
}

fn plan(subtasks: Vec<Subtask>) -> Plan {
    Plan { subtasks, final_output: "/out".into() }
}

fn ok(id: &str) -> SubtaskResult {
    SubtaskResult {
        subtask_id: id.into(),
        agent_id: AgentId { uuid: 77 },
        response: "ok".into(),
        input_tokens: 10,
        output_tokens: 5,
    }
}

fn subs() -> Substitutions {
    Substitutions::new("/run/1".into())
}

// Executes a plan with a runner and a file system.
fn execute(
    plan: Plan,
    catalog: &RoleCatalog,
    runner: &dyn Fn(&str) -> Result<SubtaskResult, CoreError>,
    on_disk: &dyn Fn(&str) -> bool,
) -> (Result<PlanResult, ExecutorError>, Vec<AuditEvent>) {
    let mut log = Vec::new();
    let subs = subs();
    let batches = match schedule_plan(&plan, catalog, &subs) {
        Ok(b) => b,
        Err(e) => return (Err(e), log),
    };
    let mut run = PlanRun::begin(batches);
    loop {
        let mut outcomes = Vec::new();
        match run.pending() {
            None => break,
            Some(batch) => {
                for s in batch {
                    let (launch, mut events) = prepare_subtask(catalog, s, &subs, false);
                    log.append(&mut events);
                    let done = match launch {
                        Launch::Refused(e) => Err(e),
                        Launch::Scaffold { .. } => panic!("no scaffolds here"),
                        Launch::Agent { .. } => {
                            let (r, mut events) = conclude_subtask(&s.id, runner(&s.id));
                            log.append(&mut events);
                            r
                        }
                    };
                    outcomes.push(match done {
                        Err(e) => SubtaskOutcome::Failed(e),
                        Ok(r) => {
                            let outputs = declared_outputs(catalog, s, &subs);
                            let there = outputs.iter().map(|o| on_disk(&o.0)).collect();
                            match check_declared_outputs_exist(&outputs, &there) {
                                None => SubtaskOutcome::Done(r),
                                Some(m) => SubtaskOutcome::NoOutput(r, m),
                            }
                        }
                    });
                }
            }
        }
        let (settled, mut events) = run.settle(outcomes);
        log.append(&mut events);
        if let Err(e) = settled {
            assert!(run.pending().is_none());
            return (Err(e), log);
        }
    }
    (Ok(run.finish(plan)), log)
}

fn always(id: &str) -> Result<SubtaskResult, CoreError> {
    Ok(ok(id))
}

fn nowhere(_: &str) -> bool {
    false
}

fn started(log: &[AuditEvent], id: &str) -> usize {
    log.iter()
        .filter(|e| matches!(&e.event, AuditEventKind::SubtaskStarted { subtask_id, .. }
            if subtask_id == id))
        .count()
}

fn completed(log: &[AuditEvent], id: &str, how: bool) -> bool {
    log.iter().any(|e| matches!(&e.event, AuditEventKind::SubtaskCompleted { subtask_id, success }
        if subtask_id == id && *success == how))
}

fn expired(log: &[AuditEvent], id: &str, why: &str) -> usize {
    log.iter()
        .filter(|e| matches!(&e.event, AuditEventKind::SubtaskTtlExpired { subtask_id, reason }
            if subtask_id == id && reason == why))
        .count()
}

#[test]
fn execute_plan_returns_correctable_for_unknown_role() {
    let bad = plan(vec![task("a", "wizard", obj(vec![]), &[], None)]);
    let (r, _) = execute(bad, &fetcher_catalog(), &always, &nowhere);
    match r.unwrap_err() {
        ExecutorError::Correctable(m) => assert_eq!(m, "unknown role: wizard"),
        other => panic!("expected Correctable, got {other:?}"),
    }
}

#[test]
fn execute_plan_returns_correctable_for_bad_params() {
    let bad =
        plan(vec![task("a", "fetcher", obj(vec![("url", t("https://x.com"))]), &[], None)]);
    let (r, log) = execute(bad, &fetcher_catalog(), &always, &nowhere);
    assert!(matches!(r, Err(ExecutorError::Correctable(_))));
    assert!(log.is_empty());
}

#[test]
fn execute_plan_walks_dag_with_runner() {
    let p = plan(vec![
        fetch("hn", "https://news.ycombinator.com/", "{run}/hn.html"),
        fetch("lob", "https://lobste.rs/", "{run}/lob.html"),
    ]);
    let (r, log) = execute(p, &fetcher_catalog(), &always, &nowhere);
    let r = r.unwrap();
    assert_eq!(r.results.len(), 2);
    assert_eq!(r.final_output, "/out");
    assert_eq!(started(&log, "hn") + started(&log, "lob"), 2);
    assert!(completed(&log, "hn", true) && completed(&log, "lob", true));
}

#[test]
fn fallback_plan_targets_generalist() {
    let fb = fallback_generalist_plan("do the thing", &generalist_catalog()).unwrap();
    assert_eq!(fb.subtasks.len(), 1);
    assert_eq!(fb.subtasks[0].role, "generalist");
    assert_eq!(fb.subtasks[0].params.get_str("task_description").unwrap(), "do the thing");
}

#[test]
fn fallback_errors_when_generalist_missing() {
    let cat = fetcher_catalog(); // no generalist role
    assert!(fallback_generalist_plan("do it", &cat).is_err());
}

#[test]
fn subtask_failure_surfaces_as_correctable_with_context() {
    let p = plan(vec![fetch("hn", "https://example.invalid/", "{run}/hn.html")]);
    let fail = |_: &str| Err(CoreError::Ipc("HTTP 404".into()));
    let (r, _) = execute(p, &fetcher_catalog(), &fail, &nowhere);
    match r.unwrap_err() {
        ExecutorError::Correctable(msg) => {
            assert!(msg.contains("subtask 'hn'"), "got: {}", msg);
            assert!(msg.contains("role 'fetcher'"), "got: {}", msg);
            assert!(msg.contains("HTTP 404"), "got: {}", msg);
        }
        other => panic!("expected Correctable, got {:?}", other),
    }
}

#[test]
fn declared_output_missing_fails_subtask() {
    let p = plan(vec![task("r", "reporter", obj(vec![("report", t("{run}/report.md"))]), &[], None)]);
    let (r, log) = execute(p, &reporter_catalog(), &always, &nowhere);
    match r.unwrap_err() {
        ExecutorError::Correctable(msg) => {
            assert!(msg.contains("did not produce"), "got: {msg}");
            assert!(msg.contains("{report}"), "got: {msg}");
            assert!(msg.contains("/run/1/report.md"), "got: {msg}");
        }
        other => panic!("expected Correctable, got {:?}", other),
    }
    assert!(completed(&log, "r", false));
    assert_eq!(log.last().unwrap().agent_id.uuid, 77);
}

#[test]
fn declared_output_present_passes_subtask() {
    let p = plan(vec![task("r", "reporter", obj(vec![("report", t("{run}/report.md"))]), &[], None)]);
    let written = |path: &str| path == "/run/1/report.md";
    let (r, _) = execute(p, &reporter_catalog(), &always, &written);
    assert!(r.is_ok());
}

#[test]
fn failed_subtask_emits_subtask_completed_success_false() {
    let p = plan(vec![fetch("a", "https://x/", "{run}/a.html")]);
    let fail = |_: &str| Err(CoreError::Ipc("boom".into()));
    let (_, log) = execute(p, &fetcher_catalog(), &fail, &nowhere);
    assert!(completed(&log, "a", false));
}

#[test]
fn parallel_batch_one_failure_preserves_sibling_audit() {
    let p = plan(vec![
        fetch("good", "https://ok/", "{run}/good.html"),
        fetch("bad", "https://fail/", "{run}/bad.html"),
    ]);
    let runner = |id: &str| {
        if id == "bad" {
            Err(CoreError::Ipc("HTTP 500".into()))
        } else {
            Ok(ok(id))
        }
    };
    let (r, log) = execute(p, &fetcher_catalog(), &runner, &nowhere);
    assert!(matches!(r, Err(ExecutorError::Correctable(_))));
    assert!(completed(&log, "good", true), "expected success event for 'good'");
    assert!(completed(&log, "bad", false), "expected failure event for 'bad'");
}

#[test]
fn run_replans_after_subtask_failure_and_succeeds() {
    let cat = fetcher_catalog();
    let runner = |id: &str| {
        if id == "try1" {
            Err(CoreError::Ipc("HTTP 404".into()))
        } else {
            Ok(ok(id))
        }
    };
    let mut progress = RunProgress::start(MAX_REPLANS);
    let first = first_plan(
        "fetch something",
        &cat,
        Ok(plan(vec![fetch("try1", "https://fail/", "{run}/a.html")])),
    )
    .unwrap();
    let (r, _) = execute(first, &cat, &runner, &nowhere);
    let (verdict, events) = progress.judge(r, 1);
    assert!(matches!(verdict, Verdict::Replan(reason) if reason.contains("HTTP 404")));
    assert!(matches!(&events[0].event, AuditEventKind::PlanReplanned { .. }));

    let second = plan(vec![fetch("try2", "https://ok/", "{run}/a.html")]);
    let (r, _) = execute(second, &cat, &runner, &nowhere);
    let (verdict, events) = progress.judge(r, 1);
    match verdict {
        Verdict::Finish(result) => {
            assert_eq!(result.results.len(), 1);
            assert!(result.results.contains("try2"));
        }
        _ => panic!("run should succeed via replan"),
    }
    assert!(matches!(&events[0].event,
        AuditEventKind::PlanProduced { subtask_count: 1, replans_used: 1 }));
}

#[test]
fn replans_run_out() {
    let mut progress = RunProgress::start(MAX_REPLANS);
    for _ in 0..3 {
        let (v, _) = progress.judge(Err(ExecutorError::Correctable("again".into())), 1);
        assert!(matches!(v, Verdict::Replan(_)));
    }
    let (v, events) = progress.judge(Err(ExecutorError::Correctable("again".into())), 1);
    assert!(matches!(v, Verdict::GiveUp(ExecutorError::Correctable(_))));
    assert!(events.is_empty());
    // What no plan can mend is not tried again.
    let mut fresh = RunProgress::start(MAX_REPLANS);
    let (v, _) = fresh.judge(Err(ExecutorError::Terminal(CoreError::Ipc("x".into()))), 1);
    assert!(matches!(v, Verdict::GiveUp(ExecutorError::Terminal(_))));
    assert_eq!(fresh.replans_used, 0);
}

#[test]
fn hop_exhaustion_fails_subtask_before_launch() {
    let params = obj(vec![("url", t("https://x.com")), ("workspace", t("/tmp/x"))]);
    let ttl = TaskTtl { max_hops: Some(0), max_wall_clock: None };
    let p = plan(vec![task("expired", "fetcher", params, &[], Some(ttl))]);
    let (r, log) = execute(p, &fetcher_catalog(), &always, &nowhere);
    assert!(matches!(r, Err(ExecutorError::Correctable(_))));
    assert_eq!(expired(&log, "expired", "hops_exhausted"), 1);
    assert_eq!(started(&log, "expired"), 0);
}

#[test]
fn wall_clock_expiry_kills_running_subtask() {
    let params = obj(vec![("url", t("https://x.com")), ("workspace", t("/tmp/x"))]);
    let ttl = TaskTtl { max_hops: None, max_wall_clock: Some(Span::from_millis(500)) };
    let p = plan(vec![task("slow", "fetcher", params, &[], Some(ttl))]);
    let late = |_: &str| Err(CoreError::Ipc(TTL_WALL_CLOCK_SENTINEL.into()));
    let (r, log) = execute(p, &fetcher_catalog(), &late, &nowhere);
    match r {
        Err(ExecutorError::Correctable(m)) => assert!(m.contains("exceeded wall-clock TTL")),
        _ => panic!("wall-clock expiry must fail the plan"),
    }
    assert_eq!(expired(&log, "slow", "wall_clock_exceeded"), 1);
}

#[test]
fn dependent_cascades_after_wall_clock_expiry() {
    let params = |u: &str, w: &str| obj(vec![("url", t(u)), ("workspace", t(w))]);
    let ttl = TaskTtl { max_hops: None, max_wall_clock: Some(Span::from_millis(500)) };
    let p = plan(vec![
        task("slow", "fetcher", params("https://x.com", "/tmp/x"), &[], Some(ttl)),
        task("dependent", "fetcher", params("https://y.com", "/tmp/y"), &["slow"], None),
    ]);
    let runner = |id: &str| {
        if id == "slow" {
            Err(CoreError::Ipc(TTL_WALL_CLOCK_SENTINEL.into()))
        } else {
            Ok(ok(id))
        }
    };
    let (_, log) = execute(p, &fetcher_catalog(), &runner, &nowhere);
    assert_eq!(
        started(&log, "dependent"),
        0,
        "dependent must not launch after its dep failed via TTL"
    );
}

#[test]
fn agents_are_launched_with_what_their_role_says() {
    let mut r = fetcher();
    r.model_ladder = vec!["deepseek-chat".into(), "deepseek-reasoner".into()];
    let cat = catalog_of(r);
    let mut s = fetch("a", "https://x/", "{run}/a.html");
    match prepare_subtask(&cat, &s, &subs(), false).0 {
        Launch::Agent { manifest, message, overrides } => {
            assert_eq!(message, "fetch https://x/ to /run/1/a.html");
            assert!(manifest.contains("deepseek-chat"));
            assert_eq!(
                overrides,
                SubtaskExecutorOverrides { max_output_tokens: 500, max_iterations: 11 }
            );
        }
        other => panic!("an agent is to be launched: {other:?}"),
    }
    s.current_model_tier = 1;
    match prepare_subtask(&cat, &s, &subs(), false).0 {
        Launch::Agent { manifest, .. } => assert!(manifest.contains("deepseek-reasoner")),
        other => panic!("an agent is to be launched: {other:?}"),
    }
    let default = SubtaskExecutorOverrides::default();
    assert_eq!((default.max_output_tokens, default.max_iterations), (16_384, 50));
}

#[test]
fn scaffolds_need_their_runner() {
    let mut r = fetcher();
    r.scaffold = Some(RoleScaffold { kind: "fetcher".into() });
    let cat = catalog_of(r);
    let s = fetch("a", "https://x/", "{run}/a.html");
    match prepare_subtask(&cat, &s, &subs(), true).0 {
        Launch::Scaffold { kind, params } => {
            assert_eq!(kind, "fetcher");
            assert_eq!(params.get_str("workspace").unwrap(), "/run/1/a.html");
        }
        other => panic!("a scaffold is to be run: {other:?}"),
    }
    match prepare_subtask(&cat, &s, &subs(), false).0 {
        Launch::Agent { manifest, message, .. } => {
            assert!(manifest.contains("name: fetcher"), "manifest: {manifest}");
            assert_eq!(message, "fetch https://x/ to /run/1/a.html");
        }
        other => panic!("an agent does the work: {other:?}"),
    }
}

#[test]
fn planners_that_fail_are_told_apart() {
    let cat = generalist_catalog();
    let p = first_plan("goal", &cat, Err(PlannerError::Malformed("no json".into()))).unwrap();
    assert_eq!(p.subtasks[0].id, "generalist");
    let e = first_plan("goal", &cat, Err(PlannerError::LlmCall("down".into()))).unwrap_err();
    assert_eq!(e.message(), "terminal: planner LLM: down");
    let e = ExecutorError::from_planner(PlannerError::Malformed("no json".into()));
    assert_eq!(e.message(), "planner-correctable: no json");
}

#[test]
fn dependencies_are_checked_before_roles() {
    let cat = fetcher_catalog();
    let nobodys = |id: &str, deps: &[&str]| task(id, "nobody", obj(vec![]), deps, None);
    let fault = |p: Plan| schedule_plan(&p, &cat, &subs()).unwrap_err().message();
    assert_eq!(
        fault(plan(vec![nobodys("a", &["x"])])),
        "planner-correctable: subtask 'a' depends on unknown id 'x'"
    );
    assert_eq!(
        fault(plan(vec![nobodys("a", &["b"]), nobodys("b", &["a"])])),
        "planner-correctable: dependency cycle among: a, b"
    );
    assert_eq!(fault(plan(vec![nobodys("a", &[])])), "planner-correctable: unknown role: nobody");
}

#[test]
fn failed_subtasks_move_up_the_ladder() {
    let mut r = fetcher();
    r.model_ladder = vec!["deepseek-chat".into(), "stronger".into()];
    let cat = catalog_of(r);
    let first = plan(vec![fetch("a", "u", "{run}/a"), fetch("b", "u", "{run}/b")]);
    let outcomes = vec![
        SubtaskOutcome::Done(ok("a")),
        SubtaskOutcome::Failed(ExecutorError::Correctable("no".into())),
    ];
    let failed = failed_subtasks(&first.subtasks, &outcomes, &vec![]);
    assert_eq!(failed.len(), 1);
    assert_eq!((failed[0].subtask_id.as_str(), failed[0].role.as_str()), ("b", "fetcher"));
    assert_eq!(failed[0].observed_signals, vec![EscalationSignal::ReplanRetry]);
    let bumps = bump_tiers(&failed, &first, &cat);
    assert_eq!(bumps.get("b"), Some(&1));
    assert!(bumps.get("a").is_none());

    let again = || {
        vec![fetch("b", "u", "{run}/b"), fetch("a", "u", "{run}/a"), fetch("c", "u", "{run}/c")]
    };
    let mut second = plan(again());
    escalate(&mut second, &first, &failed, &cat);
    let tiers: Vec<u8> = second.subtasks.iter().map(|s| s.current_model_tier).collect();
    assert_eq!(tiers, vec![1, 0, 0]);
    match prepare_subtask(&cat, &second.subtasks[0], &subs(), false).0 {
        Launch::Agent { manifest, .. } => assert!(manifest.contains("model: stronger")),
        other => panic!("an agent does the work: {other:?}"),
    }

    // There is no rung above the last one.
    let mut third = plan(again());
    escalate(&mut third, &second, &failed, &cat);
    let tiers: Vec<u8> = third.subtasks.iter().map(|s| s.current_model_tier).collect();
    assert_eq!(tiers, vec![1, 0, 0]);
}

#[test]
fn signals_that_a_role_does_not_name_move_nothing() {
    let mut r = fetcher();
    r.model_ladder = vec!["deepseek-chat".into(), "stronger".into()];
    r.escalate_on = vec![EscalationSignal::MaxTokens];
    let cat = catalog_of(r);
    let p = plan(vec![fetch("a", "u", "{run}/a")]);
    let failure = || vec![SubtaskOutcome::NoOutput(ok("a"), "'x' was not written".into())];
    let failed = failed_subtasks(&p.subtasks, &failure(), &vec![]);
    assert!(bump_tiers(&failed, &p, &cat).get("a").is_none());
    let seen = vec![AuditEvent::new(
        AgentId { uuid: 77 },
        AuditEventKind::AgentExecutionCompleted {
            stop_reason: "MaxTokens".into(),
            total_iterations: 3,
        },
    )];
    let failed = failed_subtasks(&p.subtasks, &failure(), &seen);
    assert_eq!(
        failed[0].observed_signals,
        vec![EscalationSignal::MaxTokens, EscalationSignal::ReplanRetry]
    );
    assert_eq!(bump_tiers(&failed, &p, &cat).get("a"), Some(&1));
}

#[test]
fn time_runs_out() {
    let total = Span::from_secs(TOTAL_DEADLINE_SECS);
    assert!(check_deadline(total, total).is_ok());
    let over = Span { secs: TOTAL_DEADLINE_SECS, nanos: 1 };
    assert_eq!(
        check_deadline(over, total).unwrap_err().message(),
        "terminal: planner deadline exhausted"
    );
}

#[test]
fn only_files_that_parameters_name_are_declared() {
    let s = task("r", "reporter", obj(vec![("report", t("{run}/r.md"))]), &[], None);
    assert_eq!(
        declared_outputs(&reporter_catalog(), &s, &subs()),
        vec![("/run/1/r.md".to_string(), "report".to_string())]
    );
    let odd = task("r", "reporter", obj(vec![("report", Json::Null)]), &[], None);
    assert!(declared_outputs(&reporter_catalog(), &odd, &subs()).is_empty());
    let unknown = task("r", "nobody", obj(vec![]), &[], None);
    assert!(declared_outputs(&reporter_catalog(), &unknown, &subs()).is_empty());
}
