use aaos::audit::AuditEventKind;
use aaos::backend::{
    check_launch, health, stop_target, summarization_model, BackendHealth, LaunchFacts, StopTarget,
    BACKEND_KIND,
};
use aaos::error::CoreError;
use aaos::json::Json;
use aaos::process::{AgentManifest, CapabilityDeclaration, Lifecycle};
use aaos::registry::{AgentRegistry, TokenUsage};
use aaos::services::{
    address, approval_for, approval_request, authorize_send, awaited, delivered, list_tools,
    parse_message, report_usage, settle_approval, ApprovalResult, Awaited,
};
use aaos::tools::definition::EchoTool;
use aaos::tools::grep::GrepTool;
use aaos::types::{AgentId, Span};

fn t(s: &str) -> Json {
    Json::Text(s.to_string())
}

fn obj(fields: Vec<(&str, Json)>) -> Json {
    Json::Object(fields.into_iter().map(|(k, v)| (k.to_string(), v)).collect())
}

fn me() -> AgentId {
    AgentId { uuid: 1 }
}

fn setup(approval_required: &[&str]) -> AgentRegistry {
    let mut registry = AgentRegistry::new();
    let manifest = AgentManifest {
        name: "test-agent".into(),
        model: "deepseek-chat".into(),
        system_prompt: "test".into(),
        lifecycle: Lifecycle::OnDemand,
        capabilities: vec![
            CapabilityDeclaration::Simple("tool: echo".into()),
            CapabilityDeclaration::Simple("web_search".into()),
        ],
        approval_required: approval_required.iter().map(|s| s.to_string()).collect(),
    };
    assert!(registry.spawn(manifest, me(), vec![10, 11]).0.is_ok());
    registry
}

#[test]
fn tools_without_need_of_approval_are_not_asked_for() {
    let registry = setup(&[]);
    assert!(approval_for(&registry, me(), "echo", &Json::Null).is_none());
    assert_eq!(registry.get_token_handles(me()).unwrap(), vec![10, 11]);
}

#[test]
fn invoke_tool_nonexistent_agent() {
    let registry = setup(&["echo"]);
    let nobody = AgentId { uuid: 99 };
    assert!(approval_for(&registry, nobody, "echo", &Json::Null).is_none());
    assert!(registry.get_token_handles(nobody).is_err());
}

#[test]
fn invoke_tool_approval_auto_approves() {
    let registry = setup(&["echo"]);
    let input = obj(vec![("message", t("hello"))]);
    let question = approval_for(&registry, me(), "echo", &input).expect("echo needs approval");
    assert_eq!(question.description, "Agent 'test-agent' wants to invoke tool 'echo'");
    assert_eq!(question.agent_name, "test-agent");
    assert_eq!(question.tool.as_deref(), Some("echo"));
    assert_eq!(question.input.unwrap().get_str("message").unwrap(), "hello");
    let (event, outcome) = settle_approval(me(), "echo", &ApprovalResult::Approved);
    assert!(matches!(event.unwrap().event, AuditEventKind::HumanApprovalGranted));
    assert!(outcome.is_ok());
}

#[test]
fn refusals_and_silence_end_the_call() {
    let no = ApprovalResult::Denied { reason: "too risky".into() };
    let (event, outcome) = settle_approval(me(), "echo", &no);
    assert!(matches!(event.unwrap().event, AuditEventKind::HumanApprovalDenied { reason }
        if reason == "too risky"));
    assert_eq!(outcome.unwrap_err().message(), "human denied: too risky");
    let (event, outcome) = settle_approval(me(), "echo", &ApprovalResult::Timeout);
    assert!(event.is_none());
    assert_eq!(outcome.unwrap_err().message(), "approval timed out");
}

#[test]
fn request_approval_auto_approves() {
    let registry = setup(&[]);
    let q = approval_request(&registry, me(), "test action".into());
    assert_eq!(q.agent_name, "test-agent");
    assert_eq!(q.description, "test action");
    assert!(q.tool.is_none() && q.input.is_none());
    let q = approval_request(&registry, AgentId { uuid: 5 }, "test action".into());
    assert_eq!(q.agent_name, "unknown");
}

#[test]
fn list_tools_filters_by_capability() {
    let all = vec![EchoTool.definition(), GrepTool.definition()];
    let tools = list_tools(&all, &vec![vec![true, false], vec![false, false]]);
    assert_eq!(tools.len(), 1);
    assert_eq!(tools[0].name, "echo");
}

#[test]
fn report_usage_creates_audit_event() {
    let registry = setup(&[]);
    let usage = TokenUsage { input_tokens: 100, output_tokens: 50 };
    let (charge, event) = report_usage(&registry, me(), usage, true).unwrap();
    assert_eq!(charge, Some(150));
    assert!(matches!(event.event,
        AuditEventKind::UsageReported { input_tokens: 100, output_tokens: 50 }));
    let usage = TokenUsage { input_tokens: 1, output_tokens: 2 };
    assert_eq!(report_usage(&registry, me(), usage, false).unwrap().0, None);
    let usage = TokenUsage { input_tokens: 1, output_tokens: 2 };
    assert!(matches!(report_usage(&registry, AgentId { uuid: 2 }, usage, true),
        Err(CoreError::AgentNotFound(a)) if a.uuid == 2));
}

#[test]
fn messages_are_read_from_what_agents_say() {
    let recipient = "00000000-0000-0000-0000-0000000000ff";
    let m = parse_message(&obj(vec![
        ("recipient", t(recipient)),
        ("method", t("ask")),
        ("params", obj(vec![("q", t("x"))])),
    ]))
    .unwrap();
    assert_eq!(m.recipient.uuid, 255);
    assert_eq!(m.method, "ask");
    assert_eq!(m.params.get_str("q").unwrap(), "x");
    let plain = parse_message(&obj(vec![("recipient", t(recipient))])).unwrap();
    assert_eq!(plain.method, "notify");
    assert!(matches!(plain.params, Json::Object(f) if f.is_empty()));
    assert_eq!(
        parse_message(&obj(vec![])).unwrap_err().message(),
        "missing 'recipient' in message"
    );
    assert!(parse_message(&obj(vec![("recipient", t("bob"))]))
        .unwrap_err()
        .message()
        .starts_with("invalid recipient: UUID parsing failed: "));
    assert_eq!(
        address(&Json::Null, Err("no such form".into())).unwrap_err().message(),
        "invalid recipient: no such form"
    );
    assert_eq!(address(&Json::Null, Ok(3)).unwrap().recipient.uuid, 3);
    assert_eq!(delivered().get_str("status").unwrap(), "delivered");
}

#[test]
fn send_and_wait_timeout_cleans_up_pending() {
    let other = AgentId { uuid: 2 };
    assert!(authorize_send(me(), other, &vec![false, true]).is_ok());
    match authorize_send(me(), other, &vec![false]) {
        Err(CoreError::CapabilityDenied { reason, .. }) => {
            assert_eq!(reason, "send_and_wait not permitted")
        }
        other => panic!("expected a refusal, got {other:?}"),
    }
    // Nothing came in time: the error tells the caller to wait no longer.
    let late = awaited(Awaited::TimedOut(Span::from_millis(50)));
    assert!(matches!(late, Err(CoreError::Timeout(d)) if d == Span::from_millis(50)));
    assert_eq!(awaited(Awaited::Dropped).unwrap_err().message(), "responder dropped");
}

#[test]
fn answers_are_results_or_errors() {
    let ok = Awaited::Answer { result: Some(t("fine")), error: Some("ignored".into()) };
    assert_eq!(awaited(ok).unwrap().as_str().unwrap(), "fine");
    let err = Awaited::Answer { result: None, error: Some("broken".into()) };
    assert_eq!(awaited(err).unwrap_err().message(), "broken");
    let none = Awaited::Answer { result: None, error: None };
    assert!(matches!(awaited(none).unwrap(), Json::Object(f) if f.is_empty()));
}

// The backend.

fn all_there() -> LaunchFacts {
    LaunchFacts { has_model: true, registered: true, messages_free: true, commands_free: true }
}

#[test]
fn in_process_backend_launches_agent() {
    assert!(check_launch(me(), all_there()).is_ok());
    assert_eq!(BACKEND_KIND, "in_process");
    // Right after launch the task is still alive.
    assert!(matches!(health(Some(false), Some(false)), BackendHealth::Healthy));
}

#[test]
fn in_process_backend_stop_is_idempotent() {
    assert_eq!(stop_target(true, true), StopTarget::Watched);
    // The second time the backend watches it no longer.
    assert_eq!(stop_target(false, true), StopTarget::Held);
    assert_eq!(stop_target(false, false), StopTarget::Nothing);
    assert!(!matches!(health(None, Some(false)), BackendHealth::Healthy));
}

#[test]
fn in_process_backend_health_detects_finish() {
    assert!(matches!(health(Some(true), None), BackendHealth::Exited(0)));
    assert!(matches!(health(None, Some(true)), BackendHealth::Exited(0)));
    assert!(matches!(health(None, None), BackendHealth::Unknown(m) if m == "no tracking entry"));
}

#[test]
fn in_process_backend_missing_llm_client_errors() {
    let mut facts = all_there();
    facts.has_model = false;
    assert!(check_launch(me(), facts).unwrap_err().message().contains("no LLM client"));
    let mut facts = all_there();
    facts.registered = false;
    assert!(matches!(check_launch(me(), facts), Err(CoreError::AgentNotFound(_))));
    let mut facts = all_there();
    facts.messages_free = false;
    assert!(check_launch(me(), facts).unwrap_err().message().contains("message_rx"));
    let mut facts = all_there();
    facts.commands_free = false;
    assert!(check_launch(me(), facts).unwrap_err().message().contains("command_rx"));
}

#[test]
fn summaries_come_from_the_model_that_is_asked_for() {
    assert_eq!(summarization_model(Some("small"), "large"), "small");
    assert_eq!(summarization_model(None, "large"), "large");
}
