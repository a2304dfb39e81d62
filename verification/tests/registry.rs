use aaos::audit::{AgentStopReason, AuditEventKind};
use aaos::capability::Capability;
use aaos::error::CoreError;
use aaos::process::{AgentManifest, AgentState, CapabilityDeclaration, Lifecycle};
use aaos::registry::{
    issue_capabilities, parse_capability_declaration, revocation_events, revoke_all_events,
    AgentRegistry, TokenUsage,
};
use aaos::types::AgentId;

fn simple(s: &str) -> CapabilityDeclaration {
    CapabilityDeclaration::Simple(s.to_string())
}

fn test_manifest(name: &str) -> AgentManifest {
    AgentManifest {
        name: name.into(),
        model: "deepseek-chat".into(),
        system_prompt: "test".into(),
        lifecycle: Lifecycle::OnDemand,
        capabilities: vec![simple("web_search"), simple("file_read: /data/*")],
        approval_required: vec![],
    }
}

fn id(n: u128) -> AgentId {
    AgentId { uuid: n }
}

#[test]
fn spawn_with_id_uses_pinned_id_and_rejects_duplicates() {
    let mut registry = AgentRegistry::new();
    let pinned = id(7);
    let got = registry.spawn_with_id(test_manifest("bootstrap"), pinned, vec![]).0.unwrap();
    assert_eq!(got, pinned);
    // Spawning a second agent with the same pinned id must fail.
    let dup = registry.spawn_with_id(test_manifest("bootstrap-2"), pinned, vec![]).0;
    assert!(dup.is_err());
}

#[test]
fn spawn_and_list() {
    let mut registry = AgentRegistry::new();
    let (r, events) = registry.spawn(test_manifest("agent-1"), id(1), vec![]);
    let got = r.unwrap();
    assert_eq!(registry.count(), 1);
    assert!(matches!(&events[0].event,
        AuditEventKind::AgentSpawned { manifest_name } if manifest_name == "agent-1"));

    let info = registry.get_info(got).unwrap();
    assert_eq!(info.name, "agent-1");
    assert_eq!(info.state, AgentState::Running);
}

#[test]
fn spawn_and_stop() {
    let mut registry = AgentRegistry::new();
    let (r, spawned) = registry.spawn(test_manifest("agent-1"), id(1), vec![]);
    let got = r.unwrap();
    let (stopped, events) = registry.stop_sync(got);
    assert!(stopped.is_ok());
    assert_eq!(registry.count(), 0);
    // Should have spawn + stop events
    assert!(spawned.len() + events.len() >= 2);
    assert!(matches!(
        &events[0].event,
        AuditEventKind::AgentStopped { reason: AgentStopReason::UserRequested }
    ));
}

#[test]
fn stop_nonexistent_agent() {
    let mut registry = AgentRegistry::new();
    assert!(matches!(registry.stop_sync(id(9)).0, Err(CoreError::AgentNotFound(a)) if a == id(9)));
}

#[test]
fn capability_enforcement() {
    let mut registry = AgentRegistry::new();
    let got = registry.spawn(test_manifest("agent-1"), id(1), vec![10, 11]).0.unwrap();
    assert!(registry.check_capability(got, &vec![true, false]).unwrap());
    assert!(registry.check_capability(got, &vec![false, true]).unwrap());
    assert!(!registry.check_capability(got, &vec![false, false]).unwrap());
}

#[test]
fn multiple_agents() {
    let mut registry = AgentRegistry::new();
    for n in 1..=3u128 {
        assert!(registry.spawn(test_manifest(&format!("agent-{n}")), id(n), vec![]).0.is_ok());
    }
    assert_eq!(registry.count(), 3);
    assert_eq!(registry.list().len(), 3);
}

#[test]
fn get_tokens_returns_agent_capabilities() {
    let mut registry = AgentRegistry::new();
    let manifest = test_manifest("agent-1");
    let (granted, events) = issue_capabilities(id(1), &manifest);
    // test_manifest declares web_search and file_read
    assert_eq!(granted.len(), 2);
    assert_eq!(events.len(), 2);
    for (capability, event) in granted.iter().zip(&events) {
        assert_eq!(event.agent_id, id(1));
        assert!(matches!(&event.event, AuditEventKind::CapabilityGranted { capability: c }
            if format!("{c:?}") == format!("{capability:?}")));
    }
    let got = registry.spawn(manifest, id(1), vec![20, 21]).0.unwrap();
    assert_eq!(registry.get_token_handles(got).unwrap(), vec![20, 21]);
}

#[test]
fn get_tokens_nonexistent_agent() {
    let registry = AgentRegistry::new();
    assert!(registry.get_token_handles(id(1)).is_err());
}

#[test]
fn get_manifest_returns_agent_manifest() {
    let mut registry = AgentRegistry::new();
    let got = registry.spawn(test_manifest("agent-1"), id(1), vec![]).0.unwrap();
    assert_eq!(registry.get_manifest(got).unwrap().name, "agent-1");
}

#[test]
fn get_manifest_nonexistent_agent() {
    let registry = AgentRegistry::new();
    assert!(registry.get_manifest(id(1)).is_err());
}

#[test]
fn ephemeral_spawn_unchanged() {
    let mut registry = AgentRegistry::new();
    let mut manifest = test_manifest("ephemeral-agent");
    manifest.capabilities = vec![];
    let got = registry.spawn(manifest, id(1), vec![]).0.unwrap();
    let info = registry.get_info(got).unwrap();
    assert_eq!(info.state, AgentState::Running);
    assert_eq!(info.name, "ephemeral-agent");
}

#[test]
fn spawn_refused_when_agent_limit_hit() {
    let mut registry = AgentRegistry::new_with_limit(2);
    assert!(registry.spawn(test_manifest("agent-1"), id(1), vec![]).0.is_ok());
    assert!(registry.spawn(test_manifest("agent-2"), id(2), vec![]).0.is_ok());
    let err = registry.spawn(test_manifest("agent-3"), id(3), vec![]).0.unwrap_err().message();
    assert!(err.contains("agent limit exceeded"), "unexpected error: {err}");
}

#[test]
fn spawn_with_tokens_refused_when_depth_exceeded() {
    let mut registry = AgentRegistry::new();
    // depth 6 exceeds MAX_SPAWN_DEPTH (5)
    let (r, _) =
        registry.spawn_with_token_handles(id(1), test_manifest("deep-agent"), vec![], 6, None);
    let err = r.unwrap_err().message();
    assert!(err.contains("spawn depth exceeded"), "unexpected error: {err}");
}

#[test]
fn get_depth_reflects_assigned_depth() {
    let mut registry = AgentRegistry::new();
    let (r, _) =
        registry.spawn_with_token_handles(id(1), test_manifest("child-agent"), vec![], 3, None);
    assert!(r.is_ok());
    assert_eq!(registry.get_depth(id(1)).unwrap(), 3);
}

#[test]
fn spawn_child_capability_parsing() {
    let decl = simple("spawn_child: [researcher, summarizer]");
    match parse_capability_declaration(&decl) {
        Some(Capability::SpawnChild { allowed_agents }) => {
            assert_eq!(allowed_agents, vec!["researcher", "summarizer"])
        }
        other => panic!("not a spawn capability: {other:?}"),
    }
    assert!(matches!(
        parse_capability_declaration(&simple("tool: spawn_agent")),
        Some(Capability::ToolInvoke { tool_name }) if tool_name == "spawn_agent"
    ));
}

#[test]
fn declarations_are_read_by_their_words() {
    assert!(matches!(
        parse_capability_declaration(&simple("web_search")),
        Some(Capability::WebSearch)
    ));
    assert!(matches!(
        parse_capability_declaration(&simple("file_read: /data/*")),
        Some(Capability::FileRead { path_glob }) if path_glob == "/data/*"
    ));
    assert!(matches!(
        parse_capability_declaration(&simple("file_write: /out")),
        Some(Capability::FileWrite { path_glob }) if path_glob == "/out"
    ));
}

#[test]
fn spawn_with_id_sets_persistent_identity() {
    let mut registry = AgentRegistry::new();
    assert!(registry.spawn_with_id(test_manifest("bootstrap"), id(1), vec![]).0.is_ok());
    assert_eq!(registry.has_stable_identity(id(1)).unwrap(), true);
}

#[test]
fn spawn_does_not_set_persistent_identity() {
    let mut registry = AgentRegistry::new();
    assert!(registry.spawn(test_manifest("child"), id(1), vec![]).0.is_ok());
    assert_eq!(registry.has_stable_identity(id(1)).unwrap(), false);
}

#[test]
fn spawn_with_tokens_does_not_set_persistent_identity() {
    let mut registry = AgentRegistry::new();
    let (r, _) = registry.spawn_with_token_handles(id(1), test_manifest("child"), vec![], 1, None);
    assert!(r.is_ok());
    assert_eq!(registry.has_stable_identity(id(1)).unwrap(), false);
}

#[test]
fn has_stable_identity_errors_for_unknown_agent() {
    let registry = AgentRegistry::new();
    assert!(registry.has_stable_identity(id(1)).is_err());
}

#[test]
fn spawn_with_tokens_rejects_duplicate_id() {
    let mut registry = AgentRegistry::new();
    let first = registry.spawn_with_token_handles(id(1), test_manifest("first"), vec![], 1, None);
    assert!(first.0.is_ok(), "first spawn succeeds");
    let second =
        registry.spawn_with_token_handles(id(1), test_manifest("duplicate"), vec![], 1, None);
    let err = second.0.unwrap_err().message();
    assert!(err.contains("already exists"), "error should name the collision: {err}");
}

#[test]
fn active_count_matches_agents_len_after_spawns() {
    let mut registry = AgentRegistry::new();
    assert_eq!(registry.active_count(), 0);
    for (n, name) in ["a", "b", "c"].iter().enumerate() {
        assert!(registry.spawn(test_manifest(name), id(n as u128), vec![]).0.is_ok());
    }
    assert_eq!(registry.active_count(), 3);
    assert_eq!(registry.list().len(), 3);
}

#[test]
fn active_count_decrements_after_stop_sync() {
    let mut registry = AgentRegistry::new();
    assert!(registry.spawn(test_manifest("a"), id(1), vec![]).0.is_ok());
    assert!(registry.spawn(test_manifest("b"), id(2), vec![]).0.is_ok());
    assert_eq!(registry.active_count(), 2);
    assert!(registry.stop_sync(id(1)).0.is_ok());
    assert_eq!(registry.active_count(), 1);
    assert_eq!(registry.list().len(), 1);
}

#[test]
fn active_count_released_on_duplicate_id_rejection() {
    let mut registry = AgentRegistry::new();
    assert!(registry.spawn_with_id(test_manifest("first"), id(1), vec![]).0.is_ok());
    assert_eq!(registry.active_count(), 1);
    // Attempt duplicate: should fail, count should stay at 1.
    assert!(registry.spawn_with_id(test_manifest("dup"), id(1), vec![]).0.is_err());
    assert_eq!(registry.active_count(), 1);
}

#[test]
fn active_count_enforced_under_limit() {
    let mut registry = AgentRegistry::new_with_limit(2);
    assert!(registry.spawn(test_manifest("one"), id(1), vec![]).0.is_ok());
    assert!(registry.spawn(test_manifest("two"), id(2), vec![]).0.is_ok());
    assert_eq!(registry.active_count(), 2);
    assert!(registry.spawn(test_manifest("three"), id(3), vec![]).0.is_err());
    assert_eq!(registry.active_count(), 2);
    assert_eq!(registry.max_agents(), 2);
}

#[test]
fn agent_slot_releases_on_drop_without_commit() {
    let mut registry = AgentRegistry::new();
    assert_eq!(registry.active_count(), 0);
    let slot = registry.reserve_slot().unwrap();
    assert_eq!(registry.active_count(), 1);
    registry.release_slot(slot);
    assert_eq!(registry.active_count(), 0);
}

#[test]
fn agent_slot_keeps_count_on_commit() {
    let mut registry = AgentRegistry::new();
    let slot = registry.reserve_slot().unwrap();
    assert_eq!(registry.active_count(), 1);
    registry.release_slot(slot.commit());
    assert_eq!(registry.active_count(), 1);
}

#[test]
fn spawning_and_stopping_leaves_nothing_behind() {
    let mut registry = AgentRegistry::new();
    assert!(registry.spawn(test_manifest("a"), id(1), vec![5]).0.is_ok());
    assert!(registry.spawn(test_manifest("b"), id(2), vec![]).0.is_ok());
    assert!(registry.stop_sync(id(2)).0.is_ok());
    assert_eq!(registry.count(), 1);
    assert_eq!(registry.active_count(), 1);
    assert!(registry.get_info(id(2)).is_err());
    assert_eq!(registry.get_token_handles(id(1)).unwrap(), vec![5]);
}

#[test]
fn tokens_are_found_by_their_handles() {
    let mut registry = AgentRegistry::new();
    assert!(registry.spawn(test_manifest("a"), id(1), vec![5, 6]).0.is_ok());
    let tokens = vec![(5u64, 100u128), (7, 101)];
    assert!(registry.holds_token(id(1), 100, &tokens));
    assert!(!registry.holds_token(id(1), 101, &tokens));
    assert!(!registry.holds_token(id(2), 100, &tokens));
}

#[test]
fn usage_is_charged_to_a_budget() {
    let mut registry = AgentRegistry::new();
    assert!(registry.spawn(test_manifest("a"), id(1), vec![]).0.is_ok());
    let usage = TokenUsage { input_tokens: 10, output_tokens: 5 };
    assert_eq!(registry.track_token_usage(id(1), usage, true).unwrap(), Some(15));
    assert_eq!(registry.track_token_usage(id(1), usage, false).unwrap(), None);
    assert!(registry.track_token_usage(id(2), usage, true).is_err());
}

#[test]
fn revocations_go_on_record() {
    assert_eq!(revocation_events(id(1), 9, true).len(), 1);
    assert_eq!(revocation_events(id(1), 9, false).len(), 0);
    assert_eq!(revoke_all_events(id(1), 3).len(), 1);
    assert_eq!(revoke_all_events(id(1), 0).len(), 0);
}
