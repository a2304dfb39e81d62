use aaos::audit::{AuditEvent, AuditEventKind, ToolExecutionSurface};
use aaos::clock::Timestamp;
use aaos::error::CoreError;
use aaos::json::Json;
use aaos::tools::cargo_run::CargoRunTool;
use aaos::tools::definition::EchoTool;
use aaos::tools::file_edit::{count_non_overlapping, FileEditTool};
use aaos::tools::file_list::{EntryKind, FileListTool, Listing, MAX_ENTRIES};
use aaos::tools::file_read::FileReadTool;
use aaos::tools::file_read_many::{FileFacts, FileReadManyTool};
use aaos::tools::file_write::FileWriteTool;
use aaos::tools::git_commit::{GitCommitTool, GitStep, ProgramOutput};
use aaos::tools::grep::{gather, GrepTool};
use aaos::tools::invocation::{
    actual_surface, hex_text, md5_hash, preview_str, preview_value, repeat_threshold, worker_outcome, Begun,
    Finished, PendingCall, ToolInvocation, WorkerInvokeError, WorkerOutcome, PREVIEW_CAP,
};
use aaos::tools::memory::{
    identified, MemoryCategory, MemoryDeleteTool, MemoryHit, MemoryQueryTool, MemoryStoreTool,
};
use aaos::tools::output::cap_bytes;
use aaos::tools::path_parts::strip_dir;
use aaos::tools::path_safe::{
    after_plain, after_strict, plan_open, AccessMode, AfterStrict, OpenFailure,
};
use aaos::tools::registry::ToolRegistry;
use aaos::tools::routing::route_for;
use aaos::tools::skill_read::{within, Skill, SkillReadTool, SkillRegistry};
use aaos::tools::web_fetch::{host_of, Body, UrlParts, WebFetchTool};
use aaos::types::AgentId;
use std::collections::hash_map::DefaultHasher;
use std::hash::{Hash, Hasher};

fn t(s: &str) -> Json {
    Json::Text(s.to_string())
}

fn n(v: u64) -> Json {
    Json::Unsigned(v)
}

fn obj(fields: Vec<(&str, Json)>) -> Json {
    Json::Object(fields.into_iter().map(|(k, v)| (k.to_string(), v)).collect())
}

fn shown(j: &Json) -> String {
    format!("{j:?}")
}

fn me() -> AgentId {
    AgentId { uuid: 1 }
}

fn items(j: &Json, key: &str) -> usize {
    j.get_array(key).unwrap().len()
}

// Calling tools.

fn begin(inv: &mut ToolInvocation, agent: AgentId, input: &Json) -> PendingCall {
    match inv.begin(agent, "echo", input, &vec![true], None, 3) {
        Begun::Call { pending, .. } => pending,
        Begun::Denied { error, .. } => panic!("denied: {error:?}"),
    }
}

fn call(inv: &mut ToolInvocation, agent: AgentId, input: &Json) -> Json {
    let pending = begin(inv, agent, input);
    let result = EchoTool.invoke(input.copy());
    ToolInvocation::finish(pending, ToolExecutionSurface::Daemon, Ok(result)).result.unwrap()
}

// Calls a tool that echoes, where a worker would answer as given.
fn call_with_worker(
    tool: &str,
    input: &Json,
    worker: Result<Json, WorkerInvokeError>,
) -> (Finished, bool) {
    let mut inv = ToolInvocation::new();
    let pending = match inv.begin(me(), tool, input, &vec![true], Some("namespaced"), 3) {
        Begun::Call { pending, .. } => pending,
        Begun::Denied { error, .. } => panic!("denied: {error:?}"),
    };
    let asked = pending.surface == ToolExecutionSurface::Worker;
    let outcome = if asked { Some(worker_outcome(worker)) } else { None };
    let surface = actual_surface(pending.surface, &outcome);
    let result = match outcome {
        Some(WorkerOutcome::Done(r)) => r,
        _ => Ok(EchoTool.invoke(input.copy())),
    };
    (ToolInvocation::finish(pending, surface, result), asked)
}

fn surface_recorded(events: &Vec<AuditEvent>, name: &str) -> Option<ToolExecutionSurface> {
    events.iter().find_map(|e| match &e.event {
        AuditEventKind::ToolInvoked { tool, execution_surface, .. } if tool == name => {
            Some(*execution_surface)
        }
        _ => None,
    })
}

#[test]
fn invoke_with_capability() {
    let mut inv = ToolInvocation::new();
    let input = obj(vec![("message", t("hi"))]);
    let pending = begin(&mut inv, me(), &input);
    let done = ToolInvocation::finish(
        pending,
        ToolExecutionSurface::Daemon,
        Ok(EchoTool.invoke(input.copy())),
    );
    assert_eq!(shown(&done.result.unwrap()), shown(&obj(vec![("message", t("hi"))])));
    assert!(done.events.len() >= 2); // invocation + result
    assert_eq!(done.used, Some(0));
}

#[test]
fn invoke_without_capability() {
    let mut inv = ToolInvocation::new();
    // no handles
    match inv.begin(me(), "echo", &obj(vec![]), &vec![], None, 3) {
        Begun::Denied { event, error } => {
            assert!(matches!(event.event, AuditEventKind::CapabilityDenied { .. }));
            assert_eq!(error.message(), "tool invocation not permitted");
        }
        Begun::Call { .. } => panic!("must be denied"),
    }
    assert_eq!(inv.test_repeat_counts_len(), 0);
}

#[test]
fn the_first_capability_that_permits_is_used() {
    let mut inv = ToolInvocation::new();
    match inv.begin(me(), "echo", &Json::Null, &vec![false, true, true], None, 3) {
        Begun::Call { pending, .. } => assert_eq!(pending.permitted_by, 1),
        Begun::Denied { .. } => panic!("must be permitted"),
    }
}

#[test]
fn preview_str_short_passes_through() {
    assert_eq!(preview_str("hello"), "hello");
}

#[test]
fn preview_str_long_truncates_with_marker() {
    let long = "a".repeat(500);
    let out = preview_str(&long);
    assert!(out.ends_with('…'));
    assert!(out.len() <= PREVIEW_CAP + 4, "utf-8 marker adds up to 3 bytes");
}

#[test]
fn preview_str_respects_utf8_boundary() {
    // 100 chars, each 3 bytes (kanji), total 300 bytes: forces
    // truncation mid-cap and must not split a codepoint.
    let s: String = "日".repeat(100);
    let out = preview_str(&s);
    assert!(out.chars().count() > 0);
    assert!(out.ends_with('…'));
    assert_eq!(out.chars().count(), 67);
}

#[test]
fn preview_value_handles_string() {
    assert_eq!(preview_value(&t("simple string")), "simple string");
}

#[test]
fn preview_value_handles_object() {
    let v = obj(vec![("url", t("https://example.com")), ("method", t("GET"))]);
    let out = preview_value(&v);
    assert!(out.contains("example.com"));
}

#[test]
fn preview_value_handles_null() {
    assert_eq!(preview_value(&Json::Null), "null");
}

#[test]
fn invoke_populates_args_and_result_preview() {
    let mut inv = ToolInvocation::new();
    let input = obj(vec![("message", t("hello-audit"))]);
    let pending = begin(&mut inv, me(), &input);
    let done = ToolInvocation::finish(
        pending,
        ToolExecutionSurface::Daemon,
        Ok(EchoTool.invoke(input.copy())),
    );
    match &done.events[0].event {
        AuditEventKind::ToolInvoked { args_preview, .. } => {
            assert!(args_preview.as_ref().unwrap().contains("hello-audit"))
        }
        other => panic!("the call comes first: {other:?}"),
    }
    match &done.events[1].event {
        AuditEventKind::ToolResult { result_preview, success, .. } => {
            assert!(result_preview.is_some());
            assert!(success);
        }
        other => panic!("the result comes second: {other:?}"),
    }
}

#[test]
fn invoke_nonexistent_tool() {
    let registry: ToolRegistry<u32> = ToolRegistry::new();
    let mut inv = ToolInvocation::new();
    let pending = match inv.begin(me(), "nonexistent", &obj(vec![]), &vec![true], None, 3) {
        Begun::Call { pending, event } => {
            assert!(event.is_none());
            pending
        }
        Begun::Denied { error, .. } => panic!("denied: {error:?}"),
    };
    let surface = pending.surface;
    let unknown = registry.get("nonexistent").map(|_| Json::Null);
    let done = ToolInvocation::finish(pending, surface, unknown);
    assert!(matches!(&done.result, Err(CoreError::ToolNotFound(name)) if name == "nonexistent"));
    assert_eq!(done.used, None);
    assert_eq!(surface_recorded(&done.events, "nonexistent"), Some(ToolExecutionSurface::Daemon));
    assert!(matches!(&done.events[1].event, AuditEventKind::ToolResult { success: false, .. }));
}

#[test]
fn first_two_calls_have_no_repeat_guard() {
    let mut inv = ToolInvocation::new();
    let input = obj(vec![("message", t("hello"))]);
    for _ in 0..2 {
        let result = call(&mut inv, me(), &input);
        assert!(result.get("_repeat_guard").is_none());
    }
}

#[test]
fn third_call_injects_repeat_guard() {
    let mut inv = ToolInvocation::new();
    let input = obj(vec![("message", t("same"))]);
    call(&mut inv, me(), &input);
    call(&mut inv, me(), &input);
    let third = call(&mut inv, me(), &input);
    let guard = third.get("_repeat_guard").expect("third call must carry _repeat_guard");
    assert_eq!(guard.get_u64("attempt_count"), Some(3));
    assert!(guard.get_str("hint").unwrap().contains("echo"), "hint should name the tool");
    assert_eq!(third.get_str("message").unwrap(), "same");
}

#[test]
fn repeat_guard_emits_audit_event_on_third_call() {
    let mut inv = ToolInvocation::new();
    let input = obj(vec![("message", t("audit-test"))]);
    for _ in 0..2 {
        call(&mut inv, me(), &input);
    }
    match inv.begin(me(), "echo", &input, &vec![true], None, 3) {
        Begun::Call { pending, event } => {
            assert!(matches!(
                event.unwrap().event,
                AuditEventKind::ToolRepeat { attempt_count: 3, .. }
            ));
            let done =
                ToolInvocation::finish(pending, ToolExecutionSurface::Daemon, Ok(Json::Null));
            assert!(done.events.iter().any(|e| matches!(
                &e.event,
                AuditEventKind::ToolRepeatGuardFired { tool, attempt_count, .. }
                    if tool == "echo" && *attempt_count >= 3
            )));
        }
        Begun::Denied { .. } => panic!("must be permitted"),
    }
}

#[test]
fn different_input_hash_resets_counter() {
    let mut inv = ToolInvocation::new();
    let a = obj(vec![("message", t("a"))]);
    let b = obj(vec![("message", t("b"))]);
    call(&mut inv, me(), &a);
    call(&mut inv, me(), &a);
    call(&mut inv, me(), &b);
    assert_eq!(inv.test_repeat_count(me(), "echo", &a), 2);
    assert_eq!(inv.test_repeat_count(me(), "echo", &b), 1);
}

#[test]
fn different_agent_resets_counter() {
    let mut inv = ToolInvocation::new();
    let input = obj(vec![("message", t("x"))]);
    for _ in 0..3 {
        call(&mut inv, me(), &input);
    }
    let other = AgentId { uuid: 2 };
    assert_eq!(inv.test_repeat_count(other, "echo", &input), 0);
    let first = call(&mut inv, other, &input);
    assert!(first.get("_repeat_guard").is_none());
    assert_eq!(inv.test_repeat_count(other, "echo", &input), 1);
}

#[test]
fn repeat_counts_map_is_bounded() {
    let mut inv = ToolInvocation::new();
    for i in 0..2000u32 {
        let input = obj(vec![("message", t(&format!("msg-{i}")))]);
        call(&mut inv, me(), &input);
        assert!(inv.test_repeat_counts_len() <= 1024);
    }
    assert!(inv.test_repeat_counts_len() > 0);
}

#[test]
fn namespaced_routes_file_write_to_worker() {
    let input = obj(vec![("path", t("/tmp/x")), ("content", t("hi"))]);
    let (done, asked) =
        call_with_worker("file_write", &input, Ok(obj(vec![("ok", Json::Bool(true))])));
    assert!(asked);
    assert_eq!(shown(&done.result.unwrap()), shown(&obj(vec![("ok", Json::Bool(true))])));
    assert_eq!(surface_recorded(&done.events, "file_write"), Some(ToolExecutionSurface::Worker));
    assert_eq!(route_for("file_write", "namespaced"), ToolExecutionSurface::Worker);
}

#[test]
fn namespaced_keeps_web_fetch_on_daemon() {
    let input = obj(vec![("url", t("https://example.com"))]);
    let (done, asked) =
        call_with_worker("web_fetch", &input, Ok(obj(vec![("ok", Json::Bool(true))])));
    assert!(!asked);
    assert_eq!(surface_recorded(&done.events, "web_fetch"), Some(ToolExecutionSurface::Daemon));
    assert_eq!(route_for("web_fetch", "namespaced"), ToolExecutionSurface::Daemon);
    assert_eq!(route_for("cargo_run", "namespaced"), ToolExecutionSurface::Daemon);
    assert_eq!(route_for("git_commit", "namespaced"), ToolExecutionSurface::Daemon);
}

#[test]
fn worker_no_session_falls_back_to_daemon() {
    let input = obj(vec![("message", t("hi"))]);
    let (done, asked) = call_with_worker("file_write", &input, Err(WorkerInvokeError::NoSession));
    assert!(asked);
    assert_eq!(shown(&done.result.unwrap()), shown(&obj(vec![("message", t("hi"))])));
    assert_eq!(surface_recorded(&done.events, "file_write"), Some(ToolExecutionSurface::Daemon));
    match worker_outcome(Err(WorkerInvokeError::Transport("broken pipe".into()))) {
        WorkerOutcome::Done(Err(CoreError::Ipc(m))) => assert_eq!(m, "broken pipe"),
        other => panic!("a failure is a failure: {other:?}"),
    }
    assert!(matches!(worker_outcome(Ok(Json::Null)), WorkerOutcome::Done(Ok(Json::Null))));
    assert_eq!(WorkerInvokeError::NoSession.message(), "no broker session for agent");
}

#[test]
fn no_worker_handle_stays_on_daemon() {
    let mut inv = ToolInvocation::new();
    assert_eq!(begin(&mut inv, me(), &Json::Null).surface, ToolExecutionSurface::Daemon);
}

#[test]
fn in_process_handle_routes_everything_daemon_side() {
    assert_eq!(route_for("file_write", "in_process"), ToolExecutionSurface::Daemon);
    assert_eq!(route_for("web_fetch", "in_process"), ToolExecutionSurface::Daemon);
}

#[test]
fn a_failed_call_uses_nothing_up() {
    let mut inv = ToolInvocation::new();
    let pending = begin(&mut inv, me(), &Json::Null);
    let done = ToolInvocation::finish(
        pending,
        ToolExecutionSurface::Worker,
        Err(CoreError::Ipc("no luck".into())),
    );
    assert_eq!(done.used, None);
    assert!(matches!(&done.events[0].event, AuditEventKind::ToolInvoked { execution_surface, .. }
        if *execution_surface == ToolExecutionSurface::Worker));
    assert!(matches!(&done.events[1].event, AuditEventKind::ToolResult { success, .. }
        if !*success));
    assert!(done.result.is_err());
}

#[test]
fn hashes_are_those_of_the_text() {
    let v = obj(vec![("message", t("hi"))]);
    let mut hasher = DefaultHasher::new();
    "{\"message\":\"hi\"}".to_string().hash(&mut hasher);
    assert_eq!(md5_hash(&v), hasher.finish());
    assert_eq!(hex_text(0), "0");
    assert_eq!(hex_text(0xdead_beef_0123), format!("{:x}", 0xdead_beef_0123u64));
    assert_eq!(hex_text(u64::MAX), "ffffffffffffffff");
}

#[test]
fn the_threshold_can_be_set() {
    assert_eq!(repeat_threshold(None), 3);
    assert_eq!(repeat_threshold(Some("7")), 7);
    assert_eq!(repeat_threshold(Some("many")), 3);
    assert_eq!(repeat_threshold(Some("4294967296")), 3);
}

// The registry of tools.

#[test]
fn register_and_get() {
    let mut registry: ToolRegistry<u32> = ToolRegistry::new();
    registry.register(EchoTool.definition(), 5);
    let tool = registry.get("echo").unwrap();
    assert_eq!(tool.definition.name, "echo");
    assert_eq!(tool.tool, 5);
}

#[test]
fn list_tools() {
    let mut registry: ToolRegistry<u32> = ToolRegistry::new();
    registry.register(EchoTool.definition(), 5);
    registry.register(EchoTool.definition(), 6);
    let tools = registry.list();
    assert_eq!(tools.len(), 1);
    assert_eq!(tools[0].name, "echo");
    assert_eq!(registry.count(), 1);
    assert_eq!(registry.get("echo").unwrap().tool, 6);
}

#[test]
fn get_nonexistent() {
    let registry: ToolRegistry<u32> = ToolRegistry::new();
    assert!(registry.get("nonexistent").is_err());
}

#[test]
fn echo_tool_returns_input() {
    let input = obj(vec![("message", t("hello world"))]);
    let before = shown(&input);
    assert_eq!(shown(&EchoTool.invoke(input)), before);
}

#[test]
fn echo_tool_definition() {
    let def = EchoTool.definition();
    assert_eq!(def.name, "echo");
    assert!(def.input_schema.get("required").is_some());
}

#[test]
fn definitions_describe_their_parameters() {
    let def = FileEditTool.definition();
    assert_eq!(def.name, "file_edit");
    assert_eq!(items(&def.input_schema, "required"), 3);
    let properties = def.input_schema.get("properties").unwrap();
    assert_eq!(properties.get("replace_all").unwrap().get_str("type").unwrap(), "boolean");
    let run = CargoRunTool.definition();
    let sub = run.input_schema.get("properties").unwrap().get("subcommand").unwrap();
    assert_eq!(items(sub, "enum"), 4);
    let commit = GitCommitTool.definition();
    let paths = commit.input_schema.get("properties").unwrap().get("paths").unwrap();
    assert_eq!(items(paths, "default"), 1);
    assert_eq!(paths.get("items").unwrap().get_str("type").unwrap(), "string");
    let read = FileReadTool.definition();
    let limit = read.input_schema.get("properties").unwrap().get("limit").unwrap();
    assert_eq!(limit.get_u64("minimum"), Some(1));
    for name in [
        FileListTool.definition().name,
        FileReadManyTool.definition().name,
        FileWriteTool.definition().name,
        GrepTool.definition().name,
        MemoryQueryTool.definition().name,
        MemoryDeleteTool.definition().name,
        MemoryStoreTool::new(1).definition().name,
    ] {
        assert!(!name.is_empty());
    }
}

// Editing files.

fn edit(content: &str, old: &str, new: &str, every: bool) -> Result<(String, Json), String> {
    let mut fields = vec![("path", t("/d/a.txt")), ("old_string", t(old)), ("new_string", t(new))];
    if every {
        fields.push(("replace_all", Json::Bool(true)));
    }
    let request = match FileEditTool.parse(&obj(fields)) {
        Ok(q) => q,
        Err(e) => return Err(e.message()),
    };
    match FileEditTool.apply(&request, "/d/a.txt", content, content.len() as u64) {
        Ok(e) => Ok((e.content, e.answer)),
        Err(e) => Err(e.message()),
    }
}

#[test]
fn edit_single_unique_match() {
    let (after, result) = edit("alpha beta gamma\n", "beta", "BETA", false).unwrap();
    assert_eq!(result.get_u64("replacements"), Some(1));
    assert_eq!(after, "alpha BETA gamma\n");
    assert_eq!(result.get_u64("bytes_before"), Some(17));
    assert_eq!(result.get_u64("bytes_after"), Some(17));
    assert_eq!(result.get_str("path").unwrap(), "/d/a.txt");
}

#[test]
fn edit_refuses_ambiguous_match() {
    let err = edit("foo bar foo bar foo\n", "foo", "FOO", false).unwrap_err();
    assert!(err.contains("3 times"), "got: {err}");
    assert!(err.contains("replace_all"), "got: {err}");
}

#[test]
fn edit_replace_all_when_requested() {
    let (after, result) = edit("foo bar foo bar foo\n", "foo", "FOO", true).unwrap();
    assert_eq!(result.get_u64("replacements"), Some(3));
    assert_eq!(after, "FOO bar FOO bar FOO\n");
}

#[test]
fn edit_not_found_errors() {
    let err = edit("hello\n", "nonexistent", "x", false).unwrap_err();
    assert!(err.contains("not found"), "got: {err}");
}

#[test]
fn edit_requires_write_capability() {
    let err =
        FileEditTool.authorize(me(), "/d/e.txt", &vec![true], &vec![false]).unwrap_err().message();
    assert!(err.contains("file_write"), "got: {err}");
    let err =
        FileEditTool.authorize(me(), "/d/e.txt", &vec![false], &vec![false]).unwrap_err().message();
    assert!(err.contains("file_read"), "got: {err}");
    assert!(FileEditTool.authorize(me(), "/d/e.txt", &vec![false, true], &vec![true]).is_ok());
}

#[test]
fn edit_empty_old_string_rejected() {
    let err = edit("hello\n", "", "x", false).unwrap_err();
    assert!(err.contains("non-empty"), "got: {err}");
}

#[test]
fn edits_are_checked_for_size() {
    let big = "x".repeat(65_537);
    let err = edit("hello\n", "hello", &big, false).unwrap_err();
    assert!(err.contains("too large"), "got: {err}");
    assert!(FileEditTool.check_file("/d/x", false, 1).unwrap_err().message().contains("regular"));
    let err = FileEditTool.check_file("/d/x", true, 1_048_577).unwrap_err().message();
    assert!(err.contains("1048577"), "got: {err}");
    assert!(FileEditTool.check_file("/d/x", true, 1_048_576).is_ok());
}

#[test]
fn count_non_overlapping_counts_correctly() {
    assert_eq!(count_non_overlapping("aaaa", "aa"), 2);
    assert_eq!(count_non_overlapping("abc abc abc", "abc"), 3);
    assert_eq!(count_non_overlapping("hello", "z"), 0);
    assert_eq!(count_non_overlapping("", "a"), 0);
}

#[test]
fn what_is_counted_is_what_is_replaced() {
    for (s, old, new) in [("aaaaa", "aa", "b"), ("ähä", "ä", "xyz"), ("none", "z", "y")] {
        let count = count_non_overlapping(s, old);
        let after = s.replace(old, new);
        assert_eq!(
            after.chars().count() as i64,
            s.chars().count() as i64
                + count as i64 * (new.chars().count() as i64 - old.chars().count() as i64)
        );
        if count > 0 {
            assert_eq!(edit(s, old, new, true).unwrap().0, after);
        }
    }
}

// Listing.

#[test]
fn lists_directory_contents() {
    let mut listing = Listing::new();
    for (name, kind, size) in [
        ("sub", EntryKind::Dir, 4096),
        (".", EntryKind::Dir, 4096),
        ("b.txt", EntryKind::File, 7),
        ("..", EntryKind::Dir, 4096),
        ("a.txt", EntryKind::File, 3),
    ] {
        assert!(listing.offer(name, kind, size));
    }
    let out = listing.finish("/d");
    assert_eq!(out.get_str("kind").unwrap(), "dir");
    assert_eq!(out.get_bool("truncated"), Some(false));
    let entries = out.get_array("entries").unwrap();
    assert_eq!(entries.len(), 3);
    let names: Vec<&str> = entries.iter().map(|e| e.get_str("name").unwrap().as_str()).collect();
    assert_eq!(names, vec!["a.txt", "b.txt", "sub"]);
    assert_eq!(entries[0].get_u64("size_bytes"), Some(3));
    assert_eq!(entries[1].get_u64("size_bytes"), Some(7));
    assert_eq!(entries[1].get_str("kind").unwrap(), "file");
    assert_eq!(entries[2].get_str("kind").unwrap(), "dir");
}

#[test]
fn entries_are_files_directories_or_other() {
    let mut listing = Listing::new();
    assert!(listing.offer("link", EntryKind::Symlink, 11));
    assert!(listing.offer("pipe", EntryKind::Other, 0));
    let out = listing.finish("/d");
    for e in out.get_array("entries").unwrap() {
        assert_eq!(e.get_str("kind").unwrap(), "other");
    }
    assert_eq!(out.get_array("entries").unwrap()[0].get_u64("size_bytes"), Some(11));
}

#[test]
fn a_long_directory_is_cut_short() {
    let mut listing = Listing::new();
    for i in 0..MAX_ENTRIES {
        assert!(listing.offer(&format!("f{i:04}"), EntryKind::Other, 0));
    }
    assert!(!listing.offer("one more", EntryKind::Symlink, 0));
    let out = listing.finish("/d");
    assert_eq!(items(&out, "entries"), MAX_ENTRIES);
    assert_eq!(out.get_bool("truncated"), Some(true));
}

#[test]
fn single_file_returns_one_entry() {
    let out = FileListTool.single("/d/x.txt", "x.txt", true, 4).unwrap();
    assert_eq!(out.get_str("kind").unwrap(), "file");
    let entries = out.get_array("entries").unwrap();
    assert_eq!(entries.len(), 1);
    assert_eq!(entries[0].get_str("name").unwrap(), "x.txt");
    assert_eq!(entries[0].get_u64("size_bytes"), Some(4));
    assert!(FileListTool.single("/dev/x", "x", false, 0).is_err());
}

#[test]
fn denies_without_capability() {
    let out = FileListTool.authorize(me(), "/d", &vec![false]);
    assert!(matches!(out, Err(CoreError::CapabilityDenied { .. })));
    assert!(FileListTool.authorize(me(), "/d", &vec![true]).is_ok());
    assert!(FileListTool.parse(&obj(vec![])).is_err());
}

// Reading.

fn read(raw: &str, fields: Vec<(&str, Json)>) -> Json {
    let mut all = vec![("path", t("/tmp/x"))];
    all.extend(fields);
    let request = FileReadTool.parse(&obj(all)).unwrap();
    FileReadTool.answer(&request, raw, raw.len() as u64)
}

#[test]
fn read_file_within_glob() {
    let result = read("hello world", vec![]);
    let content = result.get_str("content").unwrap();
    assert!(content.contains("hello world"));
    assert!(content.starts_with("     1\t"), "content should be line-numbered (cat -n style)");
    assert_eq!(content, "     1\thello world\n");
    assert_eq!(result.get_u64("size_bytes"), Some(11));
    assert_eq!(result.get_u64("total_lines"), Some(1));
    assert_eq!(result.get_u64("offset"), Some(1));
    assert_eq!(result.get_bool("truncated"), Some(false));
}

#[test]
fn read_with_offset_and_limit() {
    let raw: String = (1..=10).map(|i| format!("line{i}\n")).collect();
    let result = read(&raw, vec![("offset", n(3)), ("limit", n(4))]);
    let content = result.get_str("content").unwrap();
    // Should contain lines 3..6 inclusive, not 1, 2, 7, 8, 9, 10
    assert!(content.contains("line3"));
    assert!(content.contains("line6"));
    assert!(!content.contains("line2"));
    assert!(!content.contains("line7"));
    assert_eq!(result.get_u64("total_lines"), Some(10));
    assert_eq!(result.get_u64("returned_lines"), Some(4));
    assert_eq!(result.get_u64("offset"), Some(3));
    assert_eq!(result.get_bool("truncated"), Some(true));
}

#[test]
fn pages_of_a_file_make_the_whole() {
    let raw: String = (1..=10).map(|i| format!("line{i}\n")).collect();
    let first = read(&raw, vec![("limit", n(4))]);
    let second = read(&raw, vec![("offset", n(5))]);
    let whole = read(&raw, vec![]);
    let mut joined = first.get_str("content").unwrap().clone();
    joined.push_str(second.get_str("content").unwrap());
    assert_eq!(&joined, whole.get_str("content").unwrap());
}

#[test]
fn read_offset_past_end_returns_empty() {
    let result = read("only line\n", vec![("offset", n(100))]);
    assert_eq!(result.get_str("content").unwrap(), "");
    assert_eq!(result.get_u64("returned_lines"), Some(0));
    assert_eq!(result.get_bool("truncated"), Some(false));
}

#[test]
fn read_file_path_denied() {
    let err = FileReadTool.authorize(me(), "/tmp/x", &vec![false]).unwrap_err().message();
    assert!(err.contains("not permitted"));
}

#[test]
fn read_missing_path_param() {
    assert!(FileReadTool.parse(&obj(vec![])).is_err());
    let zero = FileReadTool.parse(&obj(vec![("path", t("/x")), ("offset", n(0))])).unwrap();
    assert_eq!(zero.offset, 1);
    assert_eq!(zero.limit, 2000);
}

#[test]
fn large_files_and_directories_are_not_read() {
    assert!(FileReadTool.check_file("/x", false, 0).unwrap_err().message().contains("regular"));
    assert!(FileReadTool.check_file("/x", true, 1_048_577).unwrap_err().message().contains("large"));
    assert!(FileReadTool.check_file("/x", true, 1_048_576).is_ok());
}

fn facts(len: u64) -> Result<FileFacts, String> {
    Ok(FileFacts { is_file: true, len })
}

#[test]
fn reads_multiple_files_in_parallel() {
    let tool = FileReadManyTool;
    let one = tool.entry("/tmp/1", Ok("file one".into()), 8);
    let two = tool.entry("/tmp/2", Ok("file two".into()), 8);
    // They come in any order.
    let result = tool.answer(&vec![(1, two), (0, one)]);
    let files = result.get_array("files").unwrap();
    assert_eq!(files.len(), 2);
    assert_eq!(files[0].get_str("content").unwrap(), "file one");
    assert_eq!(files[0].get_str("path").unwrap(), "/tmp/1");
    assert_eq!(files[1].get_str("content").unwrap(), "file two");
    assert_eq!(files[1].get_str("path").unwrap(), "/tmp/2");
    assert_eq!(result.get_u64("count"), Some(2));
}

#[test]
fn partial_failure_does_not_abort_batch() {
    let tool = FileReadManyTool;
    let ok = tool.entry("/tmp/ok", Ok("ok".into()), 2);
    let missing = tool.refused("/tmp/none", &Err("no such file".into())).unwrap();
    let result = tool.answer(&vec![(0, ok), (1, missing)]);
    let files = result.get_array("files").unwrap();
    assert_eq!(files[0].get_str("content").unwrap(), "ok");
    assert_eq!(files[1].get_str("error").unwrap(), "not_found");
}

#[test]
fn per_file_capability_check_denies_out_of_scope() {
    let tool = FileReadManyTool;
    assert!(tool.denied("/tmp/allowed", &vec![true]).is_none());
    let denied = tool.denied("/tmp/forbidden", &vec![false]).unwrap();
    assert_eq!(denied.get_str("error").unwrap(), "capability_denied");
}

#[test]
fn each_way_a_file_can_fail_has_its_name() {
    let tool = FileReadManyTool;
    assert!(tool.refused("/x", &facts(10)).is_none());
    let dir = tool.refused("/x", &Ok(FileFacts { is_file: false, len: 0 })).unwrap();
    assert_eq!(dir.get_str("error").unwrap(), "not_a_file");
    let large = tool.refused("/x", &facts(1_048_577)).unwrap();
    assert_eq!(large.get_str("error").unwrap(), "too_large");
    assert_eq!(large.get_u64("size_bytes"), Some(1_048_577));
    let failed = tool.entry("/x", Err("not utf-8".into()), 3);
    assert_eq!(failed.get_str("error").unwrap(), "read_failed");
}

#[test]
fn rejects_empty_paths() {
    let err = FileReadManyTool.parse(&obj(vec![("paths", Json::Array(vec![]))])).unwrap_err();
    assert!(err.message().contains("must not be empty"));
}

#[test]
fn rejects_over_max_paths() {
    let paths: Vec<Json> = (0..17).map(|i| t(&format!("/tmp/file_{i}"))).collect();
    let err = FileReadManyTool.parse(&obj(vec![("paths", Json::Array(paths))])).unwrap_err();
    assert!(err.message().contains("too many paths"));
}

#[test]
fn rejects_missing_paths_param() {
    assert!(FileReadManyTool.parse(&obj(vec![])).is_err());
}

#[test]
fn rejects_non_string_paths_entries() {
    let paths = Json::Array(vec![t("/tmp/ok"), n(42)]);
    assert!(FileReadManyTool.parse(&obj(vec![("paths", paths)])).is_err());
    let good = Json::Array(vec![t("/tmp/ok")]);
    assert_eq!(FileReadManyTool.parse(&obj(vec![("paths", good)])).unwrap(), vec!["/tmp/ok"]);
}

// Writing.

#[test]
fn write_file_within_glob() {
    let request = FileWriteTool
        .parse(&obj(vec![("path", t("/d/test.md")), ("content", t("hello"))]))
        .unwrap();
    assert_eq!(FileWriteTool.answer(&request).get_u64("bytes_written"), Some(5));
    assert_eq!(request.content, "hello");
    // What the file holds goes only once the write is allowed.
    assert_eq!(request.mode(), AccessMode::WriteCreate);
    assert!(!plan_open(request.mode(), true).truncate);
    let allowed = FileWriteTool.authorize(me(), "/d/test.md", &vec![true], &request).unwrap();
    assert!(allowed.truncate);
}

#[test]
fn write_file_path_denied() {
    let request = FileWriteTool
        .parse(&obj(vec![("path", t("/denied/file.txt")), ("content", t("nope"))]))
        .unwrap();
    let err =
        FileWriteTool.authorize(me(), "/denied/file.txt", &vec![false], &request).unwrap_err();
    assert!(err.message().contains("not permitted"));
}

#[test]
fn write_file_append() {
    let request = FileWriteTool
        .parse(&obj(vec![
            ("path", t("/d/append.txt")),
            ("content", t("bbb")),
            ("append", Json::Bool(true)),
        ]))
        .unwrap();
    assert_eq!(request.mode(), AccessMode::WriteCreateAppend);
    let allowed = FileWriteTool.authorize(me(), "/d/append.txt", &vec![true], &request).unwrap();
    assert!(!allowed.truncate);
}

#[test]
fn writes_are_checked() {
    assert!(FileWriteTool.parse(&obj(vec![("content", t("x"))])).is_err());
    assert!(FileWriteTool.parse(&obj(vec![("path", t("x"))])).is_err());
    let big = "x".repeat(1_048_577);
    let err = FileWriteTool.parse(&obj(vec![("path", t("/x")), ("content", t(&big))])).unwrap_err();
    assert!(err.message().contains("1048577 bytes (max 1048576)"));
}

// Opening.

#[test]
fn files_are_opened_for_what_they_are_opened_for() {
    let read = plan_open(AccessMode::Read, true);
    assert!(read.read && !read.write && !read.create && read.no_links && !read.no_follow);
    let append = plan_open(AccessMode::WriteCreateAppend, false);
    assert!(append.write && append.create && append.append && !append.truncate && append.no_follow);
    let trunc = plan_open(AccessMode::WriteCreateTrunc, false);
    assert!(trunc.truncate && !trunc.append && !trunc.read);
    let edit = plan_open(AccessMode::ReadWriteCreate, true);
    assert!(edit.read && edit.write && edit.create && !edit.truncate);
    let edit = plan_open(AccessMode::ReadWrite, true);
    assert!(edit.read && edit.write && !edit.create && !edit.truncate);
    assert!(plan_open(AccessMode::PathOnly, true).path_only);
    assert!(plan_open(AccessMode::ReadDir, true).directory);
    for mode in [AccessMode::Read, AccessMode::PathOnly, AccessMode::ReadDir] {
        for strict in [true, false] {
            let plan = plan_open(mode, strict);
            assert!(plan.no_follow || plan.no_links);
            assert!(!plan.create && !plan.truncate);
        }
    }
}

#[test]
fn links_and_missing_files_are_told_apart() {
    assert!(matches!(after_strict("/x", &OpenFailure::NotImplemented), AfterStrict::AskAgain));
    assert!(matches!(after_strict("/x", &OpenFailure::NotPermitted), AfterStrict::AskAgain));
    match after_strict("/x", &OpenFailure::Link) {
        AfterStrict::Fail(e) => {
            assert!(e.message().contains("symlink"));
            assert!(e.message().contains("RESOLVE_NO_SYMLINKS"));
        }
        AfterStrict::AskAgain => panic!("a link is refused"),
    }
    match after_strict("/x", &OpenFailure::NotFound) {
        AfterStrict::Fail(e) => assert_eq!(e.message(), "file not found: /x"),
        AfterStrict::AskAgain => panic!("a missing file is missing"),
    }
    assert!(after_plain("/x", &OpenFailure::Link).message().contains("O_NOFOLLOW"));
    assert_eq!(after_plain("/x", &OpenFailure::AccessDenied).message(), "permission denied: /x");
    assert_eq!(
        after_plain("/x", &OpenFailure::Other("EIO".into())).message(),
        "open(/x) failed: EIO"
    );
}

// Searching.

fn match_line(file: &str, line: u64, text: &str) -> String {
    format!(
        "{{\"type\":\"match\",\"data\":{{\"path\":{{\"text\":\"{file}\"}},\"lines\":{{\"text\":\"{text}\\n\"}},\"line_number\":{line}}}}}"
    )
}

#[test]
fn grep_finds_matches() {
    let stdout = format!(
        "{{\"type\":\"begin\"}}\n{}\nnot json\n{}\n{{\"type\":\"summary\"}}\n",
        match_line("/d/a.txt", 1, "foo"),
        match_line("/d/b.txt", 2, "foo"),
    );
    let result = GrepTool.answer("foo", Some(0), &stdout, "").unwrap();
    let matches = result.get_array("matches").unwrap();
    assert_eq!(matches.len(), 2);
    assert_eq!(matches[1].get_str("file").unwrap(), "/d/b.txt");
    assert_eq!(matches[1].get_u64("line"), Some(2));
    assert_eq!(matches[1].get_str("text").unwrap(), "foo");
    assert_eq!(result.get_u64("total_matches"), Some(2));
    assert_eq!(result.get_bool("truncated"), Some(false));
}

#[test]
fn grep_capability_denied() {
    let err = GrepTool.authorize(me(), "/d", &vec![false]).unwrap_err();
    assert!(err.message().contains("not permitted"));
    assert!(GrepTool.check_path("/d", false).unwrap_err().message().contains("does not exist"));
    assert!(GrepTool.check_path("/d", true).is_ok());
}

#[test]
fn grep_no_matches_returns_empty() {
    let result = GrepTool.answer("xyz", Some(1), "", "").unwrap();
    assert_eq!(items(&result, "matches"), 0);
}

#[test]
fn grep_parses_filename_with_colon() {
    let result =
        GrepTool.answer("needle", Some(0), &match_line("/d/weird:name.txt", 1, "needle"), "");
    let result = result.unwrap();
    let matches = result.get_array("matches").unwrap();
    assert_eq!(matches.len(), 1);
    assert!(matches[0].get_str("file").unwrap().ends_with("weird:name.txt"));
}

#[test]
fn a_search_is_called_and_cut_short() {
    let request = GrepTool
        .parse(&obj(vec![
            ("pattern", t("-x")),
            ("path", t("/d")),
            ("glob", t("*.rs")),
            ("case_insensitive", Json::Bool(true)),
        ]))
        .unwrap();
    assert_eq!(request.args(), vec!["--json", "-i", "--glob", "*.rs", "--", "-x", "/d"]);
    assert!(GrepTool.parse(&obj(vec![("pattern", t("x"))])).is_err());
    let err = GrepTool.answer("x", Some(2), "", "bad regex").unwrap_err();
    assert_eq!(err.message(), "rg error (exit 2): bad regex");
    let events: Vec<Json> = (0..201)
        .map(|i| {
            obj(vec![
                ("type", t("match")),
                ("data", obj(vec![("line_number", n(i))])),
            ])
        })
        .collect();
    let result = gather("x", &events, 10);
    assert_eq!(items(&result, "matches"), 200);
    assert_eq!(result.get_bool("truncated"), Some(true));
    assert_eq!(gather("x", &vec![], 16_385).get_bool("truncated"), Some(true));
}

#[test]
fn matches_are_cut_at_sixteen_kilobytes() {
    let line = "x".repeat(196);
    let events: Vec<Json> = (0..100)
        .map(|i| {
            obj(vec![
                ("type", t("match")),
                (
                    "data",
                    obj(vec![
                        ("path", obj(vec![("text", t("a.rs"))])),
                        ("lines", obj(vec![("text", t(&line))])),
                        ("line_number", n(i)),
                    ]),
                ),
            ])
        })
        .collect();
    // Each match is 200 bytes.
    let result = gather("x", &events, 10);
    assert_eq!(items(&result, "matches"), 81);
    assert_eq!(result.get_bool("truncated"), Some(true));
    let few: Vec<Json> = events.iter().take(81).map(|e| e.copy()).collect();
    let result = gather("x", &few, 10);
    assert_eq!(items(&result, "matches"), 81);
    assert_eq!(result.get_bool("truncated"), Some(false));
}

#[test]
fn cut_texts_end_in_a_mark() {
    assert_eq!(cap_bytes("abc", 3), "abc");
    assert_eq!(cap_bytes("abcd", 3), "abc…");
    assert_eq!(cap_bytes("日本", 4), "日…");
    assert_eq!(cap_bytes("日", 2), "…");
}

// Committing.

fn commit_input(message: &str) -> Json {
    obj(vec![("workspace", t("/ws")), ("message", t(message))])
}

fn output(success: bool, code: i32, stdout: &str, stderr: &str) -> ProgramOutput {
    ProgramOutput { success, code: Some(code), stdout: stdout.into(), stderr: stderr.into() }
}

#[test]
fn rejects_message_starting_with_dash() {
    let err = GitCommitTool.parse(&commit_input("--amend")).unwrap_err();
    assert!(err.message().contains("must not start with '-'"));
}

#[test]
fn rejects_workspace_without_git_dir() {
    let err = GitCommitTool.check_workspace("/ws", false).unwrap_err();
    assert!(err.message().contains("not a git repository"));
    assert!(GitCommitTool.check_workspace("/ws", true).is_ok());
}

#[test]
fn git_commit_rejects_workspace_without_capability() {
    let err = GitCommitTool.authorize(me(), "/ws", &vec![false]).unwrap_err();
    assert!(err.message().contains("not permitted"));
}

#[test]
fn commits_staged_file() {
    let request = GitCommitTool.parse(&commit_input("add test")).unwrap();
    assert_eq!(request.paths, vec!["."]);
    assert_eq!(request.args(GitStep::Add), vec!["-C", "/ws", "add", "."]);
    assert_eq!(request.args(GitStep::Commit), vec!["-C", "/ws", "commit", "-m", "add test"]);
    assert_eq!(request.args(GitStep::Head), vec!["-C", "/ws", "rev-parse", "HEAD"]);
    let out = output(true, 0, "[main 1234] add test\n", "");
    assert!(GitCommitTool.committed(&out));
    let sha = GitCommitTool.head_of(&output(true, 0, "abc123\n", "")).unwrap();
    let result = GitCommitTool.answer(&out, 12, Some(sha));
    assert_eq!(result.get_bool("success"), Some(true));
    assert_eq!(result.get_bool("nothing_to_commit"), Some(false));
    assert_eq!(result.get_str("commit_sha").unwrap(), "abc123");
    assert_eq!(result.get_u64("duration_ms"), Some(12));
}

#[test]
fn nothing_to_commit_is_no_failure() {
    let out = output(false, 1, "nothing to commit, working tree clean", "");
    assert!(!GitCommitTool.committed(&out));
    let result = GitCommitTool.answer(&out, 1, None);
    assert_eq!(result.get_bool("success"), Some(true));
    assert_eq!(result.get_bool("nothing_to_commit"), Some(true));
    assert!(matches!(result.get("commit_sha"), Some(Json::Null)));
    assert_eq!(result.get_u64("exit_code"), Some(1));
}

#[test]
fn failing_steps_are_reported() {
    let mut killed = output(false, 0, "", "boom");
    killed.code = None;
    assert_eq!(
        GitCommitTool.check_added(&killed).unwrap_err().message(),
        "git add failed with exit code -1: boom"
    );
    assert!(GitCommitTool.check_added(&output(true, 0, "", "")).is_ok());
    assert!(GitCommitTool.head_of(&output(false, 128, "", "bad")).is_err());
    assert_eq!(
        GitCommitTool.head_of(&output(true, 0, " \n", "")).unwrap_err().message(),
        "empty commit SHA returned"
    );
    assert!(matches!(GitCommitTool.answer(&killed, 0, None).get("exit_code"), Some(Json::Negative(-1))));
}

// Running cargo.

fn cargo_input(subcommand: &str) -> Json {
    obj(vec![("workspace", t("/ws")), ("subcommand", t(subcommand))])
}

#[test]
fn rejects_subcommand_not_in_allowlist() {
    let err = CargoRunTool.parse(&cargo_input("install")).unwrap_err();
    assert!(err.message().contains("not allowed"));
}

#[test]
fn cargo_run_rejects_workspace_without_capability() {
    let err = CargoRunTool.authorize(me(), "/ws", &vec![false]).unwrap_err();
    assert!(err.message().contains("not permitted"));
}

#[test]
fn rejects_missing_cargo_toml() {
    let err = CargoRunTool.check_workspace("/ws", false).unwrap_err();
    assert!(err.message().contains("Cargo.toml"));
}

#[test]
fn cargo_run_check_on_probe_crate() {
    let request = CargoRunTool.parse(&cargo_input("check")).unwrap();
    assert!(request.args.is_empty());
    assert_eq!(request.command_line(), vec!["check"]);
    let result = CargoRunTool.answer(&request.subcommand, &output(true, 0, "ok", ""), 5);
    assert_eq!(result.get_bool("success"), Some(true));
    assert_eq!(result.get_str("subcommand").unwrap(), "check");
    let long = output(true, 0, &"x".repeat(9000), "");
    let result = CargoRunTool.answer("test", &long, 5);
    assert_eq!(result.get_bool("stdout_truncated"), Some(true));
    assert_eq!(result.get_bool("stderr_truncated"), Some(false));
    assert_eq!(result.get_str("stdout").unwrap().len(), 8_195);
}

// Fetching.

#[test]
fn web_fetch_definition() {
    assert_eq!(WebFetchTool.definition().name, "web_fetch");
}

#[test]
fn fetch_missing_url() {
    assert!(WebFetchTool.parse(&obj(vec![])).is_err());
}

#[test]
fn rejects_fetch_without_network_capability() {
    let q = WebFetchTool.parse(&obj(vec![("url", t("https://example.com/"))])).unwrap();
    assert_eq!(q.host, "example.com");
    let result = WebFetchTool.authorize(me(), &q.host, &vec![]);
    assert!(matches!(result, Err(CoreError::CapabilityDenied { .. })));
}

#[test]
fn rejects_host_not_in_grant() {
    let q = WebFetchTool.parse(&obj(vec![("url", t("https://attacker.com/steal"))])).unwrap();
    assert_eq!(q.host, "attacker.com");
    let result = WebFetchTool.authorize(me(), &q.host, &vec![false]);
    assert!(matches!(result, Err(CoreError::CapabilityDenied { .. })));
}

#[test]
fn rejects_non_http_scheme() {
    let err = WebFetchTool.parse(&obj(vec![("url", t("file:///etc/passwd"))])).unwrap_err();
    assert!(err.message().contains("scheme"), "got: {err:?}");
}

#[test]
fn urls_are_judged_by_their_parts() {
    let parts = |scheme: &str, host: Option<&str>| {
        Ok(UrlParts { scheme: scheme.into(), host: host.map(|h| h.to_string()) })
    };
    assert_eq!(host_of(parts("http", Some("a.b"))).unwrap(), "a.b");
    assert_eq!(host_of(parts("https", None)).unwrap_err().message(), "URL has no host");
    assert!(host_of(parts("ftp", Some("a.b"))).is_err());
    assert_eq!(host_of(Err("oops".into())).unwrap_err().message(), "invalid URL: oops");
    let err = WebFetchTool.parse(&obj(vec![("url", t("not a url"))])).unwrap_err();
    assert_eq!(err.message(), "invalid URL: relative URL without a base");
    let q = WebFetchTool.parse(&obj(vec![("url", t("HTTPS://user@Example.COM:8080/x"))])).unwrap();
    assert_eq!(q.host, "example.com");
    assert_eq!(q.max_bytes, 50_000);
}

#[test]
fn truncates_body_at_max_bytes() {
    let mut body = Body::new(10_000);
    assert!(body.take(&vec![b'x'; 6_000]));
    assert!(!body.take(&vec![b'x'; 6_000]));
    assert_eq!(body.bytes().len(), 10_000);
    assert!(body.truncated());
    let result = WebFetchTool.answer(200, Some("text/plain"), &body);
    assert_eq!(result.get_bool("truncated"), Some(true));
    assert_eq!(result.get_u64("bytes_read"), Some(10_000));
    assert_eq!(result.get_str("body").unwrap().len(), 10_000);
}

#[test]
fn rejects_content_length_over_10x_cap() {
    let err = WebFetchTool.check_length(Some(500_001), 50_000).unwrap_err();
    assert!(err.message().contains("too large"));
    assert!(WebFetchTool.check_length(Some(500_000), 50_000).is_ok());
    assert!(WebFetchTool.check_length(None, 50_000).is_ok());
    assert!(WebFetchTool.check_length(Some(u64::MAX), u64::MAX).is_ok());
}

#[test]
fn small_body_under_cap_not_truncated() {
    let mut body = Body::new(50_000);
    assert!(body.take(&vec![b'x'; 500]));
    let result = WebFetchTool.answer(200, None, &body);
    assert_eq!(result.get_str("body").unwrap(), &"x".repeat(500));
    assert_eq!(result.get_bool("truncated"), Some(false));
    assert_eq!(result.get_u64("bytes_read"), Some(500));
    assert_eq!(result.get_str("content_type").unwrap(), "unknown");
    assert_eq!(result.get_u64("status"), Some(200));
}

#[test]
fn bytes_that_are_no_text_are_shown_all_the_same() {
    let mut body = Body::new(100);
    assert!(body.take(&vec![b'a', 0xff, b'b']));
    let result = WebFetchTool.answer(200, None, &body);
    assert_eq!(result.get_str("body").unwrap(), "a\u{fffd}b");
    assert_eq!(result.get_u64("bytes_read"), Some(3));
    let out = ProgramOutput::of_bytes(false, Some(1), &"é".as_bytes().to_vec(), &vec![0xfe]);
    assert_eq!(out.stdout, "é");
    assert_eq!(out.stderr, "\u{fffd}");
    assert_eq!((out.success, out.code), (false, Some(1)));
}

#[test]
fn a_body_reads_the_same_in_any_parts() {
    let whole: Vec<u8> = (0..100u8).collect();
    for size in [1usize, 7, 33, 100] {
        let mut body = Body::new(40);
        for part in whole.chunks(size) {
            if !body.take(&part.to_vec()) {
                break;
            }
        }
        assert_eq!(body.bytes(), &whole[..40].to_vec());
    }
}

// Skills.

fn skill(name: &str, prompt: &str) -> Skill {
    Skill {
        name: name.into(),
        path: format!("/skills/{name}"),
        catalog_entry: format!("- **{name}**: Does A."),
        activation_prompt: prompt.into(),
        reference_files: vec![
            format!("/skills/{name}/references/GUIDE.md"),
            "/elsewhere/x.md".into(),
        ],
    }
}

#[test]
fn read_skill_instructions() {
    let tool = SkillReadTool::new(SkillRegistry::new(vec![skill("test-skill", "Do the thing")]));
    let q = tool.parse(&obj(vec![("skill_name", t("test-skill"))])).unwrap();
    assert!(q.file.is_none());
    let (event, result) = tool.instructions(me(), &q.skill).unwrap();
    assert!(result.get_str("instructions").unwrap().contains("Do the thing"));
    let files = result.get_array("reference_files").unwrap();
    assert_eq!(files.len(), 1);
    assert_eq!(files[0].as_str().unwrap(), "references/GUIDE.md");
    assert!(matches!(&event.event, AuditEventKind::ToolInvoked { input_hash, .. }
        if input_hash == "test-skill"));
}

#[test]
fn read_reference_file() {
    let tool = SkillReadTool::new(SkillRegistry::new(vec![skill("ref-skill", "x")]));
    let q = tool
        .parse(&obj(vec![("skill_name", t("ref-skill")), ("file", t("references/GUIDE.md"))]))
        .unwrap();
    assert_eq!(q.directory, "/skills/ref-skill");
    let file = q.file.unwrap();
    assert!(tool.check_file("/skills/ref-skill/references/GUIDE.md", &q.directory).is_ok());
    let (event, result) = tool.file_read(me(), &q.skill, &file, "# Guide\nDetailed info.");
    assert_eq!(result.get_str("content").unwrap(), "# Guide\nDetailed info.");
    assert!(matches!(&event.event, AuditEventKind::ToolInvoked { input_hash, .. }
        if input_hash == "ref-skill:references/GUIDE.md"));
}

#[test]
fn path_traversal_blocked() {
    let tool = SkillReadTool::new(SkillRegistry::new(vec![skill("safe-skill", "x")]));
    assert!(tool.check_file("/etc/passwd", "/skills/safe-skill").is_err());
    assert!(!within("/skills/safe-skill-2/x", "/skills/safe-skill"));
    assert!(within("/skills/safe-skill", "/skills/safe-skill"));
    assert!(within("/anything", "/"));
}

#[test]
fn paths_are_compared_part_by_part() {
    for (path, dir, rest) in [
        ("/skills/a/x.md", "/skills/a", Some("x.md")),
        ("/skills/a/x.md", "/skills/a/", Some("x.md")),
        ("/skills//a/./x.md", "/skills/a", Some("x.md")),
        ("/skills/a//b/./c/", "/skills/a", Some("b/./c")),
        ("/skills/a", "/skills/a", Some("")),
        ("/skills/ab", "/skills/a", None),
        ("/skills", "/skills/a", None),
        ("skills/a/x", "/skills/a", None),
        ("skills/a/x", "skills", Some("a/x")),
        ("./skills/x", "skills", None),
        ("./skills/x", "./skills/.", Some("x")),
        ("/x", "/", Some("x")),
        ("./x/", "", Some("./x")),
        ("/.", "", Some("/")),
        ("", "", Some("")),
    ] {
        assert_eq!(strip_dir(path, dir).as_deref(), rest, "{path} in {dir}");
        assert_eq!(
            std::path::Path::new(path).strip_prefix(dir).ok().map(|p| p.to_str().unwrap()),
            rest,
            "{path} in {dir}"
        );
    }
}

#[test]
fn unknown_skill_returns_error() {
    let tool = SkillReadTool::new(SkillRegistry::new(vec![]));
    assert!(tool.parse(&obj(vec![("skill_name", t("nonexistent"))])).is_err());
    assert!(tool.parse(&obj(vec![])).is_err());
    assert!(tool.instructions(me(), "nonexistent").is_none());
    assert_eq!(tool.registry.catalog(), "");
}

#[test]
fn catalog_generation() {
    let registry = SkillRegistry::new(vec![skill("skill-a", "x"), skill("skill-b", "y")]);
    let catalog = registry.catalog();
    assert!(catalog.contains("## Available Skills"));
    assert!(catalog.contains("**skill-a**: Does A."));
    assert_eq!(registry.names(), vec!["skill-a", "skill-b"]);
    let twice = SkillRegistry::new(vec![skill("s", "first"), skill("s", "second")]);
    assert_eq!(twice.get("s").unwrap().activation_prompt, "second");
    assert_eq!(twice.names().len(), 1);
}

// Memories.

#[test]
fn store_fact_returns_memory_id() {
    let tool = MemoryStoreTool::new(4096);
    let q = tool
        .parse(&obj(vec![("content", t("The sky is blue")), ("category", t("fact"))]))
        .unwrap();
    let (event, result) = tool.stored(me(), &q, 0x10);
    assert_eq!(result.get_str("status").unwrap(), "stored");
    assert_eq!(
        result.get_str("memory_id").unwrap(),
        "00000000-0000-0000-0000-000000000010"
    );
    match event.event {
        AuditEventKind::MemoryStored { memory_id, category, content_hash } => {
            assert_eq!(memory_id, 0x10);
            assert_eq!(category, "fact");
            assert_eq!(content_hash.len(), 64);
            assert!(!content_hash.contains("sky"));
        }
        other => panic!("a memory was stored: {other:?}"),
    }
}

#[test]
fn digests_are_those_of_the_content() {
    let (event, _) = MemoryQueryTool.found(me(), "abc", &vec![]);
    match event.event {
        AuditEventKind::MemoryQueried { query_hash, results_count } => {
            assert_eq!(
                query_hash,
                "ba7816bf8f01cfea414140de5dae2223b00361a396177a9cb410ff61f20015ad"
            );
            assert_eq!(results_count, 0);
        }
        other => panic!("a question was asked: {other:?}"),
    }
}

#[test]
fn store_content_too_large() {
    let tool = MemoryStoreTool::new(100);
    let big = "x".repeat(200);
    let err = tool.parse(&obj(vec![("content", t(&big)), ("category", t("fact"))])).unwrap_err();
    assert!(err.message().contains("too large"));
    assert_eq!(err.message(), "content too large: 200 bytes exceeds max 100 bytes");
}

#[test]
fn store_invalid_category() {
    let tool = MemoryStoreTool::new(100);
    let err =
        tool.parse(&obj(vec![("content", t("test")), ("category", t("invalid_cat"))])).unwrap_err();
    assert!(err.message().contains("invalid category"));
}

#[test]
fn store_missing_content() {
    let tool = MemoryStoreTool::new(100);
    assert!(tool.parse(&obj(vec![("category", t("fact"))])).is_err());
    assert!(tool.parse(&obj(vec![("content", t("x"))])).is_err());
}

#[test]
fn a_memory_can_stand_for_another() {
    let tool = MemoryStoreTool::new(100);
    let with = |r: &str| {
        tool.parse(&obj(vec![
            ("content", t("x")),
            ("category", t("decision")),
            ("replaces", t(r)),
        ]))
        .unwrap()
    };
    assert_eq!(with("00000000-0000-0000-0000-0000000000ff").replaces, Some(255));
    assert_eq!(with("nothing").replaces, None);
    assert_eq!(with("nothing").category, MemoryCategory::Decision);
}

fn hit(content: &str, category: MemoryCategory) -> MemoryHit {
    MemoryHit {
        id: 7,
        content: content.into(),
        category,
        relevance_score: Json::Decimal("0.5".into()),
        created_at: Timestamp { secs: 0, nanos: 0 },
    }
}

#[test]
fn query_after_store_returns_results() {
    let hits = vec![hit("Rust is a systems language", MemoryCategory::Fact)];
    let (_, result) = MemoryQueryTool.found(me(), "Rust programming", &hits);
    assert_eq!(result.get_u64("count"), Some(1));
    let results = result.get_array("results").unwrap();
    assert_eq!(results[0].get_str("content").unwrap(), "Rust is a systems language");
    assert_eq!(results[0].get_str("created_at").unwrap(), "1970-01-01T00:00:00+00:00");
    assert_eq!(results[0].get_str("category").unwrap(), "fact");
    assert!(results[0].get("relevance_score").is_some());
}

#[test]
fn query_empty_store_returns_empty() {
    let (_, result) = MemoryQueryTool.found(me(), "anything", &vec![]);
    assert_eq!(result.get_u64("count"), Some(0));
    assert_eq!(items(&result, "results"), 0);
}

#[test]
fn query_category_filter() {
    let q = MemoryQueryTool
        .parse(&obj(vec![("query", t("database")), ("category", t("fact"))]))
        .unwrap();
    assert_eq!(q.category, Some(MemoryCategory::Fact));
    assert_eq!(q.limit, 5);
    let err = MemoryQueryTool
        .parse(&obj(vec![("query", t("database")), ("category", t("rumour"))]))
        .unwrap_err();
    assert_eq!(err.message(), "invalid category");
}

#[test]
fn query_missing_query_param() {
    assert!(MemoryQueryTool.parse(&obj(vec![])).is_err());
    let limit = |v: u64| {
        MemoryQueryTool.parse(&obj(vec![("query", t("x")), ("limit", n(v))])).unwrap().limit
    };
    assert_eq!(limit(0), 1);
    assert_eq!(limit(20), 20);
    assert_eq!(limit(21), 20);
}

#[test]
fn delete_existing_memory() {
    let text = "00000000-0000-0000-0000-00000000002a";
    let (name, id) = MemoryDeleteTool.parse(&obj(vec![("memory_id", t(text))])).unwrap();
    assert_eq!(id, 42);
    let (event, result) = MemoryDeleteTool.deleted(me(), &name);
    assert_eq!(result.get_str("status").unwrap(), "deleted");
    assert_eq!(result.get_str("memory_id").unwrap(), text);
    assert!(matches!(&event.event, AuditEventKind::ToolInvoked { tool, .. }
        if tool == "memory_delete"));
}

#[test]
fn delete_invalid_uuid() {
    let err = MemoryDeleteTool.parse(&obj(vec![("memory_id", t("not-a-uuid"))])).unwrap_err();
    assert!(err.message().contains("invalid UUID"));
    assert!(identified("x".into(), None).is_err());
    assert_eq!(identified("x".into(), Some(3)).unwrap(), ("x".to_string(), 3));
}

#[test]
fn delete_missing_memory_id() {
    assert!(MemoryDeleteTool.parse(&obj(vec![])).is_err());
}

#[test]
fn categories_are_read_from_their_names() {
    for c in [
        MemoryCategory::Fact,
        MemoryCategory::Observation,
        MemoryCategory::Decision,
        MemoryCategory::Preference,
    ] {
        assert_eq!(MemoryCategory::parse(c.name()), Some(c));
    }
    assert_eq!(MemoryCategory::parse("Fact"), None);
}
