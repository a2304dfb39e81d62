use aaos::clock::Timestamp;
use aaos::llm::{ContentBlock, Message};
use aaos::persistent::{
    extract_user_message, ExecutionResult, PersistentLoop, Reply, Step, StopReason,
};
use aaos::process::AgentCommand;
use aaos::audit::AuditEventKind;
use aaos::json::Json;
use aaos::session::{
    expired, has_cutoff, prune_cutoff, sort_by_time, ArchiveSegment, InMemorySessionStore,
    JsonlSessionStore, SessionStore,
};
use aaos::types::{AgentId, Span};
use serde_json::Value;

const HOUR: i64 = 3_600;
const DAY: i64 = 86_400;
const NOW: i64 = 1_776_000_000;

fn at(secs: i64) -> Timestamp {
    Timestamp { secs, nanos: 0 }
}

fn user(s: &str) -> Message {
    Message::User { content: s.into() }
}

fn said(s: &str) -> Message {
    Message::Assistant { content: vec![ContentBlock::Text { text: s.into() }] }
}

fn agent(n: u128) -> AgentId {
    AgentId { uuid: n }
}

fn text_of(m: &Message) -> &str {
    match m {
        Message::User { content } => content,
        other => panic!("expected User, got {other:?}"),
    }
}

fn segment(range: (usize, usize), messages: Vec<Message>, archived_at: Timestamp) -> ArchiveSegment {
    ArchiveSegment { source_range: range, messages, archived_at }
}

// A file of the store, with messages of users written as JSON texts.
struct File {
    store: JsonlSessionStore,
    text: String,
}

impl File {
    fn new() -> File {
        File { store: JsonlSessionStore::new("/tmp/sessions".into()), text: String::new() }
    }

    fn append(&mut self, messages: &[&str]) {
        let lines: Vec<String> =
            messages.iter().map(|m| Value::String(m.to_string()).to_string()).collect();
        self.text.push_str(&self.store.write_lines(&lines));
    }

    fn load(&self) -> Vec<String> {
        self.store
            .read_lines(&self.text)
            .iter()
            .map(|l| serde_json::from_str::<String>(l).unwrap())
            .collect()
    }
}

#[test]
fn jsonl_append_and_load() {
    let mut file = File::new();
    file.append(&["hello", "hi there"]);
    let loaded = file.load();
    assert_eq!(loaded.len(), 2);
    assert_eq!(loaded[0], "hello");
}

#[test]
fn jsonl_multiple_appends_preserve_order() {
    let mut file = File::new();
    file.append(&["first"]);
    file.append(&["second"]);
    file.append(&["third"]);
    let loaded = file.load();
    assert_eq!(loaded.len(), 3);
    assert_eq!(loaded[2], "third");
}

#[test]
fn jsonl_load_missing_file_returns_empty() {
    assert!(File::new().load().is_empty());
}

#[test]
fn jsonl_clear_then_load() {
    let mut file = File::new();
    file.append(&["data"]);
    file.text.clear();
    assert!(file.load().is_empty());
}

#[test]
fn jsonl_simulated_restart() {
    let mut file = File::new();
    file.append(&["session 1 msg"]);
    let again = File { store: JsonlSessionStore::new("/tmp/sessions".into()), text: file.text };
    let loaded = again.load();
    assert_eq!(loaded.len(), 1);
    assert_eq!(loaded[0], "session 1 msg");
}

#[test]
fn lines_with_nothing_in_them_are_passed_over() {
    let store = JsonlSessionStore::new("/tmp".into());
    assert_eq!(store.read_lines("  {\"a\":1}  \r\n\n \t\n{}\n"), vec!["{\"a\":1}", "{}"]);
    assert_eq!(store.write_lines(&vec!["{}".into(), "[]".into()]), "{}\n[]\n");
    assert_eq!(store.write_lines(&vec![]), "");
}

#[test]
fn files_are_named_after_their_agents() {
    let store = JsonlSessionStore::new("/tmp".into());
    let a = agent(0xab);
    assert_eq!(store.file_name(&a), "00000000-0000-0000-0000-0000000000ab.jsonl");
    let name = store.archive_name(&a, &agent(1));
    assert_eq!(
        name,
        "00000000-0000-0000-0000-0000000000ab.archive.00000000-0000-0000-0000-000000000001.json"
    );
    assert!(store.is_archive_of(&a, &name));
    assert!(!store.is_archive_of(&agent(1), &name));
    assert!(!store.is_archive_of(&a, &store.file_name(&a)));
    assert!(!store.is_archive_of(&a, "00000000-0000-0000-0000-0000000000ab.archive.x.tmp"));
}

#[test]
fn in_memory_store_basic() {
    let mut store = InMemorySessionStore::new();
    let id = agent(1);
    store.append(&id, &vec![user("test")]).unwrap();
    let loaded = store.load(&id).unwrap();
    assert_eq!(loaded.len(), 1);
    assert_eq!(text_of(&loaded[0]), "test");
    store.append(&id, &vec![user("more")]).unwrap();
    assert_eq!(text_of(&store.load(&id).unwrap()[1]), "more");
    assert!(store.load(&agent(2)).unwrap().is_empty());
    store.clear(&id).unwrap();
    assert!(store.load(&id).unwrap().is_empty());
}

#[test]
fn jsonl_archive_and_load() {
    // Ordering what was read is the same for every store.
    let read = vec![segment((0, 2), vec![user("old message 1"), user("old message 2")], at(NOW))];
    let archives = sort_by_time(&read);
    assert_eq!(archives.len(), 1);
    assert_eq!(archives[0].messages.len(), 2);
    assert_eq!(archives[0].source_range, (0, 2));
}

#[test]
fn jsonl_multiple_archives_sorted() {
    let seg1 = segment((0, 5), vec![user("batch 1")], at(NOW - 2 * HOUR));
    let seg2 = segment((6, 10), vec![user("batch 2")], at(NOW));
    // A directory is read in any order.
    let archives = sort_by_time(&vec![seg2, seg1]);
    assert_eq!(archives.len(), 2);
    assert_eq!(archives[0].source_range, (0, 5));
    assert!(archives[0].archived_at.at_most(&archives[1].archived_at));
}

#[test]
fn segments_of_the_same_time_keep_their_order() {
    let archives = sort_by_time(&vec![
        segment((4, 4), vec![], at(2)),
        segment((1, 1), vec![], at(1)),
        segment((5, 5), vec![], at(2)),
        segment((2, 2), vec![], at(1)),
    ]);
    let order: Vec<usize> = archives.iter().map(|s| s.source_range.0).collect();
    assert_eq!(order, vec![1, 2, 4, 5]);
}

#[test]
fn jsonl_prune_archives_by_age() {
    let cutoff = prune_cutoff(at(NOW), Span::from_secs(30 * DAY as u64));
    assert_eq!(cutoff.secs, NOW - 30 * DAY);
    let times = [at(NOW - 60 * DAY), at(NOW)];
    let remaining = times.iter().filter(|t| !expired(t, &cutoff)).count();
    assert_eq!(times.len() - remaining, 1);
    assert_eq!(remaining, 1);
    assert!(!expired(&cutoff, &cutoff));
}

#[test]
fn an_age_beyond_all_spans_is_a_year() {
    let cutoff = prune_cutoff(at(NOW), Span { secs: u64::MAX, nanos: 0 });
    assert_eq!(cutoff.secs, NOW - 365 * DAY);
    let exact = prune_cutoff(Timestamp { secs: NOW, nanos: 1 }, Span { secs: 1, nanos: 2 });
    assert_eq!((exact.secs, exact.nanos), (NOW - 2, 999_999_999));
}

#[test]
fn the_calendar_has_two_ends() {
    let first = -8_334_601_228_800;
    let last = 8_210_266_876_799;
    for secs in [first - 1, first, NOW, last, last + 1] {
        let reached = chrono::DateTime::from_timestamp(secs, 999_999_999).is_some();
        assert_eq!(Timestamp { secs, nanos: 999_999_999 }.is_in_calendar(), reached, "{secs}");
        assert_eq!(reached, secs >= first && secs <= last);
    }
    assert!(!Timestamp { secs: NOW, nanos: 1_000_000_000 }.is_in_calendar());
    assert!(has_cutoff(at(first + DAY), Span::from_secs(DAY as u64)));
    assert!(!has_cutoff(at(first + DAY), Span::from_secs(DAY as u64 + 1)));
    assert!(!has_cutoff(at(last + 1), Span::from_secs(0)));
    assert_eq!(prune_cutoff(at(first + DAY), Span::from_secs(DAY as u64)).secs, first);
}

#[test]
fn in_memory_archive_basic() {
    let mut store = InMemorySessionStore::new();
    let id = agent(1);
    store.archive_segment(&id, &segment((0, 3), vec![user("archived")], at(NOW))).unwrap();
    let archives = store.load_archives(&id).unwrap();
    assert_eq!(archives.len(), 1);
    assert!(store.load(&id).unwrap().is_empty());
}

#[test]
fn in_memory_archives_are_pruned_once() {
    let mut store = InMemorySessionStore::new();
    let id = agent(1);
    store.archive_segment(&id, &segment((6, 10), vec![user("new")], at(NOW))).unwrap();
    store.archive_segment(&id, &segment((0, 5), vec![user("old")], at(NOW - 60 * DAY))).unwrap();
    assert_eq!(store.load_archives(&id).unwrap()[0].source_range, (0, 5));
    let cutoff = prune_cutoff(at(NOW), Span::from_secs(30 * DAY as u64));
    assert_eq!(store.prune_archives(&agent(2), &cutoff).unwrap(), 0);
    assert_eq!(store.prune_archives(&id, &cutoff).unwrap(), 1);
    assert_eq!(store.prune_archives(&id, &cutoff).unwrap(), 0);
    let left = store.load_archives(&id).unwrap();
    assert_eq!(left.len(), 1);
    assert_eq!(text_of(&left[0].messages[0]), "new");
}

// The loop of a persistent agent.

fn hello() -> Json {
    Json::Object(vec![("message".into(), Json::Text("Hello".into()))])
}

fn answered(response: &str, delta: Vec<Message>) -> ExecutionResult {
    ExecutionResult {
        stop_reason: StopReason::Other("complete".into()),
        iterations: 1,
        transcript_delta: delta,
        response: response.into(),
        input_tokens: 10,
        output_tokens: 5,
    }
}

fn failed(why: &str) -> ExecutionResult {
    let mut r = answered("", vec![user("lost")]);
    r.stop_reason = StopReason::Error(why.into());
    r
}

#[test]
fn persistent_loop_processes_message() {
    let id = agent(1);
    let mut store = InMemorySessionStore::new();
    let (mut state, _) = PersistentLoop::start(id, store.load(&id).unwrap(), None);
    assert_eq!(state.max_history, 100);

    let (event, asked) = state.receive(7, "agent.run", &hello());
    assert_eq!(asked, "Hello");
    assert!(matches!(&event.event, AuditEventKind::AgentMessageReceived { trace_id: 7, method }
        if method == "agent.run"));

    let turn = state
        .conclude(7, answered("Hello back!", vec![user("Hello"), said("Hello back!")]));
    match &turn.reply {
        Reply::Success(v) => {
            assert_eq!(v.get_str("response").unwrap(), "Hello back!");
            assert_eq!(v.get("usage").unwrap().get_u64("input_tokens"), Some(10));
            assert_eq!(v.get_u64("iterations"), Some(1));
            assert_eq!(v.get_str("stop_reason").unwrap(), "complete");
        }
        other => panic!("expected an answer, got {other:?}"),
    }
    assert_eq!(turn.trace_id, 7);
    store.append(&id, &turn.append).unwrap();
    assert!(turn.rewrite.is_none());

    assert!(matches!(state.command(Some(AgentCommand::Stop)), Step::Stop(_)));
    assert!(!store.load(&id).unwrap().is_empty());
}

#[test]
fn persistent_loop_survives_executor_error() {
    let (mut state, _) = PersistentLoop::start(agent(1), vec![], Some(10));
    // First message: will fail
    let first = state.conclude(1, failed("simulated failure"));
    match &first.reply {
        Reply::Failure { code, message } => {
            assert_eq!(*code, -32603);
            assert_eq!(message, "simulated failure");
        }
        other => panic!("expected an error, got {other:?}"),
    }
    assert!(matches!(&first.event.event,
        AuditEventKind::AgentExecutionCompleted { stop_reason, .. }
            if stop_reason == "error: simulated failure"));
    assert!(first.append.is_empty());
    assert!(state.history.is_empty());
    // Second message: should succeed (loop survived)
    let second = state
        .conclude(2, answered("Recovered!", vec![user("Recover"), said("Recovered!")]));
    match &second.reply {
        Reply::Success(v) => assert_eq!(v.get_str("response").unwrap(), "Recovered!"),
        other => panic!("expected an answer, got {other:?}"),
    }
    assert_eq!(state.messages_processed, 2);
}

#[test]
fn persistent_loop_stop_clean_shutdown() {
    let (mut state, started) = PersistentLoop::start(agent(1), vec![], None);
    assert!(matches!(&started.event, AuditEventKind::AgentLoopStarted { lifecycle }
        if lifecycle == "persistent"));
    match state.command(Some(AgentCommand::Stop)) {
        Step::Stop(e) => assert!(matches!(&e.event, AuditEventKind::AgentLoopStopped {
            reason, messages_processed: 0 } if reason == "normal")),
        Step::Continue => panic!("the loop must end"),
    }
}

#[test]
fn a_paused_loop_can_go_on_or_stop() {
    let (mut state, _) = PersistentLoop::start(agent(1), vec![], None);
    assert!(matches!(state.command(Some(AgentCommand::Pause)), Step::Continue));
    assert!(matches!(state.command(Some(AgentCommand::Pause)), Step::Continue));
    assert!(state.paused);
    assert!(matches!(state.command(Some(AgentCommand::Resume)), Step::Continue));
    assert!(!state.paused);
    assert!(matches!(state.command(Some(AgentCommand::Pause)), Step::Continue));
    match state.command(None) {
        Step::Stop(e) => assert!(matches!(&e.event, AuditEventKind::AgentLoopStopped {
            reason, .. } if reason == "stopped_while_paused")),
        Step::Continue => panic!("the loop must end"),
    }
}

#[test]
fn what_is_stored_is_what_is_remembered() {
    let id = agent(1);
    let mut store = InMemorySessionStore::new();
    let (mut state, _) = PersistentLoop::start(id, vec![], Some(6));
    for i in 0..25u32 {
        let turn = state
            .conclude(1, answered("ok", vec![user(&format!("q{i}")), said(&format!("a{i}"))]));
        store.append(&id, &turn.append).unwrap();
        assert_eq!(turn.rewrite.is_some(), (i + 1) % 10 == 0);
        if let Some(all) = &turn.rewrite {
            store.clear(&id).unwrap();
            store.append(&id, all).unwrap();
        }
        assert!(state.history.len() <= 6);
        let stored = store.load(&id).unwrap();
        assert!(stored.len() <= 6 + 2 * 9);
        let last = &stored[stored.len() - state.history.len()..];
        assert_eq!(format!("{last:?}"), format!("{:?}", state.history));
    }
}

#[test]
fn every_message_is_answered_in_order() {
    let (mut state, _) = PersistentLoop::start(agent(1), vec![], Some(50));
    let mut answers = vec![];
    for trace in 100..112u128 {
        let before = format!("{:?}", state.history);
        let result = if trace % 3 == 0 { failed("no") } else { answered("yes", vec![user("q")]) };
        let turn = state.conclude(trace, result);
        let refused = matches!(&turn.reply, Reply::Failure { message, .. } if message == "no");
        assert_eq!(refused, trace % 3 == 0);
        if refused {
            assert!(turn.append.is_empty() && turn.rewrite.is_none());
            assert_eq!(format!("{:?}", state.history), before);
        }
        answers.push(turn.trace_id);
    }
    assert_eq!(answers, (100..112u128).collect::<Vec<_>>());
    assert_eq!(state.history.len(), 8);
    assert!(matches!(state.stopped().event, AuditEventKind::AgentLoopStopped {
        messages_processed: 12, .. }));
}

#[test]
fn messages_without_words_ask_by_their_method() {
    assert_eq!(extract_user_message("ping", &Json::Null), "ping");
    let number = Json::Object(vec![("message".into(), Json::Unsigned(4))]);
    assert_eq!(extract_user_message("ping", &number), "ping");
    assert_eq!(extract_user_message("ping", &hello()), "Hello");
}
