//! Calling tools: who may, how often, and what goes on record.
//!
//! A call is begun, made by the caller in the worker or in the daemon, and
//! finished; what happens around the call is decided here.

use crate::audit::{events_view, AuditEvent, AuditEventKind, AuditEventKindView, ToolExecutionSurface};
use crate::capability::{Capability, CapabilityView};
use crate::error::{error_words, CoreError, CoreErrorView};
use crate::ids::hex_digit;
use crate::json::{field, json_text, write_json, Json, JsonView};
use crate::table::{lemma_stored_lookup, stored};
use crate::text::{
    byte_len, contains_text, decimal, decimal_text, parse_number, parsed_number, same,
};
use crate::text_laws::{law_four_parts, law_text_holds_its_parts};
use crate::tools::definition::{entry, fields_view, object};
use crate::tools::output::{cap_bytes, cut, law_cut_is_short};
use crate::tools::routing::{route_for, routed};
use crate::types::AgentId;
use std::collections::hash_map::DefaultHasher;
use std::hash::Hasher;
use vstd::prelude::*;
use vstd::std_specs::hash::DefaultHasherAdditionalSpecFns;
use vstd::string::*;
use vstd::utf8::*;

verus! {

/// How large a preview may be, in bytes, before it is cut.
pub const PREVIEW_CAP: usize = 200;

/// How many different calls are counted at a time.
pub const REPEAT_COUNTS_MAX: usize = 1024;

/// How many counts are dropped to make room.
pub const REPEAT_COUNTS_DROPPED: usize = 256;

/// From how many equal calls on a call is a repeat, where nothing else is
/// said.
pub const DEFAULT_REPEAT_THRESHOLD: u32 = 3;

/// A text as it is shown to an operator: cut where it is long.
pub open spec fn preview(s: Seq<char>) -> Seq<char> {
    cut(s, PREVIEW_CAP as nat)
}

/// A text as it is shown to an operator.
pub fn preview_str(s: &str) -> (r: String)
    ensures
        r@ == preview(s@),
{
    cap_bytes(s, PREVIEW_CAP)
}

/// A preview is never larger than the cap and the mark behind it.
pub proof fn law_preview_is_short(s: Seq<char>)
    ensures
        byte_len(preview(s)) <= PREVIEW_CAP + 3,
{
    law_cut_is_short(s, PREVIEW_CAP as nat);
}

/// A value as it is shown to an operator.
pub open spec fn preview_json(j: JsonView) -> Seq<char> {
    match j {
        JsonView::Text(t) => preview(t),
        JsonView::Null => "null"@,
        _ => preview(json_text(j)),
    }
}

/// A value as it is shown to an operator.
pub fn preview_value(v: &Json) -> (r: String)
    ensures
        r@ == preview_json(v@),
{
    match v {
        Json::Text(t) => preview_str(t.as_str()),
        Json::Null => "null".to_owned(),
        _ => {
            let written = write_json(v);
            preview_str(written.as_str())
        },
    }
}

/// The hash of a text, as the standard hasher gives it for the text with the
/// byte that ends it.
pub open spec fn text_hash(t: Seq<char>) -> u64 {
    DefaultHasher::spec_finish(seq![encode_utf8(t), seq![0xffu8]])
}

/// The hash of a value, for the record: that of its text.
pub fn md5_hash(value: &Json) -> (r: u64)
    ensures
        r == text_hash(json_text(value@)),
{
    let written = write_json(value);
    let mut hasher = DefaultHasher::new();
    hasher.write(written.as_str().as_bytes());
    let mut end: Vec<u8> = Vec::new();
    end.push(0xff);
    hasher.write(end.as_slice());
    assert(end@ =~= seq![0xffu8]);
    assert(hasher@ =~= seq![encode_utf8(json_text(value@)), seq![0xffu8]]);
    hasher.finish()
}

/// A number in hexadecimal.
pub open spec fn hexadecimal(n: nat) -> Seq<char>
    decreases n,
{
    if n < 16 {
        seq![hex_digit(n)]
    } else {
        hexadecimal(n / 16).push(hex_digit(n % 16))
    }
}

/// A number in hexadecimal.
pub fn hex_text(n: u64) -> (r: String)
    ensures
        r@ == hexadecimal(n as nat),
    decreases n,
{
    let low: u64 = n % 16;
    let c: char = if low < 10 {
        (48 + low as u8) as char
    } else {
        (87 + low as u8) as char
    };
    if n < 16 {
        let mut r = String::new();
        r.push(c);
        assert(r@ =~= seq![hex_digit(n as nat)]);
        r
    } else {
        let mut r = hex_text(n / 16);
        r.push(c);
        r
    }
}

/// From how many equal calls on a call is a repeat; `setting` is what was
/// asked for, if anything was.
pub fn repeat_threshold(setting: Option<&str>) -> (r: u32)
    ensures
        r == (match setting {
            Some(t) => match parsed_number(t@, u32::MAX as nat) {
                Some(n) => n as u32,
                None => DEFAULT_REPEAT_THRESHOLD,
            },
            None => DEFAULT_REPEAT_THRESHOLD,
        }),
{
    match setting {
        Some(t) => match parse_number(t, u32::MAX as u64) {
            Some(n) => n as u32,
            None => DEFAULT_REPEAT_THRESHOLD,
        },
        None => DEFAULT_REPEAT_THRESHOLD,
    }
}

/// How often a call was made.
#[derive(Debug)]
struct RepeatEntry {
    agent_id: AgentId,
    tool: String,
    hash: u64,
    count: u32,
}

/// How often an agent made a call: the tool, and the hash of what it was
/// called with.
pub struct Repeat {
    pub agent_id: AgentId,
    pub tool: Seq<char>,
    pub hash: u64,
    pub count: u32,
}

/// The first place at or after `from` where a call is counted.
pub open spec fn counted_at(
    s: Seq<Repeat>,
    agent_id: AgentId,
    tool: Seq<char>,
    hash: u64,
    from: int,
) -> Option<int>
    decreases s.len() - from,
{
    if from < 0 || from >= s.len() {
        None
    } else if s[from].agent_id == agent_id && s[from].tool == tool && s[from].hash == hash {
        Some(from)
    } else {
        counted_at(s, agent_id, tool, hash, from + 1)
    }
}

/// How often a call was made, as far as it is counted.
pub open spec fn attempts(s: Seq<Repeat>, agent_id: AgentId, tool: Seq<char>, hash: u64) -> nat {
    match counted_at(s, agent_id, tool, hash, 0) {
        Some(i) => s[i].count as nat,
        None => 0,
    }
}

/// One more than `n`, as far as a count can hold it.
pub open spec fn one_more(n: nat) -> u32 {
    if n < u32::MAX {
        (n + 1) as u32
    } else {
        u32::MAX
    }
}

/// The counts with one call more. Where a new call does not fit any more,
/// those that have been there longest are dropped.
pub open spec fn counted(
    s: Seq<Repeat>,
    agent_id: AgentId,
    tool: Seq<char>,
    hash: u64,
) -> Seq<Repeat> {
    match counted_at(s, agent_id, tool, hash, 0) {
        Some(i) => s.update(i, Repeat { agent_id, tool, hash, count: one_more(s[i].count as nat) }),
        None => {
            let kept = if s.len() >= REPEAT_COUNTS_MAX {
                s.skip(REPEAT_COUNTS_DROPPED as int)
            } else {
                s
            };
            kept.push(Repeat { agent_id, tool, hash, count: 1 })
        },
    }
}

proof fn lemma_counted_at(s: Seq<Repeat>, agent_id: AgentId, tool: Seq<char>, hash: u64, from: int)
    requires
        0 <= from,
    ensures
        match counted_at(s, agent_id, tool, hash, from) {
            Some(i) => from <= i < s.len() && s[i].agent_id == agent_id && s[i].tool == tool
                && s[i].hash == hash && forall|k: int|
                from <= k < i ==> !((#[trigger] s[k]).agent_id == agent_id && s[k].tool == tool
                    && s[k].hash == hash),
            None => forall|k: int|
                from <= k < s.len() ==> !((#[trigger] s[k]).agent_id == agent_id && s[k].tool
                    == tool && s[k].hash == hash),
        },
    decreases s.len() - from,
{
    if from < s.len() && !(s[from].agent_id == agent_id && s[from].tool == tool && s[from].hash
        == hash) {
        lemma_counted_at(s, agent_id, tool, hash, from + 1);
    }
}

proof fn lemma_counted_is(
    s: Seq<Repeat>,
    agent_id: AgentId,
    tool: Seq<char>,
    hash: u64,
    from: int,
    i: int,
)
    requires
        0 <= from <= i < s.len(),
        s[i].agent_id == agent_id,
        s[i].tool == tool,
        s[i].hash == hash,
        forall|k: int|
            from <= k < i ==> !((#[trigger] s[k]).agent_id == agent_id && s[k].tool == tool
                && s[k].hash == hash),
    ensures
        counted_at(s, agent_id, tool, hash, from) == Some(i),
    decreases i - from,
{
    if from < i {
        lemma_counted_is(s, agent_id, tool, hash, from + 1, i);
    }
}

/// No more calls are counted than there is room for.
pub proof fn law_counts_are_bounded(
    s: Seq<Repeat>,
    agent_id: AgentId,
    tool: Seq<char>,
    hash: u64,
)
    requires
        s.len() <= REPEAT_COUNTS_MAX,
    ensures
        counted(s, agent_id, tool, hash).len() <= REPEAT_COUNTS_MAX,
{
    lemma_counted_at(s, agent_id, tool, hash, 0);
}

/// Counting a call adds one to its count.
pub proof fn law_count_grows_by_one(s: Seq<Repeat>, agent_id: AgentId, tool: Seq<char>, hash: u64)
    requires
        attempts(s, agent_id, tool, hash) < u32::MAX,
    ensures
        attempts(counted(s, agent_id, tool, hash), agent_id, tool, hash) == attempts(
            s,
            agent_id,
            tool,
            hash,
        ) + 1,
{
    let t = counted(s, agent_id, tool, hash);
    lemma_counted_at(s, agent_id, tool, hash, 0);
    match counted_at(s, agent_id, tool, hash, 0) {
        Some(i) => {
            lemma_counted_is(t, agent_id, tool, hash, 0, i);
        },
        None => {
            lemma_counted_is(t, agent_id, tool, hash, 0, t.len() - 1);
        },
    }
}

/// Counting a call changes the count of no other, unless room had to be made.
pub proof fn law_counts_are_separate(
    s: Seq<Repeat>,
    agent_id: AgentId,
    tool: Seq<char>,
    hash: u64,
    other_agent: AgentId,
    other_tool: Seq<char>,
    other_hash: u64,
)
    requires
        !(other_agent == agent_id && other_tool == tool && other_hash == hash),
        s.len() < REPEAT_COUNTS_MAX || counted_at(s, agent_id, tool, hash, 0) is Some,
    ensures
        attempts(counted(s, agent_id, tool, hash), other_agent, other_tool, other_hash)
            == attempts(s, other_agent, other_tool, other_hash),
{
    let t = counted(s, agent_id, tool, hash);
    lemma_counted_at(s, agent_id, tool, hash, 0);
    lemma_counted_at(s, other_agent, other_tool, other_hash, 0);
    lemma_counted_at(t, other_agent, other_tool, other_hash, 0);
    match counted_at(s, other_agent, other_tool, other_hash, 0) {
        Some(j) => {
            assert(t[j] == s[j]);
            assert forall|k: int| 0 <= k < j implies !((#[trigger] t[k]).agent_id == other_agent
                && t[k].tool == other_tool && t[k].hash == other_hash) by {
                assert(s[k].agent_id == t[k].agent_id);
            }
            lemma_counted_is(t, other_agent, other_tool, other_hash, 0, j);
        },
        None => {
            match counted_at(t, other_agent, other_tool, other_hash, 0) {
                Some(j) => {
                    if j < s.len() {
                        assert(s[j].agent_id == t[j].agent_id);
                    }
                },
                None => {},
            }
        },
    }
}

/// A worker that could not be asked, or did not answer.
#[derive(Debug)]
pub enum WorkerInvokeError {
    /// The agent has no worker: the daemon runs the tool.
    NoSession,
    /// Anything else.
    Transport(String),
}

impl WorkerInvokeError {
    /// The error in words.
    pub fn message(&self) -> (r: String)
        ensures
            r@ == (match *self {
                WorkerInvokeError::NoSession => "no broker session for agent"@,
                WorkerInvokeError::Transport(m) => m@,
            }),
    {
        match self {
            WorkerInvokeError::NoSession => "no broker session for agent".to_owned(),
            WorkerInvokeError::Transport(m) => m.clone(),
        }
    }
}

/// What came of asking the worker.
#[derive(Debug)]
pub enum WorkerOutcome {
    /// The worker ran the tool, or failed.
    Done(Result<Json, CoreError>),
    /// The daemon has to run the tool.
    Downgrade,
}

/// What comes of asking the worker.
pub fn worker_outcome(answer: Result<Json, WorkerInvokeError>) -> (r: WorkerOutcome)
    ensures
        match answer {
            Ok(v) => r == WorkerOutcome::Done(Ok(v)),
            Err(WorkerInvokeError::NoSession) => r is Downgrade,
            Err(WorkerInvokeError::Transport(m)) => r is Done && r->Done_0 is Err
                && (r->Done_0->Err_0)@ == CoreErrorView::Ipc(m@),
        },
{
    match answer {
        Ok(v) => WorkerOutcome::Done(Ok(v)),
        Err(WorkerInvokeError::NoSession) => WorkerOutcome::Downgrade,
        Err(WorkerInvokeError::Transport(m)) => WorkerOutcome::Done(Err(CoreError::Ipc(m))),
    }
}

/// Where a tool ran: where it was meant to run, unless the worker was asked and
/// left it to the daemon.
pub open spec fn surface_run(
    intended: ToolExecutionSurface,
    asked: Option<WorkerOutcome>,
) -> ToolExecutionSurface {
    match asked {
        Some(WorkerOutcome::Downgrade) => ToolExecutionSurface::Daemon,
        _ => intended,
    }
}

/// Where a tool ran.
pub fn actual_surface(intended: ToolExecutionSurface, asked: &Option<WorkerOutcome>) -> (r:
    ToolExecutionSurface)
    ensures
        r == surface_run(intended, *asked),
{
    match asked {
        Some(WorkerOutcome::Downgrade) => ToolExecutionSurface::Daemon,
        _ => intended,
    }
}

/// A call that was begun.
#[derive(Debug)]
pub struct PendingCall {
    pub agent_id: AgentId,
    pub tool: String,
    pub input_hash: String,
    pub args_preview: String,
    /// How often the call was made, with this time.
    pub attempt_count: u32,
    /// Whether that is often enough to tell the agent.
    pub is_repeat: bool,
    /// Where the tool is to run.
    pub surface: ToolExecutionSurface,
    /// Which of the agent's capabilities permits the call.
    pub permitted_by: usize,
}

/// What came of beginning a call.
#[derive(Debug)]
#[allow(inconsistent_fields)]
pub enum Begun {
    /// The agent may not make the call; record the event.
    Denied { event: AuditEvent, error: CoreError },
    /// The call is to be made; record the event, if there is one.
    Call { pending: PendingCall, event: Option<AuditEvent> },
}

/// What came of a call.
#[derive(Debug)]
pub struct Finished {
    /// What to record, in this order.
    pub events: Vec<AuditEvent>,
    /// The capability whose use is to be counted, if the call went well.
    pub used: Option<usize>,
    pub result: Result<Json, CoreError>,
}

/// What an agent is told that makes the same call again and again.
pub open spec fn repeat_hint(tool: Seq<char>, attempt_count: u32) -> Seq<char> {
    "You have called `"@ + tool + "` with these exact arguments "@ + decimal(attempt_count as nat)
        + " times in this subtask. The previous attempts returned the same result. Try different arguments or a different tool."@
}

/// A result with what the agent is told about the repeated call.
pub open spec fn with_hint(v: JsonView, tool: Seq<char>, attempt_count: u32) -> JsonView {
    match v {
        JsonView::Object(fields) => JsonView::Object(
            stored(
                fields,
                "_repeat_guard"@,
                JsonView::Object(
                    seq![
                        ("attempt_count"@, JsonView::Unsigned(attempt_count as u64)),
                        ("hint"@, JsonView::Text(repeat_hint(tool, attempt_count))),
                    ],
                ),
            ),
        ),
        other => other,
    }
}

/// A result with what the agent is told about the repeated call.
fn add_hint(v: Json, tool: &str, attempt_count: u32) -> (r: Json)
    ensures
        r@ == with_hint(v@, tool@, attempt_count),
{
    let mut hint = "You have called `".to_owned();
    hint.append(tool);
    hint.append("` with these exact arguments ");
    let n = decimal_text(attempt_count as u64);
    hint.append(n.as_str());
    hint.append(" times in this subtask. The previous attempts returned the same result. Try different arguments or a different tool.");
    let mut f: Vec<(String, Json)> = Vec::new();
    f.push(entry("attempt_count", Json::Unsigned(attempt_count as u64)));
    f.push(entry("hint", Json::Text(hint)));
    assert(fields_view(f@) =~= seq![
        ("attempt_count"@, JsonView::Unsigned(attempt_count as u64)),
        ("hint"@, JsonView::Text(repeat_hint(tool@, attempt_count))),
    ]);
    v.with_field("_repeat_guard", object(f))
}

/// What is recorded of a call that was made.
pub open spec fn call_events(
    pending: PendingCall,
    surface: ToolExecutionSurface,
    result: Result<Json, CoreError>,
) -> Seq<(AgentId, AuditEventKindView)> {
    let shown = match result {
        Ok(v) => preview_json(v@),
        Err(e) => preview(error_words(e@)),
    };
    let made = seq![
        (
            pending.agent_id,
            AuditEventKindView::ToolInvoked {
                tool: pending.tool@,
                input_hash: pending.input_hash@,
                args_preview: Some(pending.args_preview@),
                execution_surface: surface,
            },
        ),
        (
            pending.agent_id,
            AuditEventKindView::ToolResult {
                tool: pending.tool@,
                success: result is Ok,
                result_preview: Some(shown),
            },
        ),
    ];
    if pending.is_repeat {
        made.push(
            (
                pending.agent_id,
                AuditEventKindView::ToolRepeatGuardFired {
                    agent_id: pending.agent_id,
                    tool: pending.tool@,
                    attempt_count: pending.attempt_count,
                },
            ),
        )
    } else {
        made
    }
}

/// A call that was left to the daemon is recorded as run by the daemon, wherever
/// it was meant to run; one that the worker answered, as run by the worker.
pub proof fn law_record_names_who_ran_the_tool(
    pending: PendingCall,
    asked: WorkerOutcome,
    result: Result<Json, CoreError>,
)
    ensures
        ({
            let recorded = call_events(
                pending,
                surface_run(pending.surface, Some(asked)),
                result,
            )[0].1;
            &&& recorded is ToolInvoked
            &&& asked is Downgrade ==> recorded->execution_surface == ToolExecutionSurface::Daemon
            &&& asked is Done ==> recorded->execution_surface == pending.surface
        }),
{
}

/// Calls tools on behalf of agents.
#[derive(Debug)]
pub struct ToolInvocation {
    counts: Vec<RepeatEntry>,
}

impl ToolInvocation {
    /// How often which calls were made.
    pub closed spec fn counts(&self) -> Seq<Repeat> {
        self.counts@.map_values(
            |e: RepeatEntry|
                Repeat { agent_id: e.agent_id, tool: e.tool@, hash: e.hash, count: e.count },
        )
    }

    /// There is room for the counts.
    #[verifier::type_invariant]
    spec fn wf(&self) -> bool {
        self.counts@.len() <= REPEAT_COUNTS_MAX
    }

    /// Nothing has been called yet.
    pub fn new() -> (r: ToolInvocation)
        ensures
            r.counts() == Seq::<Repeat>::empty(),
    {
        let r = ToolInvocation { counts: Vec::new() };
        assert(r.counts() =~= Seq::<Repeat>::empty());
        r
    }

    /// The place where a call is counted.
    fn place(&self, agent_id: &AgentId, tool: &str, hash: u64) -> (r: Option<usize>)
        ensures
            match r {
                Some(i) => counted_at(self.counts(), *agent_id, tool@, hash, 0) == Some(i as int)
                    && i < self.counts@.len(),
                None => counted_at(self.counts(), *agent_id, tool@, hash, 0) is None,
            },
    {
        let mut i: usize = 0;
        while i < self.counts.len()
            invariant
                0 <= i <= self.counts@.len(),
                counted_at(self.counts(), *agent_id, tool@, hash, 0) == counted_at(
                    self.counts(),
                    *agent_id,
                    tool@,
                    hash,
                    i as int,
                ),
            decreases self.counts@.len() - i,
        {
            let e = &self.counts[i];
            if e.agent_id == *agent_id && same(e.tool.as_str(), tool) && e.hash == hash {
                return Some(i);
            }
            i += 1;
        }
        None
    }

    /// How often a call with an input was made, as far as it is counted.
    pub fn test_repeat_count(&self, agent_id: AgentId, tool: &str, input: &Json) -> (r: u32)
        ensures
            r == attempts(self.counts(), agent_id, tool@, text_hash(json_text(input@))),
    {
        let hash = md5_hash(input);
        match self.place(&agent_id, tool, hash) {
            Some(i) => self.counts[i].count,
            None => 0,
        }
    }

    /// How many different calls are counted.
    pub fn test_repeat_counts_len(&self) -> (n: usize)
        ensures
            n == self.counts().len(),
            n <= REPEAT_COUNTS_MAX,
    {
        proof {
            use_type_invariant(self);
        }
        self.counts.len()
    }

    /// Counts a call. Gives how often it was made, with this time.
    pub fn count_attempt(&mut self, agent_id: &AgentId, tool: &str, hash: u64) -> (r: u32)
        ensures
            final(self).counts() == counted(old(self).counts(), *agent_id, tool@, hash),
            r == one_more(attempts(old(self).counts(), *agent_id, tool@, hash)),
    {
        proof {
            use_type_invariant(&*self);
        }
        let ghost before = self.counts();
        let at = self.place(agent_id, tool, hash);
        let mut counts: Vec<RepeatEntry> = Vec::new();
        std::mem::swap(&mut counts, &mut self.counts);
        match at {
            Some(i) => {
                let n: u32 = counts[i].count.saturating_add(1);
                counts.set(
                    i,
                    RepeatEntry { agent_id: *agent_id, tool: tool.to_owned(), hash, count: n },
                );
                self.counts = counts;
                assert(self.counts() =~= counted(before, *agent_id, tool@, hash));
                n
            },
            None => {
                if counts.len() >= REPEAT_COUNTS_MAX {
                    let kept = counts.split_off(REPEAT_COUNTS_DROPPED);
                    counts = kept;
                }
                counts.push(
                    RepeatEntry { agent_id: *agent_id, tool: tool.to_owned(), hash, count: 1 },
                );
                self.counts = counts;
                assert(self.counts() =~= counted(before, *agent_id, tool@, hash));
                1
            },
        }
    }

    /// Begins a call. `permits` tells of each of the agent's capabilities
    /// whether it permits the tool, `backend_kind` what the agents run in, and
    /// `threshold` from how many equal calls on a call is a repeat.
    pub fn begin(
        &mut self,
        agent_id: AgentId,
        tool_name: &str,
        input: &Json,
        permits: &Vec<bool>,
        backend_kind: Option<&str>,
        threshold: u32,
    ) -> (r: Begun)
        ensures
            match r {
                Begun::Denied { event, error } => {
                    &&& forall|i: int| 0 <= i < permits@.len() ==> !(#[trigger] permits@[i])
                    &&& final(self).counts() == old(self).counts()
                    &&& event.agent_id == agent_id
                    &&& event.event@ == (AuditEventKindView::CapabilityDenied {
                        capability: CapabilityView::ToolInvoke { tool_name: tool_name@ },
                        reason: "agent lacks tool:"@ + tool_name@ + " capability"@,
                    })
                    &&& error@ == (CoreErrorView::CapabilityDenied {
                        agent_id,
                        capability: CapabilityView::ToolInvoke { tool_name: tool_name@ },
                        reason: "tool invocation not permitted"@,
                    })
                },
                Begun::Call { pending, event } => {
                    let hash = text_hash(json_text(input@));
                    &&& pending.permitted_by < permits@.len()
                    &&& permits@[pending.permitted_by as int]
                    &&& forall|i: int|
                        0 <= i < pending.permitted_by ==> !(#[trigger] permits@[i])
                    &&& final(self).counts() == counted(
                        old(self).counts(),
                        agent_id,
                        tool_name@,
                        hash,
                    )
                    &&& pending.agent_id == agent_id
                    &&& pending.tool@ == tool_name@
                    &&& pending.input_hash@ == hexadecimal(hash as nat)
                    &&& pending.args_preview@ == preview_json(input@)
                    &&& pending.attempt_count == one_more(
                        attempts(old(self).counts(), agent_id, tool_name@, hash),
                    )
                    &&& pending.is_repeat == (pending.attempt_count >= threshold)
                    &&& pending.surface == (match backend_kind {
                        Some(k) => routed(tool_name@, k@),
                        None => ToolExecutionSurface::Daemon,
                    })
                    &&& match event {
                        Some(e) => pending.is_repeat && e.agent_id == agent_id && e.event@ == (
                        AuditEventKindView::ToolRepeat {
                            tool: tool_name@,
                            input_hash: pending.input_hash@,
                            attempt_count: pending.attempt_count,
                        }),
                        None => !pending.is_repeat,
                    }
                },
            },
    {
        let mut first: usize = 0;
        while first < permits.len() && !permits[first]
            invariant
                0 <= first <= permits@.len(),
                forall|i: int| 0 <= i < first ==> !(#[trigger] permits@[i]),
            decreases permits@.len() - first,
        {
            first += 1;
        }
        if first == permits.len() {
            let mut reason = "agent lacks tool:".to_owned();
            reason.append(tool_name);
            reason.append(" capability");
            let event = AuditEvent::new(
                agent_id,
                AuditEventKind::CapabilityDenied {
                    capability: Capability::ToolInvoke { tool_name: tool_name.to_owned() },
                    reason,
                },
            );
            let error = CoreError::CapabilityDenied {
                agent_id,
                capability: Capability::ToolInvoke { tool_name: tool_name.to_owned() },
                reason: "tool invocation not permitted".to_owned(),
            };
            return Begun::Denied { event, error };
        }
        let surface = match backend_kind {
            Some(k) => route_for(tool_name, k),
            None => ToolExecutionSurface::Daemon,
        };
        let hash = md5_hash(input);
        let input_hash = hex_text(hash);
        let args_preview = preview_value(input);
        let attempt_count = self.count_attempt(&agent_id, tool_name, hash);
        let is_repeat = attempt_count >= threshold;
        let event = if is_repeat {
            Some(
                AuditEvent::new(
                    agent_id,
                    AuditEventKind::ToolRepeat {
                        tool: tool_name.to_owned(),
                        input_hash: input_hash.clone(),
                        attempt_count,
                    },
                ),
            )
        } else {
            None
        };
        let pending = PendingCall {
            agent_id,
            tool: tool_name.to_owned(),
            input_hash,
            args_preview,
            attempt_count,
            is_repeat,
            surface,
            permitted_by: first,
        };
        Begun::Call { pending, event }
    }

    /// Finishes a call that ran on `surface` and gave `result`.
    pub fn finish(
        pending: PendingCall,
        surface: ToolExecutionSurface,
        result: Result<Json, CoreError>,
    ) -> (r: Finished)
        ensures
            events_view(r.events@) == call_events(pending, surface, result),
            r.used == (if result is Ok {
                Some(pending.permitted_by)
            } else {
                None
            }),
            match result {
                Ok(v) => r.result is Ok && (r.result->Ok_0)@ == (if pending.is_repeat {
                    with_hint(v@, pending.tool@, pending.attempt_count)
                } else {
                    v@
                }),
                Err(e) => r.result == Err::<Json, CoreError>(e),
            },
    {
        let mut events: Vec<AuditEvent> = Vec::new();
        events.push(
            AuditEvent::new(
                pending.agent_id,
                AuditEventKind::ToolInvoked {
                    tool: pending.tool.clone(),
                    input_hash: pending.input_hash.clone(),
                    args_preview: Some(pending.args_preview.clone()),
                    execution_surface: surface,
                },
            ),
        );
        let (shown, success, used) = match &result {
            Ok(v) => (preview_value(v), true, Some(pending.permitted_by)),
            Err(e) => {
                let words = e.message();
                (preview_str(words.as_str()), false, None)
            },
        };
        events.push(
            AuditEvent::new(
                pending.agent_id,
                AuditEventKind::ToolResult {
                    tool: pending.tool.clone(),
                    success,
                    result_preview: Some(shown),
                },
            ),
        );
        if pending.is_repeat {
            events.push(
                AuditEvent::new(
                    pending.agent_id,
                    AuditEventKind::ToolRepeatGuardFired {
                        agent_id: pending.agent_id,
                        tool: pending.tool.clone(),
                        attempt_count: pending.attempt_count,
                    },
                ),
            );
        }
        assert(events_view(events@) =~= call_events(pending, surface, result));
        let result = match result {
            Ok(v) => if pending.is_repeat {
                Ok(add_hint(v, pending.tool.as_str(), pending.attempt_count))
            } else {
                Ok(v)
            },
            Err(e) => Err(e),
        };
        Finished { events, used, result }
    }
}

/// What is short is shown as it is: a text without its quotes, anything else as
/// it is written.
pub proof fn law_short_values_are_shown_whole(s: Seq<char>, j: JsonView)
    ensures
        byte_len(s) <= 200 ==> preview(s) == s,
        byte_len(s) <= 200 ==> preview_json(JsonView::Text(s)) == s,
        preview_json(JsonView::Null) == "null"@,
        !(j is Text) && !(j is Null) && byte_len(json_text(j)) <= 200 ==> preview_json(j)
            == json_text(j),
        byte_len(s) > 200 ==> exists|k: int|
            0 <= k < s.len() && preview(s) == #[trigger] s.take(k) + "…"@ && byte_len(s.take(k))
                <= 200,
{
    law_cut_is_short(s, 200);
}

/// A hash is written digit by digit, the greatest first, without any nought
/// before it.
pub proof fn law_hashes_are_written_in_sixteens(n: nat, d: nat)
    requires
        d < 16,
    ensures
        hexadecimal(d).len() == 1,
        d < 10 ==> hexadecimal(d)[0] as nat == '0' as nat + d,
        d >= 10 ==> hexadecimal(d)[0] as nat == 'a' as nat + d - 10,
        n > 0 ==> hexadecimal(n * 16 + d) == hexadecimal(n) + hexadecimal(d),
{
    assert((n * 16 + d) / 16 == n);
    assert((n * 16 + d) % 16 == d);
    if n > 0 {
        assert(hexadecimal(n * 16 + d) =~= hexadecimal(n) + hexadecimal(d));
    }
}

/// The hint is added to the answer, and nothing of the answer is lost; an
/// answer that is no object stays as it is.
#[verifier::rlimit(40)]
pub proof fn law_hint_leaves_the_answer(
    fields: Seq<(Seq<char>, JsonView)>,
    tool: Seq<char>,
    attempt_count: u32,
    key: Seq<char>,
    other: JsonView,
)
    ensures
        ({
            let r = with_hint(JsonView::Object(fields), tool, attempt_count);
            let hint = field(r, "_repeat_guard"@);
            &&& key != "_repeat_guard"@ ==> field(r, key) == field(JsonView::Object(fields), key)
            &&& hint is Some
            &&& hint->0 is Object
            &&& hint->0->Object_0.contains(
                ("attempt_count"@, JsonView::Unsigned(attempt_count as u64)),
            )
            &&& hint->0->Object_0.contains(
                ("hint"@, JsonView::Text(repeat_hint(tool, attempt_count))),
            )
        }),
        contains_text(repeat_hint(tool, attempt_count), tool),
        contains_text(repeat_hint(tool, attempt_count), decimal(attempt_count as nat)),
        !(other is Object) ==> with_hint(other, tool, attempt_count) == other,
{
    let value = JsonView::Object(
        seq![
            ("attempt_count"@, JsonView::Unsigned(attempt_count as u64)),
            ("hint"@, JsonView::Text(repeat_hint(tool, attempt_count))),
        ],
    );
    lemma_stored_lookup(fields, "_repeat_guard"@, value, key);
    let inner = value->Object_0;
    assert(inner[0].0 == "attempt_count"@ && inner[1].0 == "hint"@);
    let n = decimal(attempt_count as nat);
    let a = "You have called `"@;
    let b = "` with these exact arguments "@;
    let c = " times in this subtask. The previous attempts returned the same result. Try different arguments or a different tool."@;
    law_four_parts(a, tool, b, n);
    law_text_holds_its_parts(a + tool + b + n, c, tool);
    law_text_holds_its_parts(a + tool + b + n, c, n);
}

/// A call is on record with what was called and how it went, and a third record
/// stands behind these exactly where the call was repeated too often.
pub proof fn law_record_of_a_call(
    pending: PendingCall,
    surface: ToolExecutionSurface,
    result: Result<Json, CoreError>,
    i: int,
)
    ensures
        ({
            let r = call_events(pending, surface, result);
            &&& r.len() == (if pending.is_repeat {
                3int
            } else {
                2
            })
            &&& 0 <= i < r.len() ==> r[i].0 == pending.agent_id
            &&& r[0].1 is ToolInvoked
            &&& r[0].1->ToolInvoked_tool == pending.tool@
            &&& r[0].1->ToolInvoked_input_hash == pending.input_hash@
            &&& r[0].1->ToolInvoked_args_preview == Some(pending.args_preview@)
            &&& r[0].1->ToolInvoked_execution_surface == surface
            &&& r[1].1 is ToolResult
            &&& r[1].1->ToolResult_tool == pending.tool@
            &&& r[1].1->ToolResult_success <==> result is Ok
            &&& r[1].1->ToolResult_result_preview == Some(
                match result {
                    Ok(v) => preview_json(v@),
                    Err(e) => preview(error_words(e@)),
                },
            )
            &&& pending.is_repeat ==> r[2].1 is ToolRepeatGuardFired
                && r[2].1->ToolRepeatGuardFired_agent_id == pending.agent_id
                && r[2].1->ToolRepeatGuardFired_tool == pending.tool@
                && r[2].1->ToolRepeatGuardFired_attempt_count == pending.attempt_count
        }),
{
}

/// When there are too many counts, those that have been kept longest go, and
/// the others stay.
pub proof fn law_latest_counts_stay(
    s: Seq<Repeat>,
    agent_id: AgentId,
    tool: Seq<char>,
    hash: u64,
    i: int,
)
    requires
        counted_at(s, agent_id, tool, hash, 0) is None,
        0 <= i < s.len(),
    ensures
        s.len() < 1024 || i >= 256 ==> counted(s, agent_id, tool, hash).contains(s[i]),
        s.len() >= 1024 ==> counted(s, agent_id, tool, hash).len() + 255 == s.len(),
        s.len() < 1024 ==> counted(s, agent_id, tool, hash).len() == s.len() + 1,
        attempts(counted(s, agent_id, tool, hash), agent_id, tool, hash) == 1,
{
    law_count_grows_by_one(s, agent_id, tool, hash);
    let r = counted(s, agent_id, tool, hash);
    if s.len() < 1024 {
        assert(r[i] == s[i]);
    } else if i >= 256 {
        assert(r[i - 256] == s[i]);
    }
}

/// Counting goes on by one, and stops at the greatest number.
pub proof fn law_counting_stops_at_the_end(n: nat)
    ensures
        n < u32::MAX ==> one_more(n) == n + 1,
        n >= u32::MAX ==> one_more(n) == u32::MAX,
{
}

} // verus!
