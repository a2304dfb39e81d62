//! The loop of an agent that answers message after message.
//!
//! The loop itself waits for messages and commands and calls the model; what
//! it makes of each of them is decided here.

use crate::audit::{AuditEvent, AuditEventKind, AuditEventKindView};
use crate::json::{field, lemma_object_view, object_view, text_of, Json, JsonView};
use crate::llm::{copy_history, copy_messages, messages_view, Message, MessageView};
use crate::process::AgentCommand;
use crate::types::{latest, law_latest_of_latest, AgentId};
use vstd::prelude::*;
use vstd::string::*;

verus! {

/// How many messages are remembered where nothing else is said.
pub const DEFAULT_MAX_HISTORY: usize = 100;

/// After how many turns the stored conversation is written anew.
pub const COMPACT_AFTER: u32 = 10;

/// The code of the answer to a message that could not be handled.
pub const INTERNAL_ERROR: i32 = -32603;

/// What a message asks: its `message`, or else the name of its method.
pub open spec fn asked(method: Seq<char>, params: JsonView) -> Seq<char> {
    match text_of(field(params, "message"@)) {
        Some(t) => t,
        None => method,
    }
}

/// What a message asks.
pub fn extract_user_message(method: &str, params: &Json) -> (r: String)
    ensures
        r@ == asked(method@, params@),
{
    match params.get_str("message") {
        Some(t) => t.clone(),
        None => method.to_owned(),
    }
}

/// Why the model came to an end.
#[derive(Debug)]
pub enum StopReason {
    /// Something went wrong.
    Error(String),
    /// Any other reason, by its name.
    Other(String),
}

/// What the model did with a message.
#[derive(Debug)]
pub struct ExecutionResult {
    pub stop_reason: StopReason,
    pub iterations: u32,
    /// What was said, from the message on.
    pub transcript_delta: Vec<Message>,
    pub response: String,
    pub input_tokens: u64,
    pub output_tokens: u64,
}

/// The answer to a message.
#[derive(Debug)]
pub enum Reply {
    Failure { code: i32, message: String },
    Success(Json),
}

/// What is to be done after a turn.
#[derive(Debug)]
pub struct Turn {
    /// The message that is answered.
    pub trace_id: u128,
    /// What to record.
    pub event: AuditEvent,
    /// What to answer.
    pub reply: Reply,
    /// What to add to the stored conversation.
    pub append: Vec<Message>,
    /// What the stored conversation is to be after that, where it is to be
    /// written anew.
    pub rewrite: Option<Vec<Message>>,
}

/// What is to be done after a command.
#[derive(Debug)]
pub enum Step {
    Continue,
    /// End the loop, and record this.
    Stop(AuditEvent),
}

/// The state of the loop.
#[derive(Debug)]
pub struct PersistentLoop {
    pub agent_id: AgentId,
    pub history: Vec<Message>,
    pub max_history: usize,
    pub messages_processed: u64,
    pub turns_since_compact: u32,
    pub paused: bool,
}

/// The view of why the model came to an end.
pub enum StopReasonView {
    Error(Seq<char>),
    Other(Seq<char>),
}

impl View for StopReason {
    type V = StopReasonView;

    open spec fn view(&self) -> StopReasonView {
        match *self {
            StopReason::Error(e) => StopReasonView::Error(e@),
            StopReason::Other(reason) => StopReasonView::Other(reason@),
        }
    }
}

/// The view of what the model did with a message.
pub struct ResultView {
    pub stop_reason: StopReasonView,
    pub iterations: u32,
    pub transcript_delta: Seq<MessageView>,
    pub response: Seq<char>,
    pub input_tokens: u64,
    pub output_tokens: u64,
}

impl View for ExecutionResult {
    type V = ResultView;

    open spec fn view(&self) -> ResultView {
        ResultView {
            stop_reason: self.stop_reason@,
            iterations: self.iterations,
            transcript_delta: messages_view(self.transcript_delta@),
            response: self.response@,
            input_tokens: self.input_tokens,
            output_tokens: self.output_tokens,
        }
    }
}

/// The view of an answer.
pub enum ReplyView {
    Failure { code: i32, message: Seq<char> },
    Success(JsonView),
}

impl View for Reply {
    type V = ReplyView;

    open spec fn view(&self) -> ReplyView {
        match *self {
            Reply::Failure { code, message } => ReplyView::Failure { code, message: message@ },
            Reply::Success(value) => ReplyView::Success(value@),
        }
    }
}

/// The view of what is to be done after a turn.
pub struct TurnView {
    pub trace_id: u128,
    pub agent_id: AgentId,
    pub event: AuditEventKindView,
    pub reply: ReplyView,
    pub append: Seq<MessageView>,
    pub rewrite: Option<Seq<MessageView>>,
}

impl View for Turn {
    type V = TurnView;

    open spec fn view(&self) -> TurnView {
        TurnView {
            trace_id: self.trace_id,
            agent_id: self.event.agent_id,
            event: self.event.event@,
            reply: self.reply@,
            append: messages_view(self.append@),
            rewrite: match self.rewrite {
                Some(all) => Some(messages_view(all@)),
                None => None,
            },
        }
    }
}

/// The view of the state of the loop.
pub struct LoopView {
    pub agent_id: AgentId,
    pub history: Seq<MessageView>,
    pub max_history: nat,
    pub messages_processed: nat,
    pub turns_since_compact: nat,
    pub paused: bool,
}

impl View for PersistentLoop {
    type V = LoopView;

    open spec fn view(&self) -> LoopView {
        LoopView {
            agent_id: self.agent_id,
            history: messages_view(self.history@),
            max_history: self.max_history as nat,
            messages_processed: self.messages_processed as nat,
            turns_since_compact: self.turns_since_compact as nat,
            paused: self.paused,
        }
    }
}

/// The state of a loop that begins with what was stored.
pub open spec fn begun(
    agent_id: AgentId,
    stored: Seq<MessageView>,
    max_history: Option<usize>,
) -> LoopView {
    LoopView {
        agent_id,
        history: stored,
        max_history: match max_history {
            Some(n) => n as nat,
            None => DEFAULT_MAX_HISTORY as nat,
        },
        messages_processed: 0,
        turns_since_compact: 0,
        paused: false,
    }
}

/// The state once the model is done with a message. Where it failed, the
/// conversation stays as it was; else what was said is added to it, and of
/// more than `max_history` messages the last ones are kept.
pub open spec fn state_after(state: LoopView, result: ResultView) -> LoopView {
    match result.stop_reason {
        StopReasonView::Error(_) => LoopView {
            messages_processed: state.messages_processed + 1,
            ..state
        },
        StopReasonView::Other(_) => LoopView {
            messages_processed: state.messages_processed + 1,
            history: latest(state.history + result.transcript_delta, state.max_history),
            turns_since_compact: if state.turns_since_compact + 1 >= COMPACT_AFTER {
                0
            } else {
                state.turns_since_compact + 1
            },
            ..state
        },
    }
}

/// What is to be done once the model is done with a message. Where it failed,
/// nothing is stored; else what was said is, and from time to time the stored
/// conversation becomes what is remembered.
pub open spec fn turn_after(state: LoopView, trace_id: u128, result: ResultView) -> TurnView {
    match result.stop_reason {
        StopReasonView::Error(e) => TurnView {
            trace_id,
            agent_id: state.agent_id,
            event: AuditEventKindView::AgentExecutionCompleted {
                stop_reason: "error: "@ + e,
                total_iterations: result.iterations,
            },
            reply: ReplyView::Failure { code: INTERNAL_ERROR, message: e },
            append: Seq::empty(),
            rewrite: None,
        },
        StopReasonView::Other(reason) => TurnView {
            trace_id,
            agent_id: state.agent_id,
            event: AuditEventKindView::AgentExecutionCompleted {
                stop_reason: reason,
                total_iterations: result.iterations,
            },
            reply: ReplyView::Success(
                success_value(
                    result.response,
                    result.input_tokens,
                    result.output_tokens,
                    result.iterations,
                    reason,
                ),
            ),
            append: result.transcript_delta,
            rewrite: if state.turns_since_compact + 1 >= COMPACT_AFTER {
                Some(state_after(state, result).history)
            } else {
                None
            },
        },
    }
}

/// What is recorded when the loop ends.
pub open spec fn end_event(state: LoopView) -> AuditEventKindView {
    AuditEventKindView::AgentLoopStopped {
        reason: if state.paused {
            "stopped_while_paused"@
        } else {
            "normal"@
        },
        messages_processed: state.messages_processed as u64,
    }
}

/// A message that came in, by its trace, and what the model did with it.
pub struct Handled {
    pub trace_id: u128,
    pub result: ResultView,
}

/// The state after some messages.
pub open spec fn state_after_all(state: LoopView, messages: Seq<Handled>) -> LoopView
    decreases messages.len(),
{
    if messages.len() == 0 {
        state
    } else {
        state_after(state_after_all(state, messages.drop_last()), messages.last().result)
    }
}

/// The turns that some messages make, in the order in which they came.
pub open spec fn turns_after_all(state: LoopView, messages: Seq<Handled>) -> Seq<TurnView>
    decreases messages.len(),
{
    if messages.len() == 0 {
        Seq::empty()
    } else {
        let before = messages.drop_last();
        turns_after_all(state, before).push(
            turn_after(
                state_after_all(state, before),
                messages.last().trace_id,
                messages.last().result,
            ),
        )
    }
}

/// What is stored after some turns.
pub open spec fn stored_after_all(stored: Seq<MessageView>, turns: Seq<TurnView>) -> Seq<
    MessageView,
>
    decreases turns.len(),
{
    if turns.len() == 0 {
        stored
    } else {
        match turns.last().rewrite {
            Some(all) => all,
            None => stored_after_all(stored, turns.drop_last()) + turns.last().append,
        }
    }
}

/// The answer to a message that was handled.
pub open spec fn success_value(
    response: Seq<char>,
    input_tokens: u64,
    output_tokens: u64,
    iterations: u32,
    stop_reason: Seq<char>,
) -> JsonView {
    JsonView::Object(
        seq![
            ("response"@, JsonView::Text(response)),
            (
                "usage"@,
                JsonView::Object(
                    seq![
                        ("input_tokens"@, JsonView::Unsigned(input_tokens)),
                        ("output_tokens"@, JsonView::Unsigned(output_tokens)),
                    ],
                ),
            ),
            ("iterations"@, JsonView::Unsigned(iterations as u64)),
            ("stop_reason"@, JsonView::Text(stop_reason)),
        ],
    )
}

/// The answer to a message that was handled.
fn success_reply(result: &ExecutionResult, reason: &String) -> (r: Json)
    ensures
        r@ == success_value(
            result.response@,
            result.input_tokens,
            result.output_tokens,
            result.iterations,
            reason@,
        ),
{
    let mut usage: Vec<(String, Json)> = Vec::new();
    usage.push(("input_tokens".to_owned(), Json::Unsigned(result.input_tokens)));
    usage.push(("output_tokens".to_owned(), Json::Unsigned(result.output_tokens)));
    let ghost u = usage@;
    proof {
        lemma_object_view(u);
        assert(object_view(u) =~= seq![
            ("input_tokens"@, JsonView::Unsigned(result.input_tokens)),
            ("output_tokens"@, JsonView::Unsigned(result.output_tokens)),
        ]);
    }
    let mut fields: Vec<(String, Json)> = Vec::new();
    fields.push(("response".to_owned(), Json::Text(result.response.clone())));
    fields.push(("usage".to_owned(), Json::Object(usage)));
    fields.push(("iterations".to_owned(), Json::Unsigned(result.iterations as u64)));
    fields.push(("stop_reason".to_owned(), Json::Text(reason.clone())));
    proof {
        lemma_object_view(fields@);
        assert(object_view(fields@) =~= seq![
            ("response"@, JsonView::Text(result.response@)),
            ("usage"@, JsonView::Object(object_view(u))),
            ("iterations"@, JsonView::Unsigned(result.iterations as u64)),
            ("stop_reason"@, JsonView::Text(reason@)),
        ]);
    }
    Json::Object(fields)
}

impl PersistentLoop {
    /// Whether the turns are counted as they should be.
    pub open spec fn wf(&self) -> bool {
        self.turns_since_compact < COMPACT_AFTER
    }

    /// Begins the loop with what was stored. Gives the state and what to
    /// record.
    pub fn start(agent_id: AgentId, history: Vec<Message>, max_history: Option<usize>) -> (r: (
        PersistentLoop,
        AuditEvent,
    ))
        ensures
            r.0.wf(),
            r.0@ == begun(agent_id, messages_view(history@), max_history),
            r.1.agent_id == agent_id,
            r.1.event@ == (AuditEventKindView::AgentLoopStarted { lifecycle: "persistent"@ }),
    {
        let max: usize = match max_history {
            Some(n) => n,
            None => DEFAULT_MAX_HISTORY,
        };
        let state = PersistentLoop {
            agent_id,
            history,
            max_history: max,
            messages_processed: 0,
            turns_since_compact: 0,
            paused: false,
        };
        let event = AuditEvent::new(
            agent_id,
            AuditEventKind::AgentLoopStarted { lifecycle: "persistent".to_owned() },
        );
        (state, event)
    }

    /// A message came in. Gives what to record and what to ask the model.
    pub fn receive(&self, trace_id: u128, method: &str, params: &Json) -> (r: (AuditEvent, String))
        ensures
            r.0.agent_id == self.agent_id,
            r.0.event@ == (AuditEventKindView::AgentMessageReceived { trace_id, method: method@ }),
            r.1@ == asked(method@, params@),
    {
        let event = AuditEvent::new(
            self.agent_id,
            AuditEventKind::AgentMessageReceived { trace_id, method: method.to_owned() },
        );
        (event, extract_user_message(method, params))
    }

    /// The model is done with a message.
    pub fn conclude(&mut self, trace_id: u128, result: ExecutionResult) -> (r: Turn)
        requires
            old(self).wf(),
            old(self).messages_processed < u64::MAX,
            old(self).history@.len() + result.transcript_delta@.len() <= usize::MAX,
        ensures
            final(self).wf(),
            final(self)@ == state_after(old(self)@, result@),
            r@ == turn_after(old(self)@, trace_id, result@),
    {
        self.messages_processed = self.messages_processed + 1;
        match &result.stop_reason {
            StopReason::Error(e) => {
                let mut reason = "error: ".to_owned();
                reason.append(e.as_str());
                let event = AuditEvent::new(
                    self.agent_id,
                    AuditEventKind::AgentExecutionCompleted {
                        stop_reason: reason,
                        total_iterations: result.iterations,
                    },
                );
                let append: Vec<Message> = Vec::new();
                assert(messages_view(append@) =~= Seq::<MessageView>::empty());
                Turn {
                    trace_id,
                    event,
                    reply: Reply::Failure { code: INTERNAL_ERROR, message: e.clone() },
                    append,
                    rewrite: None,
                }
            },
            StopReason::Other(reason) => {
                let ghost before = messages_view(self.history@);
                let ghost delta = messages_view(result.transcript_delta@);
                let mut more = copy_history(&result.transcript_delta);
                let ghost added = messages_view(more@);
                self.history.append(&mut more);
                assert(messages_view(self.history@) =~= before + added);
                if self.history.len() > self.max_history {
                    let start: usize = self.history.len() - self.max_history;
                    let kept = copy_messages(&self.history, start, self.history.len());
                    assert(messages_view(kept@) =~= latest(
                        before + delta,
                        self.max_history as nat,
                    ));
                    self.history = kept;
                }
                self.turns_since_compact = self.turns_since_compact + 1;
                let mut rewrite: Option<Vec<Message>> = None;
                if self.turns_since_compact >= COMPACT_AFTER {
                    rewrite = Some(copy_history(&self.history));
                    self.turns_since_compact = 0;
                }
                let event = AuditEvent::new(
                    self.agent_id,
                    AuditEventKind::AgentExecutionCompleted {
                        stop_reason: reason.clone(),
                        total_iterations: result.iterations,
                    },
                );
                let reply = Reply::Success(success_reply(&result, reason));
                Turn { trace_id, event, reply, append: result.transcript_delta, rewrite }
            },
        }
    }

    /// A command came in, or none will come any more. A paused loop waits for
    /// nothing but to go on or to stop.
    pub fn command(&mut self, command: Option<AgentCommand>) -> (r: Step)
        ensures
            final(self).history == old(self).history,
            final(self)@ == (LoopView {
                paused: match command {
                    Some(AgentCommand::Pause) => true,
                    Some(AgentCommand::Resume) => false,
                    _ => old(self).paused,
                },
                ..old(self)@
            }),
            match command {
                Some(AgentCommand::Pause) => r is Continue,
                Some(AgentCommand::Resume) => r is Continue,
                _ => {
                    &&& r is Stop
                    &&& r->Stop_0.agent_id == old(self).agent_id
                    &&& r->Stop_0.event@ == end_event(old(self)@)
                },
            },
    {
        match command {
            Some(AgentCommand::Pause) => {
                self.paused = true;
                Step::Continue
            },
            Some(AgentCommand::Resume) => {
                self.paused = false;
                Step::Continue
            },
            _ => Step::Stop(self.stopped()),
        }
    }

    /// No message will come any more: what to record.
    pub fn stopped(&self) -> (r: AuditEvent)
        ensures
            r.agent_id == self.agent_id,
            r.event@ == end_event(self@),
    {
        let reason: &str = if self.paused {
            "stopped_while_paused"
        } else {
            "normal"
        };
        AuditEvent::new(
            self.agent_id,
            AuditEventKind::AgentLoopStopped {
                reason: reason.to_owned(),
                messages_processed: self.messages_processed,
            },
        )
    }
}

/// A loop that is started again remembers what it would have remembered
/// without a break: after any turn, whether or not the store was written
/// anew, the last messages of the store are the last messages of the loop.
pub proof fn law_store_holds_what_is_remembered(
    stored: Seq<MessageView>,
    history: Seq<MessageView>,
    delta: Seq<MessageView>,
    max_history: nat,
    rewritten: bool,
)
    requires
        latest(stored, max_history) == latest(history, max_history),
    ensures
        ({
            let remembered = latest(history + delta, max_history);
            let now_stored = if rewritten {
                remembered
            } else {
                stored + delta
            };
            latest(now_stored, max_history) == latest(remembered, max_history)
        }),
{
    law_latest_of_latest(stored, delta, max_history);
    law_latest_of_latest(history, delta, max_history);
    let remembered = latest(history + delta, max_history);
    assert(latest(remembered, max_history) =~= remembered);
}

/// Every message is answered once, in the order in which they came, and the
/// answer goes to the message. It is a failure exactly where the model failed;
/// such a message leaves the conversation and the store as they were. All
/// messages are counted.
pub proof fn law_every_message_is_answered(state: LoopView, messages: Seq<Handled>)
    ensures
        turns_after_all(state, messages).len() == messages.len(),
        forall|i: int|
            0 <= i < messages.len() ==> {
                let turn = #[trigger] turns_after_all(state, messages)[i];
                let result = messages[i].result;
                &&& turn.trace_id == messages[i].trace_id
                &&& turn.agent_id == state.agent_id
                &&& turn.reply is Failure <==> result.stop_reason is Error
                &&& result.stop_reason is Error ==> {
                    &&& turn.reply == (ReplyView::Failure {
                        code: INTERNAL_ERROR,
                        message: result.stop_reason->Error_0,
                    })
                    &&& turn.append.len() == 0
                    &&& turn.rewrite is None
                    &&& state_after_all(state, messages.take(i + 1)).history == state_after_all(
                        state,
                        messages.take(i),
                    ).history
                }
            },
        state_after_all(state, messages).agent_id == state.agent_id,
        state_after_all(state, messages).max_history == state.max_history,
        state_after_all(state, messages).messages_processed == state.messages_processed
            + messages.len(),
    decreases messages.len(),
{
    if messages.len() > 0 {
        let before = messages.drop_last();
        law_every_message_is_answered(state, before);
        let turns = turns_after_all(state, messages);
        assert forall|i: int| 0 <= i < messages.len() implies {
            let turn = #[trigger] turns[i];
            let result = messages[i].result;
            &&& turn.trace_id == messages[i].trace_id
            &&& turn.agent_id == state.agent_id
            &&& turn.reply is Failure <==> result.stop_reason is Error
            &&& result.stop_reason is Error ==> {
                &&& turn.reply == (ReplyView::Failure {
                    code: INTERNAL_ERROR,
                    message: result.stop_reason->Error_0,
                })
                &&& turn.append.len() == 0
                &&& turn.rewrite is None
                &&& state_after_all(state, messages.take(i + 1)).history == state_after_all(
                    state,
                    messages.take(i),
                ).history
            }
        } by {
            if i < before.len() {
                assert(turns[i] == turns_after_all(state, before)[i]);
                assert(before.take(i + 1) =~= messages.take(i + 1));
                assert(before.take(i) =~= messages.take(i));
            } else {
                assert(messages.take(i + 1) =~= messages);
                assert(messages.take(i) =~= before);
            }
        }
    }
}

/// What is recorded when a loop ends says how many messages it took, whether
/// they were handled well or not.
pub proof fn law_end_counts_every_message(
    agent_id: AgentId,
    stored: Seq<MessageView>,
    max_history: Option<usize>,
    messages: Seq<Handled>,
)
    requires
        messages.len() <= u64::MAX,
    ensures
        end_event(state_after_all(begun(agent_id, stored, max_history), messages))
            == (AuditEventKindView::AgentLoopStopped {
            reason: "normal"@,
            messages_processed: messages.len() as u64,
        }),
{
    let state = begun(agent_id, stored, max_history);
    law_every_message_is_answered(state, messages);
    lemma_messages_do_not_pause(state, messages);
}

proof fn lemma_messages_do_not_pause(state: LoopView, messages: Seq<Handled>)
    ensures
        state_after_all(state, messages).paused == state.paused,
    decreases messages.len(),
{
    if messages.len() > 0 {
        lemma_messages_do_not_pause(state, messages.drop_last());
    }
}

/// After any messages the store holds what a loop needs to go on: one that
/// begins with it remembers what this one remembers.
pub proof fn law_restarted_loop_remembers(
    agent_id: AgentId,
    stored: Seq<MessageView>,
    max_history: Option<usize>,
    messages: Seq<Handled>,
)
    ensures
        ({
            let state = begun(agent_id, stored, max_history);
            let now_stored = stored_after_all(stored, turns_after_all(state, messages));
            latest(now_stored, state.max_history) == latest(
                state_after_all(state, messages).history,
                state.max_history,
            )
        }),
    decreases messages.len(),
{
    if messages.len() > 0 {
        let before = messages.drop_last();
        let state = begun(agent_id, stored, max_history);
        law_restarted_loop_remembers(agent_id, stored, max_history, before);
        law_every_message_is_answered(state, before);
        let turns = turns_after_all(state, messages);
        assert(turns.drop_last() =~= turns_after_all(state, before));
        let held = stored_after_all(stored, turns.drop_last());
        let result = messages.last().result;
        if result.stop_reason is Error {
            assert(held + turns.last().append =~= held);
        } else {
            law_store_holds_what_is_remembered(
                held,
                state_after_all(state, before).history,
                result.transcript_delta,
                state.max_history,
                turns.last().rewrite is Some,
            );
        }
    }
}

/// After a turn that went well the loop remembers no more than it may.
pub proof fn law_memory_is_bounded(
    history: Seq<MessageView>,
    delta: Seq<MessageView>,
    max_history: nat,
)
    ensures
        latest(history + delta, max_history).len() <= max_history,
{
}

/// A message is asked by its text, or else by its method.
pub proof fn law_what_is_asked(method: Seq<char>, params: JsonView, t: Seq<char>)
    ensures
        field(params, "message"@) == Some(JsonView::Text(t)) ==> asked(method, params) == t,
        field(params, "message"@) is None ==> asked(method, params) == method,
{
}

/// A loop begins with what was stored, and with nothing done.
pub proof fn law_loop_begins_with_what_was_stored(
    agent_id: AgentId,
    stored: Seq<MessageView>,
    n: usize,
)
    ensures
        begun(agent_id, stored, None).max_history == 100,
        begun(agent_id, stored, Some(n)).max_history == n,
        begun(agent_id, stored, Some(n)).history == stored,
        begun(agent_id, stored, Some(n)).agent_id == agent_id,
        begun(agent_id, stored, Some(n)).messages_processed == 0,
        begun(agent_id, stored, Some(n)).turns_since_compact == 0,
        !begun(agent_id, stored, Some(n)).paused,
{
}

/// A message that was answered is remembered: what was said in the turn stands
/// at the end of the history, behind as much of what was there as fits, and is
/// stored.
pub proof fn law_answered_message_is_remembered(
    state: LoopView,
    trace_id: u128,
    result: ResultView,
)
    requires
        result.stop_reason is Other,
        result.transcript_delta.len() <= state.max_history,
    ensures
        ({
            let after = state_after(state, result);
            let turn = turn_after(state, trace_id, result);
            let delta = result.transcript_delta;
            let n = after.history.len() - delta.len();
            &&& n >= 0
            &&& after.history.skip(n) == delta
            &&& state.history.len() + delta.len() <= state.max_history ==> after.history
                == state.history + delta
            &&& turn.append == delta
            &&& turn.rewrite is Some <==> state.turns_since_compact + 1 >= 10
            &&& turn.rewrite is Some ==> turn.rewrite->0 == after.history
                && after.turns_since_compact == 0
            &&& turn.rewrite is None ==> after.turns_since_compact == state.turns_since_compact + 1
        }),
{
    let delta = result.transcript_delta;
    let all = state.history + delta;
    let after = state_after(state, result);
    let n = after.history.len() - delta.len();
    assert(after.history.skip(n) =~= delta);
}

/// The answer holds what the model said, what it took, and why it ended; the
/// record says how it ended too.
pub proof fn law_answer_holds_the_response(
    state: LoopView,
    trace_id: u128,
    result: ResultView,
    reason: Seq<char>,
)
    requires
        result.stop_reason == StopReasonView::Other(reason),
    ensures
        ({
            let turn = turn_after(state, trace_id, result);
            let a = turn.reply->Success_0->Object_0;
            let usage = a[1].1->Object_0;
            &&& turn.reply is Success
            &&& turn.trace_id == trace_id
            &&& a.contains(("response"@, JsonView::Text(result.response)))
            &&& a[1].0 == "usage"@
            &&& usage.contains(("input_tokens"@, JsonView::Unsigned(result.input_tokens)))
            &&& usage.contains(("output_tokens"@, JsonView::Unsigned(result.output_tokens)))
            &&& a.contains(("iterations"@, JsonView::Unsigned(result.iterations as u64)))
            &&& a.contains(("stop_reason"@, JsonView::Text(reason)))
            &&& turn.event is AgentExecutionCompleted
            &&& turn.event->AgentExecutionCompleted_stop_reason == reason
            &&& turn.event->AgentExecutionCompleted_total_iterations == result.iterations
        }),
{
    let a = turn_after(state, trace_id, result).reply->Success_0->Object_0;
    assert(a[0].0 == "response"@ && a[2].0 == "iterations"@ && a[3].0 == "stop_reason"@);
    let usage = a[1].1->Object_0;
    assert(usage[0].0 == "input_tokens"@ && usage[1].0 == "output_tokens"@);
}

/// A turn that failed is answered with what went wrong and is on record; it is
/// not remembered.
pub proof fn law_failed_turn_is_told_of(
    state: LoopView,
    trace_id: u128,
    result: ResultView,
    e: Seq<char>,
)
    requires
        result.stop_reason == StopReasonView::Error(e),
    ensures
        ({
            let turn = turn_after(state, trace_id, result);
            let after = state_after(state, result);
            &&& turn.reply is Failure
            &&& turn.reply->Failure_code == -32603
            &&& turn.reply->Failure_message == e
            &&& turn.append.len() == 0
            &&& turn.rewrite is None
            &&& turn.event is AgentExecutionCompleted
            &&& turn.event->AgentExecutionCompleted_stop_reason == "error: "@ + e
            &&& after == (LoopView { messages_processed: state.messages_processed + 1, ..state })
        }),
{
}

/// The end says whether the loop was at rest, and how many messages it had.
pub proof fn law_end_says_how_it_was(state: LoopView)
    requires
        state.messages_processed <= u64::MAX,
    ensures
        end_event(state) == (AuditEventKindView::AgentLoopStopped {
            reason: if state.paused {
                "stopped_while_paused"@
            } else {
                "normal"@
            },
            messages_processed: state.messages_processed as u64,
        }),
{
}

} // verus!
