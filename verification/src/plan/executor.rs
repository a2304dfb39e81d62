//! Execution of a plan: what to launch, what to make of the outcomes, and when
//! to ask for another plan.
//!
//! The functions here decide; launching agents, reading the clock and looking
//! at the file system are left to the caller, who hands the outcomes back.

use crate::audit::{events_view, AuditEvent, AuditEventKind, AuditEventKindView};
use crate::error::{error_words, CoreError, CoreErrorView};
use crate::json::{field, text_of, Json, JsonView};
use crate::plan::escalation::{
    failed_view, has_signal, law_raised_tier_is_on_the_ladder, raised_tier, signals_among,
    signals_for_subtask, EscalationSignal, FailedSubtask, FailedSubtaskView,
};
use crate::plan::placeholders::{value_with_run, Substitutions};
use crate::plan::planner::PlannerError;
use crate::plan::role::{param_problems, substituted, Role, RoleCatalog};
use crate::plan::{
    all_known, batches_view, done_after, first_unknown, is_schedule, left_over,
    lemma_schedule_never_stuck, never_stuck, stuck, tasks_view, topo_batches, unknown_message, Plan,
    PlanResult, Subtask, SubtaskResult, SubtaskView,
};
use crate::table::{lemma_stored_lookup, lookup, stored, Table};
use crate::text::{
    begins_with, contains_text, ends_in, ends_with, joined, same, strip_prefix, trim,
    trimmed,
};
use crate::text_laws::{
    law_containment_is_transitive, law_four_parts, law_joined_holds_each,
    law_leading_space_is_left_out, law_nothing_to_trim, law_parts_occur,
    law_text_holds_its_parts, law_white_space,
};
use crate::types::{AgentId, Span};
use vstd::prelude::*;
use vstd::string::*;

verus! {

/// The error by which a runner reports that a subtask ran out of time.
pub const TTL_WALL_CLOCK_SENTINEL: &'static str = "ttl wall-clock exceeded";

/// How often a plan may be replaced.
pub const MAX_REPLANS: u32 = 3;

/// How many seconds planning and execution may take together.
pub const TOTAL_DEADLINE_SECS: u64 = 600;

/// Limits on the agent that runs a subtask.
#[derive(Debug, Clone, Copy, PartialEq, Eq, Structural)]
pub struct SubtaskExecutorOverrides {
    /// Output tokens per call of the model.
    pub max_output_tokens: u32,
    /// Turns that the agent may take.
    pub max_iterations: u32,
}

impl Default for SubtaskExecutorOverrides {
    fn default() -> (r: SubtaskExecutorOverrides)
        ensures
            r == (SubtaskExecutorOverrides { max_output_tokens: 16_384, max_iterations: 50 }),
    {
        SubtaskExecutorOverrides { max_output_tokens: 16_384, max_iterations: 50 }
    }
}

/// Why a plan was not executed to its end.
#[derive(Debug)]
pub enum ExecutorError {
    /// Another plan may do better.
    Correctable(String),
    /// No plan would.
    Terminal(CoreError),
}

/// What an error says.
pub enum ExecutorErrorView {
    Correctable(Seq<char>),
    Terminal(CoreErrorView),
}

impl View for ExecutorError {
    type V = ExecutorErrorView;

    open spec fn view(&self) -> ExecutorErrorView {
        match self {
            ExecutorError::Correctable(m) => ExecutorErrorView::Correctable(m@),
            ExecutorError::Terminal(e) => ExecutorErrorView::Terminal(e@),
        }
    }
}

/// An error in words.
pub open spec fn executor_words(e: ExecutorErrorView) -> Seq<char> {
    match e {
        ExecutorErrorView::Correctable(m) => "planner-correctable: "@ + m,
        ExecutorErrorView::Terminal(c) => "terminal: "@ + error_words(c),
    }
}

impl ExecutorError {
    /// The error in words.
    pub fn message(&self) -> (r: String)
        ensures
            r@ == executor_words(self@),
    {
        match self {
            ExecutorError::Correctable(m) => {
                let mut out = "planner-correctable: ".to_owned();
                out.append(m.as_str());
                out
            },
            ExecutorError::Terminal(e) => {
                let mut out = "terminal: ".to_owned();
                let words = e.message();
                out.append(words.as_str());
                out
            },
        }
    }

    /// What a planner's error means for the execution: another attempt may
    /// mend a malformed plan, a failed call ends it.
    pub fn from_planner(e: PlannerError) -> (r: ExecutorError)
        ensures
            r@ == planner_failure(e),
    {
        match e {
            PlannerError::Malformed(m) => ExecutorError::Correctable(m),
            PlannerError::LlmCall(m) => {
                let mut out = "planner LLM: ".to_owned();
                out.append(m.as_str());
                ExecutorError::Terminal(CoreError::Ipc(out))
            },
        }
    }
}

/// What a planner's error means for the execution.
pub open spec fn planner_failure(e: PlannerError) -> ExecutorErrorView {
    match e {
        PlannerError::Malformed(m) => ExecutorErrorView::Correctable(m@),
        PlannerError::LlmCall(m) => ExecutorErrorView::Terminal(
            CoreErrorView::Ipc("planner LLM: "@ + m@),
        ),
    }
}

/// The event's subject where no agent is known yet.
pub open spec fn nobody() -> AgentId {
    AgentId { uuid: 0 }
}

/// What is to be done for a subtask.
#[derive(Debug)]
pub enum Launch {
    /// Nothing: it cannot run.
    Refused(ExecutorError),
    /// The runtime does the work itself.
    Scaffold { kind: String, params: Json },
    /// An agent does.
    Agent { manifest: String, message: String, overrides: SubtaskExecutorOverrides },
}

/// What a launch holds.
pub enum LaunchView {
    Refused(ExecutorErrorView),
    Scaffold { kind: Seq<char>, params: JsonView },
    Agent { manifest: Seq<char>, message: Seq<char>, overrides: SubtaskExecutorOverrides },
}

impl View for Launch {
    type V = LaunchView;

    open spec fn view(&self) -> LaunchView {
        match self {
            Launch::Refused(e) => LaunchView::Refused(e@),
            Launch::Scaffold { kind, params } => LaunchView::Scaffold {
                kind: kind@,
                params: params@,
            },
            Launch::Agent { manifest, message, overrides } => LaunchView::Agent {
                manifest: manifest@,
                message: message@,
                overrides: *overrides,
            },
        }
    }
}

/// The model that a subtask on rung `tier` of its role's ladder runs on.
pub open spec fn model_on(role: Role, tier: u8) -> Seq<char> {
    if 0 < tier < role.model_ladder@.len() {
        role.model_ladder@[tier as int]@
    } else {
        role.model@
    }
}

/// Whether the hops of a subtask are used up.
pub open spec fn out_of_hops(t: SubtaskView) -> bool {
    match t.ttl {
        Some(ttl) => ttl.max_hops == Some(0u32),
        None => false,
    }
}

/// What is put on record before a subtask runs.
pub open spec fn launch_events(
    t: SubtaskView,
    role: Option<Role>,
) -> Seq<(AgentId, AuditEventKindView)> {
    if role is None {
        Seq::empty()
    } else if out_of_hops(t) {
        seq![
            (
                nobody(),
                AuditEventKindView::SubtaskTtlExpired {
                    subtask_id: t.id,
                    reason: "hops_exhausted"@,
                },
            ),
        ]
    } else {
        seq![
            (nobody(), AuditEventKindView::SubtaskStarted { subtask_id: t.id, role: t.role }),
        ]
    }
}

/// What is to be done for a subtask.
pub open spec fn launch_of(
    t: SubtaskView,
    role: Option<Role>,
    root: Seq<char>,
    scaffolds: bool,
) -> LaunchView {
    let params = value_with_run(t.params, root);
    match role {
        None => LaunchView::Refused(ExecutorErrorView::Correctable("unknown role: "@ + t.role)),
        Some(r) => if out_of_hops(t) {
            LaunchView::Refused(
                ExecutorErrorView::Correctable("subtask '"@ + t.id + "' TTL hops exhausted"@),
            )
        } else {
            if scaffolds && r.scaffold is Some {
                LaunchView::Scaffold { kind: (r.scaffold->0).kind@, params }
            } else {
                LaunchView::Agent {
                    manifest: r.manifest(model_on(r, t.current_model_tier), params),
                    message: substituted(r.message_template@, params),
                    overrides: SubtaskExecutorOverrides {
                        max_output_tokens: r.budget.max_output_tokens as u32,
                        max_iterations: (r.retry.max_attempts + 10) as u32,
                    },
                }
            }
        },
    }
}

/// Decides what is to be done for a subtask, and what goes on record first.
/// `scaffolds` tells whether the runtime can do the work of a scaffolded role
/// itself; else an agent does it.
pub fn prepare_subtask(
    catalog: &RoleCatalog,
    subtask: &Subtask,
    subs: &Substitutions,
    scaffolds: bool,
) -> (r: (Launch, Vec<AuditEvent>))
    requires
        match lookup(catalog@, subtask.role@) {
            Some(role) => role.retry.max_attempts <= u32::MAX - 10,
            None => true,
        },
    ensures
        r.0@ == launch_of(
            subtask@,
            lookup(catalog@, subtask.role@),
            subs.run_root@,
            scaffolds,
        ),
        events_view(r.1@) == launch_events(subtask@, lookup(catalog@, subtask.role@)),
{
    let mut events: Vec<AuditEvent> = Vec::new();
    let role = match catalog.get(subtask.role.as_str()) {
        None => {
            let mut m = "unknown role: ".to_owned();
            m.append(subtask.role.as_str());
            assert(events_view(events@) =~= Seq::<(AgentId, AuditEventKindView)>::empty());
            return (Launch::Refused(ExecutorError::Correctable(m)), events);
        },
        Some(role) => role,
    };
    let params = subs.apply(&subtask.params);
    let exhausted = match subtask.ttl {
        Some(ttl) => match ttl.max_hops {
            Some(h) => h == 0,
            None => false,
        },
        None => false,
    };
    if exhausted {
        let event = AuditEventKind::SubtaskTtlExpired {
            subtask_id: subtask.id.clone(),
            reason: "hops_exhausted".to_owned(),
        };
        events.push(AuditEvent::new(AgentId { uuid: 0 }, event));
        assert(events_view(events@) =~= seq![(nobody(), event@)]);
        let mut m = "subtask '".to_owned();
        m.append(subtask.id.as_str());
        m.append("' TTL hops exhausted");
        return (Launch::Refused(ExecutorError::Correctable(m)), events);
    }
    let event = AuditEventKind::SubtaskStarted {
        subtask_id: subtask.id.clone(),
        role: subtask.role.clone(),
    };
    events.push(AuditEvent::new(AgentId { uuid: 0 }, event));
    assert(events_view(events@) =~= seq![(nobody(), event@)]);
    if let Some(s) = &role.scaffold {
        if scaffolds {
            return (Launch::Scaffold { kind: s.kind.clone(), params }, events);
        }
    }
    let tier: usize = subtask.current_model_tier as usize;
    let model = if tier > 0 && tier < role.model_ladder.len() {
        role.model_ladder[tier].as_str()
    } else {
        role.model.as_str()
    };
    let manifest = role.render_manifest_with_model(model, &params);
    let message = role.render_message(&params);
    let overrides = SubtaskExecutorOverrides {
        max_output_tokens: role.budget.max_output_tokens as u32,
        max_iterations: role.retry.max_attempts + 10,
    };
    (Launch::Agent { manifest, message, overrides }, events)
}

/// What the outcome of an agent means for its subtask.
pub open spec fn agent_failure(id: Seq<char>, e: CoreErrorView) -> ExecutorErrorView {
    if e == CoreErrorView::Ipc(TTL_WALL_CLOCK_SENTINEL@) {
        ExecutorErrorView::Correctable("subtask '"@ + id + "' exceeded wall-clock TTL"@)
    } else {
        ExecutorErrorView::Terminal(e)
    }
}

/// What the outcome of an agent puts on record.
pub open spec fn agent_events(id: Seq<char>, e: Option<CoreErrorView>) -> Seq<
    (AgentId, AuditEventKindView),
> {
    if e == Some(CoreErrorView::Ipc(TTL_WALL_CLOCK_SENTINEL@)) {
        seq![
            (
                nobody(),
                AuditEventKindView::SubtaskTtlExpired {
                    subtask_id: id,
                    reason: "wall_clock_exceeded"@,
                },
            ),
        ]
    } else {
        Seq::empty()
    }
}

/// Makes the outcome of a subtask from that of its agent: running out of time
/// is correctable, any other failure is not.
pub fn conclude_subtask(subtask_id: &str, raced: Result<SubtaskResult, CoreError>) -> (r: (
    Result<SubtaskResult, ExecutorError>,
    Vec<AuditEvent>,
))
    ensures
        match raced {
            Ok(v) => r.0 == Ok::<SubtaskResult, ExecutorError>(v) && events_view(r.1@)
                == agent_events(subtask_id@, None),
            Err(e) => r.0 is Err && r.0->Err_0@ == agent_failure(subtask_id@, e@) && events_view(
                r.1@,
            ) == agent_events(subtask_id@, Some(e@)),
        },
{
    let mut events: Vec<AuditEvent> = Vec::new();
    assert(events_view(events@) =~= Seq::<(AgentId, AuditEventKindView)>::empty());
    match raced {
        Ok(v) => (Ok(v), events),
        Err(e) => {
            let expired = match &e {
                CoreError::Ipc(m) => same(m.as_str(), TTL_WALL_CLOCK_SENTINEL),
                _ => false,
            };
            if expired {
                let event = AuditEventKind::SubtaskTtlExpired {
                    subtask_id: subtask_id.to_owned(),
                    reason: "wall_clock_exceeded".to_owned(),
                };
                events.push(AuditEvent::new(AgentId { uuid: 0 }, event));
                assert(events_view(events@) =~= seq![(nobody(), event@)]);
                let mut m = "subtask '".to_owned();
                m.append(subtask_id);
                m.append("' exceeded wall-clock TTL");
                (Err(ExecutorError::Correctable(m)), events)
            } else {
                (Err(ExecutorError::Terminal(e)), events)
            }
        },
    }
}

/// The parameter that holds the path of an output, where a grant declares one:
/// a grant to write the one file that the parameter names.
pub open spec fn output_param(grant: Seq<char>) -> Option<Seq<char>> {
    if !begins_with(grant, "file_write:"@) {
        None
    } else {
        let rest = trimmed(grant.skip("file_write:"@.len() as int));
        if ends_in(rest, "/*"@) || ends_in(rest, "/**"@) {
            None
        } else if rest.len() >= 2 && rest[0] == '{' && rest.last() == '}' {
            Some(rest.subrange(1, rest.len() - 1))
        } else {
            None
        }
    }
}

/// The outputs that the first `n` grants declare: the path, and the parameter
/// that holds it.
pub open spec fn outputs_among(
    grants: Seq<String>,
    params: JsonView,
    n: int,
) -> Seq<(Seq<char>, Seq<char>)>
    decreases n,
{
    if n <= 0 {
        Seq::empty()
    } else {
        let before = outputs_among(grants, params, n - 1);
        match output_param(grants[n - 1]@) {
            Some(name) => match text_of(field(params, name)) {
                Some(path) => before.push((path, name)),
                None => before,
            },
            None => before,
        }
    }
}

/// What a list of paths and parameters holds.
pub open spec fn pairs_view(s: Seq<(String, String)>) -> Seq<(Seq<char>, Seq<char>)> {
    s.map_values(|p: (String, String)| (p.0@, p.1@))
}

/// The parameter that holds the path of an output, where a grant declares one.
fn find_output_param(grant: &str) -> (r: Option<String>)
    ensures
        match r {
            Some(n) => output_param(grant@) == Some(n@),
            None => output_param(grant@) is None,
        },
{
    let rest = match strip_prefix(grant, "file_write:") {
        None => {
            return None;
        },
        Some(t) => trim(t.as_str()),
    };
    if ends_with(rest.as_str(), "/*") || ends_with(rest.as_str(), "/**") {
        return None;
    }
    let v = crate::text::to_chars(rest.as_str());
    if v.len() >= 2 && v[0] == '{' && v[v.len() - 1] == '}' {
        Some(crate::text::from_range(&v, 1, v.len() - 1))
    } else {
        None
    }
}

/// The files that a subtask has to leave behind: for each grant of its role to
/// write one file that a parameter names, the path and the parameter.
pub fn declared_outputs(catalog: &RoleCatalog, subtask: &Subtask, subs: &Substitutions) -> (r: Vec<
    (String, String),
>)
    ensures
        pairs_view(r@) == match lookup(catalog@, subtask.role@) {
            None => Seq::empty(),
            Some(role) => outputs_among(
                role.capabilities@,
                value_with_run(subtask.params@, subs.run_root@),
                role.capabilities@.len() as int,
            ),
        },
{
    let mut out: Vec<(String, String)> = Vec::new();
    assert(pairs_view(out@) =~= Seq::<(Seq<char>, Seq<char>)>::empty());
    let role = match catalog.get(subtask.role.as_str()) {
        None => {
            return out;
        },
        Some(role) => role,
    };
    let params = subs.apply(&subtask.params);
    let mut i: usize = 0;
    while i < role.capabilities.len()
        invariant
            0 <= i <= role.capabilities@.len(),
            pairs_view(out@) == outputs_among(role.capabilities@, params@, i as int),
        decreases role.capabilities@.len() - i,
    {
        let ghost before = pairs_view(out@);
        if let Some(name) = find_output_param(role.capabilities[i].as_str()) {
            if let Some(path) = params.get_str(name.as_str()) {
                let ghost pair = (path@, name@);
                out.push((path.clone(), name));
                assert(pairs_view(out@) =~= before.push(pair));
            }
        }
        i += 1;
    }
    out
}

/// What is said of an output that is not there.
pub open spec fn missing_output(path: Seq<char>, param: Seq<char>) -> Seq<char> {
    "'"@ + path + "' (from {"@ + param + "}) was not written"@
}

/// What is said of the first output that is not there, from `i` on.
pub open spec fn first_missing(
    outputs: Seq<(Seq<char>, Seq<char>)>,
    exists_on_disk: Seq<bool>,
    i: int,
) -> Option<Seq<char>>
    decreases outputs.len() - i,
{
    if i < 0 || i >= outputs.len() {
        None
    } else if !exists_on_disk[i] {
        Some(missing_output(outputs[i].0, outputs[i].1))
    } else {
        first_missing(outputs, exists_on_disk, i + 1)
    }
}

/// What is said of the first output that is not there. `exists_on_disk` tells
/// of each whether it is.
pub fn check_declared_outputs_exist(
    outputs: &Vec<(String, String)>,
    exists_on_disk: &Vec<bool>,
) -> (r: Option<String>)
    requires
        outputs@.len() == exists_on_disk@.len(),
    ensures
        match r {
            Some(m) => first_missing(pairs_view(outputs@), exists_on_disk@, 0) == Some(m@),
            None => first_missing(pairs_view(outputs@), exists_on_disk@, 0) is None,
        },
{
    let ghost all = pairs_view(outputs@);
    let mut i: usize = 0;
    while i < outputs.len()
        invariant
            0 <= i <= outputs@.len(),
            outputs@.len() == exists_on_disk@.len(),
            all == pairs_view(outputs@),
            first_missing(all, exists_on_disk@, 0) == first_missing(all, exists_on_disk@, i as int),
        decreases outputs@.len() - i,
    {
        if !exists_on_disk[i] {
            assert(all[i as int] == (outputs@[i as int].0@, outputs@[i as int].1@));
            let mut m = "'".to_owned();
            m.append(outputs[i].0.as_str());
            m.append("' (from {");
            m.append(outputs[i].1.as_str());
            m.append("}) was not written");
            return Some(m);
        }
        i += 1;
    }
    None
}

/// How one subtask of a batch came out.
#[derive(Debug)]
pub enum SubtaskOutcome {
    /// It ran, and left behind what it has to.
    Done(SubtaskResult),
    /// It ran, but this is not there.
    NoOutput(SubtaskResult, String),
    /// It failed.
    Failed(ExecutorError),
}

/// What an outcome puts on record.
pub open spec fn outcome_event(t: SubtaskView, o: SubtaskOutcome) -> (AgentId, AuditEventKindView) {
    match o {
        SubtaskOutcome::Done(r) => (
            r.agent_id,
            AuditEventKindView::SubtaskCompleted { subtask_id: t.id, success: true },
        ),
        SubtaskOutcome::NoOutput(r, m) => (
            r.agent_id,
            AuditEventKindView::SubtaskCompleted { subtask_id: t.id, success: false },
        ),
        SubtaskOutcome::Failed(e) => (
            nobody(),
            AuditEventKindView::SubtaskCompleted { subtask_id: t.id, success: false },
        ),
    }
}

/// The agents that are known to have run a subtask that failed.
pub open spec fn failed_agents(o: SubtaskOutcome) -> Seq<AgentId> {
    match o {
        SubtaskOutcome::NoOutput(r, _) => seq![r.agent_id],
        _ => Seq::empty(),
    }
}

/// A subtask that failed, with what was observed: that it failed, behind
/// whatever the events show.
pub open spec fn failed_subtask(
    t: SubtaskView,
    o: SubtaskOutcome,
    seen: Seq<AuditEvent>,
) -> FailedSubtaskView {
    let signals = signals_among(seen, seen.len() as int, t.id, failed_agents(o));
    FailedSubtaskView {
        subtask_id: t.id,
        role: t.role,
        observed_signals: if signals.contains(EscalationSignal::ReplanRetry) {
            signals
        } else {
            signals.push(EscalationSignal::ReplanRetry)
        },
    }
}

/// The subtasks that failed among the first `n` of a batch.
pub open spec fn failed_among(
    batch: Seq<SubtaskView>,
    outcomes: Seq<SubtaskOutcome>,
    seen: Seq<AuditEvent>,
    n: int,
) -> Seq<FailedSubtaskView>
    decreases n,
{
    if n <= 0 {
        Seq::empty()
    } else {
        let before = failed_among(batch, outcomes, seen, n - 1);
        if outcomes[n - 1] is Done {
            before
        } else {
            before.push(failed_subtask(batch[n - 1], outcomes[n - 1], seen))
        }
    }
}

/// The subtasks of a batch that failed, given what was on record once the batch
/// was in.
pub fn failed_subtasks(
    batch: &Vec<Subtask>,
    outcomes: &Vec<SubtaskOutcome>,
    seen: &Vec<AuditEvent>,
) -> (r: Vec<FailedSubtask>)
    requires
        batch@.len() == outcomes@.len(),
    ensures
        failed_view(r@) == failed_among(
            tasks_view(batch@),
            outcomes@,
            seen@,
            outcomes@.len() as int,
        ),
{
    let ghost all = tasks_view(batch@);
    let mut out: Vec<FailedSubtask> = Vec::new();
    let mut i: usize = 0;
    assert(failed_view(out@) =~= Seq::<FailedSubtaskView>::empty());
    while i < batch.len()
        invariant
            all == tasks_view(batch@),
            batch@.len() == outcomes@.len(),
            0 <= i <= batch@.len(),
            failed_view(out@) == failed_among(all, outcomes@, seen@, i as int),
        decreases batch@.len() - i,
    {
        let t = &batch[i];
        assert(all[i as int] == t@);
        let ghost before = failed_view(out@);
        let ghost want = failed_subtask(t@, outcomes@[i as int], seen@);
        let mut agents: Vec<AgentId> = Vec::new();
        let failed: bool = match &outcomes[i] {
            SubtaskOutcome::Done(_) => false,
            SubtaskOutcome::NoOutput(r, _) => {
                agents.push(r.agent_id);
                true
            },
            SubtaskOutcome::Failed(_) => true,
        };
        if failed {
            assert(agents@ =~= failed_agents(outcomes@[i as int]));
            let mut signals = signals_for_subtask(
                t.id.as_str(),
                agents.as_slice(),
                seen.as_slice(),
            );
            if !has_signal(signals.as_slice(), EscalationSignal::ReplanRetry) {
                signals.push(EscalationSignal::ReplanRetry);
            }
            let f = FailedSubtask {
                subtask_id: t.id.clone(),
                role: t.role.clone(),
                observed_signals: signals,
            };
            assert(f@ == want);
            out.push(f);
            assert(failed_view(out@) =~= before.push(want));
        }
        i += 1;
    }
    out
}

/// That a subtask failed is always observed, so that a role that reacts to it
/// moves the subtask up.
pub proof fn law_failure_is_observed(t: SubtaskView, o: SubtaskOutcome, seen: Seq<AuditEvent>)
    ensures
        failed_subtask(t, o, seen).observed_signals.contains(EscalationSignal::ReplanRetry),
{
    let signals = signals_among(seen, seen.len() as int, t.id, failed_agents(o));
    let more = signals.push(EscalationSignal::ReplanRetry);
    assert(more[signals.len() as int] == EscalationSignal::ReplanRetry);
}

/// A subtask that is raised runs on the model that its role's ladder names for
/// the tier.
pub proof fn law_raised_subtask_runs_on_its_rung(
    failed: FailedSubtaskView,
    tasks: Seq<SubtaskView>,
    roles: Seq<(Seq<char>, Role)>,
)
    requires
        raised_tier(failed, tasks, roles) is Some,
    ensures
        ({
            let role = lookup(roles, failed.role)->0;
            let tier = raised_tier(failed, tasks, roles)->0;
            tier < role.model_ladder@.len() && model_on(role, tier)
                == role.model_ladder@[tier as int]@
        }),
{
    law_raised_tier_is_on_the_ladder(failed, tasks, roles);
}

/// The failure that an outcome is.
pub open spec fn outcome_failure(t: SubtaskView, o: SubtaskOutcome) -> Option<Seq<char>> {
    let who = "subtask '"@ + t.id + "' (role '"@ + t.role;
    match o {
        SubtaskOutcome::Done(r) => None,
        SubtaskOutcome::NoOutput(r, m) => Some(
            who + "') did not produce its declared output: "@ + m@,
        ),
        SubtaskOutcome::Failed(e) => Some(who + "') failed: "@ + executor_words(e@)),
    }
}

/// The first failure among the first `n` outcomes.
pub open spec fn batch_failure(
    batch: Seq<SubtaskView>,
    outcomes: Seq<SubtaskOutcome>,
    n: int,
) -> Option<Seq<char>>
    decreases n,
{
    if n <= 0 {
        None
    } else {
        match batch_failure(batch, outcomes, n - 1) {
            Some(m) => Some(m),
            None => outcome_failure(batch[n - 1], outcomes[n - 1]),
        }
    }
}

/// The results with those of the first `n` outcomes taken in.
pub open spec fn batch_results(
    results: Seq<(Seq<char>, SubtaskResult)>,
    batch: Seq<SubtaskView>,
    outcomes: Seq<SubtaskOutcome>,
    n: int,
) -> Seq<(Seq<char>, SubtaskResult)>
    decreases n,
{
    if n <= 0 {
        results
    } else {
        let before = batch_results(results, batch, outcomes, n - 1);
        match outcomes[n - 1] {
            SubtaskOutcome::Done(r) => stored(before, batch[n - 1].id, r),
            _ => before,
        }
    }
}

/// Takes in the outcomes of a batch: puts each on record, keeps the results of
/// those that succeeded, and tells the first failure.
pub fn settle_batch(
    batch: &Vec<Subtask>,
    outcomes: Vec<SubtaskOutcome>,
    results: &mut Table<SubtaskResult>,
) -> (r: (Option<String>, Vec<AuditEvent>))
    requires
        batch@.len() == outcomes@.len(),
    ensures
        final(results)@ == batch_results(
            old(results)@,
            tasks_view(batch@),
            outcomes@,
            outcomes@.len() as int,
        ),
        match r.0 {
            Some(m) => batch_failure(tasks_view(batch@), outcomes@, outcomes@.len() as int) == Some(
                m@,
            ),
            None => batch_failure(tasks_view(batch@), outcomes@, outcomes@.len() as int) is None,
        },
        events_view(r.1@).len() == outcomes@.len(),
        forall|i: int|
            0 <= i < outcomes@.len() ==> #[trigger] events_view(r.1@)[i] == outcome_event(
                tasks_view(batch@)[i],
                outcomes@[i],
            ),
{
    let ghost all = tasks_view(batch@);
    let ghost outs = outcomes@;
    let ghost start = results@;
    let mut events: Vec<AuditEvent> = Vec::new();
    let mut failure: Option<String> = None;
    let mut rest = outcomes;
    let mut i: usize = 0;
    assert(outs.skip(0) =~= outs);
    while i < batch.len()
        invariant
            all == tasks_view(batch@),
            outs.len() == batch@.len(),
            0 <= i <= batch@.len(),
            rest@ == outs.skip(i as int),
            results@ == batch_results(start, all, outs, i as int),
            match failure {
                Some(m) => batch_failure(all, outs, i as int) == Some(m@),
                None => batch_failure(all, outs, i as int) is None,
            },
            events@.len() == i,
            forall|k: int|
                0 <= k < i ==> #[trigger] events_view(events@)[k] == outcome_event(all[k], outs[k]),
        decreases batch@.len() - i,
    {
        let t = &batch[i];
        assert(all[i as int] == t@);
        let ghost before = events_view(events@);
        let outcome = rest.remove(0);
        assert(outcome == outs[i as int]);
        assert(rest@ =~= outs.skip(i + 1));
        match outcome {
            SubtaskOutcome::Done(r) => {
                let event = AuditEventKind::SubtaskCompleted {
                    subtask_id: t.id.clone(),
                    success: true,
                };
                events.push(AuditEvent::new(r.agent_id, event));
                results.insert(t.id.clone(), r);
            },
            SubtaskOutcome::NoOutput(r, why) => {
                let event = AuditEventKind::SubtaskCompleted {
                    subtask_id: t.id.clone(),
                    success: false,
                };
                events.push(AuditEvent::new(r.agent_id, event));
                if failure.is_none() {
                    let mut m = "subtask '".to_owned();
                    m.append(t.id.as_str());
                    m.append("' (role '");
                    m.append(t.role.as_str());
                    m.append("') did not produce its declared output: ");
                    m.append(why.as_str());
                    failure = Some(m);
                }
            },
            SubtaskOutcome::Failed(e) => {
                let event = AuditEventKind::SubtaskCompleted {
                    subtask_id: t.id.clone(),
                    success: false,
                };
                events.push(AuditEvent::new(AgentId { uuid: 0 }, event));
                if failure.is_none() {
                    let mut m = "subtask '".to_owned();
                    m.append(t.id.as_str());
                    m.append("' (role '");
                    m.append(t.role.as_str());
                    m.append("') failed: ");
                    let words = e.message();
                    m.append(words.as_str());
                    failure = Some(m);
                }
            },
        }
        assert(events_view(events@) =~= before.push(outcome_event(all[i as int], outs[i as int])));
        i += 1;
    }
    (failure, events)
}

/// Whether the parameters of subtask `t` are what its role declares.
pub open spec fn params_fit(t: SubtaskView, role: Role, root: Seq<char>) -> bool {
    match value_with_run(t.params, root) {
        JsonView::Object(fields) => param_problems(role.parameters@, fields).len() == 0,
        _ => false,
    }
}

/// Whether subtask `t` can be launched.
pub open spec fn launchable(t: SubtaskView, roles: Seq<(Seq<char>, Role)>, root: Seq<char>) -> bool {
    match lookup(roles, t.role) {
        Some(role) => params_fit(t, role, root),
        None => false,
    }
}

/// What is wrong with a subtask that cannot be launched.
pub open spec fn launch_fault(
    t: SubtaskView,
    roles: Seq<(Seq<char>, Role)>,
    root: Seq<char>,
) -> Seq<char> {
    match lookup(roles, t.role) {
        None => "unknown role: "@ + t.role,
        Some(role) => match value_with_run(t.params, root) {
            JsonView::Object(fields) => "role '"@ + role.name@ + "' param validation failed: "@
                + joined(param_problems(role.parameters@, fields), "; "@),
            _ => "role '"@ + role.name@ + "' expected params object, got non-object"@,
        },
    }
}

/// Checks a whole plan before anything of it is launched, and gives the
/// batches in which to run it.
pub fn schedule_plan(plan: &Plan, catalog: &RoleCatalog, subs: &Substitutions) -> (r: Result<
    Vec<Vec<Subtask>>,
    ExecutorError,
>)
    ensures
        match r {
            Ok(b) => {
                let tasks = tasks_view(plan.subtasks@);
                &&& all_known(tasks)
                &&& is_schedule(tasks, batches_view(b@))
                &&& forall|i: int|
                    0 <= i < tasks.len() ==> launchable(
                        #[trigger] tasks[i],
                        catalog@,
                        subs.run_root@,
                    )
            },
            Err(e) => {
                let tasks = tasks_view(plan.subtasks@);
                &&& e is Correctable
                &&& {
                    ||| exists|i: int, j: int| #[trigger]
                        first_unknown(tasks, i, j) && e->Correctable_0@ == unknown_message(
                            tasks[i].id,
                            tasks[i].depends_on[j],
                        )
                    ||| all_known(tasks) && exists|k: nat|
                        #![trigger done_after(tasks, k)]
                        stuck(tasks, done_after(tasks, k)) && e->Correctable_0@
                            == "dependency cycle among: "@ + joined(
                            left_over(tasks, done_after(tasks, k), tasks.len() as int),
                            ", "@,
                        )
                    ||| all_known(tasks) && never_stuck(tasks) && exists|i: int|
                        0 <= i < tasks.len() && !launchable(
                            #[trigger] tasks[i],
                            catalog@,
                            subs.run_root@,
                        ) && (forall|j: int|
                            0 <= j < i ==> launchable(
                                #[trigger] tasks[j],
                                catalog@,
                                subs.run_root@,
                            )) && e->Correctable_0@ == launch_fault(
                            tasks[i],
                            catalog@,
                            subs.run_root@,
                        )
                }
            },
        },
{
    let ghost tasks = tasks_view(plan.subtasks@);
    let batches = match topo_batches(plan) {
        Ok(b) => b,
        Err(m) => {
            return Err(ExecutorError::Correctable(m));
        },
    };
    proof {
        lemma_schedule_never_stuck(tasks, batches_view(batches@));
    }
    let mut i: usize = 0;
    while i < plan.subtasks.len()
        invariant
            tasks == tasks_view(plan.subtasks@),
            all_known(tasks),
            never_stuck(tasks),
            is_schedule(tasks, batches_view(batches@)),
            0 <= i <= plan.subtasks@.len(),
            forall|j: int|
                0 <= j < i ==> launchable(#[trigger] tasks[j], catalog@, subs.run_root@),
        decreases plan.subtasks@.len() - i,
    {
        let s = &plan.subtasks[i];
        assert(tasks[i as int] == s@);
        match catalog.get(s.role.as_str()) {
            None => {
                let mut m = "unknown role: ".to_owned();
                m.append(s.role.as_str());
                assert(!launchable(tasks[i as int], catalog@, subs.run_root@));
                return Err(ExecutorError::Correctable(m));
            },
            Some(role) => {
                let resolved = subs.apply(&s.params);
                if let Err(m) = role.validate_params(&resolved) {
                    assert(!launchable(tasks[i as int], catalog@, subs.run_root@));
                    return Err(ExecutorError::Correctable(m));
                }
            },
        }
        i += 1;
    }
    Ok(batches)
}

/// A plan that is being executed, batch by batch.
#[derive(Debug)]
pub struct PlanRun {
    batches: Vec<Vec<Subtask>>,
    next: usize,
    failed: bool,
    results: Table<SubtaskResult>,
}

impl PlanRun {
    /// The batches of the plan.
    pub closed spec fn batches(&self) -> Seq<Seq<SubtaskView>> {
        batches_view(self.batches@)
    }

    /// How many batches have been run.
    pub closed spec fn position(&self) -> nat {
        self.next as nat
    }

    /// Whether a subtask failed.
    pub closed spec fn has_failed(&self) -> bool {
        self.failed
    }

    /// What the subtasks have returned so far.
    pub closed spec fn returned(&self) -> Seq<(Seq<char>, SubtaskResult)> {
        self.results@
    }

    /// No more batches were run than there are.
    pub closed spec fn wf(&self) -> bool {
        self.next <= self.batches@.len()
    }

    /// The batch to be launched now, if any: none after a failure.
    pub open spec fn due(&self) -> Option<Seq<SubtaskView>> {
        if !self.has_failed() && self.position() < self.batches().len() {
            Some(self.batches()[self.position() as int])
        } else {
            None
        }
    }

    /// Whether every subtask of the batches behind has its result.
    pub open spec fn all_returned(&self) -> bool {
        forall|b: int, k: int|
            0 <= b < self.position() && 0 <= k < self.batches()[b].len() ==> lookup(
                self.returned(),
                (#[trigger] self.batches()[b][k]).id,
            ) is Some
    }

    /// A plan about to be executed, in these batches.
    pub fn begin(batches: Vec<Vec<Subtask>>) -> (r: PlanRun)
        ensures
            r.wf(),
            r.batches() == batches_view(batches@),
            r.position() == 0,
            !r.has_failed(),
            r.returned() == Seq::<(Seq<char>, SubtaskResult)>::empty(),
            r.all_returned(),
    {
        PlanRun { batches, next: 0, failed: false, results: Table::new() }
    }

    /// The batch to be launched now, if any.
    pub fn pending(&self) -> (r: Option<&Vec<Subtask>>)
        requires
            self.wf(),
        ensures
            match r {
                Some(b) => self.due() == Some(tasks_view(b@)),
                None => self.due() is None,
            },
    {
        if self.failed || self.next >= self.batches.len() {
            None
        } else {
            assert(batches_view(self.batches@)[self.next as int] == tasks_view(
                self.batches@[self.next as int]@,
            ));
            Some(&self.batches[self.next])
        }
    }

    /// Takes in the outcomes of the batch that was launched. The first failure
    /// ends the run, once the whole batch is in.
    pub fn settle(&mut self, outcomes: Vec<SubtaskOutcome>) -> (r: (
        Result<(), ExecutorError>,
        Vec<AuditEvent>,
    ))
        requires
            old(self).wf(),
            old(self).due() is Some,
            outcomes@.len() == old(self).due()->0.len(),
        ensures
            final(self).wf(),
            final(self).batches() == old(self).batches(),
            final(self).returned() == batch_results(
                old(self).returned(),
                old(self).due()->0,
                outcomes@,
                outcomes@.len() as int,
            ),
            match batch_failure(old(self).due()->0, outcomes@, outcomes@.len() as int) {
                Some(m) => {
                    &&& r.0 is Err
                    &&& r.0->Err_0@ == ExecutorErrorView::Correctable(m)
                    &&& final(self).has_failed()
                    &&& final(self).due() is None
                },
                None => {
                    &&& r.0 is Ok
                    &&& !final(self).has_failed()
                    &&& final(self).position() == old(self).position() + 1
                },
            },
            events_view(r.1@).len() == outcomes@.len(),
            forall|i: int|
                0 <= i < outcomes@.len() ==> #[trigger] events_view(r.1@)[i] == outcome_event(
                    old(self).due()->0[i],
                    outcomes@[i],
                ),
            old(self).all_returned() && r.0 is Ok ==> final(self).all_returned(),
    {
        proof {
            let n = outcomes@.len() as int;
            let batch = self.due()->0;
            lemma_batch_failure(batch, outcomes@, n);
            lemma_results_stay(self.returned(), batch, outcomes@, n);
        }
        assert(batches_view(self.batches@)[self.next as int] == tasks_view(
            self.batches@[self.next as int]@,
        ));
        let (failure, events) = settle_batch(
            &self.batches[self.next],
            outcomes,
            &mut self.results,
        );
        match failure {
            Some(m) => {
                self.failed = true;
                (Err(ExecutorError::Correctable(m)), events)
            },
            None => {
                assert(self.next < self.batches.len());
                self.next = self.next + 1;
                (Ok(()), events)
            },
        }
    }

    /// The result of a plan whose last batch has been run.
    pub fn finish(self, plan: Plan) -> (r: PlanResult)
        requires
            self.wf(),
            !self.has_failed(),
            self.due() is None,
        ensures
            r.plan == plan,
            r.results@ == self.returned(),
            r.final_output@ == plan.final_output@,
            self.all_returned() ==> forall|b: int, k: int|
                0 <= b < self.batches().len() && 0 <= k < self.batches()[b].len() ==> lookup(
                    r.results@,
                    (#[trigger] self.batches()[b][k]).id,
                ) is Some,
    {
        let final_output = plan.final_output.clone();
        PlanResult { plan, results: self.results, final_output }
    }
}

/// The plan of last resort: the goal as it is, for the generalist.
pub fn fallback_generalist_plan(goal: &str, catalog: &RoleCatalog) -> (r: Result<
    Plan,
    ExecutorError,
>)
    ensures
        match r {
            Ok(p) => {
                &&& lookup(catalog@, "generalist"@) is Some
                &&& p.final_output@ == "/"@
                &&& tasks_view(p.subtasks@) == seq![generalist_task(goal@)]
            },
            Err(e) => lookup(catalog@, "generalist"@) is None && e@ == ExecutorErrorView::Terminal(
                CoreErrorView::Ipc(
                    "no 'generalist' role in catalog and planner failed to match"@,
                ),
            ),
        },
{
    if catalog.get("generalist").is_none() {
        return Err(
            ExecutorError::Terminal(
                CoreError::Ipc(
                    "no 'generalist' role in catalog and planner failed to match".to_owned(),
                ),
            ),
        );
    }
    let mut fields: Vec<(String, Json)> = Vec::new();
    fields.push(("task_description".to_owned(), Json::Text(goal.to_owned())));
    proof {
        crate::json::lemma_object_view(fields@);
        assert(crate::json::object_view(fields@) =~= seq![
            ("task_description"@, JsonView::Text(goal@)),
        ]);
    }
    let none: Vec<String> = Vec::new();
    assert(crate::text::views(none@) =~= Seq::<Seq<char>>::empty());
    let task = Subtask {
        id: "generalist".to_owned(),
        role: "generalist".to_owned(),
        params: Json::Object(fields),
        depends_on: none,
        ttl: None,
        current_model_tier: 0,
    };
    assert(task@ == generalist_task(goal@));
    let mut subtasks: Vec<Subtask> = Vec::new();
    subtasks.push(task);
    assert(tasks_view(subtasks@) =~= seq![generalist_task(goal@)]);
    Ok(Plan { subtasks, final_output: "/".to_owned() })
}

/// The one subtask of the plan of last resort.
pub open spec fn generalist_task(goal: Seq<char>) -> SubtaskView {
    SubtaskView {
        id: "generalist"@,
        role: "generalist"@,
        params: JsonView::Object(seq![("task_description"@, JsonView::Text(goal))]),
        depends_on: Seq::empty(),
        ttl: None,
        current_model_tier: 0,
    }
}

/// The plan to begin with: the planner's, or that of last resort where the
/// planner's answer was no usable plan.
pub fn first_plan(
    goal: &str,
    catalog: &RoleCatalog,
    planned: Result<Plan, PlannerError>,
) -> (r: Result<Plan, ExecutorError>)
    ensures
        match planned {
            Ok(p) => r == Ok::<Plan, ExecutorError>(p),
            Err(PlannerError::Malformed(_)) => match r {
                Ok(p) => {
                    &&& lookup(catalog@, "generalist"@) is Some
                    &&& p.final_output@ == "/"@
                    &&& tasks_view(p.subtasks@) == seq![generalist_task(goal@)]
                },
                Err(e) => lookup(catalog@, "generalist"@) is None && e@
                    == ExecutorErrorView::Terminal(
                    CoreErrorView::Ipc(
                        "no 'generalist' role in catalog and planner failed to match"@,
                    ),
                ),
            },
            Err(e) => r is Err && r->Err_0@ == planner_failure(e),
        },
{
    match planned {
        Ok(p) => Ok(p),
        Err(PlannerError::Malformed(_)) => fallback_generalist_plan(goal, catalog),
        Err(e) => Err(ExecutorError::from_planner(e)),
    }
}

/// Whether there is time left for another attempt.
pub fn check_deadline(elapsed: Span, total: Span) -> (r: Result<(), ExecutorError>)
    ensures
        elapsed.total() <= total.total() ==> r is Ok,
        elapsed.total() > total.total() ==> r is Err && r->Err_0@ == ExecutorErrorView::Terminal(
            CoreErrorView::Ipc("planner deadline exhausted"@),
        ),
{
    if !elapsed.at_most(&total) {
        Err(ExecutorError::Terminal(CoreError::Ipc("planner deadline exhausted".to_owned())))
    } else {
        Ok(())
    }
}

/// What to do after a plan was executed.
#[derive(Debug)]
pub enum Verdict {
    /// Hand back the result.
    Finish(PlanResult),
    /// Ask for another plan, giving this reason.
    Replan(String),
    /// Give up.
    GiveUp(ExecutorError),
}

/// How often the plan was replaced.
#[derive(Debug, Clone, Copy, PartialEq, Eq, Structural)]
pub struct RunProgress {
    pub replans_used: u32,
    pub max_replans: u32,
}

impl RunProgress {
    /// No more plans were replaced than may be.
    pub open spec fn wf(&self) -> bool {
        self.replans_used <= self.max_replans
    }

    /// A run that has just begun.
    pub fn start(max_replans: u32) -> (r: RunProgress)
        ensures
            r.wf(),
            r == (RunProgress { replans_used: 0, max_replans }),
    {
        RunProgress { replans_used: 0, max_replans }
    }

    /// Decides what to do after a plan of `subtask_count` subtasks was
    /// executed, and puts it on record. A failure that another plan may mend
    /// leads to another plan, as long as the run has any left.
    pub fn judge(
        &mut self,
        executed: Result<PlanResult, ExecutorError>,
        subtask_count: usize,
    ) -> (r: (Verdict, Vec<AuditEvent>))
        requires
            old(self).wf(),
        ensures
            final(self).wf(),
            final(self).max_replans == old(self).max_replans,
            match executed {
                Ok(v) => {
                    &&& r.0 == Verdict::Finish(v)
                    &&& final(self).replans_used == old(self).replans_used
                    &&& events_view(r.1@) == seq![
                        (
                            nobody(),
                            AuditEventKindView::PlanProduced {
                                subtask_count: subtask_count as u32,
                                replans_used: old(self).replans_used,
                            },
                        ),
                    ]
                },
                Err(e) => if e is Correctable && old(self).replans_used < old(self).max_replans {
                    &&& r.0 is Replan
                    &&& r.0->Replan_0@ == e->Correctable_0@
                    &&& final(self).replans_used == old(self).replans_used + 1
                    &&& events_view(r.1@) == seq![
                        (
                            nobody(),
                            AuditEventKindView::PlanReplanned { reason: e->Correctable_0@ },
                        ),
                    ]
                } else {
                    &&& r.0 == Verdict::GiveUp(e)
                    &&& final(self).replans_used == old(self).replans_used
                    &&& r.1@.len() == 0
                },
            },
    {
        let mut events: Vec<AuditEvent> = Vec::new();
        match executed {
            Ok(v) => {
                let event = AuditEventKind::PlanProduced {
                    subtask_count: subtask_count as u32,
                    replans_used: self.replans_used,
                };
                events.push(AuditEvent::new(AgentId { uuid: 0 }, event));
                assert(events_view(events@) =~= seq![(nobody(), event@)]);
                (Verdict::Finish(v), events)
            },
            Err(ExecutorError::Correctable(reason)) => {
                if self.replans_used < self.max_replans {
                    let event = AuditEventKind::PlanReplanned { reason: reason.clone() };
                    events.push(AuditEvent::new(AgentId { uuid: 0 }, event));
                    assert(events_view(events@) =~= seq![(nobody(), event@)]);
                    self.replans_used = self.replans_used + 1;
                    (Verdict::Replan(reason), events)
                } else {
                    (Verdict::GiveUp(ExecutorError::Correctable(reason)), events)
                }
            },
            Err(e) => (Verdict::GiveUp(e), events),
        }
    }
}

/// Results accumulate: once a batch is settled, what a subtask of it that is
/// done has returned is found under its id, and what was found under any other
/// id is found there still.
#[verifier::rlimit(40)]
pub proof fn law_results_accumulate(
    results: Seq<(Seq<char>, SubtaskResult)>,
    batch: Seq<SubtaskView>,
    outcomes: Seq<SubtaskOutcome>,
    i: int,
    id: Seq<char>,
)
    requires
        batch.len() == outcomes.len(),
        forall|j: int, k: int|
            0 <= j < k < batch.len() ==> #[trigger] batch[j].id != #[trigger] batch[k].id,
    ensures
        ({
            let after = batch_results(results, batch, outcomes, outcomes.len() as int);
            &&& (forall|k: int| 0 <= k < batch.len() ==> (#[trigger] batch[k]).id != id) ==> lookup(
                after,
                id,
            ) == lookup(results, id)
            &&& 0 <= i < batch.len() && outcomes[i] is Done ==> lookup(after, batch[i].id) == Some(
                outcomes[i]->Done_0,
            )
            &&& 0 <= i < batch.len() && !(outcomes[i] is Done) ==> lookup(after, batch[i].id)
                == lookup(results, batch[i].id)
        }),
{
    let n = outcomes.len() as int;
    if forall|k: int| 0 <= k < batch.len() ==> (#[trigger] batch[k]).id != id {
        lemma_others_keep_their_results(results, batch, outcomes, 0, n, id);
    }
    if 0 <= i < batch.len() {
        lemma_others_keep_their_results(results, batch, outcomes, 0, i, batch[i].id);
        lemma_others_keep_their_results(results, batch, outcomes, i + 1, n, batch[i].id);
        if outcomes[i] is Done {
            lemma_stored_lookup(
                batch_results(results, batch, outcomes, i),
                batch[i].id,
                outcomes[i]->Done_0,
                batch[i].id,
            );
        }
    }
}

proof fn lemma_others_keep_their_results(
    results: Seq<(Seq<char>, SubtaskResult)>,
    batch: Seq<SubtaskView>,
    outcomes: Seq<SubtaskOutcome>,
    m: int,
    n: int,
    id: Seq<char>,
)
    requires
        0 <= m <= n <= batch.len() == outcomes.len(),
        forall|k: int| m <= k < n ==> (#[trigger] batch[k]).id != id,
    ensures
        lookup(batch_results(results, batch, outcomes, n), id) == lookup(
            batch_results(results, batch, outcomes, m),
            id,
        ),
    decreases n,
{
    if m < n {
        lemma_others_keep_their_results(results, batch, outcomes, m, n - 1, id);
        if outcomes[n - 1] is Done {
            lemma_stored_lookup(
                batch_results(results, batch, outcomes, n - 1),
                batch[n - 1].id,
                outcomes[n - 1]->Done_0,
                id,
            );
        }
    }
}

#[verifier::rlimit(40)]
proof fn lemma_results_stay(
    results: Seq<(Seq<char>, SubtaskResult)>,
    batch: Seq<SubtaskView>,
    outcomes: Seq<SubtaskOutcome>,
    n: int,
)
    requires
        0 <= n <= batch.len() == outcomes.len(),
    ensures
        forall|id: Seq<char>|
            lookup(results, id) is Some ==> #[trigger] lookup(
                batch_results(results, batch, outcomes, n),
                id,
            ) is Some,
        forall|k: int|
            0 <= k < n && outcomes[k] is Done ==> lookup(
                batch_results(results, batch, outcomes, n),
                (#[trigger] batch[k]).id,
            ) is Some,
    decreases n,
{
    if n > 0 {
        lemma_results_stay(results, batch, outcomes, n - 1);
        if outcomes[n - 1] is Done {
            let before = batch_results(results, batch, outcomes, n - 1);
            let value = outcomes[n - 1]->Done_0;
            assert forall|id: Seq<char>| lookup(before, id) is Some implies #[trigger] lookup(
                stored(before, batch[n - 1].id, value),
                id,
            ) is Some by {
                lemma_stored_lookup(before, batch[n - 1].id, value, id);
            }
            lemma_stored_lookup(before, batch[n - 1].id, value, batch[n - 1].id);
        }
    }
}

/// What the first `n` batches of a run have returned.
pub open spec fn returned_after(
    batches: Seq<Seq<SubtaskView>>,
    outcomes: Seq<Seq<SubtaskOutcome>>,
    n: int,
) -> Seq<(Seq<char>, SubtaskResult)>
    decreases n,
{
    if n <= 0 {
        Seq::empty()
    } else {
        batch_results(
            returned_after(batches, outcomes, n - 1),
            batches[n - 1],
            outcomes[n - 1],
            outcomes[n - 1].len() as int,
        )
    }
}

/// A run that finishes has the result of every subtask of every batch, however
/// many batches came behind it.
#[verifier::rlimit(40)]
pub proof fn law_finished_run_has_every_result(
    batches: Seq<Seq<SubtaskView>>,
    outcomes: Seq<Seq<SubtaskOutcome>>,
    n: int,
    b: int,
    k: int,
)
    requires
        0 <= b < n <= batches.len() == outcomes.len(),
        0 <= k < batches[b].len(),
        forall|c: int| 0 <= c < n ==> (#[trigger] batches[c]).len() == outcomes[c].len(),
        forall|c: int, l: int|
            0 <= c < n && 0 <= l < batches[c].len() ==> (#[trigger] outcomes[c][l]) is Done,
        forall|c: int, l: int, d: int, m: int|
            0 <= c < n && 0 <= l < batches[c].len() && 0 <= d < n && 0 <= m < batches[d].len()
                && !(c == d && l == m) ==> #[trigger] batches[c][l].id
                != #[trigger] batches[d][m].id,
    ensures
        lookup(returned_after(batches, outcomes, n), batches[b][k].id) == Some(
            outcomes[b][k]->Done_0,
        ),
    decreases n,
{
    let last = batches[n - 1];
    assert forall|j: int, l: int| 0 <= j < l < last.len() implies #[trigger] last[j].id
        != #[trigger] last[l].id by {
        assert(batches[n - 1][j].id != batches[n - 1][l].id);
    }
    law_results_accumulate(
        returned_after(batches, outcomes, n - 1),
        last,
        outcomes[n - 1],
        k,
        batches[b][k].id,
    );
    if b < n - 1 {
        assert forall|l: int| 0 <= l < last.len() implies (#[trigger] last[l]).id
            != batches[b][k].id by {
            assert(batches[n - 1][l].id != batches[b][k].id);
        }
        law_finished_run_has_every_result(batches, outcomes, n - 1, b, k);
    } else {
        assert(outcomes[b][k] is Done);
    }
}

/// A batch has failed where a subtask of it is not done, and the reason is the
/// first such subtask's: it names the subtask and its role, and says what went
/// wrong.
pub proof fn law_first_failure_is_the_reason(
    batch: Seq<SubtaskView>,
    outcomes: Seq<SubtaskOutcome>,
    i: int,
)
    requires
        batch.len() == outcomes.len(),
    ensures
        ({
            let r = batch_failure(batch, outcomes, outcomes.len() as int);
            &&& r is None <==> forall|k: int|
                0 <= k < outcomes.len() ==> (#[trigger] outcomes[k]) is Done
            &&& 0 <= i < outcomes.len() && !(outcomes[i] is Done) && (forall|k: int|
                0 <= k < i ==> (#[trigger] outcomes[k]) is Done) ==> {
                &&& r is Some
                &&& contains_text(r->0, batch[i].id)
                &&& contains_text(r->0, batch[i].role)
                &&& outcomes[i] is NoOutput ==> ends_in(r->0, outcomes[i]->NoOutput_1@)
                &&& outcomes[i] is Failed ==> ends_in(
                    r->0,
                    executor_words(outcomes[i]->Failed_0@),
                )
            }
        }),
{
    let n = outcomes.len() as int;
    lemma_batch_failure(batch, outcomes, n);
    if 0 <= i < n && !(outcomes[i] is Done) && (forall|k: int|
        0 <= k < i ==> (#[trigger] outcomes[k]) is Done) {
        lemma_outcome_failure(batch[i], outcomes[i]);
    }
}

proof fn lemma_batch_failure(batch: Seq<SubtaskView>, outcomes: Seq<SubtaskOutcome>, n: int)
    requires
        0 <= n <= batch.len() == outcomes.len(),
    ensures
        match batch_failure(batch, outcomes, n) {
            None => forall|k: int| 0 <= k < n ==> (#[trigger] outcomes[k]) is Done,
            Some(m) => exists|i: int|
                0 <= i < n && !((#[trigger] outcomes[i]) is Done) && Some(m) == outcome_failure(
                    batch[i],
                    outcomes[i],
                ) && forall|k: int| 0 <= k < i ==> (#[trigger] outcomes[k]) is Done,
        },
    decreases n,
{
    if n > 0 {
        lemma_batch_failure(batch, outcomes, n - 1);
    }
}

proof fn lemma_outcome_failure(t: SubtaskView, o: SubtaskOutcome)
    requires
        !(o is Done),
    ensures
        outcome_failure(t, o) is Some,
        contains_text(outcome_failure(t, o)->0, t.id),
        contains_text(outcome_failure(t, o)->0, t.role),
        o is NoOutput ==> ends_in(outcome_failure(t, o)->0, o->NoOutput_1@),
        o is Failed ==> ends_in(outcome_failure(t, o)->0, executor_words(o->Failed_0@)),
{
    let who = "subtask '"@ + t.id + "' (role '"@ + t.role;
    law_four_parts("subtask '"@, t.id, "' (role '"@, t.role);
    let (told, reason) = match o {
        SubtaskOutcome::NoOutput(r, m) => ("') did not produce its declared output: "@, m@),
        SubtaskOutcome::Failed(e) => ("') failed: "@, executor_words(e@)),
        SubtaskOutcome::Done(r) => (Seq::<char>::empty(), Seq::<char>::empty()),
    };
    law_text_holds_its_parts(who, told, t.id);
    law_text_holds_its_parts(who, told, t.role);
    law_text_holds_its_parts(who + told, reason, t.id);
    law_text_holds_its_parts(who + told, reason, t.role);
    law_parts_occur(who + told, reason, Seq::empty());
}

/// The words of an error say of what kind it is and end with what was told.
pub proof fn law_words_of_an_error(m: Seq<char>, e: CoreErrorView)
    ensures
        ends_in(executor_words(ExecutorErrorView::Correctable(m)), m),
        begins_with(executor_words(ExecutorErrorView::Correctable(m)), "planner-correctable: "@),
        ends_in(executor_words(ExecutorErrorView::Terminal(e)), error_words(e)),
        begins_with(executor_words(ExecutorErrorView::Terminal(e)), "terminal: "@),
{
    law_parts_occur("planner-correctable: "@, m, Seq::empty());
    law_parts_occur("terminal: "@, error_words(e), Seq::empty());
}

/// The record of an outcome names the subtask and the agent that ran it, and
/// counts as success only what is done.
pub proof fn law_record_of_an_outcome(t: SubtaskView, o: SubtaskOutcome)
    ensures
        outcome_event(t, o).1 is SubtaskCompleted,
        outcome_event(t, o).1->SubtaskCompleted_subtask_id == t.id,
        outcome_event(t, o).1->SubtaskCompleted_success <==> o is Done,
        o matches SubtaskOutcome::Done(r) ==> outcome_event(t, o).0 == r.agent_id,
        o matches SubtaskOutcome::NoOutput(r, m) ==> outcome_event(t, o).0 == r.agent_id,
        o is Failed ==> outcome_event(t, o).0 == nobody(),
{
}

/// Those that failed are exactly the subtasks that are not done, each once and
/// in their order, with the signals that its record shows.
#[verifier::rlimit(40)]
pub proof fn law_failed_are_those_not_done(
    batch: Seq<SubtaskView>,
    outcomes: Seq<SubtaskOutcome>,
    seen: Seq<AuditEvent>,
    m: int,
    n: int,
)
    requires
        0 <= m <= n <= batch.len() == outcomes.len(),
    ensures
        failed_among(batch, outcomes, seen, n) == failed_among(batch, outcomes, seen, m)
            + failed_among(batch.skip(m), outcomes.skip(m), seen, n - m),
        n == m + 1 && outcomes[m] is Done ==> failed_among(batch, outcomes, seen, n)
            == failed_among(batch, outcomes, seen, m),
        n == m + 1 && !(outcomes[m] is Done) ==> {
            let all = failed_among(batch, outcomes, seen, n);
            &&& all.len() == failed_among(batch, outcomes, seen, m).len() + 1
            &&& all.last().subtask_id == batch[m].id
            &&& all.last().role == batch[m].role
            &&& forall|s: EscalationSignal|
                all.last().observed_signals.contains(s) <==> s == EscalationSignal::ReplanRetry
                    || #[trigger] signals_among(
                    seen,
                    seen.len() as int,
                    batch[m].id,
                    failed_agents(outcomes[m]),
                ).contains(s)
        },
    decreases n,
{
    if m < n {
        law_failed_are_those_not_done(batch, outcomes, seen, m, n - 1);
        assert(batch.skip(m)[n - 1 - m] == batch[n - 1]);
        assert(outcomes.skip(m)[n - 1 - m] == outcomes[n - 1]);
    }
    assert(failed_among(batch, outcomes, seen, n) =~= failed_among(batch, outcomes, seen, m)
        + failed_among(batch.skip(m), outcomes.skip(m), seen, n - m));
    if n == m + 1 && !(outcomes[m] is Done) {
        let signals = signals_among(
            seen,
            seen.len() as int,
            batch[m].id,
            failed_agents(outcomes[m]),
        );
        let retry = EscalationSignal::ReplanRetry;
        assert forall|s: EscalationSignal|
            signals.push(retry).contains(s) <==> s == retry || #[trigger] signals.contains(s) by {
            if signals.contains(s) {
                let j = choose|j: int| 0 <= j < signals.len() && signals[j] == s;
                assert(signals.push(retry)[j] == s);
            }
            assert(signals.push(retry)[signals.len() as int] == retry);
        }
    }
}

/// A grant to write the file that a parameter names declares that parameter;
/// a grant of anything else declares none.
#[verifier::rlimit(40)]
pub proof fn law_outputs_are_declared_by_grants(name: Seq<char>, grant: Seq<char>)
    ensures
        output_param("file_write:{"@ + name + "}"@) == Some(name),
        output_param("file_write: {"@ + name + "}"@) == Some(name),
        !begins_with(grant, "file_write:"@) ==> output_param(grant) is None,
        output_param("file_write:{"@ + name + "}/*"@) is None,
        output_param("file_write:{"@ + name + "}/**"@) is None,
{
    reveal_strlit("file_write:{");
    reveal_strlit("file_write: {");
    reveal_strlit("file_write:");
    reveal_strlit("{");
    reveal_strlit("}");
    reveal_strlit("}/*");
    reveal_strlit("}/**");
    reveal_strlit("/*");
    reveal_strlit("/**");
    let head = "file_write:"@;
    let braced = "{"@ + name + "}"@;
    law_white_space('{');
    law_white_space('}');
    law_white_space('*');
    assert("file_write:{"@ + name + "}"@ =~= head + braced);
    assert("file_write: {"@ + name + "}"@ =~= head + (seq![' '] + braced));
    lemma_braced_output(name);
    law_leading_space_is_left_out(braced);
    lemma_granted_output(braced);
    lemma_granted_output(seq![' '] + braced);
    law_nothing_to_trim(braced);
    assert(output_param("file_write:{"@ + name + "}/*"@) is None) by {
        let below = braced + "/*"@;
        assert("file_write:{"@ + name + "}/*"@ =~= head + below);
        law_parts_occur(braced, "/*"@, Seq::empty());
        law_nothing_to_trim(below);
        lemma_granted_output(below);
    }
    assert(output_param("file_write:{"@ + name + "}/**"@) is None) by {
        let below = braced + "/**"@;
        assert("file_write:{"@ + name + "}/**"@ =~= head + below);
        law_parts_occur(braced, "/**"@, Seq::empty());
        law_nothing_to_trim(below);
        lemma_granted_output(below);
    }
}

proof fn lemma_granted_output(rest: Seq<char>)
    ensures
        output_param("file_write:"@ + rest) == {
            let t = trimmed(rest);
            if ends_in(t, "/*"@) || ends_in(t, "/**"@) {
                None
            } else if t.len() >= 2 && t[0] == '{' && t.last() == '}' {
                Some(t.subrange(1, t.len() - 1))
            } else {
                None
            }
        },
{
    let head = "file_write:"@;
    law_parts_occur(head, rest, Seq::empty());
    assert((head + rest).skip(head.len() as int) =~= rest);
}

proof fn lemma_braced_output(name: Seq<char>)
    ensures
        ({
            let t = "{"@ + name + "}"@;
            &&& !ends_in(t, "/*"@)
            &&& !ends_in(t, "/**"@)
            &&& t.len() >= 2
            &&& t[0] == '{'
            &&& t.last() == '}'
            &&& t.subrange(1, t.len() - 1) == name
        }),
{
    reveal_strlit("{");
    reveal_strlit("}");
    reveal_strlit("/*");
    reveal_strlit("/**");
    let t = "{"@ + name + "}"@;
    assert(t.subrange(1, t.len() - 1) =~= name);
    if ends_in(t, "/*"@) {
        assert(t.subrange(t.len() - 2, t.len() as int)[1] == '*');
    }
    if ends_in(t, "/**"@) {
        assert(t.subrange(t.len() - 3, t.len() as int)[2] == '*');
    }
}

/// Every declared output whose parameter is a text is looked for at that
/// path, in the order of the grants.
pub proof fn law_declared_outputs_are_looked_for(
    grants: Seq<String>,
    params: JsonView,
    m: int,
    n: int,
)
    requires
        0 <= m <= n <= grants.len(),
    ensures
        outputs_among(grants, params, n) == outputs_among(grants, params, m) + outputs_among(
            grants.skip(m),
            params,
            n - m,
        ),
        n == m + 1 ==> outputs_among(grants, params, n) == outputs_among(grants, params, m) + (
        match output_param(grants[m]@) {
            Some(name) => match field(params, name) {
                Some(JsonView::Text(path)) => seq![(path, name)],
                _ => Seq::empty(),
            },
            None => Seq::empty(),
        }),
    decreases n,
{
    if m < n {
        law_declared_outputs_are_looked_for(grants, params, m, n - 1);
        assert(grants.skip(m)[n - 1 - m] == grants[n - 1]);
    }
    assert(outputs_among(grants, params, n) =~= outputs_among(grants, params, m) + outputs_among(
        grants.skip(m),
        params,
        n - m,
    ));
}

/// Nothing is amiss where every output is there; else the first that is not is
/// named, with its path and its parameter.
pub proof fn law_first_missing_output_is_named(
    outputs: Seq<(Seq<char>, Seq<char>)>,
    there: Seq<bool>,
    i: int,
)
    requires
        outputs.len() == there.len(),
    ensures
        first_missing(outputs, there, 0) is None <==> forall|k: int|
            0 <= k < there.len() ==> #[trigger] there[k],
        0 <= i < there.len() && !there[i] && (forall|k: int| 0 <= k < i ==> #[trigger] there[k])
            ==> {
            let r = first_missing(outputs, there, 0);
            &&& r is Some
            &&& contains_text(r->0, outputs[i].0)
            &&& contains_text(r->0, outputs[i].1)
        },
{
    lemma_first_missing(outputs, there, 0);
    if 0 <= i < there.len() {
        let (path, name) = outputs[i];
        law_four_parts("'"@, path, "' (from {"@, name);
        let told = "'"@ + path + "' (from {"@ + name;
        law_text_holds_its_parts(told, "}) was not written"@, path);
        law_text_holds_its_parts(told, "}) was not written"@, name);
    }
}

proof fn lemma_first_missing(outputs: Seq<(Seq<char>, Seq<char>)>, there: Seq<bool>, from: int)
    requires
        0 <= from <= outputs.len() == there.len(),
    ensures
        match first_missing(outputs, there, from) {
            None => forall|k: int| from <= k < there.len() ==> #[trigger] there[k],
            Some(m) => exists|i: int|
                from <= i < there.len() && !(#[trigger] there[i]) && m == missing_output(
                    outputs[i].0,
                    outputs[i].1,
                ) && forall|k: int| from <= k < i ==> #[trigger] there[k],
        },
    decreases there.len() - from,
{
    if from < there.len() && there[from] {
        lemma_first_missing(outputs, there, from + 1);
    }
}

/// A subtask is launched unless its role is unknown or its hops are used up,
/// and an agent runs on the model of its rung, with the message of its role.
pub proof fn law_what_is_launched(
    t: SubtaskView,
    role: Role,
    root: Seq<char>,
    scaffolds: bool,
)
    ensures
        launch_of(t, None, root, scaffolds) is Refused,
        launch_events(t, None).len() == 0,
        launch_events(t, Some(role)).len() == 1,
        ({
            let spent = t.ttl is Some && t.ttl->0.max_hops == Some(0u32);
            let l = launch_of(t, Some(role), root, scaffolds);
            let e = launch_events(t, Some(role))[0].1;
            &&& l is Refused <==> spent
            &&& l is Refused ==> l->Refused_0 is Correctable
            &&& spent ==> e is SubtaskTtlExpired && e->SubtaskTtlExpired_subtask_id == t.id
            &&& !spent ==> e is SubtaskStarted && e->SubtaskStarted_subtask_id == t.id
                && e->SubtaskStarted_role == t.role
            &&& l is Scaffold <==> !spent && scaffolds && role.scaffold is Some
            &&& l matches LaunchView::Scaffold { kind, params } ==> kind
                == role.scaffold->0.kind@ && params == value_with_run(t.params, root)
            &&& l matches LaunchView::Agent { manifest, message, overrides } ==> {
                &&& message == substituted(role.message_template@, value_with_run(t.params, root))
                &&& t.current_model_tier == 0 ==> manifest == role.manifest(
                    role.model@,
                    value_with_run(t.params, root),
                )
                &&& 0 < t.current_model_tier < role.model_ladder@.len() ==> manifest
                    == role.manifest(
                    role.model_ladder@[t.current_model_tier as int]@,
                    value_with_run(t.params, root),
                )
                &&& role.budget.max_output_tokens <= u32::MAX ==> overrides.max_output_tokens
                    == role.budget.max_output_tokens
                &&& role.retry.max_attempts + 10 <= u32::MAX ==> overrides.max_iterations
                    == role.retry.max_attempts + 10
            }
        }),
{
}

/// Only running out of time can be made good by another plan, and only that is
/// recorded.
pub proof fn law_running_out_of_time_is_told_apart(id: Seq<char>, e: CoreErrorView)
    ensures
        ({
            let late = e == CoreErrorView::Ipc("ttl wall-clock exceeded"@);
            &&& late <==> agent_failure(id, e) is Correctable
            &&& late ==> contains_text(agent_failure(id, e)->Correctable_0, id)
            &&& !late ==> agent_failure(id, e) == ExecutorErrorView::Terminal(e)
            &&& late <==> agent_events(id, Some(e)).len() > 0
            &&& late ==> agent_events(id, Some(e))[0].1 is SubtaskTtlExpired && agent_events(
                id,
                Some(e),
            )[0].1->SubtaskTtlExpired_subtask_id == id
        }),
        agent_events(id, None).len() == 0,
{
    law_parts_occur("subtask '"@, id, "' exceeded wall-clock TTL"@);
}

/// The plan of one generalist gives the goal to the role of that name.
pub proof fn law_generalist_gets_the_goal(goal: Seq<char>)
    ensures
        generalist_task(goal).role == "generalist"@,
        generalist_task(goal).depends_on.len() == 0,
        field(generalist_task(goal).params, "task_description"@) == Some(JsonView::Text(goal)),
        generalist_task(goal).current_model_tier == 0,
        generalist_task(goal).ttl is None,
{
}

/// A plan that the model got wrong can be made good by another; a call that
/// failed cannot. What went wrong is kept.
pub proof fn law_failed_planning_is_told_apart(e: PlannerError)
    ensures
        e matches PlannerError::Malformed(m) ==> planner_failure(e)
            == ExecutorErrorView::Correctable(m@),
        e matches PlannerError::LlmCall(m) ==> planner_failure(e) is Terminal
            && planner_failure(e)->Terminal_0 is Ipc && ends_in(
            planner_failure(e)->Terminal_0->Ipc_0,
            m@,
        ),
{
    if let PlannerError::LlmCall(m) = e {
        law_parts_occur("planner LLM: "@, m@, Seq::empty());
    }
}

/// A subtask can be launched exactly where its role is known and its
/// parameters, with the run filled in, are an object that has no problem; what
/// stands in the way of any other is said.
#[verifier::rlimit(40)]
pub proof fn law_what_can_be_launched(
    t: SubtaskView,
    roles: Seq<(Seq<char>, Role)>,
    root: Seq<char>,
    i: int,
)
    ensures
        launchable(t, roles, root) <==> {
            &&& lookup(roles, t.role) is Some
            &&& value_with_run(t.params, root) is Object
            &&& param_problems(
                lookup(roles, t.role)->0.parameters@,
                value_with_run(t.params, root)->Object_0,
            ).len() == 0
        },
        lookup(roles, t.role) is None ==> ends_in(launch_fault(t, roles, root), t.role),
        lookup(roles, t.role) is Some ==> contains_text(
            launch_fault(t, roles, root),
            lookup(roles, t.role)->0.name@,
        ),
        lookup(roles, t.role) is Some && value_with_run(t.params, root) is Object && 0 <= i
            < param_problems(
            lookup(roles, t.role)->0.parameters@,
            value_with_run(t.params, root)->Object_0,
        ).len() ==> contains_text(
            launch_fault(t, roles, root),
            param_problems(
                lookup(roles, t.role)->0.parameters@,
                value_with_run(t.params, root)->Object_0,
            )[i],
        ),
{
    law_parts_occur("unknown role: "@, t.role, Seq::empty());
    if lookup(roles, t.role) is Some {
        let role = lookup(roles, t.role)->0;
        let a = "role '"@;
        let b = "' param validation failed: "@;
        law_parts_occur(a, role.name@, "' expected params object, got non-object"@);
        if let JsonView::Object(fields) = value_with_run(t.params, root) {
            let problems = param_problems(role.parameters@, fields);
            let all = joined(problems, "; "@);
            law_four_parts(a, role.name@, b, all);
            if 0 <= i < problems.len() {
                law_joined_holds_each(problems, "; "@, i);
                law_containment_is_transitive(a + role.name@ + b + all, all, problems[i]);
            }
        }
    }
}

} // verus!
