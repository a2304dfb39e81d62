//! Escalation: when a failed subtask moves to a stronger model.
//!
//! Three signals can be observed while a subtask runs. Where the subtask
//! failed and a signal that its role is configured for was observed, the
//! subtask moves one rung up its role's model ladder for the next attempt.

use crate::audit::{AuditEvent, AuditEventKind, AuditEventKindView};
use crate::plan::role::{Role, RoleCatalog};
use crate::plan::{tasks_view, Plan, SubtaskView};
use crate::table::{lemma_stored_lookup, lookup, stored, Table};
use crate::text::same;
use crate::types::AgentId;
use vstd::prelude::*;

verus! {

/// What was observed while a subtask ran.
#[derive(Debug, Clone, Copy, PartialEq, Eq, Structural, Hash)]
pub enum EscalationSignal {
    /// The subtask failed.
    ReplanRetry,
    /// An agent repeated the same tool call too often.
    ToolRepeatGuard,
    /// An agent stopped for want of output tokens.
    MaxTokens,
}

impl EscalationSignal {
    /// The name of the signal in logs. The names are stable.
    pub open spec fn reason_view(self) -> Seq<char> {
        match self {
            EscalationSignal::ReplanRetry => "replan_retry"@,
            EscalationSignal::ToolRepeatGuard => "tool_repeat_guard"@,
            EscalationSignal::MaxTokens => "max_tokens"@,
        }
    }

    /// The name of the signal in logs. The names are stable.
    pub fn reason(&self) -> (r: &'static str)
        ensures
            r@ == self.reason_view(),
    {
        match self {
            EscalationSignal::ReplanRetry => "replan_retry",
            EscalationSignal::ToolRepeatGuard => "tool_repeat_guard",
            EscalationSignal::MaxTokens => "max_tokens",
        }
    }
}

/// The signals that a role reacts to where it names none itself: all of them.
pub fn default_escalation_signals() -> (r: Vec<EscalationSignal>)
    ensures
        r@ == seq![
            EscalationSignal::ReplanRetry,
            EscalationSignal::ToolRepeatGuard,
            EscalationSignal::MaxTokens,
        ],
{
    let mut v: Vec<EscalationSignal> = Vec::new();
    v.push(EscalationSignal::ReplanRetry);
    v.push(EscalationSignal::ToolRepeatGuard);
    v.push(EscalationSignal::MaxTokens);
    v
}

/// A subtask that failed, with what was observed while it ran.
#[derive(Debug, PartialEq, Eq)]
pub struct FailedSubtask {
    pub subtask_id: String,
    pub role: String,
    pub observed_signals: Vec<EscalationSignal>,
}

/// The view of a subtask that failed.
pub struct FailedSubtaskView {
    pub subtask_id: Seq<char>,
    pub role: Seq<char>,
    pub observed_signals: Seq<EscalationSignal>,
}

impl View for FailedSubtask {
    type V = FailedSubtaskView;

    open spec fn view(&self) -> FailedSubtaskView {
        FailedSubtaskView {
            subtask_id: self.subtask_id@,
            role: self.role@,
            observed_signals: self.observed_signals@,
        }
    }
}

/// Views of a list of failed subtasks.
pub open spec fn failed_view(v: Seq<FailedSubtask>) -> Seq<FailedSubtaskView> {
    v.map_values(|f: FailedSubtask| f@)
}

/// The signal that moves a subtask up the ladder, if any does: of those both
/// observed and configured the one that explains the failure best.
pub open spec fn escalation(
    observed: Seq<EscalationSignal>,
    configured: Seq<EscalationSignal>,
    ladder_len: nat,
    tier: nat,
) -> Option<EscalationSignal> {
    let fires = |s: EscalationSignal| configured.contains(s) && observed.contains(s);
    if tier + 1 >= ladder_len {
        None
    } else if fires(EscalationSignal::ReplanRetry) {
        Some(EscalationSignal::ReplanRetry)
    } else if fires(EscalationSignal::MaxTokens) {
        Some(EscalationSignal::MaxTokens)
    } else if fires(EscalationSignal::ToolRepeatGuard) {
        Some(EscalationSignal::ToolRepeatGuard)
    } else {
        None
    }
}

/// Whether a list has a signal.
pub fn has_signal(v: &[EscalationSignal], s: EscalationSignal) -> (r: bool)
    ensures
        r == v@.contains(s),
{
    let mut i: usize = 0;
    while i < v.len()
        invariant
            0 <= i <= v@.len(),
            forall|k: int| 0 <= k < i ==> v@[k] != s,
        decreases v@.len() - i,
    {
        if v[i] == s {
            return true;
        }
        i += 1;
    }
    false
}

/// Decides which signal, if any, moves a failed subtask up its role's ladder.
pub fn decide_escalation(
    failed: &FailedSubtask,
    configured: &[EscalationSignal],
    ladder_len: usize,
    current_tier: u8,
) -> (r: Option<EscalationSignal>)
    ensures
        r == escalation(
            failed.observed_signals@,
            configured@,
            ladder_len as nat,
            current_tier as nat,
        ),
{
    if ladder_len <= 1 {
        return None;
    }
    if (current_tier as usize) >= ladder_len - 1 {
        return None;
    }
    let observed = failed.observed_signals.as_slice();
    if has_signal(configured, EscalationSignal::ReplanRetry) && has_signal(
        observed,
        EscalationSignal::ReplanRetry,
    ) {
        return Some(EscalationSignal::ReplanRetry);
    }
    if has_signal(configured, EscalationSignal::MaxTokens) && has_signal(
        observed,
        EscalationSignal::MaxTokens,
    ) {
        return Some(EscalationSignal::MaxTokens);
    }
    if has_signal(configured, EscalationSignal::ToolRepeatGuard) && has_signal(
        observed,
        EscalationSignal::ToolRepeatGuard,
    ) {
        return Some(EscalationSignal::ToolRepeatGuard);
    }
    None
}

/// A subtask that escalates has a rung above it: the tier after escalation is
/// still a position on the ladder.
pub proof fn law_escalation_stays_on_ladder(
    observed: Seq<EscalationSignal>,
    configured: Seq<EscalationSignal>,
    ladder_len: nat,
    tier: nat,
)
    requires
        escalation(observed, configured, ladder_len, tier) is Some,
    ensures
        tier + 1 < ladder_len,
{
}

/// Only a signal that was both observed and configured escalates.
pub proof fn law_escalation_needs_its_signal(
    observed: Seq<EscalationSignal>,
    configured: Seq<EscalationSignal>,
    ladder_len: nat,
    tier: nat,
    s: EscalationSignal,
)
    requires
        escalation(observed, configured, ladder_len, tier) == Some(s),
    ensures
        observed.contains(s) && configured.contains(s),
{
}

/// The signal that an event is for a subtask run by these agents.
pub open spec fn signal_of(
    agent: AgentId,
    event: AuditEventKindView,
    subtask_id: Seq<char>,
    agents: Seq<AgentId>,
) -> Option<EscalationSignal> {
    match event {
        AuditEventKindView::SubtaskCompleted { subtask_id: sid, success } => if !success && sid
            == subtask_id {
            Some(EscalationSignal::ReplanRetry)
        } else {
            None
        },
        AuditEventKindView::ToolRepeatGuardFired { agent_id, tool, attempt_count } => if agents.contains(
            agent_id,
        ) {
            Some(EscalationSignal::ToolRepeatGuard)
        } else {
            None
        },
        AuditEventKindView::AgentExecutionCompleted { stop_reason, total_iterations } => if stop_reason
            == "MaxTokens"@ && agents.contains(agent) {
            Some(EscalationSignal::MaxTokens)
        } else {
            None
        },
        _ => None,
    }
}

/// The signals among the first `n` events, each once, by their first occurrence.
pub open spec fn signals_among(
    events: Seq<AuditEvent>,
    n: int,
    subtask_id: Seq<char>,
    agents: Seq<AgentId>,
) -> Seq<EscalationSignal>
    decreases n,
{
    if n <= 0 {
        Seq::empty()
    } else {
        let before = signals_among(events, n - 1, subtask_id, agents);
        match signal_of(events[n - 1].agent_id, events[n - 1].event@, subtask_id, agents) {
            Some(s) => if before.contains(s) {
                before
            } else {
                before.push(s)
            },
            None => before,
        }
    }
}

/// Whether a list has an agent.
pub fn has_agent(v: &[AgentId], id: AgentId) -> (r: bool)
    ensures
        r == v@.contains(id),
{
    let mut i: usize = 0;
    while i < v.len()
        invariant
            0 <= i <= v@.len(),
            forall|k: int| 0 <= k < i ==> v@[k] != id,
        decreases v@.len() - i,
    {
        if v[i] == id {
            return true;
        }
        i += 1;
    }
    false
}

/// The signals that the events show for a subtask run by these agents.
pub fn signals_for_subtask(
    subtask_id: &str,
    subtask_agent_ids: &[AgentId],
    events: &[AuditEvent],
) -> (r: Vec<EscalationSignal>)
    ensures
        r@ == signals_among(events@, events@.len() as int, subtask_id@, subtask_agent_ids@),
{
    let mut out: Vec<EscalationSignal> = Vec::new();
    let mut i: usize = 0;
    while i < events.len()
        invariant
            0 <= i <= events@.len(),
            out@ == signals_among(events@, i as int, subtask_id@, subtask_agent_ids@),
        decreases events@.len() - i,
    {
        let ev = &events[i];
        let signal: Option<EscalationSignal> = match &ev.event {
            AuditEventKind::SubtaskCompleted { subtask_id: sid, success } => if !*success && same(
                sid.as_str(),
                subtask_id,
            ) {
                Some(EscalationSignal::ReplanRetry)
            } else {
                None
            },
            AuditEventKind::ToolRepeatGuardFired { agent_id, .. } => if has_agent(
                subtask_agent_ids,
                *agent_id,
            ) {
                Some(EscalationSignal::ToolRepeatGuard)
            } else {
                None
            },
            AuditEventKind::AgentExecutionCompleted { stop_reason, .. } => if same(
                stop_reason.as_str(),
                "MaxTokens",
            ) && has_agent(subtask_agent_ids, ev.agent_id) {
                Some(EscalationSignal::MaxTokens)
            } else {
                None
            },
            _ => None,
        };
        assert(signal == signal_of(
            events@[i as int].agent_id,
            events@[i as int].event@,
            subtask_id@,
            subtask_agent_ids@,
        ));
        if let Some(s) = signal {
            if !has_signal(out.as_slice(), s) {
                out.push(s);
            }
        }
        i += 1;
    }
    out
}

/// The tier of the last subtask with this id.
pub open spec fn tier_of(tasks: Seq<SubtaskView>, id: Seq<char>) -> Option<u8>
    decreases tasks.len(),
{
    if tasks.len() == 0 {
        None
    } else if tasks.last().id == id {
        Some(tasks.last().current_model_tier)
    } else {
        tier_of(tasks.drop_last(), id)
    }
}

/// A subtask of the new plan with the tier that it carries on: what it was
/// bumped to, else what it had in the old plan, else its own.
pub open spec fn carried(
    t: SubtaskView,
    old_tasks: Seq<SubtaskView>,
    bumps: Seq<(Seq<char>, u8)>,
) -> SubtaskView {
    SubtaskView {
        current_model_tier: match (lookup(bumps, t.id), tier_of(old_tasks, t.id)) {
            (Some(tier), _) => tier,
            (None, Some(tier)) => tier,
            (None, None) => t.current_model_tier,
        },
        ..t
    }
}

/// The tier of the last subtask with this id.
fn find_tier(plan: &Plan, id: &str) -> (r: Option<u8>)
    ensures
        r == tier_of(tasks_view(plan.subtasks@), id@),
{
    let ghost all = tasks_view(plan.subtasks@);
    let mut i: usize = plan.subtasks.len();
    assert(all.take(i as int) =~= all);
    while i > 0
        invariant
            all == tasks_view(plan.subtasks@),
            0 <= i <= plan.subtasks@.len(),
            tier_of(all, id@) == tier_of(all.take(i as int), id@),
        decreases i,
    {
        i -= 1;
        assert(all.take(i + 1).drop_last() =~= all.take(i as int));
        assert(all.take(i + 1).last() == plan.subtasks@[i as int]@);
        if same(plan.subtasks[i].id.as_str(), id) {
            return Some(plan.subtasks[i].current_model_tier);
        }
    }
    None
}

/// Carries the tiers of a plan over to the plan that replaces it, by the ids
/// of the subtasks. A bump takes precedence over the tier in the old plan.
pub fn carry_tiers_forward(new_plan: &mut Plan, old_plan: &Plan, failed_tier_bumps: &Table<u8>)
    ensures
        final(new_plan).final_output == old(new_plan).final_output,
        final(new_plan).subtasks@.len() == old(new_plan).subtasks@.len(),
        forall|i: int|
            0 <= i < old(new_plan).subtasks@.len() ==> (#[trigger] final(new_plan).subtasks@[i])@
                == carried(
                old(new_plan).subtasks@[i]@,
                tasks_view(old_plan.subtasks@),
                failed_tier_bumps@,
            ),
{
    let ghost start = new_plan.subtasks@;
    let mut i: usize = 0;
    while i < new_plan.subtasks.len()
        invariant
            0 <= i <= start.len(),
            start == old(new_plan).subtasks@,
            new_plan.final_output == old(new_plan).final_output,
            new_plan.subtasks@.len() == start.len(),
            forall|k: int|
                0 <= k < i ==> (#[trigger] new_plan.subtasks@[k])@ == carried(
                    start[k]@,
                    tasks_view(old_plan.subtasks@),
                    failed_tier_bumps@,
                ),
            forall|k: int| i <= k < start.len() ==> #[trigger] new_plan.subtasks@[k] == start[k],
        decreases start.len() - i,
    {
        let tier: u8 = match failed_tier_bumps.get(new_plan.subtasks[i].id.as_str()) {
            Some(bumped) => *bumped,
            None => match find_tier(old_plan, new_plan.subtasks[i].id.as_str()) {
                Some(prev) => prev,
                None => new_plan.subtasks[i].current_model_tier,
            },
        };
        new_plan.subtasks[i].current_model_tier = tier;
        i += 1;
    }
}

/// How many rungs the ladder of a role has: one, where it declares none.
pub open spec fn rungs(role: Role) -> nat {
    if role.model_ladder@.len() == 0 {
        1
    } else {
        role.model_ladder@.len()
    }
}

/// The tier that a failed subtask is raised to, if it is: the next one, where a
/// signal that its role is configured for was observed and there is a rung
/// above. Tiers end at 255.
pub open spec fn raised_tier(
    failed: FailedSubtaskView,
    tasks: Seq<SubtaskView>,
    roles: Seq<(Seq<char>, Role)>,
) -> Option<u8> {
    match (lookup(roles, failed.role), tier_of(tasks, failed.subtask_id)) {
        (Some(role), Some(tier)) => if tier < u8::MAX && escalation(
            failed.observed_signals,
            role.escalate_on@,
            rungs(role),
            tier as nat,
        ) is Some {
            Some((tier + 1) as u8)
        } else {
            None
        },
        _ => None,
    }
}

/// The tiers that failed subtasks are raised to, by the ids of the subtasks.
pub open spec fn tier_bumps(
    failed: Seq<FailedSubtaskView>,
    tasks: Seq<SubtaskView>,
    roles: Seq<(Seq<char>, Role)>,
) -> Seq<(Seq<char>, u8)>
    decreases failed.len(),
{
    if failed.len() == 0 {
        Seq::empty()
    } else {
        let before = tier_bumps(failed.drop_last(), tasks, roles);
        match raised_tier(failed.last(), tasks, roles) {
            Some(tier) => stored(before, failed.last().subtask_id, tier),
            None => before,
        }
    }
}

/// The tier that a failed subtask is raised to, if it is.
fn raise_tier(failed: &FailedSubtask, plan: &Plan, catalog: &RoleCatalog) -> (r: Option<u8>)
    ensures
        r == raised_tier(failed@, tasks_view(plan.subtasks@), catalog@),
{
    let role = match catalog.get(failed.role.as_str()) {
        Some(role) => role,
        None => {
            return None;
        },
    };
    let tier: u8 = match find_tier(plan, failed.subtask_id.as_str()) {
        Some(tier) => tier,
        None => {
            return None;
        },
    };
    let ladder_len: usize = if role.model_ladder.len() == 0 {
        1
    } else {
        role.model_ladder.len()
    };
    if tier == u8::MAX {
        return None;
    }
    match decide_escalation(failed, role.escalate_on.as_slice(), ladder_len, tier) {
        Some(_) => Some(tier + 1),
        None => None,
    }
}

/// The tiers that the failed subtasks of a plan are raised to.
pub fn bump_tiers(failed: &Vec<FailedSubtask>, plan: &Plan, catalog: &RoleCatalog) -> (r: Table<u8>)
    ensures
        r@ == tier_bumps(failed_view(failed@), tasks_view(plan.subtasks@), catalog@),
{
    let ghost all = failed_view(failed@);
    let ghost tasks = tasks_view(plan.subtasks@);
    let mut bumps: Table<u8> = Table::new();
    let mut i: usize = 0;
    assert(all.take(0) =~= Seq::<FailedSubtaskView>::empty());
    while i < failed.len()
        invariant
            all == failed_view(failed@),
            tasks == tasks_view(plan.subtasks@),
            0 <= i <= failed@.len(),
            bumps@ == tier_bumps(all.take(i as int), tasks, catalog@),
        decreases failed@.len() - i,
    {
        assert(all.take(i + 1).drop_last() =~= all.take(i as int));
        assert(all.take(i + 1).last() == failed@[i as int]@);
        if let Some(tier) = raise_tier(&failed[i], plan, catalog) {
            bumps.insert(failed[i].subtask_id.clone(), tier);
        }
        i += 1;
    }
    assert(all.take(i as int) =~= all);
    bumps
}

/// Gives the subtasks of a plan the tiers that they go on with, where the plan
/// replaces one in which some subtasks failed.
pub fn escalate(
    new_plan: &mut Plan,
    old_plan: &Plan,
    failed: &Vec<FailedSubtask>,
    catalog: &RoleCatalog,
)
    ensures
        final(new_plan).final_output == old(new_plan).final_output,
        final(new_plan).subtasks@.len() == old(new_plan).subtasks@.len(),
        forall|i: int|
            0 <= i < old(new_plan).subtasks@.len() ==> (#[trigger] final(new_plan).subtasks@[i])@
                == carried(
                old(new_plan).subtasks@[i]@,
                tasks_view(old_plan.subtasks@),
                tier_bumps(failed_view(failed@), tasks_view(old_plan.subtasks@), catalog@),
            ),
{
    let bumps = bump_tiers(failed, old_plan, catalog);
    carry_tiers_forward(new_plan, old_plan, &bumps);
}

proof fn lemma_tier_bumps(
    failed: Seq<FailedSubtaskView>,
    tasks: Seq<SubtaskView>,
    roles: Seq<(Seq<char>, Role)>,
    id: Seq<char>,
)
    ensures
        match lookup(tier_bumps(failed, tasks, roles), id) {
            Some(tier) => exists|i: int|
                0 <= i < failed.len() && (#[trigger] failed[i]).subtask_id == id && raised_tier(
                    failed[i],
                    tasks,
                    roles,
                ) == Some(tier),
            None => forall|i: int|
                0 <= i < failed.len() && (#[trigger] failed[i]).subtask_id == id ==> raised_tier(
                    failed[i],
                    tasks,
                    roles,
                ) is None,
        },
    decreases failed.len(),
{
    if failed.len() > 0 {
        let before = failed.drop_last();
        let n = failed.len() - 1;
        let bumps = tier_bumps(before, tasks, roles);
        lemma_tier_bumps(before, tasks, roles, id);
        assert(forall|i: int| 0 <= i < n ==> #[trigger] failed[i] == before[i]);
        if let Some(tier) = raised_tier(failed.last(), tasks, roles) {
            lemma_stored_lookup(bumps, failed.last().subtask_id, tier, id);
            if failed.last().subtask_id == id {
                assert(failed[n].subtask_id == id);
            }
        }
        if failed.last().subtask_id != id || raised_tier(failed.last(), tasks, roles) is None {
            match lookup(bumps, id) {
                Some(tier) => {
                    let i = choose|i: int|
                        0 <= i < before.len() && (#[trigger] before[i]).subtask_id == id
                            && raised_tier(before[i], tasks, roles) == Some(tier);
                    assert(failed[i].subtask_id == id);
                },
                None => {
                    assert forall|i: int|
                        0 <= i < failed.len() && (#[trigger] failed[i]).subtask_id == id implies raised_tier(
                        failed[i],
                        tasks,
                        roles,
                    ) is None by {
                        if i < n {
                            assert(before[i].subtask_id == id);
                        }
                    }
                },
            }
        }
    }
}

/// A subtask that failed, and of which a signal was observed that its role is
/// configured for, moves exactly one rung up where there is one. Any other
/// subtask stays on its rung, or begins where its new plan puts it.
pub proof fn law_failed_subtasks_move_up(
    t: SubtaskView,
    failed: Seq<FailedSubtaskView>,
    tasks: Seq<SubtaskView>,
    roles: Seq<(Seq<char>, Role)>,
)
    ensures
        ({
            let tier = carried(t, tasks, tier_bumps(failed, tasks, roles)).current_model_tier;
            let moves = exists|i: int|
                0 <= i < failed.len() && (#[trigger] failed[i]).subtask_id == t.id && raised_tier(
                    failed[i],
                    tasks,
                    roles,
                ) is Some;
            match tier_of(tasks, t.id) {
                Some(old_tier) => tier == (if moves {
                    old_tier + 1
                } else {
                    old_tier as int
                }),
                None => tier == t.current_model_tier,
            }
        }),
{
    lemma_tier_bumps(failed, tasks, roles, t.id);
    match lookup(tier_bumps(failed, tasks, roles), t.id) {
        Some(tier) => {
            let i = choose|i: int|
                0 <= i < failed.len() && (#[trigger] failed[i]).subtask_id == t.id && raised_tier(
                    failed[i],
                    tasks,
                    roles,
                ) == Some(tier);
            assert(failed[i].subtask_id == t.id);
        },
        None => {},
    }
}

/// A tier that a subtask is raised to is one of its role's rungs.
pub proof fn law_raised_tier_is_on_the_ladder(
    failed: FailedSubtaskView,
    tasks: Seq<SubtaskView>,
    roles: Seq<(Seq<char>, Role)>,
)
    requires
        raised_tier(failed, tasks, roles) is Some,
    ensures
        lookup(roles, failed.role) is Some,
        0 < raised_tier(failed, tasks, roles)->0 < (lookup(
            roles,
            failed.role,
        )->0).model_ladder@.len(),
{
}

/// A subtask moves up exactly where there is a rung above it and a signal that
/// its role waits for was observed; the failure itself counts first and a
/// repeated call last.
#[verifier::rlimit(40)]
pub proof fn law_when_a_subtask_moves_up(
    observed: Seq<EscalationSignal>,
    configured: Seq<EscalationSignal>,
    ladder_len: nat,
    tier: nat,
)
    ensures
        ({
            let r = escalation(observed, configured, ladder_len, tier);
            let both = |s: EscalationSignal| observed.contains(s) && configured.contains(s);
            &&& r is Some <==> tier + 1 < ladder_len && exists|s: EscalationSignal|
                observed.contains(s) && #[trigger] configured.contains(s)
            &&& r is Some && both(EscalationSignal::ReplanRetry) ==> r == Some(
                EscalationSignal::ReplanRetry,
            )
            &&& r is Some && both(EscalationSignal::MaxTokens) ==> r != Some(
                EscalationSignal::ToolRepeatGuard,
            )
        }),
{
    let r = escalation(observed, configured, ladder_len, tier);
    if r is Some {
        assert(configured.contains(r->0));
    }
    if tier + 1 < ladder_len && exists|s: EscalationSignal|
        observed.contains(s) && #[trigger] configured.contains(s) {
        let s = choose|s: EscalationSignal|
            observed.contains(s) && #[trigger] configured.contains(s);
        match s {
            EscalationSignal::ReplanRetry => {},
            EscalationSignal::ToolRepeatGuard => {},
            EscalationSignal::MaxTokens => {},
        }
    }
}

/// The signals of a subtask are those that some record of it gives, each once.
#[verifier::rlimit(40)]
pub proof fn law_signals_are_those_recorded(
    events: Seq<AuditEvent>,
    n: int,
    subtask_id: Seq<char>,
    agents: Seq<AgentId>,
    s: EscalationSignal,
)
    requires
        0 <= n <= events.len(),
    ensures
        signals_among(events, n, subtask_id, agents).contains(s) <==> exists|i: int|
            0 <= i < n && signal_of(
                (#[trigger] events[i]).agent_id,
                events[i].event@,
                subtask_id,
                agents,
            ) == Some(s),
        signals_among(events, n, subtask_id, agents).no_duplicates(),
    decreases n,
{
    if n > 0 {
        law_signals_are_those_recorded(events, n - 1, subtask_id, agents, s);
        let before = signals_among(events, n - 1, subtask_id, agents);
        match signal_of(events[n - 1].agent_id, events[n - 1].event@, subtask_id, agents) {
            Some(t) => {
                if !before.contains(t) {
                    let all = before.push(t);
                    if all.contains(s) {
                        let k = choose|k: int| 0 <= k < all.len() && all[k] == s;
                        if k < before.len() {
                            assert(before[k] == s);
                        }
                    }
                    if before.contains(s) {
                        let k = choose|k: int| 0 <= k < before.len() && before[k] == s;
                        assert(all[k] == s);
                    }
                    assert(all[before.len() as int] == t);
                    assert(all.no_duplicates()) by {
                        assert forall|a: int, b: int|
                            0 <= a < all.len() && 0 <= b < all.len() && a != b implies all[a]
                            != all[b] by {
                            if a < before.len() {
                                assert(before.contains(before[a]));
                            }
                            if b < before.len() {
                                assert(before.contains(before[b]));
                            }
                        }
                    }
                } else if s == t {
                    assert(exists|i: int|
                        0 <= i < n && signal_of(
                            (#[trigger] events[i]).agent_id,
                            events[i].event@,
                            subtask_id,
                            agents,
                        ) == Some(s));
                }
            },
            None => {},
        }
    }
}

/// A record gives a signal for a subtask only where it is about that subtask or
/// one of its agents.
pub proof fn law_what_a_record_signals(
    agent: AgentId,
    event: AuditEventKindView,
    id: Seq<char>,
    agents: Seq<AgentId>,
)
    ensures
        signal_of(agent, event, id, agents) == Some(EscalationSignal::ReplanRetry) <==> event is SubtaskCompleted
            && !event->SubtaskCompleted_success && event->SubtaskCompleted_subtask_id == id,
        signal_of(agent, event, id, agents) == Some(EscalationSignal::ToolRepeatGuard) <==> event is ToolRepeatGuardFired
            && agents.contains(event->ToolRepeatGuardFired_agent_id),
        signal_of(agent, event, id, agents) == Some(EscalationSignal::MaxTokens) <==> event is AgentExecutionCompleted
            && event->AgentExecutionCompleted_stop_reason == "MaxTokens"@ && agents.contains(agent),
{
}

/// The tier of a subtask is that of the last of its id, and only the tier of a
/// subtask is carried over.
pub proof fn law_only_the_tier_is_carried(
    t: SubtaskView,
    tasks: Seq<SubtaskView>,
    bumps: Seq<(Seq<char>, u8)>,
    i: int,
)
    ensures
        ({
            let r = carried(t, tasks, bumps);
            &&& r.id == t.id
            &&& r.role == t.role
            &&& r.params == t.params
            &&& r.depends_on == t.depends_on
            &&& r.ttl == t.ttl
            &&& lookup(bumps, t.id) is Some ==> r.current_model_tier == lookup(bumps, t.id)->0
            &&& lookup(bumps, t.id) is None && 0 <= i < tasks.len() && tasks[i].id == t.id && (
            forall|k: int| i < k < tasks.len() ==> (#[trigger] tasks[k]).id != t.id)
                ==> r.current_model_tier == tasks[i].current_model_tier
        }),
{
    if 0 <= i < tasks.len() && tasks[i].id == t.id && (forall|k: int|
        i < k < tasks.len() ==> (#[trigger] tasks[k]).id != t.id) {
        lemma_tier_of_last(tasks, t.id, i);
    }
}

proof fn lemma_tier_of_last(tasks: Seq<SubtaskView>, id: Seq<char>, i: int)
    requires
        0 <= i < tasks.len(),
        tasks[i].id == id,
        forall|k: int| i < k < tasks.len() ==> (#[trigger] tasks[k]).id != id,
    ensures
        tier_of(tasks, id) == Some(tasks[i].current_model_tier),
    decreases tasks.len(),
{
    if i < tasks.len() - 1 {
        assert(tasks[tasks.len() - 1].id != id);
        lemma_tier_of_last(tasks.drop_last(), id, i);
    }
}

/// A subtask that moves up moves up by one rung.
pub proof fn law_one_rung_at_a_time(
    failed: FailedSubtaskView,
    tasks: Seq<SubtaskView>,
    roles: Seq<(Seq<char>, Role)>,
)
    ensures
        raised_tier(failed, tasks, roles) is Some ==> tier_of(tasks, failed.subtask_id) is Some
            && raised_tier(failed, tasks, roles)->0 == tier_of(tasks, failed.subtask_id)->0 + 1,
        lookup(roles, failed.role) is Some && tier_of(tasks, failed.subtask_id) is Some ==> {
            let role = lookup(roles, failed.role)->0;
            let tier = tier_of(tasks, failed.subtask_id)->0;
            raised_tier(failed, tasks, roles) is Some <==> tier < 255 && tier + 1
                < role.model_ladder@.len() && exists|s: EscalationSignal|
                failed.observed_signals.contains(s) && #[trigger] role.escalate_on@.contains(s)
        },
{
    if lookup(roles, failed.role) is Some && tier_of(tasks, failed.subtask_id) is Some {
        let role = lookup(roles, failed.role)->0;
        law_when_a_subtask_moves_up(
            failed.observed_signals,
            role.escalate_on@,
            rungs(role),
            tier_of(tasks, failed.subtask_id)->0 as nat,
        );
    }
}

/// The reasons can be told apart.
pub proof fn law_reasons_differ(a: EscalationSignal, b: EscalationSignal)
    requires
        a.reason_view() == b.reason_view(),
    ensures
        a == b,
{
    reveal_strlit("replan_retry");
    reveal_strlit("tool_repeat_guard");
    reveal_strlit("max_tokens");
    assert("replan_retry"@.len() == 12);
    assert("tool_repeat_guard"@.len() == 17);
    assert("max_tokens"@.len() == 10);
}

} // verus!
