//! Which agent runs next, and how long its calls took.

pub mod latency;
pub mod per_model_latency;

use crate::types::AgentId;
use vstd::prelude::*;

verus! {

/// How urgent an agent's work is.
#[derive(Debug, Clone, Copy, PartialEq, Eq, Structural, PartialOrd, Ord)]
pub enum Priority {
    Low,
    Normal,
    High,
    Critical,
}

impl Default for Priority {
    fn default() -> (r: Priority)
        ensures
            r == Priority::Normal,
    {
        Priority::Normal
    }
}

/// An agent to be scheduled.
#[derive(Debug, Clone, Copy, PartialEq, Eq, Structural)]
pub struct ScheduleEntry {
    pub agent_id: AgentId,
    pub priority: Priority,
}

/// Decides which agent runs next.
pub trait Scheduler {
    /// The agents that are scheduled.
    spec fn queued(&self) -> Seq<ScheduleEntry>;

    /// Takes an agent in.
    fn enqueue(&mut self, entry: ScheduleEntry);

    /// Drops an agent.
    fn dequeue(&mut self, agent_id: &AgentId)
        ensures
            forall|i: int|
                0 <= i < final(self).queued().len() ==> (#[trigger] final(
                    self).queued()[i]).agent_id != *agent_id,
    ;

    /// The agent that runs next.
    fn next(&mut self) -> (r: Option<AgentId>)
        ensures
            r is None == (old(self).queued().len() == 0),
    ;
}

/// How many turns an agent gets in a round, by its priority.
pub open spec fn weight(p: Priority) -> nat {
    match p {
        Priority::Low => 1,
        Priority::Normal => 2,
        Priority::High => 3,
        Priority::Critical => 4,
    }
}

/// How many turns an agent gets in a round, by its priority.
fn turns_per_round(p: Priority) -> (r: u32)
    ensures
        r == weight(p),
{
    match p {
        Priority::Low => 1,
        Priority::Normal => 2,
        Priority::High => 3,
        Priority::Critical => 4,
    }
}

/// An agent in the queue, and the turns that it has left in this round.
#[derive(Debug, Clone, Copy, PartialEq, Eq, Structural)]
pub struct Slot {
    pub entry: ScheduleEntry,
    pub left: u32,
}

/// The agents in a queue.
pub open spec fn entries_of(s: Seq<Slot>) -> Seq<ScheduleEntry> {
    s.map_values(|x: Slot| x.entry)
}

/// The agents stand by falling priority, and none has more turns left than a
/// round gives it.
pub open spec fn orderly(s: Seq<Slot>) -> bool {
    &&& forall|i: int, j: int|
        0 <= i < j < s.len() ==> weight((#[trigger] s[i]).entry.priority) >= weight(
            (#[trigger] s[j]).entry.priority,
        )
    &&& forall|i: int|
        0 <= i < s.len() ==> (#[trigger] s[i]).left <= weight(s[i].entry.priority)
}

/// A round is about to begin: every agent has all its turns.
pub open spec fn fresh(s: Seq<Slot>) -> bool {
    forall|i: int| 0 <= i < s.len() ==> (#[trigger] s[i]).left == weight(s[i].entry.priority)
}

/// A round is over: no agent has a turn left.
pub open spec fn spent(s: Seq<Slot>) -> bool {
    forall|i: int| 0 <= i < s.len() ==> (#[trigger] s[i]).left == 0
}

/// Where an agent goes that comes in: behind those of its priority or a higher
/// one.
pub open spec fn place_of(s: Seq<Slot>, p: Priority) -> int
    decreases s.len(),
{
    if s.len() == 0 {
        0
    } else if weight(s.last().entry.priority) >= weight(p) {
        s.len() as int
    } else {
        place_of(s.drop_last(), p)
    }
}

/// The queue with an agent more.
pub open spec fn joined_by(s: Seq<Slot>, e: ScheduleEntry) -> Seq<Slot> {
    s.insert(place_of(s, e.priority), Slot { entry: e, left: weight(e.priority) as u32 })
}

/// The queue before a turn: where a round is over, the next one begins.
pub open spec fn before_turn(s: Seq<Slot>) -> Seq<Slot> {
    if spent(s) {
        s.map_values(|x: Slot| Slot { left: weight(x.entry.priority) as u32, ..x })
    } else {
        s
    }
}

/// The position of the agent with the most turns left, the first one where
/// there are several.
pub open spec fn foremost(s: Seq<Slot>) -> int
    decreases s.len(),
{
    if s.len() <= 1 {
        0
    } else {
        let l = foremost(s.drop_last());
        if s.last().left > s[l].left {
            s.len() - 1
        } else {
            l
        }
    }
}

/// The agent whose turn it is.
pub open spec fn next_agent(s: Seq<Slot>) -> AgentId {
    before_turn(s)[foremost(before_turn(s))].entry.agent_id
}

/// The queue after a turn.
pub open spec fn after_turn(s: Seq<Slot>) -> Seq<Slot> {
    if s.len() == 0 {
        s
    } else {
        let t = before_turn(s);
        let i = foremost(t);
        t.update(i, Slot { left: (t[i].left - 1) as u32, ..t[i] })
    }
}

proof fn lemma_place_of(s: Seq<Slot>, p: Priority)
    ensures
        0 <= place_of(s, p) <= s.len(),
        forall|k: int|
            place_of(s, p) <= k < s.len() ==> weight((#[trigger] s[k]).entry.priority) < weight(p),
        place_of(s, p) > 0 ==> weight(s[place_of(s, p) - 1].entry.priority) >= weight(p),
    decreases s.len(),
{
    if s.len() > 0 && weight(s.last().entry.priority) < weight(p) {
        lemma_place_of(s.drop_last(), p);
        assert forall|k: int| place_of(s, p) <= k < s.len() implies weight(
            (#[trigger] s[k]).entry.priority,
        ) < weight(p) by {
            if k < s.len() - 1 {
                assert(s.drop_last()[k] == s[k]);
            }
        }
    }
}

proof fn lemma_joined(s: Seq<Slot>, e: ScheduleEntry)
    requires
        orderly(s),
    ensures
        orderly(joined_by(s, e)),
        fresh(s) ==> fresh(joined_by(s, e)),
{
    lemma_place_of(s, e.priority);
    let p = place_of(s, e.priority);
    let t = joined_by(s, e);
    assert forall|i: int, j: int| 0 <= i < j < t.len() implies weight(
        (#[trigger] t[i]).entry.priority,
    ) >= weight((#[trigger] t[j]).entry.priority) by {
        let a = if i < p { i } else { i - 1 };
        let b = if j < p { j } else { j - 1 };
        if i != p {
            assert(t[i] == s[a]);
        }
        if j != p {
            assert(t[j] == s[b]);
        }
        if j == p && a < p - 1 {
            assert(weight(s[a].entry.priority) >= weight(s[p - 1].entry.priority));
        }
    }
    assert forall|i: int| 0 <= i < t.len() implies (#[trigger] t[i]).left <= weight(
        t[i].entry.priority,
    ) && (fresh(s) ==> t[i].left == weight(t[i].entry.priority)) by {
        if i < p {
            assert(t[i] == s[i]);
        } else if i > p {
            assert(t[i] == s[i - 1]);
        }
    }
}

proof fn lemma_foremost(s: Seq<Slot>)
    requires
        s.len() > 0,
    ensures
        0 <= foremost(s) < s.len(),
        forall|k: int| 0 <= k < s.len() ==> (#[trigger] s[k]).left <= s[foremost(s)].left,
        forall|k: int| 0 <= k < foremost(s) ==> (#[trigger] s[k]).left < s[foremost(s)].left,
    decreases s.len(),
{
    if s.len() > 1 {
        let t = s.drop_last();
        lemma_foremost(t);
        assert forall|k: int| 0 <= k < s.len() implies (#[trigger] s[k]).left <= s[foremost(
            s,
        )].left by {
            if k < t.len() {
                assert(t[k] == s[k]);
            }
        }
        assert forall|k: int| 0 <= k < foremost(s) implies (#[trigger] s[k]).left < s[foremost(
            s,
        )].left by {
            assert(t[k] == s[k]);
        }
    }
}

/// A turn takes one turn off one agent that has one, and changes nothing else.
proof fn lemma_after_turn(s: Seq<Slot>)
    requires
        s.len() > 0,
        orderly(s),
    ensures
        ({
            let t = before_turn(s);
            let i = foremost(t);
            &&& t.len() == s.len()
            &&& entries_of(t) == entries_of(s)
            &&& orderly(t)
            &&& 0 <= i < s.len()
            &&& t[i].left > 0
            &&& entries_of(after_turn(s)) == entries_of(s)
            &&& orderly(after_turn(s))
        }),
{
    let t = before_turn(s);
    let i = foremost(t);
    lemma_foremost(t);
    assert forall|k: int| 0 <= k < t.len() implies (#[trigger] t[k]).entry == s[k].entry by {}
    assert(entries_of(t) =~= entries_of(s));
    if spent(s) {
        assert(t[0].left > 0);
    } else {
        let k = choose|k: int| 0 <= k < s.len() && (#[trigger] s[k]).left != 0;
        assert(t[k].left > 0);
    }
    assert forall|a: int, b: int| 0 <= a < b < t.len() implies weight(
        (#[trigger] t[a]).entry.priority,
    ) >= weight((#[trigger] t[b]).entry.priority) by {
        assert(weight(s[a].entry.priority) >= weight(s[b].entry.priority));
    }
    assert(orderly(t));
    let u = after_turn(s);
    assert(entries_of(u) =~= entries_of(t));
    assert forall|a: int, b: int| 0 <= a < b < u.len() implies weight(
        (#[trigger] u[a]).entry.priority,
    ) >= weight((#[trigger] u[b]).entry.priority) by {
        assert(weight(t[a].entry.priority) >= weight(t[b].entry.priority));
    }
    assert forall|a: int| 0 <= a < u.len() implies (#[trigger] u[a]).left <= weight(
        u[a].entry.priority,
    ) by {
        assert(t[a].left <= weight(t[a].entry.priority));
    }
}

/// Lets the agents run in turn. In each round an agent gets as many turns as
/// its priority weighs, and whoever has the most turns left goes first.
#[derive(Debug)]
pub struct RoundRobinScheduler {
    queue: Vec<Slot>,
}

impl RoundRobinScheduler {
    /// The agents with the turns that they have left.
    pub closed spec fn slots(&self) -> Seq<Slot> {
        self.queue@
    }

    /// The queue is in order.
    #[verifier::type_invariant]
    spec fn wf(&self) -> bool {
        orderly(self.queue@)
    }

    /// A scheduler without agents.
    pub fn new() -> (r: RoundRobinScheduler)
        ensures
            r.slots() == Seq::<Slot>::empty(),
            r.queued() == Seq::<ScheduleEntry>::empty(),
    {
        let r = RoundRobinScheduler { queue: Vec::new() };
        assert(r.queued() =~= Seq::<ScheduleEntry>::empty());
        r
    }
}

impl Default for RoundRobinScheduler {
    fn default() -> (r: RoundRobinScheduler)
        ensures
            r.slots() == Seq::<Slot>::empty(),
            r.queued() == Seq::<ScheduleEntry>::empty(),
    {
        RoundRobinScheduler::new()
    }
}

impl Scheduler for RoundRobinScheduler {
    open spec fn queued(&self) -> Seq<ScheduleEntry> {
        entries_of(self.slots())
    }

    /// Takes an agent in, behind those of its priority or a higher one.
    fn enqueue(&mut self, entry: ScheduleEntry)
        ensures
            final(self).slots() == joined_by(old(self).slots(), entry),
            orderly(final(self).slots()),
            fresh(old(self).slots()) ==> fresh(final(self).slots()),
    {
        proof {
            use_type_invariant(&*self);
            lemma_joined(self.queue@, entry);
            lemma_place_of(self.queue@, entry.priority);
        }
        let ghost start = self.queue@;
        let mut queue: Vec<Slot> = Vec::new();
        std::mem::swap(&mut queue, &mut self.queue);
        let turns = turns_per_round(entry.priority);
        let mut at: usize = queue.len();
        assert(start.take(at as int) =~= start);
        while at > 0 && turns_per_round(queue[at - 1].entry.priority) < turns
            invariant
                queue@ == start,
                turns == weight(entry.priority),
                0 <= at <= start.len(),
                place_of(start, entry.priority) == place_of(start.take(at as int), entry.priority),
            decreases at,
        {
            assert(start.take(at as int).drop_last() =~= start.take(at - 1));
            at -= 1;
        }
        assert(at > 0 ==> start.take(at as int).last() == start[at - 1]);
        queue.insert(at, Slot { entry, left: turns });
        self.queue = queue;
    }

    /// Drops an agent, as often as it is there.
    fn dequeue(&mut self, agent_id: &AgentId)
        ensures
            final(self).slots() == old(self).slots().filter(
                |x: Slot| x.entry.agent_id != *agent_id,
            ),
    {
        proof {
            use_type_invariant(&*self);
        }
        let ghost start = self.queue@;
        let ghost keep = |x: Slot| x.entry.agent_id != *agent_id;
        let mut kept: Vec<Slot> = Vec::new();
        let mut i: usize = 0;
        proof {
            reveal(Seq::filter);
            assert(start.take(0).filter(keep) =~= Seq::<Slot>::empty());
        }
        while i < self.queue.len()
            invariant
                start == self.queue@,
                orderly(start),
                0 <= i <= start.len(),
                keep == (|x: Slot| x.entry.agent_id != *agent_id),
                kept@ == start.take(i as int).filter(keep),
                orderly(kept@),
                kept@.len() > 0 && i < start.len() ==> weight(kept@.last().entry.priority)
                    >= weight(start[i as int].entry.priority),
            decreases start.len() - i,
        {
            let ghost before = kept@;
            proof {
                assert(start.take(i + 1) =~= start.take(i as int).push(start[i as int]));
                start.take(i as int).lemma_filter_push(start[i as int], keep);
            }
            if self.queue[i].entry.agent_id != *agent_id {
                kept.push(self.queue[i]);
                proof {
                    assert forall|a: int, b: int| 0 <= a < b < kept@.len() implies weight(
                        (#[trigger] kept@[a]).entry.priority,
                    ) >= weight((#[trigger] kept@[b]).entry.priority) by {
                        if b == before.len() && a < before.len() - 1 {
                            assert(weight(before[a].entry.priority) >= weight(
                                before.last().entry.priority,
                            ));
                        }
                    }
                }
            }
            i += 1;
        }
        assert(start.take(i as int) =~= start);
        proof {
            assert forall|i: int| 0 <= i < kept@.len() implies (
            #[trigger] kept@[i]).entry.agent_id != *agent_id by {
                start.lemma_filter_pred(keep, i);
            }
        }
        self.queue = kept;
    }

    /// The agent with the most turns left, which has one less by it. Where no
    /// agent has a turn left, a new round begins.
    fn next(&mut self) -> (r: Option<AgentId>)
        ensures
            final(self).slots() == after_turn(old(self).slots()),
            old(self).slots().len() > 0 ==> r == Some(next_agent(old(self).slots())),
    {
        proof {
            use_type_invariant(&*self);
        }
        let ghost start = self.queue@;
        let mut queue: Vec<Slot> = Vec::new();
        std::mem::swap(&mut queue, &mut self.queue);
        if queue.len() == 0 {
            self.queue = queue;
            return None;
        }
        proof {
            lemma_after_turn(start);
        }
        let mut over = true;
        let mut i: usize = 0;
        while i < queue.len()
            invariant
                queue@ == start,
                0 <= i <= start.len(),
                over == forall|k: int| 0 <= k < i ==> (#[trigger] start[k]).left == 0,
            decreases start.len() - i,
        {
            if queue[i].left != 0 {
                over = false;
            }
            i += 1;
        }
        if over {
            let mut j: usize = 0;
            while j < queue.len()
                invariant
                    spent(start),
                    queue@.len() == start.len(),
                    0 <= j <= start.len(),
                    forall|k: int| 0 <= k < j ==> #[trigger] queue@[k] == before_turn(start)[k],
                    forall|k: int| j <= k < start.len() ==> #[trigger] queue@[k] == start[k],
                decreases start.len() - j,
            {
                let entry = queue[j].entry;
                queue.set(j, Slot { entry, left: turns_per_round(entry.priority) });
                j += 1;
            }
        }
        assert(queue@ =~= before_turn(start));
        let ghost t = queue@;
        let mut best: usize = 0;
        let mut k: usize = 1;
        assert(t.take(1).len() == 1);
        while k < queue.len()
            invariant
                queue@ == t,
                1 <= k <= t.len(),
                best < k,
                best == foremost(t.take(k as int)),
            decreases t.len() - k,
        {
            assert(t.take(k + 1).drop_last() =~= t.take(k as int));
            if queue[k].left > queue[best].left {
                best = k;
            }
            k += 1;
        }
        assert(t.take(k as int) =~= t);
        let slot = queue[best];
        queue.set(best, Slot { entry: slot.entry, left: slot.left - 1 });
        assert(queue@ =~= after_turn(start));
        self.queue = queue;
        Some(slot.entry.agent_id)
    }
}

/// The queue after `n` turns.
pub open spec fn after_turns(s: Seq<Slot>, n: nat) -> Seq<Slot>
    decreases n,
{
    if n == 0 {
        s
    } else {
        after_turn(after_turns(s, (n - 1) as nat))
    }
}

/// How many of `n` turns an agent gets.
pub open spec fn turns_of(s: Seq<Slot>, n: nat, agent_id: AgentId) -> nat
    decreases n,
{
    if n == 0 {
        0
    } else {
        turns_of(s, (n - 1) as nat, agent_id) + (if next_agent(after_turns(s, (n - 1) as nat))
            == agent_id {
            1nat
        } else {
            0nat
        })
    }
}

/// Whether the agent at `i` stands nowhere else in the queue.
pub open spec fn alone(s: Seq<Slot>, i: int) -> bool {
    forall|k: int|
        0 <= k < s.len() && k != i ==> (#[trigger] s[k]).entry.agent_id != s[i].entry.agent_id
}

proof fn lemma_after_turns(s: Seq<Slot>, n: nat)
    requires
        s.len() > 0,
        orderly(s),
    ensures
        after_turns(s, n).len() == s.len(),
        entries_of(after_turns(s, n)) == entries_of(s),
        orderly(after_turns(s, n)),
        forall|k: int| 0 <= k < s.len() ==> (#[trigger] after_turns(s, n)[k]).entry == s[k].entry,
    decreases n,
{
    if n > 0 {
        lemma_after_turns(s, (n - 1) as nat);
        lemma_after_turn(after_turns(s, (n - 1) as nat));
    }
    let t = after_turns(s, n);
    assert(entries_of(t).len() == t.len());
    assert(entries_of(s).len() == s.len());
    assert forall|k: int| 0 <= k < s.len() implies (#[trigger] t[k]).entry == s[k].entry by {
        assert(entries_of(t)[k] == t[k].entry);
        assert(entries_of(s)[k] == s[k].entry);
    }
}

/// What holds of two agents, the first of them before the second in the queue,
/// `n` turns after a round began: how many turns they have left, and by how
/// many the first has had more.
proof fn lemma_two_agents(s: Seq<Slot>, n: nat, i: int, j: int)
    requires
        orderly(s),
        fresh(s),
        0 <= i < j < s.len(),
        alone(s, i),
        alone(s, j),
    ensures
        ({
            let t = after_turns(s, n);
            let wi = weight(s[i].entry.priority) as int;
            let wj = weight(s[j].entry.priority) as int;
            let ti = turns_of(s, n, s[i].entry.agent_id) as int;
            let tj = turns_of(s, n, s[j].entry.agent_id) as int;
            let ui = wi - t[i].left;
            let uj = wj - t[j].left;
            &&& t[i].left >= t[j].left - 1
            &&& t[i].left > t[j].left ==> uj == 0
            &&& ti - tj >= ui - uj
            &&& wi == wj ==> ti - tj == ui - uj
            &&& wi > wj ==> ti - tj > ui - uj || (ti == ui && tj == uj)
        }),
    decreases n,
{
    assert(weight(s[i].entry.priority) >= weight(s[j].entry.priority));
    if n > 0 {
        let m = (n - 1) as nat;
        lemma_two_agents(s, m, i, j);
        lemma_after_turns(s, m);
        let c = after_turns(s, m);
        lemma_after_turn(c);
        let t = before_turn(c);
        lemma_foremost(t);
        let l = foremost(t);
        assert(c[i].entry == s[i].entry && c[j].entry == s[j].entry);
        assert(c[l].entry == s[l].entry);
        assert(t[l].entry == c[l].entry);
        if spent(c) {
            assert(c[i].left == 0 && c[j].left == 0);
        }
        assert(t[i].entry == s[i].entry && t[j].entry == s[j].entry);
        assert(t[i].left <= t[l].left && t[j].left <= t[l].left);
        if l == j {
            assert(t[i].left < t[l].left);
        }
        if l != i {
            assert(s[l].entry.agent_id != s[i].entry.agent_id);
        }
        if l != j {
            assert(s[l].entry.agent_id != s[j].entry.agent_id);
        }
    }
}

/// An agent of a higher priority gets more turns than one of a lower: however
/// many turns are counted from the beginning of a round, as soon as either has
/// had one, the first has had strictly more.
pub proof fn law_higher_priority_runs_more_often(s: Seq<Slot>, n: nat, i: int, j: int)
    requires
        orderly(s),
        fresh(s),
        0 <= i < s.len(),
        0 <= j < s.len(),
        alone(s, i),
        alone(s, j),
        weight(s[i].entry.priority) > weight(s[j].entry.priority),
    ensures
        turns_of(s, n, s[i].entry.agent_id) > turns_of(s, n, s[j].entry.agent_id) || (turns_of(
            s,
            n,
            s[i].entry.agent_id,
        ) == 0 && turns_of(s, n, s[j].entry.agent_id) == 0),
{
    if j < i {
        assert(weight(s[j].entry.priority) >= weight(s[i].entry.priority));
    }
    lemma_two_agents(s, n, i, j);
    lemma_after_turns(s, n);
    let t = after_turns(s, n);
    assert(t[i].entry == s[i].entry && t[j].entry == s[j].entry);
}

/// Agents of one priority run in turn: from the beginning of a round on, the
/// one that came in first is never more than one turn ahead, and never behind.
pub proof fn law_equals_run_in_turn(s: Seq<Slot>, n: nat, i: int, j: int)
    requires
        orderly(s),
        fresh(s),
        0 <= i < j < s.len(),
        alone(s, i),
        alone(s, j),
        s[i].entry.priority == s[j].entry.priority,
    ensures
        0 <= turns_of(s, n, s[i].entry.agent_id) - turns_of(s, n, s[j].entry.agent_id) <= 1,
{
    lemma_two_agents(s, n, i, j);
    lemma_after_turns(s, n);
    let t = after_turns(s, n);
    assert(t[i].entry == s[i].entry && t[j].entry == s[j].entry);
}

/// How many turns are left in a round.
pub open spec fn turns_left(s: Seq<Slot>) -> nat
    decreases s.len(),
{
    if s.len() == 0 {
        0
    } else {
        turns_left(s.drop_last()) + s.last().left as nat
    }
}

proof fn lemma_turns_left_update(s: Seq<Slot>, i: int, x: Slot)
    requires
        0 <= i < s.len(),
    ensures
        turns_left(s.update(i, x)) == turns_left(s) - s[i].left + x.left,
    decreases s.len(),
{
    if i == s.len() - 1 {
        assert(s.update(i, x).drop_last() =~= s.drop_last());
    } else {
        assert(s.update(i, x).drop_last() =~= s.drop_last().update(i, x));
        lemma_turns_left_update(s.drop_last(), i, x);
    }
}

proof fn lemma_turns_left_none(s: Seq<Slot>)
    ensures
        turns_left(s) == 0 <==> spent(s),
    decreases s.len(),
{
    if s.len() > 0 {
        lemma_turns_left_none(s.drop_last());
        if spent(s) {
            assert forall|i: int| 0 <= i < s.drop_last().len() implies (
            #[trigger] s.drop_last()[i]).left == 0 by {
                assert(s[i].left == 0);
            }
            assert(s[s.len() - 1].left == 0);
        } else {
            let k = choose|k: int| 0 <= k < s.len() && (#[trigger] s[k]).left != 0;
            if k < s.len() - 1 {
                assert(s.drop_last()[k].left != 0);
            }
        }
    }
}

proof fn lemma_in_round(s: Seq<Slot>, n: nat, i: int)
    requires
        orderly(s),
        fresh(s),
        0 <= i < s.len(),
        alone(s, i),
        n <= turns_left(s),
    ensures
        turns_left(after_turns(s, n)) == turns_left(s) - n,
        turns_of(s, n, s[i].entry.agent_id) + after_turns(s, n)[i].left == weight(
            s[i].entry.priority,
        ),
    decreases n,
{
    if n > 0 {
        let m = (n - 1) as nat;
        lemma_in_round(s, m, i);
        lemma_after_turns(s, m);
        let c = after_turns(s, m);
        lemma_turns_left_none(c);
        lemma_after_turn(c);
        let l = foremost(c);
        lemma_turns_left_update(c, l, Slot { left: (c[l].left - 1) as u32, ..c[l] });
        assert(c[l].entry == s[l].entry);
        if l != i {
            assert(s[l].entry.agent_id != s[i].entry.agent_id);
        }
    }
}

/// In a full round each agent gets as many turns as its priority weighs, and
/// so strictly more than one of a lower priority.
pub proof fn law_a_round_goes_by_weight(s: Seq<Slot>, i: int)
    requires
        orderly(s),
        fresh(s),
        0 <= i < s.len(),
        alone(s, i),
    ensures
        turns_of(s, turns_left(s), s[i].entry.agent_id) == weight(s[i].entry.priority),
        spent(after_turns(s, turns_left(s))),
{
    let n = turns_left(s);
    lemma_in_round(s, n, i);
    lemma_after_turns(s, n);
    lemma_turns_left_none(after_turns(s, n));
    assert(after_turns(s, n)[i].left == 0);
}

/// Seconds until the deadline that is given to a request without one.
pub const SYNTHETIC_DEADLINE_DEFAULT: u64 = 60;

/// A request for a turn of the language model.
#[derive(Debug, PartialEq, Eq)]
pub struct ReasoningRequest {
    /// When the answer is due, in nanoseconds of the clock.
    pub effective_deadline: u128,
    /// When the request came in, counted in requests.
    pub insertion_id: u64,
    pub subtask_id: String,
    pub priority: u8,
}

/// Whether `a` is served before `b`: it is due earlier, or came in earlier
/// and is due at the same time.
pub open spec fn served_before(a: ReasoningRequest, b: ReasoningRequest) -> bool {
    a.effective_deadline < b.effective_deadline || (a.effective_deadline == b.effective_deadline
        && a.insertion_id < b.insertion_id)
}

/// The requests that wait for a turn.
#[derive(Debug)]
pub struct ReasoningQueue {
    waiting: Vec<ReasoningRequest>,
    next_insertion_id: u64,
}

impl ReasoningQueue {
    /// The waiting requests, in the order in which they came in.
    pub closed spec fn view(&self) -> Seq<ReasoningRequest> {
        self.waiting@
    }

    /// How many requests have come in.
    pub closed spec fn count(&self) -> u64 {
        self.next_insertion_id
    }

    /// The requests are numbered as they came in.
    pub open spec fn wf(&self) -> bool {
        &&& forall|i: int, j: int|
            0 <= i < j < self@.len() ==> (#[trigger] self@[i]).insertion_id < (
            #[trigger] self@[j]).insertion_id
        &&& forall|i: int| 0 <= i < self@.len() ==> (#[trigger] self@[i]).insertion_id < self.count()
    }

    /// No request waits.
    pub fn new() -> (r: ReasoningQueue)
        ensures
            r.wf(),
            r@ == Seq::<ReasoningRequest>::empty(),
            r.count() == 0,
    {
        ReasoningQueue { waiting: Vec::new(), next_insertion_id: 0 }
    }

    /// Takes a request in. One without a deadline is given one, a fixed time
    /// from `now`.
    pub fn enqueue(&mut self, subtask_id: String, priority: u8, deadline: Option<u128>, now: u128)
        requires
            old(self).wf(),
            old(self).count() < u64::MAX,
            now <= u128::MAX - 60_000_000_000,
        ensures
            final(self).wf(),
            final(self).count() == old(self).count() + 1,
            final(self)@ == old(self)@.push(
                (ReasoningRequest {
                    effective_deadline: match deadline {
                        Some(d) => d,
                        None => (now + 60_000_000_000) as u128,
                    },
                    insertion_id: old(self).count(),
                    subtask_id,
                    priority,
                }),
            ),
    {
        let effective_deadline: u128 = match deadline {
            Some(d) => d,
            None => now + (SYNTHETIC_DEADLINE_DEFAULT as u128) * 1_000_000_000,
        };
        let request = ReasoningRequest {
            effective_deadline,
            insertion_id: self.next_insertion_id,
            subtask_id,
            priority,
        };
        let ghost before = self@;
        self.waiting.push(request);
        self.next_insertion_id = self.next_insertion_id + 1;
        assert(self@ == before.push(request));
    }

    /// Takes out the request that is due first; of those due at the same time,
    /// the one that came in first.
    pub fn pop(&mut self) -> (r: Option<ReasoningRequest>)
        requires
            old(self).wf(),
        ensures
            final(self).wf(),
            final(self).count() == old(self).count(),
            match r {
                None => old(self)@.len() == 0 && final(self)@ == old(self)@,
                Some(first) => exists|i: int|
                    0 <= i < old(self)@.len() && first == old(self)@[i] && final(self)@
                        == #[trigger] old(self)@.remove(i) && forall|j: int|
                        0 <= j < old(self)@.len() && j != i ==> served_before(
                            first,
                            #[trigger] old(self)@[j],
                        ),
            },
    {
        if self.waiting.len() == 0 {
            return None;
        }
        let mut best: usize = 0;
        let mut i: usize = 1;
        while i < self.waiting.len()
            invariant
                self.wf(),
                self@ == self.waiting@,
                0 <= best < i <= self.waiting@.len(),
                forall|j: int|
                    0 <= j < i && j != best ==> served_before(
                        self.waiting@[best as int],
                        #[trigger] self.waiting@[j],
                    ),
            decreases self.waiting@.len() - i,
        {
            assert(self@[best as int].insertion_id < self@[i as int].insertion_id);
            if self.waiting[i].effective_deadline < self.waiting[best].effective_deadline {
                best = i;
            }
            i += 1;
        }
        let ghost before = self@;
        let first = self.waiting.remove(best);
        proof {
            assert(self@ == before.remove(best as int));
            assert forall|i: int, j: int| 0 <= i < j < self@.len() implies (
            #[trigger] self@[i]).insertion_id < (#[trigger] self@[j]).insertion_id by {
                let a = if i < best { i } else { i + 1 };
                let b = if j < best { j } else { j + 1 };
                assert(before[a] == self@[i]);
                assert(before[b] == self@[j]);
            }
            assert forall|i: int| 0 <= i < self@.len() implies (#[trigger] self@[i]).insertion_id
                < self.count() by {
                let a = if i < best { i } else { i + 1 };
                assert(before[a] == self@[i]);
            }
        }
        Some(first)
    }
}

/// A higher priority weighs more.
pub proof fn law_priorities_weigh_in_order()
    ensures
        0 < weight(Priority::Low) < weight(Priority::Normal) < weight(Priority::High) < weight(
            Priority::Critical,
        ),
{
}

/// An agent that comes in is put behind those of its priority and before the
/// lower ones, with all its turns; all the others stay as they are.
pub proof fn law_newcomer_goes_behind_its_equals(s: Seq<Slot>, e: ScheduleEntry, k: int)
    requires
        orderly(s),
    ensures
        ({
            let t = joined_by(s, e);
            let p = place_of(s, e.priority);
            &&& t.len() == s.len() + 1
            &&& 0 <= p < t.len()
            &&& t[p].entry == e
            &&& t[p].left == weight(e.priority)
            &&& t.remove(p) == s
            &&& 0 <= k < p ==> weight(t[k].entry.priority) >= weight(e.priority)
            &&& p < k < t.len() ==> weight(t[k].entry.priority) < weight(e.priority)
        }),
{
    lemma_place_of(s, e.priority);
    let t = joined_by(s, e);
    let p = place_of(s, e.priority);
    assert(t.remove(p) =~= s);
    if 0 <= k < p {
        assert(t[k] == s[k]);
        if k < p - 1 {
            assert(weight(s[k].entry.priority) >= weight(s[p - 1].entry.priority));
        }
    }
    if p < k < t.len() {
        assert(t[k] == s[k - 1]);
    }
}

/// The turn goes to the agent that has the most turns left, and of several to
/// the first; it takes one turn off that agent and nothing off the others. A
/// new round begins exactly when no turn is left.
pub proof fn law_turn_goes_to_the_foremost(s: Seq<Slot>, k: int)
    requires
        orderly(s),
        0 <= k < s.len(),
    ensures
        ({
            let over = forall|j: int| 0 <= j < s.len() ==> (#[trigger] s[j]).left == 0;
            let left = |j: int| -> int
                {
                    if over {
                        weight(s[j].entry.priority) as int
                    } else {
                        s[j].left as int
                    }
                };
            exists|i: int|
                #![trigger s[i]]
                0 <= i < s.len() && next_agent(s) == s[i].entry.agent_id && left(k) <= left(i) && (k
                    < i ==> left(k) < left(i)) && after_turn(s)[k].entry == s[k].entry && after_turn(
                    s,
                )[k].left == left(k) - (if k == i {
                    1int
                } else {
                    0
                })
        }),
{
    let t = before_turn(s);
    let i = foremost(t);
    lemma_after_turn(s);
    lemma_foremost(t);
    assert(s[i].entry == t[i].entry);
    assert(s[k].entry == t[k].entry);
}

/// What is due first is served first; of what is due at the same time, what
/// came in first. No two requests of a queue are served at once, and the order
/// is the same whichever way they are looked at.
pub proof fn law_requests_are_served_in_order(
    a: ReasoningRequest,
    b: ReasoningRequest,
    c: ReasoningRequest,
)
    ensures
        a.effective_deadline < b.effective_deadline ==> served_before(a, b),
        a.effective_deadline == b.effective_deadline && a.insertion_id < b.insertion_id
            ==> served_before(a, b),
        served_before(a, b) ==> !served_before(b, a),
        served_before(a, b) && served_before(b, c) ==> served_before(a, c),
        a.insertion_id != b.insertion_id ==> served_before(a, b) || served_before(b, a),
{
}

} // verus!
