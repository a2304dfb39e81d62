//! Plans: subtasks with dependencies, and the order in which they can run.

pub mod escalation;
pub mod executor;
pub mod hops;
pub mod placeholders;
pub mod planner;
pub mod role;
pub mod role_files;

use crate::json::{Json, JsonView};
use crate::table::Table;
use crate::text::{
    contains_text, copy_texts, has_text, join, joined, lemma_text_le_total, lemma_text_le_transitive, same,
    text_le, text_leq, views,
};
use crate::text_laws::{law_four_parts, law_text_holds_its_parts};
use crate::types::{AgentId, TaskTtl};
use vstd::prelude::*;
use vstd::string::*;

verus! {

/// One unit of work, to be carried out by an agent in a role.
#[derive(Debug, PartialEq, Eq)]
pub struct Subtask {
    pub id: String,
    pub role: String,
    pub params: Json,
    pub depends_on: Vec<String>,
    /// Bounds on the subtask; none where the planner set none.
    pub ttl: Option<TaskTtl>,
    /// Which rung of the role's model ladder the subtask runs on.
    pub current_model_tier: u8,
}

/// What a subtask holds.
pub struct SubtaskView {
    pub id: Seq<char>,
    pub role: Seq<char>,
    pub params: JsonView,
    pub depends_on: Seq<Seq<char>>,
    pub ttl: Option<TaskTtl>,
    pub current_model_tier: u8,
}

impl View for Subtask {
    type V = SubtaskView;

    open spec fn view(&self) -> SubtaskView {
        SubtaskView {
            id: self.id@,
            role: self.role@,
            params: self.params@,
            depends_on: views(self.depends_on@),
            ttl: self.ttl,
            current_model_tier: self.current_model_tier,
        }
    }
}

/// The subtasks that reach a goal, and where the result will stand.
#[derive(Debug, PartialEq, Eq)]
pub struct Plan {
    pub subtasks: Vec<Subtask>,
    pub final_output: String,
}

/// What a list of subtasks holds.
pub open spec fn tasks_view(s: Seq<Subtask>) -> Seq<SubtaskView> {
    s.map_values(|t: Subtask| t@)
}

/// What a list of batches holds.
pub open spec fn batches_view(s: Seq<Vec<Subtask>>) -> Seq<Seq<SubtaskView>> {
    s.map_values(|b: Vec<Subtask>| tasks_view(b@))
}

/// What a finished subtask returned.
#[derive(Debug)]
pub struct SubtaskResult {
    pub subtask_id: String,
    pub agent_id: AgentId,
    pub response: String,
    pub input_tokens: u64,
    pub output_tokens: u64,
}

/// What a finished plan returned.
#[derive(Debug)]
pub struct PlanResult {
    pub plan: Plan,
    pub results: Table<SubtaskResult>,
    pub final_output: String,
}

impl Subtask {
    /// A copy of the subtask.
    pub fn copy(&self) -> (r: Subtask)
        ensures
            r@ == self@,
    {
        Subtask {
            id: self.id.clone(),
            role: self.role.clone(),
            params: self.params.copy(),
            depends_on: copy_texts(&self.depends_on),
            ttl: self.ttl,
            current_model_tier: self.current_model_tier,
        }
    }
}

/// Whether some subtask has this id.
pub open spec fn has_id(tasks: Seq<SubtaskView>, id: Seq<char>) -> bool {
    exists|i: int| 0 <= i < tasks.len() && (#[trigger] tasks[i]).id == id
}

/// Whether `i` is the subtask that its id stands for: of several with the
/// same id, the last.
pub open spec fn stands(tasks: Seq<SubtaskView>, i: int) -> bool {
    &&& 0 <= i < tasks.len()
    &&& forall|j: int| i < j < tasks.len() ==> (#[trigger] tasks[j]).id != tasks[i].id
}

/// Whether the `j`-th dependency of subtask `i` names no subtask.
pub open spec fn unknown_at(tasks: Seq<SubtaskView>, i: int, j: int) -> bool {
    &&& 0 <= i < tasks.len()
    &&& 0 <= j < tasks[i].depends_on.len()
    &&& !has_id(tasks, tasks[i].depends_on[j])
}

/// Whether every dependency names a subtask.
pub open spec fn all_known(tasks: Seq<SubtaskView>) -> bool {
    forall|i: int, j: int| !unknown_at(tasks, i, j)
}

/// Whether (`i`, `j`) is the first dependency that names no subtask.
pub open spec fn first_unknown(tasks: Seq<SubtaskView>, i: int, j: int) -> bool {
    &&& unknown_at(tasks, i, j)
    &&& forall|a: int, b: int| (a < i || (a == i && b < j)) ==> !unknown_at(tasks, a, b)
}

/// Whether all that `t` depends on is done.
pub open spec fn unblocked(t: SubtaskView, done: Set<Seq<char>>) -> bool {
    forall|j: int| 0 <= j < t.depends_on.len() ==> done.contains(#[trigger] t.depends_on[j])
}

/// Whether subtask `i` can run next: it is not done, and all it depends on is.
pub open spec fn ready(tasks: Seq<SubtaskView>, i: int, done: Set<Seq<char>>) -> bool {
    stands(tasks, i) && !done.contains(tasks[i].id) && unblocked(tasks[i], done)
}

/// The ids that are done after `k` rounds, where each round runs all that is ready.
pub open spec fn done_after(tasks: Seq<SubtaskView>, k: nat) -> Set<Seq<char>>
    decreases k,
{
    if k == 0 {
        Set::empty()
    } else {
        let before = done_after(tasks, (k - 1) as nat);
        Set::new(
            |id: Seq<char>|
                before.contains(id) || exists|i: int|
                    #[trigger] ready(tasks, i, before) && tasks[i].id == id,
        )
    }
}

/// The ids in `batch` ascend.
pub open spec fn ascending(batch: Seq<SubtaskView>) -> bool {
    forall|a: int, b: int|
        0 <= a < b < batch.len() ==> text_le((#[trigger] batch[a]).id, (#[trigger] batch[b]).id)
            && batch[a].id != batch[b].id
}

/// Whether `t` is a subtask that can run next.
pub open spec fn is_ready(tasks: Seq<SubtaskView>, done: Set<Seq<char>>, t: SubtaskView) -> bool {
    exists|i: int| #[trigger] ready(tasks, i, done) && tasks[i] == t
}

/// `batch` holds exactly what is ready once `done` is done, by ascending id.
pub open spec fn is_batch(
    tasks: Seq<SubtaskView>,
    done: Set<Seq<char>>,
    batch: Seq<SubtaskView>,
) -> bool {
    &&& batch.len() > 0
    &&& ascending(batch)
    &&& forall|a: int| 0 <= a < batch.len() ==> is_ready(tasks, done, #[trigger] batch[a])
    &&& forall|i: int| #[trigger]
        ready(tasks, i, done) ==> exists|a: int| 0 <= a < batch.len() && #[trigger] batch[a] == tasks[i]
}

/// `batches` is the order of execution: batch `k` holds what is ready after
/// `k` rounds, and after the last everything is done.
pub open spec fn is_schedule(tasks: Seq<SubtaskView>, batches: Seq<Seq<SubtaskView>>) -> bool {
    &&& forall|k: int|
        0 <= k < batches.len() ==> is_batch(tasks, done_after(tasks, k as nat), #[trigger] batches[k])
    &&& forall|i: int|
        0 <= i < tasks.len() ==> done_after(tasks, batches.len()).contains((#[trigger] tasks[i]).id)
}

/// The ids of the subtasks that are not done, in the order of the plan.
pub open spec fn left_over(tasks: Seq<SubtaskView>, done: Set<Seq<char>>, n: int) -> Seq<Seq<char>>
    decreases n,
{
    if n <= 0 {
        Seq::empty()
    } else if stands(tasks, n - 1) && !done.contains(tasks[n - 1].id) {
        left_over(tasks, done, n - 1).push(tasks[n - 1].id)
    } else {
        left_over(tasks, done, n - 1)
    }
}

/// Something is not done, and nothing is ready.
pub open spec fn stuck(tasks: Seq<SubtaskView>, done: Set<Seq<char>>) -> bool {
    &&& exists|i: int| 0 <= i < tasks.len() && !done.contains((#[trigger] tasks[i]).id)
    &&& forall|i: int| !#[trigger] ready(tasks, i, done)
}

/// Round after round there is something to run, until all is done.
pub open spec fn never_stuck(tasks: Seq<SubtaskView>) -> bool {
    forall|k: nat| !stuck(tasks, #[trigger] done_after(tasks, k))
}

/// The message for a dependency that names no subtask.
pub open spec fn unknown_message(id: Seq<char>, dep: Seq<char>) -> Seq<char> {
    "subtask '"@ + id + "' depends on unknown id '"@ + dep + "'"@
}

/// The same message.
pub fn unknown_text(id: &str, dep: &str) -> (r: String)
    ensures
        r@ == unknown_message(id@, dep@),
{
    let mut m = "subtask '".to_owned();
    m.append(id);
    m.append("' depends on unknown id '");
    m.append(dep);
    m.append("'");
    m
}

/// Whether one of the subtasks has this id.
pub fn find_id(tasks: &Vec<Subtask>, id: &str) -> (r: bool)
    ensures
        r == has_id(tasks_view(tasks@), id@),
{
    let mut i: usize = 0;
    while i < tasks.len()
        invariant
            0 <= i <= tasks@.len(),
            forall|k: int| 0 <= k < i ==> (#[trigger] tasks_view(tasks@)[k]).id != id@,
        decreases tasks@.len() - i,
    {
        assert(tasks_view(tasks@)[i as int].id == tasks@[i as int].id@);
        if same(tasks[i].id.as_str(), id) {
            return true;
        }
        i += 1;
    }
    false
}

/// The first dependency that names no subtask, as the position of the subtask
/// and of the dependency in it.
pub fn find_unknown(tasks: &Vec<Subtask>) -> (r: Option<(usize, usize)>)
    ensures
        match r {
            Some((i, j)) => first_unknown(tasks_view(tasks@), i as int, j as int) && i < tasks@.len()
                && j < tasks@[i as int].depends_on@.len(),
            None => all_known(tasks_view(tasks@)),
        },
{
    let ghost all = tasks_view(tasks@);
    let mut i: usize = 0;
    while i < tasks.len()
        invariant
            all == tasks_view(tasks@),
            0 <= i <= tasks@.len(),
            forall|a: int, b: int| a < i ==> !unknown_at(all, a, b),
        decreases tasks@.len() - i,
    {
        let mut j: usize = 0;
        assert(all[i as int] == tasks@[i as int]@);
        while j < tasks[i].depends_on.len()
            invariant
                all == tasks_view(tasks@),
                0 <= i < tasks@.len(),
                all[i as int] == tasks@[i as int]@,
                0 <= j <= tasks@[i as int].depends_on@.len(),
                forall|a: int, b: int| a < i || (a == i && b < j) ==> !unknown_at(all, a, b),
            decreases tasks@[i as int].depends_on@.len() - j,
        {
            if !find_id(tasks, tasks[i].depends_on[j].as_str()) {
                assert(unknown_at(all, i as int, j as int));
                return Some((i, j));
            }
            j += 1;
        }
        i += 1;
    }
    None
}

/// Whether subtask `i` is the one that its id stands for.
fn is_standing(tasks: &Vec<Subtask>, i: usize) -> (r: bool)
    requires
        i < tasks@.len(),
    ensures
        r == stands(tasks_view(tasks@), i as int),
{
    let ghost all = tasks_view(tasks@);
    assert(all[i as int].id == tasks@[i as int].id@);
    assert(i < tasks.len());
    let mut j: usize = i + 1;
    while j < tasks.len()
        invariant
            all == tasks_view(tasks@),
            all[i as int].id == tasks@[i as int].id@,
            i < j <= tasks@.len(),
            forall|k: int| i < k < j ==> (#[trigger] all[k]).id != all[i as int].id,
        decreases tasks@.len() - j,
    {
        assert(all[j as int].id == tasks@[j as int].id@);
        if same(tasks[j].id.as_str(), tasks[i].id.as_str()) {
            return false;
        }
        j += 1;
    }
    true
}

/// The set of texts in a list.
pub open spec fn text_set(v: Seq<String>) -> Set<Seq<char>> {
    Set::new(|t: Seq<char>| views(v).contains(t))
}

/// Whether all that a subtask depends on is done.
fn is_unblocked(t: &Subtask, done: &Vec<String>) -> (r: bool)
    ensures
        r == unblocked(t@, text_set(done@)),
{
    let mut j: usize = 0;
    while j < t.depends_on.len()
        invariant
            0 <= j <= t.depends_on@.len(),
            forall|k: int| 0 <= k < j ==> text_set(done@).contains(#[trigger] t@.depends_on[k]),
        decreases t.depends_on@.len() - j,
    {
        assert(t@.depends_on[j as int] == t.depends_on@[j as int]@);
        if !has_text(done, t.depends_on[j].as_str()) {
            return false;
        }
        j += 1;
    }
    true
}

/// The ids of the subtasks at these positions ascend.
spec fn ids_ascend(tasks: Seq<SubtaskView>, at: Seq<usize>) -> bool {
    &&& forall|a: int| 0 <= a < at.len() ==> (#[trigger] at[a]) < tasks.len()
    &&& forall|a: int, b: int|
        0 <= a < b < at.len() ==> text_le(
            tasks[(#[trigger] at[a]) as int].id,
            tasks[(#[trigger] at[b]) as int].id,
        )
}

/// Puts a position where its subtask's id belongs.
fn insert_by_id(tasks: &Vec<Subtask>, at: &mut Vec<usize>, i: usize)
    requires
        i < tasks@.len(),
        ids_ascend(tasks_view(tasks@), old(at)@),
    ensures
        ids_ascend(tasks_view(tasks@), final(at)@),
        exists|p: int| 0 <= p <= old(at)@.len() && final(at)@ == #[trigger] old(at)@.insert(p, i),
{
    let ghost all = tasks_view(tasks@);
    let ghost before = at@;
    let mut p: usize = 0;
    while p < at.len() && text_leq(tasks[at[p]].id.as_str(), tasks[i].id.as_str())
        invariant
            all == tasks_view(tasks@),
            at@ == before,
            i < tasks@.len(),
            ids_ascend(all, at@),
            0 <= p <= at@.len(),
            forall|a: int| 0 <= a < p ==> text_le(all[(#[trigger] at@[a]) as int].id, all[i as int].id),
        decreases at@.len() - p,
    {
        p += 1;
    }
    proof {
        if p < before.len() {
            lemma_text_le_total(all[i as int].id, all[before[p as int] as int].id);
        }
        assert forall|b: int| p <= b < before.len() implies text_le(
            all[i as int].id,
            all[(#[trigger] before[b]) as int].id,
        ) by {
            if b > p {
                lemma_text_le_transitive(
                    all[i as int].id,
                    all[before[p as int] as int].id,
                    all[before[b] as int].id,
                );
            }
        }
    }
    at.insert(p, i);
    assert(at@ == before.insert(p as int, i));
}

/// The ids of the subtasks that are not done.
fn list_left_over(tasks: &Vec<Subtask>, done: &Vec<String>) -> (r: Vec<String>)
    ensures
        views(r@) == left_over(tasks_view(tasks@), text_set(done@), tasks@.len() as int),
{
    let ghost all = tasks_view(tasks@);
    let mut out: Vec<String> = Vec::new();
    let mut i: usize = 0;
    assert(views(out@) =~= Seq::<Seq<char>>::empty());
    while i < tasks.len()
        invariant
            all == tasks_view(tasks@),
            0 <= i <= tasks@.len(),
            views(out@) == left_over(all, text_set(done@), i as int),
        decreases tasks@.len() - i,
    {
        let ghost before = views(out@);
        assert(all[i as int].id == tasks@[i as int].id@);
        if is_standing(tasks, i) && !has_text(done, tasks[i].id.as_str()) {
            out.push(tasks[i].id.clone());
            assert(views(out@) =~= before.push(all[i as int].id));
        }
        i += 1;
    }
    out
}

/// `at` holds, once each, the positions of the subtasks that are not done.
spec fn pending(tasks: Seq<SubtaskView>, done: Set<Seq<char>>, at: Seq<usize>) -> bool {
    &&& at.no_duplicates()
    &&& forall|a: int|
        0 <= a < at.len() ==> stands(tasks, (#[trigger] at[a]) as int) && !done.contains(
            tasks[at[a] as int].id,
        )
    &&& forall|i: int|
        #![trigger tasks[i]]
        stands(tasks, i) && !done.contains(tasks[i].id) ==> at.contains(i as usize)
}

proof fn lemma_inserted(s: Seq<usize>, p: int, x: usize)
    requires
        0 <= p <= s.len(),
        s.no_duplicates(),
        !s.contains(x),
    ensures
        s.insert(p, x).no_duplicates(),
        forall|y: usize| #[trigger] s.insert(p, x).contains(y) == (y == x || s.contains(y)),
{
    let t = s.insert(p, x);
    assert(t[p] == x);
    assert forall|y: usize| #[trigger] t.contains(y) == (y == x || s.contains(y)) by {
        if s.contains(y) {
            let k = s.index_of(y);
            if k < p {
                assert(t[k] == y);
            } else {
                assert(t[k + 1] == y);
            }
        }
        if t.contains(y) && y != x {
            let k = t.index_of(y);
            if k < p {
                assert(s[k] == y);
            } else {
                assert(s[k - 1] == y);
            }
        }
    }
    assert forall|a: int, b: int| 0 <= a < t.len() && 0 <= b < t.len() && a != b implies t[a]
        != t[b] by {
        let a1 = if a < p { a } else { a - 1 };
        let b1 = if b < p { b } else { b - 1 };
        if a != p && b != p {
            assert(s[a1] == t[a] && s[b1] == t[b]);
        } else if a == p {
            assert(s[b1] == t[b]);
        } else {
            assert(s[a1] == t[a]);
        }
    }
}

/// Of the subtasks with some id, one stands for it.
proof fn lemma_some_stands(tasks: Seq<SubtaskView>, i: int)
    requires
        0 <= i < tasks.len(),
    ensures
        exists|j: int| stands(tasks, j) && (#[trigger] tasks[j]).id == tasks[i].id,
    decreases tasks.len() - i,
{
    if stands(tasks, i) {
        assert(tasks[i].id == tasks[i].id);
    } else {
        let j = choose|j: int| i < j < tasks.len() && (#[trigger] tasks[j]).id == tasks[i].id;
        lemma_some_stands(tasks, j);
    }
}

/// `now` and `later` split the pending positions by whether they are ready.
spec fn split_by_ready(
    tasks: Seq<SubtaskView>,
    d: Set<Seq<char>>,
    open: Seq<usize>,
    now: Seq<usize>,
    later: Seq<usize>,
) -> bool {
    &&& ids_ascend(tasks, now)
    &&& now.no_duplicates()
    &&& later.no_duplicates()
    &&& forall|b: int|
        0 <= b < now.len() ==> open.contains(#[trigger] now[b]) && unblocked(
            tasks[now[b] as int],
            d,
        )
    &&& forall|b: int|
        0 <= b < later.len() ==> open.contains(#[trigger] later[b]) && !unblocked(
            tasks[later[b] as int],
            d,
        )
    &&& forall|b: int|
        0 <= b < open.len() ==> now.contains(#[trigger] open[b]) || later.contains(open[b])
}

proof fn lemma_now_ready(
    tasks: Seq<SubtaskView>,
    d: Set<Seq<char>>,
    open: Seq<usize>,
    now: Seq<usize>,
    later: Seq<usize>,
)
    requires
        tasks.len() <= usize::MAX,
        pending(tasks, d, open),
        split_by_ready(tasks, d, open, now, later),
    ensures
        forall|c: int| 0 <= c < now.len() ==> ready(tasks, (#[trigger] now[c]) as int, d),
        forall|i: int| #[trigger] ready(tasks, i, d) ==> now.contains(i as usize),
{
    assert forall|c: int| 0 <= c < now.len() implies ready(tasks, (#[trigger] now[c]) as int, d) by {
        let k = open.index_of(now[c]);
        assert(open[k] == now[c]);
    }
    assert forall|i: int| #[trigger] ready(tasks, i, d) implies now.contains(i as usize) by {
        assert(tasks[i] == tasks[i]);
        let k = open.index_of(i as usize);
        assert(now.contains(open[k]) || later.contains(open[k]));
        if later.contains(i as usize) {
            let b = later.index_of(i as usize);
            assert(!unblocked(tasks[later[b] as int], d));
        }
    }
}

proof fn lemma_now_batch(
    tasks: Seq<SubtaskView>,
    d: Set<Seq<char>>,
    now: Seq<usize>,
    batch: Seq<Subtask>,
)
    requires
        tasks.len() <= usize::MAX,
        now.len() > 0,
        ids_ascend(tasks, now),
        now.no_duplicates(),
        forall|c: int| 0 <= c < now.len() ==> ready(tasks, (#[trigger] now[c]) as int, d),
        forall|i: int| #[trigger] ready(tasks, i, d) ==> now.contains(i as usize),
        batch.len() == now.len(),
        forall|c: int| 0 <= c < now.len() ==> (#[trigger] batch[c])@ == tasks[now[c] as int],
    ensures
        is_batch(tasks, d, tasks_view(batch)),
{
    let bv = tasks_view(batch);
    assert forall|c: int| 0 <= c < now.len() implies #[trigger] bv[c] == tasks[now[c] as int] by {
        assert(bv[c] == batch[c]@);
    }
    assert forall|a: int, b: int| 0 <= a < b < bv.len() implies text_le(
        (#[trigger] bv[a]).id,
        (#[trigger] bv[b]).id,
    ) && bv[a].id != bv[b].id by {
        assert(ready(tasks, now[a] as int, d) && ready(tasks, now[b] as int, d));
        assert(now[a] != now[b]);
    }
    assert forall|a: int| 0 <= a < bv.len() implies is_ready(tasks, d, #[trigger] bv[a]) by {
        assert(ready(tasks, now[a] as int, d));
    }
    assert forall|i: int| #[trigger] ready(tasks, i, d) implies exists|a: int|
        0 <= a < bv.len() && #[trigger] bv[a] == tasks[i] by {
        let a = now.index_of(i as usize);
        assert(now[a] == i as usize);
        assert(bv[a] == tasks[now[a] as int]);
    }
}

proof fn lemma_now_done(
    tasks: Seq<SubtaskView>,
    d: Set<Seq<char>>,
    now: Seq<usize>,
    done0: Seq<String>,
    done1: Seq<String>,
)
    requires
        tasks.len() <= usize::MAX,
        d == text_set(done0),
        forall|c: int| 0 <= c < now.len() ==> ready(tasks, (#[trigger] now[c]) as int, d),
        forall|i: int| #[trigger] ready(tasks, i, d) ==> now.contains(i as usize),
        views(done1).len() == done0.len() + now.len(),
        forall|c: int| 0 <= c < done0.len() ==> #[trigger] views(done1)[c] == views(done0)[c],
        forall|c: int|
            0 <= c < now.len() ==> #[trigger] views(done1)[done0.len() + c] == tasks[now[c] as int].id,
    ensures
        forall|id: Seq<char>| #[trigger]
            text_set(done1).contains(id) == (d.contains(id) || exists|i: int| #[trigger]
                ready(tasks, i, d) && tasks[i].id == id),
{
    assert forall|id: Seq<char>| #[trigger]
        text_set(done1).contains(id) == (d.contains(id) || exists|i: int| #[trigger]
            ready(tasks, i, d) && tasks[i].id == id) by {
        if text_set(done1).contains(id) {
            let k = views(done1).index_of(id);
            if k < done0.len() {
                assert(views(done0)[k] == id);
            } else {
                assert(views(done1)[done0.len() + (k - done0.len())] == id);
                assert(ready(tasks, now[k - done0.len()] as int, d));
            }
        }
        if d.contains(id) {
            let k = views(done0).index_of(id);
            assert(views(done1)[k] == id);
        }
        if exists|i: int| #[trigger] ready(tasks, i, d) && tasks[i].id == id {
            let i = choose|i: int| #[trigger] ready(tasks, i, d) && tasks[i].id == id;
            let a = now.index_of(i as usize);
            assert(views(done1)[done0.len() + a] == id);
        }
    }
}

proof fn lemma_later_pending(
    tasks: Seq<SubtaskView>,
    d: Set<Seq<char>>,
    e: Set<Seq<char>>,
    open: Seq<usize>,
    now: Seq<usize>,
    later: Seq<usize>,
)
    requires
        tasks.len() <= usize::MAX,
        pending(tasks, d, open),
        split_by_ready(tasks, d, open, now, later),
        forall|id: Seq<char>| #[trigger]
            e.contains(id) == (d.contains(id) || exists|i: int| #[trigger]
                ready(tasks, i, d) && tasks[i].id == id),
    ensures
        pending(tasks, e, later),
{
    lemma_now_ready(tasks, d, open, now, later);
    assert forall|a: int| 0 <= a < later.len() implies stands(tasks, (#[trigger] later[a]) as int)
        && !e.contains(tasks[later[a] as int].id) by {
        let k = open.index_of(later[a]);
        assert(open[k] == later[a]);
        let id = tasks[later[a] as int].id;
        if e.contains(id) {
            let i = choose|i: int| #[trigger] ready(tasks, i, d) && tasks[i].id == id;
            assert(i == later[a] as int);
        }
    }
    assert forall|i: int|
        #![trigger tasks[i]]
        stands(tasks, i) && !e.contains(tasks[i].id) implies later.contains(i as usize) by {
        let k = open.index_of(i as usize);
        assert(open.contains(i as usize));
        assert(now.contains(open[k]) || later.contains(open[k]));
        if now.contains(i as usize) {
            let c = now.index_of(i as usize);
            assert(ready(tasks, now[c] as int, d));
        }
    }
}

/// Groups the subtasks of a plan into batches. Each batch holds the subtasks
/// whose dependencies all stand in earlier batches, so those of one batch can
/// run at the same time.
pub fn topo_batches(plan: &Plan) -> (r: Result<Vec<Vec<Subtask>>, String>)
    ensures
        match r {
            Ok(b) => all_known(tasks_view(plan.subtasks@)) && is_schedule(
                tasks_view(plan.subtasks@),
                batches_view(b@),
            ),
            Err(m) => {
                let tasks = tasks_view(plan.subtasks@);
                ||| exists|i: int, j: int| #[trigger]
                    first_unknown(tasks, i, j) && m@ == unknown_message(
                        tasks[i].id,
                        tasks[i].depends_on[j],
                    )
                ||| all_known(tasks) && exists|k: nat|
                    #![trigger done_after(tasks, k)]
                    stuck(tasks, done_after(tasks, k)) && m@ == "dependency cycle among: "@
                        + joined(left_over(tasks, done_after(tasks, k), tasks.len() as int), ", "@)
            },
        },
{
    let tasks = &plan.subtasks;
    let ghost all = tasks_view(tasks@);
    if let Some((i, j)) = find_unknown(tasks) {
        assert(all[i as int] == tasks@[i as int]@);
        return Err(unknown_text(tasks[i].id.as_str(), tasks[i].depends_on[j].as_str()));
    }
    let mut open: Vec<usize> = Vec::new();
    let mut i: usize = 0;
    while i < tasks.len()
        invariant
            all == tasks_view(tasks@),
            0 <= i <= tasks@.len(),
            open@.no_duplicates(),
            forall|a: int|
                0 <= a < open@.len() ==> (#[trigger] open@[a]) < i && stands(all, open@[a] as int),
            forall|k: int|
                #![trigger all[k]]
                0 <= k < i && stands(all, k) ==> open@.contains(k as usize),
        decreases tasks@.len() - i,
    {
        let ghost before = open@;
        if is_standing(tasks, i) {
            open.push(i);
            assert(open@[before.len() as int] == i);
            assert forall|k: int| #![trigger all[k]] 0 <= k < i + 1 && stands(all, k) implies open@.contains(
                k as usize,
            ) by {
                if k < i {
                    let a = before.index_of(k as usize);
                    assert(open@[a] == k as usize);
                }
            }
        }
        i += 1;
    }
    let mut done: Vec<String> = Vec::new();
    let mut batches: Vec<Vec<Subtask>> = Vec::new();
    assert(text_set(done@) =~= done_after(all, 0));
    assert(all.len() == tasks.len());
    while open.len() > 0
        invariant
            all == tasks_view(tasks@),
            tasks == plan.subtasks,
            all.len() <= usize::MAX,
            all_known(all),
            text_set(done@) == done_after(all, batches@.len()),
            pending(all, text_set(done@), open@),
            forall|k: int|
                0 <= k < batches@.len() ==> is_batch(
                    all,
                    done_after(all, k as nat),
                    #[trigger] batches_view(batches@)[k],
                ),
        decreases open@.len(),
    {
        let ghost d = text_set(done@);
        let mut now: Vec<usize> = Vec::new();
        let mut later: Vec<usize> = Vec::new();
        let mut a: usize = 0;
        while a < open.len()
            invariant
                all == tasks_view(tasks@),
                d == text_set(done@),
                pending(all, d, open@),
                0 <= a <= open@.len(),
                now@.len() + later@.len() == a,
                ids_ascend(all, now@),
                now@.no_duplicates(),
                later@.no_duplicates(),
                forall|b: int|
                    0 <= b < now@.len() ==> open@.take(a as int).contains(#[trigger] now@[b]) && unblocked(
                        all[now@[b] as int],
                        d,
                    ),
                forall|b: int|
                    0 <= b < later@.len() ==> open@.take(a as int).contains(#[trigger] later@[b])
                        && !unblocked(all[later@[b] as int], d),
                forall|b: int|
                    0 <= b < a ==> now@.contains(#[trigger] open@[b]) || later@.contains(open@[b]),
            decreases open@.len() - a,
        {
            let i = open[a];
            let ghost now0 = now@;
            let ghost later0 = later@;
            assert(stands(all, i as int));
            assert(all[i as int] == tasks@[i as int]@);
            assert(!open@.take(a as int).contains(i));
            assert forall|x: usize| open@.take(a as int).contains(x) implies open@.take(
                a + 1,
            ).contains(x) by {
                let k = open@.take(a as int).index_of(x);
                assert(open@.take(a + 1)[k] == x);
            }
            assert(open@.take(a + 1)[a as int] == i);
            if is_unblocked(&tasks[i], &done) {
                insert_by_id(tasks, &mut now, i);
                proof {
                    let p = choose|p: int|
                        0 <= p <= now0.len() && now@ == #[trigger] now0.insert(p, i);
                    lemma_inserted(now0, p, i);
                }
            } else {
                later.push(i);
                assert(later@[later0.len() as int] == i);
                assert forall|x: usize| later0.contains(x) implies later@.contains(x) by {
                    let k = later0.index_of(x);
                    assert(later@[k] == x);
                }
            }
            a += 1;
        }
        assert(open@.take(a as int) =~= open@);
        if now.len() == 0 {
            let names = list_left_over(tasks, &done);
            let mut m = "dependency cycle among: ".to_owned();
            let list = join(&names, ", ");
            m.append(list.as_str());
            proof {
                assert forall|i: int| !#[trigger] ready(all, i, d) by {
                    if ready(all, i, d) {
                        assert(all[i] == all[i]);
                        let b = open@.index_of(i as usize);
                        assert(now@.contains(open@[b]) || later@.contains(open@[b]));
                        let c = later@.index_of(i as usize);
                        assert(!unblocked(all[later@[c] as int], d));
                    }
                }
                assert(stands(all, open@[0] as int));
                assert(!d.contains(all[open@[0] as int].id));
                assert(stuck(all, d));
                assert(stuck(all, done_after(all, batches@.len())));
            }
            return Err(m);
        }
        let mut batch: Vec<Subtask> = Vec::new();
        let ghost done0 = done@;
        let mut b: usize = 0;
        while b < now.len()
            invariant
                all == tasks_view(tasks@),
                0 <= b <= now@.len(),
                forall|c: int| 0 <= c < now@.len() ==> (#[trigger] now@[c]) < tasks@.len(),
                batch@.len() == b,
                forall|c: int| 0 <= c < b ==> (#[trigger] batch@[c])@ == all[now@[c] as int],
                views(done@).len() == done0.len() + b,
                forall|c: int| 0 <= c < done0.len() ==> #[trigger] views(done@)[c] == views(done0)[c],
                forall|c: int|
                    0 <= c < b ==> #[trigger] views(done@)[done0.len() + c] == all[now@[c] as int].id,
            decreases now@.len() - b,
        {
            let t = &tasks[now[b]];
            assert(all[now@[b as int] as int] == t@);
            let ghost done1 = done@;
            batch.push(t.copy());
            done.push(t.id.clone());
            assert(views(done@) =~= views(done1).push(t.id@));
            b += 1;
        }
        proof {
            lemma_now_ready(all, d, open@, now@, later@);
            lemma_now_batch(all, d, now@, batch@);
            lemma_now_done(all, d, now@, done0, done@);
            lemma_later_pending(all, d, text_set(done@), open@, now@, later@);
            assert(text_set(done@) =~= done_after(all, (batches@.len() + 1) as nat)) by {
                assert forall|id: Seq<char>| text_set(done@).contains(id) == done_after(
                    all,
                    (batches@.len() + 1) as nat,
                ).contains(id) by {}
            }
        }
        let ghost batches0 = batches@;
        batches.push(batch);
        assert(batches_view(batches@) =~= batches_view(batches0).push(tasks_view(batch@)));
        open = later;
    }
    proof {
        assert forall|i: int| 0 <= i < all.len() implies done_after(
            all,
            batches@.len(),
        ).contains((#[trigger] all[i]).id) by {
            lemma_some_stands(all, i);
            let j = choose|j: int| stands(all, j) && (#[trigger] all[j]).id == all[i].id;
            assert(all[j] == all[j]);
        }
        assert(batches_view(batches@).len() == batches@.len());
    }
    Ok(batches)
}

/// Whether the subtask with this id stands in one of the first `n` batches.
pub open spec fn placed(batches: Seq<Seq<SubtaskView>>, n: int, id: Seq<char>) -> bool {
    exists|k: int, a: int|
        0 <= k < n && 0 <= a < batches[k].len() && (#[trigger] batches[k][a]).id == id
}

proof fn lemma_done_placed(tasks: Seq<SubtaskView>, batches: Seq<Seq<SubtaskView>>, n: nat, id: Seq<char>)
    requires
        is_schedule(tasks, batches),
        n <= batches.len(),
        done_after(tasks, n).contains(id),
    ensures
        placed(batches, n as int, id),
    decreases n,
{
    if n > 0 {
        let before = done_after(tasks, (n - 1) as nat);
        if before.contains(id) {
            lemma_done_placed(tasks, batches, (n - 1) as nat, id);
            let (k, a) = choose|k: int, a: int|
                0 <= k < n - 1 && 0 <= a < batches[k].len() && (#[trigger] batches[k][a]).id == id;
            assert(batches[k][a].id == id);
        } else {
            let i = choose|i: int| #[trigger] ready(tasks, i, before) && tasks[i].id == id;
            let batch = batches[n - 1];
            assert(is_batch(tasks, before, batch));
            let a = choose|a: int| 0 <= a < batch.len() && #[trigger] batch[a] == tasks[i];
            assert(batches[n - 1][a].id == id);
        }
    }
}

proof fn lemma_done_grows(tasks: Seq<SubtaskView>, m: nat, n: nat, id: Seq<char>)
    requires
        m <= n,
        done_after(tasks, m).contains(id),
    ensures
        done_after(tasks, n).contains(id),
    decreases n,
{
    if m < n {
        lemma_done_grows(tasks, m, (n - 1) as nat, id);
    }
}

/// A plan that has a schedule never gets stuck.
pub proof fn lemma_schedule_never_stuck(tasks: Seq<SubtaskView>, batches: Seq<Seq<SubtaskView>>)
    requires
        is_schedule(tasks, batches),
    ensures
        never_stuck(tasks),
{
    assert forall|k: nat| !stuck(tasks, #[trigger] done_after(tasks, k)) by {
        let done = done_after(tasks, k);
        if k < batches.len() {
            assert(is_batch(tasks, done, batches[k as int]));
            assert(is_ready(tasks, done, batches[k as int][0]));
        } else {
            assert forall|i: int| 0 <= i < tasks.len() implies done.contains(
                (#[trigger] tasks[i]).id,
            ) by {
                lemma_done_grows(tasks, batches.len(), k, tasks[i].id);
            }
        }
    }
}

/// In a schedule, what a subtask depends on stands in an earlier batch.
pub proof fn law_dependencies_run_first(
    tasks: Seq<SubtaskView>,
    batches: Seq<Seq<SubtaskView>>,
    k: int,
    a: int,
    j: int,
)
    requires
        is_schedule(tasks, batches),
        0 <= k < batches.len(),
        0 <= a < batches[k].len(),
        0 <= j < batches[k][a].depends_on.len(),
    ensures
        placed(batches, k, batches[k][a].depends_on[j]),
{
    let d = done_after(tasks, k as nat);
    assert(is_batch(tasks, d, batches[k]));
    assert(is_ready(tasks, d, batches[k][a]));
    lemma_done_placed(tasks, batches, k as nat, batches[k][a].depends_on[j]);
}

/// In a schedule, every subtask of the plan stands in some batch.
pub proof fn law_every_subtask_runs(
    tasks: Seq<SubtaskView>,
    batches: Seq<Seq<SubtaskView>>,
    i: int,
)
    requires
        is_schedule(tasks, batches),
        0 <= i < tasks.len(),
    ensures
        placed(batches, batches.len() as int, tasks[i].id),
{
    lemma_done_placed(tasks, batches, batches.len(), tasks[i].id);
}

/// In a schedule, no id stands in two places.
pub proof fn law_no_subtask_runs_twice(
    tasks: Seq<SubtaskView>,
    batches: Seq<Seq<SubtaskView>>,
    k: int,
    a: int,
    l: int,
    b: int,
)
    requires
        is_schedule(tasks, batches),
        0 <= k < batches.len(),
        0 <= a < batches[k].len(),
        0 <= l < batches.len(),
        0 <= b < batches[l].len(),
        batches[k][a].id == batches[l][b].id,
    ensures
        k == l && a == b,
{
    let dk = done_after(tasks, k as nat);
    let dl = done_after(tasks, l as nat);
    assert(is_batch(tasks, dk, batches[k]));
    assert(is_batch(tasks, dl, batches[l]));
    assert(is_ready(tasks, dk, batches[k][a]));
    assert(is_ready(tasks, dl, batches[l][b]));
    let id = batches[k][a].id;
    if k < l {
        let i = choose|i: int| #[trigger] ready(tasks, i, dk) && tasks[i] == batches[k][a];
        assert(done_after(tasks, (k + 1) as nat).contains(id));
        lemma_done_grows(tasks, (k + 1) as nat, l as nat, id);
    } else if l < k {
        let i = choose|i: int| #[trigger] ready(tasks, i, dl) && tasks[i] == batches[l][b];
        assert(done_after(tasks, (l + 1) as nat).contains(id));
        lemma_done_grows(tasks, (l + 1) as nat, k as nat, id);
    }
}

/// Where nothing is ready, every subtask that is left waits for one that is
/// left as well.
pub proof fn law_stuck_waits_for_stuck(tasks: Seq<SubtaskView>, done: Set<Seq<char>>, i: int)
    requires
        all_known(tasks),
        stuck(tasks, done),
        stands(tasks, i),
        !done.contains(tasks[i].id),
    ensures
        exists|j: int|
            0 <= j < tasks[i].depends_on.len() && !done.contains(#[trigger] tasks[i].depends_on[j])
                && has_id(tasks, tasks[i].depends_on[j]),
{
    assert(!ready(tasks, i, done));
    let j = choose|j: int|
        0 <= j < tasks[i].depends_on.len() && !done.contains(#[trigger] tasks[i].depends_on[j]);
    assert(!unknown_at(tasks, i, j));
}

/// `rank` falls along every dependency.
pub open spec fn falls(tasks: Seq<SubtaskView>, rank: spec_fn(Seq<char>) -> nat) -> bool {
    forall|i: int, j: int|
        stands(tasks, i) && 0 <= j < tasks[i].depends_on.len() ==> rank(
            #[trigger] tasks[i].depends_on[j],
        ) < rank(tasks[i].id)
}

proof fn lemma_some_ready(
    tasks: Seq<SubtaskView>,
    done: Set<Seq<char>>,
    rank: spec_fn(Seq<char>) -> nat,
    i: int,
)
    requires
        all_known(tasks),
        falls(tasks, rank),
        stands(tasks, i),
        !done.contains(tasks[i].id),
    ensures
        exists|k: int| #[trigger] ready(tasks, k, done),
    decreases rank(tasks[i].id),
{
    if !ready(tasks, i, done) {
        let j = choose|j: int|
            0 <= j < tasks[i].depends_on.len() && !done.contains(#[trigger] tasks[i].depends_on[j]);
        assert(!unknown_at(tasks, i, j));
        let dep = tasks[i].depends_on[j];
        let m = choose|m: int| 0 <= m < tasks.len() && (#[trigger] tasks[m]).id == dep;
        lemma_some_stands(tasks, m);
        let n = choose|n: int| stands(tasks, n) && (#[trigger] tasks[n]).id == dep;
        lemma_some_ready(tasks, done, rank, n);
    }
}

/// Where the dependencies run in no circle, the rounds never get stuck.
pub proof fn law_no_circle_never_stuck(
    tasks: Seq<SubtaskView>,
    rank: spec_fn(Seq<char>) -> nat,
    done: Set<Seq<char>>,
)
    requires
        all_known(tasks),
        falls(tasks, rank),
    ensures
        !stuck(tasks, done),
{
    if exists|i: int| 0 <= i < tasks.len() && !done.contains((#[trigger] tasks[i]).id) {
        let i = choose|i: int| 0 <= i < tasks.len() && !done.contains((#[trigger] tasks[i]).id);
        lemma_some_stands(tasks, i);
        let n = choose|n: int| stands(tasks, n) && (#[trigger] tasks[n]).id == tasks[i].id;
        lemma_some_ready(tasks, done, rank, n);
    }
}

/// What is left over is every subtask of the plan that is not done, and
/// nothing else.
pub proof fn law_left_over_is_what_is_not_done(
    tasks: Seq<SubtaskView>,
    done: Set<Seq<char>>,
    id: Seq<char>,
)
    ensures
        left_over(tasks, done, tasks.len() as int).contains(id) <==> !done.contains(id) && exists|
            i: int,
        | 0 <= i < tasks.len() && (#[trigger] tasks[i]).id == id,
{
    lemma_left_over(tasks, done, tasks.len() as int, id);
    if !done.contains(id) && exists|i: int| 0 <= i < tasks.len() && (#[trigger] tasks[i]).id == id {
        let i = choose|i: int| 0 <= i < tasks.len() && (#[trigger] tasks[i]).id == id;
        lemma_some_stands(tasks, i);
    }
}

#[verifier::rlimit(40)]
proof fn lemma_left_over(tasks: Seq<SubtaskView>, done: Set<Seq<char>>, n: int, id: Seq<char>)
    requires
        0 <= n <= tasks.len(),
    ensures
        left_over(tasks, done, n).contains(id) <==> !done.contains(id) && exists|i: int|
            0 <= i < n && stands(tasks, i) && (#[trigger] tasks[i]).id == id,
    decreases n,
{
    if n > 0 {
        lemma_left_over(tasks, done, n - 1, id);
        let before = left_over(tasks, done, n - 1);
        let last = tasks[n - 1].id;
        if stands(tasks, n - 1) && !done.contains(last) {
            if before.push(last).contains(id) {
                let k = choose|k: int| 0 <= k < before.push(last).len() && before.push(last)[k] == id;
                if k < before.len() {
                    assert(before[k] == id);
                }
            }
            if before.contains(id) {
                let k = choose|k: int| 0 <= k < before.len() && before[k] == id;
                assert(before.push(last)[k] == id);
            }
            assert(before.push(last)[before.len() as int] == last);
        }
    }
}

/// Every subtask runs as soon as it can: in the batch after the last of those
/// that it waits for, at the latest.
pub proof fn law_subtask_runs_as_soon_as_it_can(
    tasks: Seq<SubtaskView>,
    batches: Seq<Seq<SubtaskView>>,
    i: int,
    k: int,
)
    requires
        is_schedule(tasks, batches),
        stands(tasks, i),
        0 <= k < batches.len(),
        forall|j: int|
            0 <= j < tasks[i].depends_on.len() ==> placed(
                batches,
                k,
                #[trigger] tasks[i].depends_on[j],
            ),
    ensures
        placed(batches, k + 1, tasks[i].id),
{
    let before = done_after(tasks, k as nat);
    assert forall|j: int| 0 <= j < tasks[i].depends_on.len() implies before.contains(
        #[trigger] tasks[i].depends_on[j],
    ) by {
        lemma_placed_done(tasks, batches, k, tasks[i].depends_on[j]);
    }
    if before.contains(tasks[i].id) {
        lemma_done_grows(tasks, k as nat, (k + 1) as nat, tasks[i].id);
    } else {
        assert(ready(tasks, i, before));
    }
    assert(done_after(tasks, (k + 1) as nat).contains(tasks[i].id));
    lemma_done_placed(tasks, batches, (k + 1) as nat, tasks[i].id);
}

proof fn lemma_placed_done(
    tasks: Seq<SubtaskView>,
    batches: Seq<Seq<SubtaskView>>,
    n: int,
    id: Seq<char>,
)
    requires
        is_schedule(tasks, batches),
        0 <= n <= batches.len(),
        placed(batches, n, id),
    ensures
        done_after(tasks, n as nat).contains(id),
{
    let (k, a) = choose|k: int, a: int|
        0 <= k < n && 0 <= a < batches[k].len() && (#[trigger] batches[k][a]).id == id;
    let d = done_after(tasks, k as nat);
    assert(is_batch(tasks, d, batches[k]));
    assert(is_ready(tasks, d, batches[k][a]));
    let i = choose|i: int| #[trigger] ready(tasks, i, d) && tasks[i] == batches[k][a];
    assert(done_after(tasks, (k + 1) as nat).contains(id));
    lemma_done_grows(tasks, (k + 1) as nat, n as nat, id);
}

/// What runs is a subtask of the plan, as the plan has it.
pub proof fn law_only_subtasks_of_the_plan_run(
    tasks: Seq<SubtaskView>,
    batches: Seq<Seq<SubtaskView>>,
    k: int,
    a: int,
)
    requires
        is_schedule(tasks, batches),
        0 <= k < batches.len(),
        0 <= a < batches[k].len(),
    ensures
        tasks.contains(batches[k][a]),
        batches[k].len() > 0,
        forall|b: int|
            a < b < batches[k].len() ==> text_le(batches[k][a].id, (#[trigger] batches[k][b]).id),
{
    let d = done_after(tasks, k as nat);
    assert(is_batch(tasks, d, batches[k]));
    assert(is_ready(tasks, d, batches[k][a]));
    let i = choose|i: int| #[trigger] ready(tasks, i, d) && tasks[i] == batches[k][a];
    assert(tasks[i] == batches[k][a]);
    assert forall|b: int| a < b < batches[k].len() implies text_le(
        batches[k][a].id,
        (#[trigger] batches[k][b]).id,
    ) by {
        let batch = batches[k];
        assert(text_le(batch[a].id, batch[b].id));
    }
}

/// What a plan is refused for names the subtask and what it waits for.
pub proof fn law_unknown_dependency_is_named(id: Seq<char>, dep: Seq<char>)
    ensures
        contains_text(unknown_message(id, dep), id),
        contains_text(unknown_message(id, dep), dep),
{
    law_four_parts("subtask '"@, id, "' depends on unknown id '"@, dep);
    let told = "subtask '"@ + id + "' depends on unknown id '"@ + dep;
    law_text_holds_its_parts(told, "'"@, id);
    law_text_holds_its_parts(told, "'"@, dep);
}

} // verus!
