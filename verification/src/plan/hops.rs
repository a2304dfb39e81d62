//! How deep a subtask stands in its plan, and what that leaves of its hops.

use crate::plan::{tasks_view, Plan, Subtask, SubtaskView};
use crate::text::same;
use crate::types::TaskTtl;
use vstd::prelude::*;

verus! {

/// The position of the last subtask with this id.
pub open spec fn position_of(tasks: Seq<SubtaskView>, id: Seq<char>) -> Option<int>
    decreases tasks.len(),
{
    if tasks.len() == 0 {
        None
    } else if tasks.last().id == id {
        Some(tasks.len() - 1)
    } else {
        position_of(tasks.drop_last(), id)
    }
}

/// One more than the deepest of the first `m` dependencies, or zero where none
/// of them is a subtask.
pub open spec fn below(
    tasks: Seq<SubtaskView>,
    depth: Seq<nat>,
    deps: Seq<Seq<char>>,
    m: int,
) -> nat
    decreases m,
{
    if m <= 0 {
        0
    } else {
        let before = below(tasks, depth, deps, m - 1);
        match position_of(tasks, deps[m - 1]) {
            Some(j) => if depth[j] + 1 > before {
                depth[j] + 1
            } else {
                before
            },
            None => before,
        }
    }
}

/// `depth` with subtask `i` put below all that it depends on.
pub open spec fn relaxed(tasks: Seq<SubtaskView>, depth: Seq<nat>, i: int) -> Seq<nat> {
    let d = below(tasks, depth, tasks[i].depends_on, tasks[i].depends_on.len() as int);
    if d > depth[i] {
        depth.update(i, d)
    } else {
        depth
    }
}

/// `depth` with the first `n` subtasks relaxed in turn.
pub open spec fn sweep(tasks: Seq<SubtaskView>, depth: Seq<nat>, n: int) -> Seq<nat>
    decreases n,
{
    if n <= 0 {
        depth
    } else {
        relaxed(tasks, sweep(tasks, depth, n - 1), n - 1)
    }
}

/// The depths after `k` sweeps over the whole plan.
pub open spec fn swept(tasks: Seq<SubtaskView>, k: nat) -> Seq<nat>
    decreases k,
{
    if k == 0 {
        Seq::new(tasks.len(), |i: int| 0nat)
    } else {
        sweep(tasks, swept(tasks, (k - 1) as nat), tasks.len() as int)
    }
}

/// The depth of each subtask: what one sweep more than there are subtasks
/// gives. Where the dependencies run in no circle this is the longest way from
/// a subtask that depends on nothing.
pub open spec fn hop_depths(tasks: Seq<SubtaskView>) -> Seq<nat> {
    swept(tasks, tasks.len() + 1)
}

/// Bounds with `depth` taken off the hops.
pub open spec fn lowered(ttl: Option<TaskTtl>, depth: nat) -> Option<TaskTtl> {
    match ttl {
        Some(t) => match t.max_hops {
            Some(h) => Some(
                TaskTtl {
                    max_hops: Some(
                        if depth >= h {
                            0
                        } else {
                            (h - depth) as u32
                        },
                    ),
                    ..t
                },
            ),
            None => ttl,
        },
        None => None,
    }
}

proof fn lemma_position_of(tasks: Seq<SubtaskView>, id: Seq<char>)
    ensures
        match position_of(tasks, id) {
            Some(j) => 0 <= j < tasks.len() && tasks[j].id == id,
            None => forall|j: int| 0 <= j < tasks.len() ==> (#[trigger] tasks[j]).id != id,
        },
    decreases tasks.len(),
{
    if tasks.len() > 0 && tasks.last().id != id {
        lemma_position_of(tasks.drop_last(), id);
        assert forall|j: int|
            position_of(tasks, id) is None && 0 <= j < tasks.len() implies (#[trigger] tasks[j]).id
            != id by {
            if j < tasks.len() - 1 {
                assert(tasks.drop_last()[j] == tasks[j]);
            }
        }
    }
}

proof fn lemma_sweep_len(tasks: Seq<SubtaskView>, depth: Seq<nat>, n: int)
    requires
        depth.len() == tasks.len(),
        n <= tasks.len(),
    ensures
        sweep(tasks, depth, n).len() == tasks.len(),
        forall|i: int| 0 <= i < tasks.len() ==> #[trigger] sweep(tasks, depth, n)[i] >= depth[i],
    decreases n,
{
    if n > 0 {
        lemma_sweep_len(tasks, depth, n - 1);
    }
}

proof fn lemma_swept_len(tasks: Seq<SubtaskView>, k: nat)
    ensures
        swept(tasks, k).len() == tasks.len(),
    decreases k,
{
    if k > 0 {
        lemma_swept_len(tasks, (k - 1) as nat);
        lemma_sweep_len(tasks, swept(tasks, (k - 1) as nat), tasks.len() as int);
    }
}

/// Once a sweep changes nothing, no later one does.
proof fn lemma_settled(tasks: Seq<SubtaskView>, k: nat, m: nat)
    requires
        swept(tasks, k + 1) == swept(tasks, k),
        k <= m,
    ensures
        swept(tasks, m) == swept(tasks, k),
    decreases m,
{
    if k < m {
        lemma_settled(tasks, k, (m - 1) as nat);
        assert(swept(tasks, m) == sweep(tasks, swept(tasks, (m - 1) as nat), tasks.len() as int));
        assert(swept(tasks, k + 1) == sweep(tasks, swept(tasks, k), tasks.len() as int));
    }
}

/// The depths that a list of numbers holds.
spec fn depths(v: Seq<u128>) -> Seq<nat> {
    v.map_values(|d: u128| d as nat)
}

/// The position of the last subtask with this id.
fn find_position(tasks: &Vec<Subtask>, id: &str) -> (r: Option<usize>)
    ensures
        match r {
            Some(j) => position_of(tasks_view(tasks@), id@) == Some(j as int) && j < tasks@.len(),
            None => position_of(tasks_view(tasks@), id@) is None,
        },
{
    let ghost all = tasks_view(tasks@);
    let mut i: usize = tasks.len();
    assert(all.take(i as int) =~= all);
    while i > 0
        invariant
            all == tasks_view(tasks@),
            0 <= i <= tasks@.len(),
            position_of(all, id@) == position_of(all.take(i as int), id@),
        decreases i,
    {
        i -= 1;
        assert(all.take(i + 1).drop_last() =~= all.take(i as int));
        assert(all.take(i + 1).last() == tasks@[i as int]@);
        if same(tasks[i].id.as_str(), id) {
            return Some(i);
        }
    }
    None
}

/// One more than the deepest of what a subtask depends on.
fn depth_below(tasks: &Vec<Subtask>, depth: &Vec<u128>, i: usize, bound: u128) -> (r: u128)
    requires
        i < tasks@.len(),
        depth@.len() == tasks@.len(),
        bound < u128::MAX,
        forall|k: int| 0 <= k < depth@.len() ==> (#[trigger] depth@[k]) <= bound,
    ensures
        r == below(
            tasks_view(tasks@),
            depths(depth@),
            tasks@[i as int]@.depends_on,
            tasks@[i as int]@.depends_on.len() as int,
        ),
        r <= bound + 1,
{
    let ghost all = tasks_view(tasks@);
    let ghost deps = tasks@[i as int]@.depends_on;
    let mut best: u128 = 0;
    let mut m: usize = 0;
    while m < tasks[i].depends_on.len()
        invariant
            i < tasks@.len(),
            all == tasks_view(tasks@),
            deps == tasks@[i as int]@.depends_on,
            deps.len() == tasks@[i as int].depends_on@.len(),
            depth@.len() == tasks@.len(),
            bound < u128::MAX,
            forall|k: int| 0 <= k < depth@.len() ==> (#[trigger] depth@[k]) <= bound,
            0 <= m <= deps.len(),
            best == below(all, depths(depth@), deps, m as int),
            best <= bound + 1,
        decreases deps.len() - m,
    {
        assert(deps[m as int] == tasks@[i as int].depends_on@[m as int]@);
        if let Some(j) = find_position(tasks, tasks[i].depends_on[m].as_str()) {
            let candidate: u128 = depth[j] + 1;
            assert(depths(depth@)[j as int] == depth@[j as int]);
            if candidate > best {
                best = candidate;
            }
        }
        m += 1;
    }
    best
}

proof fn lemma_bound(k: int, i: int, n: int)
    requires
        0 <= k <= n,
        0 <= i <= n,
        n <= u64::MAX,
    ensures
        k * n + i < u128::MAX,
{
    assert(k * n + i <= n * n + n) by (nonlinear_arith)
        requires
            0 <= k <= n,
            0 <= i <= n,
    ;
    assert(n * n + n <= 0xffff_ffff_ffff_ffff * 0xffff_ffff_ffff_ffff + 0xffff_ffff_ffff_ffff)
        by (nonlinear_arith)
        requires
            0 <= n <= 0xffff_ffff_ffff_ffff,
    ;
}

/// The depth of each subtask.
fn compute_depths(tasks: &Vec<Subtask>) -> (r: Vec<u128>)
    ensures
        depths(r@) == hop_depths(tasks_view(tasks@)),
        r@.len() == tasks@.len(),
{
    let ghost all = tasks_view(tasks@);
    let n: usize = tasks.len();
    let mut depth: Vec<u128> = Vec::new();
    let mut z: usize = 0;
    while z < n
        invariant
            0 <= z <= n,
            depth@.len() == z,
            forall|k: int| 0 <= k < z ==> depth@[k] == 0,
        decreases n - z,
    {
        depth.push(0);
        z += 1;
    }
    assert(depths(depth@) =~= swept(all, 0));
    let mut changed = true;
    let mut rounds: u128 = 0;
    while changed && rounds <= n as u128
        invariant
            all == tasks_view(tasks@),
            n == tasks@.len(),
            n <= u64::MAX,
            depth@.len() == n,
            rounds <= n + 1,
            depths(depth@) == swept(all, rounds as nat),
            forall|k: int| 0 <= k < n ==> (#[trigger] depth@[k]) <= rounds * n,
            !changed ==> rounds > 0 && swept(all, rounds as nat) == swept(all, (rounds - 1) as nat),
        decreases n + 1 - rounds,
    {
        let ghost start = depths(depth@);
        changed = false;
        let mut i: usize = 0;
        while i < n
            invariant
                all == tasks_view(tasks@),
                n == tasks@.len(),
                n <= u64::MAX,
                depth@.len() == n,
                rounds <= n,
                0 <= i <= n,
                start.len() == n,
                depths(depth@) == sweep(all, start, i as int),
                forall|k: int| 0 <= k < n ==> (#[trigger] depth@[k]) <= rounds * n + i,
                !changed ==> depths(depth@) == start,
            decreases n - i,
        {
            let ghost before = depth@;
            proof {
                lemma_bound(rounds as int, i as int, n as int);
            }
            assert(all[i as int] == tasks@[i as int]@);
            let bound: u128 = largest(&depth);
            let d = depth_below(tasks, &depth, i, bound);
            assert(depths(before)[i as int] == before[i as int]);
            if d > depth[i] {
                depth.set(i, d);
                changed = true;
                assert(depths(depth@) =~= depths(before).update(i as int, d as nat));
            }
            i += 1;
        }
        rounds += 1;
        assert(depths(depth@) == swept(all, rounds as nat));
        assert((rounds - 1) * n + n == rounds * n) by (nonlinear_arith);
    }
    proof {
        if !changed {
            lemma_settled(all, (rounds - 1) as nat, (n + 1) as nat);
        }
    }
    depth
}

/// The largest of some numbers.
fn largest(v: &Vec<u128>) -> (r: u128)
    ensures
        forall|k: int| 0 <= k < v@.len() ==> (#[trigger] v@[k]) <= r,
        v@.len() == 0 ==> r == 0,
        v@.len() > 0 ==> exists|k: int| 0 <= k < v@.len() && #[trigger] v@[k] == r,
{
    let mut r: u128 = 0;
    let mut i: usize = 0;
    while i < v.len()
        invariant
            0 <= i <= v@.len(),
            forall|k: int| 0 <= k < i ==> (#[trigger] v@[k]) <= r,
            i == 0 ==> r == 0,
            i > 0 ==> exists|k: int| 0 <= k < i && #[trigger] v@[k] == r,
        decreases v@.len() - i,
    {
        if v[i] > r {
            r = v[i];
        }
        if i == 0 {
            assert(v@[0] == r);
        }
        i += 1;
    }
    r
}

/// Takes each subtask's depth off its hops, down to zero. A subtask that
/// depends on nothing keeps all of them.
pub fn apply_depth_to_hops(plan: &mut Plan)
    ensures
        final(plan).final_output == old(plan).final_output,
        final(plan).subtasks@.len() == old(plan).subtasks@.len(),
        forall|i: int|
            0 <= i < old(plan).subtasks@.len() ==> (#[trigger] final(plan).subtasks@[i])
                == (Subtask {
                ttl: lowered(
                    old(plan).subtasks@[i].ttl,
                    hop_depths(tasks_view(old(plan).subtasks@))[i],
                ),
                ..old(plan).subtasks@[i]
            }),
{
    let depth = compute_depths(&plan.subtasks);
    let ghost start = plan.subtasks@;
    let ghost deep = hop_depths(tasks_view(start));
    let mut i: usize = 0;
    while i < plan.subtasks.len()
        invariant
            0 <= i <= start.len(),
            start == old(plan).subtasks@,
            deep == hop_depths(tasks_view(start)),
            depths(depth@) == deep,
            depth@.len() == start.len(),
            plan.final_output == old(plan).final_output,
            plan.subtasks@.len() == start.len(),
            forall|k: int|
                0 <= k < i ==> (#[trigger] plan.subtasks@[k]) == (Subtask {
                    ttl: lowered(start[k].ttl, deep[k]),
                    ..start[k]
                }),
            forall|k: int| i <= k < start.len() ==> #[trigger] plan.subtasks@[k] == start[k],
        decreases start.len() - i,
    {
        assert(deep[i as int] == depth@[i as int]);
        let current = plan.subtasks[i].ttl;
        if let Some(ttl) = current {
            if let Some(hops) = ttl.max_hops {
                let d: u128 = depth[i];
                let left: u32 = if d >= hops as u128 {
                    0
                } else {
                    hops - d as u32
                };
                plan.subtasks[i].ttl = Some(
                    TaskTtl { max_hops: Some(left), max_wall_clock: ttl.max_wall_clock },
                );
            }
        }
        i += 1;
    }
}

/// `rank` falls along every dependency, so the dependencies run in no circle.
pub open spec fn ranked(tasks: Seq<SubtaskView>, rank: spec_fn(Seq<char>) -> nat) -> bool {
    forall|i: int, j: int|
        0 <= i < tasks.len() && 0 <= j < tasks[i].depends_on.len() ==> rank(
            #[trigger] tasks[i].depends_on[j],
        ) < rank(tasks[i].id)
}

/// The length of the longest way to subtask `i` that ends with one of its
/// first `m` dependencies.
pub open spec fn longest_way(
    tasks: Seq<SubtaskView>,
    rank: spec_fn(Seq<char>) -> nat,
    i: int,
    m: int,
) -> nat
    decreases rank(tasks[i].id), m,
{
    if m <= 0 {
        0
    } else {
        let before = longest_way(tasks, rank, i, m - 1);
        match position_of(tasks, tasks[i].depends_on[m - 1]) {
            Some(j) => if rank(tasks[j].id) < rank(tasks[i].id) {
                let way = longest_way(tasks, rank, j, tasks[j].depends_on.len() as int) + 1;
                if way > before {
                    way
                } else {
                    before
                }
            } else {
                before
            },
            None => before,
        }
    }
}

/// The length of the longest way to subtask `i` from one that depends on nothing.
pub open spec fn true_depth(
    tasks: Seq<SubtaskView>,
    rank: spec_fn(Seq<char>) -> nat,
    i: int,
) -> nat {
    longest_way(tasks, rank, i, tasks[i].depends_on.len() as int)
}

/// Depths that nowhere exceed the true ones.
spec fn bounded(
    tasks: Seq<SubtaskView>,
    rank: spec_fn(Seq<char>) -> nat,
    depth: Seq<nat>,
) -> bool {
    depth.len() == tasks.len() && forall|i: int|
        0 <= i < tasks.len() ==> #[trigger] depth[i] <= true_depth(tasks, rank, i)
}

proof fn lemma_below_bounded(
    tasks: Seq<SubtaskView>,
    rank: spec_fn(Seq<char>) -> nat,
    depth: Seq<nat>,
    i: int,
    m: int,
)
    requires
        ranked(tasks, rank),
        bounded(tasks, rank, depth),
        0 <= i < tasks.len(),
        0 <= m <= tasks[i].depends_on.len(),
    ensures
        below(tasks, depth, tasks[i].depends_on, m) <= longest_way(tasks, rank, i, m),
    decreases m,
{
    if m > 0 {
        lemma_below_bounded(tasks, rank, depth, i, m - 1);
        lemma_position_of(tasks, tasks[i].depends_on[m - 1]);
        if let Some(j) = position_of(tasks, tasks[i].depends_on[m - 1]) {
            assert(depth[j] <= true_depth(tasks, rank, j));
        }
    }
}

/// Where the dependencies of `i` have their true depths, it gets its own.
proof fn lemma_below_exact(
    tasks: Seq<SubtaskView>,
    rank: spec_fn(Seq<char>) -> nat,
    depth: Seq<nat>,
    i: int,
    m: int,
    k: nat,
)
    requires
        ranked(tasks, rank),
        bounded(tasks, rank, depth),
        0 <= i < tasks.len(),
        0 <= m <= tasks[i].depends_on.len(),
        longest_way(tasks, rank, i, m) <= k,
        forall|j: int|
            0 <= j < tasks.len() && true_depth(tasks, rank, j) < k ==> #[trigger] depth[j]
                == true_depth(tasks, rank, j),
    ensures
        below(tasks, depth, tasks[i].depends_on, m) == longest_way(tasks, rank, i, m),
    decreases m,
{
    if m > 0 {
        lemma_below_exact(tasks, rank, depth, i, m - 1, k);
        lemma_position_of(tasks, tasks[i].depends_on[m - 1]);
        if let Some(j) = position_of(tasks, tasks[i].depends_on[m - 1]) {
            assert(true_depth(tasks, rank, j) < k);
            assert(depth[j] == true_depth(tasks, rank, j));
        }
    }
}

proof fn lemma_sweep_exact(
    tasks: Seq<SubtaskView>,
    rank: spec_fn(Seq<char>) -> nat,
    depth: Seq<nat>,
    n: int,
    k: nat,
)
    requires
        ranked(tasks, rank),
        bounded(tasks, rank, depth),
        0 <= n <= tasks.len(),
        forall|j: int|
            0 <= j < tasks.len() && true_depth(tasks, rank, j) < k ==> #[trigger] depth[j]
                == true_depth(tasks, rank, j),
    ensures
        bounded(tasks, rank, sweep(tasks, depth, n)),
        forall|j: int|
            0 <= j < tasks.len() && true_depth(tasks, rank, j) < k ==> #[trigger] sweep(
                tasks,
                depth,
                n,
            )[j] == true_depth(tasks, rank, j),
        forall|j: int|
            0 <= j < n && true_depth(tasks, rank, j) <= k ==> #[trigger] sweep(tasks, depth, n)[j]
                == true_depth(tasks, rank, j),
    decreases n,
{
    if n > 0 {
        lemma_sweep_exact(tasks, rank, depth, n - 1, k);
        let d = sweep(tasks, depth, n - 1);
        let i = n - 1;
        let m = tasks[i].depends_on.len() as int;
        lemma_below_bounded(tasks, rank, d, i, m);
        if true_depth(tasks, rank, i) <= k {
            lemma_below_exact(tasks, rank, d, i, m, k);
        }
    }
}

proof fn lemma_swept_exact(tasks: Seq<SubtaskView>, rank: spec_fn(Seq<char>) -> nat, k: nat)
    requires
        ranked(tasks, rank),
    ensures
        bounded(tasks, rank, swept(tasks, k)),
        forall|j: int|
            0 <= j < tasks.len() && true_depth(tasks, rank, j) < k ==> #[trigger] swept(
                tasks,
                k,
            )[j] == true_depth(tasks, rank, j),
    decreases k,
{
    if k > 0 {
        lemma_swept_exact(tasks, rank, (k - 1) as nat);
        lemma_sweep_exact(
            tasks,
            rank,
            swept(tasks, (k - 1) as nat),
            tasks.len() as int,
            (k - 1) as nat,
        );
    }
}

/// Some dependency of `i` is exactly one less deep.
proof fn lemma_deepest_dependency(
    tasks: Seq<SubtaskView>,
    rank: spec_fn(Seq<char>) -> nat,
    i: int,
    m: int,
) -> (j: int)
    requires
        ranked(tasks, rank),
        0 <= i < tasks.len(),
        0 <= m <= tasks[i].depends_on.len(),
        longest_way(tasks, rank, i, m) > 0,
    ensures
        0 <= j < tasks.len(),
        true_depth(tasks, rank, j) + 1 == longest_way(tasks, rank, i, m),
    decreases m,
{
    lemma_position_of(tasks, tasks[i].depends_on[m - 1]);
    let before = longest_way(tasks, rank, i, m - 1);
    if longest_way(tasks, rank, i, m) == before {
        lemma_deepest_dependency(tasks, rank, i, m - 1)
    } else {
        position_of(tasks, tasks[i].depends_on[m - 1])->0
    }
}

/// Distinct subtasks of every depth up to that of `i`, the deepest first.
proof fn lemma_chain(tasks: Seq<SubtaskView>, rank: spec_fn(Seq<char>) -> nat, i: int) -> (c: Seq<
    int,
>)
    requires
        ranked(tasks, rank),
        0 <= i < tasks.len(),
    ensures
        c.len() == true_depth(tasks, rank, i) + 1,
        forall|a: int|
            0 <= a < c.len() ==> 0 <= #[trigger] c[a] < tasks.len() && true_depth(
                tasks,
                rank,
                c[a],
            ) == c.len() - 1 - a,
    decreases true_depth(tasks, rank, i),
{
    if true_depth(tasks, rank, i) == 0 {
        seq![i]
    } else {
        let j = lemma_deepest_dependency(tasks, rank, i, tasks[i].depends_on.len() as int);
        let rest = lemma_chain(tasks, rank, j);
        let c = seq![i] + rest;
        assert forall|a: int| 0 <= a < c.len() implies 0 <= #[trigger] c[a] < tasks.len()
            && true_depth(tasks, rank, c[a]) == c.len() - 1 - a by {
            if a > 0 {
                assert(c[a] == rest[a - 1]);
            }
        }
        c
    }
}

/// No subtask is as deep as there are subtasks.
proof fn lemma_depth_below_count(tasks: Seq<SubtaskView>, rank: spec_fn(Seq<char>) -> nat, i: int)
    requires
        ranked(tasks, rank),
        0 <= i < tasks.len(),
    ensures
        true_depth(tasks, rank, i) < tasks.len(),
{
    let c = lemma_chain(tasks, rank, i);
    assert(c.no_duplicates()) by {
        assert forall|a: int, b: int| 0 <= a < c.len() && 0 <= b < c.len() && a != b implies c[a]
            != c[b] by {
            assert(true_depth(tasks, rank, c[a]) != true_depth(tasks, rank, c[b]));
        }
    }
    c.unique_seq_to_set();
    let all = vstd::set_lib::set_int_range(0, tasks.len() as int);
    vstd::set_lib::lemma_int_range(0, tasks.len() as int);
    assert(c.to_set().subset_of(all)) by {
        assert forall|x: int| c.to_set().contains(x) implies all.contains(x) by {
            let a = c.index_of(x);
            assert(c[a] == x);
        }
    }
    vstd::set_lib::lemma_len_subset(c.to_set(), all);
}

/// Where the dependencies run in no circle, the depth of a subtask is the
/// length of the longest way to it from a subtask that depends on nothing.
pub proof fn law_depth_is_longest_way(
    tasks: Seq<SubtaskView>,
    rank: spec_fn(Seq<char>) -> nat,
    i: int,
)
    requires
        ranked(tasks, rank),
        0 <= i < tasks.len(),
    ensures
        hop_depths(tasks)[i] == true_depth(tasks, rank, i),
{
    lemma_depth_below_count(tasks, rank, i);
    lemma_swept_exact(tasks, rank, tasks.len() + 1);
}

/// A subtask that depends on nothing keeps its bounds.
pub proof fn law_roots_keep_their_hops(tasks: Seq<SubtaskView>, i: int, ttl: Option<TaskTtl>)
    requires
        0 <= i < tasks.len(),
        tasks[i].depends_on.len() == 0,
    ensures
        lowered(ttl, hop_depths(tasks)[i]) == ttl,
{
    lemma_root_depth(tasks, i, tasks.len() + 1);
}

proof fn lemma_root_sweep(tasks: Seq<SubtaskView>, depth: Seq<nat>, i: int, n: int)
    requires
        0 <= i < tasks.len(),
        depth.len() == tasks.len(),
        tasks[i].depends_on.len() == 0,
        n <= tasks.len(),
    ensures
        sweep(tasks, depth, n)[i] == depth[i],
    decreases n,
{
    if n > 0 {
        lemma_root_sweep(tasks, depth, i, n - 1);
        lemma_sweep_len(tasks, depth, n - 1);
    }
}

proof fn lemma_root_depth(tasks: Seq<SubtaskView>, i: int, k: nat)
    requires
        0 <= i < tasks.len(),
        tasks[i].depends_on.len() == 0,
    ensures
        swept(tasks, k)[i] == 0,
    decreases k,
{
    if k > 0 {
        lemma_root_depth(tasks, i, (k - 1) as nat);
        lemma_swept_len(tasks, (k - 1) as nat);
        lemma_root_sweep(tasks, swept(tasks, (k - 1) as nat), i, tasks.len() as int);
    }
}

/// Lowering takes the depth off the hops, to nothing at the least, and leaves
/// all else.
pub proof fn law_hops_are_lowered_by_depth(t: TaskTtl, h: u32, depth: nat)
    ensures
        lowered(None, depth) is None,
        t.max_hops is None ==> lowered(Some(t), depth) == Some(t),
        t.max_hops == Some(h) ==> {
            let r = lowered(Some(t), depth);
            &&& r is Some
            &&& r->0.max_wall_clock == t.max_wall_clock
            &&& r->0.max_hops is Some
            &&& depth <= h ==> r->0.max_hops->0 + depth == h
            &&& depth > h ==> r->0.max_hops->0 == 0
        },
{
}

/// A subtask is deeper than all that it waits for, and no deeper than it has to
/// be: one of them is just above it, unless it waits for none of the plan.
#[verifier::rlimit(40)]
pub proof fn law_depth_goes_by_dependencies(
    tasks: Seq<SubtaskView>,
    rank: spec_fn(Seq<char>) -> nat,
    i: int,
    d: int,
    j: int,
)
    requires
        ranked(tasks, rank),
        0 <= i < tasks.len(),
    ensures
        0 <= d < tasks[i].depends_on.len() && 0 <= j < tasks.len() && tasks[j].id
            == tasks[i].depends_on[d] && (forall|k: int|
            j < k < tasks.len() ==> (#[trigger] tasks[k]).id != tasks[j].id) ==> hop_depths(
            tasks,
        )[j] < hop_depths(tasks)[i],
        hop_depths(tasks)[i] > 0 ==> exists|e: int, k: int|
            #![trigger tasks[i].depends_on[e], tasks[k]]
            0 <= e < tasks[i].depends_on.len() && 0 <= k < tasks.len() && tasks[k].id
                == tasks[i].depends_on[e] && hop_depths(tasks)[k] + 1 == hop_depths(tasks)[i],
{
    let n = tasks[i].depends_on.len() as int;
    law_depth_is_longest_way(tasks, rank, i);
    if 0 <= d < n && 0 <= j < tasks.len() && tasks[j].id == tasks[i].depends_on[d] && (forall|
        k: int,
    |
        j < k < tasks.len() ==> (#[trigger] tasks[k]).id != tasks[j].id) {
        law_depth_is_longest_way(tasks, rank, j);
        lemma_position_is_last(tasks, j);
        lemma_way_covers(tasks, rank, i, n, d);
    }
    if hop_depths(tasks)[i] > 0 {
        let e = lemma_way_is_made(tasks, rank, i, n);
        lemma_position_of(tasks, tasks[i].depends_on[e]);
        let k = position_of(tasks, tasks[i].depends_on[e])->0;
        law_depth_is_longest_way(tasks, rank, k);
        assert(tasks[k].id == tasks[i].depends_on[e]);
    }
}

proof fn lemma_position_is_last(tasks: Seq<SubtaskView>, j: int)
    requires
        0 <= j < tasks.len(),
        forall|k: int| j < k < tasks.len() ==> (#[trigger] tasks[k]).id != tasks[j].id,
    ensures
        position_of(tasks, tasks[j].id) == Some(j),
    decreases tasks.len(),
{
    if j < tasks.len() - 1 {
        assert(tasks[tasks.len() - 1].id != tasks[j].id);
        lemma_position_is_last(tasks.drop_last(), j);
    }
}

proof fn lemma_way_covers(
    tasks: Seq<SubtaskView>,
    rank: spec_fn(Seq<char>) -> nat,
    i: int,
    m: int,
    d: int,
)
    requires
        ranked(tasks, rank),
        0 <= i < tasks.len(),
        0 <= d < m <= tasks[i].depends_on.len(),
        position_of(tasks, tasks[i].depends_on[d]) is Some,
    ensures
        true_depth(tasks, rank, position_of(tasks, tasks[i].depends_on[d])->0) < longest_way(
            tasks,
            rank,
            i,
            m,
        ),
    decreases m,
{
    lemma_position_of(tasks, tasks[i].depends_on[m - 1]);
    assert(rank(tasks[i].depends_on[m - 1]) < rank(tasks[i].id));
    if d < m - 1 {
        lemma_way_covers(tasks, rank, i, m - 1, d);
    }
}

proof fn lemma_way_is_made(
    tasks: Seq<SubtaskView>,
    rank: spec_fn(Seq<char>) -> nat,
    i: int,
    m: int,
) -> (e: int)
    requires
        ranked(tasks, rank),
        0 <= i < tasks.len(),
        0 <= m <= tasks[i].depends_on.len(),
        longest_way(tasks, rank, i, m) > 0,
    ensures
        0 <= e < m,
        position_of(tasks, tasks[i].depends_on[e]) is Some,
        true_depth(tasks, rank, position_of(tasks, tasks[i].depends_on[e])->0) + 1 == longest_way(
            tasks,
            rank,
            i,
            m,
        ),
    decreases m,
{
    let before = longest_way(tasks, rank, i, m - 1);
    lemma_position_of(tasks, tasks[i].depends_on[m - 1]);
    assert(rank(tasks[i].depends_on[m - 1]) < rank(tasks[i].id));
    if longest_way(tasks, rank, i, m) == before {
        lemma_way_is_made(tasks, rank, i, m - 1)
    } else {
        m - 1
    }
}

} // verus!
