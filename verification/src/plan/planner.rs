//! The planner: the prompt that asks for a plan, and what is made of the answer.

use crate::llm::{ContentBlock, ContentBlockView};
use crate::plan::role::{ParameterSchema, ParameterType, Role, RoleCatalog};
use crate::plan::{
    all_known, find_unknown, first_unknown, tasks_view, unknown_at, unknown_message, unknown_text,
    Plan, Subtask, SubtaskView,
};
use crate::table::lookup;
use crate::text::{
    begins_with, byte_len, byte_length, byte_prefix, char_position, contains_text, decimal,
    ends_in, find_char, from_range, join, joined, lemma_byte_prefix_longest, lemma_char_position,
    lines, parse_number, parsed_number, same, text_lines, texts_ascend, to_chars, truncate_bytes,
    views,
};
use crate::text_laws::{
    law_containment_is_transitive, law_four_parts, law_joined_holds_each,
    law_lines_end_at_line_feeds, law_parts_occur, law_put_together, law_text_holds_its_parts,
    law_written_numbers_are_read,
};
use crate::types::{Span, TaskTtl};
pub use crate::plan::hops::apply_depth_to_hops;
use vstd::prelude::*;
use vstd::string::*;

verus! {

/// How the prompt for a plan begins.
pub const PLAN_PROMPT: &'static str = "You produce a Plan for an agent runtime. Output ONLY valid JSON.\n\
    \n\
    Plan JSON schema:\n\
    {\n\
    \t\"subtasks\": [ {\"id\": string, \"role\": string, \"params\": object, \"depends_on\": [string]} ],\n\
    \t\"final_output\": string (path)\n\
    }\n\
    \n\
    ## Path rules — read this carefully\n\
    \n\
    1. `{run}` is a DIRECTORY — the per-run workspace root. Never\n\
    use it as a file path on its own.\n\
    2. Every `path`-typed param that names a FILE must be a full\n\
    path with a filename + extension. Examples:\n\
    GOOD: `\"workspace\": \"{run}/hn.html\"`\n\
    GOOD: `\"workspace\": \"{run}/fetched/raw.txt\"`\n\
    BAD:  `\"workspace\": \"{run}\"`            (directory, not a file)\n\
    BAD:  `\"workspace\": \"{run}/\"`           (trailing slash)\n\
    3. For `string_list` params that hold input paths (e.g. the\n\
    writer's `inputs`), each entry is a full file path and may\n\
    reference another subtask's output by copying that subtask's\n\
    `workspace` verbatim.\n\
    4. **Operator-stated absolute paths stay verbatim.** If the\n\
    GOAL says \"write to /data/report.md\", use `\"output\":\n\
    \"/data/report.md\"` and `\"final_output\": \"/data/report.md\"`.\n\
    Do NOT prefix with `{run}`. Operator-stated paths are\n\
    treated as literal filesystem locations the operator\n\
    already controls; runtime subtask paths use `{run}`.\n\
    5. `final_output` must match whatever path the writer subtask\n\
    declared as its `output` param. They are the same file.\n\
    \n\
    ## Decomposition rules\n\
    \n\
    - One subtask per independent unit of work. Don't invent\n\
    subtasks that add a redundant layer. If the goal is\n\
    \"fetch X and summarize it\", two subtasks suffice (fetcher +\n\
    writer) — no analyzer step in between. Analyzers are for\n\
    goals that genuinely call out analysis as a separate\n\
    deliverable.\n\
    - Prefer parallelism when subtasks are independent: list each\n\
    in `subtasks` with empty `depends_on`, not as a chain.\n\
    - Use `generalist` only when no specific role fits. Don't\n\
    wrap a writer's work in a generalist step.\n\
    - **Handoff rule.** If a subtask B has `depends_on: [A]`\n\
    and reads A's output, then A MUST have an output-path\n\
    param set (`workspace`, `output`, or equivalent path\n\
    param declared in the role catalog). B's input path\n\
    must copy A's output path verbatim. Never plan a chain\n\
    where the upstream has no declared output path — the\n\
    downstream will not find its input.\n\
    \n\
    ROLE CATALOG:\n";

/// What the prompt says before a plan that failed.
pub const REPLAN_PROMPT: &'static str = "PREVIOUS PLAN FAILED. Diagnose the failure below and emit a\n\
    revised plan that avoids it. Do NOT re-emit the failing\n\
    subtask verbatim — change what needs to change (a different\n\
    URL, a different role, a different path shape, or dropping\n\
    a subtask that cannot succeed). If the failure looks\n\
    unrecoverable (e.g. the target resource does not exist),\n\
    produce a plan that reports the failure cleanly instead of\n\
    retrying the same operation.\n\n";

/// Why there is no plan.
#[derive(Debug, PartialEq, Eq)]
pub enum PlannerError {
    /// The call to the model failed.
    LlmCall(String),
    /// The model answered with something that is no usable plan.
    Malformed(String),
}

impl PlannerError {
    /// The error as text.
    pub fn message(&self) -> (r: String)
        ensures
            r@ == match *self {
                PlannerError::LlmCall(m) => "LLM call failed: "@ + m@,
                PlannerError::Malformed(m) => "malformed plan from LLM: "@ + m@,
            },
    {
        match self {
            PlannerError::LlmCall(m) => {
                let mut out = "LLM call failed: ".to_owned();
                out.append(m.as_str());
                out
            },
            PlannerError::Malformed(m) => {
                let mut out = "malformed plan from LLM: ".to_owned();
                out.append(m.as_str());
                out
            },
        }
    }
}

/// Whether an error says that the answer is no usable plan, in these words.
pub open spec fn malformed(e: PlannerError, m: Seq<char>) -> bool {
    e is Malformed && e->Malformed_0@ == m
}

/// Where the brace that closes the one at depth `depth` stands, from `i` on.
pub open spec fn closing_brace(s: Seq<char>, i: int, depth: nat) -> Option<int>
    decreases s.len() - i,
{
    if i < 0 || i >= s.len() {
        None
    } else if s[i] == '{' {
        closing_brace(s, i + 1, depth + 1)
    } else if s[i] == '}' && depth <= 1 {
        Some(i)
    } else if s[i] == '}' {
        closing_brace(s, i + 1, (depth - 1) as nat)
    } else {
        closing_brace(s, i + 1, depth)
    }
}

/// The first part of `s` that stands in matching braces.
pub open spec fn braced_part(s: Seq<char>) -> Option<Seq<char>> {
    match char_position(s, '{', 0) {
        None => None,
        Some(start) => match closing_brace(s, start, 0) {
            None => None,
            Some(end) => Some(s.subrange(start, end + 1)),
        },
    }
}

/// The first part of `text` that stands in matching braces, which is where the
/// JSON of an answer stands, whatever is written round it.
pub fn extract_json(text: &str) -> (r: Option<String>)
    ensures
        match r {
            Some(j) => braced_part(text@) == Some(j@),
            None => braced_part(text@) is None,
        },
{
    let v = to_chars(text);
    let start: usize = match find_char(&v, '{', 0) {
        None => {
            return None;
        },
        Some(start) => start,
    };
    proof {
        lemma_char_position(text@, '{', 0);
    }
    let mut depth: usize = 0;
    let mut i: usize = start;
    while i < v.len()
        invariant
            v@ == text@,
            char_position(text@, '{', 0) == Some(start as int),
            start <= i <= v.len(),
            depth <= i - start,
            closing_brace(text@, start as int, 0) == closing_brace(text@, i as int, depth as nat),
            i > start ==> depth > 0,
            v@[start as int] == '{',
        decreases v@.len() - i,
    {
        if v[i] == '{' {
            depth += 1;
        } else if v[i] == '}' {
            depth -= 1;
            if depth == 0 {
                return Some(from_range(&v, start, i + 1));
            }
        }
        i += 1;
    }
    None
}

/// How many more braces open than close in `s`.
pub open spec fn brace_depth(s: Seq<char>) -> int
    decreases s.len(),
{
    if s.len() == 0 {
        0
    } else {
        brace_depth(s.drop_last()) + (if s.last() == '{' {
            1int
        } else if s.last() == '}' {
            -1int
        } else {
            0int
        })
    }
}

proof fn lemma_closing_brace(s: Seq<char>, start: int, i: int, depth: nat)
    requires
        0 <= start <= i <= s.len(),
        depth == brace_depth(s.subrange(start, i)),
        i > start ==> depth > 0,
        start < s.len() ==> s[start] == '{',
    ensures
        match closing_brace(s, i, depth) {
            Some(end) => {
                &&& i <= end < s.len()
                &&& s[end] == '}'
                &&& brace_depth(s.subrange(start, end + 1)) == 0
                &&& forall|k: int|
                    i < k <= end ==> brace_depth(#[trigger] s.subrange(start, k)) > 0
            },
            None => forall|k: int|
                i < k <= s.len() ==> brace_depth(#[trigger] s.subrange(start, k)) > 0,
        },
    decreases s.len() - i,
{
    if i < s.len() {
        assert(s.subrange(start, i + 1).drop_last() =~= s.subrange(start, i));
        if s[i] == '{' {
            lemma_closing_brace(s, start, i + 1, depth + 1);
        } else if s[i] == '}' && depth <= 1 {
        } else if s[i] == '}' {
            lemma_closing_brace(s, start, i + 1, (depth - 1) as nat);
        } else {
            lemma_closing_brace(s, start, i + 1, depth);
        }
    }
}

/// What is extracted begins with an opening brace and ends with the one that
/// closes it: as many braces close as open, and not before the end.
pub proof fn law_extracted_json_is_balanced(s: Seq<char>)
    requires
        braced_part(s) is Some,
    ensures
        ({
            let j = braced_part(s)->0;
            &&& j.len() >= 2
            &&& j[0] == '{'
            &&& j.last() == '}'
            &&& brace_depth(j) == 0
            &&& forall|k: int| 0 < k < j.len() ==> brace_depth(#[trigger] j.take(k)) > 0
        }),
{
    lemma_char_position(s, '{', 0);
    let start = char_position(s, '{', 0)->0;
    assert(s.subrange(start, start) =~= Seq::<char>::empty());
    lemma_closing_brace(s, start, start, 0);
    let end = closing_brace(s, start, 0)->0;
    let j = braced_part(s)->0;
    assert forall|k: int| 0 < k < j.len() implies brace_depth(#[trigger] j.take(k)) > 0 by {
        assert(j.take(k) =~= s.subrange(start, start + k));
    }
}

/// `s` cut to `n` bytes or to the last character that ends before, with dots
/// where something was cut.
pub open spec fn shortened(s: Seq<char>, n: nat) -> Seq<char> {
    if byte_len(s) <= n {
        s
    } else {
        byte_prefix(s, n) + "..."@
    }
}

/// `s` cut to `n` bytes or to the last character that ends before, with dots
/// where something was cut.
pub fn truncate(s: &str, n: usize) -> (r: String)
    ensures
        r@ == shortened(s@, n as nat),
{
    if byte_length(s) <= n {
        s.to_owned()
    } else {
        let mut out = truncate_bytes(s, n);
        out.append("...");
        out
    }
}

/// How much of an answer without JSON is quoted.
pub const QUOTED_BYTES: usize = 200;

/// The text of the first text block.
pub open spec fn first_text(blocks: Seq<ContentBlock>, i: int) -> Option<Seq<char>>
    decreases blocks.len() - i,
{
    if i < 0 || i >= blocks.len() {
        None
    } else {
        match blocks[i]@ {
            ContentBlockView::Text { text } => Some(text),
            _ => first_text(blocks, i + 1),
        }
    }
}

/// The JSON text of the plan in an answer of the model.
pub fn response_json(content: &Vec<ContentBlock>) -> (r: Result<String, PlannerError>)
    ensures
        match first_text(content@, 0) {
            None => r is Err && malformed(r->Err_0, "no text block in LLM response"@),
            Some(t) => match braced_part(t) {
                Some(j) => r is Ok && r->Ok_0@ == j,
                None => r is Err && malformed(
                    r->Err_0,
                    "no JSON in response: "@ + shortened(t, QUOTED_BYTES as nat),
                ),
            },
        },
{
    let mut i: usize = 0;
    while i < content.len()
        invariant
            0 <= i <= content@.len(),
            first_text(content@, 0) == first_text(content@, i as int),
        decreases content@.len() - i,
    {
        if let ContentBlock::Text { text } = &content[i] {
            return match extract_json(text.as_str()) {
                Some(j) => Ok(j),
                None => {
                    let mut m = "no JSON in response: ".to_owned();
                    let quoted = truncate(text.as_str(), QUOTED_BYTES);
                    m.append(quoted.as_str());
                    Err(PlannerError::Malformed(m))
                },
            };
        }
        i += 1;
    }
    Err(PlannerError::Malformed("no text block in LLM response".to_owned()))
}

/// Whether subtask `i` repeats the id of an earlier one.
pub open spec fn repeats(tasks: Seq<SubtaskView>, i: int) -> bool {
    exists|j: int| 0 <= j < i && (#[trigger] tasks[j]).id == tasks[i].id
}

/// Whether something is wrong with subtask `i` by itself: it repeats an id, or
/// names no role.
pub open spec fn faulty(tasks: Seq<SubtaskView>, roles: Seq<(Seq<char>, Role)>, i: int) -> bool {
    repeats(tasks, i) || lookup(roles, tasks[i].role) is None
}

/// Whether subtask `i` is the first with something wrong by itself.
pub open spec fn first_faulty(
    tasks: Seq<SubtaskView>,
    roles: Seq<(Seq<char>, Role)>,
    i: int,
) -> bool {
    &&& 0 <= i < tasks.len()
    &&& faulty(tasks, roles, i)
    &&& forall|j: int| 0 <= j < i ==> !#[trigger] faulty(tasks, roles, j)
}

/// Whether a plan can be executed: it has an output and subtasks, whose ids
/// differ, whose roles exist and whose dependencies are subtasks.
pub open spec fn sound(plan: Plan, roles: Seq<(Seq<char>, Role)>) -> bool {
    let tasks = tasks_view(plan.subtasks@);
    &&& plan.final_output@.len() > 0
    &&& tasks.len() > 0
    &&& forall|i: int| 0 <= i < tasks.len() ==> !#[trigger] faulty(tasks, roles, i)
    &&& all_known(tasks)
}

/// What is reported of a plan that is not sound: the first thing wrong with it.
pub open spec fn fault_message(
    plan: Plan,
    roles: Seq<(Seq<char>, Role)>,
    m: Seq<char>,
) -> bool {
    let tasks = tasks_view(plan.subtasks@);
    if plan.final_output@.len() == 0 {
        m == "final_output missing"@
    } else if tasks.len() == 0 {
        m == "subtasks empty"@
    } else if exists|i: int| first_faulty(tasks, roles, i) {
        exists|i: int| #[trigger]
            first_faulty(tasks, roles, i) && m == (if repeats(tasks, i) {
                "duplicate subtask id: "@ + tasks[i].id
            } else {
                "unknown role: "@ + tasks[i].role
            })
    } else {
        exists|i: int, j: int| #[trigger]
            first_unknown(tasks, i, j) && m == unknown_message(
                tasks[i].id,
                tasks[i].depends_on[j],
            )
    }
}

/// Whether subtask `i` repeats the id of an earlier one.
fn is_repeat(tasks: &Vec<Subtask>, i: usize) -> (r: bool)
    requires
        i < tasks@.len(),
    ensures
        r == repeats(tasks_view(tasks@), i as int),
{
    let ghost all = tasks_view(tasks@);
    assert(all[i as int].id == tasks@[i as int].id@);
    let mut j: usize = 0;
    while j < i
        invariant
            i < tasks@.len(),
            all == tasks_view(tasks@),
            all[i as int].id == tasks@[i as int].id@,
            0 <= j <= i,
            forall|k: int| 0 <= k < j ==> (#[trigger] all[k]).id != all[i as int].id,
        decreases i - j,
    {
        assert(all[j as int].id == tasks@[j as int].id@);
        if same(tasks[j].id.as_str(), tasks[i].id.as_str()) {
            return true;
        }
        j += 1;
    }
    false
}

/// Checks that a plan can be executed with the roles of the catalog.
pub fn validate_plan_structure(plan: &Plan, catalog: &RoleCatalog) -> (r: Result<(), PlannerError>)
    ensures
        match r {
            Ok(_) => sound(*plan, catalog@),
            Err(e) => !sound(*plan, catalog@) && e is Malformed && fault_message(
                *plan,
                catalog@,
                e->Malformed_0@,
            ),
        },
{
    let tasks = &plan.subtasks;
    let ghost all = tasks_view(tasks@);
    let ghost roles = catalog@;
    if plan.final_output.as_str().is_empty() {
        return Err(PlannerError::Malformed("final_output missing".to_owned()));
    }
    if tasks.len() == 0 {
        return Err(PlannerError::Malformed("subtasks empty".to_owned()));
    }
    let mut i: usize = 0;
    while i < tasks.len()
        invariant
            tasks == plan.subtasks,
            all == tasks_view(tasks@),
            roles == catalog@,
            plan.final_output@.len() > 0,
            all.len() > 0,
            0 <= i <= tasks@.len(),
            forall|j: int| 0 <= j < i ==> !#[trigger] faulty(all, roles, j),
        decreases tasks@.len() - i,
    {
        assert(all[i as int] == tasks@[i as int]@);
        if is_repeat(tasks, i) {
            assert(first_faulty(all, roles, i as int));
            let mut m = "duplicate subtask id: ".to_owned();
            m.append(tasks[i].id.as_str());
            return Err(PlannerError::Malformed(m));
        }
        if catalog.get(tasks[i].role.as_str()).is_none() {
            assert(first_faulty(all, roles, i as int));
            let mut m = "unknown role: ".to_owned();
            m.append(tasks[i].role.as_str());
            return Err(PlannerError::Malformed(m));
        }
        i += 1;
    }
    assert forall|i: int| !first_faulty(all, roles, i) by {
        if first_faulty(all, roles, i) {
            assert(faulty(all, roles, i));
        }
    }
    if let Some((a, b)) = find_unknown(tasks) {
        assert(all[a as int] == tasks@[a as int]@);
        return Err(
            PlannerError::Malformed(
                unknown_text(tasks[a].id.as_str(), tasks[a].depends_on[b].as_str()),
            ),
        );
    }
    Ok(())
}

/// Gives the fallback bounds to each subtask that has none of its own.
pub fn apply_ttl_fallback(plan: &mut Plan, fallback: Option<TaskTtl>)
    ensures
        final(plan).final_output == old(plan).final_output,
        final(plan).subtasks@.len() == old(plan).subtasks@.len(),
        forall|i: int|
            0 <= i < old(plan).subtasks@.len() ==> (#[trigger] final(plan).subtasks@[i])
                == (Subtask {
                ttl: if old(plan).subtasks@[i].ttl is None {
                    fallback
                } else {
                    old(plan).subtasks@[i].ttl
                },
                ..old(plan).subtasks@[i]
            }),
{
    if fallback.is_none() {
        return ;
    }
    let ghost start = plan.subtasks@;
    let mut i: usize = 0;
    while i < plan.subtasks.len()
        invariant
            0 <= i <= start.len(),
            start == old(plan).subtasks@,
            plan.final_output == old(plan).final_output,
            plan.subtasks@.len() == start.len(),
            forall|k: int|
                0 <= k < i ==> (#[trigger] plan.subtasks@[k]) == (Subtask {
                    ttl: if start[k].ttl is None {
                        fallback
                    } else {
                        start[k].ttl
                    },
                    ..start[k]
                }),
            forall|k: int| i <= k < start.len() ==> #[trigger] plan.subtasks@[k] == start[k],
        decreases start.len() - i,
    {
        if plan.subtasks[i].ttl.is_none() {
            plan.subtasks[i].ttl = fallback;
        }
        i += 1;
    }
}

/// Takes a plan that was read from an answer: gives the default bounds to the
/// subtasks that have none, then checks it.
pub fn accept_plan(plan: Plan, catalog: &RoleCatalog, default_ttl: Option<TaskTtl>) -> (r: Result<
    Plan,
    PlannerError,
>)
    ensures
        match r {
            Ok(p) => {
                &&& sound(p, catalog@)
                &&& p.final_output == plan.final_output
                &&& p.subtasks@.len() == plan.subtasks@.len()
                &&& forall|i: int|
                    0 <= i < plan.subtasks@.len() ==> (#[trigger] p.subtasks@[i]) == (Subtask {
                        ttl: if plan.subtasks@[i].ttl is None {
                            default_ttl
                        } else {
                            plan.subtasks@[i].ttl
                        },
                        ..plan.subtasks@[i]
                    })
            },
            Err(e) => !sound(plan, catalog@) && e is Malformed && fault_message(
                plan,
                catalog@,
                e->Malformed_0@,
            ),
        },
{
    let mut p = plan;
    let checked = validate_plan_structure(&p, catalog);
    match checked {
        Err(e) => Err(e),
        Ok(_) => {
            apply_ttl_fallback(&mut p, default_ttl);
            proof {
                let a = tasks_view(plan.subtasks@);
                let b = tasks_view(p.subtasks@);
                assert forall|i: int| 0 <= i < a.len() implies (#[trigger] b[i]).id == a[i].id
                    && b[i].role == a[i].role && b[i].depends_on == a[i].depends_on by {
                    assert(b[i] == p.subtasks@[i]@);
                    assert(a[i] == plan.subtasks@[i]@);
                }
                lemma_sound_by_structure(plan, p, catalog@);
            }
            Ok(p)
        },
    }
}

proof fn lemma_sound_by_structure(plan: Plan, p: Plan, roles: Seq<(Seq<char>, Role)>)
    requires
        sound(plan, roles),
        p.final_output == plan.final_output,
        p.subtasks@.len() == plan.subtasks@.len(),
        forall|i: int|
            #![trigger tasks_view(p.subtasks@)[i]]
            0 <= i < plan.subtasks@.len() ==> {
                &&& tasks_view(p.subtasks@)[i].id == tasks_view(plan.subtasks@)[i].id
                &&& tasks_view(p.subtasks@)[i].role == tasks_view(plan.subtasks@)[i].role
                &&& tasks_view(p.subtasks@)[i].depends_on == tasks_view(
                    plan.subtasks@,
                )[i].depends_on
            },
    ensures
        sound(p, roles),
{
    let a = tasks_view(plan.subtasks@);
    let b = tasks_view(p.subtasks@);
    assert forall|i: int| 0 <= i < b.len() implies !#[trigger] faulty(b, roles, i) by {
        assert(!faulty(a, roles, i));
        if repeats(b, i) {
            let j = choose|j: int| 0 <= j < i && (#[trigger] b[j]).id == b[i].id;
            assert(a[j].id == a[i].id);
        }
    }
    assert forall|i: int, j: int| !crate::plan::unknown_at(b, i, j) by {
        if crate::plan::unknown_at(b, i, j) {
            assert(!crate::plan::unknown_at(a, i, j));
            let dep = a[i].depends_on[j];
            let k = choose|k: int| 0 <= k < a.len() && (#[trigger] a[k]).id == dep;
            assert(b[k].id == dep);
        }
    }
}

/// The default bounds on a task, given the texts of the two settings: none
/// where neither is a number.
pub open spec fn default_ttl(
    hops: Option<Seq<char>>,
    clock: Option<Seq<char>>,
) -> Option<TaskTtl> {
    let max_hops = match hops {
        Some(t) => match parsed_number(t, u32::MAX as nat) {
            Some(n) => Some(n as u32),
            None => None,
        },
        None => None,
    };
    let max_wall_clock = match clock {
        Some(t) => match parsed_number(t, u64::MAX as nat) {
            Some(n) => Some(Span { secs: n as u64, nanos: 0 }),
            None => None,
        },
        None => None,
    };
    if max_hops is None && max_wall_clock is None {
        None
    } else {
        Some(TaskTtl { max_hops, max_wall_clock })
    }
}

/// The default bounds on a task, from the texts of the two settings: how many
/// hops, and how many seconds.
pub fn default_task_ttl_with_env(hops_str: Option<String>, clock_str: Option<String>) -> (r: Option<
    TaskTtl,
>)
    ensures
        r == default_ttl(
            crate::audit::text_option(hops_str),
            crate::audit::text_option(clock_str),
        ),
{
    let max_hops: Option<u32> = match &hops_str {
        Some(t) => match parse_number(t.as_str(), u32::MAX as u64) {
            Some(n) => Some(n as u32),
            None => None,
        },
        None => None,
    };
    let max_wall_clock: Option<Span> = match &clock_str {
        Some(t) => match parse_number(t.as_str(), u64::MAX) {
            Some(n) => Some(Span::from_secs(n)),
            None => None,
        },
        None => None,
    };
    if max_hops.is_none() && max_wall_clock.is_none() {
        return None;
    }
    Some(TaskTtl { max_hops, max_wall_clock })
}

/// How the prompt names the kind of value that a parameter takes.
pub open spec fn kind_tag(t: ParameterType) -> Seq<char> {
    match t {
        ParameterType::String => "str"@,
        ParameterType::Path => "path"@,
        ParameterType::StringList => "str[]"@,
    }
}

/// How the prompt describes a parameter.
pub open spec fn param_tag(item: (Seq<char>, ParameterSchema)) -> Seq<char> {
    item.0 + (if item.1.required {
        ""@
    } else {
        "?"@
    }) + ": "@ + kind_tag(item.1.param_type)
}

/// The first line of a text.
pub open spec fn first_line(s: Seq<char>) -> Seq<char> {
    if text_lines(s).len() > 0 {
        text_lines(s)[0]
    } else {
        ""@
    }
}

/// How the prompt describes a role.
pub open spec fn role_line(name: Seq<char>, role: Role) -> Seq<char> {
    "  "@ + name + ": "@ + first_line(role.system_prompt@) + " Params: { "@ + joined(
        role.parameters@.map_values(|i: (Seq<char>, ParameterSchema)| param_tag(i)),
        ", "@,
    ) + " }.\n"@
}

/// How the prompt describes the first `n` of the roles.
pub open spec fn role_lines(
    names: Seq<Seq<char>>,
    roles: Seq<(Seq<char>, Role)>,
    n: int,
) -> Seq<char>
    decreases n,
{
    if n <= 0 {
        Seq::empty()
    } else {
        let before = role_lines(names, roles, n - 1);
        match lookup(roles, names[n - 1]) {
            Some(role) => before + role_line(names[n - 1], role),
            None => before,
        }
    }
}

/// The prompt that asks for a plan. `failed` is the JSON text of a plan that
/// failed and why it did.
pub open spec fn plan_prompt(
    goal: Seq<char>,
    names: Seq<Seq<char>>,
    roles: Seq<(Seq<char>, Role)>,
    failed: Option<(Seq<char>, Seq<char>)>,
) -> Seq<char> {
    let asked = PLAN_PROMPT@ + role_lines(names, roles, names.len() as int) + "\nGOAL: "@ + goal
        + "\n\n"@;
    let told = match failed {
        Some((plan, reason)) => asked + REPLAN_PROMPT@ + "Previous plan: "@ + plan + "\n"@
            + "Failure reason: "@ + reason + "\n\n"@,
        None => asked,
    };
    told + "Emit ONLY the Plan JSON, nothing else."@
}

/// How the prompt describes a role.
fn describe_role(name: &str, role: &Role) -> (r: String)
    ensures
        r@ == role_line(name@, *role),
{
    let ghost want = role.parameters@.map_values(
        |i: (Seq<char>, ParameterSchema)| param_tag(i),
    );
    let mut params: Vec<String> = Vec::new();
    let mut i: usize = 0;
    while i < role.parameters.len()
        invariant
            0 <= i <= role.parameters@.len(),
            want == role.parameters@.map_values(|i: (Seq<char>, ParameterSchema)| param_tag(i)),
            views(params@) == want.take(i as int),
        decreases role.parameters@.len() - i,
    {
        let ghost before = views(params@);
        let schema = role.parameters.value(i);
        let mut m = role.parameters.key(i).clone();
        m.append(
            if schema.required {
                ""
            } else {
                "?"
            },
        );
        m.append(": ");
        m.append(
            match schema.param_type {
                ParameterType::String => "str",
                ParameterType::Path => "path",
                ParameterType::StringList => "str[]",
            },
        );
        params.push(m);
        assert(m@ == want[i as int]);
        assert(views(params@) =~= before.push(want[i as int]));
        assert(want.take(i + 1) =~= want.take(i as int).push(want[i as int]));
        i += 1;
    }
    assert(want.take(i as int) =~= want);
    let all = lines(role.system_prompt.as_str());
    let mut out = "  ".to_owned();
    out.append(name);
    out.append(": ");
    if all.len() > 0 {
        assert(views(all@)[0] == all@[0]@);
        out.append(all[0].as_str());
    } else {
        out.append("");
    }
    out.append(" Params: { ");
    let list = join(&params, ", ");
    out.append(list.as_str());
    out.append(" }.\n");
    out
}

/// The prompt that asks for a plan for `goal` with the roles of the catalog,
/// by ascending name. `failed` is the JSON text of a plan that failed and why
/// it did.
pub fn build_prompt(goal: &str, catalog: &RoleCatalog, failed: Option<(&str, &str)>) -> (r: String)
    ensures
        exists|names: Seq<Seq<char>>|
            #![trigger texts_ascend(names)]
            {
                &&& texts_ascend(names)
                &&& names.to_multiset() == catalog@.map_values(
                    |e: (Seq<char>, Role)| e.0,
                ).to_multiset()
                &&& r@ == plan_prompt(
                    goal@,
                    names,
                    catalog@,
                    match failed {
                        Some((p, w)) => Some((p@, w@)),
                        None => None,
                    },
                )
            },
{
    let list = catalog.names();
    let ghost names = views(list@);
    let ghost roles = catalog@;
    let mut about = String::new();
    let mut i: usize = 0;
    while i < list.len()
        invariant
            0 <= i <= list@.len(),
            names == views(list@),
            roles == catalog@,
            about@ == role_lines(names, roles, i as int),
        decreases list@.len() - i,
    {
        assert(names[i as int] == list@[i as int]@);
        if let Some(role) = catalog.get(list[i].as_str()) {
            let line = describe_role(list[i].as_str(), role);
            about.append(line.as_str());
        }
        i += 1;
    }
    let mut prompt = PLAN_PROMPT.to_owned();
    prompt.append(about.as_str());
    prompt.append("\nGOAL: ");
    prompt.append(goal);
    prompt.append("\n\n");
    if let Some((plan, reason)) = failed {
        prompt.append(REPLAN_PROMPT);
        prompt.append("Previous plan: ");
        prompt.append(plan);
        prompt.append("\n");
        prompt.append("Failure reason: ");
        prompt.append(reason);
        prompt.append("\n\n");
    }
    prompt.append("Emit ONLY the Plan JSON, nothing else.");
    assert(texts_ascend(names));
    prompt
}

/// What is taken out of an answer is where the first brace opens, up to where
/// it is closed again; nothing is taken out exactly where no brace opens or the
/// first is never closed.
pub proof fn law_first_braces_are_taken(s: Seq<char>, start: int)
    requires
        0 <= start < s.len(),
        s[start] == '{',
        forall|k: int| 0 <= k < start ==> #[trigger] s[k] != '{',
    ensures
        braced_part(s) is Some <==> exists|end: int|
            start < end <= s.len() && brace_depth(#[trigger] s.subrange(start, end)) == 0,
        braced_part(s) is Some ==> {
            let j = braced_part(s)->0;
            &&& start + j.len() <= s.len()
            &&& j == s.subrange(start, start + j.len())
        },
{
    lemma_char_position(s, '{', 0);
    assert(char_position(s, '{', 0) == Some(start));
    assert(s.subrange(start, start) =~= Seq::<char>::empty());
    lemma_closing_brace(s, start, start, 0);
    match closing_brace(s, start, 0) {
        Some(end) => {
            assert(brace_depth(s.subrange(start, end + 1)) == 0);
        },
        None => {},
    }
}

/// Nothing is taken out of a text in which no brace opens.
pub proof fn law_no_braces_to_take(s: Seq<char>)
    requires
        forall|k: int| 0 <= k < s.len() ==> #[trigger] s[k] != '{',
    ensures
        braced_part(s) is None,
{
    lemma_char_position(s, '{', 0);
}

/// A text that is quoted is whole where it is short enough, and else its
/// beginning with dots behind it.
pub proof fn law_quoted_text_is_the_beginning(s: Seq<char>, n: nat)
    ensures
        byte_len(s) <= n ==> shortened(s, n) == s,
        byte_len(s) > n ==> exists|k: int|
            0 <= k < s.len() && shortened(s, n) == #[trigger] s.take(k) + "..."@ && byte_len(
                s.take(k),
            ) <= n < byte_len(s.take(k + 1)),
{
    if byte_len(s) > n {
        let k = byte_prefix(s, n).len() as int;
        lemma_byte_prefix_longest(s, n);
        if k == s.len() {
            assert(s.take(k) =~= s);
        }
        assert(shortened(s, n) == s.take(k) + "..."@);
    }
}

/// The answer is read from its first text, whatever stands before it.
pub proof fn law_first_text_is_read(blocks: Seq<ContentBlock>, i: int)
    ensures
        0 <= i < blocks.len() && blocks[i]@ is Text && (forall|k: int|
            0 <= k < i ==> !((#[trigger] blocks[k])@ is Text)) ==> first_text(blocks, 0) == Some(
            blocks[i]@->Text_text,
        ),
        (forall|k: int| 0 <= k < blocks.len() ==> !((#[trigger] blocks[k])@ is Text)) ==> first_text(
            blocks,
            0,
        ) is None,
{
    lemma_first_text(blocks, 0);
}

proof fn lemma_first_text(blocks: Seq<ContentBlock>, from: int)
    requires
        0 <= from <= blocks.len(),
    ensures
        match first_text(blocks, from) {
            Some(t) => exists|i: int|
                from <= i < blocks.len() && (#[trigger] blocks[i])@ is Text && t
                    == blocks[i]@->Text_text && forall|k: int|
                    from <= k < i ==> !((#[trigger] blocks[k])@ is Text),
            None => forall|k: int| from <= k < blocks.len() ==> !((#[trigger] blocks[k])@ is Text),
        },
    decreases blocks.len() - from,
{
    if from < blocks.len() && !(blocks[from]@ is Text) {
        lemma_first_text(blocks, from + 1);
    }
}

/// A plan is sound exactly where it says what comes out, has subtasks whose
/// ids are all different and whose roles all exist, and no subtask waits for
/// one that is not there. What is wrong with any other is said.
#[verifier::rlimit(40)]
pub proof fn law_what_a_sound_plan_is(plan: Plan, roles: Seq<(Seq<char>, Role)>, m: Seq<char>)
    ensures
        ({
            let tasks = tasks_view(plan.subtasks@);
            sound(plan, roles) <==> {
                &&& plan.final_output@.len() > 0
                &&& tasks.len() > 0
                &&& forall|i: int, j: int|
                    0 <= i < j < tasks.len() ==> (#[trigger] tasks[i]).id != (
                    #[trigger] tasks[j]).id
                &&& forall|i: int|
                    0 <= i < tasks.len() ==> lookup(roles, (#[trigger] tasks[i]).role) is Some
                &&& forall|i: int, d: int|
                    0 <= i < tasks.len() && 0 <= d < tasks[i].depends_on.len() ==> exists|k: int|
                        0 <= k < tasks.len() && (#[trigger] tasks[k]).id
                            == #[trigger] tasks[i].depends_on[d]
            }
        }),
        plan.final_output@.len() == 0 && fault_message(plan, roles, m) ==> m
            == "final_output missing"@,
{
    let tasks = tasks_view(plan.subtasks@);
    if sound(plan, roles) {
        assert forall|i: int, j: int| 0 <= i < j < tasks.len() implies (#[trigger] tasks[i]).id != (
        #[trigger] tasks[j]).id by {
            assert(!faulty(tasks, roles, j));
        }
        assert forall|i: int| 0 <= i < tasks.len() implies lookup(
            roles,
            (#[trigger] tasks[i]).role,
        ) is Some by {
            assert(!faulty(tasks, roles, i));
        }
        assert forall|i: int, d: int|
            0 <= i < tasks.len() && 0 <= d < tasks[i].depends_on.len() implies exists|k: int|
            0 <= k < tasks.len() && (#[trigger] tasks[k]).id
                == #[trigger] tasks[i].depends_on[d] by {
            assert(!unknown_at(tasks, i, d));
        }
    }
    if {
        &&& plan.final_output@.len() > 0
        &&& tasks.len() > 0
        &&& forall|i: int, j: int|
            0 <= i < j < tasks.len() ==> (#[trigger] tasks[i]).id != (#[trigger] tasks[j]).id
        &&& forall|i: int|
            0 <= i < tasks.len() ==> lookup(roles, (#[trigger] tasks[i]).role) is Some
        &&& forall|i: int, d: int|
            0 <= i < tasks.len() && 0 <= d < tasks[i].depends_on.len() ==> exists|k: int|
                0 <= k < tasks.len() && (#[trigger] tasks[k]).id
                    == #[trigger] tasks[i].depends_on[d]
    } {
        assert forall|i: int| 0 <= i < tasks.len() implies !#[trigger] faulty(tasks, roles, i) by {
            assert(lookup(roles, tasks[i].role) is Some);
        }
        assert forall|i: int, j: int| !unknown_at(tasks, i, j) by {
            if 0 <= i < tasks.len() && 0 <= j < tasks[i].depends_on.len() {
                let dep = tasks[i].depends_on[j];
                let k = choose|k: int| 0 <= k < tasks.len() && (#[trigger] tasks[k]).id == dep;
                assert(tasks[k].id == dep);
            }
        }
    }
}

/// Limits that are given as numbers are taken, those that are no numbers are
/// not, and without any there are no limits.
pub proof fn law_limits_are_read(hops: u32, secs: u64, word: Seq<char>)
    requires
        parsed_number(word, u64::MAX as nat) is None,
    ensures
        default_ttl(None, None) is None,
        default_ttl(Some(word), Some(word)) is None,
        default_ttl(Some(decimal(hops as nat)), None) == Some(
            (TaskTtl { max_hops: Some(hops), max_wall_clock: None }),
        ),
        default_ttl(None, Some(decimal(secs as nat))) == Some(
            (TaskTtl { max_hops: None, max_wall_clock: Some(Span { secs, nanos: 0 }) }),
        ),
        default_ttl(Some(decimal(hops as nat)), Some(decimal(secs as nat))) == Some(
            (TaskTtl {
                max_hops: Some(hops),
                max_wall_clock: Some(Span { secs, nanos: 0 }),
            }),
        ),
        default_ttl(Some(word), Some(decimal(secs as nat))) == default_ttl(
            None,
            Some(decimal(secs as nat)),
        ),
        default_ttl(Some(decimal(hops as nat)), Some(word)) == default_ttl(
            Some(decimal(hops as nat)),
            None,
        ),
{
    law_written_numbers_are_read(hops as nat, u32::MAX as nat);
    law_written_numbers_are_read(secs as nat, u64::MAX as nat);
}

/// A role is told of by its name, the first line of its prompt and every
/// parameter, with its kind, and a mark where it may be left out.
#[verifier::rlimit(40)]
pub proof fn law_role_is_told_of(name: Seq<char>, role: Role, i: int)
    ensures
        contains_text(role_line(name, role), name),
        contains_text(role_line(name, role), first_line(role.system_prompt@)),
        0 <= i < role.parameters@.len() ==> contains_text(
            role_line(name, role),
            param_tag(role.parameters@[i]),
        ),
        ends_in(role_line(name, role), " }.\n"@),
{
    let start = "  "@ + name + ": "@ + first_line(role.system_prompt@);
    let tags = role.parameters@.map_values(|i: (Seq<char>, ParameterSchema)| param_tag(i));
    let all = joined(tags, ", "@);
    let tail = " Params: { "@;
    law_four_parts("  "@, name, ": "@, first_line(role.system_prompt@));
    law_four_parts(start, tail, all, " }.\n"@);
    law_containment_is_transitive(role_line(name, role), start, name);
    law_containment_is_transitive(
        role_line(name, role),
        start,
        first_line(role.system_prompt@),
    );
    if 0 <= i < role.parameters@.len() {
        law_joined_holds_each(tags, ", "@, i);
        assert(tags[i] == param_tag(role.parameters@[i]));
        law_containment_is_transitive(role_line(name, role), all, tags[i]);
    }
}

/// A parameter is written by its name, with a question mark where it may be
/// left out, and what kind it is.
pub proof fn law_parameter_is_told_of(name: Seq<char>, p: ParameterSchema)
    ensures
        p.required ==> param_tag((name, p)) == name + ": "@ + (match p.param_type {
            ParameterType::String => "str"@,
            ParameterType::Path => "path"@,
            ParameterType::StringList => "str[]"@,
        }),
        !p.required ==> param_tag((name, p)) == name + "?"@ + ": "@ + (match p.param_type {
            ParameterType::String => "str"@,
            ParameterType::Path => "path"@,
            ParameterType::StringList => "str[]"@,
        }),
{
    reveal_strlit("");
    assert(name + ""@ =~= name);
}

/// Of a text the first line is what stands before the first line feed.
pub proof fn law_first_line_ends_at_a_line_feed(line: Seq<char>, rest: Seq<char>)
    requires
        line.len() > 0,
        line.last() != '\r',
        forall|i: int| 0 <= i < line.len() ==> #[trigger] line[i] != '\n',
    ensures
        first_line(line) == line,
        first_line(line + seq!['\n'] + rest) == line,
        first_line(Seq::empty()).len() == 0,
{
    law_lines_end_at_line_feeds(line, rest);
    reveal_strlit("");
}

/// Every role of the catalog has its line, in the order of the names.
#[verifier::rlimit(40)]
pub proof fn law_every_role_has_its_line(
    names: Seq<Seq<char>>,
    roles: Seq<(Seq<char>, Role)>,
    n: int,
    i: int,
)
    requires
        0 <= i < n <= names.len(),
        lookup(roles, names[i]) is Some,
    ensures
        contains_text(role_lines(names, roles, n), role_line(names[i], lookup(roles, names[i])->0)),
        begins_with(role_lines(names, roles, n), role_lines(names, roles, i)),
        role_lines(names, roles, i + 1) == role_lines(names, roles, i) + role_line(
            names[i],
            lookup(roles, names[i])->0,
        ),
    decreases n,
{
    let line = role_line(names[i], lookup(roles, names[i])->0);
    let before = role_lines(names, roles, n - 1);
    if n - 1 == i {
        law_text_holds_its_parts(before, line, line);
        law_parts_occur(before, line, Seq::empty());
    } else {
        law_every_role_has_its_line(names, roles, n - 1, i);
        if lookup(roles, names[n - 1]) is Some {
            let more = role_line(names[n - 1], lookup(roles, names[n - 1])->0);
            law_text_holds_its_parts(before, more, line);
            let start = role_lines(names, roles, i);
            law_parts_occur(before, more, Seq::empty());
            assert((before + more).subrange(0, start.len() as int) =~= before.subrange(
                0,
                start.len() as int,
            ));
        }
    }
}

/// The prompt holds what is to be planned with: the roles and the goal, and
/// where a plan failed, that plan and the reason.
#[verifier::rlimit(40)]
pub proof fn law_prompt_holds_the_task(
    goal: Seq<char>,
    names: Seq<Seq<char>>,
    roles: Seq<(Seq<char>, Role)>,
    plan: Seq<char>,
    reason: Seq<char>,
)
    ensures
        ({
            let first = plan_prompt(goal, names, roles, None);
            let again = plan_prompt(goal, names, roles, Some((plan, reason)));
            let lines = role_lines(names, roles, names.len() as int);
            &&& contains_text(first, lines)
            &&& contains_text(first, "\nGOAL: "@ + goal)
            &&& contains_text(again, lines)
            &&& contains_text(again, "\nGOAL: "@ + goal)
            &&& contains_text(again, "Previous plan: "@ + plan)
            &&& contains_text(again, "Failure reason: "@ + reason)
        }),
{
    let lines = role_lines(names, roles, names.len() as int);
    let end = "Emit ONLY the Plan JSON, nothing else."@;
    let aim = "\nGOAL: "@ + goal;
    let asked = PLAN_PROMPT@ + lines + "\nGOAL: "@ + goal + "\n\n"@;
    law_put_together(PLAN_PROMPT@ + lines, "\nGOAL: "@, goal);
    law_four_parts(PLAN_PROMPT@, lines, aim, "\n\n"@);
    assert(asked == PLAN_PROMPT@ + lines + aim + "\n\n"@);
    law_text_holds_its_parts(asked, end, lines);
    law_text_holds_its_parts(asked, end, aim);
    let old = "Previous plan: "@ + plan;
    let why = "Failure reason: "@ + reason;
    let start = asked + REPLAN_PROMPT@;
    let told = asked + REPLAN_PROMPT@ + "Previous plan: "@ + plan + "\n"@ + "Failure reason: "@
        + reason + "\n\n"@;
    law_put_together(start, "Previous plan: "@, plan);
    law_put_together(start + old + "\n"@, "Failure reason: "@, reason);
    law_text_holds_its_parts(asked, REPLAN_PROMPT@, lines);
    law_text_holds_its_parts(asked, REPLAN_PROMPT@, aim);
    law_four_parts(start, old, "\n"@, why);
    let most = start + old + "\n"@ + why;
    assert(told == most + "\n\n"@);
    law_containment_is_transitive(most, start, lines);
    law_containment_is_transitive(most, start, aim);
    law_text_holds_its_parts(most, "\n\n"@, lines);
    law_text_holds_its_parts(most, "\n\n"@, aim);
    law_text_holds_its_parts(most, "\n\n"@, old);
    law_text_holds_its_parts(most, "\n\n"@, why);
    law_text_holds_its_parts(told, end, lines);
    law_text_holds_its_parts(told, end, aim);
    law_text_holds_its_parts(told, end, old);
    law_text_holds_its_parts(told, end, why);
}

/// What is wrong with a plan is said of the first subtask that is at fault: of
/// one whose id was used before, the id; of one whose role is unknown, the
/// role.
pub proof fn law_first_fault_is_named(
    plan: Plan,
    roles: Seq<(Seq<char>, Role)>,
    m: Seq<char>,
    i: int,
)
    requires
        plan.final_output@.len() > 0,
        0 <= i < plan.subtasks@.len(),
        forall|j: int, k: int|
            0 <= j < k < i ==> (#[trigger] tasks_view(plan.subtasks@)[j]).id != (
            #[trigger] tasks_view(plan.subtasks@)[k]).id,
        forall|j: int|
            0 <= j < i ==> lookup(roles, (#[trigger] tasks_view(plan.subtasks@)[j]).role) is Some,
        fault_message(plan, roles, m),
    ensures
        ({
            let tasks = tasks_view(plan.subtasks@);
            let used = exists|j: int| 0 <= j < i && (#[trigger] tasks[j]).id == tasks[i].id;
            &&& used ==> ends_in(m, tasks[i].id)
            &&& !used && lookup(roles, tasks[i].role) is None ==> ends_in(m, tasks[i].role)
        }),
{
    let tasks = tasks_view(plan.subtasks@);
    assert forall|j: int| 0 <= j < i implies !#[trigger] faulty(tasks, roles, j) by {
        assert(lookup(roles, tasks[j].role) is Some);
    }
    if faulty(tasks, roles, i) {
        assert(first_faulty(tasks, roles, i));
        let k = choose|k: int| #[trigger]
            first_faulty(tasks, roles, k) && m == (if repeats(tasks, k) {
                "duplicate subtask id: "@ + tasks[k].id
            } else {
                "unknown role: "@ + tasks[k].role
            });
        if k < i {
            assert(!faulty(tasks, roles, k));
        }
        if i < k {
            assert(!faulty(tasks, roles, i));
        }
        law_parts_occur("duplicate subtask id: "@, tasks[i].id, Seq::empty());
        law_parts_occur("unknown role: "@, tasks[i].role, Seq::empty());
    }
}

} // verus!
