//! Keeping a conversation within the model's context: when it grows too long,
//! its oldest part is summed up and archived.
//!
//! The functions here decide what to sum up and what to make of the summary;
//! the comparison with the threshold and the call of the model are left to the
//! caller.

use crate::json::{json_text, write_json};
use crate::llm::{
    blocks_view, copy_messages, messages_view, ContentBlock, ContentBlockView,
    Message, MessageView,
};
use crate::text::{begins_with, contains_text, ends_in, join, joined, views};
use crate::text_laws::{
    law_containment_is_transitive, law_four_parts, law_joined_holds_each, law_parts_occur,
    law_put_together,
};
use vstd::prelude::*;
use vstd::string::*;

verus! {

/// The size of a block in characters.
pub open spec fn block_size(b: ContentBlockView) -> nat {
    match b {
        ContentBlockView::Text { text } => text.len(),
        ContentBlockView::ToolUse { id, name, input } => name.len() + json_text(input).len(),
    }
}

/// How many characters some blocks are together.
pub open spec fn blocks_size(s: Seq<ContentBlockView>) -> nat
    decreases s.len(),
{
    if s.len() == 0 {
        0
    } else {
        blocks_size(s.drop_last()) + block_size(s.last())
    }
}

/// The size of a message in characters.
pub open spec fn message_size(m: MessageView) -> nat {
    match m {
        MessageView::User { content } => content.len(),
        MessageView::Assistant { content } => blocks_size(content),
        MessageView::ToolResult { tool_use_id, content, is_error } => tool_use_id.len()
            + json_text(content).len(),
        MessageView::Summary { content, messages_summarized, source_range } => content.len(),
    }
}

/// How many characters some messages are together.
pub open spec fn messages_size(s: Seq<MessageView>) -> nat
    decreases s.len(),
{
    if s.len() == 0 {
        0
    } else {
        messages_size(s.drop_last()) + message_size(s.last())
    }
}

/// A size as far as a machine word can hold it.
pub open spec fn capped(n: nat) -> usize {
    if n <= usize::MAX {
        n as usize
    } else {
        usize::MAX
    }
}

/// How many characters a message is, whatever its kind.
pub fn message_chars(msg: &Message) -> (r: usize)
    ensures
        r == capped(message_size(msg@)),
{
    match msg {
        Message::User { content } => content.as_str().unicode_len(),
        Message::Assistant { content } => {
            let ghost all = blocks_view(content@);
            let mut sum: usize = 0;
            let mut i: usize = 0;
            while i < content.len()
                invariant
                    0 <= i <= content@.len(),
                    all == blocks_view(content@),
                    sum == capped(blocks_size(all.take(i as int))),
                decreases content@.len() - i,
            {
                assert(all.take(i + 1).drop_last() =~= all.take(i as int));
                assert(all[i as int] == content@[i as int]@);
                match &content[i] {
                    ContentBlock::Text { text } => {
                        sum = sum.saturating_add(text.as_str().unicode_len());
                    },
                    ContentBlock::ToolUse { name, input, .. } => {
                        let written = write_json(input);
                        sum = sum.saturating_add(name.as_str().unicode_len());
                        sum = sum.saturating_add(written.as_str().unicode_len());
                    },
                }
                i += 1;
            }
            assert(all.take(i as int) =~= all);
            sum
        },
        Message::ToolResult { tool_use_id, content, .. } => {
            let written = write_json(content);
            tool_use_id.as_str().unicode_len().saturating_add(written.as_str().unicode_len())
        },
        Message::Summary { content, .. } => content.as_str().unicode_len(),
    }
}

/// About how many tokens some messages are: a quarter of their characters.
pub open spec fn token_estimate(s: Seq<MessageView>) -> u32 {
    (capped(messages_size(s)) / 4) as u32
}

/// About how many tokens the first `n` messages are.
pub fn estimate_tokens(messages: &Vec<Message>, n: usize) -> (r: u32)
    requires
        n <= messages@.len(),
    ensures
        r == token_estimate(messages_view(messages@).take(n as int)),
{
    let ghost all = messages_view(messages@);
    let mut sum: usize = 0;
    let mut i: usize = 0;
    while i < n
        invariant
            0 <= i <= n <= messages@.len(),
            all == messages_view(messages@),
            sum == capped(messages_size(all.take(i as int))),
        decreases n - i,
    {
        assert(all.take(i + 1).drop_last() =~= all.take(i as int));
        assert(all[i as int] == messages@[i as int]@);
        sum = sum.saturating_add(message_chars(&messages[i]));
        i += 1;
    }
    (sum / 4) as u32
}

/// What to send to the model.
#[derive(Debug)]
pub struct PreparedContext {
    /// The messages, without the summaries.
    pub messages: Vec<Message>,
    /// The prompt, behind the summaries.
    pub system_prompt: String,
    /// What was summed up, if anything was.
    pub summarization: Option<SummarizationResult>,
}

/// What was summed up.
#[derive(Debug)]
pub struct SummarizationResult {
    /// The messages that go to the archive.
    pub archived_messages: Vec<Message>,
    /// The message that stands for them.
    pub summary: Message,
    /// Where they stood in the history.
    pub source_range: (usize, usize),
    /// About how many tokens that saved.
    pub tokens_saved_estimate: u32,
}

/// The messages that are no summaries, in their order.
pub open spec fn without_summaries(s: Seq<MessageView>) -> Seq<MessageView>
    decreases s.len(),
{
    if s.len() == 0 {
        Seq::empty()
    } else if s.last() is Summary {
        without_summaries(s.drop_last())
    } else {
        without_summaries(s.drop_last()).push(s.last())
    }
}

/// The texts of the summaries, in their order.
pub open spec fn summary_texts(s: Seq<MessageView>) -> Seq<Seq<char>>
    decreases s.len(),
{
    if s.len() == 0 {
        Seq::empty()
    } else {
        match s.last() {
            MessageView::Summary { content, messages_summarized, source_range } => summary_texts(
                s.drop_last(),
            ).push(content),
            _ => summary_texts(s.drop_last()),
        }
    }
}

/// The prompt with the summaries before it.
pub open spec fn folded_prompt(s: Seq<MessageView>, prompt: Seq<char>) -> Seq<char> {
    if summary_texts(s).len() == 0 {
        prompt
    } else {
        "[Previous conversation summary]\n"@ + joined(summary_texts(s), "\n\n"@) + "\n\n"@ + prompt
    }
}

proof fn lemma_without_summaries(s: Seq<MessageView>)
    ensures
        forall|i: int|
            0 <= i < without_summaries(s).len() ==> !((#[trigger] without_summaries(s)[i]) is Summary),
        without_summaries(s).len() + summary_texts(s).len() == s.len(),
    decreases s.len(),
{
    if s.len() > 0 {
        lemma_without_summaries(s.drop_last());
    }
}

/// Moves the summaries of the history into the prompt.
pub fn fold_summaries_into_prompt(history: &Vec<Message>, system_prompt: &str) -> (r:
    PreparedContext)
    ensures
        messages_view(r.messages@) == without_summaries(messages_view(history@)),
        forall|i: int|
            0 <= i < r.messages@.len() ==> !((#[trigger] messages_view(r.messages@)[i]) is Summary),
        r.system_prompt@ == folded_prompt(messages_view(history@), system_prompt@),
        r.summarization is None,
{
    let ghost all = messages_view(history@);
    let mut texts: Vec<String> = Vec::new();
    let mut messages: Vec<Message> = Vec::new();
    let mut i: usize = 0;
    assert(views(texts@) =~= summary_texts(all.take(0)));
    assert(messages_view(messages@) =~= without_summaries(all.take(0)));
    while i < history.len()
        invariant
            all == messages_view(history@),
            0 <= i <= history@.len(),
            views(texts@) == summary_texts(all.take(i as int)),
            messages_view(messages@) == without_summaries(all.take(i as int)),
        decreases history@.len() - i,
    {
        assert(all[i as int] == history@[i as int]@);
        assert(all.take(i + 1).drop_last() =~= all.take(i as int));
        match &history[i] {
            Message::Summary { content, .. } => {
                let ghost before = views(texts@);
                texts.push(content.clone());
                assert(views(texts@) =~= before.push(content@));
            },
            _ => {
                let ghost before = messages_view(messages@);
                messages.push(history[i].copy());
                assert(messages_view(messages@) =~= before.push(all[i as int]));
            },
        }
        i += 1;
    }
    assert(all.take(i as int) =~= all);
    assert(views(texts@).len() == texts@.len());
    let prompt = if texts.len() == 0 {
        system_prompt.to_owned()
    } else {
        let mut p = "[Previous conversation summary]\n".to_owned();
        let prefix = join(&texts, "\n\n");
        p.append(prefix.as_str());
        p.append("\n\n");
        p.append(system_prompt);
        p
    };
    proof {
        lemma_without_summaries(all);
    }
    PreparedContext { messages, system_prompt: prompt, summarization: None }
}

/// Whether a message is one in which the model asks for tools.
pub open spec fn asks_for_tools(m: MessageView) -> bool {
    match m {
        MessageView::Assistant { content } => exists|i: int|
            0 <= i < content.len() && #[trigger] content[i] is ToolUse,
        _ => false,
    }
}

/// The first position at or after `b` that holds no result of a tool.
pub open spec fn past_results(s: Seq<MessageView>, b: int) -> int
    decreases s.len() - b,
{
    if 0 <= b < s.len() && s[b] is ToolResult {
        past_results(s, b + 1)
    } else {
        b
    }
}

/// The last position before `b` that holds a message of the model, or zero.
pub open spec fn before_reply(s: Seq<MessageView>, b: int) -> int
    decreases b,
{
    if b <= 0 {
        0
    } else if s[b - 1] is Assistant {
        b - 1
    } else {
        before_reply(s, b - 1)
    }
}

/// The boundary `b` moved so that it parts no call of a tool from its result:
/// forward over the results of the calls before it, or back before the call.
pub open spec fn pair_boundary(s: Seq<MessageView>, b: int) -> int {
    if b <= 0 || b > s.len() {
        b
    } else {
        let forward = if asks_for_tools(s[b - 1]) {
            past_results(s, b)
        } else {
            b
        };
        if forward < s.len() && s[forward] is ToolResult {
            before_reply(s, forward)
        } else {
            forward
        }
    }
}

proof fn lemma_past_results(s: Seq<MessageView>, b: int)
    requires
        0 <= b <= s.len(),
    ensures
        b <= past_results(s, b) <= s.len(),
        past_results(s, b) < s.len() ==> !(s[past_results(s, b)] is ToolResult),
    decreases s.len() - b,
{
    if b < s.len() && s[b] is ToolResult {
        lemma_past_results(s, b + 1);
    }
}

proof fn lemma_before_reply(s: Seq<MessageView>, b: int)
    requires
        0 <= b <= s.len(),
    ensures
        0 <= before_reply(s, b) <= b,
        before_reply(s, b) > 0 ==> s[before_reply(s, b)] is Assistant,
    decreases b,
{
    if b > 0 && !(s[b - 1] is Assistant) {
        lemma_before_reply(s, b - 1);
    }
}

/// A boundary that was moved stands at the start, at the end, or before a
/// message that is no result of a tool.
proof fn lemma_moved_boundary(s: Seq<MessageView>, b: int)
    requires
        0 <= b <= s.len(),
    ensures
        0 <= pair_boundary(s, b) <= s.len(),
        0 < pair_boundary(s, b) < s.len() ==> !(s[pair_boundary(s, b)] is ToolResult),
{
    if b > 0 {
        lemma_past_results(s, b);
        let forward = if asks_for_tools(s[b - 1]) {
            past_results(s, b)
        } else {
            b
        };
        lemma_before_reply(s, forward);
    }
}

/// A boundary that was moved parts no call of a tool from its result: where
/// nothing but results stands between the message with the call and a result,
/// either both are before the boundary or both are behind it.
pub proof fn law_boundary_parts_no_tool_pair(s: Seq<MessageView>, b: int, call: int, result: int)
    requires
        0 <= b <= s.len(),
        0 <= call < result < s.len(),
        forall|k: int| call < k <= result ==> (#[trigger] s[k]) is ToolResult,
    ensures
        call < pair_boundary(s, b) <==> result < pair_boundary(s, b),
{
    lemma_moved_boundary(s, b);
    let p = pair_boundary(s, b);
    if call < p <= result {
        assert(s[p] is ToolResult);
    }
}

/// Whether a message is one in which the model asks for tools.
fn has_tool_use(m: &Message) -> (r: bool)
    ensures
        r == asks_for_tools(m@),
{
    match m {
        Message::Assistant { content } => {
            let ghost all = blocks_view(content@);
            let mut i: usize = 0;
            while i < content.len()
                invariant
                    all == blocks_view(content@),
                    m@ == (MessageView::Assistant { content: all }),
                    0 <= i <= content@.len(),
                    forall|k: int| 0 <= k < i ==> !(#[trigger] all[k] is ToolUse),
                decreases content@.len() - i,
            {
                assert(all[i as int] == content@[i as int]@);
                if let ContentBlock::ToolUse { .. } = &content[i] {
                    return true;
                }
                i += 1;
            }
            false
        },
        _ => false,
    }
}

/// Whether a message is the result of a tool.
fn is_tool_result(m: &Message) -> (r: bool)
    ensures
        r == (m@ is ToolResult),
{
    match m {
        Message::ToolResult { .. } => true,
        _ => false,
    }
}

/// Moves a boundary so that it parts no call of a tool from its result.
pub fn adjust_boundary_for_tool_pairs(history: &Vec<Message>, boundary: usize) -> (r: usize)
    ensures
        r == pair_boundary(messages_view(history@), boundary as int),
{
    let ghost all = messages_view(history@);
    if boundary == 0 || boundary > history.len() {
        return boundary;
    }
    let mut b: usize = boundary;
    assert(all[boundary - 1] == history@[boundary - 1]@);
    if has_tool_use(&history[boundary - 1]) {
        while b < history.len() && is_tool_result(&history[b])
            invariant
                all == messages_view(history@),
                boundary <= b <= history@.len(),
                past_results(all, boundary as int) == past_results(all, b as int),
            decreases history@.len() - b,
        {
            assert(all[b as int] == history@[b as int]@);
            b += 1;
        }
        if b < history.len() {
            assert(all[b as int] == history@[b as int]@);
        }
    }
    if b < history.len() {
        assert(all[b as int] == history@[b as int]@);
        if is_tool_result(&history[b]) {
            let ghost start = b as int;
            while b > 0
                invariant_except_break
                    before_reply(all, start) == before_reply(all, b as int),
                invariant
                    all == messages_view(history@),
                    0 <= b <= start < history@.len(),
                ensures
                    b == before_reply(all, start),
                decreases b,
            {
                b -= 1;
                assert(all[b as int] == history@[b as int]@);
                if let Message::Assistant { .. } = &history[b] {
                    break;
                }
            }
        }
    }
    b
}

/// About how many tokens the first `n` messages are, each counted by itself.
pub open spec fn tokens_up_to(s: Seq<MessageView>, n: int) -> nat
    decreases n,
{
    if n <= 0 {
        0
    } else {
        tokens_up_to(s, n - 1) + (capped(message_size(s[n - 1])) / 4) as u32 as nat
    }
}

/// The least number of messages, from `n` on, that are at least `target` tokens.
pub open spec fn reaching(s: Seq<MessageView>, target: nat, n: int) -> Option<int>
    decreases s.len() - n,
{
    if n < 0 || n >= s.len() {
        None
    } else if tokens_up_to(s, n + 1) >= target {
        Some(n + 1)
    } else {
        reaching(s, target, n + 1)
    }
}

/// How many messages to sum up: the oldest that are `target` tokens, or half
/// of them where they are not so many.
pub open spec fn summary_boundary(s: Seq<MessageView>, target: nat) -> int {
    let first = match reaching(s, target, 0) {
        Some(n) => pair_boundary(s, n),
        None => 0,
    };
    if first == 0 && s.len() > 0 {
        pair_boundary(s, s.len() as int / 2)
    } else {
        first
    }
}

/// How many messages from the start to sum up.
pub fn select_summarization_boundary(history: &Vec<Message>, target_tokens: u32) -> (r: usize)
    ensures
        r == summary_boundary(messages_view(history@), target_tokens as nat),
        r <= history@.len(),
{
    let ghost all = messages_view(history@);
    let mut sum: u128 = 0;
    let mut i: usize = 0;
    let mut boundary: usize = 0;
    let mut found = false;
    while !found && i < history.len()
        invariant
            all == messages_view(history@),
            0 <= i <= history.len(),
            sum == tokens_up_to(all, i as int),
            sum <= i * 0x1_0000_0000,
            !found ==> boundary == 0 && reaching(all, target_tokens as nat, 0) == reaching(
                all,
                target_tokens as nat,
                i as int,
            ),
            found ==> reaching(all, target_tokens as nat, 0) is Some && boundary == pair_boundary(
                all,
                reaching(all, target_tokens as nat, 0)->0,
            ) && 0 <= reaching(all, target_tokens as nat, 0)->0 <= all.len(),
        decreases history@.len() - i,
    {
        assert(all[i as int] == history@[i as int]@);
        let t: u32 = (message_chars(&history[i]) / 4) as u32;
        assert(i < history.len());
        sum = sum + t as u128;
        i += 1;
        if sum >= target_tokens as u128 {
            boundary = adjust_boundary_for_tool_pairs(history, i);
            found = true;
        }
    }
    proof {
        if found {
            lemma_moved_boundary(all, reaching(all, target_tokens as nat, 0)->0);
        }
        lemma_moved_boundary(all, all.len() as int / 2);
    }
    if boundary == 0 && history.len() > 0 {
        boundary = adjust_boundary_for_tool_pairs(history, history.len() / 2);
    }
    boundary
}

/// The lines that a block is in the text to be summed up.
pub open spec fn block_line(b: ContentBlockView) -> Seq<char> {
    match b {
        ContentBlockView::Text { text } => "Assistant: "@ + text,
        ContentBlockView::ToolUse { id, name, input } => "Assistant [tool_use: "@ + name + "]: "@
            + json_text(input),
    }
}

/// The lines that a message is in the text to be summed up.
pub open spec fn message_lines(m: MessageView) -> Seq<Seq<char>> {
    match m {
        MessageView::User { content } => seq!["User: "@ + content],
        MessageView::Assistant { content } => content.map_values(
            |b: ContentBlockView| block_line(b),
        ),
        MessageView::ToolResult { tool_use_id, content, is_error } => seq![
            "Tool "@ + (if is_error {
                "error"@
            } else {
                "result"@
            }) + " ("@ + tool_use_id + "): "@ + json_text(content),
        ],
        MessageView::Summary { content, messages_summarized, source_range } => seq![
            "Previous summary: "@ + content,
        ],
    }
}

/// The lines that the first `n` messages are in the text to be summed up.
pub open spec fn lines_up_to(s: Seq<MessageView>, n: int) -> Seq<Seq<char>>
    decreases n,
{
    if n <= 0 {
        Seq::empty()
    } else {
        lines_up_to(s, n - 1) + message_lines(s[n - 1])
    }
}

/// The line that a block is in the text to be summed up.
fn format_block(b: &ContentBlock) -> (r: String)
    ensures
        r@ == block_line(b@),
{
    match b {
        ContentBlock::Text { text } => {
            let mut m = "Assistant: ".to_owned();
            m.append(text.as_str());
            m
        },
        ContentBlock::ToolUse { name, input, .. } => {
            let mut m = "Assistant [tool_use: ".to_owned();
            m.append(name.as_str());
            m.append("]: ");
            let written = write_json(input);
            m.append(written.as_str());
            m
        },
    }
}

/// The lines that a message is in the text to be summed up.
fn format_message(msg: &Message) -> (r: Vec<String>)
    ensures
        views(r@) == message_lines(msg@),
{
    let mut out: Vec<String> = Vec::new();
    match msg {
        Message::User { content } => {
            let mut m = "User: ".to_owned();
            m.append(content.as_str());
            out.push(m);
            assert(views(out@) =~= seq![m@]);
        },
        Message::Assistant { content } => {
            let ghost all = blocks_view(content@);
            let ghost want = all.map_values(|b: ContentBlockView| block_line(b));
            let mut i: usize = 0;
            while i < content.len()
                invariant
                    0 <= i <= content@.len(),
                    all == blocks_view(content@),
                    want == all.map_values(|b: ContentBlockView| block_line(b)),
                    views(out@) == want.take(i as int),
                decreases content@.len() - i,
            {
                let ghost before = views(out@);
                assert(all[i as int] == content@[i as int]@);
                out.push(format_block(&content[i]));
                assert(views(out@) =~= before.push(want[i as int]));
                assert(want.take(i + 1) =~= want.take(i as int).push(want[i as int]));
                i += 1;
            }
            assert(want.take(i as int) =~= want);
        },
        Message::ToolResult { tool_use_id, content, is_error } => {
            let mut m = "Tool ".to_owned();
            m.append(
                if *is_error {
                    "error"
                } else {
                    "result"
                },
            );
            m.append(" (");
            m.append(tool_use_id.as_str());
            m.append("): ");
            let written = write_json(content);
            m.append(written.as_str());
            out.push(m);
            assert(views(out@) =~= seq![m@]);
        },
        Message::Summary { content, .. } => {
            let mut m = "Previous summary: ".to_owned();
            m.append(content.as_str());
            out.push(m);
            assert(views(out@) =~= seq![m@]);
        },
    }
    out
}

/// The first `n` messages as the text to be summed up.
pub fn format_messages_for_summary(messages: &Vec<Message>, n: usize) -> (r: String)
    requires
        n <= messages@.len(),
    ensures
        r@ == joined(lines_up_to(messages_view(messages@), n as int), "\n"@),
{
    let ghost all = messages_view(messages@);
    let mut lines: Vec<String> = Vec::new();
    let mut i: usize = 0;
    assert(views(lines@) =~= Seq::<Seq<char>>::empty());
    while i < n
        invariant
            0 <= i <= n <= messages@.len(),
            all == messages_view(messages@),
            views(lines@) == lines_up_to(all, i as int),
        decreases n - i,
    {
        let ghost before = views(lines@);
        assert(all[i as int] == messages@[i as int]@);
        let mut more = format_message(&messages[i]);
        let ghost added = views(more@);
        lines.append(&mut more);
        assert(views(lines@) =~= before + added);
        i += 1;
    }
    join(&lines, "\n")
}

/// What to do to prepare the context.
#[derive(Debug)]
pub enum ContextStep {
    /// Nothing is to be summed up.
    Ready(PreparedContext),
    /// Have this text, made of the first `count` messages, summed up.
    Summarize { count: usize, text: String },
}

/// How many messages to sum up: those that are `target` tokens, or fewer where
/// these would not fit the context of the model that sums up.
pub open spec fn guarded_boundary(s: Seq<MessageView>, target: nat, model_max: u32) -> int {
    let n = summary_boundary(s, target);
    if n == 0 {
        0
    } else if token_estimate(s.take(n)) > model_max as nat * 9 / 10 {
        summary_boundary(s, model_max as nat * 7 / 10)
    } else {
        n
    }
}

/// Decides whether to sum anything up, and what. `over` tells whether the
/// history is over the threshold, `target` how many tokens to sum up, and
/// `model_max` how many the model that sums up can take.
pub fn begin_context(
    history: &Vec<Message>,
    system_prompt: &str,
    over: bool,
    target: u32,
    model_max: u32,
) -> (r: ContextStep)
    ensures
        ({
            let s = messages_view(history@);
            let n = guarded_boundary(s, target as nat, model_max);
            match r {
                ContextStep::Ready(p) => {
                    &&& !over || n == 0
                    &&& messages_view(p.messages@) == without_summaries(s)
                    &&& forall|i: int|
                        0 <= i < p.messages@.len() ==> !((#[trigger] messages_view(
                            p.messages@,
                        )[i]) is Summary)
                    &&& p.system_prompt@ == folded_prompt(s, system_prompt@)
                    &&& p.summarization is None
                },
                ContextStep::Summarize { count, text } => {
                    &&& over
                    &&& count == n
                    &&& 0 < count <= history@.len()
                    &&& text@ == joined(lines_up_to(s, n), "\n"@)
                },
            }
        }),
{
    if !over {
        return ContextStep::Ready(fold_summaries_into_prompt(history, system_prompt));
    }
    let selected = select_summarization_boundary(history, target);
    if selected == 0 {
        return ContextStep::Ready(fold_summaries_into_prompt(history, system_prompt));
    }
    let most: u64 = (model_max as u64) * 9 / 10;
    let count: usize = if estimate_tokens(history, selected) as u64 > most {
        let less: u32 = ((model_max as u64) * 7 / 10) as u32;
        select_summarization_boundary(history, less)
    } else {
        selected
    };
    if count == 0 {
        return ContextStep::Ready(fold_summaries_into_prompt(history, system_prompt));
    }
    let text = format_messages_for_summary(history, count);
    ContextStep::Summarize { count, text }
}

/// The texts among some blocks.
pub open spec fn block_texts(s: Seq<ContentBlockView>) -> Seq<Seq<char>>
    decreases s.len(),
{
    if s.len() == 0 {
        Seq::empty()
    } else {
        match s.last() {
            ContentBlockView::Text { text } => block_texts(s.drop_last()).push(text),
            _ => block_texts(s.drop_last()),
        }
    }
}

/// What the model is told when it is to sum a conversation up.
pub const SUMMARY_PROMPT: &'static str = "Compress this conversation into a dense factual summary. Preserve all names, numbers, decisions, stated preferences, and tool results. Be concise.";

/// How many tokens a summary may be.
pub const SUMMARY_MAX_TOKENS: u32 = 2048;

/// What the model is asked when it is to sum a conversation up.
#[derive(Debug)]
pub struct SummaryRequest {
    pub system: String,
    pub messages: Vec<Message>,
    pub max_tokens: u32,
}

/// Asks the model to sum up a conversation that was written down as `text`.
pub fn summary_request(text: String) -> (r: SummaryRequest)
    ensures
        r.system@ == SUMMARY_PROMPT@,
        messages_view(r.messages@) == seq![MessageView::User { content: text@ }],
        r.max_tokens == SUMMARY_MAX_TOKENS,
{
    let ghost words = text@;
    let mut messages: Vec<Message> = Vec::new();
    messages.push(Message::User { content: text });
    assert(messages_view(messages@) =~= seq![MessageView::User { content: words }]);
    SummaryRequest { system: SUMMARY_PROMPT.to_owned(), messages, max_tokens: SUMMARY_MAX_TOKENS }
}

/// The summary in an answer of the model: its texts, one per line.
pub fn summary_of_response(content: &Vec<ContentBlock>) -> (r: Result<String, String>)
    ensures
        ({
            let text = joined(block_texts(blocks_view(content@)), "\n"@);
            if text.len() == 0 {
                r is Err && r->Err_0@ == "summarization LLM returned empty response"@
            } else {
                r is Ok && r->Ok_0@ == text
            }
        }),
{
    let ghost all = blocks_view(content@);
    let mut texts: Vec<String> = Vec::new();
    let mut i: usize = 0;
    assert(views(texts@) =~= block_texts(all.take(0)));
    while i < content.len()
        invariant
            0 <= i <= content@.len(),
            all == blocks_view(content@),
            views(texts@) == block_texts(all.take(i as int)),
        decreases content@.len() - i,
    {
        let ghost before = views(texts@);
        assert(all.take(i + 1).drop_last() =~= all.take(i as int));
        assert(all[i as int] == content@[i as int]@);
        if let ContentBlock::Text { text } = &content[i] {
            texts.push(text.clone());
            assert(views(texts@) =~= before.push(text@));
        }
        i += 1;
    }
    assert(all.take(i as int) =~= all);
    let text = join(&texts, "\n");
    if text.as_str().is_empty() {
        return Err("summarization LLM returned empty response".to_owned());
    }
    Ok(text)
}

/// The summary of the first `count` messages, as a message.
pub open spec fn summary_message(text: Seq<char>, count: usize) -> MessageView {
    MessageView::Summary {
        content: text,
        messages_summarized: count as u32,
        source_range: (0usize, (count - 1) as usize),
    }
}

/// What is left of the history once its first `count` messages are summed up:
/// the summary, and the rest behind it.
pub open spec fn left_after(s: Seq<MessageView>, text: Seq<char>, count: usize) -> Seq<MessageView> {
    seq![summary_message(text, count)] + s.skip(count as int)
}

/// About how many tokens a summary saves.
pub open spec fn tokens_saved(s: Seq<MessageView>, text: Seq<char>) -> u32 {
    let before = token_estimate(s);
    let after = (capped(text.len()) / 4) as u32;
    if before >= after {
        (before - after) as u32
    } else {
        0
    }
}

/// Prepares the context once the answer of the model that sums up is in. Where
/// it gave no summary, the history stays as it is.
pub fn finish_context(
    history: &Vec<Message>,
    system_prompt: &str,
    count: usize,
    summary: Result<String, String>,
) -> (r: PreparedContext)
    requires
        0 < count <= history@.len(),
    ensures
        forall|i: int|
            0 <= i < r.messages@.len() ==> !((#[trigger] messages_view(r.messages@)[i]) is Summary),
        match summary {
            Ok(text) => {
                let s = messages_view(history@);
                let left = left_after(s, text@, count);
                &&& messages_view(r.messages@) == without_summaries(left)
                &&& r.system_prompt@ == folded_prompt(left, system_prompt@)
                &&& r.summarization is Some
                &&& messages_view(r.summarization->0.archived_messages@) == s.take(count as int)
                &&& r.summarization->0.summary@ == summary_message(text@, count)
                &&& r.summarization->0.source_range == (0usize, (count - 1) as usize)
                &&& r.summarization->0.tokens_saved_estimate == tokens_saved(
                    s.take(count as int),
                    text@,
                )
            },
            Err(_) => {
                let s = messages_view(history@);
                &&& messages_view(r.messages@) == without_summaries(s)
                &&& r.system_prompt@ == folded_prompt(s, system_prompt@)
                &&& r.summarization is None
            },
        },
{
    match summary {
        Err(_) => fold_summaries_into_prompt(history, system_prompt),
        Ok(text) => {
            let ghost s = messages_view(history@);
            let before = estimate_tokens(history, count);
            let after: u32 = (text.as_str().unicode_len() / 4) as u32;
            let saved = before.saturating_sub(after);
            let archived = copy_messages(history, 0, count);
            assert(s.subrange(0, count as int) =~= s.take(count as int));
            let message = Message::Summary {
                content: text,
                messages_summarized: count as u32,
                source_range: (0, count - 1),
            };
            let mut left: Vec<Message> = Vec::new();
            left.push(message.copy());
            let mut rest = copy_messages(history, count, history.len());
            let ghost tail = messages_view(rest@);
            assert(tail =~= s.skip(count as int));
            left.append(&mut rest);
            assert(messages_view(left@) =~= seq![message@] + tail);
            let prepared = fold_summaries_into_prompt(&left, system_prompt);
            PreparedContext {
                messages: prepared.messages,
                system_prompt: prepared.system_prompt,
                summarization: Some(
                    SummarizationResult {
                        archived_messages: archived,
                        summary: message,
                        source_range: (0, count - 1),
                        tokens_saved_estimate: saved,
                    },
                ),
            }
        },
    }
}

/// Nothing of the history is lost when its start is summed up: what is
/// archived and what is left behind the summary are the whole of it. The
/// history grows no longer by it.
pub proof fn law_archived_and_left_are_all(s: Seq<MessageView>, text: Seq<char>, count: usize)
    requires
        0 < count <= s.len(),
    ensures
        s.take(count as int) + left_after(s, text, count).skip(1) == s,
        left_after(s, text, count)[0] == summary_message(text, count),
        left_after(s, text, count).len() <= s.len(),
{
    assert(left_after(s, text, count).skip(1) =~= s.skip(count as int));
    assert(s.take(count as int) + s.skip(count as int) =~= s);
}

/// No summary is sent as a message, and nothing else is held back: every
/// message is sent or goes to the prompt. A history without summaries is sent
/// as it is.
pub proof fn law_no_summary_is_sent(s: Seq<MessageView>)
    ensures
        forall|i: int|
            0 <= i < without_summaries(s).len() ==> !((#[trigger] without_summaries(s)[i]) is Summary),
        without_summaries(s).len() + summary_texts(s).len() == s.len(),
        (forall|i: int| 0 <= i < s.len() ==> !((#[trigger] s[i]) is Summary)) ==> without_summaries(s)
            == s,
    decreases s.len(),
{
    lemma_without_summaries(s);
    if s.len() > 0 {
        law_no_summary_is_sent(s.drop_last());
        if forall|i: int| 0 <= i < s.len() ==> !((#[trigger] s[i]) is Summary) {
            assert(!(s[s.len() - 1] is Summary));
            assert forall|i: int| 0 <= i < s.drop_last().len() implies !((
            #[trigger] s.drop_last()[i]) is Summary) by {
                assert(!(s[i] is Summary));
            }
            assert(s.drop_last().push(s.last()) =~= s);
        }
    }
}

/// The size of a message of the model is that of its blocks together: those of
/// two lists of blocks add up, and no block counts for less than it is.
pub proof fn law_sizes_of_blocks_add_up(
    a: Seq<ContentBlockView>,
    b: Seq<ContentBlockView>,
    i: int,
)
    requires
        0 <= i < a.len(),
    ensures
        message_size(MessageView::Assistant { content: a + b }) == message_size(
            MessageView::Assistant { content: a },
        ) + message_size(MessageView::Assistant { content: b }),
        message_size(MessageView::Assistant { content: a }) >= message_size(
            MessageView::Assistant { content: seq![a[i]] },
        ),
{
    lemma_blocks_size_adds(a, b);
    let start = a.take(i);
    let behind = a.skip(i + 1);
    assert(start + seq![a[i]] + behind =~= a);
    lemma_blocks_size_adds(start + seq![a[i]], behind);
    lemma_blocks_size_adds(start, seq![a[i]]);
}

proof fn lemma_blocks_size_adds(a: Seq<ContentBlockView>, b: Seq<ContentBlockView>)
    ensures
        blocks_size(a + b) == blocks_size(a) + blocks_size(b),
    decreases b.len(),
{
    if b.len() == 0 {
        assert(a + b =~= a);
    } else {
        assert((a + b).drop_last() =~= a + b.drop_last());
        lemma_blocks_size_adds(a, b.drop_last());
    }
}

/// Every character of what was said counts once: of texts as they are, of
/// calls and results with what they are written with.
pub proof fn law_every_character_counts(
    text: Seq<char>,
    id: Seq<char>,
    value: crate::json::JsonView,
    flag: bool,
    count: u32,
    range: (usize, usize),
)
    ensures
        message_size(MessageView::User { content: text }) == text.len(),
        message_size(
            MessageView::Assistant { content: seq![ContentBlockView::Text { text }] },
        ) == text.len(),
        message_size(
            MessageView::Assistant {
                content: seq![ContentBlockView::ToolUse { id, name: text, input: value }],
            },
        ) == text.len() + json_text(value).len(),
        message_size(
            MessageView::ToolResult { tool_use_id: text, content: value, is_error: flag },
        ) == text.len() + json_text(value).len(),
        message_size(
            MessageView::Summary {
                content: text,
                messages_summarized: count,
                source_range: range,
            },
        ) == text.len(),
        message_size(MessageView::Assistant { content: Seq::empty() }) == 0,
{
    reveal_with_fuel(blocks_size, 2);
    let t = seq![ContentBlockView::Text { text }];
    let u = seq![ContentBlockView::ToolUse { id, name: text, input: value }];
    assert(t.drop_last() =~= Seq::<ContentBlockView>::empty());
    assert(u.drop_last() =~= Seq::<ContentBlockView>::empty());
}

/// The sizes of messages add up, and four characters are about a token: as far
/// as the numbers reach, the estimate is the size over four, rounded down.
pub proof fn law_tokens_are_quarters(a: Seq<MessageView>, b: Seq<MessageView>, m: MessageView)
    ensures
        messages_size(a + b) == messages_size(a) + messages_size(b),
        messages_size(seq![m]) == message_size(m),
        messages_size(Seq::empty()) == 0,
        messages_size(a) < 0x1_0000_0000 ==> 4 * token_estimate(a) <= messages_size(a) < 4
            * token_estimate(a) + 4,
{
    lemma_messages_size_adds(a, b);
    reveal_with_fuel(messages_size, 2);
    assert(seq![m].drop_last() =~= Seq::<MessageView>::empty());
    assert(0x1_0000_0000 - 1 <= usize::MAX);
}

proof fn lemma_messages_size_adds(a: Seq<MessageView>, b: Seq<MessageView>)
    ensures
        messages_size(a + b) == messages_size(a) + messages_size(b),
    decreases b.len(),
{
    if b.len() == 0 {
        assert(a + b =~= a);
    } else {
        assert((a + b).drop_last() =~= a + b.drop_last());
        lemma_messages_size_adds(a, b.drop_last());
    }
}

/// Messages and summaries are told apart one by one, and each kind keeps its
/// order: what is sent of two histories one after the other is what is sent of
/// the first and then of the second, and so with the texts of the summaries.
pub proof fn law_histories_are_folded_in_order(
    a: Seq<MessageView>,
    b: Seq<MessageView>,
    m: MessageView,
)
    ensures
        without_summaries(a + b) == without_summaries(a) + without_summaries(b),
        summary_texts(a + b) == summary_texts(a) + summary_texts(b),
        match m {
            MessageView::Summary { content, messages_summarized, source_range } => {
                &&& without_summaries(seq![m]) == Seq::<MessageView>::empty()
                &&& summary_texts(seq![m]) == seq![content]
            },
            _ => {
                &&& without_summaries(seq![m]) == seq![m]
                &&& summary_texts(seq![m]) == Seq::<Seq<char>>::empty()
            },
        },
    decreases b.len(),
{
    reveal_with_fuel(without_summaries, 2);
    reveal_with_fuel(summary_texts, 2);
    assert(seq![m].drop_last() =~= Seq::<MessageView>::empty());
    if b.len() == 0 {
        assert(a + b =~= a);
        assert(without_summaries(a) + without_summaries(b) =~= without_summaries(a));
        assert(summary_texts(a) + summary_texts(b) =~= summary_texts(a));
    } else {
        assert((a + b).drop_last() =~= a + b.drop_last());
        law_histories_are_folded_in_order(a, b.drop_last(), m);
        assert(without_summaries(a + b) =~= without_summaries(a) + without_summaries(b));
        assert(summary_texts(a + b) =~= summary_texts(a) + summary_texts(b));
    }
}

/// The prompt is sent whole and last, and before it stands every summary of the
/// history; without any the prompt is sent as it is.
pub proof fn law_prompt_carries_the_summaries(s: Seq<MessageView>, prompt: Seq<char>, i: int)
    ensures
        ends_in(folded_prompt(s, prompt), prompt),
        summary_texts(s).len() == 0 ==> folded_prompt(s, prompt) == prompt,
        0 <= i < s.len() && s[i] is Summary ==> contains_text(
            folded_prompt(s, prompt),
            s[i]->Summary_content,
        ),
        summary_texts(s).len() > 0 ==> begins_with(
            folded_prompt(s, prompt),
            "[Previous conversation summary]\n"@,
        ),
{
    let texts = summary_texts(s);
    lemma_folded_prompt(s, prompt);
    if 0 <= i < s.len() && s[i] is Summary {
        let k = lemma_summary_is_kept(s, i);
        let all = joined(texts, "\n\n"@);
        law_joined_holds_each(texts, "\n\n"@, k);
        law_containment_is_transitive(folded_prompt(s, prompt), all, texts[k]);
    }
}

proof fn lemma_folded_prompt(s: Seq<MessageView>, prompt: Seq<char>)
    ensures
        ends_in(folded_prompt(s, prompt), prompt),
        summary_texts(s).len() == 0 ==> folded_prompt(s, prompt) == prompt,
        summary_texts(s).len() > 0 ==> begins_with(
            folded_prompt(s, prompt),
            "[Previous conversation summary]\n"@,
        ),
        summary_texts(s).len() > 0 ==> contains_text(
            folded_prompt(s, prompt),
            joined(summary_texts(s), "\n\n"@),
        ),
{
    if summary_texts(s).len() == 0 {
        law_parts_occur(Seq::empty(), prompt, Seq::empty());
        assert(Seq::<char>::empty() + prompt =~= prompt);
    } else {
        law_four_parts(
            "[Previous conversation summary]\n"@,
            joined(summary_texts(s), "\n\n"@),
            "\n\n"@,
            prompt,
        );
    }
}

proof fn lemma_summary_is_kept(s: Seq<MessageView>, i: int) -> (k: int)
    requires
        0 <= i < s.len(),
        s[i] is Summary,
    ensures
        0 <= k < summary_texts(s).len(),
        summary_texts(s)[k] == s[i]->Summary_content,
{
    let start = s.take(i);
    law_histories_are_folded_in_order(start, seq![s[i]], s[i]);
    law_histories_are_folded_in_order(start + seq![s[i]], s.skip(i + 1), s[i]);
    assert(start + seq![s[i]] + s.skip(i + 1) =~= s);
    summary_texts(start).len() as int
}

/// A boundary moves only where it has to. One before a message that is no
/// result stays where it is. Behind a message that asks for tools it moves on,
/// over nothing but results, to the end of them; else it moves back to the
/// message of the model that comes last before it, or to the start.
pub proof fn law_boundary_moves_no_further(s: Seq<MessageView>, b: int)
    requires
        0 < b <= s.len(),
    ensures
        ({
            let p = pair_boundary(s, b);
            &&& b == s.len() || !(s[b] is ToolResult) ==> p == b
            &&& b < s.len() && s[b] is ToolResult && asks_for_tools(s[b - 1]) ==> {
                &&& b < p <= s.len()
                &&& forall|k: int| b <= k < p ==> (#[trigger] s[k]) is ToolResult
                &&& p < s.len() ==> !(s[p] is ToolResult)
            }
            &&& b < s.len() && s[b] is ToolResult && !asks_for_tools(s[b - 1]) ==> {
                &&& 0 <= p < b
                &&& p > 0 ==> s[p] is Assistant
                &&& forall|k: int| p < k < b ==> !((#[trigger] s[k]) is Assistant)
            }
        }),
{
    lemma_past_results_pass(s, b);
    lemma_past_results(s, b);
    lemma_before_reply_nearest(s, b);
    lemma_before_reply(s, b);
}

proof fn lemma_past_results_pass(s: Seq<MessageView>, b: int)
    requires
        0 <= b <= s.len(),
    ensures
        forall|k: int| b <= k < past_results(s, b) ==> (#[trigger] s[k]) is ToolResult,
        b < s.len() && s[b] is ToolResult ==> past_results(s, b) > b,
    decreases s.len() - b,
{
    if b < s.len() && s[b] is ToolResult {
        lemma_past_results_pass(s, b + 1);
        lemma_past_results(s, b + 1);
    }
}

proof fn lemma_before_reply_nearest(s: Seq<MessageView>, b: int)
    requires
        0 <= b <= s.len(),
    ensures
        forall|k: int| before_reply(s, b) < k < b ==> !((#[trigger] s[k]) is Assistant),
        b > 0 ==> before_reply(s, b) < b,
    decreases b,
{
    if b > 0 && !(s[b - 1] is Assistant) {
        lemma_before_reply_nearest(s, b - 1);
    }
}

/// What is summed up is just enough: the first messages that make the target,
/// and not one of them is needless; where all together do not make it, half of
/// them. Then the boundary is moved off tool pairs.
pub proof fn law_just_enough_is_summed_up(s: Seq<MessageView>, target: nat)
    requires
        s.len() > 0,
    ensures
        ({
            let r = summary_boundary(s, target);
            let half = pair_boundary(s, s.len() as int / 2);
            if tokens_up_to(s, s.len() as int) < target {
                r == half
            } else {
                exists|n: int|
                    0 < n <= s.len() && #[trigger] tokens_up_to(s, n) >= target && (forall|m: int|
                        0 < m < n ==> #[trigger] tokens_up_to(s, m) < target) && r == (if pair_boundary(
                        s,
                        n,
                    ) == 0 {
                        half
                    } else {
                        pair_boundary(s, n)
                    })
            }
        }),
        0 <= summary_boundary(s, target) <= s.len(),
{
    lemma_reaching(s, target, 0);
    lemma_moved_boundary(s, s.len() as int / 2);
    match reaching(s, target, 0) {
        Some(n) => {
            lemma_moved_boundary(s, n);
            lemma_tokens_grow(s, n, s.len() as int);
            assert(tokens_up_to(s, n) >= target);
        },
        None => {
            assert(tokens_up_to(s, s.len() as int) < target);
        },
    }
}

proof fn lemma_reaching(s: Seq<MessageView>, target: nat, from: int)
    requires
        0 <= from <= s.len(),
    ensures
        match reaching(s, target, from) {
            Some(n) => from < n <= s.len() && tokens_up_to(s, n) >= target && forall|m: int|
                from < m < n ==> #[trigger] tokens_up_to(s, m) < target,
            None => forall|m: int| from < m <= s.len() ==> #[trigger] tokens_up_to(s, m) < target,
        },
    decreases s.len() - from,
{
    if from < s.len() && tokens_up_to(s, from + 1) < target {
        lemma_reaching(s, target, from + 1);
    }
}

proof fn lemma_tokens_grow(s: Seq<MessageView>, m: int, n: int)
    requires
        0 <= m <= n,
    ensures
        tokens_up_to(s, m) <= tokens_up_to(s, n),
    decreases n,
{
    if m < n {
        lemma_tokens_grow(s, m, n - 1);
    }
}

/// Tokens are counted message by message: each adds its own quarter.
pub proof fn law_tokens_are_counted_one_by_one(s: Seq<MessageView>, n: int)
    requires
        0 <= n < s.len(),
        message_size(s[n]) < 0x1_0000_0000,
    ensures
        tokens_up_to(s, 0) == 0,
        tokens_up_to(s, n + 1) == tokens_up_to(s, n) + message_size(s[n]) / 4,
{
    assert(0x1_0000_0000 - 1 <= usize::MAX);
}

/// What is summed up fits the model that sums up: it is what was to be summed
/// up where that is no more than nine tenths of what the model can take, and
/// else what makes seven tenths.
pub proof fn law_what_is_summed_up_fits(s: Seq<MessageView>, target: nat, model_max: u32)
    ensures
        ({
            let wanted = summary_boundary(s, target);
            let r = guarded_boundary(s, target, model_max);
            &&& 10 * token_estimate(s.take(wanted)) <= 9 * model_max ==> r == wanted
            &&& wanted > 0 && 10 * token_estimate(s.take(wanted)) >= 9 * model_max + 10 ==> r
                == summary_boundary(s, (7 * model_max / 10) as nat)
            &&& wanted == 0 ==> r == 0
        }),
{
}

/// Nothing that was said is left out of the text that is summed up, and all of
/// it stands in its order: what two histories say one after the other is what
/// the first says and then the second.
#[verifier::rlimit(40)]
pub proof fn law_all_is_written_down(s: Seq<MessageView>, m: int, n: int, i: int)
    requires
        0 <= m <= n <= s.len(),
        0 <= i < n,
    ensures
        lines_up_to(s, n) == lines_up_to(s, m) + lines_up_to(s.skip(m), n - m),
        ({
            let text = joined(lines_up_to(s, n), "\n"@);
            match s[i] {
                MessageView::User { content } => contains_text(text, content),
                MessageView::Assistant { content } => forall|k: int|
                    0 <= k < content.len() ==> match #[trigger] content[k] {
                        ContentBlockView::Text { text: said } => contains_text(text, said),
                        ContentBlockView::ToolUse { id, name, input } => contains_text(text, name)
                            && contains_text(text, json_text(input)),
                    },
                MessageView::ToolResult { tool_use_id, content, is_error } => contains_text(
                    text,
                    tool_use_id,
                ) && contains_text(text, json_text(content)),
                MessageView::Summary { content, messages_summarized, source_range } =>
                    contains_text(text, content),
            }
        }),
    decreases n,
{
    lemma_lines_split(s, m, n);
    lemma_lines_split(s, i, n);
    lemma_lines_split(s.skip(i), 1, n - i);
    let rest = s.skip(i);
    assert(rest[0] == s[i]);
    reveal_with_fuel(lines_up_to, 2);
    let own = message_lines(s[i]);
    assert(lines_up_to(rest, 1) =~= own);
    let all = lines_up_to(s, n);
    let text = joined(all, "\n"@);
    let at = lines_up_to(s, i).len() as int;
    assert(forall|k: int| 0 <= k < own.len() ==> all[at + k] == #[trigger] own[k]);
    let none = Seq::<char>::empty();
    match s[i] {
        MessageView::User { content } => {
            law_parts_occur("User: "@, content, none);
            assert("User: "@ + content + none =~= own[0]);
            lemma_line_is_written(all, at, content);
        },
        MessageView::Summary { content, messages_summarized, source_range } => {
            law_parts_occur("Previous summary: "@, content, none);
            assert("Previous summary: "@ + content + none =~= own[0]);
            lemma_line_is_written(all, at, content);
        },
        MessageView::ToolResult { tool_use_id, content, is_error } => {
            let head = "Tool "@ + (if is_error {
                "error"@
            } else {
                "result"@
            }) + " ("@;
            law_parts_occur(head, tool_use_id, "): "@ + json_text(content));
            assert(head + tool_use_id + ("): "@ + json_text(content)) =~= own[0]);
            law_parts_occur(head + tool_use_id + "): "@, json_text(content), none);
            assert(head + tool_use_id + "): "@ + json_text(content) + none =~= own[0]);
            lemma_line_is_written(all, at, tool_use_id);
            lemma_line_is_written(all, at, json_text(content));
        },
        MessageView::Assistant { content } => {
            assert forall|k: int| 0 <= k < content.len() implies match #[trigger] content[k] {
                ContentBlockView::Text { text: said } => contains_text(text, said),
                ContentBlockView::ToolUse { id, name, input } => contains_text(text, name)
                    && contains_text(text, json_text(input)),
            } by {
                assert(own[k] == block_line(content[k]));
                match content[k] {
                    ContentBlockView::Text { text: said } => {
                        law_parts_occur("Assistant: "@, said, none);
                        assert("Assistant: "@ + said + none =~= own[k]);
                        lemma_line_is_written(all, at + k, said);
                    },
                    ContentBlockView::ToolUse { id, name, input } => {
                        let head = "Assistant [tool_use: "@;
                        law_parts_occur(head, name, "]: "@ + json_text(input));
                        assert(head + name + ("]: "@ + json_text(input)) =~= own[k]);
                        law_parts_occur(head + name + "]: "@, json_text(input), none);
                        assert(head + name + "]: "@ + json_text(input) + none =~= own[k]);
                        lemma_line_is_written(all, at + k, name);
                        lemma_line_is_written(all, at + k, json_text(input));
                    },
                }
            }
        },
    }
}

proof fn lemma_line_is_written(lines: Seq<Seq<char>>, k: int, part: Seq<char>)
    requires
        0 <= k < lines.len(),
        contains_text(lines[k], part),
    ensures
        contains_text(joined(lines, "\n"@), part),
{
    law_joined_holds_each(lines, "\n"@, k);
    law_containment_is_transitive(joined(lines, "\n"@), lines[k], part);
}

proof fn lemma_lines_split(s: Seq<MessageView>, m: int, n: int)
    requires
        0 <= m <= n <= s.len(),
    ensures
        lines_up_to(s, n) == lines_up_to(s, m) + lines_up_to(s.skip(m), n - m),
    decreases n,
{
    if m < n {
        lemma_lines_split(s, m, n - 1);
        assert(s.skip(m)[n - 1 - m] == s[n - 1]);
        assert(lines_up_to(s, n) =~= lines_up_to(s, m) + lines_up_to(s.skip(m), n - m));
    } else {
        assert(lines_up_to(s, n) =~= lines_up_to(s, m) + lines_up_to(s.skip(m), n - m));
    }
}

/// Of an answer of the model the texts count and nothing else, each once and in
/// their order.
pub proof fn law_texts_of_an_answer(
    a: Seq<ContentBlockView>,
    b: Seq<ContentBlockView>,
    c: ContentBlockView,
)
    ensures
        block_texts(a + b) == block_texts(a) + block_texts(b),
        block_texts(seq![c]) == (match c {
            ContentBlockView::Text { text } => seq![text],
            _ => Seq::empty(),
        }),
    decreases b.len(),
{
    reveal_with_fuel(block_texts, 2);
    assert(seq![c].drop_last() =~= Seq::<ContentBlockView>::empty());
    if b.len() == 0 {
        assert(a + b =~= a);
        assert(block_texts(a) + block_texts(b) =~= block_texts(a));
    } else {
        assert((a + b).drop_last() =~= a + b.drop_last());
        law_texts_of_an_answer(a, b.drop_last(), c);
        assert(block_texts(a + b) =~= block_texts(a) + block_texts(b));
    }
}

/// A summary says what it stands for: its text, how many messages, and where
/// they stood. What it saves is what they were, less what it is itself.
pub proof fn law_summary_stands_for_its_messages(
    s: Seq<MessageView>,
    text: Seq<char>,
    count: usize,
)
    requires
        0 < count <= s.len(),
        text.len() < 0x1_0000_0000,
    ensures
        summary_message(text, count) is Summary,
        summary_message(text, count)->Summary_content == text,
        count <= u32::MAX ==> summary_message(text, count)->messages_summarized == count,
        summary_message(text, count)->source_range.0 == 0,
        summary_message(text, count)->source_range.1 + 1 == count,
        text.len() / 4 <= token_estimate(s) ==> tokens_saved(s, text) + text.len() / 4
            == token_estimate(s),
        text.len() / 4 > token_estimate(s) ==> tokens_saved(s, text) == 0,
{
    assert(0x1_0000_0000 - 1 <= usize::MAX);
}

/// Each line says who spoke, and a result whether it is an error.
#[verifier::rlimit(40)]
pub proof fn law_lines_say_who_spoke(m: MessageView, k: int)
    requires
        0 <= k < message_lines(m).len(),
    ensures
        m is User ==> begins_with(message_lines(m)[k], "User: "@),
        m is Assistant ==> begins_with(message_lines(m)[k], "Assistant"@),
        m is Summary ==> begins_with(message_lines(m)[k], "Previous summary: "@),
        m is ToolResult && m->is_error ==> begins_with(message_lines(m)[k], "Tool error ("@),
        m is ToolResult && !m->is_error ==> begins_with(message_lines(m)[k], "Tool result ("@),
        m is Assistant ==> message_lines(m).len() == m->Assistant_content.len(),
        !(m is Assistant) ==> message_lines(m).len() == 1,
{
    let line = message_lines(m)[k];
    match m {
        MessageView::User { content } => {
            law_parts_occur("User: "@, content, Seq::empty());
        },
        MessageView::Summary { content, messages_summarized, source_range } => {
            law_parts_occur("Previous summary: "@, content, Seq::empty());
        },
        MessageView::ToolResult { tool_use_id, content, is_error } => {
            lemma_result_line(tool_use_id, json_text(content), is_error);
        },
        MessageView::Assistant { content } => {
            reveal_strlit("Assistant");
            reveal_strlit("Assistant: ");
            reveal_strlit("Assistant [tool_use: ");
            assert(line == block_line(content[k]));
            assert(line.subrange(0, 9) =~= "Assistant"@);
        },
    }
}

#[verifier::rlimit(40)]
proof fn lemma_result_line(id: Seq<char>, text: Seq<char>, is_error: bool)
    ensures
        ({
            let line = "Tool "@ + (if is_error {
                "error"@
            } else {
                "result"@
            }) + " ("@ + id + "): "@ + text;
            &&& is_error ==> begins_with(line, "Tool error ("@)
            &&& !is_error ==> begins_with(line, "Tool result ("@)
        }),
{
    reveal_strlit("Tool ");
    reveal_strlit("error");
    reveal_strlit("result");
    reveal_strlit(" (");
    reveal_strlit("Tool error (");
    reveal_strlit("Tool result (");
    let kind = if is_error {
        "error"@
    } else {
        "result"@
    };
    let head = "Tool "@ + kind + " ("@;
    let whole = if is_error {
        "Tool error ("@
    } else {
        "Tool result ("@
    };
    assert(head =~= whole);
    law_put_together(head, id, "): "@);
    law_put_together(head, id + "): "@, text);
    law_parts_occur(head, id + "): "@ + text, Seq::empty());
}

/// A size that a number can hold is counted in full.
pub proof fn law_sizes_are_counted_in_full(m: MessageView)
    requires
        message_size(m) < 0x1_0000_0000,
    ensures
        capped(message_size(m)) == message_size(m),
{
    assert(0x1_0000_0000 - 1 <= usize::MAX);
}

/// A message asks for tools where any part of it does, wherever that stands;
/// only the model asks.
pub proof fn law_any_part_can_ask_for_tools(
    a: Seq<ContentBlockView>,
    b: Seq<ContentBlockView>,
    c: ContentBlockView,
    other: MessageView,
)
    ensures
        asks_for_tools(MessageView::Assistant { content: a + b }) <==> asks_for_tools(
            MessageView::Assistant { content: a },
        ) || asks_for_tools(MessageView::Assistant { content: b }),
        asks_for_tools(MessageView::Assistant { content: seq![c] }) <==> c is ToolUse,
        !(other is Assistant) ==> !asks_for_tools(other),
{
    let all = a + b;
    if asks_for_tools(MessageView::Assistant { content: a }) {
        let i = choose|i: int| 0 <= i < a.len() && #[trigger] a[i] is ToolUse;
        assert(all[i] is ToolUse);
    }
    if asks_for_tools(MessageView::Assistant { content: b }) {
        let i = choose|i: int| 0 <= i < b.len() && #[trigger] b[i] is ToolUse;
        assert(all[a.len() + i] is ToolUse);
    }
    if asks_for_tools(MessageView::Assistant { content: all }) {
        let i = choose|i: int| 0 <= i < all.len() && #[trigger] all[i] is ToolUse;
        if i < a.len() {
            assert(a[i] is ToolUse);
        } else {
            assert(b[i - a.len()] is ToolUse);
        }
    }
    assert(seq![c][0] == c);
}

} // verus!
