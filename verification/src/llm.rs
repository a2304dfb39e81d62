//! Messages exchanged with a language model.

use crate::json::{Json, JsonView};
use vstd::prelude::*;

verus! {

/// One block of what a model answered.
#[derive(Debug)]
pub enum ContentBlock {
    Text { text: String },
    ToolUse { id: String, name: String, input: Json },
}

/// What a block holds.
pub enum ContentBlockView {
    Text { text: Seq<char> },
    ToolUse { id: Seq<char>, name: Seq<char>, input: JsonView },
}

impl View for ContentBlock {
    type V = ContentBlockView;

    open spec fn view(&self) -> ContentBlockView {
        match self {
            ContentBlock::Text { text } => ContentBlockView::Text { text: text@ },
            ContentBlock::ToolUse { id, name, input } => ContentBlockView::ToolUse {
                id: id@,
                name: name@,
                input: input@,
            },
        }
    }
}

/// What a list of blocks holds.
pub open spec fn blocks_view(s: Seq<ContentBlock>) -> Seq<ContentBlockView> {
    s.map_values(|b: ContentBlock| b@)
}

impl ContentBlock {
    /// A copy of the block.
    pub fn copy(&self) -> (r: ContentBlock)
        ensures
            r@ == self@,
    {
        match self {
            ContentBlock::Text { text } => ContentBlock::Text { text: text.clone() },
            ContentBlock::ToolUse { id, name, input } => ContentBlock::ToolUse {
                id: id.clone(),
                name: name.clone(),
                input: input.copy(),
            },
        }
    }
}

/// One message of a conversation.
#[derive(Debug)]
#[allow(inconsistent_fields)]
pub enum Message {
    User { content: String },
    Assistant { content: Vec<ContentBlock> },
    ToolResult { tool_use_id: String, content: Json, is_error: bool },
    /// What stands for messages that were archived.
    Summary { content: String, messages_summarized: u32, source_range: (usize, usize) },
}

/// What a message holds.
#[allow(inconsistent_fields)]
pub enum MessageView {
    User { content: Seq<char> },
    Assistant { content: Seq<ContentBlockView> },
    ToolResult { tool_use_id: Seq<char>, content: JsonView, is_error: bool },
    Summary { content: Seq<char>, messages_summarized: u32, source_range: (usize, usize) },
}

impl View for Message {
    type V = MessageView;

    open spec fn view(&self) -> MessageView {
        match self {
            Message::User { content } => MessageView::User { content: content@ },
            Message::Assistant { content } => MessageView::Assistant {
                content: blocks_view(content@),
            },
            Message::ToolResult { tool_use_id, content, is_error } => MessageView::ToolResult {
                tool_use_id: tool_use_id@,
                content: content@,
                is_error: *is_error,
            },
            Message::Summary { content, messages_summarized, source_range } => {
                MessageView::Summary {
                    content: content@,
                    messages_summarized: *messages_summarized,
                    source_range: *source_range,
                }
            },
        }
    }
}

/// What a list of messages holds.
pub open spec fn messages_view(s: Seq<Message>) -> Seq<MessageView> {
    s.map_values(|m: Message| m@)
}

impl Message {
    /// A copy of the message.
    pub fn copy(&self) -> (r: Message)
        ensures
            r@ == self@,
    {
        match self {
            Message::User { content } => Message::User { content: content.clone() },
            Message::Assistant { content } => {
                let ghost all = blocks_view(content@);
                let mut blocks: Vec<ContentBlock> = Vec::new();
                let mut i: usize = 0;
                while i < content.len()
                    invariant
                        0 <= i <= content@.len(),
                        all == blocks_view(content@),
                        blocks_view(blocks@) == all.take(i as int),
                    decreases content@.len() - i,
                {
                    let ghost before = blocks_view(blocks@);
                    blocks.push(content[i].copy());
                    assert(blocks_view(blocks@) =~= before.push(all[i as int]));
                    assert(all.take(i + 1) =~= all.take(i as int).push(all[i as int]));
                    i += 1;
                }
                assert(all.take(i as int) =~= all);
                Message::Assistant { content: blocks }
            },
            Message::ToolResult { tool_use_id, content, is_error } => Message::ToolResult {
                tool_use_id: tool_use_id.clone(),
                content: content.copy(),
                is_error: *is_error,
            },
            Message::Summary { content, messages_summarized, source_range } => Message::Summary {
                content: content.clone(),
                messages_summarized: *messages_summarized,
                source_range: *source_range,
            },
        }
    }
}

/// A copy of the messages from `start` up to `end`.
pub fn copy_messages(v: &Vec<Message>, start: usize, end: usize) -> (r: Vec<Message>)
    requires
        start <= end <= v@.len(),
    ensures
        messages_view(r@) == messages_view(v@).subrange(start as int, end as int),
{
    let ghost all = messages_view(v@);
    let mut out: Vec<Message> = Vec::new();
    let mut i: usize = start;
    while i < end
        invariant
            start <= i <= end <= v@.len(),
            all == messages_view(v@),
            messages_view(out@) == all.subrange(start as int, i as int),
        decreases end - i,
    {
        let ghost before = messages_view(out@);
        out.push(v[i].copy());
        assert(messages_view(out@) =~= before.push(all[i as int]));
        assert(all.subrange(start as int, i + 1) =~= all.subrange(start as int, i as int).push(
            all[i as int],
        ));
        i += 1;
    }
    out
}

/// A copy of all the messages.
pub fn copy_history(v: &Vec<Message>) -> (r: Vec<Message>)
    ensures
        messages_view(r@) == messages_view(v@),
{
    let r = copy_messages(v, 0, v.len());
    assert(messages_view(v@).subrange(0, v@.len() as int) =~= messages_view(v@));
    r
}

/// What is known of a message is all that it says.
pub proof fn law_messages_are_seen_whole(m: Message, b: ContentBlock)
    ensures
        m matches Message::User { content } ==> m@ == (MessageView::User { content: content@ }),
        m matches Message::Assistant { content } ==> m@ is Assistant
            && m@->Assistant_content.len() == content@.len() && forall|i: int|
            0 <= i < content@.len() ==> #[trigger] m@->Assistant_content[i] == content@[i]@,
        m matches Message::ToolResult { tool_use_id, content, is_error } ==> m@ == (
        MessageView::ToolResult { tool_use_id: tool_use_id@, content: content@, is_error }),
        m matches Message::Summary { content, messages_summarized, source_range } ==> m@ == (
        MessageView::Summary { content: content@, messages_summarized, source_range }),
        b matches ContentBlock::Text { text } ==> b@ == (ContentBlockView::Text { text: text@ }),
        b matches ContentBlock::ToolUse { id, name, input } ==> b@ == (ContentBlockView::ToolUse {
            id: id@,
            name: name@,
            input: input@,
        }),
{
}

} // verus!
