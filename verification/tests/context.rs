use aaos::context::{
    adjust_boundary_for_tool_pairs, begin_context, estimate_tokens, finish_context,
    fold_summaries_into_prompt, format_messages_for_summary, message_chars,
    select_summarization_boundary, summary_of_response, summary_request, ContextStep,
    PreparedContext,
};
use aaos::json::Json;
use aaos::llm::{copy_history, ContentBlock, Message};

fn user(s: &str) -> Message {
    Message::User { content: s.into() }
}

fn said(s: &str) -> Message {
    Message::Assistant { content: vec![ContentBlock::Text { text: s.into() }] }
}

fn call(id: &str) -> Message {
    Message::Assistant {
        content: vec![ContentBlock::ToolUse {
            id: id.into(),
            name: "search".into(),
            input: Json::Object(vec![("q".into(), Json::Text("test".into()))]),
        }],
    }
}

fn result(id: &str) -> Message {
    Message::ToolResult {
        tool_use_id: id.into(),
        content: Json::Object(vec![("results".into(), Json::Array(vec![]))]),
        is_error: false,
    }
}

fn summary(s: &str) -> Message {
    Message::Summary { content: s.into(), messages_summarized: 10, source_range: (0, 9) }
}

fn make_long_history(n: usize) -> Vec<Message> {
    let mut messages = Vec::new();
    for i in 0..n {
        messages.push(user(&format!("Message {i}: {}", "x".repeat(500))));
        messages.push(said(&format!("Response {i}: {}", "y".repeat(500))));
    }
    messages
}

// Prepares a context as it is done with a budget and a threshold of seven tenths.
fn prepare(history: &Vec<Message>, prompt: &str, budget: u32, answer: Result<&str, &str>) -> PreparedContext {
    let over = estimate_tokens(history, history.len()) as f32 > budget as f32 * 0.7;
    let target = (budget as f32 * 0.4) as u32;
    match begin_context(history, prompt, over, target, 200_000) {
        ContextStep::Ready(p) => p,
        ContextStep::Summarize { count, .. } => {
            let summary = match answer {
                Ok(t) => summary_of_response(&vec![ContentBlock::Text { text: t.into() }]),
                Err(e) => Err(e.to_string()),
            };
            finish_context(history, prompt, count, summary)
        }
    }
}

#[test]
fn message_chars_user() {
    assert_eq!(message_chars(&user("hello")), 5);
}

#[test]
fn message_chars_summary() {
    let msg =
        Message::Summary { content: "abc".into(), messages_summarized: 1, source_range: (0, 0) };
    assert_eq!(message_chars(&msg), 3);
}

#[test]
fn messages_are_measured_in_characters() {
    assert_eq!(message_chars(&user("é")), 1);
    assert_eq!(message_chars(&user("日本")), 2);
    // search, and {"q":"test"}
    assert_eq!(message_chars(&call("call_1")), 6 + 12);
    // call_1, and {"results":[]}
    assert_eq!(message_chars(&result("call_1")), 6 + 14);
}

#[test]
fn estimate_tokens_basic() {
    let msgs = vec![user(&"x".repeat(400))];
    assert_eq!(estimate_tokens(&msgs, 1), 100);
    assert_eq!(estimate_tokens(&msgs, 0), 0);
}

#[test]
fn no_summarization_under_threshold() {
    let history = vec![user("hello"), said("hi")];
    let result = prepare(&history, "You are helpful.", 1_000_000, Ok("unused"));
    assert!(result.summarization.is_none());
    assert_eq!(result.messages.len(), 2);
    assert_eq!(result.system_prompt, "You are helpful.");
}

#[test]
fn summarization_triggers_over_threshold() {
    let history = make_long_history(25); // 50 messages
    let result = prepare(
        &history,
        "You are helpful.",
        2000,
        Ok("User discussed topics 0-24. Key facts preserved."),
    );
    let summ = result.summarization.expect("a summary");
    assert!(!summ.archived_messages.is_empty());
    assert!(summ.tokens_saved_estimate > 0);
    // System prompt should contain the summary prefix
    assert!(result.system_prompt.contains("[Previous conversation summary]"));
    assert_eq!(
        result.system_prompt,
        "[Previous conversation summary]\nUser discussed topics 0-24. Key facts preserved.\n\nYou are helpful."
    );
    // Nothing is lost.
    assert_eq!(summ.archived_messages.len() + result.messages.len(), history.len());
    assert_eq!(summ.source_range, (0, summ.archived_messages.len() - 1));
}

#[test]
fn fallback_on_llm_failure() {
    let history = make_long_history(25);
    let result = prepare(&history, "You are helpful.", 2000, Err("simulated failure"));
    assert!(result.summarization.is_none()); // no summarization on failure
    assert_eq!(result.messages.len(), history.len());
}

#[test]
fn existing_summary_folded_into_prompt() {
    let history = vec![
        summary("Previously: User name is Alice, dog is Rex."),
        user("What's my name?"),
        said("Alice!"),
    ];
    let result = prepare(&history, "You are helpful.", 1_000_000, Ok("unused"));
    assert!(result.system_prompt.contains("Previously: User name is Alice"));
    assert!(result.system_prompt.contains("You are helpful."));
    // Summary should NOT be in the messages list
    assert_eq!(result.messages.len(), 2);
    assert!(!matches!(&result.messages[0], Message::Summary { .. }));
}

#[test]
fn full_flow_summarize_archive_continue() {
    let history = make_long_history(20); // 40 messages
    let text = "Summary: User sent 20 pairs of messages about topics 0-19. Each was acknowledged.";
    let first = prepare(&history, "You are helpful.", 3000, Ok(text));
    let summ = first.summarization.expect("Expected summarization to trigger");
    assert!(!summ.archived_messages.is_empty());

    let end = summ.source_range.1 + 1;
    let mut new_history = vec![summ.summary];
    new_history.extend(copy_history(&history).into_iter().skip(end));
    // Verify the new history is shorter
    assert!(new_history.len() < history.len());
    assert!(matches!(&new_history[0], Message::Summary { messages_summarized, .. }
        if *messages_summarized as usize == end));

    // Second call with new history and large budget: Summary should fold into system prompt
    let second = prepare(&new_history, "You are helpful.", 1_000_000, Ok("unused"));
    assert!(second.summarization.is_none());
    assert!(second.system_prompt.contains("[Previous conversation summary]"));
    assert!(second.system_prompt.contains("Summary: User sent 20 pairs"));
    // Messages should not contain Summary variant
    for msg in &second.messages {
        assert!(!matches!(msg, Message::Summary { .. }));
    }
}

#[test]
fn tool_call_result_pairs_not_split() {
    let history =
        vec![user(&"x".repeat(400)), call("call_1"), result("call_1"), user("thanks")];
    // very small to force summarization
    for budget in [50, 100, 140, 200, 250, 500] {
        let prepared = prepare(&history, "system", budget, Ok("Summary of tool interactions."));
        if let Some(summ) = &prepared.summarization {
            let has_assistant =
                summ.archived_messages.iter().any(|m| matches!(m, Message::Assistant { .. }));
            let has_tool_result =
                summ.archived_messages.iter().any(|m| matches!(m, Message::ToolResult { .. }));
            // If one is there, both must be
            assert_eq!(has_assistant, has_tool_result);
        }
    }
}

#[test]
fn boundaries_move_off_tool_pairs() {
    let history = vec![user("a"), call("1"), result("1"), result("1"), user("b"), result("x")];
    // Behind the call: over its results.
    assert_eq!(adjust_boundary_for_tool_pairs(&history, 2), 4);
    // Between the results: back before the call.
    assert_eq!(adjust_boundary_for_tool_pairs(&history, 3), 1);
    assert_eq!(adjust_boundary_for_tool_pairs(&history, 4), 4);
    assert_eq!(adjust_boundary_for_tool_pairs(&history, 5), 1);
    assert_eq!(adjust_boundary_for_tool_pairs(&history, 6), 6);
    assert_eq!(adjust_boundary_for_tool_pairs(&history, 0), 0);
    assert_eq!(adjust_boundary_for_tool_pairs(&history, 9), 9);
    // Without a call before it there is nothing to go back to.
    assert_eq!(adjust_boundary_for_tool_pairs(&vec![user("a"), result("1")], 1), 0);
}

#[test]
fn the_oldest_messages_are_summed_up_first() {
    let history: Vec<Message> = (0..10).map(|_| user(&"x".repeat(40))).collect();
    assert_eq!(select_summarization_boundary(&history, 25), 3);
    assert_eq!(select_summarization_boundary(&history, 30), 3);
    // Where they are not enough, half of them are.
    assert_eq!(select_summarization_boundary(&history, 1000), 5);
    assert_eq!(select_summarization_boundary(&vec![], 10), 0);
    assert_eq!(select_summarization_boundary(&vec![user("hi")], 10), 0);
}

#[test]
fn a_small_model_is_given_less_to_sum_up() {
    let history: Vec<Message> = (0..10).map(|_| user(&"x".repeat(40))).collect();
    match begin_context(&history, "p", true, 80, 50) {
        ContextStep::Summarize { count, text } => {
            // Seven tenths of fifty are thirty-five tokens, four messages of ten.
            assert_eq!(count, 4);
            assert_eq!(text.lines().count(), 4);
        }
        other => panic!("there is something to sum up: {other:?}"),
    }
    match begin_context(&history, "p", true, 80, 1000) {
        ContextStep::Summarize { count, .. } => assert_eq!(count, 8),
        other => panic!("there is something to sum up: {other:?}"),
    }
}

#[test]
fn conversations_are_written_line_by_line() {
    let history = vec![summary("so far"), user("hi"), call("1"), result("1"), said("done")];
    assert_eq!(
        format_messages_for_summary(&history, 5),
        "Previous summary: so far\nUser: hi\nAssistant [tool_use: search]: {\"q\":\"test\"}\nTool result (1): {\"results\":[]}\nAssistant: done"
    );
    let failed = Message::ToolResult {
        tool_use_id: "2".into(),
        content: Json::Text("no".into()),
        is_error: true,
    };
    assert_eq!(format_messages_for_summary(&vec![failed], 1), "Tool error (2): \"no\"");
}

#[test]
fn summaries_are_joined_before_the_prompt() {
    let p = fold_summaries_into_prompt(&vec![summary("one"), summary("two"), user("hi")], "Be.");
    assert_eq!(p.system_prompt, "[Previous conversation summary]\none\n\ntwo\n\nBe.");
    assert_eq!(p.messages.len(), 1);
}

#[test]
fn no_summary_is_sent_wherever_it_stands() {
    let history = vec![user("hi"), summary("one"), said("hello"), summary("two"), user("bye")];
    let p = prepare(&history, "Be.", 1_000_000, Ok("unused"));
    assert_eq!(p.system_prompt, "[Previous conversation summary]\none\n\ntwo\n\nBe.");
    assert_eq!(p.messages.len(), 3);
    assert!(p.messages.iter().all(|m| !matches!(m, Message::Summary { .. })));
}

#[test]
fn a_summary_is_asked_for_in_one_message() {
    let asked = summary_request("User: hi".into());
    assert!(asked.system.starts_with("Compress this conversation into a dense factual summary."));
    assert!(asked.system.ends_with("and tool results. Be concise."));
    assert_eq!(asked.max_tokens, 2048);
    assert_eq!(asked.messages.len(), 1);
    assert!(matches!(&asked.messages[0], Message::User { content } if content == "User: hi"));
}

#[test]
fn an_empty_summary_is_none() {
    assert_eq!(
        summary_of_response(&vec![]).unwrap_err(),
        "summarization LLM returned empty response"
    );
    let blocks = vec![
        ContentBlock::Text { text: "a".into() },
        ContentBlock::ToolUse { id: "1".into(), name: "n".into(), input: Json::Null },
        ContentBlock::Text { text: "b".into() },
    ];
    assert_eq!(summary_of_response(&blocks).unwrap(), "a\nb");
}
