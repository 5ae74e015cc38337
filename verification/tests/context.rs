use std::sync::Arc;

use guigu::compactor::{
    format_message_line, format_messages_for_summary, CompactionError, CompactionResult,
    LlmCompactor, SummaryInput, SummaryStream,
};
use guigu::context::{
    commit_compaction, complete_plan, default_convert_to_llm, estimate_message_tokens,
    estimate_tokens, estimate_total, plan_context, truncate_to_budget, CompactionCommit,
    CompactionPolicy, ContextBudget, ContextPlan, PreparedContext,
};
use guigu::message::{
    AssistantContent, AssistantMessage, ImageContent, Message, StopReason, ToolCall,
    ToolResultContent, ToolResultMessage, Usage, UserContent, UserMessage,
};
use guigu::provider::{AssistantEvent, Model, ProviderError};

fn user_msg(text: &str) -> Arc<Message> {
    Arc::new(Message::User(UserMessage {
        content: vec![UserContent::Text { text: text.to_string() }],
        timestamp: 0,
    }))
}

fn assistant(content: Vec<AssistantContent>, usage: Option<Usage>) -> Arc<Message> {
    Arc::new(Message::Assistant(AssistantMessage {
        content,
        model: None,
        usage,
        stop_reason: Some(StopReason::Completed),
        error_message: None,
        timestamp: 0,
    }))
}

fn assistant_tool_call(id: &str, name: &str) -> Arc<Message> {
    assistant(
        vec![AssistantContent::ToolCall(ToolCall {
            id: id.to_string(),
            name: name.to_string(),
            arguments: "{}".to_string(),
        })],
        None,
    )
}

fn tool_result(id: &str, name: &str, text: &str) -> Arc<Message> {
    Arc::new(Message::ToolResult(ToolResultMessage {
        tool_call_id: id.to_string(),
        tool_name: name.to_string(),
        is_error: false,
        content: vec![ToolResultContent::Text { text: text.to_string() }],
        details: None,
        timestamp: 0,
    }))
}

fn usage(input: u64, output: u64) -> Usage {
    Usage {
        input,
        output,
        cache_read: 0,
        cache_write: 0,
        total_tokens: input + output,
        cost_bits: 0,
    }
}

fn policy(budget_tokens: usize, keep_recent: usize) -> CompactionPolicy {
    CompactionPolicy {
        budget_tokens,
        keep_recent,
        reserve_output_tokens: 0,
        protocol_wrapper_tokens: 0,
    }
}

/// A compactor with a fixed answer that remembers what it was given.
struct FakeCompactor {
    answer: fn() -> Result<CompactionResult, CompactionError>,
    calls: Vec<Vec<Arc<Message>>>,
}

fn summary() -> Result<CompactionResult, CompactionError> {
    Ok(CompactionResult { summary: "SUMMARY".to_string() })
}

fn failing() -> Result<CompactionResult, CompactionError> {
    Err(CompactionError::Provider(ProviderError::Request(
        "simulated compaction failure".to_string(),
    )))
}

fn cancelling() -> Result<CompactionResult, CompactionError> {
    Err(CompactionError::Cancelled)
}

fn prepare(
    transcript: &[Arc<Message>],
    policy: &CompactionPolicy,
    compactor: &mut FakeCompactor,
) -> Result<PreparedContext, CompactionError> {
    match plan_context(transcript, policy) {
        ContextPlan::Ready(out) => Ok(out),
        ContextPlan::Compact { split, messages } => {
            compactor.calls.push(messages);
            complete_plan(transcript, policy, split, (compactor.answer)())
        }
    }
}

fn fake(answer: fn() -> Result<CompactionResult, CompactionError>) -> FakeCompactor {
    FakeCompactor { answer, calls: Vec::new() }
}

#[test]
fn test_estimate_tokens_positive() {
    assert!(estimate_tokens("") >= 1);
    assert!(estimate_tokens("a".repeat(400).as_str()) > 100);
}

#[test]
fn test_estimate_tokens_boundaries() {
    assert_eq!(estimate_tokens(""), 1);
    assert_eq!(estimate_tokens("abcd"), 2);
    assert_eq!(estimate_tokens("a".repeat(400).as_str()), 101);
}

#[test]
fn estimate_counts_bytes_not_characters() {
    // Four characters of three bytes each.
    assert_eq!(estimate_tokens("日本語字"), 4);
}

#[test]
fn estimate_of_messages_adds_up_their_parts() {
    let image = UserContent::Image(ImageContent {
        data: "abcd".to_string(),
        mime_type: "image/png".to_string(),
    });
    let two = Message::User(UserMessage {
        content: vec![UserContent::Text { text: "abcd".to_string() }, image],
        timestamp: 0,
    });
    let one = Message::User(UserMessage {
        content: vec![UserContent::Text { text: "abcd".to_string() }],
        timestamp: 0,
    });
    assert!(estimate_message_tokens(&two) > estimate_message_tokens(&one));
    assert_eq!(estimate_message_tokens(&one), 2);
    assert_eq!(
        estimate_total(&[Arc::new(one)], 5),
        7
    );
}

#[test]
fn test_budget_fits_and_truncate() {
    let budget = ContextBudget::new(250);
    let msgs: Vec<Arc<Message>> = (0..5)
        .map(|i| user_msg(&format!("m{i}{}", "x".repeat(400))))
        .collect();
    assert!(!budget.fits(&msgs));
    let truncated = budget.truncate(&msgs);
    assert!(budget.fits(&truncated));
    assert!(truncated.len() <= 2);
    assert_eq!(truncated.last().unwrap().as_ref(), msgs.last().unwrap().as_ref());
}

#[test]
fn test_budget_truncate_keeps_last_when_all_oversized() {
    let budget = ContextBudget::new(10);
    let big = user_msg(&"x".repeat(1000));
    let msgs = vec![big.clone(), big.clone()];
    let truncated = budget.truncate(&msgs);
    assert_eq!(truncated.len(), 1);
}

#[test]
fn test_budget_includes_reserve_and_fixed_overhead() {
    let budget = ContextBudget::with_overhead(100, "1234", "1234", 10, 20);
    assert_eq!(budget.available(), 90);
    assert!(!budget.fits(&[user_msg(&"x".repeat(280))]));
}

#[test]
fn test_usage_baseline_is_preferred_for_compaction_budget() {
    let assistant = assistant(
        vec![AssistantContent::Text { text: "tiny".into() }],
        Some(usage(100, 1)),
    );
    let transcript = vec![assistant, user_msg(&"x".repeat(40))];
    let policy = policy(110, 1);
    assert!(estimate_total(&transcript, 0) > policy.budget_tokens as u64);
    let budget = ContextBudget::new(110);
    assert_eq!(budget.estimate(&transcript), estimate_total(&transcript, 0) as u32);
    assert!(!budget.fits(&transcript));
}

#[test]
fn test_usage_baseline_does_not_double_deduct_overhead() {
    let assistant = assistant(
        vec![AssistantContent::Text { text: "tiny".into() }],
        Some(usage(90, 1)),
    );
    let budget = ContextBudget::with_overhead(100, "x".repeat(40).as_str(), "", 0, 0);
    let transcript = vec![assistant];
    assert_eq!(budget.available(), 100);
    assert!(budget.fits(&transcript));
}

#[test]
fn test_fallback_estimate_includes_fixed_overhead() {
    let budget = ContextBudget::with_overhead(100, "x".repeat(40).as_str(), "", 0, 0);
    let transcript = vec![user_msg("x".repeat(400).as_str())];
    assert_eq!(budget.available(), 100);
    assert!(!budget.fits(&transcript));
    assert!(budget.estimate(&[]) >= budget.fixed_overhead);
}

#[test]
fn test_default_convert_to_llm() {
    let msgs = vec![user_msg("hi")];
    let converted = default_convert_to_llm(msgs);
    assert_eq!(converted.len(), 1);
    assert!(matches!(converted[0], Message::User(_)));
}

#[test]
fn test_plan_context_within_budget_no_compaction() {
    let mut compactor = fake(summary);
    let msgs = vec![user_msg("a"), user_msg("b")];
    let out = prepare(&msgs, &policy(10_000, 1), &mut compactor).expect("should succeed");
    assert_eq!(out.request_messages, msgs);
    assert!(out.commit.is_none());
    assert_eq!(compactor.calls.len(), 0);
}

#[test]
fn test_plan_context_over_budget_compacts() {
    let mut compactor = fake(summary);
    let m0 = user_msg(&format!("m0{}", "x".repeat(400)));
    let m1 = user_msg(&format!("m1{}", "x".repeat(400)));
    let m2 = user_msg(&format!("m2{}", "x".repeat(400)));
    let out = prepare(
        &[m0.clone(), m1.clone(), m2.clone()],
        &policy(200, 1),
        &mut compactor,
    )
    .expect("should succeed");
    assert_eq!(out.request_messages.len(), 2);
    assert!(
        matches!(out.request_messages[0].as_ref(), Message::User(u) if u.content.first()
            == Some(&UserContent::Text { text: "SUMMARY".to_string() }))
    );
    assert_eq!(out.request_messages[1], m2);
    let commit = out.commit.expect("should have commit");
    assert_eq!(commit.summary, "SUMMARY");
    assert_eq!(commit.keep_from, 2);
    assert_eq!(compactor.calls.last(), Some(&vec![m0, m1]));
}

#[test]
fn test_plan_context_compaction_failure_degrades() {
    let mut compactor = fake(failing);
    let m0 = user_msg(&format!("m0{}", "x".repeat(400)));
    let m1 = user_msg(&format!("m1{}", "x".repeat(400)));
    let m2 = user_msg(&format!("m2{}", "x".repeat(400)));
    let out = prepare(&[m0, m1, m2.clone()], &policy(200, 1), &mut compactor)
        .expect("should succeed (degrade, not error)");
    assert!(out.request_messages.len() < 3);
    assert!(out.commit.is_none());
    assert_eq!(compactor.calls.len(), 1);
}

#[test]
fn test_plan_context_cancelled_returns_error() {
    let mut compactor = fake(cancelling);
    let m0 = user_msg(&format!("m0{}", "x".repeat(400)));
    let m1 = user_msg(&format!("m1{}", "x".repeat(400)));
    let m2 = user_msg(&format!("m2{}", "x".repeat(400)));
    let result = prepare(&[m0, m1, m2], &policy(200, 1), &mut compactor);
    assert!(matches!(result, Err(CompactionError::Cancelled)));
    assert_eq!(compactor.calls.len(), 1);
}

#[test]
fn test_plan_context_too_few_turns_no_compaction() {
    let mut compactor = fake(summary);
    let big = user_msg(&"x".repeat(400));
    let out = prepare(std::slice::from_ref(&big), &policy(1, 2), &mut compactor)
        .expect("should succeed");
    assert_eq!(out.request_messages, vec![big]);
    assert!(out.commit.is_none());
    assert_eq!(compactor.calls.len(), 0);
}

#[test]
fn test_plan_context_persistent_no_recompact() {
    let mut compactor = fake(summary);
    let m0 = user_msg(&format!("m0{}", "x".repeat(400)));
    let m1 = user_msg(&format!("m1{}", "x".repeat(400)));
    let m2 = user_msg(&format!("m2{}", "x".repeat(400)));
    let first = prepare(
        &[m0.clone(), m1.clone(), m2.clone()],
        &policy(200, 1),
        &mut compactor,
    )
    .expect("should succeed");
    assert_eq!(first.request_messages.len(), 2);
    assert!(first.commit.is_some());
    assert_eq!(compactor.calls.len(), 1);

    let second = prepare(&first.request_messages, &policy(200, 1), &mut compactor)
        .expect("should succeed");
    assert_eq!(second.request_messages, first.request_messages);
    assert!(second.commit.is_none());
    assert_eq!(compactor.calls.len(), 1);
    assert!(!second.request_messages.contains(&m0));
    assert!(!second.request_messages.contains(&m1));
}

#[test]
fn an_empty_summary_is_not_committed() {
    let msgs: Vec<Arc<Message>> = (0..3)
        .map(|i| user_msg(&format!("m{i}{}", "x".repeat(400))))
        .collect();
    let policy = policy(200, 1);
    let split = match plan_context(&msgs, &policy) {
        ContextPlan::Compact { split, .. } => split,
        other => panic!("expected a compaction, got {other:?}"),
    };
    let out = complete_plan(
        &msgs,
        &policy,
        split,
        Err(CompactionError::EmptySummary),
    )
    .expect("degrades");
    assert!(out.commit.is_none());
    assert!(out.request_messages.len() < 3);
}

#[test]
fn a_commit_rewrites_the_transcript_to_what_was_requested() {
    let msgs: Vec<Arc<Message>> = (0..3)
        .map(|i| user_msg(&format!("m{i}{}", "x".repeat(400))))
        .collect();
    let mut compactor = fake(summary);
    let out = prepare(&msgs, &policy(200, 1), &mut compactor).expect("compacts");
    let mut transcript = msgs.clone();
    let summary = commit_compaction(
        &mut transcript,
        CompactionCommit { summary: "SUMMARY".to_string(), keep_from: 2 },
    );
    assert_eq!(transcript, out.request_messages);
    assert_eq!(transcript[0], summary);
}

#[test]
fn test_truncate_within_budget() {
    let msgs = vec![user_msg("a"), user_msg("b")];
    let out = truncate_to_budget(&msgs, 10_000);
    assert_eq!(out, msgs);
}

#[test]
fn test_truncate_drops_whole_turns() {
    let msgs: Vec<Arc<Message>> = (0..5)
        .map(|i| user_msg(&format!("m{i}{}", "x".repeat(400))))
        .collect();
    let out = truncate_to_budget(&msgs, 250);
    assert!(out.len() <= 2);
    assert!(matches!(out[0].as_ref(), Message::User(_)));
    assert_eq!(out.last().unwrap().as_ref(), msgs.last().unwrap().as_ref());
}

#[test]
fn test_truncate_topology_safe_tool_call_result() {
    let u0 = user_msg(&format!("u0{}", "x".repeat(400)));
    let a0 = assistant_tool_call("c0", "tool");
    let t0 = tool_result("c0", "tool", &"y".repeat(400));
    let u1 = user_msg(&format!("u1{}", "x".repeat(400)));
    let a1 = assistant_tool_call("c1", "tool");
    let t1 = tool_result("c1", "tool", &"y".repeat(400));
    let u2 = user_msg(&format!("u2{}", "x".repeat(400)));
    let msgs = vec![u0, a0, t0, u1, a1, t1, u2];

    let out = truncate_to_budget(&msgs, 250);
    assert!(!matches!(out.first().unwrap().as_ref(), Message::ToolResult(_)));
    assert!(matches!(out[0].as_ref(), Message::User(_)));
    assert_eq!(out.last().unwrap().as_ref(), msgs.last().unwrap().as_ref());
}

#[test]
fn test_truncate_keeps_last_turn_when_oversized() {
    let big = user_msg(&"x".repeat(1000));
    let msgs = vec![big.clone(), big.clone()];
    let out = truncate_to_budget(&msgs, 10);
    assert_eq!(out.len(), 1);
}

#[test]
fn test_truncate_defensive_first_not_user() {
    let a0 = assistant_tool_call("c0", "tool");
    let t0 = tool_result("c0", "tool", &"y".repeat(400));
    let u0 = user_msg(&format!("u0{}", "x".repeat(1000)));
    let a1 = assistant_tool_call("c1", "tool");
    let t1 = tool_result("c1", "tool", &"y".repeat(400));
    let u1 = user_msg(&format!("u1{}", "x".repeat(1000)));
    let msgs = vec![a0, t0, u0, a1, t1, u1];

    let out = truncate_to_budget(&msgs, 650);
    assert!(!out.is_empty());
    assert!(!matches!(out.first().unwrap().as_ref(), Message::ToolResult(_)));
    assert!(matches!(out.first().unwrap().as_ref(), Message::User(_)));
    assert_eq!(out.len(), 4);
    assert!(matches!(out[1].as_ref(), Message::Assistant(a)
        if a.content.iter().any(|c| matches!(c, AssistantContent::ToolCall(_)))));
    assert!(matches!(out[2].as_ref(), Message::ToolResult(_)));
    assert_eq!(out.last().unwrap().as_ref(), msgs.last().unwrap().as_ref());
}

#[test]
fn test_keep_recent_turn_granularity() {
    let mut compactor = fake(summary);
    let u0 = user_msg(&format!("u0{}", "x".repeat(400)));
    let a0 = assistant_tool_call("c0", "tool");
    let t0 = tool_result("c0", "tool", &"y".repeat(400));
    let u1 = user_msg(&format!("u1{}", "x".repeat(400)));
    let a1 = assistant_tool_call("c1", "tool");
    let t1 = tool_result("c1", "tool", &"y".repeat(400));
    let u2 = user_msg(&format!("u2{}", "x".repeat(400)));
    let msgs = vec![u0, a0, t0, u1.clone(), a1, t1, u2.clone()];

    let out = prepare(&msgs, &policy(200, 2), &mut compactor).expect("should succeed");
    let commit = out.commit.expect("should have commit");
    assert_eq!(commit.keep_from, 3);
    assert_eq!(out.request_messages.len(), 5);
    assert_eq!(out.request_messages[1], u1);
    assert_eq!(out.request_messages[4], u2);
    assert_eq!(compactor.calls.last().unwrap().len(), 3);
}

#[test]
fn test_format_messages_default() {
    let tool_result = tool_result("c1", "echo", "result");
    let assistant = Arc::new(Message::Assistant(AssistantMessage {
        content: vec![
            AssistantContent::Text { text: "hi".to_string() },
            AssistantContent::ToolCall(ToolCall {
                id: "c1".to_string(),
                name: "echo".to_string(),
                arguments: "{\"x\":1}".to_string(),
            }),
        ],
        model: None,
        usage: None,
        stop_reason: None,
        error_message: None,
        timestamp: 0,
    }));
    let messages = vec![user_msg("hello"), assistant, tool_result];
    let formatted = format_messages_for_summary(&messages);
    assert_eq!(
        formatted,
        "[user] hello\n[assistant] hi\ntool_call:echo\n[tool_result:echo] result"
    );
}

#[test]
fn test_format_messages_multisegment_and_thinking_ignored() {
    let user = Arc::new(Message::User(UserMessage {
        content: vec![
            UserContent::Text { text: "line1".to_string() },
            UserContent::Text { text: "line2".to_string() },
        ],
        timestamp: 0,
    }));
    let assistant = assistant(
        vec![
            AssistantContent::Thinking { text: "hidden".to_string() },
            AssistantContent::Text { text: "visible".to_string() },
        ],
        None,
    );
    let formatted = format_messages_for_summary(&[user, assistant]);
    assert_eq!(formatted, "[user] line1\nline2\n[assistant] visible");
}

#[test]
fn one_message_is_formatted_on_its_own() {
    assert_eq!(format_message_line(&user_msg("hello")), "[user] hello");
    assert_eq!(
        format_message_line(&tool_result("c1", "echo", "out")),
        "[tool_result:echo] out"
    );
}

fn model() -> Model {
    Model { id: "m".to_string(), context_window: 1000 }
}

fn done_event(text: &str) -> AssistantEvent {
    AssistantEvent::Done {
        message: AssistantMessage {
            content: vec![AssistantContent::Text { text: text.to_string() }],
            model: None,
            usage: None,
            stop_reason: Some(StopReason::Completed),
            error_message: None,
            timestamp: 0,
        },
    }
}

fn collect(events: Vec<AssistantEvent>) -> Result<CompactionResult, CompactionError> {
    let mut stream = SummaryStream::new();
    for event in events {
        if let Some(end) = stream.step(SummaryInput::Event(event)) {
            return end;
        }
    }
    stream.step(SummaryInput::End).expect("the end ends it")
}

#[test]
fn test_compact_accumulates_text_and_builds_request() {
    let compactor = LlmCompactor::new(model(), "summarize this".to_string());
    let messages = vec![
        user_msg("a"),
        assistant(vec![AssistantContent::Text { text: "b".to_string() }], None),
    ];
    let req = compactor.request(&messages, false).expect("a request");
    let result = collect(vec![
        AssistantEvent::TextDelta { text: "Hello".to_string() },
        AssistantEvent::TextDelta { text: " world".to_string() },
        done_event("Hello world"),
    ])
    .expect("compact should succeed");
    assert_eq!(result.summary, "Hello world");
    assert_eq!(req.context.system_prompt, "summarize this");
    assert_eq!(req.context.messages.len(), 2);
    assert_eq!(req.context.messages[0], *messages[0]);
    assert_eq!(req.context.messages[1], *messages[1]);
    assert!(req.context.tools.is_empty());
}

#[test]
fn test_compact_stream_inner_error() {
    let result = collect(vec![AssistantEvent::Error {
        message: "boom".to_string(),
        aborted: false,
    }]);
    assert!(matches!(result, Err(CompactionError::Provider(_))));
}

#[test]
fn test_compact_empty_input() {
    let compactor = LlmCompactor::new(model(), "p".to_string());
    assert!(matches!(
        compactor.request(&[], false),
        Err(CompactionError::EmptyInput)
    ));
}

#[test]
fn test_compact_pre_cancelled() {
    let compactor = LlmCompactor::new(model(), "p".to_string());
    assert!(matches!(
        compactor.request(&[user_msg("a")], true),
        Err(CompactionError::Cancelled)
    ));
}

#[test]
fn test_compact_cancelled_during_accumulation() {
    let mut stream = SummaryStream::new();
    assert!(stream
        .step(SummaryInput::Event(AssistantEvent::TextDelta { text: "x".to_string() }))
        .is_none());
    assert!(matches!(
        stream.step(SummaryInput::Cancelled),
        Some(Err(CompactionError::Cancelled))
    ));
}

#[test]
fn an_answer_without_text_is_no_summary() {
    assert_eq!(collect(vec![done_event("")]), Err(CompactionError::EmptySummary));
    assert_eq!(collect(Vec::new()), Err(CompactionError::EmptySummary));
    assert_eq!(
        collect(vec![AssistantEvent::TextDelta { text: "s".to_string() }])
            .map(|c| c.summary),
        Ok("s".to_string())
    );
}

#[test]
fn errors_of_the_compactor_have_their_texts() {
    assert_eq!(CompactionError::Cancelled.message(), "compaction cancelled");
    assert_eq!(CompactionError::EmptyInput.message(), "no messages to compact");
    assert_eq!(CompactionError::EmptySummary.message(), "empty summary");
    assert_eq!(
        CompactionError::Provider(ProviderError::Timeout).message(),
        "summary provider error: Provider request timed out"
    );
    let aborted = collect(vec![AssistantEvent::Error {
        message: "stop".to_string(),
        aborted: true,
    }]);
    assert!(matches!(
        aborted,
        Err(CompactionError::Provider(ProviderError::Aborted))
    ));
}
