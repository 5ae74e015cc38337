use std::collections::VecDeque;
use std::sync::Arc;

use guigu::agent::{
    all_processed, wait_check, wait_ended, AgentCommand, AgentConfig, AgentError, AgentSnapshot,
    WaitEvent, WaitStep,
};
use guigu::context::CompactionCommit;
use guigu::event::AgentEvent;
use guigu::message::{
    AssistantContent, AssistantMessage, Message, StopReason, ThinkingLevel, ToolCall,
    ToolResultContent, UserContent, UserMessage,
};
use guigu::ordered::OrderedMap;
use guigu::provider::{AssistantEvent, ProviderError};
use guigu::runtime::commands::{
    collect_pending, drain_commands, requeue, requeue_followups, stop_reason_for_error,
    stops_run,
};
use guigu::runtime::run::{
    build_request, project_request, tool_schemas, AgentRun, CommandPlan, DrainPoint, LoopConfig,
    RunEffect, RunRequest, RunStep, RuntimeState,
};
use guigu::runtime::tools::{
    order_results, outcome, plan_groups, prepare_call, result_messages, tool_specs, CallGroup,
    ToolExecutionMode, ToolInfo,
};
use guigu::runtime::turn::{
    backoff_delay, extract_tool_calls, retry_step, stream_failure_result, RetryPolicy, RetryStep,
    StreamStep, TurnAccumulator, TurnResult, TurnStream,
};
use guigu::text;
use guigu::tool::{ResourceScope, ToolError, ToolResult};

fn user_msg(text: &str) -> Message {
    Message::User(UserMessage {
        content: vec![UserContent::Text { text: text.to_string() }],
        timestamp: 0,
    })
}

fn tool(name: &str, scope: ResourceScope) -> ToolInfo {
    ToolInfo {
        name: name.to_string(),
        description: format!("does {name}"),
        parameters: None,
        scope,
    }
}

fn call(id: &str, name: &str, arguments: &str) -> ToolCall {
    ToolCall { id: id.to_string(), name: name.to_string(), arguments: arguments.to_string() }
}

fn text_delta(text: &str) -> AssistantEvent {
    AssistantEvent::TextDelta { text: text.to_string() }
}

fn answer(content: Vec<AssistantContent>) -> AssistantMessage {
    AssistantMessage {
        content,
        model: None,
        usage: None,
        stop_reason: Some(StopReason::Completed),
        error_message: None,
        timestamp: 0,
    }
}

fn turn(content: Vec<AssistantContent>) -> TurnResult {
    let assistant_message = answer(content);
    let tool_calls = extract_tool_calls(&assistant_message);
    TurnResult { assistant_message, tool_calls, aborted: false, shutdown: false }
}

fn say(text: &str) -> TurnResult {
    turn(vec![AssistantContent::Text { text: text.to_string() }])
}

/// What a run is given: its turns, and the commands that arrive where they are looked at.
struct Script {
    turns: VecDeque<TurnResult>,
    commands: VecDeque<Vec<AgentCommand>>,
    stop: bool,
    next: Vec<Message>,
}

fn script(turns: Vec<TurnResult>) -> Script {
    Script {
        turns: turns.into_iter().collect(),
        commands: VecDeque::new(),
        stop: false,
        next: Vec::new(),
    }
}

fn name(event: &AgentEvent) -> &'static str {
    match event {
        AgentEvent::AgentStart => "agent_start",
        AgentEvent::AgentEnd { .. } => "agent_end",
        AgentEvent::TurnStart => "turn_start",
        AgentEvent::TurnEnd { .. } => "turn_end",
        AgentEvent::MessageStart { .. } => "message_start",
        AgentEvent::MessageUpdate { .. } => "message_update",
        AgentEvent::MessageEnd { .. } => "message_end",
        AgentEvent::ToolExecutionStart { .. } => "tool_start",
        AgentEvent::ToolExecutionUpdate { .. } => "tool_update",
        AgentEvent::ToolExecutionEnd { .. } => "tool_end",
    }
}

/// Runs an agent on a script; the names of the events that it reports.
fn drive(state: &mut RuntimeState, initial: Vec<Message>, mut script: Script) -> (AgentRun, Vec<&'static str>) {
    let mut events = Vec::new();
    let (mut run, mut step): (AgentRun, RunStep) = AgentRun::start(state, initial);
    loop {
        for effect in &step.effects {
            if let RunEffect::Emit(event) = effect {
                events.push(name(event));
            }
        }
        step = match step.next {
            RunRequest::Drain(point) => {
                let received = script.commands.pop_front().unwrap_or_default();
                match point {
                    DrainPoint::Initial => run.drained_initial(state, received),
                    DrainPoint::NoTools => run.drained_no_tools(state, received),
                    DrainPoint::AfterTools => run.drained_after_tools(state, received),
                }
            }
            RunRequest::Prepare => match script.turns.pop_front() {
                Some(turn) => run.turn_done(state, turn),
                None => run.prepare_aborted(state),
            },
            RunRequest::RunTools(calls) => {
                let tools = [tool("echo", ResourceScope::ReadOnly)];
                let prepared: Vec<_> = calls.iter().map(|tc| prepare_call(&tools, tc)).collect();
                let results = prepared
                    .iter()
                    .map(|p| match p.immediate_result() {
                        Some(r) => r,
                        None => ToolResult::text("ran".to_string()),
                    })
                    .collect();
                let messages = result_messages(&prepared, results);
                run.tools_done(state, messages)
            }
            RunRequest::AskStop => run.stop_answered(state, script.stop),
            RunRequest::AskNext => {
                let next = std::mem::take(&mut script.next);
                run.next_answered(state, next)
            }
            RunRequest::Finished => return (run, events),
        };
    }
}

#[test]
fn test_prompt_triggers_events() {
    let mut state = RuntimeState::new(Vec::new());
    let (run, events) = drive(&mut state, vec![user_msg("hi")], script(vec![say("ok")]));
    let outline: Vec<&str> = events
        .iter()
        .copied()
        .filter(|e| !e.starts_with("message"))
        .collect();
    assert_eq!(outline, vec!["agent_start", "turn_start", "turn_end", "agent_end"]);
    assert_eq!(state.transcript.len(), 2);
    assert_eq!(*state.transcript[0], user_msg("hi"));
    assert_eq!(run.consumed, 0);
    assert!(!run.shutdown);
}

#[test]
fn tool_calls_lead_to_another_turn() {
    let mut state = RuntimeState::new(Vec::new());
    let turns = vec![
        turn(vec![AssistantContent::ToolCall(call("c1", "echo", "{}"))]),
        say("done"),
    ];
    let (_, events) = drive(&mut state, vec![user_msg("go")], script(turns));
    assert_eq!(events.iter().filter(|e| **e == "turn_start").count(), 2);
    assert_eq!(state.transcript.len(), 4);
    assert!(matches!(&*state.transcript[2], Message::ToolResult(r)
        if r.tool_call_id == "c1" && !r.is_error));
}

#[test]
fn a_hook_can_stop_the_run_or_add_messages() {
    let tool_turn = || turn(vec![AssistantContent::ToolCall(call("c1", "echo", "{}"))]);
    let mut state = RuntimeState::new(Vec::new());
    let mut stopping = script(vec![tool_turn(), say("never")]);
    stopping.stop = true;
    let (_, events) = drive(&mut state, vec![user_msg("go")], stopping);
    assert_eq!(events.last(), Some(&"agent_end"));
    assert_eq!(state.transcript.len(), 3);

    let mut state = RuntimeState::new(Vec::new());
    let mut adding = script(vec![tool_turn(), say("done")]);
    adding.next = vec![user_msg("injected")];
    drive(&mut state, vec![user_msg("go")], adding);
    assert_eq!(*state.transcript[3], user_msg("injected"));
}

#[test]
fn steering_comes_before_following_up() {
    let mut state = RuntimeState::new(Vec::new());
    let mut s = script(vec![say("one"), say("two"), say("three")]);
    // After the message that the run began with nothing has arrived; then three commands have.
    s.commands.push_back(Vec::new());
    s.commands.push_back(vec![
        AgentCommand::FollowUp(user_msg("later")),
        AgentCommand::Steer(user_msg("now")),
        AgentCommand::Prompt(vec![user_msg("another run")]),
    ]);
    let (run, _) = drive(&mut state, vec![user_msg("go")], s);
    let said: Vec<&Message> = state.transcript.iter().map(|m| m.as_ref()).collect();
    assert_eq!(said[2], &user_msg("now"));
    assert_eq!(said[4], &user_msg("later"));
    assert_eq!(run.consumed, 2);
    assert_eq!(
        state.next_command(),
        Some(AgentCommand::Prompt(vec![user_msg("another run")]))
    );
    assert_eq!(state.next_command(), None);
}

#[test]
fn an_abort_keeps_the_messages_for_later() {
    let mut state = RuntimeState::new(Vec::new());
    let mut s = script(vec![say("one"), say("never")]);
    s.commands.push_back(Vec::new());
    s.commands.push_back(vec![AgentCommand::Steer(user_msg("now")), AgentCommand::Abort]);
    let (run, events) = drive(&mut state, vec![user_msg("go")], s);
    assert_eq!(events.last(), Some(&"agent_end"));
    assert_eq!(run.consumed, 0);
    assert!(!run.shutdown);
    assert_eq!(state.next_command(), Some(AgentCommand::Steer(user_msg("now"))));
}

#[test]
fn a_shutdown_ends_the_run_and_the_agent() {
    let mut state = RuntimeState::new(Vec::new());
    let mut s = script(vec![say("one")]);
    s.commands.push_back(Vec::new());
    s.commands.push_back(vec![AgentCommand::Shutdown]);
    let (run, _) = drive(&mut state, vec![user_msg("go")], s);
    assert!(run.shutdown);
}

#[test]
fn a_request_that_was_cancelled_ends_the_turn_as_aborted() {
    let mut state = RuntimeState::new(Vec::new());
    let (_, events) = drive(&mut state, vec![user_msg("go")], script(Vec::new()));
    assert_eq!(events.last(), Some(&"agent_end"));
    assert_eq!(state.transcript.len(), 1);
}

#[test]
fn commands_between_runs() {
    let mut state = RuntimeState::new(vec![Arc::new(user_msg("old"))]);
    state.queue.push_back(AgentCommand::Continue);
    assert!(matches!(
        state.process_command(AgentCommand::Prompt(vec![user_msg("a")])),
        CommandPlan::Run(m) if m == vec![user_msg("a")]
    ));
    assert!(matches!(
        state.process_command(AgentCommand::Continue),
        CommandPlan::Run(m) if m.is_empty()
    ));
    assert!(matches!(
        state.process_command(AgentCommand::Steer(user_msg("s"))),
        CommandPlan::Run(m) if m.len() == 1
    ));
    assert!(matches!(state.process_command(AgentCommand::Abort), CommandPlan::Nothing));
    assert!(matches!(state.process_command(AgentCommand::Shutdown), CommandPlan::Exit));
    assert!(matches!(
        state.process_command(AgentCommand::Reset),
        CommandPlan::Cleared { discarded: 1 }
    ));
    assert!(state.transcript.is_empty());
    assert!(state.queue.is_empty());
    state.settle(2);
    assert_eq!(state.processed, 3);
    state.processed = u64::MAX;
    state.settle(5);
    assert_eq!(state.processed, u64::MAX);
}

#[test]
fn draining_loses_nothing() {
    let mut queue: VecDeque<AgentCommand> = VecDeque::new();
    let d = drain_commands(
        vec![
            AgentCommand::Steer(user_msg("s")),
            AgentCommand::Continue,
            AgentCommand::FollowUp(user_msg("f")),
            AgentCommand::Abort,
        ],
        &mut queue,
    );
    assert!(d.aborted && !d.shutdown);
    assert_eq!(d.steer, vec![user_msg("s")]);
    assert_eq!(d.followup, vec![user_msg("f")]);
    assert_eq!(queue, VecDeque::from(vec![AgentCommand::Continue]));
    requeue(d.steer, d.followup, &mut queue);
    let found = collect_pending(vec![AgentCommand::Shutdown], &mut queue);
    assert_eq!(found.steer, vec![user_msg("s")]);
    assert_eq!(found.followup, vec![user_msg("f")]);
    assert!(found.shutdown);
    assert_eq!(queue.len(), 1);
    requeue_followups(found.followup, &mut queue);
    assert_eq!(queue.back(), Some(&AgentCommand::FollowUp(user_msg("f"))));
    assert_eq!(stop_reason_for_error(true), StopReason::Aborted);
    assert_eq!(stop_reason_for_error(false), StopReason::Error);
}

#[test]
fn waiting_before_a_retry_doubles_up_to_a_limit() {
    let delays: Vec<u128> = (0..8).map(|n| backoff_delay(500, 30_000, n)).collect();
    assert_eq!(delays, vec![500, 1000, 2000, 4000, 8000, 16_000, 30_000, 30_000]);
    assert_eq!(backoff_delay(500, 30_000, u32::MAX), 30_000);
    assert_eq!(backoff_delay(0, 30_000, 5), 0);
}

#[test]
fn requests_are_tried_again_a_few_times() {
    let policy = RetryPolicy { max_retries: 2, base_delay: 100, max_delay: 1000 };
    let e = || ProviderError::Network("down".to_string());
    assert!(matches!(
        retry_step(&policy, 0, e(), false),
        RetryStep::Sleep { delay: 100 }
    ));
    assert!(matches!(
        retry_step(&policy, 1, e(), false),
        RetryStep::Sleep { delay: 200 }
    ));
    assert!(matches!(retry_step(&policy, 2, e(), false), RetryStep::Fail(f) if f == e()));
    assert!(matches!(retry_step(&policy, 0, e(), true), RetryStep::Fail(_)));
}

#[test]
fn a_turn_is_collected_from_its_events() {
    let mut acc = TurnAccumulator::new();
    let events = [
        AssistantEvent::ThinkingDelta { thinking: "hm".to_string() },
        text_delta("Hel"),
        text_delta("lo"),
        AssistantEvent::ToolCallStart {
            id: "c1".to_string(),
            name: "echo".to_string(),
            arguments: "{\"a\"".to_string(),
        },
        AssistantEvent::ToolCallDelta {
            id: "c1".to_string(),
            arguments_delta: ":1}".to_string(),
        },
        AssistantEvent::ToolCallEnd { id: "c1".to_string() },
    ];
    for event in &events {
        assert!(!acc.handle_event(event));
    }
    let message = acc.finalize("m");
    assert_eq!(
        message.content,
        vec![
            AssistantContent::Thinking { text: "hm".to_string() },
            AssistantContent::Text { text: "Hello".to_string() },
            AssistantContent::ToolCall(call("c1", "echo", "{\"a\":1}")),
        ]
    );
    assert_eq!(extract_tool_calls(&message), vec![call("c1", "echo", "{\"a\":1}")]);
}

#[test]
fn the_answer_of_the_provider_counts() {
    let mut acc = TurnAccumulator::new();
    acc.handle_event(&text_delta("partial"));
    let whole = answer(vec![AssistantContent::Text { text: "whole".to_string() }]);
    assert!(acc.handle_event(&AssistantEvent::Done { message: whole.clone() }));
    assert_eq!(acc.finalize("m"), whole);
}

#[test]
fn a_turn_that_fails_says_why() {
    let mut acc = TurnAccumulator::new();
    acc.handle_event(&text_delta("partial"));
    assert!(acc.handle_event(&AssistantEvent::Error {
        message: "boom".to_string(),
        aborted: false,
    }));
    let message = acc.finalize("m");
    assert_eq!(message.error_message.as_deref(), Some("boom"));
    assert_eq!(message.stop_reason, Some(StopReason::Error));

    let failed = stream_failure_result("m", ProviderError::Timeout, false);
    assert!(!failed.aborted);
    assert_eq!(
        failed.assistant_message.error_message.as_deref(),
        Some("Provider request timed out")
    );
    for (e, cancelled) in [
        (ProviderError::Aborted, false),
        (ProviderError::Aborted, true),
        (ProviderError::Timeout, true),
    ] {
        let stopped = stream_failure_result("m", e, cancelled);
        assert!(stopped.aborted);
        assert_eq!(stopped.assistant_message.error_message, None);
        assert_eq!(stopped.assistant_message.stop_reason, Some(StopReason::Aborted));
    }
}

#[test]
fn streaming_is_stopped_by_commands() {
    let mut queue: VecDeque<AgentCommand> = VecDeque::new();
    let (mut stream, begin) = TurnStream::begin("m");
    assert!(matches!(begin, AgentEvent::MessageStart { .. }));
    assert!(matches!(
        stream.on_event(text_delta("a"), vec![AgentCommand::Steer(user_msg("s"))], &mut queue),
        StreamStep::Update(AgentEvent::MessageUpdate { .. })
    ));
    assert!(matches!(
        stream.on_event(text_delta("b"), vec![AgentCommand::Shutdown], &mut queue),
        StreamStep::Stop
    ));
    assert_eq!(queue, VecDeque::from(vec![AgentCommand::Steer(user_msg("s"))]));
    let (result, end) = stream.finish();
    assert!(result.aborted && result.shutdown);
    assert!(matches!(end, AgentEvent::MessageEnd { .. }));

    let (mut stream, _) = TurnStream::begin("m");
    stream.on_cancelled();
    let (result, _) = stream.finish();
    assert!(result.aborted && !result.shutdown);
    assert_eq!(result.assistant_message.stop_reason, Some(StopReason::Aborted));
}

#[test]
fn tool_calls_are_prepared() {
    let tools = [tool("read", ResourceScope::ReadOnly), tool("write", ResourceScope::FileWriter)];
    let ok = prepare_call(&tools, &call("1", "write", "{\"path\":\"p\"}"));
    assert_eq!(ok.tool, Some(1));
    assert_eq!(ok.scope, ResourceScope::FileWriter);
    assert_eq!(ok.args["path"], "p");
    assert!(ok.is_open());
    assert!(ok.immediate_result().is_none());

    let unknown = prepare_call(&tools, &call("2", "nope", "{}"));
    assert_eq!(unknown.tool, None);
    assert_eq!(unknown.scope, ResourceScope::Exclusive);
    assert!(unknown.immediate_result().unwrap().is_error);

    let bad = prepare_call(&tools, &call("3", "read", "{not json"));
    assert!(!bad.is_open());
    assert!(bad.immediate_result().unwrap().is_error);
    assert!(bad.args.is_null());
}

#[test]
fn a_veto_keeps_a_tool_from_running() {
    let tools = [tool("read", ResourceScope::ReadOnly)];
    let mut p = prepare_call(&tools, &call("1", "read", "{}"));
    p.apply_veto(Ok(()));
    assert!(p.is_open());
    p.apply_veto(Err("not now".to_string()));
    p.apply_veto(Err("again".to_string()));
    let r = p.immediate_result().expect("refused");
    assert!(r.is_error);
    assert!(matches!(&r.content[0], ToolResultContent::Text { text } if text.contains("not now")));
    assert!(matches!(p.start_event(), AgentEvent::ToolExecutionStart { tool_call_id, .. }
        if tool_call_id == "1"));
    assert!(matches!(p.update_event(ToolResult::text("x".to_string())),
        AgentEvent::ToolExecutionUpdate { .. }));
    assert!(matches!(p.end_event(&r), AgentEvent::ToolExecutionEnd { is_error: true, .. }));
}

#[test]
fn only_readers_run_together() {
    let tools = [
        tool("r", ResourceScope::ReadOnly),
        tool("w", ResourceScope::FileWriter),
    ];
    let calls: Vec<_> = ["r", "r", "w", "r", "x", "r", "r"]
        .iter()
        .map(|n| prepare_call(&tools, &call("c", n, "{}")))
        .collect();
    let spans = |mode| -> Vec<(usize, usize)> {
        plan_groups(mode, &calls).iter().map(|g: &CallGroup| (g.start, g.end)).collect()
    };
    assert_eq!(
        spans(ToolExecutionMode::ReadOnlyParallel),
        vec![(0, 2), (2, 3), (3, 4), (4, 5), (5, 7)]
    );
    assert_eq!(spans(ToolExecutionMode::Sequential).len(), 7);
}

#[test]
fn results_are_put_in_order() {
    let t = |s: &str| ToolResult::text(s.to_string());
    let ordered = order_results(vec![(2, t("c")), (0, t("a")), (1, t("b"))]);
    assert_eq!(ordered, vec![t("a"), t("b"), t("c")]);
    assert!(outcome(Err(ToolError::new("bad".to_string()))).is_error);
    assert_eq!(outcome(Ok(t("x"))), t("x"));
}

#[test]
fn requests_are_built_from_the_configuration() {
    let config = LoopConfig::default();
    assert_eq!(config.retry.max_retries, 3);
    let tools = [tool("read", ResourceScope::ReadOnly)];
    let specs = tool_specs(&tools);
    assert_eq!(specs[0].name, "read");
    assert_eq!(tool_schemas(&tools), "readdoes readNone");
    let req = build_request(&config, "sys", ThinkingLevel::Off, &tools, vec![user_msg("a")]);
    assert_eq!(req.context.system_prompt, "sys");
    assert_eq!(req.context.messages, vec![user_msg("a")]);
    assert_eq!(req.context.tools.len(), 1);
    assert_eq!(req.model.id, "default");

    let mut small = LoopConfig::default();
    small.model.context_window = 10;
    let messages: Vec<Arc<Message>> =
        (0..3).map(|_| Arc::new(user_msg(&"x".repeat(400)))).collect();
    assert_eq!(project_request(&small, "", &[], &messages).len(), 1);
    assert_eq!(project_request(&config, "", &[], &messages), messages);
}

#[test]
fn snapshots_follow_the_run() {
    let config = AgentConfig {
        system_prompt: "p".to_string(),
        model: Some("m".to_string()),
        thinking_level: ThinkingLevel::Off,
    };
    let mut s = AgentSnapshot::initial(&config, Vec::new());
    s.is_streaming = true;
    s.pending_tool_calls.push("c".to_string());
    s.publish(vec![Arc::new(user_msg("a"))], Some("e".to_string()));
    assert!(!s.is_streaming && s.pending_tool_calls.is_empty());
    assert_eq!(s.error_message.as_deref(), Some("e"));
    s.clear();
    assert!(s.messages.is_empty() && s.error_message.is_none());
    assert_eq!(s.model.as_deref(), Some("m"));
}

#[test]
fn waiting_ends_or_fails() {
    assert!(matches!(wait_check(true, true, "x"), WaitStep::Done));
    assert!(matches!(wait_check(false, false, "x"), WaitStep::Wait));
    match wait_check(false, true, "idle") {
        WaitStep::Fail(e) => assert_eq!(e.message(), "Other error: idle timeout"),
        other => panic!("expected a failure, got {other:?}"),
    }
    assert_eq!(wait_ended(WaitEvent::Changed, "x"), Ok(()));
    assert_eq!(
        wait_ended(WaitEvent::Closed, "x").unwrap_err().message(),
        "Other error: x channel closed"
    );
    assert!(wait_ended(WaitEvent::TimedOut, "x").is_err());
    assert!(all_processed(3, 3) && !all_processed(2, 3));
}

#[test]
fn errors_of_an_agent() {
    assert_eq!(AgentError::Busy.message(), "Agent is busy");
    assert_eq!(AgentError::Io("x".to_string()).message(), "IO error: x");
    assert_eq!(AgentError::Busy.to_wire(), "Busy");
    assert_eq!(AgentError::SendError("x".to_string()).to_wire(), "SendError: x");
    assert_eq!(AgentError::from_wire("Busy".to_string()), AgentError::Other("Busy".to_string()));
    // Errors of the file system are not told apart, others are.
    assert_eq!(AgentError::Io("a".to_string()), AgentError::Io("b".to_string()));
    assert_ne!(AgentError::Other("a".to_string()), AgentError::Other("b".to_string()));
    assert_eq!(AgentError::Serialization("a".to_string()).clone().to_wire(), "Serialization: a");
}

#[test]
fn stop_reasons_have_names() {
    for name in ["completed", "aborted", "error", "something else"] {
        let reason = StopReason::from_string(name);
        assert_eq!(StopReason::from_string(&reason.to_name()), reason);
    }
    assert_eq!(StopReason::from_string("my reason").to_name(), "my reason");
}

#[test]
fn names_are_kept_in_order() {
    let mut map: OrderedMap<u32> = OrderedMap::new();
    for (i, key) in ["b", "é", "a", "ab", ""].iter().enumerate() {
        assert_eq!(map.insert_new(key.to_string(), i as u32), Ok(()));
    }
    assert_eq!(map.insert_new("a".to_string(), 9), Err(9));
    assert_eq!(map.keys(), vec!["", "a", "ab", "b", "é"]);
    assert_eq!(map.get("a"), Some(&2));
    assert_eq!(map.remove("a"), Some(2));
    assert_eq!(map.remove("a"), None);
    assert_eq!(map.len(), 4);
    assert!(map.contains("é"));
}

#[test]
fn texts_are_compared_and_written() {
    assert!(text::str_eq("é", "é") && !text::str_eq("a", "ab"));
    assert!(text::str_less("a", "b") && text::str_less("a", "aa") && !text::str_less("b", "a"));
    assert_eq!(text::decimal_u64(0), "0");
    assert_eq!(text::decimal_u64(u64::MAX), u64::MAX.to_string());
    assert_eq!(text::byte_len("é"), 2);
}

#[test]
fn some_commands_stop_a_run() {
    assert!(stops_run(&AgentCommand::Abort));
    assert!(stops_run(&AgentCommand::Shutdown));
    assert!(!stops_run(&AgentCommand::Reset));
    assert!(!stops_run(&AgentCommand::Continue));
    assert!(!stops_run(&AgentCommand::Steer(user_msg("s"))));
    assert!(!stops_run(&AgentCommand::FollowUp(user_msg("f"))));
    assert!(!stops_run(&AgentCommand::Prompt(vec![user_msg("p")])));
}

#[test]
fn a_summary_takes_the_place_of_what_it_stands_for() {
    let old = vec![
        Arc::new(user_msg("a")),
        Arc::new(user_msg("b")),
        Arc::new(user_msg("c")),
    ];
    let kept = old[2].clone();
    let mut state = RuntimeState::new(old);
    let commit = CompactionCommit { summary: "a and b".to_string(), keep_from: 2 };
    let effects = state.apply_commit(commit);
    assert_eq!(state.transcript.len(), 2);
    assert_eq!(*state.transcript[0], user_msg("a and b"));
    assert!(Arc::ptr_eq(&state.transcript[1], &kept));
    assert_eq!(effects.len(), 2);
    match &effects[0] {
        RunEffect::Emit(AgentEvent::MessageEnd { message }) => {
            assert_eq!(**message, user_msg("a and b"));
        }
        other => panic!("the summary is reported, not {other:?}"),
    }
    match &effects[1] {
        RunEffect::Publish { messages, error_message } => {
            assert_eq!(*messages, state.transcript);
            assert_eq!(*error_message, None);
        }
        other => panic!("the transcript is shown, not {other:?}"),
    }
}
