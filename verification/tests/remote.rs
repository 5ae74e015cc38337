use guigu::agent::{AgentCommand, AgentConfig, AgentError, AgentSnapshot};
use guigu::event::AgentEvent;
use guigu::message::{Message, ThinkingLevel, UserContent, UserMessage};
use guigu::remote::client::{
    initial_snapshot, ClientEffect, ClientState, Waited, COMMAND_TIMEOUT_SECS,
};
use guigu::remote::codec::{decode_line, encode_line, frame_text};
use guigu::remote::protocol::{
    read_result, write_result, RemoteError, RemoteRequest, ServerMessage,
};
use guigu::remote::server::{
    dispatch, forward, greeting, next_step, respond, sent, shut_down, EventInput, EventStep,
    RemoteAction, RemoteInput, RemoteStep,
};
use guigu::remote::SplitDuplex;
use guigu::session::log::split_lines;

fn user_msg(text: &str) -> Message {
    Message::User(UserMessage {
        content: vec![UserContent::Text { text: text.to_string() }],
        timestamp: 0,
    })
}

fn all_requests() -> Vec<RemoteRequest> {
    vec![
        RemoteRequest::Prompt { id: 1, messages: vec![user_msg("hi")] },
        RemoteRequest::Continue { id: 2 },
        RemoteRequest::Steer { id: 3, message: user_msg("steer") },
        RemoteRequest::FollowUp { id: 4, message: user_msg("follow") },
        RemoteRequest::Abort { id: 5 },
        RemoteRequest::Reset { id: 6 },
        RemoteRequest::GetSnapshot { id: 7 },
        RemoteRequest::Shutdown { id: 8 },
    ]
}

#[test]
fn test_remote_request_id_accessor() {
    for (i, req) in all_requests().iter().enumerate() {
        assert_eq!(req.id(), i as u64 + 1);
    }
}

#[test]
fn commands_arrive_as_they_were_sent() {
    for command in [
        AgentCommand::Prompt(vec![user_msg("hi")]),
        AgentCommand::Continue,
        AgentCommand::Steer(user_msg("s")),
        AgentCommand::FollowUp(user_msg("f")),
        AgentCommand::Reset,
    ] {
        let text = format!("{command:?}");
        match dispatch(RemoteRequest::carry(3, command)) {
            RemoteAction::Command { id, command } => {
                assert_eq!(id, 3);
                assert_eq!(format!("{command:?}"), text);
            }
            other => panic!("expected a command, got {other:?}"),
        }
    }
    let done = ServerMessage::Response { id: 4, result: Ok(()) };
    match dispatch(RemoteRequest::carry(4, AgentCommand::Abort)) {
        RemoteAction::Abort { reply } => assert_eq!(reply, done),
        other => panic!("expected to abort, got {other:?}"),
    }
    match dispatch(RemoteRequest::carry(4, AgentCommand::Shutdown)) {
        RemoteAction::Shutdown { reply } => assert_eq!(reply, done),
        other => panic!("expected to shut down, got {other:?}"),
    }
}

#[test]
fn test_initial_snapshot_on_connect() {
    assert_eq!(
        greeting(initial_snapshot()),
        ServerMessage::Snapshot { id: 0, snapshot: initial_snapshot() }
    );
}

#[test]
fn test_get_snapshot() {
    assert!(matches!(
        dispatch(RemoteRequest::GetSnapshot { id: 7 }),
        RemoteAction::Snapshot { id: 7 }
    ));
}

#[test]
fn test_shutdown_closes_stream() {
    assert!(matches!(
        next_step(RemoteInput::Request(RemoteRequest::Shutdown { id: 1 })),
        RemoteStep::Act(RemoteAction::Shutdown { .. })
    ));
    assert_eq!(shut_down(Ok(())), Ok(()));
    assert_eq!(
        shut_down(Err(AgentError::Busy)),
        Err(RemoteError::Command("Agent is busy".to_string()))
    );
    assert!(matches!(next_step(RemoteInput::Eof), RemoteStep::End(Ok(()))));
    assert!(matches!(
        next_step(RemoteInput::Failed(RemoteError::Timeout)),
        RemoteStep::End(Err(RemoteError::Timeout))
    ));
}

#[test]
fn answers_and_events_are_sent() {
    assert_eq!(respond(3, Ok(())), ServerMessage::Response { id: 3, result: Ok(()) });
    assert_eq!(
        respond(3, Err(AgentError::InvalidState)),
        ServerMessage::Response { id: 3, result: Err("Invalid agent state".to_string()) }
    );
    match forward(EventInput::Event(AgentEvent::TurnStart)) {
        EventStep::Send(m) => {
            assert_eq!(m, ServerMessage::Event { event: AgentEvent::TurnStart })
        }
        other => panic!("expected to send, got {other:?}"),
    }
    assert!(matches!(forward(EventInput::Lagged), EventStep::Skip));
    assert!(matches!(forward(EventInput::Closed), EventStep::Stop));
    assert_eq!(sent(true), Ok(()));
    assert_eq!(
        sent(false),
        Err(RemoteError::Protocol("write channel closed".to_string()))
    );
}

type Client = ClientState<&'static str, &'static str>;

fn closed() -> RemoteError {
    RemoteError::Protocol("connection closed".to_string())
}

#[test]
fn test_prompt_returns_ok() {
    let mut client = Client::new();
    let id = client.claim_id();
    assert_eq!(id, 1);
    client.expect_answer(id, "waiter").expect("open");
    client.command_sent(id, true).expect("sent");
    match client.on_message(ServerMessage::Response { id, result: Ok(()) }) {
        ClientEffect::Settle { waiter, result } => {
            assert_eq!(waiter, "waiter");
            assert_eq!(client.command_waited(id, Waited::Answered(result)), Ok(()));
        }
        other => panic!("expected an answer, got {other:?}"),
    }
    assert!(client.pending.is_empty());
}

#[test]
fn test_command_error() {
    let mut client = Client::new();
    let id = client.claim_id();
    client.expect_answer(id, "waiter").expect("open");
    let answer = Waited::Answered(Err("Agent is busy".to_string()));
    assert_eq!(
        client.command_waited(id, answer),
        Err(RemoteError::Command("Agent is busy".to_string()))
    );
}

#[test]
fn test_subscribe_receives_events() {
    let mut client = Client::new();
    let event = AgentEvent::AgentEnd { messages: Vec::new() };
    match client.on_message(ServerMessage::Event { event }) {
        ClientEffect::Publish { event } => {
            assert_eq!(event, AgentEvent::AgentEnd { messages: Vec::new() })
        }
        other => panic!("expected an event, got {other:?}"),
    }
}

fn snapshot(prompt: &str) -> AgentSnapshot {
    AgentSnapshot::initial(
        &AgentConfig {
            system_prompt: prompt.to_string(),
            model: None,
            thinking_level: ThinkingLevel::Off,
        },
        Vec::new(),
    )
}

#[test]
fn test_snapshot_updates() {
    let mut client = Client::new();
    let first = ServerMessage::Snapshot { id: 0, snapshot: snapshot("a") };
    match client.on_message(first) {
        ClientEffect::Snapshot { snapshot: s, waiter } => {
            assert_eq!(s, snapshot("a"));
            assert_eq!(waiter, None);
        }
        other => panic!("expected a snapshot, got {other:?}"),
    }
    let id = client.expect_snapshot("waiter").expect("open");
    client.snapshot_sent(id, true).expect("sent");
    match client.on_message(ServerMessage::Snapshot { id, snapshot: snapshot("b") }) {
        ClientEffect::Snapshot { snapshot: s, waiter } => {
            assert_eq!(waiter, Some("waiter"));
            assert_eq!(client.snapshot_waited(id, Waited::Answered(s)), Ok(snapshot("b")));
        }
        other => panic!("expected a snapshot, got {other:?}"),
    }
}

#[test]
fn an_answer_finds_its_request_among_others() {
    let mut client = Client::new();
    for waiter in ["one", "two", "three"] {
        let id = client.claim_id();
        client.expect_answer(id, waiter).expect("open");
    }
    let settle = |client: &mut Client, id| match client
        .on_message(ServerMessage::Response { id, result: Ok(()) })
    {
        ClientEffect::Settle { waiter, .. } => Some(waiter),
        _ => None,
    };
    assert_eq!(settle(&mut client, 2), Some("two"));
    assert_eq!(settle(&mut client, 2), None);
    assert_eq!(settle(&mut client, 3), Some("three"));
    assert_eq!(settle(&mut client, 1), Some("one"));
    assert_eq!(settle(&mut client, 9), None);
}

#[test]
fn closing_lets_nobody_wait() {
    let mut client = Client::new();
    client.expect_answer(1, "command").expect("open");
    client.next_id = 2;
    client.expect_snapshot("snapshot").expect("open");
    let (pending, snapshots) = client.close();
    assert_eq!(pending.len(), 1);
    assert_eq!(snapshots.get(&2), Some(&"snapshot"));
    assert_eq!(client.expect_answer(3, "late"), Err(closed()));
    assert_eq!(client.expect_snapshot("late"), Err(closed()));
    assert_eq!(client.check_open(), Err(closed()));
    assert_eq!(client.command_sent(3, true), Err(closed()));
    assert_eq!(client.snapshot_sent(3, true), Err(closed()));
    assert_eq!(client.abort_sent(true), Err(closed()));
    assert_eq!(
        client.command_waited(1, Waited::Dropped),
        Err(RemoteError::Protocol("response channel closed".to_string()))
    );
    assert_eq!(
        client.snapshot_waited(2, Waited::Dropped),
        Err(RemoteError::Protocol("response channel closed".to_string()))
    );
}

#[test]
fn a_request_that_is_not_answered_times_out() {
    assert_eq!(COMMAND_TIMEOUT_SECS, 30);
    let mut client = Client::new();
    client.expect_answer(1, "w").expect("open");
    assert_eq!(client.command_waited(1, Waited::TimedOut), Err(RemoteError::Timeout));
    assert!(client.pending.is_empty());
    let id = client.expect_snapshot("w").expect("open");
    assert_eq!(client.snapshot_waited(id, Waited::TimedOut), Err(RemoteError::Timeout));
    assert!(client.pending_snapshots.is_empty());
}

#[test]
fn a_request_that_cannot_be_written_fails() {
    let failed = || RemoteError::Protocol("write channel closed".to_string());
    let mut client = Client::new();
    client.expect_answer(1, "w").expect("open");
    assert_eq!(client.command_sent(1, false), Err(failed()));
    assert!(client.pending.is_empty());
    let id = client.expect_snapshot("w").expect("open");
    assert_eq!(client.snapshot_sent(id, false), Err(failed()));
    assert_eq!(client.abort_sent(false), Err(failed()));
    assert_eq!(client.abort_sent(true), Ok(()));
}

#[test]
fn test_multi_line_merged_read() {
    let mut bytes = Vec::new();
    for line in ["{\"a\":1}", "{\"b\":2}", "{}"] {
        bytes.extend(encode_line(line.as_bytes().to_vec()));
    }
    let lines: Vec<&[u8]> = split_lines(&bytes)
        .iter()
        .map(|s| &bytes[s.start..s.end])
        .collect();
    assert_eq!(lines, vec![&b"{\"a\":1}"[..], &b"{\"b\":2}"[..], &b"{}"[..]]);
}

#[test]
fn test_empty_line_ignored() {
    assert_eq!(frame_text("\n"), None);
    assert_eq!(frame_text(""), None);
    assert_eq!(frame_text(" \t\r\n\u{2003}"), None);
}

#[test]
fn test_single_line_roundtrip() {
    assert_eq!(encode_line(b"{\"id\":42}".to_vec()), b"{\"id\":42}\n".to_vec());
    assert_eq!(frame_text("{\"id\":42}\n"), Some("{\"id\":42}"));
    assert_eq!(frame_text("  {\"a\": \" 語 \"}\r\n"), Some("{\"a\": \" 語 \"}"));
    assert_eq!(frame_text("x"), Some("x"));
}

fn json(text: &str) -> Result<serde_json::Value, String> {
    serde_json::from_str(text).map_err(|e| e.to_string())
}

#[test]
fn test_bad_json_protocol_error() {
    match decode_line("this is not json\n", json) {
        Err(RemoteError::Protocol(text)) => assert!(text.starts_with("invalid frame: ")),
        other => panic!("expected Protocol error, got {other:?}"),
    }
}

#[test]
fn a_message_comes_back_from_its_frame() {
    let text = "{\"id\":42,\"text\":\"語\"}";
    let frame = encode_line(text.as_bytes().to_vec());
    assert_eq!(frame.iter().filter(|b| **b == b'\n').count(), 1);
    assert_eq!(frame.last(), Some(&b'\n'));
    let line = String::from_utf8(frame).unwrap();
    let value = decode_line(&line, json).unwrap().unwrap();
    assert_eq!(value.get("id").and_then(|v| v.as_u64()), Some(42));
    assert_eq!(value.get("text").and_then(|v| v.as_str()), Some("語"));
    assert_eq!(decode_line(" \r\n", json), Ok(None));
}

#[test]
fn white_space_is_that_of_unicode() {
    for n in 0..=0x10ffff_u32 {
        if let Some(c) = char::from_u32(n) {
            let line = c.to_string();
            assert_eq!(frame_text(&line).is_none(), c.is_whitespace(), "{n:x}");
        }
    }
}

#[test]
fn results_of_commands_are_read_back_as_they_were_written() {
    for result in [Ok(()), Err("boom".to_string()), Err("null".to_string())] {
        assert_eq!(read_result(&write_result(&result)), Some(result));
    }
    assert_eq!(write_result(&Ok(())), serde_json::Value::Null);
    let one: serde_json::Value = serde_json::from_str("1").expect("JSON");
    assert_eq!(read_result(&one), None);
}

#[test]
fn errors_of_the_remote_side_have_their_texts() {
    assert_eq!(RemoteError::Io("x".to_string()).message(), "io error: x");
    assert_eq!(RemoteError::Serde("x".to_string()).message(), "serialize error: x");
    assert_eq!(RemoteError::Protocol("x".to_string()).message(), "protocol error: x");
    assert_eq!(RemoteError::Command("x".to_string()).message(), "command error: x");
    assert_eq!(RemoteError::Timeout.message(), "request timeout");
}

#[test]
fn two_halves_make_a_stream() {
    let both = SplitDuplex::new("read", 3);
    assert_eq!((both.read, both.write), ("read", 3));
}

#[test]
fn test_server_message_response_two_states() {
    let null = serde_json::Value::Null;
    assert_eq!(read_result(&null), Some(Ok(())));
    let boom = serde_json::Value::String("boom".to_string());
    assert_eq!(read_result(&boom), Some(Err("boom".to_string())));
}
