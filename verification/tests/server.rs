use std::sync::Arc;

use guigu::agent::{AgentCommand, AgentError};
use guigu::event::AgentEvent;
use guigu::message::{Message, UserContent, UserMessage};
use guigu::remote::client::initial_snapshot;
use guigu::server::lane::{LaneSpawn, SpawnStep};
use guigu::server::protocol::{tag_result, untag_result, ServerMessage, ServerRequest};
use guigu::server::recovery::{register_resumed, resolve_resume_head};
use guigu::server::registry::{OnceSlot, Registry};
use guigu::server::transport::{
    command_result, commanded, created, dispatch, finished, forward, lane_gone, loaded, next_step,
    sent, snapshot_taken, subscribed, ConnectionInput, ConnectionStep, ForwardStep, LaneInput, ServerAction,
    Subscriptions,
};
use guigu::server::ServerError;
use guigu::session::{reduce, NodeId, SessionEntry, SessionError, SessionTree};

type Server = Registry<&'static str, String>;

fn json(text: &str) -> serde_json::Value {
    serde_json::from_str(text).expect("JSON")
}

fn user_msg(text: &str) -> Message {
    Message::User(UserMessage {
        content: vec![UserContent::Text { text: text.to_string() }],
        timestamp: 0,
    })
}

fn entry(id: NodeId, parent: Option<NodeId>, text: &str) -> SessionEntry {
    SessionEntry { id, parent_id: parent, message: user_msg(text) }
}

fn chain() -> SessionTree {
    reduce(vec![entry(0, None, "hello"), entry(1, Some(0), "ok")]).expect("a tree")
}

fn fork() -> SessionTree {
    reduce(vec![
        entry(0, None, "a"),
        entry(1, Some(0), "b"),
        entry(2, Some(0), "c"),
    ])
    .expect("a tree")
}

fn storage() -> Arc<&'static str> {
    Arc::new("storage")
}

/// Starts a lane as the server does, with a first head that can be written.
fn start(server: &mut Server, spawn: &LaneSpawn) -> Result<(), ServerError> {
    spawn.check(server)?;
    match spawn.started(server, Arc::new(spawn.lane_id.clone())) {
        SpawnStep::Cleanup(e) => Err(e),
        SpawnStep::Persist { generation } => spawn.persisted(server, generation, Ok(())),
        SpawnStep::Done => Ok(()),
    }
}

fn with_lane() -> Server {
    let mut server = Server::new();
    server.create_session("s1".to_string(), storage()).expect("create");
    start(&mut server, &LaneSpawn::spawn("s1", "l1")).expect("spawn");
    server
}

#[test]
fn test_create_and_list_session() {
    let mut server = Server::new();
    server.create_session("s2".to_string(), storage()).expect("create");
    server.create_session("s1".to_string(), storage()).expect("create");
    assert_eq!(server.list_sessions(), vec!["s1".to_string(), "s2".to_string()]);
}

#[test]
fn test_duplicate_session() {
    let mut server = Server::new();
    server.create_session("s1".to_string(), storage()).expect("create");
    assert_eq!(
        server.create_session("s1".to_string(), storage()),
        Err(ServerError::DuplicateSession("s1".to_string()))
    );
}

#[test]
fn test_load_session() {
    let mut server = Server::new();
    assert_eq!(
        server.load_session("s1".to_string(), storage(), Err(SessionError::Cycle)),
        Err(ServerError::Session(SessionError::Cycle))
    );
    assert!(server.list_sessions().is_empty());
    server.load_session("s1".to_string(), storage(), Ok(chain())).expect("load");
    assert_eq!(server.list_sessions(), vec!["s1".to_string()]);
    assert_eq!(*server.storage_of("s1").unwrap(), "storage");
    assert_eq!(
        server.storage_of("s2").unwrap_err(),
        ServerError::SessionNotFound("s2".to_string())
    );
}

#[test]
fn test_resume_lane_restores_transcript() {
    let point = resolve_resume_head(&chain(), None).expect("a place to go on");
    assert_eq!(point.head, Some(1));
    assert_eq!(point.transcript.len(), 2);
    assert_eq!(*point.transcript[0], user_msg("hello"));
    // What is written next comes behind it: one chain, one leaf.
    let tree = reduce(vec![
        entry(0, None, "hello"),
        entry(1, Some(0), "ok"),
        entry(2, point.head, "again"),
        entry(3, Some(2), "ok"),
    ])
    .expect("a tree");
    assert_eq!(tree.nodes.len(), 4);
    assert_eq!(tree.leaves().len(), 1);
    assert_eq!(tree.path_to(3).unwrap().len(), 4);
}

#[test]
fn test_resume_lane_empty_session() {
    let point = resolve_resume_head(&reduce(Vec::new()).unwrap(), None).unwrap();
    assert_eq!(point.head, None);
    assert!(point.transcript.is_empty());
}

#[test]
fn a_lane_goes_on_from_the_leaf_that_was_named_or_the_last() {
    assert_eq!(resolve_resume_head(&fork(), Some(1)).unwrap().head, Some(1));
    assert_eq!(resolve_resume_head(&fork(), None).unwrap().head, Some(2));
    for h in [0, 9] {
        assert_eq!(
            resolve_resume_head(&fork(), Some(h)).unwrap_err(),
            ServerError::Protocol(format!(
                "resume head {h} is not a leaf node (unknown or internal)"
            ))
        );
    }
}

#[test]
fn a_head_that_is_no_leaf_registers_nothing() {
    let mut server = Server::new();
    let r = register_resumed(
        &mut server,
        "s1".to_string(),
        storage(),
        Ok(fork()),
        Some(0),
        true,
    );
    assert!(matches!(r, Err(ServerError::Protocol(_))));
    assert!(server.list_sessions().is_empty());
    let r = register_resumed(
        &mut server,
        "s1".to_string(),
        storage(),
        Ok(fork()),
        None,
        false,
    );
    assert_eq!(r.unwrap_err(), ServerError::Protocol("no runtime factory".to_string()));
    let r = register_resumed(
        &mut server,
        "s1".to_string(),
        storage(),
        Err(SessionError::MultipleRoots),
        None,
        true,
    );
    assert_eq!(r.unwrap_err(), ServerError::Session(SessionError::MultipleRoots));
    assert!(server.list_sessions().is_empty());

    let point = register_resumed(
        &mut server,
        "s1".to_string(),
        storage(),
        Ok(fork()),
        Some(1),
        true,
    )
    .unwrap();
    assert_eq!(point.head, Some(1));
    assert_eq!(server.list_sessions(), vec!["s1".to_string()]);
    let r = register_resumed(
        &mut server,
        "s1".to_string(),
        storage(),
        Ok(fork()),
        None,
        true,
    );
    assert_eq!(r.unwrap_err(), ServerError::DuplicateSession("s1".to_string()));
    // The lane could not be started: the session goes again.
    server.remove_session_if_empty("s1");
    assert!(server.list_sessions().is_empty());
}

#[test]
fn a_session_with_lanes_is_not_taken_back() {
    let mut server = with_lane();
    server.remove_session_if_empty("s1");
    assert_eq!(server.list_sessions(), vec!["s1".to_string()]);
}

#[test]
fn test_not_found_errors() {
    let server = with_lane();
    assert_eq!(
        server.get_lane("missing", "l1").unwrap_err(),
        ServerError::SessionNotFound("missing".to_string())
    );
    assert_eq!(
        server.get_lane("s1", "missing").unwrap_err(),
        ServerError::LaneNotFound("missing".to_string())
    );
    assert_eq!(*server.get_lane("s1", "l1").unwrap(), "l1");
    let mut server = Server::new();
    assert_eq!(
        start(&mut server, &LaneSpawn::spawn("s1", "l1")),
        Err(ServerError::SessionNotFound("s1".to_string()))
    );
}

#[test]
fn test_lane_already_exists() {
    let mut server = with_lane();
    assert_eq!(
        start(&mut server, &LaneSpawn::spawn("s1", "l1")),
        Err(ServerError::LaneAlreadyExists("l1".to_string()))
    );
}

#[test]
fn test_fork_lane_errors() {
    let mut server = with_lane();
    assert_eq!(
        start(&mut server, &LaneSpawn::forked("s1", "missing", "l2")),
        Err(ServerError::LaneNotFound("missing".to_string()))
    );
    assert_eq!(
        start(&mut server, &LaneSpawn::forked("s1", "l1", "l1")),
        Err(ServerError::LaneAlreadyExists("l1".to_string()))
    );
    let mut spawn = LaneSpawn::forked("s1", "l1", "l2");
    spawn.branch_at(Some(4));
    assert_eq!(spawn.head, Some(4));
    start(&mut server, &spawn).expect("fork");
    assert_eq!(*server.get_lane("s1", "l2").unwrap(), "l2");
}

#[test]
fn a_lane_that_was_taken_meanwhile_is_not_replaced() {
    let mut server = Server::new();
    server.create_session("s1".to_string(), storage()).expect("create");
    let spawn = LaneSpawn::spawn("s1", "l1");
    spawn.check(&server).expect("free");
    server
        .register_lane("s1", "l1", None, Arc::new("other".to_string()))
        .expect("the other is first");
    match spawn.started(&mut server, Arc::new("mine".to_string())) {
        SpawnStep::Cleanup(e) => {
            assert_eq!(e, ServerError::LaneAlreadyExists("l1".to_string()))
        }
        other => panic!("expected a refusal, got {other:?}"),
    }
    assert_eq!(*server.get_lane("s1", "l1").unwrap(), "other");
}

#[test]
fn a_lane_whose_head_cannot_be_written_leaves_no_trace() {
    let mut server = with_lane();
    let spawn = LaneSpawn::spawn("s1", "l2");
    let generation = match spawn.started(&mut server, Arc::new("l2".to_string())) {
        SpawnStep::Persist { generation } => generation,
        other => panic!("expected to write the head, got {other:?}"),
    };
    let r = spawn.persisted(&mut server, generation, Err(SessionError::Io("disk".to_string())));
    assert_eq!(r, Err(ServerError::Session(SessionError::Io("disk".to_string()))));
    assert!(server.get_lane("s1", "l2").is_err());
    assert!(server.get_lane("s1", "l1").is_ok());
}

#[test]
fn taking_back_a_lane_spares_its_successor() {
    let mut server = Server::new();
    server.create_session("s1".to_string(), storage()).expect("create");
    let first = server
        .register_lane("s1", "l1", None, Arc::new("first".to_string()))
        .unwrap();
    server.remove_lane_if_generation("s1", "l1", first);
    let second = server
        .register_lane("s1", "l1", None, Arc::new("second".to_string()))
        .unwrap();
    assert_ne!(first, second);
    server.remove_lane_if_generation("s1", "l1", first);
    assert_eq!(*server.get_lane("s1", "l1").unwrap(), "second");
}

#[test]
fn a_lane_that_goes_on_does_not_write_its_head_again() {
    let mut server = Server::new();
    server.create_session("s1".to_string(), storage()).expect("create");
    let spawn = LaneSpawn::resumed("s1", "l1", Some(1));
    assert!(matches!(
        spawn.started(&mut server, Arc::new("l1".to_string())),
        SpawnStep::Done
    ));
}

#[test]
fn test_shutdown_clears_registry() {
    let mut server = with_lane();
    server.create_session("s0".to_string(), storage()).expect("create");
    start(&mut server, &LaneSpawn::spawn("s0", "x")).expect("spawn");
    start(&mut server, &LaneSpawn::spawn("s1", "a")).expect("spawn");
    let lanes: Vec<String> = server.shutdown().iter().map(|l| (**l).clone()).collect();
    assert_eq!(lanes, vec!["x".to_string(), "a".to_string(), "l1".to_string()]);
    assert!(server.list_sessions().is_empty());
}

#[test]
fn the_first_factory_stays() {
    let mut slot: OnceSlot<u32> = OnceSlot::new();
    assert_eq!(
        slot.storage_factory().unwrap_err(),
        ServerError::Protocol("no storage factory".to_string())
    );
    assert_eq!(
        slot.runtime_factory().unwrap_err(),
        ServerError::Protocol("no runtime factory".to_string())
    );
    slot.set(1);
    slot.set(2);
    assert_eq!(slot.storage_factory(), Ok(&1));
    assert_eq!(slot.runtime_factory(), Ok(&1));
}

#[test]
fn session_ids_are_numbered() {
    let mut server = Server::new();
    assert_eq!(server.allocate_session_id(), "1");
    assert_eq!(server.allocate_session_id(), "2");
    server.next_session_id = u64::MAX;
    assert_eq!(server.allocate_session_id(), "18446744073709551615");
    assert_eq!(server.allocate_session_id(), "0");
}

fn ask(server: &mut Server, req: ServerRequest) -> ServerAction<String, u32> {
    dispatch(server, &mut Subscriptions::new(), true, true, req)
}

#[test]
fn test_create_session() {
    let mut server = Server::new();
    let req = ServerRequest::CreateSession { id: 1, session_id: Some("s1".to_string()) };
    match ask(&mut server, req) {
        ServerAction::Create { id, session_id } => {
            assert_eq!((id, session_id.as_str()), (1, "s1"));
            assert_eq!(
                created(&mut server, id, session_id, storage()),
                ServerMessage::Response { id: 1, result: Ok(json("\"s1\"")) }
            );
        }
        other => panic!("expected to create, got {other:?}"),
    }
    assert_eq!(
        created(&mut server, 2, "s1".to_string(), storage()),
        ServerMessage::Response { id: 2, result: Err("duplicate session: s1".to_string()) }
    );
}

#[test]
fn test_create_session_auto_id() {
    let mut server = Server::new();
    match ask(&mut server, ServerRequest::CreateSession { id: 1, session_id: None }) {
        ServerAction::Create { id, session_id } => {
            assert!(!session_id.is_empty());
            assert_eq!(
                created(&mut server, id, session_id, storage()),
                ServerMessage::Response { id: 1, result: Ok(json("\"1\"")) }
            );
        }
        other => panic!("expected to create, got {other:?}"),
    }
    assert_eq!(server.list_sessions(), vec!["1".to_string()]);
}

#[test]
fn test_list_sessions() {
    let mut server = with_lane();
    match ask(&mut server, ServerRequest::ListSessions { id: 3 }) {
        ServerAction::Reply(m) => assert_eq!(
            m,
            ServerMessage::SessionList { id: 3, sessions: vec!["s1".to_string()] }
        ),
        other => panic!("expected a list, got {other:?}"),
    }
}

#[test]
fn tests_test_spawn_lane_and_prompt() {
    let mut server = Server::new();
    server.create_session("s1".to_string(), storage()).expect("create");
    let req = ServerRequest::SpawnLane {
        id: 2,
        session_id: "s1".to_string(),
        lane_id: "l1".to_string(),
    };
    match ask(&mut server, req) {
        ServerAction::Start { id, spawn } => {
            let result = start(&mut server, &spawn);
            assert_eq!(
                finished(id, result),
                ServerMessage::Response { id: 2, result: Ok(serde_json::Value::Null) }
            );
        }
        other => panic!("expected to start a lane, got {other:?}"),
    }
    let req = ServerRequest::Prompt {
        id: 3,
        session_id: "s1".to_string(),
        lane_id: "l1".to_string(),
        messages: vec![user_msg("hi")],
    };
    match ask(&mut server, req) {
        ServerAction::Command { id, lane, command } => {
            assert_eq!(*lane, "l1");
            assert_eq!(command, AgentCommand::Prompt(vec![user_msg("hi")]));
            assert_eq!(
                commanded(id, Ok(())),
                ServerMessage::Response { id: 3, result: Ok(serde_json::Value::Null) }
            );
            assert_eq!(
                commanded(id, Err(AgentError::Busy)),
                ServerMessage::Response {
                    id: 3,
                    result: Err("agent error: Agent is busy".to_string()),
                }
            );
        }
        other => panic!("expected a command, got {other:?}"),
    }
}

fn lane_request(kind: &str) -> ServerRequest {
    let (id, session_id, lane_id) = (5, "s1".to_string(), "l1".to_string());
    match kind {
        "continue" => ServerRequest::Continue { id, session_id, lane_id },
        "abort" => ServerRequest::Abort { id, session_id, lane_id },
        "reset" => ServerRequest::Reset { id, session_id, lane_id },
        "snapshot" => ServerRequest::GetSnapshot { id, session_id, lane_id },
        "subscribe" => ServerRequest::Subscribe { id, session_id, lane_id },
        "unsubscribe" => ServerRequest::Unsubscribe { id, session_id, lane_id },
        other => panic!("no request {other}"),
    }
}

#[test]
fn commands_go_to_their_lane() {
    let mut server = with_lane();
    for (kind, expected) in [
        ("continue", AgentCommand::Continue),
        ("abort", AgentCommand::Abort),
        ("reset", AgentCommand::Reset),
    ] {
        match ask(&mut server, lane_request(kind)) {
            ServerAction::Command { id, command, .. } => {
                assert_eq!(id, 5);
                assert_eq!(command, expected);
            }
            other => panic!("expected a command, got {other:?}"),
        }
    }
}

#[test]
fn test_unknown_session_error() {
    let mut server = Server::new();
    for kind in ["continue", "abort", "reset"] {
        match ask(&mut server, lane_request(kind)) {
            ServerAction::Reply(m) => assert_eq!(
                m,
                ServerMessage::Response {
                    id: 5,
                    result: Err("session not found: s1".to_string()),
                }
            ),
            other => panic!("expected an error, got {other:?}"),
        }
    }
    for kind in ["snapshot", "subscribe"] {
        match ask(&mut server, lane_request(kind)) {
            ServerAction::Reply(m) => assert_eq!(
                m,
                ServerMessage::Response { id: 5, result: Err("lane not found".to_string()) }
            ),
            other => panic!("expected an error, got {other:?}"),
        }
    }
}

#[test]
fn test_snapshot() {
    let mut server = with_lane();
    match ask(&mut server, lane_request("snapshot")) {
        ServerAction::Snapshot { session_id, lane_id, lane, .. } => {
            assert_eq!((session_id.as_str(), lane_id.as_str()), ("s1", "l1"));
            assert_eq!(*lane, "l1");
        }
        other => panic!("expected the snapshot, got {other:?}"),
    }
}

#[test]
fn an_agent_that_was_shut_down_has_no_snapshot() {
    let gone = ServerMessage::Response { id: 7, result: Err("lane not found".to_string()) };
    assert_eq!(lane_gone(7), gone);
    assert_eq!(snapshot_taken(7, "s1".to_string(), "l1".to_string(), None), gone);
    let snapshot = initial_snapshot();
    assert_eq!(
        snapshot_taken(7, "s1".to_string(), "l1".to_string(), Some(snapshot.clone())),
        ServerMessage::Snapshot {
            session_id: "s1".to_string(),
            lane_id: "l1".to_string(),
            snapshot,
        }
    );
}

#[test]
fn test_subscribe() {
    let mut server = with_lane();
    let mut subs: Subscriptions<u32> = Subscriptions::new();
    let action = dispatch(&mut server, &mut subs, true, true, lane_request("subscribe"));
    assert!(matches!(action, ServerAction::Subscribe { id: 5, .. }));
    let done = ServerMessage::Response { id: 5, result: Ok(serde_json::Value::Null) };
    let (replaced, reply) =
        subscribed(&mut subs, 5, "s1".to_string(), "l1".to_string(), 10);
    assert_eq!((replaced, reply), (None, done));
    // A second subscription ends the first.
    let (replaced, _) = subscribed(&mut subs, 6, "s1".to_string(), "l1".to_string(), 11);
    assert_eq!(replaced, Some(10));
    subscribed(&mut subs, 7, "s0".to_string(), "l1".to_string(), 12);
    let action = dispatch(&mut server, &mut subs, true, true, lane_request("unsubscribe"));
    assert!(matches!(action, ServerAction::Cancel { token: Some(11), .. }));
    let action = dispatch(&mut server, &mut subs, true, true, lane_request("unsubscribe"));
    assert!(matches!(action, ServerAction::Cancel { token: None, .. }));
    assert_eq!(subs.into_tokens(), vec![12]);
}

#[test]
fn test_shutdown_closes_connection() {
    let mut server = with_lane();
    match ask(&mut server, ServerRequest::Shutdown { id: 9 }) {
        ServerAction::Close(m) => assert_eq!(
            m,
            ServerMessage::Response { id: 9, result: Ok(serde_json::Value::Null) }
        ),
        other => panic!("expected to close, got {other:?}"),
    }
    // The sessions stay for the other clients.
    assert_eq!(server.list_sessions(), vec!["s1".to_string()]);
}

#[test]
fn a_request_without_its_factory_ends_the_connection() {
    let mut server = Server::new();
    let mut subs: Subscriptions<u32> = Subscriptions::new();
    let load = ServerRequest::LoadSession { id: 1, session_id: "s".to_string() };
    match dispatch(&mut server, &mut subs, false, true, load) {
        ServerAction::Fail(e) => {
            assert_eq!(e, ServerError::Protocol("no storage factory".to_string()))
        }
        other => panic!("expected a failure, got {other:?}"),
    }
    let spawn = ServerRequest::SpawnLane {
        id: 1,
        session_id: "s".to_string(),
        lane_id: "l".to_string(),
    };
    match dispatch(&mut server, &mut subs, true, false, spawn) {
        ServerAction::Fail(e) => {
            assert_eq!(e, ServerError::Protocol("no runtime factory".to_string()))
        }
        other => panic!("expected a failure, got {other:?}"),
    }
}

#[test]
fn loading_is_answered() {
    let mut server = Server::new();
    assert_eq!(
        loaded(&mut server, 1, "s".to_string(), storage(), Err(SessionError::Cycle)),
        ServerMessage::Response { id: 1, result: Err("session error: cycle detected".to_string()) }
    );
    assert_eq!(
        loaded(&mut server, 2, "s".to_string(), storage(), Ok(chain())),
        ServerMessage::Response { id: 2, result: Ok(serde_json::Value::Null) }
    );
}

#[test]
fn events_are_forwarded_with_where_they_come_from() {
    let (s, l) = ("s1".to_string(), "l1".to_string());
    match forward(&s, &l, LaneInput::Event(AgentEvent::AgentStart)) {
        ForwardStep::Send(m) => assert_eq!(
            m,
            ServerMessage::Event {
                session_id: "s1".to_string(),
                lane_id: "l1".to_string(),
                event: AgentEvent::AgentStart,
            }
        ),
        other => panic!("expected to send, got {other:?}"),
    }
    assert!(matches!(forward(&s, &l, LaneInput::Lagged), ForwardStep::Skip));
    assert!(matches!(forward(&s, &l, LaneInput::Closed), ForwardStep::Stop));
    assert!(matches!(forward(&s, &l, LaneInput::Cancelled), ForwardStep::Stop));
}

#[test]
fn a_connection_ends_where_it_cannot_go_on() {
    assert!(matches!(
        next_step(ConnectionInput::Request(ServerRequest::ListSessions { id: 1 })),
        ConnectionStep::Dispatch(ServerRequest::ListSessions { id: 1 })
    ));
    assert!(matches!(next_step(ConnectionInput::Eof), ConnectionStep::End(Ok(()))));
    match next_step(ConnectionInput::Unreadable("bad".to_string())) {
        ConnectionStep::End(Err(e)) => assert_eq!(e.message(), "protocol error: bad"),
        other => panic!("expected the end, got {other:?}"),
    }
    match next_step(ConnectionInput::WriterFailed) {
        ConnectionStep::End(Err(e)) => assert_eq!(e.message(), "protocol error: writer failed"),
        other => panic!("expected the end, got {other:?}"),
    }
    assert_eq!(sent(true), Ok(()));
    assert_eq!(
        sent(false).unwrap_err().message(),
        "protocol error: write channel closed"
    );
    assert_eq!(command_result(Ok(())), Ok(()));
}

#[test]
fn test_server_request_id_accessor() {
    let s = || "s1".to_string();
    let l = || "l1".to_string();
    let requests = vec![
        ServerRequest::CreateSession { id: 1, session_id: Some(s()) },
        ServerRequest::CreateSession { id: 2, session_id: None },
        ServerRequest::LoadSession { id: 3, session_id: s() },
        ServerRequest::ListSessions { id: 4 },
        ServerRequest::SpawnLane { id: 5, session_id: s(), lane_id: l() },
        ServerRequest::ForkLane {
            id: 6,
            session_id: s(),
            from_lane: l(),
            new_lane: "l2".to_string(),
        },
        ServerRequest::Prompt {
            id: 7,
            session_id: s(),
            lane_id: l(),
            messages: vec![user_msg("hi")],
        },
        ServerRequest::Continue { id: 8, session_id: s(), lane_id: l() },
        ServerRequest::Abort { id: 9, session_id: s(), lane_id: l() },
        ServerRequest::Reset { id: 10, session_id: s(), lane_id: l() },
        ServerRequest::GetSnapshot { id: 11, session_id: s(), lane_id: l() },
        ServerRequest::Subscribe { id: 12, session_id: s(), lane_id: l() },
        ServerRequest::Unsubscribe { id: 13, session_id: s(), lane_id: l() },
        ServerRequest::Shutdown { id: 14 },
    ];
    for (i, req) in requests.iter().enumerate() {
        assert_eq!(req.id(), i as u64 + 1);
    }
}

#[test]
fn results_are_read_back_as_they_were_written() {
    for result in [
        Ok(serde_json::Value::Null),
        Ok(json("\"text\"")),
        Ok(json("{\"err\":\"not an error\"}")),
        Ok(json("{\"ok\":1}")),
        Err("boom".to_string()),
        Err(String::new()),
    ] {
        assert_eq!(untag_result(&tag_result(&result)), Ok(result));
    }
    assert_eq!(tag_result(&Ok(json("1"))), json("{\"ok\":1}"));
    assert_eq!(tag_result(&Err("e".to_string())), json("{\"err\":\"e\"}"));
    for bad in ["null", "1", "{}", "{\"err\":1}", "[\"ok\"]"] {
        assert_eq!(
            untag_result(&json(bad)),
            Err("expected {\"ok\": ...} or {\"err\": ...}".to_string())
        );
    }
}

#[test]
fn errors_of_the_server_have_their_texts() {
    let text = |e: ServerError| e.message();
    assert_eq!(text(ServerError::SessionNotFound("s".to_string())), "session not found: s");
    assert_eq!(text(ServerError::LaneNotFound("l".to_string())), "lane not found: l");
    assert_eq!(text(ServerError::LaneAlreadyExists("l".to_string())), "lane already exists: l");
    assert_eq!(text(ServerError::DuplicateSession("s".to_string())), "duplicate session: s");
    assert_eq!(
        text(ServerError::Session(SessionError::MultipleRoots)),
        "session error: multiple roots not allowed"
    );
    assert_eq!(text(ServerError::Agent("a".to_string())), "agent error: a");
    assert_eq!(text(ServerError::Io("i".to_string())), "io error: i");
    assert_eq!(text(ServerError::Protocol("p".to_string())), "protocol error: p");
}

#[test]
fn protocol_test_server_message_response_two_states() {
    assert_eq!(untag_result(&json("{\"ok\":\"s1\"}")), Ok(Ok(json("\"s1\""))));
    assert_eq!(untag_result(&json("{\"err\":\"boom\"}")), Ok(Err("boom".to_string())));
}

#[test]
fn test_server_message_response_ok_null() {
    assert_eq!(untag_result(&json("{\"ok\":null}")), Ok(Ok(serde_json::Value::Null)));
}
