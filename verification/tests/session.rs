use std::sync::Arc;

use guigu::event::AgentEvent;
use guigu::file_lock::{FileLock, FileLockError, TryLock};
use guigu::message::{Message, UserContent, UserMessage};
use guigu::session::lane::{
    record_step, AppendStep, LaneWriter, RecorderInput, RecorderStep, SessionRecorder,
    SharedSessionStorage,
};
use guigu::session::log::{
    check_stop, frame_record, load_lane_heads, read_records, repair, split_lines, valid_len,
    JsonlSessionStorage, LaneHeadRecord, LaneHeads, SessionRecord,
};
use guigu::session::{reduce, reduce_for, NodeId, SessionEntry, SessionError, SessionTree};

fn user_msg(text: &str) -> Message {
    Message::User(UserMessage {
        content: vec![UserContent::Text { text: text.to_string() }],
        timestamp: 0,
    })
}

fn entry(id: NodeId, parent: Option<NodeId>, text: &str) -> SessionEntry {
    SessionEntry { id, parent_id: parent, message: user_msg(text) }
}

fn copy(e: &SessionEntry) -> SessionEntry {
    SessionEntry { id: e.id, parent_id: e.parent_id, message: e.message.clone() }
}

/// A session in memory, written to as a file would be.
struct MemStorage {
    storage: JsonlSessionStorage,
    entries: Vec<SessionEntry>,
    heads: LaneHeads,
    heads_fail: bool,
}

impl MemStorage {
    fn new() -> Self {
        MemStorage {
            storage: JsonlSessionStorage::open("p".to_string(), String::new(), &[])
                .expect("an empty file"),
            entries: Vec::new(),
            heads: LaneHeads::new(),
            heads_fail: false,
        }
    }

    fn append(
        &mut self,
        parent_id: Option<NodeId>,
        message: Message,
    ) -> Result<NodeId, SessionError> {
        let e = self.storage.prepare_append(None, parent_id, message)?;
        let id = e.id;
        self.entries.push(e);
        Ok(id)
    }

    fn load(&self) -> SessionTree {
        reduce(self.entries.iter().map(copy).collect()).expect("a tree")
    }

    fn append_lane_head(&mut self, record: LaneHeadRecord) -> Result<(), SessionError> {
        if self.heads_fail {
            return Err(SessionError::Io("heads cannot be written".to_string()));
        }
        self.heads.put(record);
        Ok(())
    }

    fn append_with_head(
        &mut self,
        shared: &SharedSessionStorage,
        lane_id: &str,
        parent_id: Option<NodeId>,
        message: Message,
    ) -> Result<NodeId, SessionError> {
        let written = self.append(parent_id, message);
        match shared.message_written(lane_id, written) {
            AppendStep::Done(r) => r,
            AppendStep::WriteHead { id, record } => {
                let written = self.append_lane_head(record);
                shared.head_written(id, written)
            }
        }
    }

    fn write(
        &mut self,
        shared: &SharedSessionStorage,
        lane: &mut LaneWriter,
        message: Message,
    ) -> Result<NodeId, SessionError> {
        let name = lane.lane_id().clone();
        let written = self.append_with_head(shared, &name, lane.head(), message);
        lane.appended(written)
    }
}

#[test]
fn reduce_linear_chain() {
    let tree = reduce(vec![
        entry(0, None, "a"),
        entry(1, Some(0), "b"),
        entry(2, Some(1), "c"),
    ])
    .unwrap();
    assert_eq!(tree.root, Some(0));
    assert_eq!(tree.nodes.len(), 3);
    assert_eq!(tree.nodes[&0].children, vec![1]);
    assert_eq!(tree.nodes[&1].children, vec![2]);
    assert_eq!(tree.leaves(), vec![2]);
}

#[test]
fn reduce_fork_yields_two_leaves() {
    let tree = reduce(vec![
        entry(0, None, "a"),
        entry(1, Some(0), "b"),
        entry(2, Some(0), "c"),
    ])
    .unwrap();
    assert_eq!(tree.root, Some(0));
    assert_eq!(tree.nodes[&0].children, vec![1, 2]);
    assert_eq!(tree.leaves(), vec![1, 2]);
}

#[test]
fn reduce_path_to_returns_root_to_leaf_sequence() {
    let tree = reduce(vec![
        entry(0, None, "a"),
        entry(1, Some(0), "b"),
        entry(2, Some(1), "c"),
    ])
    .unwrap();
    let path = tree.path_to(2).unwrap();
    assert_eq!(path, vec![&user_msg("a"), &user_msg("b"), &user_msg("c")]);
    assert_eq!(tree.path_to(99), None);
}

#[test]
fn reduce_path_to_internal_node_returns_none() {
    let tree = reduce(vec![
        entry(0, None, "a"),
        entry(1, Some(0), "b"),
        entry(2, Some(1), "c"),
    ])
    .unwrap();
    assert_eq!(tree.path_to(0), None);
    assert_eq!(tree.path_to(1), None);
    assert!(tree.path_to(2).is_some());
}

#[test]
fn reduce_path_to_single_node_root_is_leaf() {
    let tree = reduce(vec![entry(0, None, "a")]).unwrap();
    let path = tree.path_to(0).unwrap();
    assert_eq!(path, vec![&user_msg("a")]);
}

#[test]
fn reduce_duplicate_id() {
    let err = reduce(vec![entry(0, None, "a"), entry(0, None, "b")]).unwrap_err();
    assert!(matches!(err, SessionError::DuplicateNode(0)));
}

#[test]
fn reduce_parent_not_found() {
    let err = reduce(vec![entry(0, None, "a"), entry(1, Some(7), "b")]).unwrap_err();
    assert!(matches!(err, SessionError::ParentNotFound(7)));
}

#[test]
fn reduce_multiple_roots() {
    let err = reduce(vec![entry(0, None, "a"), entry(1, None, "b")]).unwrap_err();
    assert!(matches!(err, SessionError::MultipleRoots));
}

#[test]
fn reduce_cycle() {
    let err = reduce(vec![entry(1, Some(2), "a"), entry(2, Some(1), "b")]).unwrap_err();
    assert!(matches!(err, SessionError::Cycle));
}

#[test]
fn reduce_empty() {
    let tree = reduce(Vec::new()).unwrap();
    assert_eq!(tree.root, None);
    assert!(tree.nodes.is_empty());
    assert!(tree.leaves().is_empty());
}

#[test]
fn reduce_children_filled_in_ascending_id_order() {
    let tree = reduce(vec![
        entry(0, None, "root"),
        entry(5, Some(0), "e5"),
        entry(3, Some(0), "e3"),
        entry(7, Some(0), "e7"),
    ])
    .unwrap();
    assert_eq!(tree.nodes[&0].children, vec![3, 5, 7]);
}

#[test]
fn reduce_parent_after_child_is_accepted() {
    let tree = reduce(vec![entry(1, Some(2), "child"), entry(2, None, "parent")]).unwrap();
    assert_eq!(tree.root, Some(2));
    assert_eq!(tree.nodes[&2].children, vec![1]);
}

#[test]
fn the_tree_has_the_name_of_its_session() {
    let tree = reduce_for(vec![entry(0, None, "a")], "s1").unwrap();
    assert_eq!(tree.session_id, "s1");
}

#[test]
fn the_order_of_entries_is_irrelevant() {
    let a = reduce(vec![
        entry(0, None, "a"),
        entry(1, Some(0), "b"),
        entry(2, Some(0), "c"),
    ])
    .unwrap();
    let b = reduce(vec![
        entry(2, Some(0), "c"),
        entry(0, None, "a"),
        entry(1, Some(0), "b"),
    ])
    .unwrap();
    assert_eq!(a, b);
}

#[test]
fn recorder_record_advances_head() {
    let mut storage = MemStorage::new();
    let mut rec = SessionRecorder::new();
    let written = storage.append(rec.head, user_msg("a"));
    let id0 = rec.recorded(written).unwrap();
    let written = storage.append(rec.head, user_msg("b"));
    let id1 = rec.recorded(written).unwrap();
    assert_eq!((id0, id1), (0, 1));
    assert_eq!(storage.entries[0].parent_id, None);
    assert_eq!(storage.entries[1].parent_id, Some(0));
}

#[test]
fn recorder_fork_at_redirects_head() {
    let mut storage = MemStorage::new();
    let mut rec = SessionRecorder::new();
    for text in ["a", "b"] {
        let written = storage.append(rec.head, user_msg(text));
        rec.recorded(written).unwrap();
    }
    rec.fork_at(0);
    let written = storage.append(rec.head, user_msg("c"));
    let id = rec.recorded(written).unwrap();
    assert_eq!(id, 2);
    assert_eq!(storage.entries[2].parent_id, Some(0));
    assert_eq!(storage.load().leaves(), vec![1, 2]);
}

#[test]
fn recorder_attach_consumes_message_end_only() {
    let mut storage = MemStorage::new();
    let mut rec = SessionRecorder::new();
    for input in [
        RecorderInput::Event(AgentEvent::AgentStart),
        RecorderInput::Event(AgentEvent::MessageEnd { message: Arc::new(user_msg("hello")) }),
        RecorderInput::Event(AgentEvent::TurnStart),
        RecorderInput::Lagged,
        RecorderInput::Event(AgentEvent::MessageEnd { message: Arc::new(user_msg("world")) }),
    ] {
        match record_step(input) {
            RecorderStep::Record(message) => {
                let written = storage.append(rec.head, message);
                rec.recorded(written).unwrap();
            }
            RecorderStep::Skip => {}
            RecorderStep::Stop => panic!("the events go on"),
        }
    }
    assert!(matches!(record_step(RecorderInput::Closed), RecorderStep::Stop));
    assert_eq!(storage.entries.len(), 2);
    assert_eq!(storage.entries[0].message, user_msg("hello"));
    assert_eq!(storage.entries[0].parent_id, None);
    assert_eq!(storage.entries[1].parent_id, Some(0));
}

#[test]
fn a_failed_write_does_not_move_the_recorder() {
    let mut rec = SessionRecorder::new();
    rec.fork_at(4);
    let r = rec.recorded(Err(SessionError::Io("disk".to_string())));
    assert_eq!(r, Err(SessionError::Io("disk".to_string())));
    assert_eq!(rec.head, Some(4));
}

#[test]
fn lane_writer_append_advances_head() {
    let mut storage = MemStorage::new();
    let shared = SharedSessionStorage::new();
    let mut lane = LaneWriter::new("lane-1".to_string(), None);
    assert_eq!(lane.lane_id(), "lane-1");
    assert_eq!(lane.head(), None);
    let id0 = storage.write(&shared, &mut lane, user_msg("a")).unwrap();
    let id1 = storage.write(&shared, &mut lane, user_msg("b")).unwrap();
    let id2 = storage.write(&shared, &mut lane, user_msg("c")).unwrap();
    assert_eq!((id0, id1, id2), (0, 1, 2));
    assert_eq!(lane.head(), Some(2));
    let tree = storage.load();
    assert_eq!(tree.leaves(), vec![2]);
    assert_eq!(tree.path_to(2).unwrap().len(), 3);
}

#[test]
fn lane_writer_fork_at_redirects_head() {
    let mut storage = MemStorage::new();
    let shared = SharedSessionStorage::new();
    let mut lane = LaneWriter::new("lane-1".to_string(), None);
    storage.write(&shared, &mut lane, user_msg("a")).unwrap();
    storage.write(&shared, &mut lane, user_msg("b")).unwrap();
    lane.fork_at(Some(0));
    let id = storage.write(&shared, &mut lane, user_msg("c")).unwrap();
    assert_eq!(id, 2);
    assert_eq!(lane.head(), Some(2));
    assert_eq!(storage.load().leaves(), vec![1, 2]);
}

#[test]
fn lane_writer_two_lanes_same_head_two_leaves() {
    let mut storage = MemStorage::new();
    let shared = SharedSessionStorage::new();
    let root = storage.append(None, user_msg("root")).unwrap();
    let mut lane_a = LaneWriter::new("a".to_string(), Some(root));
    let mut lane_b = LaneWriter::new("b".to_string(), Some(root));
    let id_a = storage.write(&shared, &mut lane_a, user_msg("a")).unwrap();
    let id_b = storage.write(&shared, &mut lane_b, user_msg("b")).unwrap();
    assert_ne!(id_a, id_b);
    let tree = storage.load();
    assert_eq!(tree.nodes.len(), 3);
    let leaves = tree.leaves();
    assert_eq!(leaves.len(), 2);
    assert!(leaves.contains(&id_a));
    assert!(leaves.contains(&id_b));
    assert_eq!(tree.nodes[&root].children.len(), 2);
}

#[test]
fn lane_writer_with_head_store_append_auto_persists() {
    let mut storage = MemStorage::new();
    let shared = SharedSessionStorage::with_head_store();
    let mut lane = LaneWriter::new("lane-1".to_string(), None);
    storage.write(&shared, &mut lane, user_msg("a")).unwrap();
    let id1 = storage.write(&shared, &mut lane, user_msg("b")).unwrap();
    assert_eq!(storage.heads.get("lane-1"), Some(Some(id1)));
    assert_eq!(lane.head(), Some(id1));
}

#[test]
fn lane_writer_persist_head_explicit_after_fork() {
    let mut storage = MemStorage::new();
    let mut lane = LaneWriter::new("lane-1".to_string(), None);
    lane.fork_at(Some(7));
    storage.append_lane_head(lane.head_record()).unwrap();
    assert_eq!(storage.heads.get("lane-1"), Some(Some(7)));
}

#[test]
fn lane_writer_new_no_store_persist_head_is_noop() {
    let shared = SharedSessionStorage::new();
    assert_eq!(shared.head_record("lane-1".to_string(), Some(3)), None);
    assert_eq!(
        SharedSessionStorage::with_head_store().head_record("lane-1".to_string(), Some(3)),
        Some(LaneHeadRecord { lane_id: "lane-1".to_string(), head: Some(3) })
    );
}

#[test]
fn lane_writer_append_head_failure_does_not_advance_head() {
    let mut storage = MemStorage::new();
    storage.heads_fail = true;
    let shared = SharedSessionStorage::with_head_store();
    let mut lane = LaneWriter::new("lane-1".to_string(), None);
    let r = storage.write(&shared, &mut lane, user_msg("a"));
    assert!(matches!(r, Err(SessionError::Io(_))));
    assert_eq!(lane.head(), None);
    // The message is there, as a dead branch.
    assert_eq!(storage.entries.len(), 1);
}

#[test]
fn append_with_head_atomic_commit_updates_head() {
    let mut storage = MemStorage::new();
    let shared = SharedSessionStorage::with_head_store();
    let id = storage
        .append_with_head(&shared, "a", None, user_msg("x"))
        .unwrap();
    assert_eq!(storage.heads.get("a"), Some(Some(id)));
    assert_eq!(storage.heads.get("b"), None);
}

#[test]
fn the_first_head_does_not_replace_a_later_one() {
    let shared = SharedSessionStorage::with_head_store();
    let mut heads = LaneHeads::new();
    let first = shared.initial_head(&heads, "a", Some(1)).expect("nothing is on record");
    assert_eq!(first, LaneHeadRecord { lane_id: "a".to_string(), head: Some(1) });
    heads.put(LaneHeadRecord { lane_id: "a".to_string(), head: Some(5) });
    assert_eq!(shared.initial_head(&heads, "a", Some(1)), None);
    assert_eq!(SharedSessionStorage::new().initial_head(&heads, "b", None), None);
}

#[test]
fn snapshot_returns_consistent_tree_and_heads() {
    let mut storage = MemStorage::new();
    let shared = SharedSessionStorage::with_head_store();
    let mut lane = LaneWriter::new("a".to_string(), None);
    storage.write(&shared, &mut lane, user_msg("x")).unwrap();
    let mut heads = LaneHeads::new();
    heads.put(lane.head_record());
    let (tree, heads) = shared.snapshot(Ok(storage.load()), Some(Ok(heads))).unwrap();
    assert_eq!(tree.nodes.len(), 1);
    assert_eq!(heads.get("a"), Some(Some(0)));
    assert_eq!(
        shared.snapshot(Ok(storage.load()), Some(Err(SessionError::Cycle))),
        Err(SessionError::Cycle)
    );
    assert_eq!(
        shared.snapshot(Err(SessionError::MultipleRoots), None.or(Some(Ok(LaneHeads::new())))),
        Err(SessionError::MultipleRoots)
    );
}

#[test]
fn snapshot_unbound_head_store_returns_empty_heads() {
    let storage = MemStorage::new();
    let shared = SharedSessionStorage::new();
    let (_, heads) = shared.snapshot(Ok(storage.load()), None).unwrap();
    assert_eq!(heads, LaneHeads::new());
}

#[test]
fn the_last_head_of_a_lane_is_loaded() {
    let head = |lane: &str, head| {
        SessionRecord::LaneHead(LaneHeadRecord { lane_id: lane.to_string(), head })
    };
    let heads = load_lane_heads(vec![
        head("a", None),
        head("b", Some(1)),
        SessionRecord::Message(entry(0, None, "x")),
        head("a", Some(2)),
    ]);
    assert_eq!(heads.get("a"), Some(Some(2)));
    assert_eq!(heads.get("b"), Some(Some(1)));
    assert_eq!(heads.get("c"), None);
}

#[test]
fn a_log_is_split_into_its_lines() {
    let bytes = b"one\ntwo\n\nhalf";
    let spans = split_lines(bytes);
    let lines: Vec<&[u8]> = spans.iter().map(|s| &bytes[s.start..s.end]).collect();
    assert_eq!(
        lines,
        vec![&b"one"[..], &b"two"[..], &b""[..], &b"half"[..]]
    );
    assert_eq!(spans[1].next, 8);
    assert_eq!(valid_len(&spans, 2), 8);
    assert_eq!(valid_len(&spans, 0), 0);
}

#[test]
fn reading_stops_at_the_first_line_that_is_no_record() {
    let records = read_records(vec![
        Some(SessionRecord::Message(entry(0, None, "a"))),
        None,
        Some(SessionRecord::Message(entry(1, Some(0), "b"))),
    ]);
    assert_eq!(records, vec![SessionRecord::Message(entry(0, None, "a"))]);
}

/// The line of an entry with a user message.
fn line_of(e: &SessionEntry) -> String {
    let text = match &e.message {
        Message::User(u) => match &u.content[0] {
            UserContent::Text { text } => text,
            other => panic!("not a text: {other:?}"),
        },
        other => panic!("not a user message: {other:?}"),
    };
    let parent = e.parent_id.map_or("null".to_string(), |p| p.to_string());
    format!(
        "{{\"id\":{},\"parent_id\":{parent},\"message\":{{\"text\":\"{text}\"}}}}",
        e.id
    )
}

/// Reads back what `line_of` wrote; `None` for half a line.
fn read_line(line: &[u8]) -> Option<SessionRecord> {
    let value: serde_json::Value = serde_json::from_slice(line).ok()?;
    let text = value.get("message")?.get("text")?.as_str()?;
    Some(SessionRecord::Message(entry(
        value.get("id")?.as_u64()?,
        value.get("parent_id")?.as_u64(),
        text,
    )))
}

/// The records of a file, and how long the part is that they take.
fn read_file(file: &[u8]) -> (Vec<SessionRecord>, u64) {
    let spans = split_lines(file);
    let records = read_records(spans.iter().map(|s| read_line(&file[s.start..s.end])).collect());
    let len = valid_len(&spans, records.len());
    (records, len)
}

#[test]
fn test_open_locked_truncates_crash_half_line() {
    let valid = frame_record(line_of(&entry(0, None, "valid")));
    let half = "{\"id\":1,\"parent_id\":null,\"message\":{";
    let mut file = format!("{valid}{half}").into_bytes();

    let (records, _) = read_file(&file);
    let lock = FileLock::for_path("dir/session.jsonl");
    let mut storage = JsonlSessionStorage::open_locked(
        "dir/session.jsonl".to_string(),
        "test-session".to_string(),
        &records,
        lock,
    )
    .expect("open_locked should succeed");

    // Under the lock the half line is cut off, and the id comes behind what is on disk.
    let (on_disk, len) = read_file(&file);
    let cut = repair(file.len() as u64, len);
    assert_eq!(cut, Some(valid.len() as u64));
    file.truncate(cut.unwrap() as usize);
    let e = storage
        .prepare_append(Some(on_disk), Some(0), user_msg("after-crash"))
        .expect("append should succeed");
    assert_eq!(e.id, 1);
    file.extend(frame_record(line_of(&e)).into_bytes());

    let (records, len) = read_file(&file);
    assert_eq!(repair(file.len() as u64, len), None);
    let tree = storage.load(records).expect("load should succeed");
    assert_eq!(tree.nodes.len(), 2);
    assert_eq!(tree.root, Some(0));
    assert_eq!(storage.next_id, 2);
}

#[test]
fn a_whole_line_that_is_not_text_is_an_error() {
    let check = |file: &[u8]| {
        let spans = split_lines(file);
        let (records, _) = read_file(file);
        check_stop(file, &spans, records.len())
    };
    let valid = frame_record(line_of(&entry(0, None, "a")));
    let with = |tail: &[u8]| [valid.as_bytes(), tail].concat();
    assert_eq!(check(&with(b"")), Ok(()));
    assert_eq!(check(&with(b"{\"id\":\n")), Ok(()));
    // Half a line can end inside a character.
    assert_eq!(check(&with(b"{\"\xe8\xaa")), Ok(()));
    assert_eq!(
        check(&with(b"\xff\n{}\n")),
        Err(SessionError::Io("stream did not contain valid UTF-8".to_string()))
    );
}

#[test]
fn the_first_head_of_a_lane_counts() {
    let head = |head| LaneHeadRecord { lane_id: "a".to_string(), head };
    let heads = LaneHeads { heads: vec![head(Some(1)), head(Some(2))] };
    assert_eq!(heads.get("a"), Some(Some(1)));
    let shared = SharedSessionStorage::with_head_store();
    assert_eq!(shared.initial_head(&heads, "a", None), None);
}

#[test]
fn test_open_locked_append() {
    let lock = FileLock::for_path("dir/s.jsonl");
    let mut s =
        JsonlSessionStorage::open_locked("dir/s.jsonl".to_string(), "s".to_string(), &[], lock)
            .unwrap();
    let e = s.prepare_append(Some(Vec::new()), None, user_msg("a")).unwrap();
    assert_eq!(e, entry(0, None, "a"));
    assert_eq!(s.next_id, 1);
    assert!(s.file_lock.is_some());
}

#[test]
fn test_open_locked_two_instances_concurrent_append() {
    let open = || {
        JsonlSessionStorage::open_locked(
            "p".to_string(),
            "s".to_string(),
            &[],
            FileLock::for_path("p"),
        )
        .unwrap()
    };
    let mut a = open();
    let mut b = open();
    let first = a.prepare_append(Some(Vec::new()), None, user_msg("a")).unwrap();
    // The other one sees what is in the file once it has the lock.
    let second = b
        .prepare_append(
            Some(vec![SessionRecord::Message(copy(&first))]),
            Some(first.id),
            user_msg("b"),
        )
        .unwrap();
    assert_ne!(first.id, second.id);
    assert_eq!(reduce(vec![first, second]).unwrap().leaves(), vec![1]);
}

#[test]
fn test_open_default_no_file_lock() {
    let records = vec![
        SessionRecord::Message(entry(4, None, "a")),
        SessionRecord::LaneHead(LaneHeadRecord { lane_id: "l".to_string(), head: Some(4) }),
    ];
    let s = JsonlSessionStorage::open("p".to_string(), "s".to_string(), &records).unwrap();
    assert!(s.file_lock.is_none());
    assert_eq!(s.next_id, 5);
}

#[test]
fn ids_run_out_without_a_wrap() {
    let mut s = JsonlSessionStorage::open("p".to_string(), "s".to_string(), &[]).unwrap();
    s.next_id = u64::MAX;
    assert_eq!(s.claim_next_id(), Err(SessionError::IdExhausted));
    assert_eq!(
        JsonlSessionStorage::open(
            "p".to_string(),
            "s".to_string(),
            &[SessionRecord::Message(entry(u64::MAX, None, "a"))],
        )
        .unwrap_err(),
        SessionError::IdExhausted
    );
}

#[test]
fn loading_moves_the_next_id_behind_what_was_read() {
    let mut s = JsonlSessionStorage::open("p".to_string(), "s1".to_string(), &[]).unwrap();
    let tree = s
        .load(vec![
            SessionRecord::Message(entry(3, None, "a")),
            SessionRecord::Message(entry(9, Some(3), "b")),
        ])
        .unwrap();
    assert_eq!(tree.session_id, "s1");
    assert_eq!(s.next_id, 10);
    assert_eq!(s.load(Vec::new()).unwrap().root, None);
    assert_eq!(s.next_id, 10);
    s.refresh_cursor(&[SessionRecord::Message(entry(20, None, "z"))]).unwrap();
    assert_eq!(s.next_id, 21);
    assert_eq!(
        s.load(vec![SessionRecord::Message(entry(1, Some(8), "x"))]).unwrap_err(),
        SessionError::ParentNotFound(8)
    );
}

#[test]
fn errors_of_the_session_have_their_texts() {
    assert_eq!(SessionError::Io("x".to_string()).message(), "io error: x");
    assert_eq!(SessionError::Serde("x".to_string()).message(), "serialize error: x");
    assert_eq!(SessionError::DuplicateNode(3).message(), "duplicate node id: 3");
    assert_eq!(SessionError::ParentNotFound(7).message(), "parent node not found: 7");
    assert_eq!(SessionError::MultipleRoots.message(), "multiple roots not allowed");
    assert_eq!(SessionError::Cycle.message(), "cycle detected");
    assert_eq!(SessionError::IdExhausted.message(), "node id cursor exhausted");
    assert_eq!(
        SessionError::FileLock(FileLockError::Cancelled).message(),
        FileLockError::Cancelled.message()
    );
}

#[test]
fn trying_a_lock_tells_held_from_failed() {
    let lock = FileLock::for_path("dir/file.txt");
    assert_eq!(lock.tried(TryLock::Locked).unwrap(), true);
    assert_eq!(lock.tried(TryLock::Held).unwrap(), false);
    assert!(matches!(
        lock.tried(TryLock::OpenFailed("no".to_string())),
        Err(FileLockError::Open { .. })
    ));
    assert!(matches!(
        lock.tried(TryLock::LockFailed("no".to_string())),
        Err(FileLockError::Acquire { .. })
    ));
    assert!(matches!(
        lock.tried(TryLock::TaskFailed("no".to_string())),
        Err(FileLockError::Join(_))
    ));
}

#[test]
fn paths_that_go_round_are_noticed() {
    let mut tree = reduce(vec![
        entry(0, None, "a"),
        entry(1, Some(0), "b"),
        entry(2, Some(1), "c"),
    ])
    .expect("a tree");
    assert!(tree.leaves_end());
    tree.nodes.get_mut(&0).expect("a node").parent_id = Some(9);
    assert!(tree.leaves_end());
    tree.nodes.get_mut(&0).expect("a node").parent_id = Some(1);
    assert!(!tree.leaves_end());
    assert!(reduce(Vec::new()).expect("no nodes").leaves_end());
}
