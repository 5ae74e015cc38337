//! Lanes: several writers to one session, each with a head of its own.
use vstd::prelude::*;
use vstd::string::*;

use crate::event::AgentEvent;
use crate::message::Message;
use crate::session::log;
use crate::session::log::{LaneHeadRecord, LaneHeads, SessionRecord};
use crate::session::{LaneId, NodeId, SessionEntry, SessionError, SessionTree};

verus! {

/// Writes the messages of one agent to a session, each below the one before.
#[derive(Debug)]
pub struct SessionRecorder {
    pub head: Option<NodeId>,
}

/// What came from the events of an agent.
#[derive(Debug)]
pub enum RecorderInput {
    Event(AgentEvent),
    /// Some events were dropped.
    Lagged,
    /// There will be no more events.
    Closed,
}

/// What to do with it.
#[derive(Debug)]
pub enum RecorderStep {
    Record(Message),
    Skip,
    Stop,
}

/// Of the events of an agent only the messages that are complete are written.
pub fn record_step(input: RecorderInput) -> (r: RecorderStep)
    ensures
        match input {
            RecorderInput::Event(AgentEvent::MessageEnd { message }) => {
                r matches RecorderStep::Record(m) && m@ == message@
            },
            RecorderInput::Closed => r is Stop,
            _ => r is Skip,
        },
{
    match input {
        RecorderInput::Event(event) => match event {
            AgentEvent::MessageEnd { message } => RecorderStep::Record((*message).clone()),
            _ => RecorderStep::Skip,
        },
        RecorderInput::Lagged => RecorderStep::Skip,
        RecorderInput::Closed => RecorderStep::Stop,
    }
}

/// The head after a message was written below `head`, or was not.
pub open spec fn advanced(head: Option<NodeId>, written: Result<NodeId, SessionError>) -> Option<
    NodeId,
> {
    match written {
        Ok(id) => Some(id),
        Err(_) => head,
    }
}

impl SessionRecorder {
    /// The first message becomes the root.
    pub fn new() -> (r: Self)
        ensures
            r.head is None,
    {
        SessionRecorder { head: None }
    }

    /// After a message was written below the head, or was not: the head moves only where it was.
    pub fn recorded(&mut self, written: Result<NodeId, SessionError>) -> (r: Result<
        NodeId,
        SessionError,
    >)
        ensures
            r == written,
            final(self).head == advanced(old(self).head, written),
    {
        match written {
            Ok(id) => {
                self.head = Some(id);
                Ok(id)
            },
            Err(e) => Err(e),
        }
    }

    /// What comes next is written below `parent`.
    pub fn fork_at(&mut self, parent: NodeId)
        ensures
            final(self).head == Some(parent),
    {
        self.head = Some(parent);
    }
}

/// Where a lane writes.
#[derive(Debug)]
pub struct LaneWriter {
    lane_id: LaneId,
    head: Option<NodeId>,
}

impl LaneWriter {
    /// The name of the lane.
    pub closed spec fn name(self) -> Seq<char> {
        self.lane_id@
    }

    /// The node below which the lane writes next; `None` for a lane that starts a tree.
    pub closed spec fn position(self) -> Option<NodeId> {
        self.head
    }

    /// A lane that writes below `head`.
    pub fn new(lane_id: LaneId, head: Option<NodeId>) -> (r: Self)
        ensures
            r.name() == lane_id@,
            r.position() == head,
    {
        LaneWriter { lane_id, head }
    }

    /// The name of the lane.
    pub fn lane_id(&self) -> (r: &LaneId)
        ensures
            r@ == self.name(),
    {
        &self.lane_id
    }

    /// The node below which the lane writes next.
    pub fn head(&self) -> (r: Option<NodeId>)
        ensures
            r == self.position(),
    {
        self.head
    }

    /// What is on record for the lane once its head is written.
    pub fn head_record(&self) -> (r: LaneHeadRecord)
        ensures
            r.lane_id@ == self.name(),
            r.head == self.position(),
    {
        LaneHeadRecord { lane_id: self.lane_id.clone(), head: self.head }
    }

    /// After a message was written below the head, or was not: the head moves only where the
    /// message, and the head if it is to be on record, were written.
    pub fn appended(&mut self, written: Result<NodeId, SessionError>) -> (r: Result<
        NodeId,
        SessionError,
    >)
        ensures
            r == written,
            final(self).name() == old(self).name(),
            final(self).position() == advanced(old(self).position(), written),
    {
        match written {
            Ok(id) => {
                self.head = Some(id);
                Ok(id)
            },
            Err(e) => Err(e),
        }
    }

    /// What comes next is written below `parent`; with `None` it becomes a root, which only an
    /// empty tree takes.
    pub fn fork_at(&mut self, parent: Option<NodeId>)
        ensures
            final(self).name() == old(self).name(),
            final(self).position() == parent,
    {
        self.head = parent;
    }
}

/// The storage that the lanes of a session share: whether the heads of lanes are put on record.
#[derive(Debug, Clone, Copy, PartialEq, Eq, Structural)]
pub struct SharedSessionStorage {
    pub keeps_heads: bool,
}

/// What to do once a message was written, or was not.
#[derive(Debug)]
pub enum AppendStep {
    Done(Result<NodeId, SessionError>),
    /// Write the head too, before anybody else writes.
    WriteHead { id: NodeId, record: LaneHeadRecord },
}

impl SharedSessionStorage {
    /// A storage that keeps messages only.
    pub fn new() -> (r: Self)
        ensures
            !r.keeps_heads,
    {
        SharedSessionStorage { keeps_heads: false }
    }

    /// A storage that keeps the heads of lanes too.
    pub fn with_head_store() -> (r: Self)
        ensures
            r.keeps_heads,
    {
        SharedSessionStorage { keeps_heads: true }
    }

    /// A message and the head of its lane are written together: first the message.
    pub fn message_written(&self, lane_id: &str, written: Result<NodeId, SessionError>) -> (r:
        AppendStep)
        ensures
            match written {
                Ok(id) if self.keeps_heads => {
                    r matches AppendStep::WriteHead { id: i, record } && i == id
                        && record.lane_id@ == lane_id@ && record.head == Some(id)
                },
                _ => r == AppendStep::Done(written),
            },
    {
        match written {
            Ok(id) => if self.keeps_heads {
                AppendStep::WriteHead {
                    id,
                    record: LaneHeadRecord { lane_id: lane_id.to_owned(), head: Some(id) },
                }
            } else {
                AppendStep::Done(Ok(id))
            },
            Err(e) => AppendStep::Done(Err(e)),
        }
    }

    /// Then the head: where it could not be written the whole has failed.
    pub fn head_written(&self, id: NodeId, written: Result<(), SessionError>) -> (r: Result<
        NodeId,
        SessionError,
    >)
        ensures
            match written {
                Ok(_) => r == Ok::<NodeId, SessionError>(id),
                Err(e) => r == Err::<NodeId, SessionError>(e),
            },
    {
        match written {
            Ok(_) => Ok(id),
            Err(e) => Err(e),
        }
    }

    /// What to write for the head of a lane: nothing where heads are not kept.
    pub fn head_record(&self, lane_id: LaneId, head: Option<NodeId>) -> (r: Option<LaneHeadRecord>)
        ensures
            r == if self.keeps_heads {
                Some(LaneHeadRecord { lane_id, head })
            } else {
                None
            },
    {
        if self.keeps_heads {
            Some(LaneHeadRecord { lane_id, head })
        } else {
            None
        }
    }

    /// What to write for the head of a lane that was started: nothing where heads are not kept, or
    /// where the lane has written one in the meantime.
    pub fn initial_head(&self, stored: &LaneHeads, lane_id: &str, head: Option<NodeId>) -> (r:
        Option<LaneHeadRecord>)
        ensures
            match r {
                Some(record) => {
                    &&& self.keeps_heads
                    &&& stored.lookup(lane_id@) is None
                    &&& record.lane_id@ == lane_id@
                    &&& record.head == head
                },
                None => !self.keeps_heads || stored.lookup(lane_id@) is Some,
            },
    {
        if !self.keeps_heads {
            return None;
        }
        match stored.get(lane_id) {
            Some(_) => None,
            None => Some(LaneHeadRecord { lane_id: lane_id.to_owned(), head }),
        }
    }

    /// The heads of the lanes: those that were read, and none where heads are not kept.
    pub fn lane_heads(&self, read: Option<Result<LaneHeads, SessionError>>) -> (r: Result<
        LaneHeads,
        SessionError,
    >)
        requires
            self.keeps_heads ==> read is Some,
        ensures
            if self.keeps_heads {
                r == read->0
            } else {
                r matches Ok(heads) && heads.wf() && heads.heads@.len() == 0
            },
    {
        if self.keeps_heads {
            match read {
                Some(heads) => heads,
                None => Ok(LaneHeads::new()),
            }
        } else {
            Ok(LaneHeads::new())
        }
    }

    /// The tree and the heads as they were at one moment.
    pub fn snapshot(
        &self,
        tree: Result<SessionTree, SessionError>,
        read: Option<Result<LaneHeads, SessionError>>,
    ) -> (r: Result<(SessionTree, LaneHeads), SessionError>)
        requires
            self.keeps_heads ==> read is Some,
        ensures
            match tree {
                Err(e) => r == Err::<(SessionTree, LaneHeads), SessionError>(e),
                Ok(t) => if self.keeps_heads {
                    r == match read->0 {
                        Ok(heads) => Ok::<(SessionTree, LaneHeads), SessionError>((t, heads)),
                        Err(e) => Err::<(SessionTree, LaneHeads), SessionError>(e),
                    }
                } else {
                    r matches Ok(both) && both.0 == t && both.1.wf() && both.1.heads@.len() == 0
                },
            },
    {
        match tree {
            Err(e) => Err(e),
            Ok(t) => match self.lane_heads(read) {
                Ok(heads) => Ok((t, heads)),
                Err(e) => Err(e),
            },
        }
    }
}

/// The log after a message and the head of its lane were written.
pub open spec fn committed(
    records: Seq<SessionRecord>,
    entry: SessionEntry,
    head: LaneHeadRecord,
) -> Seq<SessionRecord> {
    records.push(SessionRecord::Message(entry)).push(SessionRecord::LaneHead(head))
}

/// The head that a lane holds and the one on record do not part. A lane that writes moves its own
/// head in both places and that of no other lane; where the head could not be written, neither
/// moves, and the message that was written is a dead branch.
pub proof fn law_heads_on_record_agree(
    records: Seq<SessionRecord>,
    lane: Seq<char>,
    other: Seq<char>,
    entry: SessionEntry,
    head: LaneHeadRecord,
    failure: SessionError,
)
    requires
        lane != other,
        head.lane_id@ == lane,
        head.head == Some(entry.id),
    ensures
        log::head_of(committed(records, entry, head), lane) == Some(
            advanced(entry.parent_id, Ok(entry.id)),
        ),
        log::head_of(committed(records, entry, head), other) == log::head_of(records, other),
        log::head_of(records, lane) == Some(entry.parent_id) ==> log::head_of(
            records.push(SessionRecord::Message(entry)),
            lane,
        ) == Some(advanced(entry.parent_id, Err(failure))),
        log::head_of(records.push(SessionRecord::Message(entry)), other) == log::head_of(
            records,
            other,
        ),
{
    let with_message = records.push(SessionRecord::Message(entry));
    log::law_last_head_wins(records, SessionRecord::Message(entry), lane);
    log::law_last_head_wins(records, SessionRecord::Message(entry), other);
    log::law_last_head_wins(with_message, SessionRecord::LaneHead(head), lane);
    log::law_last_head_wins(with_message, SessionRecord::LaneHead(head), other);
}

/// The first head of a lane does not come after what the lane has written itself: with the check,
/// the head on record is the lane's own last one.
pub proof fn law_initial_head_does_not_step_back(
    records: Seq<SessionRecord>,
    stored: LaneHeads,
    lane: Seq<char>,
    record: Option<LaneHeadRecord>,
    initial: Option<NodeId>,
)
    requires
        stored.lookup(lane) == log::head_of(records, lane),
        match record {
            Some(h) => stored.lookup(lane) is None && h.lane_id@ == lane && h.head == initial,
            None => stored.lookup(lane) is Some,
        },
    ensures
        log::head_of(
            match record {
                Some(h) => records.push(SessionRecord::LaneHead(h)),
                None => records,
            },
            lane,
        ) == match log::head_of(records, lane) {
            Some(own) => Some(own),
            None => Some(initial),
        },
{
    match record {
        Some(h) => {
            log::law_last_head_wins(records, SessionRecord::LaneHead(h), lane);
        },
        None => {},
    }
}

/// Messages that are written one after the other make up one line: each is written below the one
/// before it, the first one below where the lane stood, and one that could not be written is passed
/// over.
pub proof fn law_messages_are_written_in_a_line(
    head: Option<NodeId>,
    first: NodeId,
    second: NodeId,
    failure: SessionError,
)
    ensures
        advanced(head, Ok(first)) == Some(first),
        advanced(advanced(head, Ok(first)), Ok(second)) == Some(second),
        advanced(head, Err(failure)) == head,
        advanced(advanced(head, Err(failure)), Ok(second)) == advanced(head, Ok(second)),
{
}

/// A message is written when it is complete and not before, and as it is; nothing else is written.
pub proof fn law_complete_messages_are_recorded(input: RecorderInput, r: RecorderStep)
    requires
        call_ensures(record_step, (input,), r),
    ensures
        r is Record <==> input is Event && input->Event_0 is MessageEnd,
        r is Stop <==> input is Closed,
        r matches RecorderStep::Record(m) ==> (input matches RecorderInput::Event(e) && (
        e matches AgentEvent::MessageEnd { message } && m@ == message@)),
{
}

/// The head of a lane follows what is written: it moves to the node that was written and stays where
/// nothing was, and it moves together with what is on record, for this lane only.
pub proof fn law_head_follows_what_is_written()
    ensures
        forall|
            lane: &mut LaneWriter,
            written: Result<NodeId, SessionError>,
            r: Result<NodeId, SessionError>,
        | #[trigger]
            call_ensures(LaneWriter::appended, (lane, written), r) ==> {
                &&& written is Ok ==> final(lane).position() == Some(written->Ok_0)
                &&& written is Err ==> final(lane).position() == lane.position()
                &&& final(lane).name() == lane.name()
                &&& r == written
            },
        forall|
            recorder: &mut SessionRecorder,
            written: Result<NodeId, SessionError>,
            r: Result<NodeId, SessionError>,
        | #[trigger]
            call_ensures(SessionRecorder::recorded, (recorder, written), r) ==> {
                &&& written is Ok ==> final(recorder).head == Some(written->Ok_0)
                &&& written is Err ==> final(recorder).head == recorder.head
                &&& r == written
            },
        forall|lane: &mut LaneWriter, parent: Option<NodeId>, r: ()| #[trigger]
            call_ensures(LaneWriter::fork_at, (lane, parent), r) ==> final(lane).position() == parent
                && final(lane).name() == lane.name(),
{
}

/// A message and the head of its lane are written together where heads are kept: the head that is
/// written is the message, for the lane that wrote it, and the whole succeeds only if both were
/// written.
pub proof fn law_message_and_head_are_written_together(
    storage: SharedSessionStorage,
    lane_id: &str,
    written: Result<NodeId, SessionError>,
    step: AppendStep,
    id: NodeId,
    head_written: Result<(), SessionError>,
    r: Result<NodeId, SessionError>,
)
    requires
        call_ensures(SharedSessionStorage::message_written, (&storage, lane_id, written), step),
        call_ensures(SharedSessionStorage::head_written, (&storage, id, head_written), r),
    ensures
        step is WriteHead <==> storage.keeps_heads && written is Ok,
        step matches AppendStep::WriteHead { id: i, record } ==> written == Ok::<
            NodeId,
            SessionError,
        >(i) && record.lane_id@ == lane_id@ && record.head == Some(i),
        step matches AppendStep::Done(result) ==> result == written,
        r is Ok <==> head_written is Ok,
        r matches Ok(i) ==> i == id,
{
}

/// What a lane that was started writes as its first head does not take the place of one that is on
/// record.
pub proof fn law_first_head_is_written_once(
    storage: SharedSessionStorage,
    stored: LaneHeads,
    lane_id: &str,
    head: Option<NodeId>,
    r: Option<LaneHeadRecord>,
)
    requires
        stored.wf(),
        call_ensures(SharedSessionStorage::initial_head, (&storage, &stored, lane_id, head), r),
    ensures
        (exists|i: int| 0 <= i < stored.heads@.len() && (#[trigger] stored.heads@[i]).lane_id@
            == lane_id@) ==> r is None,
        !storage.keeps_heads ==> r is None,
        storage.keeps_heads && (forall|i: int|
            0 <= i < stored.heads@.len() ==> (#[trigger] stored.heads@[i]).lane_id@ != lane_id@)
            ==> r is Some,
        r matches Some(record) ==> record.lane_id@ == lane_id@ && record.head == head,
{
    log::law_heads_are_found_by_lane(stored, lane_id@, 0);
    if exists|i: int|
        0 <= i < stored.heads@.len() && (#[trigger] stored.heads@[i]).lane_id@ == lane_id@ {
        let i = choose|i: int|
            0 <= i < stored.heads@.len() && (#[trigger] stored.heads@[i]).lane_id@ == lane_id@;
        log::law_heads_are_found_by_lane(stored, lane_id@, i);
    }
}

/// The heads of lanes are those that were read where heads are kept; a tree that cannot be read gives
/// no snapshot.
pub proof fn law_snapshot_is_of_one_moment(
    storage: SharedSessionStorage,
    tree: Result<SessionTree, SessionError>,
    read: Option<Result<LaneHeads, SessionError>>,
    r: Result<(SessionTree, LaneHeads), SessionError>,
    lane_id: LaneId,
    head: Option<NodeId>,
    record: Option<LaneHeadRecord>,
)
    requires
        storage.keeps_heads ==> read is Some,
        call_ensures(SharedSessionStorage::snapshot, (&storage, tree, read), r),
        call_ensures(SharedSessionStorage::head_record, (&storage, lane_id, head), record),
    ensures
        r is Ok ==> tree is Ok && (r->Ok_0).0 == tree->Ok_0,
        tree is Err ==> r is Err,
        storage.keeps_heads && tree is Ok ==> (r is Ok <==> (read->0) is Ok),
        storage.keeps_heads && r is Ok ==> (r->Ok_0).1 == (read->0)->Ok_0,
        !storage.keeps_heads && tree is Ok ==> r is Ok && (r->Ok_0).1.heads@.len() == 0,
        record is Some <==> storage.keeps_heads,
        record matches Some(h) ==> h.lane_id == lane_id && h.head == head,
{
}

} // verus!
