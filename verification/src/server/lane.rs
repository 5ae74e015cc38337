//! Starting a lane: check, start, check again and register, write the first head.
use std::sync::Arc;
use vstd::prelude::*;
use vstd::string::*;

use crate::server::registry;
use crate::server::registry::{LaneRuntime, Registry};
use crate::server::{ServerError, ServerErrorView, SessionId};
use crate::session::{LaneId, NodeId, SessionError};

verus! {

/// A lane that is to be started.
#[derive(Debug)]
pub struct LaneSpawn {
    pub session_id: SessionId,
    pub lane_id: LaneId,
    /// The lane that it branches off, if it does.
    pub from: Option<LaneId>,
    /// The node after which its first message comes; `None` for a lane that starts a tree.
    pub head: Option<NodeId>,
    /// Whether the head is not on record yet.
    pub persist_initial: bool,
}

/// What to do with a lane that was started.
#[derive(Debug)]
pub enum SpawnStep {
    /// It could not be registered: shut it down, and report the error.
    Cleanup(ServerError),
    /// It is registered: write its first head, and say how that went.
    Persist { generation: u64 },
    /// It is registered, and its head is on record.
    Done,
}

/// The text of an optional name.
pub open spec fn name_of(name: Option<String>) -> Option<Seq<char>> {
    match name {
        Some(n) => Some(n@),
        None => None,
    }
}

impl LaneSpawn {
    /// A lane that starts with nothing.
    pub fn spawn(session_id: &str, lane_id: &str) -> (r: Self)
        ensures
            r.session_id@ == session_id@,
            r.lane_id@ == lane_id@,
            r.from is None,
            r.head is None,
            r.persist_initial,
    {
        LaneSpawn {
            session_id: session_id.to_owned(),
            lane_id: lane_id.to_owned(),
            from: None,
            head: None,
            persist_initial: true,
        }
    }

    /// A lane that goes on after `head`, which is on record already.
    pub fn resumed(session_id: &str, lane_id: &str, head: Option<NodeId>) -> (r: Self)
        ensures
            r.session_id@ == session_id@,
            r.lane_id@ == lane_id@,
            r.from is None,
            r.head == head,
            !r.persist_initial,
    {
        LaneSpawn {
            session_id: session_id.to_owned(),
            lane_id: lane_id.to_owned(),
            from: None,
            head,
            persist_initial: false,
        }
    }

    /// A lane that branches off `from_lane`.
    pub fn forked(session_id: &str, from_lane: &str, new_lane: &str) -> (r: Self)
        ensures
            r.session_id@ == session_id@,
            r.lane_id@ == new_lane@,
            name_of(r.from) == Some(from_lane@),
            r.head is None,
            r.persist_initial,
    {
        LaneSpawn {
            session_id: session_id.to_owned(),
            lane_id: new_lane.to_owned(),
            from: Some(from_lane.to_owned()),
            head: None,
            persist_initial: true,
        }
    }

    /// Why the lane cannot be registered among `sessions`.
    pub open spec fn refused<S, L>(
        self,
        sessions: Map<Seq<char>, registry::SessionView<S, L>>,
    ) -> Option<ServerErrorView> {
        registry::refusal(sessions, self.session_id@, self.lane_id@, name_of(self.from))
    }

    /// Before the start: the storage for the lane, or why it cannot be started.
    pub fn check<S, L>(&self, sessions: &Registry<S, L>) -> (r: Result<Arc<S>, ServerError>)
        requires
            sessions.wf(),
        ensures
            match (r, self.refused(sessions@)) {
                (Ok(s), None) => s == sessions@[self.session_id@].storage,
                (Err(e), Some(why)) => e@ == why,
                _ => false,
            },
    {
        let from = match &self.from {
            Some(f) => Some(f.as_str()),
            None => None,
        };
        sessions.check_lane(self.session_id.as_str(), self.lane_id.as_str(), from)
    }

    /// The lane, going on after `head`.
    pub open spec fn at(self, head: Option<NodeId>) -> LaneSpawn {
        LaneSpawn { head, ..self }
    }

    /// The lane to branch off has come to `head`.
    pub fn branch_at(&mut self, head: Option<NodeId>)
        ensures
            *final(self) == old(self).at(head),
            final(self).head == head,
    {
        self.head = head;
    }

    /// After the start: the lane is registered, unless it can no longer be.
    pub fn started<S, L>(&self, sessions: &mut Registry<S, L>, lane: Arc<L>) -> (r: SpawnStep)
        requires
            old(sessions).wf(),
        ensures
            final(sessions).wf(),
            final(sessions).next_session_id == old(sessions).next_session_id,
            !(r is Cleanup) ==> final(sessions).next_generation == (old(sessions).next_generation
                + 1) % 0x1_0000_0000_0000_0000,
            ({
                let generation = old(sessions).next_generation;
                let registered = registry::with_lane(
                    old(sessions)@,
                    self.session_id@,
                    self.lane_id@,
                    (LaneRuntime { lane, generation }),
                );
                match (r, self.refused(old(sessions)@)) {
                    (SpawnStep::Cleanup(e), Some(why)) => e@ == why && *final(sessions) == *old(
                        sessions,
                    ),
                    (SpawnStep::Persist { generation: g }, None) => self.persist_initial && g
                        == generation && final(sessions)@ == registered,
                    (SpawnStep::Done, None) => !self.persist_initial && final(sessions)@
                        == registered,
                    _ => false,
                }
            }),
            registry::generations_below(old(sessions)@, old(sessions).next_generation) && old(
                sessions,
            ).next_generation < u64::MAX ==> registry::generations_below(
                final(sessions)@,
                final(sessions).next_generation,
            ),
    {
        let from = match &self.from {
            Some(f) => Some(f.as_str()),
            None => None,
        };
        match sessions.register_lane(
            self.session_id.as_str(),
            self.lane_id.as_str(),
            from,
            lane,
        ) {
            Err(e) => SpawnStep::Cleanup(e),
            Ok(generation) => if self.persist_initial {
                SpawnStep::Persist { generation }
            } else {
                SpawnStep::Done
            },
        }
    }

    /// After the first head was written, or was not: where it was not, the lane that was registered
    /// under `generation` is taken out again, and has to be shut down.
    pub fn persisted<S, L>(
        &self,
        sessions: &mut Registry<S, L>,
        generation: u64,
        written: Result<(), SessionError>,
    ) -> (r: Result<(), ServerError>)
        requires
            old(sessions).wf(),
        ensures
            final(sessions).wf(),
            match written {
                Ok(_) => r is Ok && *final(sessions) == *old(sessions),
                Err(e) => {
                    &&& r == Err::<(), ServerError>(ServerError::Session(e))
                    &&& final(sessions)@ == registry::without_generation(
                        old(sessions)@,
                        self.session_id@,
                        self.lane_id@,
                        generation,
                    )
                    &&& final(sessions).next_session_id == old(sessions).next_session_id
                    &&& final(sessions).next_generation == old(sessions).next_generation
                },
            },
    {
        match written {
            Ok(_) => Ok(()),
            Err(e) => {
                sessions.remove_lane_if_generation(
                    self.session_id.as_str(),
                    self.lane_id.as_str(),
                    generation,
                );
                Err(ServerError::Session(e))
            },
        }
    }
}

/// A lane that branches off goes on after the node that the other lane has come to: it is the same
/// lane as before in all else, and it is still the other lane that it needs to be there.
pub proof fn law_branch_goes_on_after_the_head(spawn: LaneSpawn, head: Option<NodeId>)
    ensures
        spawn.at(head).head == head,
        spawn.at(head).from == spawn.from,
        spawn.at(head).session_id == spawn.session_id,
        spawn.at(head).lane_id == spawn.lane_id,
        spawn.at(head).persist_initial == spawn.persist_initial,
{
}

/// A lane is refused just where its session is not there, where its name is taken, or where the lane
/// that it branches off is not there, and it is told which of these it is.
pub proof fn law_lanes_are_refused_for_a_reason<S, L>(
    spawn: LaneSpawn,
    sessions: Map<Seq<char>, registry::SessionView<S, L>>,
)
    ensures
        ({
            let id = spawn.session_id@;
            let lane = spawn.lane_id@;
            let refused = spawn.refused(sessions);
            &&& !sessions.contains_key(id) ==> refused == Some(
                ServerErrorView::SessionNotFound(id),
            )
            &&& sessions.contains_key(id) && sessions[id].lanes.contains_key(lane) ==> refused
                == Some(ServerErrorView::LaneAlreadyExists(lane))
            &&& sessions.contains_key(id) && !sessions[id].lanes.contains_key(lane)
                ==> match spawn.from {
                Some(f) => if sessions[id].lanes.contains_key(f@) {
                    refused is None
                } else {
                    refused == Some(ServerErrorView::LaneNotFound(f@))
                },
                None => refused is None,
            }
        }),
{
}

/// A lane that was started is registered unless it is refused, under a generation of its own, and
/// nothing else changes; its head is written where it is not on record. Where that fails the lane is
/// taken out again, and what came after it under its name is spared.
pub proof fn law_started_lanes_are_registered<S, L>()
    ensures
        forall|spawn: &LaneSpawn, sessions: &mut Registry<S, L>, lane: Arc<L>, r: SpawnStep|
            sessions.wf() && #[trigger] call_ensures(
                LaneSpawn::started::<S, L>,
                (spawn, sessions, lane),
                r,
            ) ==> {
                let session = spawn.session_id@;
                let name = spawn.lane_id@;
                &&& r is Cleanup <==> spawn.refused(sessions@) is Some
                &&& r is Cleanup ==> final(sessions)@ == sessions@
                &&& !(r is Cleanup) ==> {
                    &&& r is Persist <==> spawn.persist_initial
                    &&& final(sessions)@.contains_key(session)
                    &&& final(sessions)@[session].lanes.contains_key(name)
                    &&& final(sessions)@[session].lanes[name].lane == lane
                    &&& final(sessions)@[session].lanes[name].generation
                        == sessions.next_generation
                    &&& final(sessions)@[session].storage == sessions@[session].storage
                    &&& final(sessions)@[session].lanes.remove(name)
                        == sessions@[session].lanes.remove(name)
                    &&& final(sessions)@.remove(session) == sessions@.remove(session)
                }
            },
        forall|
            spawn: &LaneSpawn,
            sessions: &mut Registry<S, L>,
            generation: u64,
            written: Result<(), SessionError>,
            r: Result<(), ServerError>,
        |
            sessions.wf() && #[trigger] call_ensures(
                LaneSpawn::persisted::<S, L>,
                (spawn, sessions, generation, written),
                r,
            ) ==> {
                let session = spawn.session_id@;
                let name = spawn.lane_id@;
                &&& r is Ok <==> written is Ok
                &&& r is Ok ==> final(sessions)@ == sessions@
                &&& r is Err && registry::has_lane(sessions@, session, name)
                    && sessions@[session].lanes[name].generation == generation
                    ==> !registry::has_lane(final(sessions)@, session, name)
                &&& registry::has_lane(sessions@, session, name)
                    && sessions@[session].lanes[name].generation != generation
                    ==> final(sessions)@ == sessions@
            },
{
    assert forall|a: Map<Seq<char>, registry::SessionView<S, L>>, k: Seq<char>, v: registry::SessionView<S, L>|
        (#[trigger] a.insert(k, v)).remove(k) == a.remove(k) by {
        assert(a.insert(k, v).remove(k) =~= a.remove(k));
    }
    assert forall|a: Map<Seq<char>, LaneRuntime<L>>, k: Seq<char>, v: LaneRuntime<L>| (
    #[trigger] a.insert(k, v)).remove(k) == a.remove(k) by {
        assert(a.insert(k, v).remove(k) =~= a.remove(k));
    }
}

/// A lane is started as it was asked for: from nothing, after a head that is on record, or as a branch
/// of another lane, under its own name in its own session.
pub proof fn law_lanes_start_as_asked(
    session_id: &str,
    lane_id: &str,
    from: &str,
    head: Option<NodeId>,
    spawned: LaneSpawn,
    resumed: LaneSpawn,
    forked: LaneSpawn,
)
    requires
        call_ensures(LaneSpawn::spawn, (session_id, lane_id), spawned),
        call_ensures(LaneSpawn::resumed, (session_id, lane_id, head), resumed),
        call_ensures(LaneSpawn::forked, (session_id, from, lane_id), forked),
    ensures
        spawned.session_id@ == session_id@ && resumed.session_id@ == session_id@
            && forked.session_id@ == session_id@,
        spawned.lane_id@ == lane_id@ && resumed.lane_id@ == lane_id@ && forked.lane_id@ == lane_id@,
        spawned.from is None && resumed.from is None,
        forked.from matches Some(f) && f@ == from@,
        spawned.head is None && resumed.head == head,
        spawned.persist_initial && forked.persist_initial && !resumed.persist_initial,
{
}

} // verus!
