//! The sessions and lanes of a server: who is registered, and who may be.
use std::sync::Arc;
use vstd::prelude::*;
use vstd::string::*;

use crate::ordered;
use crate::ordered::OrderedMap;
use crate::server::{ServerError, ServerErrorView, SessionId};
use crate::session::{SessionError, SessionTree};
use crate::text;

verus! {

/// A running lane. No two lanes are registered under the same generation.
#[derive(Debug)]
pub struct LaneRuntime<L> {
    pub lane: Arc<L>,
    pub generation: u64,
}

/// A session: its storage, and its lanes by name.
#[derive(Debug)]
pub struct SessionState<S, L> {
    pub storage: Arc<S>,
    pub lanes: OrderedMap<LaneRuntime<L>>,
}

/// What a session is: its storage, and its lanes by name.
#[verifier::reject_recursive_types(S)]
#[verifier::reject_recursive_types(L)]
pub struct SessionView<S, L> {
    pub storage: Arc<S>,
    pub lanes: Map<Seq<char>, LaneRuntime<L>>,
}

impl<S, L> View for SessionState<S, L> {
    type V = SessionView<S, L>;

    open spec fn view(&self) -> SessionView<S, L> {
        SessionView { storage: self.storage, lanes: self.lanes@ }
    }
}

/// The sessions of a server, the next number for a session without a name, and the next
/// generation for a lane.
#[derive(Debug)]
pub struct Registry<S, L> {
    pub sessions: OrderedMap<SessionState<S, L>>,
    pub next_session_id: u64,
    pub next_generation: u64,
}

/// A session without lanes.
pub open spec fn fresh<S, L>(storage: Arc<S>) -> SessionView<S, L> {
    SessionView { storage, lanes: Map::empty() }
}

/// Whether there is a lane `lane` in the session `session`.
pub open spec fn has_lane<S, L>(
    sessions: Map<Seq<char>, SessionView<S, L>>,
    session: Seq<char>,
    lane: Seq<char>,
) -> bool {
    sessions.contains_key(session) && sessions[session].lanes.contains_key(lane)
}

/// Why a lane `lane` cannot be added to the session `session`; `None` where it can be. A lane that
/// branches off needs the lane `from` that it branches off.
pub open spec fn refusal<S, L>(
    sessions: Map<Seq<char>, SessionView<S, L>>,
    session: Seq<char>,
    lane: Seq<char>,
    from: Option<Seq<char>>,
) -> Option<ServerErrorView> {
    if !sessions.contains_key(session) {
        Some(ServerErrorView::SessionNotFound(session))
    } else if sessions[session].lanes.contains_key(lane) {
        Some(ServerErrorView::LaneAlreadyExists(lane))
    } else {
        match from {
            Some(f) if !sessions[session].lanes.contains_key(f) => Some(
                ServerErrorView::LaneNotFound(f),
            ),
            _ => None,
        }
    }
}

/// `sessions` with `lane` as a lane of the session `session`.
pub open spec fn with_lane<S, L>(
    sessions: Map<Seq<char>, SessionView<S, L>>,
    session: Seq<char>,
    lane: Seq<char>,
    runtime: LaneRuntime<L>,
) -> Map<Seq<char>, SessionView<S, L>> {
    sessions.insert(
        session,
        SessionView {
            storage: sessions[session].storage,
            lanes: sessions[session].lanes.insert(lane, runtime),
        },
    )
}

/// `sessions` after the lane `lane` of the session `session` was taken out, if it is there and is
/// the one of the generation `generation`.
pub open spec fn without_generation<S, L>(
    sessions: Map<Seq<char>, SessionView<S, L>>,
    session: Seq<char>,
    lane: Seq<char>,
    generation: u64,
) -> Map<Seq<char>, SessionView<S, L>> {
    if has_lane(sessions, session, lane) && sessions[session].lanes[lane].generation
        == generation {
        sessions.insert(
            session,
            SessionView {
                storage: sessions[session].storage,
                lanes: sessions[session].lanes.remove(lane),
            },
        )
    } else {
        sessions
    }
}

/// `sessions` after the session `session` was taken out, if it has no lanes.
pub open spec fn without_empty<S, L>(
    sessions: Map<Seq<char>, SessionView<S, L>>,
    session: Seq<char>,
) -> Map<Seq<char>, SessionView<S, L>> {
    if sessions.contains_key(session) && sessions[session].lanes.dom().is_empty() {
        sessions.remove(session)
    } else {
        sessions
    }
}

/// Whether all generations that are in use come before `next`.
pub open spec fn generations_below<S, L>(
    sessions: Map<Seq<char>, SessionView<S, L>>,
    next: u64,
) -> bool {
    forall|session: Seq<char>, lane: Seq<char>| #[trigger]
        has_lane(sessions, session, lane) ==> sessions[session].lanes[lane].generation < next
}

/// The lanes of one session, in the order of their names.
pub open spec fn lanes_of<L>(entries: Seq<ordered::Entry<LaneRuntime<L>>>) -> Seq<Arc<L>> {
    entries.map_values(|e: ordered::Entry<LaneRuntime<L>>| e.value.lane)
}

/// The lanes of all sessions, one session after the other.
pub open spec fn all_lanes<S, L>(entries: Seq<ordered::Entry<SessionState<S, L>>>) -> Seq<Arc<L>>
    decreases entries.len(),
{
    if entries.len() == 0 {
        Seq::empty()
    } else {
        all_lanes(entries.drop_last()) + lanes_of(entries.last().value.lanes.entries@)
    }
}

impl<S, L> View for Registry<S, L> {
    type V = Map<Seq<char>, SessionView<S, L>>;

    open spec fn view(&self) -> Map<Seq<char>, SessionView<S, L>> {
        self.sessions@.map_values(|s: SessionState<S, L>| s@)
    }
}

impl<S, L> Default for Registry<S, L> {
    fn default() -> (r: Self)
        ensures
            r.wf(),
            r@ == Map::<Seq<char>, SessionView<S, L>>::empty(),
            r.next_session_id == 1,
            generations_below(r@, r.next_generation),
    {
        Registry::new()
    }
}

impl<S, L> Registry<S, L> {
    /// The sessions are in the order of their names, and so are the lanes of each.
    pub open spec fn wf(self) -> bool {
        &&& self.sessions.wf()
        &&& forall|id: Seq<char>| #[trigger]
            self.sessions@.contains_key(id) ==> self.sessions@[id].lanes.wf()
    }

    /// A server without sessions.
    pub fn new() -> (r: Self)
        ensures
            r.wf(),
            r@ == Map::<Seq<char>, SessionView<S, L>>::empty(),
            r.next_session_id == 1,
            generations_below(r@, r.next_generation),
    {
        let r = Registry { sessions: OrderedMap::new(), next_session_id: 1, next_generation: 0 };
        assert(r@ =~= Map::<Seq<char>, SessionView<S, L>>::empty());
        r
    }

    /// Registers a session without lanes; a name that is taken is refused.
    pub fn create_session(&mut self, session_id: SessionId, storage: Arc<S>) -> (r: Result<
        (),
        ServerError,
    >)
        requires
            old(self).wf(),
        ensures
            final(self).wf(),
            final(self).next_session_id == old(self).next_session_id,
            final(self).next_generation == old(self).next_generation,
            match r {
                Ok(_) => !old(self)@.contains_key(session_id@) && final(self)@
                    == old(self)@.insert(session_id@, fresh(storage)),
                Err(e) => old(self)@.contains_key(session_id@) && *final(self) == *old(self) && e@
                    == ServerErrorView::DuplicateSession(session_id@),
            },
    {
        if self.sessions.contains(session_id.as_str()) {
            return Err(ServerError::DuplicateSession(session_id));
        }
        let ghost name = session_id@;
        let added = self.sessions.insert_new(
            session_id,
            SessionState { storage, lanes: OrderedMap::new() },
        );
        assert(added is Ok);
        assert(self@ =~= old(self)@.insert(name, fresh(storage)));
        Ok(())
    }

    /// Registers a session whose storage was read; where it could not be read, nothing is
    /// registered.
    pub fn load_session(
        &mut self,
        session_id: SessionId,
        storage: Arc<S>,
        loaded: Result<SessionTree, SessionError>,
    ) -> (r: Result<(), ServerError>)
        requires
            old(self).wf(),
        ensures
            final(self).wf(),
            final(self).next_session_id == old(self).next_session_id,
            final(self).next_generation == old(self).next_generation,
            match loaded {
                Err(e) => *final(self) == *old(self) && r == Err::<(), ServerError>(
                    ServerError::Session(e),
                ),
                Ok(_) => match r {
                    Ok(_) => !old(self)@.contains_key(session_id@) && final(self)@
                        == old(self)@.insert(session_id@, fresh(storage)),
                    Err(e) => old(self)@.contains_key(session_id@) && *final(self) == *old(self)
                        && e@ == ServerErrorView::DuplicateSession(session_id@),
                },
            },
    {
        match loaded {
            Err(e) => Err(ServerError::Session(e)),
            Ok(_) => self.create_session(session_id, storage),
        }
    }

    /// The names of the sessions, in their order.
    pub fn list_sessions(&self) -> (r: Vec<SessionId>)
        ensures
            text::texts(r@) == ordered::keys_of(self.sessions.entries@),
    {
        self.sessions.keys()
    }

    /// A name for a session without one: the next number.
    pub fn allocate_session_id(&mut self) -> (r: SessionId)
        ensures
            r@ == text::decimal(old(self).next_session_id as nat),
            final(self).next_session_id == (old(self).next_session_id + 1) % 0x1_0000_0000_0000_0000,
            final(self).sessions == old(self).sessions,
            final(self).next_generation == old(self).next_generation,
    {
        let id = self.next_session_id;
        self.next_session_id = id.wrapping_add(1);
        text::decimal_u64(id)
    }

    /// The storage of a session.
    pub fn storage_of(&self, session_id: &str) -> (r: Result<Arc<S>, ServerError>)
        requires
            self.wf(),
        ensures
            match r {
                Ok(s) => self@.contains_key(session_id@) && s == self@[session_id@].storage,
                Err(e) => !self@.contains_key(session_id@) && e@
                    == ServerErrorView::SessionNotFound(session_id@),
            },
    {
        match self.sessions.get(session_id) {
            Some(s) => Ok(Arc::clone(&s.storage)),
            None => Err(ServerError::SessionNotFound(session_id.to_owned())),
        }
    }

    /// The lane of a name.
    pub fn get_lane(&self, session_id: &str, lane_id: &str) -> (r: Result<Arc<L>, ServerError>)
        requires
            self.wf(),
        ensures
            match r {
                Ok(l) => has_lane(self@, session_id@, lane_id@) && l
                    == self@[session_id@].lanes[lane_id@].lane,
                Err(e) => !has_lane(self@, session_id@, lane_id@) && e@ == (if !self@.contains_key(
                    session_id@,
                ) {
                    ServerErrorView::SessionNotFound(session_id@)
                } else {
                    ServerErrorView::LaneNotFound(lane_id@)
                }),
            },
    {
        match self.sessions.get(session_id) {
            Some(s) => match s.lanes.get(lane_id) {
                Some(l) => Ok(Arc::clone(&l.lane)),
                None => Err(ServerError::LaneNotFound(lane_id.to_owned())),
            },
            None => Err(ServerError::SessionNotFound(session_id.to_owned())),
        }
    }

    /// Whether a lane may be added now: the storage for it, or why not.
    pub fn check_lane(&self, session_id: &str, lane_id: &str, from: Option<&str>) -> (r: Result<
        Arc<S>,
        ServerError,
    >)
        requires
            self.wf(),
        ensures
            ({
                let from_text = match from {
                    Some(f) => Some(f@),
                    None => None,
                };
                match (r, refusal(self@, session_id@, lane_id@, from_text)) {
                    (Ok(s), None) => s == self@[session_id@].storage,
                    (Err(e), Some(why)) => e@ == why,
                    _ => false,
                }
            }),
    {
        match self.sessions.get(session_id) {
            None => Err(ServerError::SessionNotFound(session_id.to_owned())),
            Some(s) => {
                if s.lanes.contains(lane_id) {
                    return Err(ServerError::LaneAlreadyExists(lane_id.to_owned()));
                }
                match from {
                    Some(f) => if !s.lanes.contains(f) {
                        return Err(ServerError::LaneNotFound(f.to_owned()));
                    },
                    None => {},
                }
                Ok(Arc::clone(&s.storage))
            },
        }
    }

    /// Registers a lane that was started. Meanwhile the session may have gone, or the name may have
    /// been taken: it is checked again, and nothing that is registered is replaced.
    pub fn register_lane(
        &mut self,
        session_id: &str,
        lane_id: &str,
        from: Option<&str>,
        lane: Arc<L>,
    ) -> (r: Result<u64, ServerError>)
        requires
            old(self).wf(),
        ensures
            final(self).wf(),
            final(self).next_session_id == old(self).next_session_id,
            ({
                let from_text = match from {
                    Some(f) => Some(f@),
                    None => None,
                };
                match (r, refusal(old(self)@, session_id@, lane_id@, from_text)) {
                    (Ok(generation), None) => {
                        &&& generation == old(self).next_generation
                        &&& final(self)@ == with_lane(
                            old(self)@,
                            session_id@,
                            lane_id@,
                            (LaneRuntime { lane, generation }),
                        )
                        &&& final(self).next_generation == (old(self).next_generation + 1)
                            % 0x1_0000_0000_0000_0000
                    },
                    (Err(e), Some(why)) => e@ == why && *final(self) == *old(self),
                    _ => false,
                }
            }),
            generations_below(old(self)@, old(self).next_generation) && old(self).next_generation
                < u64::MAX ==> generations_below(final(self)@, final(self).next_generation),
    {
        match self.check_lane(session_id, lane_id, from) {
            Ok(_) => {},
            Err(e) => {
                return Err(e);
            },
        }
        let generation = self.next_generation;
        match self.sessions.remove(session_id) {
            Some(s) => {
                let mut state = s;
                let ghost lanes = state.lanes@;
                let runtime = LaneRuntime { lane, generation };
                let added = state.lanes.insert_new(lane_id.to_owned(), runtime);
                assert(added is Ok);
                let back = self.sessions.insert_new(session_id.to_owned(), state);
                assert(back is Ok);
                self.next_generation = generation.wrapping_add(1);
                proof {
                    assert(self@ =~= with_lane(old(self)@, session_id@, lane_id@, runtime));
                    if generations_below(old(self)@, old(self).next_generation)
                        && old(self).next_generation < u64::MAX {
                        assert forall|sid: Seq<char>, lid: Seq<char>| #[trigger]
                            has_lane(self@, sid, lid) implies self@[sid].lanes[lid].generation
                            < self.next_generation by {
                            if !(sid == session_id@ && lid == lane_id@) {
                                assert(has_lane(old(self)@, sid, lid));
                            }
                        }
                    }
                }
                Ok(generation)
            },
            None => {
                assert(false);
                Err(ServerError::SessionNotFound(session_id.to_owned()))
            },
        }
    }

    /// Takes a lane out again, if the lane of that name is still the one that was registered under
    /// `generation`.
    pub fn remove_lane_if_generation(&mut self, session_id: &str, lane_id: &str, generation: u64)
        requires
            old(self).wf(),
        ensures
            final(self).wf(),
            final(self).next_session_id == old(self).next_session_id,
            final(self).next_generation == old(self).next_generation,
            final(self)@ == without_generation(old(self)@, session_id@, lane_id@, generation),
    {
        let matches = match self.sessions.get(session_id) {
            Some(s) => match s.lanes.get(lane_id) {
                Some(l) => l.generation == generation,
                None => false,
            },
            None => false,
        };
        if matches {
            match self.sessions.remove(session_id) {
                Some(s) => {
                    let mut state = s;
                    let _gone = state.lanes.remove(lane_id);
                    let back = self.sessions.insert_new(session_id.to_owned(), state);
                    assert(back is Ok);
                },
                None => {},
            }
        }
        assert(self@ =~= without_generation(old(self)@, session_id@, lane_id@, generation));
    }

    /// Takes a session out, if it has no lanes.
    pub fn remove_session_if_empty(&mut self, session_id: &str)
        requires
            old(self).wf(),
        ensures
            final(self).wf(),
            final(self).next_session_id == old(self).next_session_id,
            final(self).next_generation == old(self).next_generation,
            final(self)@ == without_empty(old(self)@, session_id@),
    {
        let is_empty = match self.sessions.get(session_id) {
            Some(s) => {
                proof {
                    if s.lanes.entries@.len() > 0 {
                        ordered::lemma_at(s.lanes.entries@, 0);
                        assert(s.lanes@.dom().contains(s.lanes.entries@[0].key@));
                        assert(!s.lanes@.dom().is_empty());
                    } else {
                        assert(s.lanes@.dom() =~= Set::empty());
                    }
                }
                s.lanes.len() == 0
            },
            None => false,
        };
        if is_empty {
            let _gone = self.sessions.remove(session_id);
        }
        assert(self@ =~= without_empty(old(self)@, session_id@));
    }

    /// Takes all sessions out, and gives their lanes to shut down.
    pub fn shutdown(&mut self) -> (r: Vec<Arc<L>>)
        requires
            old(self).wf(),
        ensures
            final(self).wf(),
            final(self)@ == Map::<Seq<char>, SessionView<S, L>>::empty(),
            final(self).next_session_id == old(self).next_session_id,
            final(self).next_generation == old(self).next_generation,
            r@ == all_lanes(old(self).sessions.entries@),
    {
        let mut out: Vec<Arc<L>> = Vec::new();
        let mut i: usize = 0;
        while i < self.sessions.entries.len()
            invariant
                *self == *old(self),
                i <= self.sessions.entries@.len(),
                out@ == all_lanes(self.sessions.entries@.take(i as int)),
            decreases self.sessions.entries@.len() - i,
        {
            let lanes = &self.sessions.entries[i].value.lanes;
            let ghost before = out@;
            let mut k: usize = 0;
            assert(before + lanes_of(lanes.entries@.take(0)) =~= before);
            while k < lanes.entries.len()
                invariant
                    k <= lanes.entries@.len(),
                    out@ == before + lanes_of(lanes.entries@.take(k as int)),
                decreases lanes.entries@.len() - k,
            {
                out.push(Arc::clone(&lanes.entries[k].value.lane));
                assert(before + lanes_of(lanes.entries@.take(k + 1)) =~= (before + lanes_of(
                    lanes.entries@.take(k as int),
                )).push(lanes.entries@[k as int].value.lane));
                k += 1;
            }
            assert(lanes.entries@.take(lanes.entries@.len() as int) =~= lanes.entries@);
            assert(self.sessions.entries@.take(i + 1).drop_last() =~= self.sessions.entries@.take(
                i as int,
            ));
            i += 1;
        }
        assert(self.sessions.entries@.take(self.sessions.entries@.len() as int)
            =~= self.sessions.entries@);
        self.sessions = OrderedMap::new();
        assert(self@ =~= Map::<Seq<char>, SessionView<S, L>>::empty());
        out
    }
}

/// A value that is set once: the first one stays.
#[derive(Debug)]
pub struct OnceSlot<F> {
    pub value: Option<F>,
}

impl<F> OnceSlot<F> {
    /// Nothing is set yet.
    pub fn new() -> (r: Self)
        ensures
            r.value is None,
    {
        OnceSlot { value: None }
    }

    /// Sets the value, if none is set.
    pub fn set(&mut self, value: F)
        ensures
            final(self).value == match old(self).value {
                Some(v) => Some(v),
                None => Some(value),
            },
    {
        if self.value.is_none() {
            self.value = Some(value);
        }
    }

    /// The maker of storages.
    pub fn storage_factory(&self) -> (r: Result<&F, ServerError>)
        ensures
            match r {
                Ok(f) => self.value == Some(*f),
                Err(e) => self.value is None && e@ == ServerErrorView::Protocol(
                    "no storage factory"@,
                ),
            },
    {
        match &self.value {
            Some(f) => Ok(f),
            None => Err(ServerError::Protocol("no storage factory".to_owned())),
        }
    }

    /// The maker of runtimes.
    pub fn runtime_factory(&self) -> (r: Result<&F, ServerError>)
        ensures
            match r {
                Ok(f) => self.value == Some(*f),
                Err(e) => self.value is None && e@ == ServerErrorView::Protocol(
                    "no runtime factory"@,
                ),
            },
    {
        match &self.value {
            Some(f) => Ok(f),
            None => Err(ServerError::Protocol("no runtime factory".to_owned())),
        }
    }
}

/// Names from different numbers are different.
pub proof fn law_allocated_ids_differ(a: u64, b: u64)
    requires
        a != b,
    ensures
        text::decimal(a as nat) != text::decimal(b as nat),
{
    if text::decimal(a as nat) == text::decimal(b as nat) {
        text::lemma_decimal_injective(a as nat, b as nat);
    }
}

/// A lane that is registered replaces nothing: all lanes that were there stay as they are.
pub proof fn law_registering_replaces_nothing<S, L>(
    sessions: Map<Seq<char>, SessionView<S, L>>,
    session: Seq<char>,
    lane: Seq<char>,
    from: Option<Seq<char>>,
    runtime: LaneRuntime<L>,
)
    requires
        refusal(sessions, session, lane, from) is None,
    ensures
        with_lane(sessions, session, lane, runtime).dom() == sessions.dom(),
        has_lane(with_lane(sessions, session, lane, runtime), session, lane),
        forall|s: Seq<char>, l: Seq<char>| #[trigger]
            has_lane(sessions, s, l) ==> {
                &&& has_lane(with_lane(sessions, session, lane, runtime), s, l)
                &&& with_lane(sessions, session, lane, runtime)[s].lanes[l] == sessions[s].lanes[l]
            },
{
    assert(with_lane(sessions, session, lane, runtime).dom() =~= sessions.dom());
}

/// A lane that could not be made durable is taken out again without a trace.
pub proof fn law_failed_lane_leaves_no_trace<S, L>(
    sessions: Map<Seq<char>, SessionView<S, L>>,
    session: Seq<char>,
    lane: Seq<char>,
    from: Option<Seq<char>>,
    runtime: LaneRuntime<L>,
)
    requires
        refusal(sessions, session, lane, from) is None,
    ensures
        without_generation(
            with_lane(sessions, session, lane, runtime),
            session,
            lane,
            runtime.generation,
        ) == sessions,
{
    let lanes = sessions[session].lanes;
    assert(lanes.insert(lane, runtime).remove(lane) =~= lanes);
    assert(without_generation(
        with_lane(sessions, session, lane, runtime),
        session,
        lane,
        runtime.generation,
    ) =~= sessions);
}

/// Taking back an earlier lane spares the one that was registered under its name since.
pub proof fn law_rollback_spares_a_successor<S, L>(
    sessions: Map<Seq<char>, SessionView<S, L>>,
    session: Seq<char>,
    lane: Seq<char>,
    successor: LaneRuntime<L>,
    earlier: u64,
)
    requires
        earlier < successor.generation,
    ensures
        without_generation(
            with_lane(sessions, session, lane, successor),
            session,
            lane,
            earlier,
        ) == with_lane(sessions, session, lane, successor),
{
}

/// A session that was registered for a lane which could not be started is taken out again without a
/// trace.
pub proof fn law_failed_session_leaves_no_trace<S, L>(
    sessions: Map<Seq<char>, SessionView<S, L>>,
    session: Seq<char>,
    storage: Arc<S>,
)
    requires
        !sessions.contains_key(session),
    ensures
        without_empty(sessions.insert(session, fresh(storage)), session) == sessions,
{
    assert(sessions.insert(session, fresh(storage))[session].lanes.dom() =~= Set::empty());
    assert(sessions.insert(session, fresh(storage)).remove(session) =~= sessions);
}

/// Whether `running` is a lane of some session.
pub open spec fn is_registered<S, L>(
    sessions: Map<Seq<char>, SessionView<S, L>>,
    running: Arc<L>,
) -> bool {
    exists|session: Seq<char>, lane: Seq<char>| #[trigger]
        has_lane(sessions, session, lane) && sessions[session].lanes[lane].lane == running
}

/// Shutting down reaches every lane that is registered, and no other.
pub proof fn law_shutdown_reaches_every_lane<S, L>(r: Registry<S, L>)
    requires
        r.wf(),
    ensures
        forall|session: Seq<char>, lane: Seq<char>| #[trigger]
            has_lane(r@, session, lane) ==> all_lanes(r.sessions.entries@).contains(
                r@[session].lanes[lane].lane,
            ),
        forall|k: int|
            0 <= k < all_lanes(r.sessions.entries@).len() ==> is_registered(
                r@,
                #[trigger] all_lanes(r.sessions.entries@)[k],
            ),
{
    let entries = r.sessions.entries@;
    assert forall|session: Seq<char>, lane: Seq<char>| #[trigger]
        has_lane(r@, session, lane) implies all_lanes(entries).contains(
        r@[session].lanes[lane].lane,
    ) by {
        assert(r.sessions@.contains_key(session));
        let i = ordered::index_of(entries, session);
        assert(ordered::has_key(entries, session));
        let lanes = entries[i].value.lanes.entries@;
        assert(ordered::has_key(lanes, lane));
        let j = ordered::index_of(lanes, lane);
        assert(r@[session].lanes[lane] == lanes[j].value);
        lemma_lane_is_listed(entries, i, j);
    }
    assert forall|k: int| 0 <= k < all_lanes(entries).len() implies is_registered(
        r@,
        #[trigger] all_lanes(entries)[k],
    ) by {
        let (i, j) = lemma_listed_lane(entries, k);
        let session = entries[i].key@;
        ordered::lemma_at(entries, i);
        assert(r.sessions@.contains_key(session));
        let lanes = entries[i].value.lanes.entries@;
        ordered::lemma_at(lanes, j);
        assert(has_lane(r@, session, lanes[j].key@));
    }
}

proof fn lemma_lane_is_listed<S, L>(
    entries: Seq<ordered::Entry<SessionState<S, L>>>,
    i: int,
    j: int,
)
    requires
        0 <= i < entries.len(),
        0 <= j < entries[i].value.lanes.entries@.len(),
    ensures
        all_lanes(entries).contains(entries[i].value.lanes.entries@[j].value.lane),
    decreases entries.len(),
{
    let init = entries.drop_last();
    let lane = entries[i].value.lanes.entries@[j].value.lane;
    let last = lanes_of(entries.last().value.lanes.entries@);
    assert(all_lanes(entries) == all_lanes(init) + last);
    if i < init.len() {
        lemma_lane_is_listed(init, i, j);
        let k = choose|k: int| 0 <= k < all_lanes(init).len() && all_lanes(init)[k] == lane;
        assert(all_lanes(entries)[k] == lane);
    } else {
        assert(last[j] == lane);
        assert(all_lanes(entries)[all_lanes(init).len() + j] == lane);
    }
}

proof fn lemma_listed_lane<S, L>(
    entries: Seq<ordered::Entry<SessionState<S, L>>>,
    k: int,
) -> (r: (int, int))
    requires
        0 <= k < all_lanes(entries).len(),
    ensures
        0 <= r.0 < entries.len(),
        0 <= r.1 < entries[r.0].value.lanes.entries@.len(),
        entries[r.0].value.lanes.entries@[r.1].value.lane == all_lanes(entries)[k],
    decreases entries.len(),
{
    let init = entries.drop_last();
    if k < all_lanes(init).len() {
        let (i, j) = lemma_listed_lane(init, k);
        assert(init[i] == entries[i]);
        (i, j)
    } else {
        let last = lanes_of(entries.last().value.lanes.entries@);
        assert(all_lanes(entries)[k] == last[k - all_lanes(init).len()]);
        (entries.len() - 1, k - all_lanes(init).len())
    }
}

/// A new session has the storage that it was made with and no lanes, and the others stay.
pub proof fn law_new_sessions_are_empty<S, L>(
    sessions: Map<Seq<char>, SessionView<S, L>>,
    session: Seq<char>,
    storage: Arc<S>,
    other: Seq<char>,
    lane: Seq<char>,
)
    ensures
        ({
            let after = sessions.insert(session, fresh(storage));
            &&& after[session].storage == storage
            &&& !has_lane(after, session, lane)
            &&& other != session ==> has_lane(after, other, lane) == has_lane(
                sessions,
                other,
                lane,
            )
        }),
{
}

/// Taking a lane out takes out that lane alone, and only the one of that generation; taking out a
/// session that has lanes does nothing.
pub proof fn law_taking_out_spares_the_others<S, L>(
    sessions: Map<Seq<char>, SessionView<S, L>>,
    session: Seq<char>,
    lane: Seq<char>,
    generation: u64,
    s: Seq<char>,
    l: Seq<char>,
)
    ensures
        ({
            let after = without_generation(sessions, session, lane, generation);
            let taken = s == session && l == lane && has_lane(sessions, session, lane)
                && sessions[session].lanes[lane].generation == generation;
            &&& after.dom() =~= sessions.dom()
            &&& has_lane(after, s, l) <==> has_lane(sessions, s, l) && !taken
            &&& has_lane(after, s, l) ==> after[s].lanes[l] == sessions[s].lanes[l]
            &&& sessions.contains_key(s) ==> after[s].storage == sessions[s].storage
        }),
        has_lane(sessions, session, lane) ==> without_empty(sessions, session) == sessions,
        s != session ==> without_empty(sessions, session).contains_key(s) == sessions.contains_key(
            s,
        ),
{
}

/// A session is registered once: under a name that is taken nothing changes, and registering one
/// changes no other. What could not be read is not registered.
pub proof fn law_sessions_are_registered_once<S, L>()
    ensures
        forall|
            sessions: &mut Registry<S, L>,
            name: SessionId,
            storage: Arc<S>,
            r: Result<(), ServerError>,
        |
            sessions.wf() && #[trigger] call_ensures(
                Registry::<S, L>::create_session,
                (sessions, name, storage),
                r,
            ) ==> {
                &&& r is Ok <==> !sessions@.contains_key(name@)
                &&& r is Err ==> final(sessions)@ == sessions@
                &&& r is Ok ==> final(sessions)@.contains_key(name@)
                    && final(sessions)@[name@].storage == storage
                    && final(sessions)@[name@].lanes.dom().is_empty()
                &&& final(sessions)@.remove(name@) == sessions@.remove(name@)
            },
        forall|
            sessions: &mut Registry<S, L>,
            name: SessionId,
            storage: Arc<S>,
            loaded: Result<SessionTree, SessionError>,
            r: Result<(), ServerError>,
        |
            sessions.wf() && #[trigger] call_ensures(
                Registry::<S, L>::load_session,
                (sessions, name, storage, loaded),
                r,
            ) ==> {
                &&& r is Ok <==> loaded is Ok && !sessions@.contains_key(name@)
                &&& r is Err ==> final(sessions)@ == sessions@
                &&& r is Ok ==> final(sessions)@.contains_key(name@)
                    && final(sessions)@[name@].storage == storage
                    && final(sessions)@[name@].lanes.dom().is_empty()
                &&& final(sessions)@.remove(name@) == sessions@.remove(name@)
            },
{
    assert(Map::<Seq<char>, LaneRuntime<L>>::empty().dom() =~= Set::empty());
    assert forall|a: Map<Seq<char>, SessionView<S, L>>, k: Seq<char>, v: SessionView<S, L>| (
    #[trigger] a.insert(k, v)).remove(k) == a.remove(k) by {
        assert(a.insert(k, v).remove(k) =~= a.remove(k));
    }
}

/// A lane is found just where it is registered, and it is the one that was registered; a lane that is
/// not there is told apart from a session that is not.
pub proof fn law_registered_lanes_are_found<S, L>(
    sessions: Registry<S, L>,
    session: &str,
    lane: &str,
    r: Result<Arc<L>, ServerError>,
    storage: Result<Arc<S>, ServerError>,
)
    requires
        sessions.wf(),
        call_ensures(Registry::<S, L>::get_lane, (&sessions, session, lane), r),
        call_ensures(Registry::<S, L>::storage_of, (&sessions, session), storage),
    ensures
        r is Ok <==> sessions@.contains_key(session@) && sessions@[session@].lanes.contains_key(
            lane@,
        ),
        r matches Ok(l) ==> l == sessions@[session@].lanes[lane@].lane,
        r matches Err(e) ==> e@ == if sessions@.contains_key(session@) {
            ServerErrorView::LaneNotFound(lane@)
        } else {
            ServerErrorView::SessionNotFound(session@)
        },
        storage is Ok <==> sessions@.contains_key(session@),
        storage matches Ok(s) ==> s == sessions@[session@].storage,
{
}

/// What was set first stays.
pub proof fn law_first_value_stays<F>()
    ensures
        forall|slot: &mut OnceSlot<F>, value: F, r: ()| #[trigger]
            call_ensures(OnceSlot::<F>::set, (slot, value), r) ==> {
                &&& final(slot).value is Some
                &&& slot.value is Some ==> final(slot).value == slot.value
                &&& slot.value is None ==> final(slot).value == Some(value)
            },
{
}

} // verus!
