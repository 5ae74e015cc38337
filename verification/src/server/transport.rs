//! One connection to the server: what each request asks to do, and what it is answered.
use std::sync::Arc;
use vstd::prelude::*;
use vstd::string::*;

use crate::agent::{AgentCommand, AgentError, AgentSnapshot};
use crate::event::AgentEvent;
use crate::json;
use crate::ordered;
use crate::ordered::OrderedMap;
use crate::server::lane;
use crate::server::lane::LaneSpawn;
use crate::server::protocol;
use crate::server::protocol::{ServerMessage, ServerRequest};
use crate::server::registry;
use crate::server::registry::Registry;
use crate::server::{ServerError, ServerErrorView, SessionId};
use crate::session::{LaneId, NodeId, SessionError, SessionTree};
use crate::text;

verus! {

/// The lanes whose events a connection gets, each with the token that ends its forwarding.
#[derive(Debug)]
pub struct Subscriptions<T> {
    pub sessions: OrderedMap<OrderedMap<T>>,
}

impl<T> View for Subscriptions<T> {
    type V = Map<(Seq<char>, Seq<char>), T>;

    open spec fn view(&self) -> Map<(Seq<char>, Seq<char>), T> {
        Map::new(
            |k: (Seq<char>, Seq<char>)|
                self.sessions@.contains_key(k.0) && self.sessions@[k.0]@.contains_key(k.1),
            |k: (Seq<char>, Seq<char>)| self.sessions@[k.0]@[k.1],
        )
    }
}

/// The tokens of one session, in the order of its lanes.
pub open spec fn tokens_of<T>(entries: Seq<ordered::Entry<T>>) -> Seq<T> {
    entries.map_values(|e: ordered::Entry<T>| e.value)
}

/// The tokens of all sessions, one session after the other.
pub open spec fn all_tokens<T>(entries: Seq<ordered::Entry<OrderedMap<T>>>) -> Seq<T>
    decreases entries.len(),
{
    if entries.len() == 0 {
        Seq::empty()
    } else {
        all_tokens(entries.drop_last()) + tokens_of(entries.last().value.entries@)
    }
}

impl<T> Subscriptions<T> {
    /// The sessions are in the order of their names, and so are the lanes of each.
    pub open spec fn wf(self) -> bool {
        &&& self.sessions.wf()
        &&& forall|id: Seq<char>| #[trigger]
            self.sessions@.contains_key(id) ==> self.sessions@[id].wf()
    }

    /// No subscriptions.
    pub fn new() -> (r: Self)
        ensures
            r.wf(),
            r@ == Map::<(Seq<char>, Seq<char>), T>::empty(),
    {
        let r = Subscriptions { sessions: OrderedMap::new() };
        assert(r@ =~= Map::<(Seq<char>, Seq<char>), T>::empty());
        r
    }

    /// Subscribes to a lane. The token of an earlier subscription to it is given back.
    pub fn insert(&mut self, session_id: SessionId, lane_id: LaneId, token: T) -> (r: Option<T>)
        requires
            old(self).wf(),
        ensures
            final(self).wf(),
            final(self)@ == old(self)@.insert((session_id@, lane_id@), token),
            match r {
                Some(t) => old(self)@.contains_key((session_id@, lane_id@)) && t
                    == old(self)@[(session_id@, lane_id@)],
                None => !old(self)@.contains_key((session_id@, lane_id@)),
            },
    {
        let ghost key = (session_id@, lane_id@);
        let mut lanes = match self.sessions.remove(session_id.as_str()) {
            Some(lanes) => lanes,
            None => OrderedMap::new(),
        };
        let replaced = lanes.remove(lane_id.as_str());
        let added = lanes.insert_new(lane_id, token);
        assert(added is Ok);
        let back = self.sessions.insert_new(session_id, lanes);
        assert(back is Ok);
        assert(self@ =~= old(self)@.insert(key, token));
        replaced
    }

    /// Ends the subscription to a lane, and gives its token.
    pub fn remove(&mut self, session_id: &str, lane_id: &str) -> (r: Option<T>)
        requires
            old(self).wf(),
        ensures
            final(self).wf(),
            final(self)@ == old(self)@.remove((session_id@, lane_id@)),
            match r {
                Some(t) => old(self)@.contains_key((session_id@, lane_id@)) && t
                    == old(self)@[(session_id@, lane_id@)],
                None => !old(self)@.contains_key((session_id@, lane_id@)),
            },
    {
        let ghost key = (session_id@, lane_id@);
        match self.sessions.remove(session_id) {
            Some(s) => {
                let mut lanes = s;
                let gone = lanes.remove(lane_id);
                let back = self.sessions.insert_new(session_id.to_owned(), lanes);
                assert(back is Ok);
                assert(self@ =~= old(self)@.remove(key));
                gone
            },
            None => {
                assert(self@ =~= old(self)@.remove(key));
                None
            },
        }
    }

    /// Ends all subscriptions: the tokens to cancel.
    pub fn into_tokens(self) -> (r: Vec<T>)
        ensures
            r@ == all_tokens(self.sessions.entries@),
    {
        let ghost all = self.sessions.entries@;
        let mut out: Vec<T> = Vec::new();
        let mut n: Ghost<int> = Ghost(0);
        assert(all.take(0) =~= Seq::empty());
        for session in it: self.sessions.entries
            invariant
                all == it.seq(),
                n@ == it.index(),
                out@ == all_tokens(all.take(n@)),
        {
            let ghost before = out@;
            let ghost lanes = session.value.entries@;
            let mut k: Ghost<int> = Ghost(0);
            assert(before + tokens_of(lanes.take(0)) =~= before);
            for e in inner: session.value.entries
                invariant
                    lanes == inner.seq(),
                    k@ == inner.index(),
                    out@ == before + tokens_of(lanes.take(k@)),
            {
                out.push(e.value);
                assert(before + tokens_of(lanes.take(k@ + 1)) =~= (before + tokens_of(
                    lanes.take(k@),
                )).push(lanes[k@].value));
                proof {
                    k@ = k@ + 1;
                }
            }
            assert(lanes.take(lanes.len() as int) =~= lanes);
            assert(all.take(n@ + 1).drop_last() =~= all.take(n@));
            proof {
                n@ = n@ + 1;
            }
        }
        assert(all.take(all.len() as int) =~= all);
        out
    }
}

/// What a request asks to do.
#[allow(inconsistent_fields)]
#[derive(Debug)]
pub enum ServerAction<L, T> {
    /// End the connection with an error.
    Fail(ServerError),
    /// Send the answer.
    Reply(ServerMessage),
    /// Send the answer, and end the connection.
    Close(ServerMessage),
    /// Make a storage, and register the session with it.
    Create { id: u64, session_id: SessionId },
    /// Make a storage, read it, and register the session with it.
    Load { id: u64, session_id: SessionId },
    /// Start a lane.
    Start { id: u64, spawn: LaneSpawn },
    /// Give a lane a command.
    Command { id: u64, lane: Arc<L>, command: AgentCommand },
    /// Send the snapshot of a lane.
    Snapshot { id: u64, session_id: SessionId, lane_id: LaneId, lane: Arc<L> },
    /// Start to forward the events of a lane.
    Subscribe { id: u64, session_id: SessionId, lane_id: LaneId, lane: Arc<L> },
    /// Cancel what forwards the events of a lane, and send the answer.
    Cancel { token: Option<T>, reply: ServerMessage },
}

/// Whether `m` says that request `id` was done, with nothing to tell.
pub open spec fn says_done(m: ServerMessage, id: u64) -> bool {
    m matches ServerMessage::Response { id: i, result } && i == id && result == Ok::<
        serde_json::Value,
        String,
    >(json::json_null())
}

/// Whether `m` says that request `id` failed with the text `why`.
pub open spec fn says_failed(m: ServerMessage, id: u64, why: Seq<char>) -> bool {
    m matches ServerMessage::Response { id: i, result: Err(s) } && i == id && s@ == why
}

/// Why there is no lane `lane` in the session `session`.
pub open spec fn missing<S, L>(
    sessions: Map<Seq<char>, registry::SessionView<S, L>>,
    session: Seq<char>,
    lane: Seq<char>,
) -> ServerErrorView {
    if !sessions.contains_key(session) {
        ServerErrorView::SessionNotFound(session)
    } else {
        ServerErrorView::LaneNotFound(lane)
    }
}

/// Whether `action` gives the lane a command, or says that there is no such lane.
pub open spec fn commands<S, L, T>(
    sessions: Map<Seq<char>, registry::SessionView<S, L>>,
    id: u64,
    session: Seq<char>,
    lane: Seq<char>,
    command: AgentCommand,
    action: ServerAction<L, T>,
) -> bool {
    if registry::has_lane(sessions, session, lane) {
        action == ServerAction::<L, T>::Command {
            id,
            lane: sessions[session].lanes[lane].lane,
            command,
        }
    } else {
        action matches ServerAction::Reply(m) && says_failed(
            m,
            id,
            missing(sessions, session, lane).text(),
        )
    }
}

/// Whether `action` fails for want of a factory.
pub open spec fn fails<L, T>(action: ServerAction<L, T>, why: Seq<char>) -> bool {
    action matches ServerAction::Fail(e) && e@ == ServerErrorView::Protocol(why)
}

/// Whether `action` is what the request asks for.
pub open spec fn asks<S, L, T>(
    sessions: Registry<S, L>,
    subscriptions: Map<(Seq<char>, Seq<char>), T>,
    has_storage: bool,
    has_runtime: bool,
    req: ServerRequest,
    action: ServerAction<L, T>,
) -> bool {
    match req {
        ServerRequest::CreateSession { id, session_id } => if !has_storage {
            fails(action, "no storage factory"@)
        } else {
            action matches ServerAction::Create { id: i, session_id: s } && i == id && s@
                == match session_id {
                Some(given) => given@,
                None => text::decimal(sessions.next_session_id as nat),
            }
        },
        ServerRequest::LoadSession { id, session_id } => if !has_storage {
            fails(action, "no storage factory"@)
        } else {
            action == ServerAction::<L, T>::Load { id, session_id }
        },
        ServerRequest::ListSessions { id } => action matches ServerAction::Reply(
            ServerMessage::SessionList { id: i, sessions: names },
        ) && i == id && text::texts(names@) == ordered::keys_of(sessions.sessions.entries@),
        ServerRequest::SpawnLane { id, session_id, lane_id } => if !has_runtime {
            fails(action, "no runtime factory"@)
        } else {
            action matches ServerAction::Start { id: i, spawn } && i == id && spawn.session_id@
                == session_id@ && spawn.lane_id@ == lane_id@ && spawn.from is None
                && spawn.head is None && spawn.persist_initial
        },
        ServerRequest::ForkLane { id, session_id, from_lane, new_lane } => if !has_runtime {
            fails(action, "no runtime factory"@)
        } else {
            action matches ServerAction::Start { id: i, spawn } && i == id && spawn.session_id@
                == session_id@ && spawn.lane_id@ == new_lane@ && lane::name_of(spawn.from) == Some(
                from_lane@,
            ) && spawn.head is None && spawn.persist_initial
        },
        ServerRequest::Prompt { id, session_id, lane_id, messages } => commands(
            sessions@,
            id,
            session_id@,
            lane_id@,
            AgentCommand::Prompt(messages),
            action,
        ),
        ServerRequest::Continue { id, session_id, lane_id } => commands(
            sessions@,
            id,
            session_id@,
            lane_id@,
            AgentCommand::Continue,
            action,
        ),
        ServerRequest::Abort { id, session_id, lane_id } => commands(
            sessions@,
            id,
            session_id@,
            lane_id@,
            AgentCommand::Abort,
            action,
        ),
        ServerRequest::Reset { id, session_id, lane_id } => commands(
            sessions@,
            id,
            session_id@,
            lane_id@,
            AgentCommand::Reset,
            action,
        ),
        ServerRequest::GetSnapshot { id, session_id, lane_id } => if registry::has_lane(
            sessions@,
            session_id@,
            lane_id@,
        ) {
            action == ServerAction::<L, T>::Snapshot {
                id,
                session_id,
                lane_id,
                lane: sessions@[session_id@].lanes[lane_id@].lane,
            }
        } else {
            action matches ServerAction::Reply(m) && says_failed(m, id, "lane not found"@)
        },
        ServerRequest::Subscribe { id, session_id, lane_id } => if registry::has_lane(
            sessions@,
            session_id@,
            lane_id@,
        ) {
            action == ServerAction::<L, T>::Subscribe {
                id,
                session_id,
                lane_id,
                lane: sessions@[session_id@].lanes[lane_id@].lane,
            }
        } else {
            action matches ServerAction::Reply(m) && says_failed(m, id, "lane not found"@)
        },
        ServerRequest::Unsubscribe { id, session_id, lane_id } => action matches ServerAction::Cancel {
            token,
            reply,
        } && says_done(reply, id) && token == if subscriptions.contains_key(
            (session_id@, lane_id@),
        ) {
            Some(subscriptions[(session_id@, lane_id@)])
        } else {
            None
        },
        ServerRequest::Shutdown { id } => action matches ServerAction::Close(m) && says_done(m, id),
    }
}

fn done(id: u64) -> (r: ServerMessage)
    ensures
        says_done(r, id),
{
    ServerMessage::Response { id, result: Ok(json::null()) }
}

fn failed(id: u64, why: String) -> (r: ServerMessage)
    ensures
        says_failed(r, id, why@),
{
    ServerMessage::Response { id, result: Err(why) }
}

/// The answer where there is no lane, or where its agent was shut down before it was asked.
pub fn lane_gone(id: u64) -> (r: ServerMessage)
    ensures
        says_failed(r, id, "lane not found"@),
{
    failed(id, "lane not found".to_owned())
}

/// The answer to `GetSnapshot`, given the snapshot of the agent, `None` where it was shut down.
pub fn snapshot_taken(
    id: u64,
    session_id: SessionId,
    lane_id: LaneId,
    snapshot: Option<AgentSnapshot>,
) -> (r: ServerMessage)
    ensures
        match snapshot {
            Some(snapshot) => r == (ServerMessage::Snapshot { session_id, lane_id, snapshot }),
            None => says_failed(r, id, "lane not found"@),
        },
{
    match snapshot {
        Some(snapshot) => ServerMessage::Snapshot { session_id, lane_id, snapshot },
        None => lane_gone(id),
    }
}

fn command_lane<S, L, T>(
    sessions: &Registry<S, L>,
    id: u64,
    session_id: &str,
    lane_id: &str,
    command: AgentCommand,
) -> (r: ServerAction<L, T>)
    requires
        sessions.wf(),
    ensures
        commands(sessions@, id, session_id@, lane_id@, command, r),
{
    match sessions.get_lane(session_id, lane_id) {
        Ok(lane) => ServerAction::Command { id, lane, command },
        Err(e) => ServerAction::Reply(failed(id, e.message())),
    }
}

/// What a request asks to do. Only a session without a name changes the sessions here, in that it
/// takes a number; only `Unsubscribe` changes the subscriptions.
pub fn dispatch<S, L, T>(
    sessions: &mut Registry<S, L>,
    subscriptions: &mut Subscriptions<T>,
    has_storage: bool,
    has_runtime: bool,
    req: ServerRequest,
) -> (r: ServerAction<L, T>)
    requires
        old(sessions).wf(),
        old(subscriptions).wf(),
    ensures
        final(sessions).wf(),
        final(subscriptions).wf(),
        asks(*old(sessions), old(subscriptions)@, has_storage, has_runtime, req, r),
        final(sessions).sessions == old(sessions).sessions,
        final(sessions).next_generation == old(sessions).next_generation,
        final(sessions).next_session_id == (if req matches ServerRequest::CreateSession {
            session_id: None,
            ..
        } {
            (old(sessions).next_session_id + 1) % 0x1_0000_0000_0000_0000
        } else {
            old(sessions).next_session_id as int
        }),
        final(subscriptions)@ == match req {
            ServerRequest::Unsubscribe { session_id, lane_id, .. } => old(subscriptions)@.remove(
                (session_id@, lane_id@),
            ),
            _ => old(subscriptions)@,
        },
{
    match req {
        ServerRequest::CreateSession { id, session_id } => {
            let name = match session_id {
                Some(given) => given,
                None => sessions.allocate_session_id(),
            };
            if !has_storage {
                return ServerAction::Fail(ServerError::Protocol("no storage factory".to_owned()));
            }
            ServerAction::Create { id, session_id: name }
        },
        ServerRequest::LoadSession { id, session_id } => {
            if !has_storage {
                return ServerAction::Fail(ServerError::Protocol("no storage factory".to_owned()));
            }
            ServerAction::Load { id, session_id }
        },
        ServerRequest::ListSessions { id } => ServerAction::Reply(
            ServerMessage::SessionList { id, sessions: sessions.list_sessions() },
        ),
        ServerRequest::SpawnLane { id, session_id, lane_id } => {
            if !has_runtime {
                return ServerAction::Fail(ServerError::Protocol("no runtime factory".to_owned()));
            }
            ServerAction::Start {
                id,
                spawn: LaneSpawn::spawn(session_id.as_str(), lane_id.as_str()),
            }
        },
        ServerRequest::ForkLane { id, session_id, from_lane, new_lane } => {
            if !has_runtime {
                return ServerAction::Fail(ServerError::Protocol("no runtime factory".to_owned()));
            }
            ServerAction::Start {
                id,
                spawn: LaneSpawn::forked(
                    session_id.as_str(),
                    from_lane.as_str(),
                    new_lane.as_str(),
                ),
            }
        },
        ServerRequest::Prompt { id, session_id, lane_id, messages } => command_lane(
            sessions,
            id,
            session_id.as_str(),
            lane_id.as_str(),
            AgentCommand::Prompt(messages),
        ),
        ServerRequest::Continue { id, session_id, lane_id } => command_lane(
            sessions,
            id,
            session_id.as_str(),
            lane_id.as_str(),
            AgentCommand::Continue,
        ),
        ServerRequest::Abort { id, session_id, lane_id } => command_lane(
            sessions,
            id,
            session_id.as_str(),
            lane_id.as_str(),
            AgentCommand::Abort,
        ),
        ServerRequest::Reset { id, session_id, lane_id } => command_lane(
            sessions,
            id,
            session_id.as_str(),
            lane_id.as_str(),
            AgentCommand::Reset,
        ),
        ServerRequest::GetSnapshot { id, session_id, lane_id } => match sessions.get_lane(
            session_id.as_str(),
            lane_id.as_str(),
        ) {
            Ok(lane) => ServerAction::Snapshot { id, session_id, lane_id, lane },
            Err(_) => ServerAction::Reply(lane_gone(id)),
        },
        ServerRequest::Subscribe { id, session_id, lane_id } => match sessions.get_lane(
            session_id.as_str(),
            lane_id.as_str(),
        ) {
            Ok(lane) => ServerAction::Subscribe { id, session_id, lane_id, lane },
            Err(_) => ServerAction::Reply(lane_gone(id)),
        },
        ServerRequest::Unsubscribe { id, session_id, lane_id } => {
            let token = subscriptions.remove(session_id.as_str(), lane_id.as_str());
            ServerAction::Cancel { token, reply: done(id) }
        },
        ServerRequest::Shutdown { id } => ServerAction::Close(done(id)),
    }
}

/// The answer to `CreateSession`, once there is a storage: the session is registered.
pub fn created<S, L>(
    sessions: &mut Registry<S, L>,
    id: u64,
    session_id: SessionId,
    storage: Arc<S>,
) -> (r: ServerMessage)
    requires
        old(sessions).wf(),
    ensures
        final(sessions).wf(),
        final(sessions).next_session_id == old(sessions).next_session_id,
        final(sessions).next_generation == old(sessions).next_generation,
        if old(sessions)@.contains_key(session_id@) {
            &&& *final(sessions) == *old(sessions)
            &&& says_failed(r, id, ServerErrorView::DuplicateSession(session_id@).text())
        } else {
            &&& final(sessions)@ == old(sessions)@.insert(session_id@, registry::fresh(storage))
            &&& r matches ServerMessage::Response { id: i, result: Ok(v) } && i == id
                && json::text_of(v) == Some(session_id@)
        },
{
    let name = session_id.clone();
    match sessions.create_session(session_id, storage) {
        Ok(_) => ServerMessage::Response { id, result: Ok(json::from_text(name)) },
        Err(e) => failed(id, e.message()),
    }
}

/// The answer to `LoadSession`, once the storage was read: the session is registered.
pub fn loaded<S, L>(
    sessions: &mut Registry<S, L>,
    id: u64,
    session_id: SessionId,
    storage: Arc<S>,
    tree: Result<SessionTree, SessionError>,
) -> (r: ServerMessage)
    requires
        old(sessions).wf(),
    ensures
        final(sessions).wf(),
        final(sessions).next_session_id == old(sessions).next_session_id,
        final(sessions).next_generation == old(sessions).next_generation,
        match tree {
            Err(e) => {
                &&& *final(sessions) == *old(sessions)
                &&& says_failed(r, id, ServerErrorView::Session(e).text())
            },
            Ok(_) => if old(sessions)@.contains_key(session_id@) {
                &&& *final(sessions) == *old(sessions)
                &&& says_failed(r, id, ServerErrorView::DuplicateSession(session_id@).text())
            } else {
                &&& final(sessions)@ == old(sessions)@.insert(
                    session_id@,
                    registry::fresh(storage),
                )
                &&& says_done(r, id)
            },
        },
{
    finished(id, sessions.load_session(session_id, storage, tree))
}

/// The answer to a request that was done, or failed.
pub fn finished(id: u64, result: Result<(), ServerError>) -> (r: ServerMessage)
    ensures
        match result {
            Ok(_) => says_done(r, id),
            Err(e) => says_failed(r, id, e@.text()),
        },
{
    match result {
        Ok(_) => done(id),
        Err(e) => failed(id, e.message()),
    }
}

/// What came of a command, as an error of the server.
pub fn command_result(result: Result<(), AgentError>) -> (r: Result<(), ServerError>)
    ensures
        match result {
            Ok(_) => r is Ok,
            Err(e) => r matches Err(f) && f@ == ServerErrorView::Agent(e.text()),
        },
{
    match result {
        Ok(_) => Ok(()),
        Err(e) => Err(ServerError::Agent(e.message())),
    }
}

/// The answer to a request that gave a lane a command.
pub fn commanded(id: u64, result: Result<(), AgentError>) -> (r: ServerMessage)
    ensures
        match result {
            Ok(_) => says_done(r, id),
            Err(e) => says_failed(r, id, ServerErrorView::Agent(e.text()).text()),
        },
{
    finished(id, command_result(result))
}

/// The answer to `Subscribe`, once the events are being forwarded. Where the lane was subscribed to
/// before, what forwards for the earlier subscription is to be cancelled.
pub fn subscribed<T>(
    subscriptions: &mut Subscriptions<T>,
    id: u64,
    session_id: SessionId,
    lane_id: LaneId,
    token: T,
) -> (r: (Option<T>, ServerMessage))
    requires
        old(subscriptions).wf(),
    ensures
        final(subscriptions).wf(),
        final(subscriptions)@ == old(subscriptions)@.insert((session_id@, lane_id@), token),
        r.0 == (if old(subscriptions)@.contains_key((session_id@, lane_id@)) {
            Some(old(subscriptions)@[(session_id@, lane_id@)])
        } else {
            None
        }),
        says_done(r.1, id),
{
    let replaced = subscriptions.insert(session_id, lane_id, token);
    (replaced, done(id))
}

/// What came from the events of a lane.
#[derive(Debug)]
pub enum LaneInput {
    Event(AgentEvent),
    /// Some events were dropped.
    Lagged,
    /// There will be no more events.
    Closed,
    /// The subscription was ended.
    Cancelled,
}

/// What to do with it.
#[derive(Debug)]
pub enum ForwardStep {
    Send(ServerMessage),
    Skip,
    Stop,
}

/// Forwards the events of a lane, with the session and the lane that they come from.
pub fn forward(session_id: &SessionId, lane_id: &LaneId, input: LaneInput) -> (r: ForwardStep)
    ensures
        match input {
            LaneInput::Event(event) => r == ForwardStep::Send(
                ServerMessage::Event { session_id: *session_id, lane_id: *lane_id, event },
            ),
            LaneInput::Lagged => r is Skip,
            LaneInput::Closed => r is Stop,
            LaneInput::Cancelled => r is Stop,
        },
{
    match input {
        LaneInput::Event(event) => ForwardStep::Send(
            ServerMessage::Event { session_id: session_id.clone(), lane_id: lane_id.clone(), event },
        ),
        LaneInput::Lagged => ForwardStep::Skip,
        LaneInput::Closed => ForwardStep::Stop,
        LaneInput::Cancelled => ForwardStep::Stop,
    }
}

/// What came from the connection.
#[derive(Debug)]
pub enum ConnectionInput {
    Request(ServerRequest),
    /// The client has closed the connection.
    Eof,
    /// What was read is no request; with the text of the error.
    Unreadable(String),
    /// Nothing can be sent any more.
    WriterFailed,
}

/// What to do with it.
#[derive(Debug)]
pub enum ConnectionStep {
    Dispatch(ServerRequest),
    End(Result<(), ServerError>),
}

/// Goes on with a request, or ends the connection.
pub fn next_step(input: ConnectionInput) -> (r: ConnectionStep)
    ensures
        match input {
            ConnectionInput::Request(req) => r == ConnectionStep::Dispatch(req),
            ConnectionInput::Eof => r == ConnectionStep::End(Ok(())),
            ConnectionInput::Unreadable(why) => r == ConnectionStep::End(
                Err(ServerError::Protocol(why)),
            ),
            ConnectionInput::WriterFailed => r matches ConnectionStep::End(Err(e)) && e@
                == ServerErrorView::Protocol("writer failed"@),
        },
{
    match input {
        ConnectionInput::Request(req) => ConnectionStep::Dispatch(req),
        ConnectionInput::Eof => ConnectionStep::End(Ok(())),
        ConnectionInput::Unreadable(why) => ConnectionStep::End(Err(ServerError::Protocol(why))),
        ConnectionInput::WriterFailed => ConnectionStep::End(
            Err(ServerError::Protocol("writer failed".to_owned())),
        ),
    }
}

/// Whether a message was taken for sending: the connection ends where it was not.
pub fn sent(taken: bool) -> (r: Result<(), ServerError>)
    ensures
        taken ==> r is Ok,
        !taken ==> (r matches Err(e) && e@ == ServerErrorView::Protocol("write channel closed"@)),
{
    if taken {
        Ok(())
    } else {
        Err(ServerError::Protocol("write channel closed".to_owned()))
    }
}

/// The number of the request that an action will answer, if it tells.
pub open spec fn action_number<L, T>(action: ServerAction<L, T>) -> Option<u64> {
    match action {
        ServerAction::Fail(_) => None,
        ServerAction::Reply(m) => protocol::answers(m),
        ServerAction::Close(m) => protocol::answers(m),
        ServerAction::Create { id, .. } => Some(id),
        ServerAction::Load { id, .. } => Some(id),
        ServerAction::Start { id, .. } => Some(id),
        ServerAction::Command { id, .. } => Some(id),
        ServerAction::Snapshot { id, .. } => Some(id),
        ServerAction::Subscribe { id, .. } => Some(id),
        ServerAction::Cancel { reply, .. } => protocol::answers(reply),
    }
}

/// Every request is answered under its number, but for a snapshot, which is sent with the session
/// and the lane that were asked for. A request that needs a factory which is not there ends the
/// connection.
pub proof fn law_every_request_is_answered<S, L, T>(
    sessions: Registry<S, L>,
    subscriptions: Map<(Seq<char>, Seq<char>), T>,
    has_storage: bool,
    has_runtime: bool,
    req: ServerRequest,
    action: ServerAction<L, T>,
)
    requires
        asks(sessions, subscriptions, has_storage, has_runtime, req, action),
    ensures
        action_number(action) == Some(req.number()) || (action is Fail && !(has_storage
            && has_runtime)),
        action matches ServerAction::Snapshot { id, session_id, lane_id, .. } ==> req == (
        ServerRequest::GetSnapshot { id, session_id, lane_id }),
        action is Close <==> req is Shutdown,
{
}

/// After `Subscribe` and `Unsubscribe` the lane is not subscribed to, what forwarded its events is
/// cancelled, and the other subscriptions are as they were.
pub proof fn law_subscription_can_be_ended<T>(
    before: Map<(Seq<char>, Seq<char>), T>,
    lane: (Seq<char>, Seq<char>),
    token: T,
)
    ensures
        before.insert(lane, token)[lane] == token,
        !before.insert(lane, token).remove(lane).contains_key(lane),
        before.insert(lane, token).remove(lane) == before.remove(lane),
{
    assert(before.insert(lane, token).remove(lane) =~= before.remove(lane));
}

/// A fork starts a lane that branches off the lane that the request names, in the session that it
/// names. It is refused where that lane is not there. Once the lane has come to `head`, the new lane
/// goes on after that node.
pub proof fn law_fork_branches_off_the_named_lane<S, L, T>(
    sessions: Registry<S, L>,
    subscriptions: Map<(Seq<char>, Seq<char>), T>,
    has_storage: bool,
    id: u64,
    session_id: SessionId,
    from_lane: LaneId,
    new_lane: LaneId,
    action: ServerAction<L, T>,
    head: Option<NodeId>,
)
    requires
        asks(
            sessions,
            subscriptions,
            has_storage,
            true,
            (ServerRequest::ForkLane { id, session_id, from_lane, new_lane }),
            action,
        ),
    ensures
        action is Start,
        action matches ServerAction::Start { id: i, spawn } ==> {
            &&& i == id
            &&& spawn.session_id@ == session_id@
            &&& spawn.lane_id@ == new_lane@
            &&& spawn.from matches Some(f) && f@ == from_lane@
            &&& spawn.persist_initial
            &&& spawn.at(head).head == head
            &&& sessions@.contains_key(session_id@) && !sessions@[session_id@].lanes.contains_key(
                new_lane@,
            ) && !sessions@[session_id@].lanes.contains_key(from_lane@) ==> spawn.refused(sessions@)
                == Some(ServerErrorView::LaneNotFound(from_lane@))
            &&& sessions@.contains_key(session_id@) && !sessions@[session_id@].lanes.contains_key(
                new_lane@,
            ) && sessions@[session_id@].lanes.contains_key(from_lane@) ==> spawn.refused(sessions@)
                is None
            &&& spawn.at(head).refused(sessions@) == spawn.refused(sessions@)
        },
{
}

/// A lane that is spawned starts a tree of its own in the session that the request names: it
/// branches off no lane and has no head yet. It is refused only where the session is not there or
/// the name is taken.
pub proof fn law_spawned_lane_starts_with_nothing<S, L, T>(
    sessions: Registry<S, L>,
    subscriptions: Map<(Seq<char>, Seq<char>), T>,
    has_storage: bool,
    id: u64,
    session_id: SessionId,
    lane_id: LaneId,
    action: ServerAction<L, T>,
)
    requires
        asks(
            sessions,
            subscriptions,
            has_storage,
            true,
            (ServerRequest::SpawnLane { id, session_id, lane_id }),
            action,
        ),
    ensures
        action is Start,
        action matches ServerAction::Start { id: i, spawn } ==> {
            &&& i == id
            &&& spawn.session_id@ == session_id@
            &&& spawn.lane_id@ == lane_id@
            &&& spawn.from is None
            &&& spawn.head is None
            &&& spawn.persist_initial
            &&& spawn.refused(sessions@) is None <==> sessions@.contains_key(session_id@)
                && !sessions@[session_id@].lanes.contains_key(lane_id@)
        },
{
}

/// The lane that a request names, and the command that it carries.
pub open spec fn addressed(req: ServerRequest) -> Option<(SessionId, LaneId, AgentCommand)> {
    match req {
        ServerRequest::Prompt { session_id, lane_id, messages, .. } => Some(
            (session_id, lane_id, AgentCommand::Prompt(messages)),
        ),
        ServerRequest::Continue { session_id, lane_id, .. } => Some(
            (session_id, lane_id, AgentCommand::Continue),
        ),
        ServerRequest::Abort { session_id, lane_id, .. } => Some(
            (session_id, lane_id, AgentCommand::Abort),
        ),
        ServerRequest::Reset { session_id, lane_id, .. } => Some(
            (session_id, lane_id, AgentCommand::Reset),
        ),
        _ => None,
    }
}

/// A command goes to the one lane that its request names, as it was sent, and to no other. Where
/// that lane is not there the request is answered with what is missing, and nothing is done.
pub proof fn law_commands_reach_the_named_lane<S, L, T>(
    sessions: Registry<S, L>,
    subscriptions: Map<(Seq<char>, Seq<char>), T>,
    has_storage: bool,
    has_runtime: bool,
    req: ServerRequest,
    action: ServerAction<L, T>,
)
    requires
        asks(sessions, subscriptions, has_storage, has_runtime, req, action),
    ensures
        addressed(req) matches Some(to) ==> {
            let session = to.0@;
            let lane = to.1@;
            if sessions@.contains_key(session) && sessions@[session].lanes.contains_key(lane) {
                action matches ServerAction::Command { id, lane: l, command } && id == req.number()
                    && l == sessions@[session].lanes[lane].lane && command == to.2
            } else {
                action matches ServerAction::Reply(m) && (m matches ServerMessage::Response {
                    id,
                    result: Err(why),
                } && id == req.number() && why@ == if sessions@.contains_key(session) {
                    "lane not found: "@ + lane
                } else {
                    "session not found: "@ + session
                })
            }
        },
        action is Command ==> addressed(req) is Some,
{
}

/// The snapshot and the events that a client asks for are those of the lane that it names.
pub proof fn law_watching_is_of_the_named_lane<S, L, T>(
    sessions: Registry<S, L>,
    subscriptions: Map<(Seq<char>, Seq<char>), T>,
    has_storage: bool,
    has_runtime: bool,
    req: ServerRequest,
    action: ServerAction<L, T>,
)
    requires
        asks(sessions, subscriptions, has_storage, has_runtime, req, action),
    ensures
        req matches ServerRequest::GetSnapshot { session_id, lane_id, .. } ==> {
            let there = sessions@.contains_key(session_id@)
                && sessions@[session_id@].lanes.contains_key(lane_id@);
            &&& there ==> (action matches ServerAction::Snapshot {
                session_id: s,
                lane_id: l,
                lane,
                ..
            } && s == session_id && l == lane_id && lane
                == sessions@[session_id@].lanes[lane_id@].lane)
            &&& !there ==> (action matches ServerAction::Reply(
                ServerMessage::Response { result, .. },
            ) && (result matches Err(why) && why@ == "lane not found"@))
        },
        req matches ServerRequest::Subscribe { session_id, lane_id, .. } ==> {
            let there = sessions@.contains_key(session_id@)
                && sessions@[session_id@].lanes.contains_key(lane_id@);
            &&& there ==> (action matches ServerAction::Subscribe {
                session_id: s,
                lane_id: l,
                lane,
                ..
            } && s == session_id && l == lane_id && lane
                == sessions@[session_id@].lanes[lane_id@].lane)
            &&& !there ==> (action matches ServerAction::Reply(
                ServerMessage::Response { result, .. },
            ) && (result matches Err(why) && why@ == "lane not found"@))
        },
        req matches ServerRequest::Unsubscribe { session_id, lane_id, .. } ==> (
        action matches ServerAction::Cancel { token, .. } && (token is Some
            <==> subscriptions.contains_key((session_id@, lane_id@))) && (token matches Some(t)
            ==> t == subscriptions[(session_id@, lane_id@)])),
{
}

/// A session is created or loaded under the name that the request gives; one without a name gets a
/// number that differs from that of every other such session.
pub proof fn law_sessions_get_their_names<S, L, T>(
    sessions: Registry<S, L>,
    subscriptions: Map<(Seq<char>, Seq<char>), T>,
    has_runtime: bool,
    req: ServerRequest,
    action: ServerAction<L, T>,
    later: Registry<S, L>,
    later_action: ServerAction<L, T>,
    id: u64,
)
    requires
        asks(sessions, subscriptions, true, has_runtime, req, action),
        asks(
            later,
            subscriptions,
            true,
            has_runtime,
            (ServerRequest::CreateSession { id, session_id: None }),
            later_action,
        ),
    ensures
        req matches ServerRequest::CreateSession { session_id: Some(name), .. } ==> (
        action matches ServerAction::Create { session_id: s, .. } && s@ == name@),
        req matches ServerRequest::LoadSession { session_id: name, .. } ==> (
        action matches ServerAction::Load { session_id: s, .. } && s@ == name@),
        req matches ServerRequest::CreateSession { session_id: None, .. } && sessions.next_session_id
            != later.next_session_id ==> (action matches ServerAction::Create { session_id: a, .. }
            && (later_action matches ServerAction::Create { session_id: b, .. } && a@ != b@)),
{
    if sessions.next_session_id != later.next_session_id {
        registry::law_allocated_ids_differ(sessions.next_session_id, later.next_session_id);
    }
}

/// The list of sessions has the name of each session once, in their order, and no other name.
pub proof fn law_every_session_is_listed<S, L, T>(
    sessions: Registry<S, L>,
    subscriptions: Map<(Seq<char>, Seq<char>), T>,
    has_storage: bool,
    has_runtime: bool,
    id: u64,
    action: ServerAction<L, T>,
)
    requires
        sessions.wf(),
        asks(
            sessions,
            subscriptions,
            has_storage,
            has_runtime,
            (ServerRequest::ListSessions { id }),
            action,
        ),
    ensures
        action matches ServerAction::Reply(ServerMessage::SessionList { id: i, sessions: names })
            && {
            &&& i == id
            &&& forall|name: Seq<char>|
                #![trigger sessions@.contains_key(name)]
                sessions@.contains_key(name) <==> exists|k: int|
                    0 <= k < names@.len() && (#[trigger] names@[k])@ == name
            &&& forall|j: int, k: int|
                0 <= j < k < names@.len() ==> text::lex_less(
                    (#[trigger] names@[j])@,
                    (#[trigger] names@[k])@,
                )
        },
{
    let entries = sessions.sessions.entries@;
    ordered::law_keys_are_listed_in_order(entries);
    let keys = ordered::keys_of(entries);
    let names = action->Reply_0->sessions;
    assert(text::texts(names@) == keys);
    assert forall|name: Seq<char>|
        #![trigger sessions@.contains_key(name)]
        sessions@.contains_key(name) <==> exists|k: int|
            0 <= k < names@.len() && (#[trigger] names@[k])@ == name by {
        assert(sessions@.contains_key(name) <==> ordered::as_map(entries).contains_key(name));
        if keys.contains(name) {
            let k = choose|k: int| 0 <= k < keys.len() && keys[k] == name;
            assert(text::texts(names@)[k] == names@[k]@);
        }
        if exists|k: int| 0 <= k < names@.len() && (#[trigger] names@[k])@ == name {
            let k = choose|k: int| 0 <= k < names@.len() && (#[trigger] names@[k])@ == name;
            assert(text::texts(names@)[k] == names@[k]@);
            assert(keys[k] == name);
        }
    }
    assert forall|j: int, k: int| 0 <= j < k < names@.len() implies text::lex_less(
        (#[trigger] names@[j])@,
        (#[trigger] names@[k])@,
    ) by {
        assert(text::texts(names@)[j] == names@[j]@);
        assert(text::texts(names@)[k] == names@[k]@);
        assert(text::lex_less(keys[j], keys[k]));
    }
}

/// Ending a connection ends every subscription that it has.
pub proof fn law_every_subscription_is_ended<T>(s: Subscriptions<T>)
    requires
        s.wf(),
    ensures
        forall|k: (Seq<char>, Seq<char>)| #[trigger]
            s@.contains_key(k) ==> all_tokens(s.sessions.entries@).contains(s@[k]),
{
    let entries = s.sessions.entries@;
    assert forall|k: (Seq<char>, Seq<char>)| #[trigger] s@.contains_key(k) implies all_tokens(
        entries,
    ).contains(s@[k]) by {
        assert(ordered::has_key(entries, k.0));
        let i = ordered::index_of(entries, k.0);
        let lanes = entries[i].value.entries@;
        assert(s.sessions@[k.0]@.contains_key(k.1));
        assert(ordered::has_key(lanes, k.1));
        lemma_token_is_listed(entries, i, ordered::index_of(lanes, k.1));
    }
}

proof fn lemma_token_is_listed<T>(
    entries: Seq<ordered::Entry<OrderedMap<T>>>,
    i: int,
    j: int,
)
    requires
        0 <= i < entries.len(),
        0 <= j < entries[i].value.entries@.len(),
    ensures
        all_tokens(entries).contains(entries[i].value.entries@[j].value),
    decreases entries.len(),
{
    let init = entries.drop_last();
    let token = entries[i].value.entries@[j].value;
    let last = tokens_of(entries.last().value.entries@);
    assert(all_tokens(entries) == all_tokens(init) + last);
    if i < init.len() {
        lemma_token_is_listed(init, i, j);
        let k = choose|k: int| 0 <= k < all_tokens(init).len() && all_tokens(init)[k] == token;
        assert(all_tokens(entries)[k] == token);
    } else {
        assert(last[j] == token);
        assert(all_tokens(entries)[all_tokens(init).len() + j] == token);
    }
}

/// A request that failed is answered with why, and one that was done with success, under its number.
pub proof fn law_answers_tell_how_it_went(
    id: u64,
    result: Result<(), ServerError>,
    r: ServerMessage,
    went: Result<(), AgentError>,
    commanded_r: ServerMessage,
)
    requires
        call_ensures(finished, (id, result), r),
        call_ensures(commanded, (id, went), commanded_r),
    ensures
        r is Response && r->Response_id == id && (r->result is Ok <==> result is Ok),
        result matches Err(e) ==> (r->result)->Err_0@ == e@.text(),
        commanded_r is Response && commanded_r->Response_id == id && (commanded_r->result is Ok
            <==> went is Ok),
        went matches Err(e) ==> text::occurs(e.text(), (commanded_r->result)->Err_0@),
{
    if let Err(e) = went {
        text::lemma_ends_with("agent error: "@, e.text());
    }
}

/// The answer to a session that was created tells its name, and the session is there; where the name
/// is taken nothing changes and the answer is a failure.
pub proof fn law_created_session_is_told<S, L>()
    ensures
        forall|
            sessions: &mut Registry<S, L>,
            id: u64,
            name: SessionId,
            storage: Arc<S>,
            r: ServerMessage,
        |
            sessions.wf() && #[trigger] call_ensures(
                created::<S, L>,
                (sessions, id, name, storage),
                r,
            ) ==> {
                &&& r is Response && r->Response_id == id
                &&& r->result is Ok <==> !sessions@.contains_key(name@)
                &&& r->result is Ok ==> json::text_of((r->result)->Ok_0) == Some(name@)
                    && final(sessions)@.contains_key(name@) && final(sessions)@[name@].storage
                    == storage
                &&& r->result is Err ==> final(sessions)@ == sessions@ && text::occurs(
                    name@,
                    (r->result)->Err_0@,
                )
            },
        forall|
            sessions: &mut Registry<S, L>,
            id: u64,
            name: SessionId,
            storage: Arc<S>,
            tree: Result<SessionTree, SessionError>,
            r: ServerMessage,
        |
            sessions.wf() && #[trigger] call_ensures(
                loaded::<S, L>,
                (sessions, id, name, storage, tree),
                r,
            ) ==> {
                &&& r is Response && r->Response_id == id
                &&& r->result is Ok <==> tree is Ok && !sessions@.contains_key(name@)
                &&& r->result is Ok ==> final(sessions)@.contains_key(name@)
                    && final(sessions)@[name@].storage == storage
                &&& r->result is Err ==> final(sessions)@ == sessions@
            },
{
    assert forall|name: Seq<char>| #[trigger]
        text::occurs(name, ServerErrorView::DuplicateSession(name).text()) by {
        text::lemma_ends_with("duplicate session: "@, name);
    }
}

/// Who subscribes to a lane is told, and what forwarded its events before is to be cancelled; other
/// subscriptions stay.
pub proof fn law_subscription_takes_the_place_of_an_earlier_one<T>()
    ensures
        forall|
            subscriptions: &mut Subscriptions<T>,
            id: u64,
            session_id: SessionId,
            lane_id: LaneId,
            token: T,
            r: (Option<T>, ServerMessage),
        |
            subscriptions.wf() && #[trigger] call_ensures(
                subscribed::<T>,
                (subscriptions, id, session_id, lane_id, token),
                r,
            ) ==> {
                let key = (session_id@, lane_id@);
                &&& final(subscriptions)@.contains_key(key)
                &&& final(subscriptions)@[key] == token
                &&& final(subscriptions)@.remove(key) == subscriptions@.remove(key)
                &&& r.0 is Some <==> subscriptions@.contains_key(key)
                &&& r.0 matches Some(t) ==> t == subscriptions@[key]
                &&& protocol::answers(r.1) == Some(id)
            },
{
    assert forall|a: Map<(Seq<char>, Seq<char>), T>, k: (Seq<char>, Seq<char>), v: T| (
    #[trigger] a.insert(k, v)).remove(k) == a.remove(k) by {
        assert(a.insert(k, v).remove(k) =~= a.remove(k));
    }
}

/// Every event of a lane is forwarded with the session and the lane that it comes from, until the lane
/// or the subscription ends.
pub proof fn law_events_are_forwarded(
    session_id: SessionId,
    lane_id: LaneId,
    input: LaneInput,
    r: ForwardStep,
)
    requires
        call_ensures(forward, (&session_id, &lane_id, input), r),
    ensures
        r is Send <==> input is Event,
        r is Stop <==> input is Closed || input is Cancelled,
        r matches ForwardStep::Send(m) ==> (m matches ServerMessage::Event {
            session_id: s,
            lane_id: l,
            event,
        } && s == session_id && l == lane_id && event == input->Event_0),
{
}

/// A connection goes on with every request, ends well when the client closes it, and ends with an
/// error otherwise.
pub proof fn law_connection_ends_for_a_reason(input: ConnectionInput, r: ConnectionStep)
    requires
        call_ensures(next_step, (input,), r),
    ensures
        input matches ConnectionInput::Request(req) ==> r == ConnectionStep::Dispatch(req),
        r matches ConnectionStep::End(end) ==> (end is Ok <==> input is Eof),
        r is Dispatch <==> input is Request,
{
}

/// A connection fails just where a session is asked for and there is nothing to keep it in, or a lane
/// is and there is nothing to run it.
pub proof fn law_connection_fails_without_a_factory<S, L, T>(
    sessions: Registry<S, L>,
    subscriptions: Map<(Seq<char>, Seq<char>), T>,
    has_storage: bool,
    has_runtime: bool,
    req: ServerRequest,
    action: ServerAction<L, T>,
)
    requires
        asks(sessions, subscriptions, has_storage, has_runtime, req, action),
    ensures
        action is Fail <==> (!has_storage && (req is CreateSession || req is LoadSession)) || (
        !has_runtime && (req is SpawnLane || req is ForkLane)),
        action is Start <==> has_runtime && (req is SpawnLane || req is ForkLane),
        action is Create <==> has_storage && req is CreateSession,
        action is Load <==> has_storage && req is LoadSession,
        action is Cancel <==> req is Unsubscribe,
        action matches ServerAction::Cancel { reply, .. } ==> (reply matches ServerMessage::Response {
            result,
            ..
        } && result is Ok),
        action matches ServerAction::Close(reply) ==> (reply matches ServerMessage::Response {
            result,
            ..
        } && result is Ok),
{
}

/// The tokens of several sessions are those of each, one behind the other.
pub proof fn law_tokens_are_listed_by_session<T>(
    a: Seq<ordered::Entry<OrderedMap<T>>>,
    e: ordered::Entry<OrderedMap<T>>,
)
    ensures
        all_tokens(a.push(e)).len() == all_tokens(a).len() + e.value.entries@.len(),
        all_tokens(a).is_prefix_of(all_tokens(a.push(e))),
        forall|i: int|
            0 <= i < e.value.entries@.len() ==> all_tokens(a.push(e))[all_tokens(a).len() + i]
                == (#[trigger] e.value.entries@[i]).value,
        all_tokens(Seq::<ordered::Entry<OrderedMap<T>>>::empty()).len() == 0,
{
    let all = a.push(e);
    assert(all.drop_last() =~= a);
    assert(all_tokens(all).subrange(0, all_tokens(a).len() as int) =~= all_tokens(a));
}

} // verus!
