//! What a server and its clients say to each other.
use vstd::prelude::*;
use vstd::string::*;

use crate::agent::AgentSnapshot;
use crate::event::AgentEvent;
use crate::json;
use crate::message::Message;
use crate::server::SessionId;
use crate::session::LaneId;

verus! {

/// From a client to the server. The client numbers its requests; the answer has the same number.
#[allow(inconsistent_fields)]
#[derive(Debug, Clone, PartialEq)]
pub enum ServerRequest {
    /// A session without a name gets one from the server.
    CreateSession { id: u64, session_id: Option<SessionId> },
    LoadSession { id: u64, session_id: SessionId },
    ListSessions { id: u64 },
    SpawnLane { id: u64, session_id: SessionId, lane_id: LaneId },
    ForkLane { id: u64, session_id: SessionId, from_lane: LaneId, new_lane: LaneId },
    Prompt { id: u64, session_id: SessionId, lane_id: LaneId, messages: Vec<Message> },
    Continue { id: u64, session_id: SessionId, lane_id: LaneId },
    Abort { id: u64, session_id: SessionId, lane_id: LaneId },
    Reset { id: u64, session_id: SessionId, lane_id: LaneId },
    GetSnapshot { id: u64, session_id: SessionId, lane_id: LaneId },
    Subscribe { id: u64, session_id: SessionId, lane_id: LaneId },
    Unsubscribe { id: u64, session_id: SessionId, lane_id: LaneId },
    Shutdown { id: u64 },
}

impl ServerRequest {
    /// The number of the request.
    pub open spec fn number(self) -> u64 {
        match self {
            ServerRequest::CreateSession { id, .. } => id,
            ServerRequest::LoadSession { id, .. } => id,
            ServerRequest::ListSessions { id } => id,
            ServerRequest::SpawnLane { id, .. } => id,
            ServerRequest::ForkLane { id, .. } => id,
            ServerRequest::Prompt { id, .. } => id,
            ServerRequest::Continue { id, .. } => id,
            ServerRequest::Abort { id, .. } => id,
            ServerRequest::Reset { id, .. } => id,
            ServerRequest::GetSnapshot { id, .. } => id,
            ServerRequest::Subscribe { id, .. } => id,
            ServerRequest::Unsubscribe { id, .. } => id,
            ServerRequest::Shutdown { id } => id,
        }
    }

    /// The number of the request.
    pub fn id(&self) -> (r: u64)
        ensures
            r == self.number(),
    {
        match self {
            ServerRequest::CreateSession { id, .. } => *id,
            ServerRequest::LoadSession { id, .. } => *id,
            ServerRequest::ListSessions { id } => *id,
            ServerRequest::SpawnLane { id, .. } => *id,
            ServerRequest::ForkLane { id, .. } => *id,
            ServerRequest::Prompt { id, .. } => *id,
            ServerRequest::Continue { id, .. } => *id,
            ServerRequest::Abort { id, .. } => *id,
            ServerRequest::Reset { id, .. } => *id,
            ServerRequest::GetSnapshot { id, .. } => *id,
            ServerRequest::Subscribe { id, .. } => *id,
            ServerRequest::Unsubscribe { id, .. } => *id,
            ServerRequest::Shutdown { id } => *id,
        }
    }
}

/// From the server to a client.
#[derive(Debug, PartialEq)]
pub enum ServerMessage {
    Response { id: u64, result: Result<serde_json::Value, String> },
    SessionList { id: u64, sessions: Vec<SessionId> },
    Snapshot { session_id: SessionId, lane_id: LaneId, snapshot: AgentSnapshot },
    Event { session_id: SessionId, lane_id: LaneId, event: AgentEvent },
}

/// The number of the request that a message answers; `None` for a snapshot and an event, which are
/// told apart by session and lane.
pub open spec fn answers(message: ServerMessage) -> Option<u64> {
    match message {
        ServerMessage::Response { id, .. } => Some(id),
        ServerMessage::SessionList { id, .. } => Some(id),
        _ => None,
    }
}

/// What a result of a response looks like, with its text as a sequence of characters.
pub open spec fn result_view(result: Result<serde_json::Value, String>) -> Result<
    serde_json::Value,
    Seq<char>,
> {
    match result {
        Ok(v) => Ok(v),
        Err(s) => Err(s@),
    }
}

/// The result that a JSON value writes: what it has under `ok`, or else the text that it has under
/// `err`; `None` where it has neither.
pub open spec fn tagged(value: serde_json::Value) -> Option<Result<serde_json::Value, Seq<char>>> {
    match json::field_of(value, "ok"@) {
        Some(v) => Some(Ok(v)),
        None => match json::field_of(value, "err"@) {
            Some(e) => match json::text_of(e) {
                Some(s) => Some(Err(s)),
                None => None,
            },
            None => None,
        },
    }
}

/// Writes the result of a response as a JSON value. What is written is read back as it was: a
/// result never turns into another one, whatever value it has.
pub fn tag_result(result: &Result<serde_json::Value, String>) -> (r: serde_json::Value)
    ensures
        tagged(r) == Some(result_view(*result)),
        forall|key: Seq<char>| #[trigger]
            json::field_of(r, key) is Some ==> key == if *result is Ok {
                "ok"@
            } else {
                "err"@
            },
{
    proof {
        reveal_strlit("ok");
        reveal_strlit("err");
        assert("ok"@.len() == 2);
        assert("err"@.len() == 3);
    }
    match result {
        Ok(v) => json::from_field("ok", v.clone()),
        Err(s) => json::from_field("err", json::from_text(s.clone())),
    }
}

/// Reads the result of a response.
pub fn untag_result(value: &serde_json::Value) -> (r: Result<
    Result<serde_json::Value, String>,
    String,
>)
    ensures
        match r {
            Ok(result) => tagged(*value) == Some(result_view(result)),
            Err(e) => tagged(*value) is None && e@ == "expected {\"ok\": ...} or {\"err\": ...}"@,
        },
{
    match json::get_field(value, "ok") {
        Some(v) => {
            return Ok(Ok(v.clone()));
        },
        None => {},
    }
    match json::get_field(value, "err") {
        Some(e) => match json::as_text(e) {
            Some(s) => {
                return Ok(Err(s.to_owned()));
            },
            None => {},
        },
        None => {},
    }
    Err("expected {\"ok\": ...} or {\"err\": ...}".to_owned())
}

/// Results and the JSON values that write them are one to one: what was written as a success is read
/// as that success, a failure as that failure, and no result is written as another one is.
pub proof fn law_results_are_read_back(
    result: Result<serde_json::Value, String>,
    written: serde_json::Value,
    r: Result<Result<serde_json::Value, String>, String>,
)
    requires
        call_ensures(tag_result, (&result,), written),
        call_ensures(untag_result, (&written,), r),
    ensures
        r is Ok,
        (r->Ok_0) is Ok <==> result is Ok,
        result is Ok ==> (r->Ok_0)->Ok_0 == result->Ok_0,
        result is Err ==> ((r->Ok_0)->Err_0)@ == (result->Err_0)@,
{
}

/// A value with neither field writes no result, and one with the field for success writes what that
/// field has.
pub proof fn law_values_without_a_result_are_refused(
    value: serde_json::Value,
    r: Result<Result<serde_json::Value, String>, String>,
)
    requires
        call_ensures(untag_result, (&value,), r),
    ensures
        json::field_of(value, "ok"@) is None && json::field_of(value, "err"@) is None ==> r is Err,
        json::field_of(value, "ok"@) matches Some(v) ==> (r matches Ok(result) && result == Ok::<
            serde_json::Value,
            String,
        >(v)),
        json::field_of(value, "ok"@) is None ==> (json::field_of(value, "err"@) matches Some(e)
            ==> match json::text_of(e) {
            Some(s) => r matches Ok(result) && (result matches Err(why) && why@ == s),
            None => r is Err,
        }),
{
}

} // verus!
