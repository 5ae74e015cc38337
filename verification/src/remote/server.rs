//! The side of the agent: what each request asks to do, and what it is answered.
use vstd::prelude::*;
use vstd::string::*;

use crate::agent::{AgentCommand, AgentError, AgentSnapshot};
use crate::event::AgentEvent;
use crate::remote::protocol::{RemoteError, RemoteErrorView, RemoteRequest, ServerMessage};

verus! {

/// What a request asks to do.
#[allow(inconsistent_fields)]
#[derive(Debug)]
pub enum RemoteAction {
    /// Give the agent a command, and answer how it went.
    Command { id: u64, command: AgentCommand },
    /// Abort, and answer at once.
    Abort { reply: ServerMessage },
    /// Send the snapshot.
    Snapshot { id: u64 },
    /// Answer, shut the agent down, and end the connection.
    Shutdown { reply: ServerMessage },
}

/// The message that a connection starts with.
pub fn greeting(snapshot: AgentSnapshot) -> (r: ServerMessage)
    ensures
        r == (ServerMessage::Snapshot { id: 0, snapshot }),
{
    ServerMessage::Snapshot { id: 0, snapshot }
}

/// What a request asks to do.
pub open spec fn asked(req: RemoteRequest) -> RemoteAction {
    match req {
        RemoteRequest::Abort { id } => RemoteAction::Abort {
            reply: ServerMessage::Response { id, result: Ok(()) },
        },
        RemoteRequest::GetSnapshot { id } => RemoteAction::Snapshot { id },
        RemoteRequest::Shutdown { id } => RemoteAction::Shutdown {
            reply: ServerMessage::Response { id, result: Ok(()) },
        },
        _ => RemoteAction::Command { id: req.number(), command: req.command()->0 },
    }
}

/// What a request asks to do.
pub fn dispatch(req: RemoteRequest) -> (r: RemoteAction)
    ensures
        r == asked(req),
{
    match req {
        RemoteRequest::Prompt { id, messages } => RemoteAction::Command {
            id,
            command: AgentCommand::Prompt(messages),
        },
        RemoteRequest::Continue { id } => RemoteAction::Command {
            id,
            command: AgentCommand::Continue,
        },
        RemoteRequest::Steer { id, message } => RemoteAction::Command {
            id,
            command: AgentCommand::Steer(message),
        },
        RemoteRequest::FollowUp { id, message } => RemoteAction::Command {
            id,
            command: AgentCommand::FollowUp(message),
        },
        RemoteRequest::Abort { id } => RemoteAction::Abort {
            reply: ServerMessage::Response { id, result: Ok(()) },
        },
        RemoteRequest::Reset { id } => RemoteAction::Command { id, command: AgentCommand::Reset },
        RemoteRequest::GetSnapshot { id } => RemoteAction::Snapshot { id },
        RemoteRequest::Shutdown { id } => RemoteAction::Shutdown {
            reply: ServerMessage::Response { id, result: Ok(()) },
        },
    }
}

/// The answer to a command.
pub fn respond(id: u64, result: Result<(), AgentError>) -> (r: ServerMessage)
    ensures
        match result {
            Ok(_) => r == (ServerMessage::Response { id, result: Ok(()) }),
            Err(e) => r matches ServerMessage::Response { id: i, result: Err(s) } && i == id && s@
                == e.text(),
        },
{
    match result {
        Ok(_) => ServerMessage::Response { id, result: Ok(()) },
        Err(e) => ServerMessage::Response { id, result: Err(e.message()) },
    }
}

/// What came from the connection.
#[derive(Debug)]
pub enum RemoteInput {
    Request(RemoteRequest),
    /// The client has closed the connection.
    Eof,
    Failed(RemoteError),
}

/// What to do with it.
#[derive(Debug)]
pub enum RemoteStep {
    Act(RemoteAction),
    End(Result<(), RemoteError>),
}

/// Goes on with a request, or ends the connection.
pub fn next_step(input: RemoteInput) -> (r: RemoteStep)
    ensures
        match input {
            RemoteInput::Request(req) => r == RemoteStep::Act(asked(req)),
            RemoteInput::Eof => r == RemoteStep::End(Ok(())),
            RemoteInput::Failed(e) => r == RemoteStep::End(Err(e)),
        },
{
    match input {
        RemoteInput::Request(req) => RemoteStep::Act(dispatch(req)),
        RemoteInput::Eof => RemoteStep::End(Ok(())),
        RemoteInput::Failed(e) => RemoteStep::End(Err(e)),
    }
}

/// How the connection ends once the agent was shut down.
pub fn shut_down(result: Result<(), AgentError>) -> (r: Result<(), RemoteError>)
    ensures
        match result {
            Ok(_) => r is Ok,
            Err(e) => r matches Err(f) && f@ == RemoteErrorView::Command(e.text()),
        },
{
    match result {
        Ok(_) => Ok(()),
        Err(e) => Err(RemoteError::Command(e.message())),
    }
}

/// What came from the events of the agent.
#[derive(Debug)]
pub enum EventInput {
    Event(AgentEvent),
    /// Some events were dropped.
    Lagged,
    /// There will be no more events.
    Closed,
}

/// What to do with it.
#[derive(Debug)]
pub enum EventStep {
    Send(ServerMessage),
    Skip,
    Stop,
}

/// Forwards the events of the agent.
pub fn forward(input: EventInput) -> (r: EventStep)
    ensures
        match input {
            EventInput::Event(event) => r == EventStep::Send(ServerMessage::Event { event }),
            EventInput::Lagged => r is Skip,
            EventInput::Closed => r is Stop,
        },
{
    match input {
        EventInput::Event(event) => EventStep::Send(ServerMessage::Event { event }),
        EventInput::Lagged => EventStep::Skip,
        EventInput::Closed => EventStep::Stop,
    }
}

/// Whether a message was taken for sending: the connection ends where it was not.
pub fn sent(taken: bool) -> (r: Result<(), RemoteError>)
    ensures
        taken ==> r is Ok,
        !taken ==> (r matches Err(e) && e@ == RemoteErrorView::Protocol("write channel closed"@)),
{
    if taken {
        Ok(())
    } else {
        Err(RemoteError::Protocol("write channel closed".to_owned()))
    }
}

/// The number of the request that an action will answer.
pub open spec fn action_number(action: RemoteAction) -> Option<u64> {
    match action {
        RemoteAction::Command { id, .. } => Some(id),
        RemoteAction::Abort { reply: ServerMessage::Response { id, .. } } => Some(id),
        RemoteAction::Snapshot { id } => Some(id),
        RemoteAction::Shutdown { reply: ServerMessage::Response { id, .. } } => Some(id),
        _ => None,
    }
}

/// Every request is answered under its number, and only `Shutdown` shuts the agent down.
pub proof fn law_every_request_is_answered(req: RemoteRequest)
    ensures
        action_number(asked(req)) == Some(req.number()),
        asked(req) is Shutdown <==> req is Shutdown,
        asked(req) is Abort <==> req is Abort,
        asked(req) is Snapshot <==> req is GetSnapshot,
        asked(req) is Command ==> req.command() == Some(asked(req)->command),
        asked(req) matches RemoteAction::Abort { reply } ==> (reply matches ServerMessage::Response {
            result,
            ..
        } && result is Ok),
        asked(req) matches RemoteAction::Shutdown { reply } ==> (
        reply matches ServerMessage::Response { result, .. } && result is Ok),
{
}

/// The answer to a command has its number, and tells whether the command was taken, and why not.
pub proof fn law_answers_tell_how_it_went(
    id: u64,
    result: Result<(), AgentError>,
    r: ServerMessage,
    ended: Result<(), RemoteError>,
)
    requires
        call_ensures(respond, (id, result), r),
        call_ensures(shut_down, (result,), ended),
    ensures
        r is Response && r->Response_id == id && (r->result is Ok <==> result is Ok),
        result matches Err(e) ==> (r->result)->Err_0@ == e.text(),
        ended is Ok <==> result is Ok,
{
}

/// A connection goes on with every request, ends well when the client closes it, and ends with the
/// error that came up otherwise; every event is sent until there are no more.
pub proof fn law_connection_ends_for_a_reason(
    input: RemoteInput,
    r: RemoteStep,
    event: EventInput,
    step: EventStep,
)
    requires
        call_ensures(next_step, (input,), r),
        call_ensures(forward, (event,), step),
    ensures
        r is Act <==> input is Request,
        r matches RemoteStep::Act(action) ==> action_number(action) == Some(
            (input->Request_0).number(),
        ),
        r matches RemoteStep::End(end) ==> (end is Ok <==> input is Eof),
        input matches RemoteInput::Failed(e) ==> r == RemoteStep::End(Err(e)),
        step is Stop <==> event is Closed,
        step is Skip <==> event is Lagged,
        event matches EventInput::Event(e) ==> step == EventStep::Send(
            ServerMessage::Event { event: e },
        ),
{
    if let RemoteInput::Request(req) = input {
        law_every_request_is_answered(req);
    }
}

} // verus!
