//! What a remote agent and its client say to each other.
use vstd::prelude::*;
use vstd::string::*;

use crate::agent::{AgentCommand, AgentSnapshot};
use crate::event::AgentEvent;
use crate::json;
use crate::message::Message;
use crate::text;

verus! {

/// From the client to the agent. The client numbers its requests; the answer has the same number.
/// The number 0 is for the snapshot that is sent first.
#[derive(Debug, Clone, PartialEq)]
pub enum RemoteRequest {
    Prompt { id: u64, messages: Vec<Message> },
    Continue { id: u64 },
    Steer { id: u64, message: Message },
    FollowUp { id: u64, message: Message },
    Abort { id: u64 },
    Reset { id: u64 },
    GetSnapshot { id: u64 },
    Shutdown { id: u64 },
}

/// The request that carries a command.
pub open spec fn carrying(id: u64, command: AgentCommand) -> RemoteRequest {
    match command {
        AgentCommand::Prompt(messages) => RemoteRequest::Prompt { id, messages },
        AgentCommand::Continue => RemoteRequest::Continue { id },
        AgentCommand::Steer(message) => RemoteRequest::Steer { id, message },
        AgentCommand::FollowUp(message) => RemoteRequest::FollowUp { id, message },
        AgentCommand::Abort => RemoteRequest::Abort { id },
        AgentCommand::Reset => RemoteRequest::Reset { id },
        AgentCommand::Shutdown => RemoteRequest::Shutdown { id },
    }
}

impl RemoteRequest {
    /// The number of the request.
    pub open spec fn number(self) -> u64 {
        match self {
            RemoteRequest::Prompt { id, .. } => id,
            RemoteRequest::Continue { id } => id,
            RemoteRequest::Steer { id, .. } => id,
            RemoteRequest::FollowUp { id, .. } => id,
            RemoteRequest::Abort { id } => id,
            RemoteRequest::Reset { id } => id,
            RemoteRequest::GetSnapshot { id } => id,
            RemoteRequest::Shutdown { id } => id,
        }
    }

    /// The command that the request carries; `None` for the one that asks for a snapshot.
    pub open spec fn command(self) -> Option<AgentCommand> {
        match self {
            RemoteRequest::Prompt { messages, .. } => Some(AgentCommand::Prompt(messages)),
            RemoteRequest::Continue { .. } => Some(AgentCommand::Continue),
            RemoteRequest::Steer { message, .. } => Some(AgentCommand::Steer(message)),
            RemoteRequest::FollowUp { message, .. } => Some(AgentCommand::FollowUp(message)),
            RemoteRequest::Abort { .. } => Some(AgentCommand::Abort),
            RemoteRequest::Reset { .. } => Some(AgentCommand::Reset),
            RemoteRequest::GetSnapshot { .. } => None,
            RemoteRequest::Shutdown { .. } => Some(AgentCommand::Shutdown),
        }
    }

    /// The request that carries a command.
    pub fn carry(id: u64, command: AgentCommand) -> (r: Self)
        ensures
            r == carrying(id, command),
    {
        match command {
            AgentCommand::Prompt(messages) => RemoteRequest::Prompt { id, messages },
            AgentCommand::Continue => RemoteRequest::Continue { id },
            AgentCommand::Steer(message) => RemoteRequest::Steer { id, message },
            AgentCommand::FollowUp(message) => RemoteRequest::FollowUp { id, message },
            AgentCommand::Abort => RemoteRequest::Abort { id },
            AgentCommand::Reset => RemoteRequest::Reset { id },
            AgentCommand::Shutdown => RemoteRequest::Shutdown { id },
        }
    }

    /// The number of the request.
    pub fn id(&self) -> (r: u64)
        ensures
            r == self.number(),
    {
        match self {
            RemoteRequest::Prompt { id, .. } => *id,
            RemoteRequest::Continue { id } => *id,
            RemoteRequest::Steer { id, .. } => *id,
            RemoteRequest::FollowUp { id, .. } => *id,
            RemoteRequest::Abort { id } => *id,
            RemoteRequest::Reset { id } => *id,
            RemoteRequest::GetSnapshot { id } => *id,
            RemoteRequest::Shutdown { id } => *id,
        }
    }
}

/// Commands and the requests that carry them are one to one: a command arrives as it was sent, and
/// every request but the one for a snapshot is that of a command.
pub proof fn law_commands_arrive_as_sent(id: u64, command: AgentCommand, req: RemoteRequest)
    ensures
        carrying(id, command).command() == Some(command),
        carrying(id, command).number() == id,
        req !is GetSnapshot ==> (req.command() matches Some(c) && carrying(req.number(), c) == req),
        req is GetSnapshot ==> req.command() is None,
        command is Prompt <==> carrying(id, command) is Prompt,
        command is Continue <==> carrying(id, command) is Continue,
        command is Steer <==> carrying(id, command) is Steer,
        command is FollowUp <==> carrying(id, command) is FollowUp,
        command is Abort <==> carrying(id, command) is Abort,
        command is Reset <==> carrying(id, command) is Reset,
        command is Shutdown <==> carrying(id, command) is Shutdown,
        carrying(id, command) matches RemoteRequest::Prompt { messages, .. } ==> command
            == AgentCommand::Prompt(messages),
        carrying(id, command) matches RemoteRequest::Steer { message, .. } ==> command
            == AgentCommand::Steer(message),
        carrying(id, command) matches RemoteRequest::FollowUp { message, .. } ==> command
            == AgentCommand::FollowUp(message),
{
}

/// From the agent to the client.
#[derive(Debug, PartialEq)]
pub enum ServerMessage {
    /// The answer to a request for a snapshot; with the number 0 the one that is sent first.
    Snapshot { id: u64, snapshot: AgentSnapshot },
    /// The answer to a command: whether it was taken.
    Response { id: u64, result: Result<(), String> },
    Event { event: AgentEvent },
}

/// Why something remote failed. Errors of the connection and of the serialiser are held as their
/// text.
#[derive(Debug, PartialEq)]
pub enum RemoteError {
    Io(String),
    Serde(String),
    Protocol(String),
    /// The agent refused a command.
    Command(String),
    Timeout,
}

/// A `RemoteError` with its texts as sequences of characters.
pub enum RemoteErrorView {
    Io(Seq<char>),
    Serde(Seq<char>),
    Protocol(Seq<char>),
    Command(Seq<char>),
    Timeout,
}

impl View for RemoteError {
    type V = RemoteErrorView;

    open spec fn view(&self) -> RemoteErrorView {
        match *self {
            RemoteError::Io(s) => RemoteErrorView::Io(s@),
            RemoteError::Serde(s) => RemoteErrorView::Serde(s@),
            RemoteError::Protocol(s) => RemoteErrorView::Protocol(s@),
            RemoteError::Command(s) => RemoteErrorView::Command(s@),
            RemoteError::Timeout => RemoteErrorView::Timeout,
        }
    }
}

impl RemoteErrorView {
    /// The text of the error.
    pub open spec fn text(self) -> Seq<char> {
        match self {
            RemoteErrorView::Io(s) => "io error: "@ + s,
            RemoteErrorView::Serde(s) => "serialize error: "@ + s,
            RemoteErrorView::Protocol(s) => "protocol error: "@ + s,
            RemoteErrorView::Command(s) => "command error: "@ + s,
            RemoteErrorView::Timeout => "request timeout"@,
        }
    }
}

impl RemoteError {
    /// The text of the error.
    pub fn message(&self) -> (r: String)
        ensures
            r@ == self@.text(),
    {
        match self {
            RemoteError::Io(s) => "io error: ".to_owned().concat(s.as_str()),
            RemoteError::Serde(s) => "serialize error: ".to_owned().concat(s.as_str()),
            RemoteError::Protocol(s) => "protocol error: ".to_owned().concat(s.as_str()),
            RemoteError::Command(s) => "command error: ".to_owned().concat(s.as_str()),
            RemoteError::Timeout => "request timeout".to_owned(),
        }
    }
}

/// The result that a JSON value writes: success for `null`, failure for a string; `None` for
/// another value.
pub open spec fn written_result(value: serde_json::Value) -> Option<Result<(), Seq<char>>> {
    if value == json::json_null() {
        Some(Ok(()))
    } else {
        match json::text_of(value) {
            Some(s) => Some(Err(s)),
            None => None,
        }
    }
}

/// A result with its text as a sequence of characters.
pub open spec fn result_view(result: Result<(), String>) -> Result<(), Seq<char>> {
    match result {
        Ok(_) => Ok(()),
        Err(s) => Err(s@),
    }
}

/// Writes the result of a response as a JSON value. What is written is read back as it was.
pub fn write_result(result: &Result<(), String>) -> (r: serde_json::Value)
    ensures
        written_result(r) == Some(result_view(*result)),
{
    match result {
        Ok(_) => json::null(),
        Err(s) => json::from_text(s.clone()),
    }
}

/// Reads the result of a response; `None` where the value is neither `null` nor a string.
pub fn read_result(value: &serde_json::Value) -> (r: Option<Result<(), String>>)
    ensures
        match r {
            Some(result) => written_result(*value) == Some(result_view(result)),
            None => written_result(*value) is None,
        },
{
    if json::is_null(value) {
        return Some(Ok(()));
    }
    match json::as_text(value) {
        Some(s) => Some(Err(s.to_owned())),
        None => None,
    }
}

/// A result is read back as it was written.
pub proof fn law_results_are_read_back(
    result: Result<(), String>,
    written: serde_json::Value,
    r: Option<Result<(), String>>,
)
    requires
        call_ensures(write_result, (&result,), written),
        call_ensures(read_result, (&written,), r),
    ensures
        r is Some,
        (r->0) is Ok <==> result is Ok,
        result is Err ==> ((r->0)->Err_0)@ == (result->Err_0)@,
{
}

/// The text of an error tells what it is about.
pub proof fn law_error_tells_its_cause(e: RemoteErrorView)
    ensures
        e matches RemoteErrorView::Io(s) ==> text::occurs(s, e.text()),
        e matches RemoteErrorView::Serde(s) ==> text::occurs(s, e.text()),
        e matches RemoteErrorView::Protocol(s) ==> text::occurs(s, e.text()),
        e matches RemoteErrorView::Command(s) ==> text::occurs(s, e.text()),
{
    match e {
        RemoteErrorView::Io(s) => text::lemma_ends_with("io error: "@, s),
        RemoteErrorView::Serde(s) => text::lemma_ends_with("serialize error: "@, s),
        RemoteErrorView::Protocol(s) => text::lemma_ends_with("protocol error: "@, s),
        RemoteErrorView::Command(s) => text::lemma_ends_with("command error: "@, s),
        _ => {},
    }
}

} // verus!
