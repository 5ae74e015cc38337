//! The outside of an agent: its snapshot, its commands, its errors, and waiting for it.
use std::sync::Arc;
use vstd::prelude::*;
use vstd::string::*;

use crate::message::{Message, ThinkingLevel};
use crate::text;

verus! {

/// How an agent is set up.
#[derive(Debug, Clone, PartialEq)]
pub struct AgentConfig {
    pub system_prompt: String,
    pub model: Option<String>,
    pub thinking_level: ThinkingLevel,
}

/// The state of an agent as others see it.
#[derive(Debug, Clone, PartialEq)]
pub struct AgentSnapshot {
    pub system_prompt: String,
    pub model: Option<String>,
    pub thinking_level: ThinkingLevel,
    pub messages: Vec<Arc<Message>>,
    pub is_streaming: bool,
    pub streaming_message: Option<Arc<Message>>,
    pub pending_tool_calls: Vec<String>,
    pub error_message: Option<String>,
}

impl AgentSnapshot {
    /// No tool call is pending twice.
    pub open spec fn wf(self) -> bool {
        forall|i: int, j: int|
            0 <= i < j < self.pending_tool_calls@.len() ==> (
            #[trigger] self.pending_tool_calls@[i])@ != (#[trigger] self.pending_tool_calls@[j])@
    }

    /// The snapshot of an agent that has not done anything yet, with `messages` as its
    /// transcript.
    pub fn initial(config: &AgentConfig, messages: Vec<Arc<Message>>) -> (r: Self)
        ensures
            r.wf(),
            r.system_prompt == config.system_prompt,
            r.model == config.model,
            r.thinking_level == config.thinking_level,
            r.messages == messages,
            !r.is_streaming,
            r.streaming_message is None,
            r.pending_tool_calls@.len() == 0,
            r.error_message is None,
    {
        let model = match &config.model {
            Some(m) => Some(m.clone()),
            None => None,
        };
        AgentSnapshot {
            system_prompt: config.system_prompt.clone(),
            model,
            thinking_level: config.thinking_level,
            messages,
            is_streaming: false,
            streaming_message: None,
            pending_tool_calls: Vec::new(),
            error_message: None,
        }
    }

    /// Takes over a transcript between turns: nothing is being streamed, no tool call is pending.
    pub fn publish(&mut self, messages: Vec<Arc<Message>>, error_message: Option<String>)
        ensures
            final(self).wf(),
            final(self).system_prompt == old(self).system_prompt,
            final(self).model == old(self).model,
            final(self).thinking_level == old(self).thinking_level,
            final(self).messages == messages,
            !final(self).is_streaming,
            final(self).streaming_message is None,
            final(self).pending_tool_calls@.len() == 0,
            final(self).error_message == error_message,
    {
        self.messages = messages;
        self.is_streaming = false;
        self.streaming_message = None;
        self.pending_tool_calls = Vec::new();
        self.error_message = error_message;
    }

    /// Forgets the transcript, the pending tool calls and the error.
    pub fn clear(&mut self)
        ensures
            final(self).wf(),
            final(self).messages@.len() == 0,
            final(self).pending_tool_calls@.len() == 0,
            final(self).error_message is None,
            final(self).system_prompt == old(self).system_prompt,
            final(self).model == old(self).model,
            final(self).thinking_level == old(self).thinking_level,
            final(self).is_streaming == old(self).is_streaming,
            final(self).streaming_message == old(self).streaming_message,
    {
        self.messages = Vec::new();
        self.pending_tool_calls = Vec::new();
        self.error_message = None;
    }
}

/// A command for an agent.
#[derive(Debug, Clone, PartialEq)]
pub enum AgentCommand {
    Prompt(Vec<Message>),
    Continue,
    Steer(Message),
    FollowUp(Message),
    Abort,
    Reset,
    Shutdown,
}

/// What can go wrong with an agent. Errors of the file system and of the serialiser are held as
/// their text.
#[derive(Debug)]
pub enum AgentError {
    Busy,
    InvalidState,
    Io(String),
    Serialization(String),
    Other(String),
    SendError(String),
}

impl Clone for AgentError {
    fn clone(&self) -> (r: Self)
        ensures
            r == *self,
    {
        match self {
            AgentError::Busy => AgentError::Busy,
            AgentError::InvalidState => AgentError::InvalidState,
            AgentError::Io(e) => AgentError::Io(e.clone()),
            AgentError::Serialization(e) => AgentError::Serialization(e.clone()),
            AgentError::Other(s) => AgentError::Other(s.clone()),
            AgentError::SendError(s) => AgentError::SendError(s.clone()),
        }
    }
}

impl vstd::std_specs::cmp::PartialEqSpecImpl for AgentError {
    open spec fn obeys_eq_spec() -> bool {
        true
    }

    /// Errors of the file system are all the same, and so are those of the serialiser.
    open spec fn eq_spec(&self, other: &Self) -> bool {
        match (*self, *other) {
            (AgentError::Busy, AgentError::Busy) => true,
            (AgentError::InvalidState, AgentError::InvalidState) => true,
            (AgentError::Io(_), AgentError::Io(_)) => true,
            (AgentError::Serialization(_), AgentError::Serialization(_)) => true,
            (AgentError::Other(a), AgentError::Other(b)) => a@ == b@,
            (AgentError::SendError(a), AgentError::SendError(b)) => a@ == b@,
            _ => false,
        }
    }
}

impl PartialEq for AgentError {
    fn eq(&self, other: &Self) -> (r: bool) {
        match (self, other) {
            (AgentError::Busy, AgentError::Busy) => true,
            (AgentError::InvalidState, AgentError::InvalidState) => true,
            (AgentError::Io(_), AgentError::Io(_)) => true,
            (AgentError::Serialization(_), AgentError::Serialization(_)) => true,
            (AgentError::Other(a), AgentError::Other(b)) => text::str_eq(a.as_str(), b.as_str()),
            (AgentError::SendError(a), AgentError::SendError(b)) => text::str_eq(
                a.as_str(),
                b.as_str(),
            ),
            _ => false,
        }
    }
}

impl AgentError {
    /// The text of the error.
    pub open spec fn text(self) -> Seq<char> {
        match self {
            AgentError::Busy => "Agent is busy"@,
            AgentError::InvalidState => "Invalid agent state"@,
            AgentError::Io(e) => "IO error: "@ + e@,
            AgentError::Serialization(e) => "Serialization error: "@ + e@,
            AgentError::Other(s) => "Other error: "@ + s@,
            AgentError::SendError(s) => "Send error: "@ + s@,
        }
    }

    /// The text of the error.
    pub fn message(&self) -> (r: String)
        ensures
            r@ == self.text(),
    {
        match self {
            AgentError::Busy => "Agent is busy".to_owned(),
            AgentError::InvalidState => "Invalid agent state".to_owned(),
            AgentError::Io(e) => "IO error: ".to_owned().concat(e.as_str()),
            AgentError::Serialization(e) => "Serialization error: ".to_owned().concat(e.as_str()),
            AgentError::Other(s) => "Other error: ".to_owned().concat(s.as_str()),
            AgentError::SendError(s) => "Send error: ".to_owned().concat(s.as_str()),
        }
    }

    /// The error on the wire.
    pub open spec fn wire(self) -> Seq<char> {
        match self {
            AgentError::Busy => "Busy"@,
            AgentError::InvalidState => "InvalidState"@,
            AgentError::Io(e) => "Io: "@ + e@,
            AgentError::Serialization(e) => "Serialization: "@ + e@,
            AgentError::Other(s) => "Other: "@ + s@,
            AgentError::SendError(s) => "SendError: "@ + s@,
        }
    }

    /// The error on the wire.
    pub fn to_wire(&self) -> (r: String)
        ensures
            r@ == self.wire(),
    {
        match self {
            AgentError::Busy => "Busy".to_owned(),
            AgentError::InvalidState => "InvalidState".to_owned(),
            AgentError::Io(e) => "Io: ".to_owned().concat(e.as_str()),
            AgentError::Serialization(e) => "Serialization: ".to_owned().concat(e.as_str()),
            AgentError::Other(s) => "Other: ".to_owned().concat(s.as_str()),
            AgentError::SendError(s) => "SendError: ".to_owned().concat(s.as_str()),
        }
    }

    /// An error that came over the wire: its text is kept, its kind is not.
    pub fn from_wire(s: String) -> (r: Self)
        ensures
            r == AgentError::Other(s),
    {
        AgentError::Other(s)
    }
}

/// What to do while waiting.
#[derive(Debug)]
pub enum WaitStep {
    /// What was waited for is there.
    Done,
    /// Give up.
    Fail(AgentError),
    /// Wait for the next change.
    Wait,
}

/// How waiting for a change ended.
#[derive(Debug, Clone, Copy, PartialEq, Eq, Structural)]
pub enum WaitEvent {
    Changed,
    Closed,
    TimedOut,
}

/// Before each wait: done where the condition holds, failed where the time is up.
pub fn wait_check(reached: bool, time_is_up: bool, ctx: &str) -> (r: WaitStep)
    ensures
        match r {
            WaitStep::Done => reached,
            WaitStep::Fail(e) => !reached && time_is_up && (e matches AgentError::Other(s) && s@
                == ctx@ + " timeout"@),
            WaitStep::Wait => !reached && !time_is_up,
        },
{
    if reached {
        WaitStep::Done
    } else if time_is_up {
        WaitStep::Fail(AgentError::Other(ctx.to_owned().concat(" timeout")))
    } else {
        WaitStep::Wait
    }
}

/// After each wait: look again after a change, give up otherwise.
pub fn wait_ended(event: WaitEvent, ctx: &str) -> (r: Result<(), AgentError>)
    ensures
        match event {
            WaitEvent::Changed => r is Ok,
            WaitEvent::Closed => r matches Err(AgentError::Other(s)) && s@ == ctx@
                + " channel closed"@,
            WaitEvent::TimedOut => r matches Err(AgentError::Other(s)) && s@ == ctx@
                + " timeout"@,
        },
{
    match event {
        WaitEvent::Changed => Ok(()),
        WaitEvent::Closed => Err(AgentError::Other(ctx.to_owned().concat(" channel closed"))),
        WaitEvent::TimedOut => Err(AgentError::Other(ctx.to_owned().concat(" timeout"))),
    }
}

/// Whether all commands that were sent have been processed.
pub fn all_processed(processed: u64, sent: u64) -> (r: bool)
    ensures
        r == (processed >= sent),
{
    processed >= sent
}

/// What is shown of an agent between turns is the transcript that was published, and nothing that is
/// still going on; what it was set up with stays.
pub proof fn law_published_transcript_is_shown()
    ensures
        forall|
            shown: &mut AgentSnapshot,
            messages: Vec<Arc<Message>>,
            error_message: Option<String>,
            r: (),
        | #[trigger]
            call_ensures(AgentSnapshot::publish, (shown, messages, error_message), r) ==> {
                &&& final(shown).messages@ == messages@
                &&& final(shown).error_message == error_message
                &&& !final(shown).is_streaming && final(shown).streaming_message is None
                &&& final(shown).pending_tool_calls@.len() == 0
                &&& final(shown).system_prompt@ == shown.system_prompt@
                &&& final(shown).model == shown.model
                &&& final(shown).thinking_level == shown.thinking_level
            },
        forall|shown: &mut AgentSnapshot, r: ()| #[trigger]
            call_ensures(AgentSnapshot::clear, (shown,), r) ==> {
                &&& final(shown).messages@.len() == 0
                &&& final(shown).error_message is None
                &&& final(shown).pending_tool_calls@.len() == 0
                &&& final(shown).system_prompt@ == shown.system_prompt@
                &&& final(shown).model == shown.model
                &&& final(shown).thinking_level == shown.thinking_level
            },
{
}

/// Waiting ends as soon as what is waited for is there, even when the time is up too; it fails only
/// when the time is up.
pub proof fn law_waiting_ends(
    reached: bool,
    time_is_up: bool,
    ctx: &str,
    r: WaitStep,
    event: WaitEvent,
    ended: Result<(), AgentError>,
)
    requires
        call_ensures(wait_check, (reached, time_is_up, ctx), r),
        call_ensures(wait_ended, (event, ctx), ended),
    ensures
        r is Done <==> reached,
        r is Wait <==> !reached && !time_is_up,
        r matches WaitStep::Fail(e) ==> (e matches AgentError::Other(s) && ctx@.is_prefix_of(s@)),
        ended is Ok <==> event == WaitEvent::Changed,
        ended matches Err(e) ==> (e matches AgentError::Other(s) && ctx@.is_prefix_of(s@)),
{
    assert((ctx@ + " timeout"@).subrange(0, ctx@.len() as int) =~= ctx@);
    assert((ctx@ + " channel closed"@).subrange(0, ctx@.len() as int) =~= ctx@);
}

/// The text of an error, and its form on the wire, tell what it is about.
pub proof fn law_error_tells_its_cause(e: AgentError)
    ensures
        e matches AgentError::Io(s) ==> text::occurs(s@, e.text()) && text::occurs(s@, e.wire()),
        e matches AgentError::Serialization(s) ==> text::occurs(s@, e.text()) && text::occurs(
            s@,
            e.wire(),
        ),
        e matches AgentError::Other(s) ==> text::occurs(s@, e.text()) && text::occurs(s@, e.wire()),
        e matches AgentError::SendError(s) ==> text::occurs(s@, e.text()) && text::occurs(
            s@,
            e.wire(),
        ),
{
    match e {
        AgentError::Io(s) => {
            text::lemma_ends_with("IO error: "@, s@);
            text::lemma_ends_with("Io: "@, s@);
        },
        AgentError::Serialization(s) => {
            text::lemma_ends_with("Serialization error: "@, s@);
            text::lemma_ends_with("Serialization: "@, s@);
        },
        AgentError::Other(s) => {
            text::lemma_ends_with("Other error: "@, s@);
            text::lemma_ends_with("Other: "@, s@);
        },
        AgentError::SendError(s) => {
            text::lemma_ends_with("Send error: "@, s@);
            text::lemma_ends_with("SendError: "@, s@);
        },
        _ => {},
    }
}

} // verus!
