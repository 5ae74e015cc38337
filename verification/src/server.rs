//! The agent server: many sessions, each with many lanes, for many connections.
use vstd::prelude::*;
use vstd::string::*;

use crate::session::{LaneId, SessionError};
use crate::text;

pub mod lane;
pub mod protocol;
pub mod recovery;
pub mod registry;
pub mod transport;

verus! {

/// The name of a session.
pub type SessionId = String;

/// Why the server refused. Errors of the connection are held as their text.
#[derive(Debug, PartialEq)]
pub enum ServerError {
    SessionNotFound(SessionId),
    LaneNotFound(LaneId),
    LaneAlreadyExists(LaneId),
    DuplicateSession(SessionId),
    Session(SessionError),
    Agent(String),
    Io(String),
    Protocol(String),
}

/// A `ServerError` with its texts as sequences of characters.
pub enum ServerErrorView {
    SessionNotFound(Seq<char>),
    LaneNotFound(Seq<char>),
    LaneAlreadyExists(Seq<char>),
    DuplicateSession(Seq<char>),
    Session(SessionError),
    Agent(Seq<char>),
    Io(Seq<char>),
    Protocol(Seq<char>),
}

impl View for ServerError {
    type V = ServerErrorView;

    open spec fn view(&self) -> ServerErrorView {
        match *self {
            ServerError::SessionNotFound(s) => ServerErrorView::SessionNotFound(s@),
            ServerError::LaneNotFound(s) => ServerErrorView::LaneNotFound(s@),
            ServerError::LaneAlreadyExists(s) => ServerErrorView::LaneAlreadyExists(s@),
            ServerError::DuplicateSession(s) => ServerErrorView::DuplicateSession(s@),
            ServerError::Session(e) => ServerErrorView::Session(e),
            ServerError::Agent(s) => ServerErrorView::Agent(s@),
            ServerError::Io(s) => ServerErrorView::Io(s@),
            ServerError::Protocol(s) => ServerErrorView::Protocol(s@),
        }
    }
}

impl ServerErrorView {
    /// The text of the error.
    pub open spec fn text(self) -> Seq<char> {
        match self {
            ServerErrorView::SessionNotFound(s) => "session not found: "@ + s,
            ServerErrorView::LaneNotFound(s) => "lane not found: "@ + s,
            ServerErrorView::LaneAlreadyExists(s) => "lane already exists: "@ + s,
            ServerErrorView::DuplicateSession(s) => "duplicate session: "@ + s,
            ServerErrorView::Session(e) => "session error: "@ + e.text(),
            ServerErrorView::Agent(s) => "agent error: "@ + s,
            ServerErrorView::Io(s) => "io error: "@ + s,
            ServerErrorView::Protocol(s) => "protocol error: "@ + s,
        }
    }
}

impl ServerError {
    /// The text of the error.
    pub fn message(&self) -> (r: String)
        ensures
            r@ == self@.text(),
    {
        match self {
            ServerError::SessionNotFound(s) => "session not found: ".to_owned().concat(s.as_str()),
            ServerError::LaneNotFound(s) => "lane not found: ".to_owned().concat(s.as_str()),
            ServerError::LaneAlreadyExists(s) => "lane already exists: ".to_owned().concat(
                s.as_str(),
            ),
            ServerError::DuplicateSession(s) => "duplicate session: ".to_owned().concat(s.as_str()),
            ServerError::Session(e) => "session error: ".to_owned().concat(e.message().as_str()),
            ServerError::Agent(s) => "agent error: ".to_owned().concat(s.as_str()),
            ServerError::Io(s) => "io error: ".to_owned().concat(s.as_str()),
            ServerError::Protocol(s) => "protocol error: ".to_owned().concat(s.as_str()),
        }
    }
}

/// The text of an error tells what it is about.
pub proof fn law_error_tells_its_cause(e: ServerErrorView)
    ensures
        e matches ServerErrorView::SessionNotFound(s) ==> text::occurs(s, e.text()),
        e matches ServerErrorView::LaneNotFound(s) ==> text::occurs(s, e.text()),
        e matches ServerErrorView::LaneAlreadyExists(s) ==> text::occurs(s, e.text()),
        e matches ServerErrorView::DuplicateSession(s) ==> text::occurs(s, e.text()),
        e matches ServerErrorView::Session(s) ==> text::occurs(s.text(), e.text()),
        e matches ServerErrorView::Agent(s) ==> text::occurs(s, e.text()),
        e matches ServerErrorView::Io(s) ==> text::occurs(s, e.text()),
        e matches ServerErrorView::Protocol(s) ==> text::occurs(s, e.text()),
{
    match e {
        ServerErrorView::SessionNotFound(s) => text::lemma_ends_with("session not found: "@, s),
        ServerErrorView::LaneNotFound(s) => text::lemma_ends_with("lane not found: "@, s),
        ServerErrorView::LaneAlreadyExists(s) => text::lemma_ends_with(
            "lane already exists: "@,
            s,
        ),
        ServerErrorView::DuplicateSession(s) => text::lemma_ends_with("duplicate session: "@, s),
        ServerErrorView::Session(s) => text::lemma_ends_with("session error: "@, s.text()),
        ServerErrorView::Agent(s) => text::lemma_ends_with("agent error: "@, s),
        ServerErrorView::Io(s) => text::lemma_ends_with("io error: "@, s),
        ServerErrorView::Protocol(s) => text::lemma_ends_with("protocol error: "@, s),
    }
}

} // verus!
