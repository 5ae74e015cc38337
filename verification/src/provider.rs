//! The model provider.
use vstd::prelude::*;
use vstd::string::*;

use crate::message::{AssistantMessage, Message, ThinkingLevel};
use crate::text;

verus! {

/// A model and the size of its context window in tokens.
#[derive(Debug, PartialEq)]
pub struct Model {
    pub id: String,
    pub context_window: u32,
}

impl Clone for Model {
    fn clone(&self) -> (r: Self)
        ensures
            r == *self,
    {
        Model { id: self.id.clone(), context_window: self.context_window }
    }
}

/// The description of a tool for the model.
#[derive(Debug, Clone, PartialEq)]
pub struct ToolSpec {
    pub name: String,
    pub description: String,
    pub parameters: Option<serde_json::Value>,
}

/// What a request tells the model.
#[derive(Debug, Clone, PartialEq)]
pub struct Context {
    pub system_prompt: String,
    pub messages: Vec<Message>,
    pub tools: Vec<ToolSpec>,
}

/// A request to a provider.
#[derive(Debug, Clone, PartialEq)]
pub struct ProviderRequest {
    pub model: Model,
    pub context: Context,
    pub thinking_level: ThinkingLevel,
    pub session_id: Option<String>,
}

/// Why a request could not be made.
#[derive(Debug, PartialEq)]
pub enum ProviderError {
    Request(String),
    Aborted,
    Network(String),
    HttpStatus { status: u16, body: String },
    Parse(String),
    Build(String),
    /// The request was not answered in time.
    Timeout,
}

impl ProviderError {
    /// The text of the error.
    pub open spec fn text(self) -> Seq<char> {
        match self {
            ProviderError::Request(e) => "Provider request failed: "@ + e@,
            ProviderError::Aborted => "Provider request aborted"@,
            ProviderError::Network(e) => "Network error: "@ + e@,
            ProviderError::HttpStatus { status, body } => "HTTP status "@ + text::decimal(
                status as nat,
            ) + ": "@ + body@,
            ProviderError::Parse(e) => "Parse error: "@ + e@,
            ProviderError::Build(e) => "Build error: "@ + e@,
            ProviderError::Timeout => "Provider request timed out"@,
        }
    }

    /// The text of the error.
    pub fn message(&self) -> (r: String)
        ensures
            r@ == self.text(),
    {
        match self {
            ProviderError::Request(e) => "Provider request failed: ".to_owned().concat(e.as_str()),
            ProviderError::Aborted => "Provider request aborted".to_owned(),
            ProviderError::Network(e) => "Network error: ".to_owned().concat(e.as_str()),
            ProviderError::HttpStatus { status, body } => "HTTP status ".to_owned().concat(
                text::decimal_u64(*status as u64).as_str(),
            ).concat(": ").concat(body.as_str()),
            ProviderError::Parse(e) => "Parse error: ".to_owned().concat(e.as_str()),
            ProviderError::Build(e) => "Build error: ".to_owned().concat(e.as_str()),
            ProviderError::Timeout => "Provider request timed out".to_owned(),
        }
    }
}

/// An event of the stream in which the model answers.
#[allow(inconsistent_fields)]
#[derive(Debug, Clone, PartialEq)]
pub enum AssistantEvent {
    TextDelta { text: String },
    ThinkingDelta { thinking: String },
    ToolCallStart { id: String, name: String, arguments: String },
    ToolCallDelta { id: String, arguments_delta: String },
    ToolCallEnd { id: String },
    /// The stream ended; the message is complete.
    Done { message: AssistantMessage },
    /// The stream failed; `aborted` if it was cancelled.
    Error { message: String, aborted: bool },
}

/// The text of an error tells what it is about.
pub proof fn law_error_tells_its_cause(e: ProviderError)
    ensures
        e matches ProviderError::Request(s) ==> text::occurs(s@, e.text()),
        e matches ProviderError::Network(s) ==> text::occurs(s@, e.text()),
        e matches ProviderError::Parse(s) ==> text::occurs(s@, e.text()),
        e matches ProviderError::Build(s) ==> text::occurs(s@, e.text()),
        e matches ProviderError::HttpStatus { status, body } ==> text::occurs(body@, e.text())
            && text::occurs(text::decimal(status as nat), e.text()),
{
    match e {
        ProviderError::Request(s) => text::lemma_ends_with("Provider request failed: "@, s@),
        ProviderError::Network(s) => text::lemma_ends_with("Network error: "@, s@),
        ProviderError::Parse(s) => text::lemma_ends_with("Parse error: "@, s@),
        ProviderError::Build(s) => text::lemma_ends_with("Build error: "@, s@),
        ProviderError::HttpStatus { status, body } => {
            let n = text::decimal(status as nat);
            text::lemma_ends_with("HTTP status "@ + n + ": "@, body@);
            text::lemma_occurs("HTTP status "@, n, ": "@ + body@);
            assert("HTTP status "@ + n + (": "@ + body@) =~= "HTTP status "@ + n + ": "@ + body@);
        },
        _ => {},
    }
}

} // verus!
