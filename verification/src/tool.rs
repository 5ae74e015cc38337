//! Tools: what they give back and which resources they touch.
use vstd::prelude::*;
use vstd::string::*;

use crate::message::ToolResultContent;

verus! {

/// What a tool gave back. `is_error` says that the tool itself failed.
#[derive(Debug, PartialEq)]
pub struct ToolResult {
    pub content: Vec<ToolResultContent>,
    pub is_error: bool,
    pub details: Option<serde_json::Value>,
}

/// The contents of a tool result.
pub struct ToolResultView {
    pub content: Seq<ToolResultContent>,
    pub is_error: bool,
    pub details: Option<serde_json::Value>,
}

impl View for ToolResult {
    type V = ToolResultView;

    open spec fn view(&self) -> ToolResultView {
        ToolResultView {
            content: self.content@,
            is_error: self.is_error,
            details: self.details,
        }
    }
}

impl Clone for ToolResult {
    fn clone(&self) -> (r: Self)
        ensures
            r@ == self@,
    {
        let mut content: Vec<ToolResultContent> = Vec::new();
        let mut i: usize = 0;
        while i < self.content.len()
            invariant
                i <= self.content@.len(),
                content@ == self.content@.take(i as int),
            decreases self.content@.len() - i,
        {
            content.push(self.content[i].clone());
            i += 1;
        }
        assert(content@ =~= self.content@);
        let details = match &self.details {
            Some(d) => Some(d.clone()),
            None => None,
        };
        ToolResult { content, is_error: self.is_error, details }
    }
}

impl ToolResult {
    /// Whether the content of this result is one part of text.
    pub open spec fn shows(self, text: Seq<char>) -> bool {
        &&& self.content@.len() == 1
        &&& self.content@[0] matches ToolResultContent::Text { text: t }
        &&& t@ == text
    }

    /// Whether this result is one part of text, without details.
    pub open spec fn is_text(self, text: Seq<char>) -> bool {
        self.details is None && self.shows(text)
    }

    /// A result of text.
    pub fn text(text: String) -> (r: Self)
        ensures
            r.is_text(text@),
            !r.is_error,
    {
        let mut content: Vec<ToolResultContent> = Vec::new();
        content.push(ToolResultContent::Text { text });
        ToolResult { content, is_error: false, details: None }
    }

    /// A result of text with details.
    pub fn with_details(text: String, is_error: bool, details: serde_json::Value) -> (r: Self)
        ensures
            r.shows(text@),
            r.is_error == is_error,
            r.details == Some(details),
    {
        let mut content: Vec<ToolResultContent> = Vec::new();
        content.push(ToolResultContent::Text { text });
        ToolResult { content, is_error, details: Some(details) }
    }

    /// A failure with a text.
    pub fn error(text: String) -> (r: Self)
        ensures
            r.is_text(text@),
            r.is_error,
    {
        let mut content: Vec<ToolResultContent> = Vec::new();
        content.push(ToolResultContent::Text { text });
        ToolResult { content, is_error: true, details: None }
    }
}

/// A tool could not be run: its arguments are not valid, or running it went wrong.
#[derive(Debug, Clone, PartialEq)]
pub struct ToolError {
    pub message: String,
}

impl ToolError {
    /// The text of the error.
    pub open spec fn text(self) -> Seq<char> {
        "ToolError: "@ + self.message@
    }

    /// The arguments are not valid.
    pub fn invalid_arguments(message: String) -> (r: Self)
        ensures
            r.message == message,
    {
        ToolError { message }
    }

    /// Any other error.
    pub fn new(message: String) -> (r: Self)
        ensures
            r.message == message,
    {
        ToolError { message }
    }

    /// The text of the error.
    pub fn to_text(&self) -> (r: String)
        ensures
            r@ == self.text(),
    {
        "ToolError: ".to_owned().concat(self.message.as_str())
    }
}

/// Which resources a tool touches, and so what it can run beside.
#[derive(Debug, Clone, Copy, PartialEq, Eq, Structural)]
pub enum ResourceScope {
    /// Can run beside other tools that only read.
    ReadOnly,
    /// Runs after other tools that write files.
    FileWriter,
    /// Runs alone.
    Exclusive,
}

/// Results with the same contents show the same, failed alike, and have the same details.
pub proof fn law_contents_tell_everything(a: ToolResult, b: ToolResult)
    requires
        a@ == b@,
    ensures
        a.content@ == b.content@,
        a.is_error == b.is_error,
        a.details == b.details,
{
}

} // verus!
