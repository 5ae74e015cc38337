//! The messages of a conversation.
use vstd::prelude::*;
use vstd::string::*;

use crate::text;

verus! {

/// One message of a transcript.
#[derive(Debug, PartialEq)]
pub enum Message {
    User(UserMessage),
    Assistant(AssistantMessage),
    ToolResult(ToolResultMessage),
}

/// A message written by the user.
#[derive(Debug, PartialEq)]
pub struct UserMessage {
    pub content: Vec<UserContent>,
    pub timestamp: u64,
}

/// A part of a user message.
#[derive(Debug, PartialEq)]
pub enum UserContent {
    Text { text: String },
    Image(ImageContent),
}

/// An image, as base64 data with its MIME type.
#[derive(Debug, PartialEq)]
pub struct ImageContent {
    pub data: String,
    pub mime_type: String,
}

/// A message written by the model.
#[derive(Debug, PartialEq)]
pub struct AssistantMessage {
    pub content: Vec<AssistantContent>,
    pub model: Option<ModelId>,
    pub usage: Option<Usage>,
    pub stop_reason: Option<StopReason>,
    pub error_message: Option<String>,
    pub timestamp: u64,
}

/// A part of an assistant message.
#[derive(Debug, PartialEq)]
pub enum AssistantContent {
    Text { text: String },
    Thinking { text: String },
    ToolCall(ToolCall),
}

/// A request of the model to run a tool; `arguments` is JSON text, possibly partial while
/// it is still being streamed.
#[derive(Debug, PartialEq)]
pub struct ToolCall {
    pub id: String,
    pub name: String,
    pub arguments: String,
}

/// What a tool call gave back.
#[derive(Debug, PartialEq)]
pub struct ToolResultMessage {
    pub tool_call_id: String,
    pub tool_name: String,
    pub is_error: bool,
    pub content: Vec<ToolResultContent>,
    pub details: Option<serde_json::Value>,
    pub timestamp: u64,
}

/// A part of a tool result.
#[derive(Debug, PartialEq)]
pub enum ToolResultContent {
    Text { text: String },
    Image(ImageContent),
}

/// The name of a model.
#[derive(Debug, PartialEq)]
pub struct ModelId(pub String);

/// What a request used up. The cost, an amount in floating point, is carried as the bits of
/// its IEEE 754 double, so that it passes through unchanged.
#[derive(Debug, Clone, Copy, PartialEq)]
pub struct Usage {
    pub input: u64,
    pub output: u64,
    pub cache_read: u64,
    pub cache_write: u64,
    pub total_tokens: u64,
    pub cost_bits: u64,
}

/// Why a message ended. Names that are not known are kept as they are.
#[derive(Debug, PartialEq)]
pub enum StopReason {
    Completed,
    Length,
    Error,
    Aborted,
    Pending,
    Other(String),
}

/// How much the model is asked to think.
#[derive(Debug, Clone, Copy, PartialEq, Eq, Structural)]
pub enum ThinkingLevel {
    Off,
    Minimal,
    Low,
    Medium,
    High,
    Xhigh,
    Max,
}

/// The contents of a user message.
pub struct UserMessageView {
    pub content: Seq<UserContent>,
    pub timestamp: u64,
}

/// The contents of an assistant message.
pub struct AssistantMessageView {
    pub content: Seq<AssistantContent>,
    pub model: Option<ModelId>,
    pub usage: Option<Usage>,
    pub stop_reason: Option<StopReason>,
    pub error_message: Option<String>,
    pub timestamp: u64,
}

/// The contents of a tool result message.
pub struct ToolResultMessageView {
    pub tool_call_id: String,
    pub tool_name: String,
    pub is_error: bool,
    pub content: Seq<ToolResultContent>,
    pub details: Option<serde_json::Value>,
    pub timestamp: u64,
}

/// The contents of a message.
pub enum MessageView {
    User(UserMessageView),
    Assistant(AssistantMessageView),
    ToolResult(ToolResultMessageView),
}

/// The texts of a tool call.
pub struct ToolCallView {
    pub id: Seq<char>,
    pub name: Seq<char>,
    pub arguments: Seq<char>,
}

/// The text of a part of an assistant message.
pub enum AssistantPart {
    Text(Seq<char>),
    Thinking(Seq<char>),
    ToolCall(ToolCallView),
}

impl View for ToolCall {
    type V = ToolCallView;

    open spec fn view(&self) -> ToolCallView {
        ToolCallView { id: self.id@, name: self.name@, arguments: self.arguments@ }
    }
}

impl View for AssistantContent {
    type V = AssistantPart;

    open spec fn view(&self) -> AssistantPart {
        match self {
            AssistantContent::Text { text } => AssistantPart::Text(text@),
            AssistantContent::Thinking { text } => AssistantPart::Thinking(text@),
            AssistantContent::ToolCall(call) => AssistantPart::ToolCall(call@),
        }
    }
}

/// The texts of the parts of an assistant message.
pub open spec fn parts_of(content: Seq<AssistantContent>) -> Seq<AssistantPart> {
    content.map_values(|c: AssistantContent| c@)
}

/// The texts of tool calls.
pub open spec fn calls_view(calls: Seq<ToolCall>) -> Seq<ToolCallView> {
    calls.map_values(|c: ToolCall| c@)
}

impl View for UserMessage {
    type V = UserMessageView;

    open spec fn view(&self) -> UserMessageView {
        UserMessageView { content: self.content@, timestamp: self.timestamp }
    }
}

impl View for AssistantMessage {
    type V = AssistantMessageView;

    open spec fn view(&self) -> AssistantMessageView {
        AssistantMessageView {
            content: self.content@,
            model: self.model,
            usage: self.usage,
            stop_reason: self.stop_reason,
            error_message: self.error_message,
            timestamp: self.timestamp,
        }
    }
}

impl View for ToolResultMessage {
    type V = ToolResultMessageView;

    open spec fn view(&self) -> ToolResultMessageView {
        ToolResultMessageView {
            tool_call_id: self.tool_call_id,
            tool_name: self.tool_name,
            is_error: self.is_error,
            content: self.content@,
            details: self.details,
            timestamp: self.timestamp,
        }
    }
}

impl View for Message {
    type V = MessageView;

    open spec fn view(&self) -> MessageView {
        match self {
            Message::User(m) => MessageView::User(m@),
            Message::Assistant(m) => MessageView::Assistant(m@),
            Message::ToolResult(m) => MessageView::ToolResult(m@),
        }
    }
}

impl Clone for ImageContent {
    fn clone(&self) -> (r: Self)
        ensures
            r == *self,
    {
        ImageContent { data: self.data.clone(), mime_type: self.mime_type.clone() }
    }
}

impl Clone for UserContent {
    fn clone(&self) -> (r: Self)
        ensures
            r == *self,
    {
        match self {
            UserContent::Text { text } => UserContent::Text { text: text.clone() },
            UserContent::Image(image) => UserContent::Image(image.clone()),
        }
    }
}

impl Clone for ToolResultContent {
    fn clone(&self) -> (r: Self)
        ensures
            r == *self,
    {
        match self {
            ToolResultContent::Text { text } => ToolResultContent::Text { text: text.clone() },
            ToolResultContent::Image(image) => ToolResultContent::Image(image.clone()),
        }
    }
}

impl Clone for ToolCall {
    fn clone(&self) -> (r: Self)
        ensures
            r == *self,
    {
        ToolCall {
            id: self.id.clone(),
            name: self.name.clone(),
            arguments: self.arguments.clone(),
        }
    }
}

impl Clone for AssistantContent {
    fn clone(&self) -> (r: Self)
        ensures
            r == *self,
    {
        match self {
            AssistantContent::Text { text } => AssistantContent::Text { text: text.clone() },
            AssistantContent::Thinking { text } => AssistantContent::Thinking { text: text.clone() },
            AssistantContent::ToolCall(call) => AssistantContent::ToolCall(call.clone()),
        }
    }
}

impl Clone for ModelId {
    fn clone(&self) -> (r: Self)
        ensures
            r == *self,
    {
        ModelId(self.0.clone())
    }
}

impl Clone for StopReason {
    fn clone(&self) -> (r: Self)
        ensures
            r == *self,
    {
        match self {
            StopReason::Completed => StopReason::Completed,
            StopReason::Length => StopReason::Length,
            StopReason::Error => StopReason::Error,
            StopReason::Aborted => StopReason::Aborted,
            StopReason::Pending => StopReason::Pending,
            StopReason::Other(s) => StopReason::Other(s.clone()),
        }
    }
}

impl Clone for UserMessage {
    fn clone(&self) -> (r: Self)
        ensures
            r@ == self@,
    {
        let mut content: Vec<UserContent> = Vec::new();
        let mut i: usize = 0;
        while i < self.content.len()
            invariant
                i <= self.content@.len(),
                content@ == self.content@.take(i as int),
            decreases self.content@.len() - i,
        {
            content.push(self.content[i].clone());
            i += 1;
        }
        assert(content@ =~= self.content@);
        UserMessage { content, timestamp: self.timestamp }
    }
}

impl Clone for AssistantMessage {
    fn clone(&self) -> (r: Self)
        ensures
            r@ == self@,
    {
        let mut content: Vec<AssistantContent> = Vec::new();
        let mut i: usize = 0;
        while i < self.content.len()
            invariant
                i <= self.content@.len(),
                content@ == self.content@.take(i as int),
            decreases self.content@.len() - i,
        {
            content.push(self.content[i].clone());
            i += 1;
        }
        assert(content@ =~= self.content@);
        let model = match &self.model {
            Some(m) => Some(m.clone()),
            None => None,
        };
        let stop_reason = match &self.stop_reason {
            Some(s) => Some(s.clone()),
            None => None,
        };
        let error_message = match &self.error_message {
            Some(e) => Some(e.clone()),
            None => None,
        };
        AssistantMessage {
            content,
            model,
            usage: self.usage,
            stop_reason,
            error_message,
            timestamp: self.timestamp,
        }
    }
}

impl Clone for ToolResultMessage {
    fn clone(&self) -> (r: Self)
        ensures
            r@ == self@,
    {
        let mut content: Vec<ToolResultContent> = Vec::new();
        let mut i: usize = 0;
        while i < self.content.len()
            invariant
                i <= self.content@.len(),
                content@ == self.content@.take(i as int),
            decreases self.content@.len() - i,
        {
            content.push(self.content[i].clone());
            i += 1;
        }
        assert(content@ =~= self.content@);
        let details = match &self.details {
            Some(d) => Some(d.clone()),
            None => None,
        };
        ToolResultMessage {
            tool_call_id: self.tool_call_id.clone(),
            tool_name: self.tool_name.clone(),
            is_error: self.is_error,
            content,
            details,
            timestamp: self.timestamp,
        }
    }
}

impl Clone for Message {
    fn clone(&self) -> (r: Self)
        ensures
            r@ == self@,
    {
        match self {
            Message::User(m) => Message::User(m.clone()),
            Message::Assistant(m) => Message::Assistant(m.clone()),
            Message::ToolResult(m) => Message::ToolResult(m.clone()),
        }
    }
}

impl StopReason {
    /// The name of a stop reason on the wire.
    pub open spec fn name(self) -> Seq<char> {
        match self {
            StopReason::Completed => "completed"@,
            StopReason::Length => "length"@,
            StopReason::Error => "error"@,
            StopReason::Aborted => "aborted"@,
            StopReason::Pending => "pending"@,
            StopReason::Other(s) => s@,
        }
    }

    /// Whether `s` is one of the names that have a meaning of their own.
    pub open spec fn known(s: Seq<char>) -> bool {
        ||| s == "completed"@
        ||| s == "length"@
        ||| s == "error"@
        ||| s == "aborted"@
        ||| s == "pending"@
    }

    /// Reads the name of a stop reason; a name that is not known is kept in `Other`.
    pub fn from_string(s: &str) -> (r: Self)
        ensures
            r.name() == s@,
            r is Other <==> !StopReason::known(s@),
    {
        if text::str_eq(s, "completed") {
            StopReason::Completed
        } else if text::str_eq(s, "length") {
            StopReason::Length
        } else if text::str_eq(s, "error") {
            StopReason::Error
        } else if text::str_eq(s, "aborted") {
            StopReason::Aborted
        } else if text::str_eq(s, "pending") {
            StopReason::Pending
        } else {
            StopReason::Other(s.to_owned())
        }
    }

    /// The name of this stop reason on the wire.
    pub fn to_name(&self) -> (r: String)
        ensures
            r@ == self.name(),
    {
        match self {
            StopReason::Completed => "completed".to_owned(),
            StopReason::Length => "length".to_owned(),
            StopReason::Error => "error".to_owned(),
            StopReason::Aborted => "aborted".to_owned(),
            StopReason::Pending => "pending".to_owned(),
            StopReason::Other(s) => s.clone(),
        }
    }
}

/// Reading a name and writing it again gives the name back, and the reason that is read is
/// fixed by the name: two reasons that `from_string` can give for the same name agree in
/// their variant and in their name.
pub proof fn law_stop_reason_by_name(a: StopReason, b: StopReason)
    requires
        a.name() == b.name(),
        a is Other ==> !StopReason::known(a.name()),
        b is Other ==> !StopReason::known(b.name()),
    ensures
        a is Other <==> b is Other,
        !(a is Other) ==> a == b,
{
    reveal_strlit("completed");
    reveal_strlit("length");
    reveal_strlit("error");
    reveal_strlit("aborted");
    reveal_strlit("pending");
    assert("completed"@.len() == 9);
    assert("length"@.len() == 6);
    assert("error"@.len() == 5);
    assert("aborted"@.len() == 7);
    assert("pending"@.len() == 7);
    assert("aborted"@[0] == 'a');
    assert("pending"@[0] == 'p');
}

/// What is stated of the contents of a message is stated of all of it: two messages with the same
/// contents have the same parts and the same data about them.
pub proof fn law_contents_tell_everything(a: Message, b: Message)
    requires
        a@ == b@,
    ensures
        a is User <==> b is User,
        a is Assistant <==> b is Assistant,
        a matches Message::User(x) ==> (b matches Message::User(y) && x.content@ == y.content@
            && x.timestamp == y.timestamp),
        a matches Message::Assistant(x) ==> (b matches Message::Assistant(y) && {
            &&& x.content@ == y.content@
            &&& x.model == y.model
            &&& x.usage == y.usage
            &&& x.stop_reason == y.stop_reason
            &&& x.error_message == y.error_message
            &&& x.timestamp == y.timestamp
        }),
        a matches Message::ToolResult(x) ==> (b matches Message::ToolResult(y) && {
            &&& x.tool_call_id@ == y.tool_call_id@
            &&& x.tool_name@ == y.tool_name@
            &&& x.is_error == y.is_error
            &&& x.content@ == y.content@
            &&& x.details == y.details
            &&& x.timestamp == y.timestamp
        }),
{
}

/// Parts of assistant messages with the same texts are of the same kind.
pub proof fn law_texts_tell_everything(a: AssistantContent, b: AssistantContent)
    requires
        a@ == b@,
    ensures
        a matches AssistantContent::Text { text: x } ==> (b matches AssistantContent::Text {
            text: y,
        } && x@ == y@),
        a matches AssistantContent::Thinking { text: x } ==> (b matches AssistantContent::Thinking {
            text: y,
        } && x@ == y@),
        a matches AssistantContent::ToolCall(x) ==> (b matches AssistantContent::ToolCall(y)
            && x.id@ == y.id@ && x.name@ == y.name@ && x.arguments@ == y.arguments@),
{
}

} // verus!
