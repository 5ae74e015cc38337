//! Summaries of older messages: the request to the model, collecting its answer, and the text
//! form of messages.
use std::sync::Arc;
use vstd::prelude::*;
use vstd::string::*;

use crate::message::{
    AssistantContent, AssistantMessage, Message, ThinkingLevel, ToolResultContent,
    ToolResultMessage, UserContent, UserMessage,
};
use crate::provider::{AssistantEvent, Context, Model, ProviderError, ProviderRequest, ToolSpec};
use crate::text;

verus! {

/// A summary.
#[derive(Debug, Clone, PartialEq, Eq)]
pub struct CompactionResult {
    pub summary: String,
}

/// Why there is no summary.
#[derive(Debug, PartialEq)]
pub enum CompactionError {
    Provider(ProviderError),
    Cancelled,
    EmptyInput,
    EmptySummary,
}

impl CompactionError {
    /// The text of the error.
    pub open spec fn text(self) -> Seq<char> {
        match self {
            CompactionError::Provider(e) => "summary provider error: "@ + e.text(),
            CompactionError::Cancelled => "compaction cancelled"@,
            CompactionError::EmptyInput => "no messages to compact"@,
            CompactionError::EmptySummary => "empty summary"@,
        }
    }

    /// The text of the error.
    pub fn message(&self) -> (r: String)
        ensures
            r@ == self.text(),
    {
        match self {
            CompactionError::Provider(e) => "summary provider error: ".to_owned().concat(
                e.message().as_str(),
            ),
            CompactionError::Cancelled => "compaction cancelled".to_owned(),
            CompactionError::EmptyInput => "no messages to compact".to_owned(),
            CompactionError::EmptySummary => "empty summary".to_owned(),
        }
    }
}

/// Makes summaries by asking a model.
#[derive(Debug)]
pub struct LlmCompactor {
    pub model: Model,
    /// The system prompt that asks for a summary.
    pub summary_prompt: String,
}

/// A summary that is being collected from the answer of the model.
#[derive(Debug)]
pub struct SummaryStream {
    pub summary: String,
}

impl LlmCompactor {
    /// A compactor that asks `model` with `summary_prompt`.
    pub fn new(model: Model, summary_prompt: String) -> (r: Self)
        ensures
            r.model == model,
            r.summary_prompt == summary_prompt,
    {
        LlmCompactor { model, summary_prompt }
    }

    /// The request for a summary of `messages`: the messages as they are, no tools. Nothing is
    /// asked for if there are no messages or if the summary is not wanted any more.
    pub fn request(&self, messages: &[Arc<Message>], cancelled: bool) -> (r: Result<
        ProviderRequest,
        CompactionError,
    >)
        ensures
            messages@.len() == 0 ==> (r matches Err(e) && e is EmptyInput),
            messages@.len() > 0 && cancelled ==> (r matches Err(e) && e is Cancelled),
            messages@.len() > 0 && !cancelled ==> (r matches Ok(q) && {
                &&& q.model == self.model
                &&& q.context.system_prompt == self.summary_prompt
                &&& q.context.tools@.len() == 0
                &&& q.context.messages@.len() == messages@.len()
                &&& forall|i: int|
                    0 <= i < messages@.len() ==> (#[trigger] q.context.messages@[i])@
                        == messages@[i]@
                &&& q.thinking_level == ThinkingLevel::Off
                &&& q.session_id is None
            }),
    {
        if messages.len() == 0 {
            return Err(CompactionError::EmptyInput);
        }
        if cancelled {
            return Err(CompactionError::Cancelled);
        }
        let mut copies: Vec<Message> = Vec::new();
        let mut i: usize = 0;
        while i < messages.len()
            invariant
                i <= messages@.len(),
                copies@.len() == i,
                forall|k: int| 0 <= k < i ==> (#[trigger] copies@[k])@ == messages@[k]@,
            decreases messages@.len() - i,
        {
            let copy: Message = (*messages[i]).clone();
            copies.push(copy);
            i += 1;
        }
        let tools: Vec<ToolSpec> = Vec::new();
        Ok(
            ProviderRequest {
                model: self.model.clone(),
                context: Context {
                    system_prompt: self.summary_prompt.clone(),
                    messages: copies,
                    tools,
                },
                thinking_level: ThinkingLevel::Off,
                session_id: None,
            },
        )
    }
}

/// What came next while a summary was being collected.
#[derive(Debug)]
pub enum SummaryInput {
    /// The summary is not wanted any more.
    Cancelled,
    /// The stream ended.
    End,
    Event(AssistantEvent),
}

/// How collecting ends once the answer is there: with the summary, unless that is empty.
pub open spec fn ended(
    summary: Seq<char>,
    r: Result<CompactionResult, CompactionError>,
) -> bool {
    if summary.len() == 0 {
        r matches Err(e) && e is EmptySummary
    } else {
        r matches Ok(c) && c.summary@ == summary
    }
}

impl SummaryStream {
    /// Nothing collected yet.
    pub fn new() -> (r: Self)
        ensures
            r.summary@ == Seq::<char>::empty(),
    {
        SummaryStream { summary: String::new() }
    }

    /// Ends the collecting.
    fn end(&self) -> (r: Result<CompactionResult, CompactionError>)
        ensures
            ended(self.summary@, r),
    {
        if self.summary.as_str().unicode_len() == 0 {
            Err(CompactionError::EmptySummary)
        } else {
            Ok(CompactionResult { summary: self.summary.clone() })
        }
    }

    /// Takes the next input. Text is added to the summary; the end of the answer ends the
    /// collecting with the summary, or with an error where it is empty; a failure or a cancellation
    /// ends it with an error; everything else is passed over.
    pub fn step(&mut self, input: SummaryInput) -> (r: Option<
        Result<CompactionResult, CompactionError>,
    >)
        ensures
            final(self).summary@ == (match input {
                SummaryInput::Event(AssistantEvent::TextDelta { text }) => old(self).summary@
                    + text@,
                _ => old(self).summary@,
            }),
            match input {
                SummaryInput::Cancelled => r matches Some(Err(e)) && e is Cancelled,
                SummaryInput::End => r matches Some(end) && ended(old(self).summary@, end),
                SummaryInput::Event(AssistantEvent::Done { .. }) => r matches Some(end) && ended(
                    old(self).summary@,
                    end,
                ),
                SummaryInput::Event(AssistantEvent::Error { message, aborted }) => r matches Some(
                    Err(CompactionError::Provider(e)),
                ) && e == (if aborted {
                    ProviderError::Aborted
                } else {
                    ProviderError::Request(message)
                }),
                _ => r is None,
            },
    {
        match input {
            SummaryInput::Cancelled => Some(Err(CompactionError::Cancelled)),
            SummaryInput::End => Some(self.end()),
            SummaryInput::Event(event) => match event {
                AssistantEvent::TextDelta { text } => {
                    self.summary.append(text.as_str());
                    None
                },
                AssistantEvent::Done { .. } => Some(self.end()),
                AssistantEvent::Error { message, aborted } => {
                    let e = if aborted {
                        ProviderError::Aborted
                    } else {
                        ProviderError::Request(message)
                    };
                    Some(Err(CompactionError::Provider(e)))
                },
                _ => None,
            },
        }
    }
}

/// The line of a part of a user message.
pub open spec fn user_part_line(c: UserContent) -> Seq<char> {
    match c {
        UserContent::Text { text } => text@,
        UserContent::Image(image) => "[image:"@ + image.mime_type@,
    }
}

/// The line of a part of a tool result.
pub open spec fn result_part_line(c: ToolResultContent) -> Seq<char> {
    match c {
        ToolResultContent::Text { text } => text@,
        ToolResultContent::Image(image) => "[image:"@ + image.mime_type@,
    }
}

/// The lines of the parts of an assistant message: thoughts are left out, and so are the
/// arguments of tool calls.
pub open spec fn assistant_lines(content: Seq<AssistantContent>) -> Seq<Seq<char>>
    decreases content.len(),
{
    if content.len() == 0 {
        Seq::empty()
    } else {
        let init = assistant_lines(content.drop_last());
        match content.last() {
            AssistantContent::Text { text } => init.push(text@),
            AssistantContent::Thinking { .. } => init,
            AssistantContent::ToolCall(call) => init.push("tool_call:"@ + call.name@),
        }
    }
}

/// The text form of a message.
pub open spec fn message_text(m: Message) -> Seq<char> {
    match m {
        Message::User(u) => "[user] "@ + text::join_spec(
            u.content@.map_values(|c: UserContent| user_part_line(c)),
            "\n"@,
        ),
        Message::Assistant(a) => "[assistant] "@ + text::join_spec(
            assistant_lines(a.content@),
            "\n"@,
        ),
        Message::ToolResult(t) => "[tool_result:"@ + t.tool_name@ + "] "@ + text::join_spec(
            t.content@.map_values(|c: ToolResultContent| result_part_line(c)),
            "\n"@,
        ),
    }
}

/// The text form of `messages`, one after the other.
pub fn format_messages_for_summary(messages: &[Arc<Message>]) -> (r: String)
    ensures
        r@ == text::join_spec(messages@.map_values(|m: Arc<Message>| message_text(*m)), "\n"@),
{
    let mut lines: Vec<String> = Vec::new();
    let mut i: usize = 0;
    while i < messages.len()
        invariant
            i <= messages@.len(),
            text::texts(lines@) == messages@.take(i as int).map_values(
                |m: Arc<Message>| message_text(*m),
            ),
        decreases messages@.len() - i,
    {
        let line = format_message_line(&messages[i]);
        let ghost before = lines@;
        lines.push(line);
        assert(text::texts(lines@) =~= text::texts(before).push(line@));
        assert(messages@.take(i + 1).map_values(|m: Arc<Message>| message_text(*m))
            =~= messages@.take(i as int).map_values(|m: Arc<Message>| message_text(*m)).push(
            line@,
        ));
        i += 1;
    }
    assert(messages@.take(messages@.len() as int) =~= messages@);
    text::join(&lines, "\n")
}

/// The text form of a message.
pub fn format_message_line(msg: &Message) -> (r: String)
    ensures
        r@ == message_text(*msg),
{
    match msg {
        Message::User(u) => "[user] ".to_owned().concat(user_body(u).as_str()),
        Message::Assistant(a) => "[assistant] ".to_owned().concat(assistant_body(a).as_str()),
        Message::ToolResult(t) => "[tool_result:".to_owned().concat(t.tool_name.as_str()).concat(
            "] ",
        ).concat(result_body(t).as_str()),
    }
}

fn user_body(u: &UserMessage) -> (r: String)
    ensures
        r@ == text::join_spec(
            u.content@.map_values(|c: UserContent| user_part_line(c)),
            "\n"@,
        ),
{
    let mut lines: Vec<String> = Vec::new();
    let mut i: usize = 0;
    while i < u.content.len()
        invariant
            i <= u.content@.len(),
            text::texts(lines@) == u.content@.take(i as int).map_values(
                |c: UserContent| user_part_line(c),
            ),
        decreases u.content@.len() - i,
    {
        let line = match &u.content[i] {
            UserContent::Text { text } => text.clone(),
            UserContent::Image(image) => "[image:".to_owned().concat(image.mime_type.as_str()),
        };
        let ghost before = lines@;
        lines.push(line);
        assert(text::texts(lines@) =~= text::texts(before).push(line@));
        assert(u.content@.take(i + 1).map_values(|c: UserContent| user_part_line(c))
            =~= u.content@.take(i as int).map_values(|c: UserContent| user_part_line(c)).push(
            line@,
        ));
        i += 1;
    }
    assert(u.content@.take(u.content@.len() as int) =~= u.content@);
    text::join(&lines, "\n")
}

fn assistant_body(a: &AssistantMessage) -> (r: String)
    ensures
        r@ == text::join_spec(assistant_lines(a.content@), "\n"@),
{
    let mut lines: Vec<String> = Vec::new();
    let mut i: usize = 0;
    while i < a.content.len()
        invariant
            i <= a.content@.len(),
            text::texts(lines@) == assistant_lines(a.content@.take(i as int)),
        decreases a.content@.len() - i,
    {
        let ghost before = lines@;
        assert(a.content@.take(i + 1).drop_last() =~= a.content@.take(i as int));
        match &a.content[i] {
            AssistantContent::Text { text } => {
                lines.push(text.clone());
                assert(text::texts(lines@) =~= text::texts(before).push(text@));
            },
            AssistantContent::Thinking { .. } => {},
            AssistantContent::ToolCall(call) => {
                let line = "tool_call:".to_owned().concat(call.name.as_str());
                lines.push(line);
                assert(text::texts(lines@) =~= text::texts(before).push(line@));
            },
        }
        i += 1;
    }
    assert(a.content@.take(a.content@.len() as int) =~= a.content@);
    text::join(&lines, "\n")
}

fn result_body(t: &ToolResultMessage) -> (r: String)
    ensures
        r@ == text::join_spec(
            t.content@.map_values(|c: ToolResultContent| result_part_line(c)),
            "\n"@,
        ),
{
    let mut lines: Vec<String> = Vec::new();
    let mut i: usize = 0;
    while i < t.content.len()
        invariant
            i <= t.content@.len(),
            text::texts(lines@) == t.content@.take(i as int).map_values(
                |c: ToolResultContent| result_part_line(c),
            ),
        decreases t.content@.len() - i,
    {
        let line = match &t.content[i] {
            ToolResultContent::Text { text } => text.clone(),
            ToolResultContent::Image(image) => "[image:".to_owned().concat(
                image.mime_type.as_str(),
            ),
        };
        let ghost before = lines@;
        lines.push(line);
        assert(text::texts(lines@) =~= text::texts(before).push(line@));
        assert(t.content@.take(i + 1).map_values(|c: ToolResultContent| result_part_line(c))
            =~= t.content@.take(i as int).map_values(
            |c: ToolResultContent| result_part_line(c),
        ).push(line@));
        i += 1;
    }
    assert(t.content@.take(t.content@.len() as int) =~= t.content@);
    text::join(&lines, "\n")
}

/// An assistant message is shown by its texts and the names of the tools that it calls, in their
/// order; thoughts are left out.
pub proof fn law_thoughts_are_left_out(content: Seq<AssistantContent>)
    ensures
        assistant_lines(content) == content.filter(
            |c: AssistantContent| !(c is Thinking),
        ).map_values(
            |c: AssistantContent|
                if c is Text {
                    c->Text_text@
                } else {
                    "tool_call:"@ + c->ToolCall_0.name@
                },
        ),
    decreases content.len(),
{
    reveal(Seq::filter);
    let keep = |c: AssistantContent| !(c is Thinking);
    let line = |c: AssistantContent|
        if c is Text {
            c->Text_text@
        } else {
            "tool_call:"@ + c->ToolCall_0.name@
        };
    if content.len() > 0 {
        let init = content.drop_last();
        law_thoughts_are_left_out(init);
        if !(content.last() is Thinking) {
            assert(content.filter(keep) == init.filter(keep).push(content.last()));
            assert(content.filter(keep).map_values(line) =~= init.filter(keep).map_values(line).push(
                line(content.last()),
            ));
        } else {
            assert(content.filter(keep) == init.filter(keep));
        }
    }
}

/// What is summed up has every text that was said: by whom is said first, and each part of a message
/// occurs in its text form.
pub proof fn law_text_form_shows_every_part(m: &Message, i: int)
    ensures
        m matches Message::User(u) ==> {
            &&& "[user] "@.is_prefix_of(message_text(*m))
            &&& 0 <= i < u.content@.len() ==> match u.content@[i] {
                UserContent::Text { text } => text::occurs(text@, message_text(*m)),
                UserContent::Image(image) => text::occurs(
                    "[image:"@ + image.mime_type@,
                    message_text(*m),
                ),
            }
        },
        m matches Message::Assistant(a) ==> {
            &&& "[assistant] "@.is_prefix_of(message_text(*m))
            &&& 0 <= i < a.content@.len() ==> match a.content@[i] {
                AssistantContent::Text { text } => text::occurs(text@, message_text(*m)),
                AssistantContent::ToolCall(call) => text::occurs(
                    "tool_call:"@ + call.name@,
                    message_text(*m),
                ),
                AssistantContent::Thinking { .. } => true,
            }
        },
        m matches Message::ToolResult(t) ==> {
            &&& ("[tool_result:"@ + t.tool_name@ + "] "@).is_prefix_of(message_text(*m))
            &&& 0 <= i < t.content@.len() ==> match t.content@[i] {
                ToolResultContent::Text { text } => text::occurs(text@, message_text(*m)),
                ToolResultContent::Image(image) => text::occurs(
                    "[image:"@ + image.mime_type@,
                    message_text(*m),
                ),
            }
        },
{
    match m {
        Message::User(u) => {
            let lines = u.content@.map_values(|c: UserContent| user_part_line(c));
            lemma_line_is_shown("[user] "@, lines, i);
        },
        Message::Assistant(a) => {
            let lines = assistant_lines(a.content@);
            lemma_line_is_shown("[assistant] "@, lines, 0);
            if 0 <= i < a.content@.len() && !(a.content@[i] is Thinking) {
                let k = lemma_assistant_line(a.content@, i);
                lemma_line_is_shown("[assistant] "@, lines, k);
            }
        },
        Message::ToolResult(t) => {
            let lines = t.content@.map_values(|c: ToolResultContent| result_part_line(c));
            lemma_line_is_shown("[tool_result:"@ + t.tool_name@ + "] "@, lines, i);
        },
    }
}

proof fn lemma_assistant_line(content: Seq<AssistantContent>, i: int) -> (k: int)
    requires
        0 <= i < content.len(),
        !(content[i] is Thinking),
    ensures
        0 <= k < assistant_lines(content).len(),
        content[i] matches AssistantContent::Text { text } ==> assistant_lines(content)[k]
            == text@,
        content[i] matches AssistantContent::ToolCall(call) ==> assistant_lines(content)[k]
            == "tool_call:"@ + call.name@,
    decreases content.len(),
{
    let init = content.drop_last();
    if i < init.len() {
        assert(init[i] == content[i]);
        lemma_assistant_line(init, i)
    } else {
        assistant_lines(init).len() as int
    }
}

proof fn lemma_line_is_shown(head: Seq<char>, lines: Seq<Seq<char>>, i: int)
    ensures
        head.is_prefix_of(head + text::join_spec(lines, "\n"@)),
        0 <= i < lines.len() ==> text::occurs(lines[i], head + text::join_spec(lines, "\n"@)),
{
    let body = text::join_spec(lines, "\n"@);
    assert(head + body =~= head + body + Seq::<char>::empty());
    assert((head + body).subrange(0, head.len() as int) =~= head);
    if 0 <= i < lines.len() {
        text::law_every_part_is_joined(lines, "\n"@, i);
        text::lemma_occurs_within(lines[i], head, body, Seq::<char>::empty());
    }
}

/// A summary is what was collected, all of it; an empty one is an error.
pub proof fn law_summary_is_what_was_collected(
    summary: Seq<char>,
    r: Result<CompactionResult, CompactionError>,
)
    requires
        ended(summary, r),
    ensures
        r is Ok <==> summary.len() > 0,
        r matches Ok(c) ==> c.summary@ == summary,
        r matches Err(e) ==> e is EmptySummary,
{
}

/// A summary is collected from all texts of the answer, in their order, and from nothing else; it ends
/// with the answer, with a failure, or when it is not wanted any more.
pub proof fn law_summary_collects_every_text()
    ensures
        forall|
            stream: &mut SummaryStream,
            input: SummaryInput,
            r: Option<Result<CompactionResult, CompactionError>>,
        | #[trigger]
            call_ensures(SummaryStream::step, (stream, input), r) ==> {
                let is_text = input is Event && input->Event_0 is TextDelta;
                &&& stream.summary@.is_prefix_of(final(stream).summary@)
                &&& is_text ==> final(stream).summary@.skip(stream.summary@.len() as int)
                    == (input->Event_0)->TextDelta_text@
                &&& !is_text ==> final(stream).summary@ == stream.summary@
                &&& r is Some <==> input is Cancelled || input is End || (input is Event && (
                input->Event_0 is Done || input->Event_0 is Error))
                &&& r matches Some(Ok(c)) ==> c.summary@ == stream.summary@ && c.summary@.len() > 0
                &&& input is Cancelled ==> (r matches Some(Err(e)) && e is Cancelled)
            },
{
    assert forall|
        stream: &mut SummaryStream,
        input: SummaryInput,
        r: Option<Result<CompactionResult, CompactionError>>,
    | #[trigger]
        call_ensures(SummaryStream::step, (stream, input), r) implies {
        let is_text = input is Event && input->Event_0 is TextDelta;
        &&& stream.summary@.is_prefix_of(final(stream).summary@)
        &&& is_text ==> final(stream).summary@.skip(stream.summary@.len() as int) == (
        input->Event_0)->TextDelta_text@
    } by {
        let n = stream.summary@.len() as int;
        assert(final(stream).summary@.subrange(0, n) =~= stream.summary@);
        if input is Event && input->Event_0 is TextDelta {
            assert(final(stream).summary@.skip(n) =~= (input->Event_0)->TextDelta_text@);
        }
    }
}

/// The request for a summary holds all messages that are to be summed up, in their order, and no
/// tools; without messages, and once the summary is not wanted any more, nothing is asked.
pub proof fn law_every_message_is_summed_up(
    compactor: LlmCompactor,
    messages: &[Arc<Message>],
    cancelled: bool,
    r: Result<ProviderRequest, CompactionError>,
)
    requires
        call_ensures(LlmCompactor::request, (&compactor, messages, cancelled), r),
    ensures
        r is Ok <==> messages@.len() > 0 && !cancelled,
        r matches Ok(q) ==> {
            &&& q.context.messages@.map_values(|m: Message| m@) == messages@.map_values(
                |m: Arc<Message>| m@,
            )
            &&& q.context.tools@.len() == 0
            &&& q.context.system_prompt@ == compactor.summary_prompt@
            &&& q.model == compactor.model
        },
{
    if let Ok(q) = r {
        let sent = q.context.messages@;
        assert(sent.map_values(|m: Message| m@) =~= messages@.map_values(|m: Arc<Message>| m@)) by {
            assert forall|i: int| 0 <= i < sent.len() implies (#[trigger] sent[i])@
                == messages@[i]@ by {}
        }
    }
}

} // verus!
