//! One turn: asking the provider, with retries, and collecting the answer that it streams.
//!
//! Only a request that could not be made is retried. A failure inside the stream ends the turn
//! with a message that says so.
use std::collections::VecDeque;
use std::sync::Arc;
use vstd::arithmetic::power2::*;
use vstd::prelude::*;
use vstd::string::*;

use crate::agent::AgentCommand;
use crate::event::AgentEvent;
use crate::message;
use crate::message::{
    AssistantContent, AssistantMessage, AssistantMessageView, AssistantPart, Message, ModelId,
    StopReason, ToolCall, ToolCallView,
};
use crate::provider::{AssistantEvent, ProviderError};
use crate::runtime::commands;
use crate::text;

verus! {

/// When a request that could not be made is made again. Delays are in nanoseconds.
#[derive(Debug, Clone, Copy)]
pub struct RetryPolicy {
    /// How often at most, not counting the first time.
    pub max_retries: u32,
    pub base_delay: u128,
    pub max_delay: u128,
}

/// What to do after a request could not be made.
#[derive(Debug)]
pub enum RetryStep {
    Fail(ProviderError),
    /// Wait, and ask again.
    Sleep { delay: u128 },
}

/// The delay before retry `attempt`: it doubles each time, up to the limit.
pub open spec fn backoff(base: nat, max: nat, attempt: nat) -> nat {
    if base * pow2(attempt) <= max {
        base * pow2(attempt)
    } else {
        max
    }
}

/// The delay before retry `attempt`.
pub fn backoff_delay(base: u128, max: u128, attempt: u32) -> (r: u128)
    ensures
        r == backoff(base as nat, max as nat, attempt as nat),
{
    proof {
        lemma2_to64();
    }
    if base == 0 {
        assert(0 * pow2(attempt as nat) == 0) by (nonlinear_arith);
        return 0;
    }
    if base > max {
        proof {
            lemma_backoff_capped(base as nat, max as nat, 0, attempt as nat);
        }
        return max;
    }
    let mut d: u128 = base;
    let mut i: u32 = 0;
    assert(d == base * pow2(0)) by {
        assert(pow2(0) == 1);
    }
    while i < attempt
        invariant
            i <= attempt,
            0 < d <= max,
            0 < base,
            d == base * pow2(i as nat),
        decreases attempt - i,
    {
        proof {
            lemma_pow2_unfold((i + 1) as nat);
            let p = pow2(i as nat);
            assert(base * (2 * p) == 2 * (base * p)) by (nonlinear_arith);
        }
        if d > max - d {
            proof {
                lemma_backoff_capped(base as nat, max as nat, (i + 1) as nat, attempt as nat);
            }
            return max;
        }
        d = d + d;
        i += 1;
    }
    d
}

proof fn lemma_backoff_capped(base: nat, max: nat, i: nat, attempt: nat)
    requires
        base * pow2(i) > max,
        i <= attempt,
    ensures
        base * pow2(attempt) > max,
    decreases attempt - i,
{
    if i < attempt {
        lemma_pow2_unfold(i + 1);
        let p = pow2(i);
        assert(base * (2 * p) == 2 * (base * p)) by (nonlinear_arith);
        lemma_backoff_capped(base, max, i + 1, attempt);
    }
}

/// Decides what follows a request that could not be made: nothing more if the run was cancelled
/// or the retries are used up, another try after a delay otherwise.
pub fn retry_step(policy: &RetryPolicy, attempt: u32, error: ProviderError, cancelled: bool) -> (r:
    RetryStep)
    ensures
        match r {
            RetryStep::Fail(e) => if cancelled {
                e is Aborted
            } else {
                attempt >= policy.max_retries && e == error
            },
            RetryStep::Sleep { delay } => {
                &&& !cancelled
                &&& attempt < policy.max_retries
                &&& delay == backoff(
                    policy.base_delay as nat,
                    policy.max_delay as nat,
                    attempt as nat,
                )
            },
        },
{
    if cancelled {
        return RetryStep::Fail(ProviderError::Aborted);
    }
    if attempt >= policy.max_retries {
        return RetryStep::Fail(error);
    }
    RetryStep::Sleep { delay: backoff_delay(policy.base_delay, policy.max_delay, attempt) }
}

/// The delays never shrink, and never pass the limit.
pub proof fn law_backoff_grows_to_its_limit(base: nat, max: nat, attempt: nat)
    ensures
        backoff(base, max, attempt) <= max,
        backoff(base, max, attempt) <= backoff(base, max, attempt + 1),
        base <= max ==> backoff(base, max, 0) == base,
{
    lemma2_to64();
    lemma_pow2_unfold(attempt + 1);
    let p = pow2(attempt);
    assert(base * (2 * p) == 2 * (base * p)) by (nonlinear_arith);
    assert(base * p >= 0) by (nonlinear_arith);
}

/// The result of a turn.
#[derive(Debug)]
pub struct TurnResult {
    pub assistant_message: AssistantMessage,
    pub tool_calls: Vec<ToolCall>,
    pub aborted: bool,
    /// Whether the agent was told to shut down during the turn.
    pub shutdown: bool,
}

/// What was collected of an answer: its text, its thoughts, its tool calls, and how it ended.
#[derive(Debug)]
pub struct TurnAccumulator {
    pub text: String,
    pub thinking: String,
    pub tool_calls: Vec<ToolCall>,
    pub current_tool: Option<ToolCall>,
    pub final_message: Option<AssistantMessage>,
    pub error_message: Option<String>,
    pub aborted: bool,
}

/// What was collected of an answer.
pub struct TurnView {
    pub text: Seq<char>,
    pub thinking: Seq<char>,
    pub tool_calls: Seq<ToolCallView>,
    pub current_tool: Option<ToolCallView>,
    pub final_message: Option<AssistantMessageView>,
    pub error_message: Option<Seq<char>>,
    pub aborted: bool,
}

impl View for TurnAccumulator {
    type V = TurnView;

    open spec fn view(&self) -> TurnView {
        TurnView {
            text: self.text@,
            thinking: self.thinking@,
            tool_calls: message::calls_view(self.tool_calls@),
            current_tool: match self.current_tool {
                Some(c) => Some(c@),
                None => None,
            },
            final_message: match self.final_message {
                Some(m) => Some(m@),
                None => None,
            },
            error_message: match self.error_message {
                Some(e) => Some(e@),
                None => None,
            },
            aborted: self.aborted,
        }
    }
}

impl TurnView {
    /// Nothing collected yet.
    pub open spec fn empty() -> TurnView {
        TurnView {
            text: Seq::empty(),
            thinking: Seq::empty(),
            tool_calls: Seq::empty(),
            current_tool: None,
            final_message: None,
            error_message: None,
            aborted: false,
        }
    }

    /// All tool calls so far, the open one last.
    pub open spec fn all_calls(self) -> Seq<ToolCallView> {
        match self.current_tool {
            Some(c) => self.tool_calls.push(c),
            None => self.tool_calls,
        }
    }

    /// What is collected after `event`. Text and thoughts grow. A tool call is opened by its
    /// start, which closes the one before it; it grows and is closed by the events with its id.
    pub open spec fn after(self, event: AssistantEvent) -> TurnView {
        match event {
            AssistantEvent::TextDelta { text } => TurnView { text: self.text + text@, ..self },
            AssistantEvent::ThinkingDelta { thinking } => TurnView {
                thinking: self.thinking + thinking@,
                ..self
            },
            AssistantEvent::ToolCallStart { id, name, arguments } => TurnView {
                tool_calls: self.all_calls(),
                current_tool: Some(
                    ToolCallView { id: id@, name: name@, arguments: arguments@ },
                ),
                ..self
            },
            AssistantEvent::ToolCallDelta { id, arguments_delta } => match self.current_tool {
                Some(c) if c.id == id@ => TurnView {
                    current_tool: Some(
                        ToolCallView {
                            id: c.id,
                            name: c.name,
                            arguments: c.arguments + arguments_delta@,
                        },
                    ),
                    ..self
                },
                _ => self,
            },
            AssistantEvent::ToolCallEnd { id } => match self.current_tool {
                Some(c) if c.id == id@ => TurnView {
                    tool_calls: self.all_calls(),
                    current_tool: None,
                    ..self
                },
                _ => self,
            },
            AssistantEvent::Done { message } => TurnView {
                final_message: Some(message@),
                ..self
            },
            AssistantEvent::Error { message, aborted } => TurnView {
                error_message: Some(message@),
                aborted,
                ..self
            },
        }
    }

    /// The parts of the message so far: thoughts, text, and the tool calls.
    pub open spec fn parts(self) -> Seq<AssistantPart> {
        assembled(self.thinking, self.text, self.all_calls())
    }
}

/// Whether the stream ends with `event`.
pub open spec fn is_terminal(event: AssistantEvent) -> bool {
    event is Done || event is Error
}

/// The parts of a message: thoughts and text where there are any, and then the tool calls.
pub open spec fn assembled(
    thinking: Seq<char>,
    text: Seq<char>,
    calls: Seq<ToolCallView>,
) -> Seq<AssistantPart> {
    (if thinking.len() > 0 {
        seq![AssistantPart::Thinking(thinking)]
    } else {
        Seq::empty()
    }) + (if text.len() > 0 {
        seq![AssistantPart::Text(text)]
    } else {
        Seq::empty()
    }) + calls.map_values(|c: ToolCallView| AssistantPart::ToolCall(c))
}

/// Whether `m` is an unfinished message of the model `model_id`: no usage, no stop reason, no
/// error.
pub open spec fn is_draft(m: AssistantMessage, model_id: Seq<char>) -> bool {
    &&& m.model matches Some(id)
    &&& id.0@ == model_id
    &&& m.usage is None
    &&& m.stop_reason is None
    &&& m.error_message is None
    &&& m.timestamp == 0
}

/// Builds the message of what was collected.
fn build_assistant(
    text: &str,
    thinking: &str,
    tool_calls: &Vec<ToolCall>,
    current_tool: &Option<ToolCall>,
    model_id: &str,
) -> (r: AssistantMessage)
    ensures
        is_draft(r, model_id@),
        message::parts_of(r.content@) == assembled(
            thinking@,
            text@,
            (match *current_tool {
                Some(c) => message::calls_view(tool_calls@).push(c@),
                None => message::calls_view(tool_calls@),
            }),
        ),
{
    let mut content: Vec<AssistantContent> = Vec::new();
    if !thinking.is_empty() {
        content.push(AssistantContent::Thinking { text: thinking.to_owned() });
    }
    if !text.is_empty() {
        content.push(AssistantContent::Text { text: text.to_owned() });
    }
    let ghost head = assembled(thinking@, text@, Seq::empty());
    assert(message::parts_of(content@) =~= head);
    let mut i: usize = 0;
    while i < tool_calls.len()
        invariant
            i <= tool_calls@.len(),
            head == assembled(thinking@, text@, Seq::empty()),
            message::parts_of(content@) == assembled(
                thinking@,
                text@,
                message::calls_view(tool_calls@.take(i as int)),
            ),
        decreases tool_calls@.len() - i,
    {
        let ghost before = content@;
        content.push(AssistantContent::ToolCall(tool_calls[i].clone()));
        proof {
            let part = AssistantPart::ToolCall(tool_calls@[i as int]@);
            assert(message::parts_of(content@) =~= message::parts_of(before).push(part));
            assert(message::calls_view(tool_calls@.take(i + 1)) =~= message::calls_view(
                tool_calls@.take(i as int),
            ).push(tool_calls@[i as int]@));
            lemma_assembled_push(
                thinking@,
                text@,
                message::calls_view(tool_calls@.take(i as int)),
                tool_calls@[i as int]@,
            );
        }
        i += 1;
    }
    assert(tool_calls@.take(tool_calls@.len() as int) =~= tool_calls@);
    match current_tool {
        Some(call) => {
            let ghost before = content@;
            content.push(AssistantContent::ToolCall(call.clone()));
            proof {
                assert(message::parts_of(content@) =~= message::parts_of(before).push(
                    AssistantPart::ToolCall(call@),
                ));
                lemma_assembled_push(
                    thinking@,
                    text@,
                    message::calls_view(tool_calls@),
                    call@,
                );
            }
        },
        None => {},
    }
    AssistantMessage {
        content,
        model: Some(ModelId(model_id.to_owned())),
        usage: None,
        stop_reason: None,
        error_message: None,
        timestamp: 0,
    }
}

proof fn lemma_assembled_push(
    thinking: Seq<char>,
    text: Seq<char>,
    calls: Seq<ToolCallView>,
    c: ToolCallView,
)
    ensures
        assembled(thinking, text, calls.push(c)) == assembled(thinking, text, calls).push(
            AssistantPart::ToolCall(c),
        ),
{
    assert(assembled(thinking, text, calls.push(c)) =~= assembled(thinking, text, calls).push(
        AssistantPart::ToolCall(c),
    ));
}

/// The tool calls among the parts of a message, in order.
pub open spec fn calls_of(content: Seq<AssistantContent>) -> Seq<ToolCall>
    decreases content.len(),
{
    if content.len() == 0 {
        Seq::empty()
    } else {
        match content.last() {
            AssistantContent::ToolCall(call) => calls_of(content.drop_last()).push(call),
            _ => calls_of(content.drop_last()),
        }
    }
}

/// No tool call of a message is lost, and none is made up: as parts of a message, those that are
/// taken out are the parts that are tool calls, in their order.
pub proof fn law_no_tool_call_is_lost(content: Seq<AssistantContent>)
    ensures
        calls_of(content).map_values(|c: ToolCall| AssistantContent::ToolCall(c))
            == content.filter(|c: AssistantContent| c is ToolCall),
        calls_of(content).len() == content.filter(|c: AssistantContent| c is ToolCall).len(),
        forall|i: int|
            0 <= i < content.len() ==> ((#[trigger] content[i]) matches AssistantContent::ToolCall(
                c,
            ) ==> calls_of(content).contains(c)),
    decreases content.len(),
{
    reveal(Seq::filter);
    let f = |c: ToolCall| AssistantContent::ToolCall(c);
    let p = |c: AssistantContent| c is ToolCall;
    if content.len() > 0 {
        let init = content.drop_last();
        law_no_tool_call_is_lost(init);
        if let AssistantContent::ToolCall(call) = content.last() {
            assert(calls_of(content).map_values(f) =~= calls_of(init).map_values(f).push(
                AssistantContent::ToolCall(call),
            ));
        }
        assert forall|i: int| 0 <= i < content.len() implies ((
        #[trigger] content[i]) matches AssistantContent::ToolCall(c) ==> calls_of(
            content,
        ).contains(c)) by {
            if let AssistantContent::ToolCall(c) = content[i] {
                if i < init.len() {
                    assert(init[i] == content[i]);
                    let k = choose|k: int| 0 <= k < calls_of(init).len() && calls_of(init)[k] == c;
                    assert(calls_of(content)[k] == c);
                } else {
                    assert(calls_of(content)[calls_of(init).len() as int] == c);
                }
            }
        }
    } else {
        assert(calls_of(content).map_values(f) =~= content.filter(p));
    }
}

/// The calls of a message that was put together are exactly those that it was put together from.
pub proof fn law_streamed_calls_are_taken_out(
    content: Seq<AssistantContent>,
    thinking: Seq<char>,
    text: Seq<char>,
    calls: Seq<ToolCallView>,
)
    requires
        message::parts_of(content) == assembled(thinking, text, calls),
    ensures
        message::calls_view(calls_of(content)) == calls,
    decreases calls.len(),
{
    let parts = message::parts_of(content);
    assert(parts.len() == content.len());
    if calls.len() == 0 {
        assert forall|i: int| 0 <= i < content.len() implies !(#[trigger] content[i] is ToolCall) by {
            assert(parts[i] == content[i]@);
        }
        lemma_no_calls(content);
        assert(message::calls_view(calls_of(content)) =~= calls);
    } else {
        let n = content.len() - 1;
        lemma_assembled_push(thinking, text, calls.drop_last(), calls.last());
        assert(calls.drop_last().push(calls.last()) =~= calls);
        assert(parts.last() == content[n]@);
        assert(message::parts_of(content.drop_last()) =~= parts.drop_last());
        assert(parts.drop_last() =~= assembled(thinking, text, calls.drop_last()));
        law_streamed_calls_are_taken_out(content.drop_last(), thinking, text, calls.drop_last());
        assert(message::calls_view(calls_of(content)) =~= message::calls_view(
            calls_of(content.drop_last()),
        ).push(calls.last()));
    }
}

proof fn lemma_no_calls(content: Seq<AssistantContent>)
    requires
        forall|i: int| 0 <= i < content.len() ==> !((#[trigger] content[i]) is ToolCall),
    ensures
        calls_of(content).len() == 0,
    decreases content.len(),
{
    if content.len() > 0 {
        assert(!(content[content.len() - 1] is ToolCall));
        assert forall|i: int| 0 <= i < content.drop_last().len() implies !((
        #[trigger] content.drop_last()[i]) is ToolCall) by {
            assert(!(content[i] is ToolCall));
        }
        lemma_no_calls(content.drop_last());
    }
}

/// A message that is put together leaves out nothing that was collected: it has the thoughts and
/// the text, where there are any, each in one part and in this order, and then every tool call.
pub proof fn law_message_holds_what_was_collected(
    thinking: Seq<char>,
    text: Seq<char>,
    calls: Seq<ToolCallView>,
)
    ensures
        ({
            let parts = assembled(thinking, text, calls);
            let front = parts.len() - calls.len();
            &&& front == (if thinking.len() > 0 {
                1int
            } else {
                0int
            }) + (if text.len() > 0 {
                1int
            } else {
                0int
            })
            &&& thinking.len() > 0 ==> parts[0] == AssistantPart::Thinking(thinking)
            &&& text.len() > 0 ==> parts[front - 1] == AssistantPart::Text(text)
            &&& forall|k: int|
                0 <= k < calls.len() ==> parts[front + k] == AssistantPart::ToolCall(
                    #[trigger] calls[k],
                )
        }),
{
}

/// The tool calls of a message.
pub fn extract_tool_calls(msg: &AssistantMessage) -> (r: Vec<ToolCall>)
    ensures
        r@ == calls_of(msg.content@),
        r@.map_values(|c: ToolCall| AssistantContent::ToolCall(c)) == msg.content@.filter(
            |c: AssistantContent| c is ToolCall,
        ),
{
    proof {
        law_no_tool_call_is_lost(msg.content@);
    }
    let mut out: Vec<ToolCall> = Vec::new();
    let mut i: usize = 0;
    while i < msg.content.len()
        invariant
            i <= msg.content@.len(),
            out@ == calls_of(msg.content@.take(i as int)),
        decreases msg.content@.len() - i,
    {
        assert(msg.content@.take(i + 1).drop_last() =~= msg.content@.take(i as int));
        match &msg.content[i] {
            AssistantContent::ToolCall(call) => out.push(call.clone()),
            _ => {},
        }
        i += 1;
    }
    assert(msg.content@.take(msg.content@.len() as int) =~= msg.content@);
    out
}

impl TurnAccumulator {
    /// Nothing collected yet.
    pub fn new() -> (r: Self)
        ensures
            r@ == TurnView::empty(),
    {
        let r = TurnAccumulator {
            text: String::new(),
            thinking: String::new(),
            tool_calls: Vec::new(),
            current_tool: None,
            final_message: None,
            error_message: None,
            aborted: false,
        };
        assert(r@.tool_calls =~= Seq::<ToolCallView>::empty());
        r
    }

    /// Moves the open tool call to the finished ones.
    fn close_tool(&mut self)
        ensures
            final(self)@ == (TurnView {
                tool_calls: old(self)@.all_calls(),
                current_tool: None,
                ..old(self)@
            }),
    {
        match self.current_tool.take() {
            Some(call) => {
                let ghost before = self.tool_calls@;
                self.tool_calls.push(call);
                assert(message::calls_view(self.tool_calls@) =~= message::calls_view(before).push(
                    call@,
                ));
            },
            None => {},
        }
    }

    /// Takes an event of the stream; tells whether the stream ends with it.
    pub fn handle_event(&mut self, event: &AssistantEvent) -> (r: bool)
        ensures
            final(self)@ == old(self)@.after(*event),
            r == is_terminal(*event),
    {
        match event {
            AssistantEvent::TextDelta { text } => {
                self.text.append(text.as_str());
                false
            },
            AssistantEvent::ThinkingDelta { thinking } => {
                self.thinking.append(thinking.as_str());
                false
            },
            AssistantEvent::ToolCallStart { id, name, arguments } => {
                self.close_tool();
                self.current_tool = Some(
                    ToolCall { id: id.clone(), name: name.clone(), arguments: arguments.clone() },
                );
                false
            },
            AssistantEvent::ToolCallDelta { id, arguments_delta } => {
                match self.current_tool.take() {
                    Some(call) => {
                        let mut call = call;
                        if text::str_eq(call.id.as_str(), id.as_str()) {
                            call.arguments.append(arguments_delta.as_str());
                        }
                        self.current_tool = Some(call);
                    },
                    None => {},
                }
                false
            },
            AssistantEvent::ToolCallEnd { id } => {
                let ends = match &self.current_tool {
                    Some(call) => text::str_eq(call.id.as_str(), id.as_str()),
                    None => false,
                };
                if ends {
                    self.close_tool();
                }
                false
            },
            AssistantEvent::Done { message } => {
                self.final_message = Some(message.clone());
                true
            },
            AssistantEvent::Error { message, aborted } => {
                self.error_message = Some(message.clone());
                self.aborted = *aborted;
                true
            },
        }
    }

    /// The message of what was collected so far.
    pub fn build_assistant(&self, model_id: &str) -> (r: AssistantMessage)
        ensures
            is_draft(r, model_id@),
            message::parts_of(r.content@) == self@.parts(),
    {
        build_assistant(
            self.text.as_str(),
            self.thinking.as_str(),
            &self.tool_calls,
            &self.current_tool,
            model_id,
        )
    }

    /// Ends the collecting. The message that the stream delivered stands as it is; otherwise the
    /// message is what was collected, and its stop reason says how it ended.
    pub fn finalize(&mut self, model_id: &str) -> (r: AssistantMessage)
        ensures
            final(self)@ == (TurnView {
                tool_calls: old(self)@.all_calls(),
                current_tool: None,
                ..old(self)@
            }),
            match old(self)@.final_message {
                Some(m) => r@ == m,
                None => is_ending(r, old(self)@, model_id@),
            },
    {
        self.close_tool();
        match &self.final_message {
            Some(msg) => {
                return msg.clone();
            },
            None => {},
        }
        let no_tool: Option<ToolCall> = None;
        let mut msg = build_assistant(
            self.text.as_str(),
            self.thinking.as_str(),
            &self.tool_calls,
            &no_tool,
            model_id,
        );
        if self.aborted {
            msg.stop_reason = Some(StopReason::Aborted);
        } else {
            match &self.error_message {
                Some(err) => {
                    msg.stop_reason = Some(StopReason::Error);
                    msg.error_message = Some(err.clone());
                },
                None => {
                    msg.stop_reason = Some(StopReason::Completed);
                },
            }
        }
        msg
    }
}

/// Whether `m` ends a turn in which `v` was collected and no message was delivered.
pub open spec fn is_ending(m: AssistantMessage, v: TurnView, model_id: Seq<char>) -> bool {
    &&& message::parts_of(m.content@) == v.parts()
    &&& m.model matches Some(id)
    &&& id.0@ == model_id
    &&& m.usage is None
    &&& m.timestamp == 0
    &&& if v.aborted {
        m.stop_reason == Some(StopReason::Aborted) && m.error_message is None
    } else {
        match v.error_message {
            Some(e) => m.stop_reason == Some(StopReason::Error) && (m.error_message matches Some(
                s,
            ) && s@ == e),
            None => m.stop_reason == Some(StopReason::Completed) && m.error_message is None,
        }
    }
}

/// What is collected after `events`.
pub open spec fn collected(events: Seq<AssistantEvent>) -> TurnView
    decreases events.len(),
{
    if events.len() == 0 {
        TurnView::empty()
    } else {
        collected(events.drop_last()).after(events.last())
    }
}

/// The text pieces of `events`, one after the other.
pub open spec fn text_of(events: Seq<AssistantEvent>) -> Seq<char>
    decreases events.len(),
{
    if events.len() == 0 {
        Seq::empty()
    } else {
        match events.last() {
            AssistantEvent::TextDelta { text } => text_of(events.drop_last()) + text@,
            _ => text_of(events.drop_last()),
        }
    }
}

/// The pieces of thought of `events`, one after the other.
pub open spec fn thinking_of(events: Seq<AssistantEvent>) -> Seq<char>
    decreases events.len(),
{
    if events.len() == 0 {
        Seq::empty()
    } else {
        match events.last() {
            AssistantEvent::ThinkingDelta { thinking } => thinking_of(events.drop_last())
                + thinking@,
            _ => thinking_of(events.drop_last()),
        }
    }
}

/// The number of tool calls that `events` start.
pub open spec fn starts_of(events: Seq<AssistantEvent>) -> nat
    decreases events.len(),
{
    if events.len() == 0 {
        0
    } else {
        starts_of(events.drop_last()) + (if events.last() is ToolCallStart {
            1nat
        } else {
            0nat
        })
    }
}

/// Collecting loses nothing: the text and the thoughts are all their pieces in order, and there
/// is one tool call for each that was started.
pub proof fn law_collecting_loses_nothing(events: Seq<AssistantEvent>)
    ensures
        collected(events).text == text_of(events),
        collected(events).thinking == thinking_of(events),
        collected(events).all_calls().len() == starts_of(events),
    decreases events.len(),
{
    if events.len() > 0 {
        law_collecting_loses_nothing(events.drop_last());
    }
}

/// A tool call that is streamed by itself comes out whole: started with `arguments`, continued by
/// the pieces with its id, it holds them all in order.
pub proof fn law_tool_call_arguments_are_joined(
    v: TurnView,
    start: AssistantEvent,
    delta: AssistantEvent,
    end: AssistantEvent,
)
    requires
        start is ToolCallStart,
        delta is ToolCallDelta,
        end is ToolCallEnd,
        start->ToolCallStart_id@ == delta->ToolCallDelta_id@,
        start->ToolCallStart_id@ == end->ToolCallEnd_id@,
    ensures
        ({
            let w = v.after(start).after(delta).after(end);
            &&& w.current_tool is None
            &&& w.tool_calls == v.all_calls().push(
                ToolCallView {
                    id: start->ToolCallStart_id@,
                    name: start->name@,
                    arguments: start->arguments@ + delta->arguments_delta@,
                },
            )
        }),
{
}

/// The events that start a tool call, in order.
pub open spec fn call_starts(events: Seq<AssistantEvent>) -> Seq<AssistantEvent> {
    events.filter(|e: AssistantEvent| e is ToolCallStart)
}

/// Each tool call that was started is there under its id and its name, in the order of the starts,
/// and its arguments begin with those that it was started with.
pub proof fn law_calls_are_as_they_were_started(events: Seq<AssistantEvent>)
    ensures
        collected(events).all_calls().len() == call_starts(events).len(),
        forall|k: int|
            0 <= k < call_starts(events).len() ==> ({
                let call = collected(events).all_calls()[k];
                let start = #[trigger] call_starts(events)[k];
                &&& call.id == start->ToolCallStart_id@
                &&& call.name == start->name@
                &&& start->arguments@.is_prefix_of(call.arguments)
            }),
    decreases events.len(),
{
    reveal(Seq::filter);
    if events.len() > 0 {
        let init = events.drop_last();
        law_calls_are_as_they_were_started(init);
        let v = collected(init);
        let w = collected(events);
        let e = events.last();
        let starts = call_starts(events);
        assert forall|k: int| 0 <= k < starts.len() implies ({
            let call = w.all_calls()[k];
            let start = #[trigger] starts[k];
            &&& call.id == start->ToolCallStart_id@
            &&& call.name == start->name@
            &&& start->arguments@.is_prefix_of(call.arguments)
        }) by {
            let start = starts[k];
            if k < call_starts(init).len() {
                let before = v.all_calls()[k];
                assert(start == call_starts(init)[k]);
                assert(start->arguments@.is_prefix_of(before.arguments));
                if e is ToolCallDelta && w.all_calls()[k] != before {
                    let piece = e->arguments_delta@;
                    assert(w.all_calls()[k].arguments == before.arguments + piece);
                    assert(start->arguments@ =~= (before.arguments + piece).subrange(
                        0,
                        start->arguments@.len() as int,
                    ));
                }
            } else {
                assert(start == e);
                assert(w.all_calls()[k].arguments.subrange(0, start->arguments@.len() as int)
                    =~= start->arguments@);
            }
        }
    }
}

/// A piece of arguments goes to the open tool call whose id it has, and behind what that call has
/// already; it changes no other call. A piece with another id changes nothing.
pub proof fn law_pieces_go_to_their_call(v: TurnView, delta: AssistantEvent)
    requires
        delta is ToolCallDelta,
    ensures
        ({
            let w = v.after(delta);
            &&& w.all_calls().len() == v.all_calls().len()
            &&& w.tool_calls == v.tool_calls
            &&& w.text == v.text && w.thinking == v.thinking
            &&& match v.current_tool {
                Some(c) if c.id == delta->ToolCallDelta_id@ => {
                    &&& w.all_calls().last().arguments == c.arguments + delta->arguments_delta@
                    &&& w.all_calls().last().id == c.id
                    &&& w.all_calls().last().name == c.name
                },
                _ => w.all_calls() == v.all_calls(),
            }
        }),
{
}

/// A stream that ends well ends with the message that it delivers; one that fails keeps the text of
/// the failure; and events in between decide neither.
pub proof fn law_last_event_tells_how_it_ended(events: Seq<AssistantEvent>, last: AssistantEvent)
    ensures
        ({
            let before = collected(events);
            let after = collected(events.push(last));
            &&& last matches AssistantEvent::Done { message } ==> after.final_message == Some(
                message@,
            ) && after.aborted == before.aborted
            &&& last matches AssistantEvent::Error { message, aborted } ==> after.error_message
                == Some(message@) && after.aborted == aborted && after.final_message
                == before.final_message
            &&& !(last is Done) && !(last is Error) ==> after.final_message
                == before.final_message && after.error_message == before.error_message
                && after.aborted == before.aborted
        }),
{
    assert(events.push(last).drop_last() =~= events);
}

/// A message that ends a turn tells how it went: it says that it is complete just where nothing
/// failed and nobody stopped it, it has the text of the failure, and it holds all that was
/// collected.
pub proof fn law_ending_tells_how_it_went(
    m: AssistantMessage,
    v: TurnView,
    model_id: Seq<char>,
)
    requires
        is_ending(m, v, model_id),
    ensures
        m.stop_reason == Some(StopReason::Completed) <==> !v.aborted && v.error_message is None,
        m.stop_reason == Some(StopReason::Aborted) <==> v.aborted,
        m.stop_reason == Some(StopReason::Error) <==> !v.aborted && v.error_message is Some,
        m.error_message is Some <==> !v.aborted && v.error_message is Some,
        m.error_message matches Some(e) ==> Some(e@) == v.error_message,
        message::parts_of(m.content@) == assembled(v.thinking, v.text, v.all_calls()),
        message::calls_view(calls_of(m.content@)) == v.all_calls(),
{
    law_streamed_calls_are_taken_out(m.content@, v.thinking, v.text, v.all_calls());
}

/// Each delay is twice the one before it, up to the limit.
pub proof fn law_delays_double(base: nat, max: nat, attempt: nat)
    ensures
        backoff(base, max, 0) == if base <= max {
            base
        } else {
            max
        },
        backoff(base, max, attempt + 1) == if 2 * backoff(base, max, attempt) <= max {
            2 * backoff(base, max, attempt)
        } else {
            max
        },
{
    lemma2_to64();
    lemma_pow2_unfold(attempt + 1);
    let p = pow2(attempt);
    assert(base * (2 * p) == 2 * (base * p)) by (nonlinear_arith);
    assert(base * p >= 0) by (nonlinear_arith);
    assert(base * 1 == base);
}

/// A request that could not be made ends the turn with an empty message that says why.
pub fn stream_failure_result(model_id: &str, e: ProviderError, cancelled: bool) -> (r: TurnResult)
    ensures
        r.aborted == (e is Aborted || cancelled),
        !r.shutdown,
        r.tool_calls@.len() == 0,
        r.assistant_message.content@.len() == 0,
        r.assistant_message.model matches Some(id) && id.0@ == model_id@,
        r.assistant_message.usage is None,
        r.assistant_message.timestamp == 0,
        r.assistant_message.stop_reason == Some(
            (if r.aborted {
                StopReason::Aborted
            } else {
                StopReason::Error
            }),
        ),
        match r.assistant_message.error_message {
            Some(s) => !r.aborted && s@ == e.text(),
            None => r.aborted,
        },
{
    let aborted = cancelled || match &e {
        ProviderError::Aborted => true,
        _ => false,
    };
    let error_message = if aborted {
        None
    } else {
        Some(e.message())
    };
    TurnResult {
        assistant_message: AssistantMessage {
            content: Vec::new(),
            model: Some(ModelId(model_id.to_owned())),
            usage: None,
            stop_reason: Some(commands::stop_reason_for_error(aborted)),
            error_message,
            timestamp: 0,
        },
        tool_calls: Vec::new(),
        aborted,
        shutdown: false,
    }
}

/// A turn whose answer is being streamed.
#[derive(Debug)]
pub struct TurnStream {
    pub acc: TurnAccumulator,
    pub model_id: String,
    pub shutdown: bool,
}

/// What to do after an event of the stream.
#[derive(Debug)]
pub enum StreamStep {
    /// Stop reading the stream.
    Stop,
    /// Report the event and read on.
    Update(AgentEvent),
}

impl TurnStream {
    /// Begins a turn: reports an empty message.
    pub fn begin(model_id: &str) -> (r: (Self, AgentEvent))
        ensures
            r.0.acc@ == TurnView::empty(),
            r.0.model_id@ == model_id@,
            !r.0.shutdown,
            r.1 matches AgentEvent::MessageStart { message } && (*message matches Message::Assistant(
                a,
            ) && is_draft(a, model_id@) && a.content@.len() == 0),
    {
        let first = AssistantMessage {
            content: Vec::new(),
            model: Some(ModelId(model_id.to_owned())),
            usage: None,
            stop_reason: None,
            error_message: None,
            timestamp: 0,
        };
        (
            TurnStream {
                acc: TurnAccumulator::new(),
                model_id: model_id.to_owned(),
                shutdown: false,
            },
            AgentEvent::MessageStart { message: Arc::new(Message::Assistant(first)) },
        )
    }

    /// Takes an event of the stream, after the commands that arrived meanwhile. A stop among them
    /// ends the turn before the event is looked at; messages go back into the queue. Otherwise
    /// the event is collected and, unless it is the last one, reported with the message so far.
    pub fn on_event(
        &mut self,
        event: AssistantEvent,
        received: Vec<AgentCommand>,
        queue: &mut VecDeque<AgentCommand>,
    ) -> (r: StreamStep)
        ensures
            final(queue)@ == old(queue)@ + commands::waiting(received@) + commands::as_steers(
                commands::steers(received@),
            ) + commands::as_followups(commands::followups(received@)),
            final(self).model_id == old(self).model_id,
            ({
                let stopped = commands::has_abort(received@) || commands::has_shutdown(received@);
                &&& stopped ==> {
                    &&& r is Stop
                    &&& final(self).acc@ == (TurnView { aborted: true, ..old(self).acc@ })
                    &&& final(self).shutdown == commands::has_shutdown(received@)
                }
                &&& !stopped ==> {
                    &&& final(self).acc@ == old(self).acc@.after(event)
                    &&& final(self).shutdown == old(self).shutdown
                    &&& r is Stop <==> is_terminal(event)
                    &&& !is_terminal(event) ==> is_update(
                        r,
                        final(self).acc@,
                        event,
                        old(self).model_id@,
                    )
                }
            }),
    {
        let d = commands::drain_commands(received, queue);
        commands::requeue(d.steer, d.followup, queue);
        if d.aborted || d.shutdown {
            self.acc.aborted = true;
            self.shutdown = d.shutdown;
            return StreamStep::Stop;
        }
        if self.acc.handle_event(&event) {
            return StreamStep::Stop;
        }
        let current = self.acc.build_assistant(self.model_id.as_str());
        StreamStep::Update(
            AgentEvent::MessageUpdate {
                message: Arc::new(Message::Assistant(current)),
                assistant_event: event,
            },
        )
    }

    /// The run was cancelled while the stream was silent.
    pub fn on_cancelled(&mut self)
        ensures
            final(self).acc@ == (TurnView { aborted: true, ..old(self).acc@ }),
            final(self).model_id == old(self).model_id,
            final(self).shutdown == old(self).shutdown,
    {
        self.acc.aborted = true;
    }

    /// Ends the turn: the final message, its tool calls, and the report of its end.
    pub fn finish(self) -> (r: (TurnResult, AgentEvent))
        ensures
            r.0.aborted == self.acc.aborted,
            r.0.shutdown == self.shutdown,
            r.0.tool_calls@ == calls_of(r.0.assistant_message.content@),
            r.0.tool_calls@.map_values(|c: ToolCall| AssistantContent::ToolCall(c))
                == r.0.assistant_message.content@.filter(|c: AssistantContent| c is ToolCall),
            match self.acc@.final_message {
                Some(m) => r.0.assistant_message@ == m,
                None => is_ending(r.0.assistant_message, self.acc@, self.model_id@),
            },
            r.1 matches AgentEvent::MessageEnd { message } && message@
                == message::MessageView::Assistant(r.0.assistant_message@),
    {
        let mut acc = self.acc;
        let aborted = acc.aborted;
        let assistant_message = acc.finalize(self.model_id.as_str());
        let tool_calls = extract_tool_calls(&assistant_message);
        let event = AgentEvent::MessageEnd {
            message: Arc::new(Message::Assistant(assistant_message.clone())),
        };
        (TurnResult { assistant_message, tool_calls, aborted, shutdown: self.shutdown }, event)
    }
}

/// Whether `r` reports `event` with the message collected in `v`.
pub open spec fn is_update(
    r: StreamStep,
    v: TurnView,
    event: AssistantEvent,
    model_id: Seq<char>,
) -> bool {
    &&& r matches StreamStep::Update(AgentEvent::MessageUpdate { message, assistant_event })
    &&& assistant_event == event
    &&& *message matches Message::Assistant(a)
    &&& is_draft(a, model_id)
    &&& message::parts_of(a.content@) == v.parts()
}

/// A stop that arrives while an answer is streamed ends it at once, and the event that came with it is
/// not looked at; without one every event is collected, and only the last one ends the stream. The
/// commands that arrive wait behind those that wait already, and none but the stops is lost.
pub proof fn law_stop_ends_the_stream()
    ensures
        forall|
            stream: &mut TurnStream,
            event: AssistantEvent,
            received: Vec<AgentCommand>,
            queue: &mut VecDeque<AgentCommand>,
            r: StreamStep,
        | #[trigger]
            call_ensures(TurnStream::on_event, (stream, event, received, queue), r) ==> {
                let stopped = exists|i: int|
                    0 <= i < received@.len() && ((#[trigger] received@[i]) is Abort
                        || received@[i] is Shutdown);
                &&& stopped ==> r is Stop && final(stream).acc.aborted
                &&& stopped ==> final(stream).acc@.parts() == stream.acc@.parts()
                &&& stopped ==> (final(stream).shutdown <==> exists|i: int|
                    0 <= i < received@.len() && (#[trigger] received@[i]) is Shutdown)
                &&& !stopped ==> final(stream).acc@ == stream.acc@.after(event)
                &&& !stopped ==> (r is Stop <==> event is Done || event is Error)
                &&& queue@.is_prefix_of(final(queue)@)
                &&& final(queue)@.to_multiset() == queue@.to_multiset().add(
                    received@.filter(
                        |c: AgentCommand| !(c is Abort) && !(c is Shutdown),
                    ).to_multiset(),
                )
            },
{
    assert forall|
        stream: &mut TurnStream,
        event: AssistantEvent,
        received: Vec<AgentCommand>,
        queue: &mut VecDeque<AgentCommand>,
        r: StreamStep,
    | #[trigger]
        call_ensures(TurnStream::on_event, (stream, event, received, queue), r) implies {
        let stopped = exists|i: int|
            0 <= i < received@.len() && ((#[trigger] received@[i]) is Abort
                || received@[i] is Shutdown);
        &&& stopped ==> r is Stop && final(stream).acc.aborted
        &&& stopped ==> final(stream).acc@.parts() == stream.acc@.parts()
        &&& stopped ==> (final(stream).shutdown <==> exists|i: int|
            0 <= i < received@.len() && (#[trigger] received@[i]) is Shutdown)
        &&& !stopped ==> final(stream).acc@ == stream.acc@.after(event)
        &&& !stopped ==> (r is Stop <==> event is Done || event is Error)
        &&& queue@.is_prefix_of(final(queue)@)
        &&& final(queue)@.to_multiset() == queue@.to_multiset().add(
            received@.filter(
                |c: AgentCommand| !(c is Abort) && !(c is Shutdown),
            ).to_multiset(),
        )
    } by {
        lemma_waiting_commands(queue@, received@);
        if exists|i: int|
            0 <= i < received@.len() && ((#[trigger] received@[i]) is Abort
                || received@[i] is Shutdown) {
            let i = choose|i: int|
                0 <= i < received@.len() && ((#[trigger] received@[i]) is Abort
                    || received@[i] is Shutdown);
            assert(received@[i] is Abort || received@[i] is Shutdown);
            assert(commands::has_abort(received@) || commands::has_shutdown(received@));
        }
    }
}

proof fn lemma_waiting_commands(queue: Seq<AgentCommand>, received: Seq<AgentCommand>)
    ensures
        ({
            let w = commands::waiting(received);
            let s = commands::as_steers(commands::steers(received));
            let f = commands::as_followups(commands::followups(received));
            &&& queue.is_prefix_of(queue + w + s + f)
            &&& (queue + w + s + f).to_multiset() == queue.to_multiset().add(
                received.filter(
                    |c: AgentCommand| !(c is Abort) && !(c is Shutdown),
                ).to_multiset(),
            )
        }),
{
    let w = commands::waiting(received);
    let s = commands::as_steers(commands::steers(received));
    let f = commands::as_followups(commands::followups(received));
    let r = queue + w + s + f;
    assert(r.subrange(0, queue.len() as int) =~= queue);
    commands::law_sorting_keeps_every_command(received);
    vstd::seq_lib::lemma_multiset_commutative(queue, w);
    vstd::seq_lib::lemma_multiset_commutative(queue + w, s);
    vstd::seq_lib::lemma_multiset_commutative(queue + w + s, f);
    assert(r.to_multiset() =~= queue.to_multiset().add(
        received.filter(|c: AgentCommand| !(c is Abort) && !(c is Shutdown)).to_multiset(),
    ));
}

/// A request is made again as often as the policy says and no more, unless the run was cancelled; the
/// error of the last try is passed on. No delay passes the limit.
pub proof fn law_retries_are_limited(
    policy: RetryPolicy,
    attempt: u32,
    error: ProviderError,
    cancelled: bool,
    r: RetryStep,
)
    requires
        call_ensures(retry_step, (&policy, attempt, error, cancelled), r),
    ensures
        r is Sleep <==> !cancelled && attempt < policy.max_retries,
        r matches RetryStep::Sleep { delay } ==> delay <= policy.max_delay,
        r matches RetryStep::Sleep { delay } ==> delay >= policy.base_delay || delay
            == policy.max_delay,
        r matches RetryStep::Fail(e) && !cancelled ==> r == RetryStep::Fail(error),
        cancelled ==> r == RetryStep::Fail(ProviderError::Aborted),
{
    law_backoff_grows_to_its_limit(
        policy.base_delay as nat,
        policy.max_delay as nat,
        attempt as nat,
    );
    lemma2_to64();
    lemma_pow2_pos(attempt as nat);
    let p = pow2(attempt as nat);
    let b = policy.base_delay as nat;
    assert(b * p >= b) by (nonlinear_arith)
        requires
            p >= 1,
    ;
}

/// A request that could not be made shows as an answer without content that tells why: whether it was
/// cancelled, or else the error.
pub proof fn law_failed_request_is_told(
    model_id: &str,
    error: ProviderError,
    cancelled: bool,
    r: TurnResult,
)
    requires
        call_ensures(stream_failure_result, (model_id, error, cancelled), r),
    ensures
        r.aborted <==> cancelled || error is Aborted,
        r.tool_calls@.len() == 0 && r.assistant_message.content@.len() == 0,
        r.assistant_message.error_message is Some <==> !r.aborted,
        !r.aborted ==> r.assistant_message.error_message->0@ == error.text(),
        r.assistant_message.stop_reason == Some(StopReason::Aborted) <==> r.aborted,
        r.assistant_message.stop_reason == Some(StopReason::Error) <==> !r.aborted,
{
}

/// Each event is reported as it came, with all that was collected so far, in a message that is marked
/// as not finished.
pub proof fn law_event_is_reported_with_the_message_so_far(
    r: StreamStep,
    v: TurnView,
    event: AssistantEvent,
    model_id: Seq<char>,
)
    requires
        is_update(r, v, event, model_id),
    ensures
        r matches StreamStep::Update(AgentEvent::MessageUpdate { message, assistant_event })
            && assistant_event == event && {
            &&& (*message) is Assistant
            &&& (*message)->Assistant_0.stop_reason is None
            &&& (*message)->Assistant_0.error_message is None
            &&& (*message)->Assistant_0.usage is None
            &&& (*message)->Assistant_0.content@.len() == v.tool_calls.len() + (
            if v.current_tool is Some {
                1int
            } else {
                0int
            }) + (if v.text.len() > 0 {
                1int
            } else {
                0int
            }) + (if v.thinking.len() > 0 {
                1int
            } else {
                0int
            })
        },
{
    assert(message::parts_of(
        (*(r->Update_0->MessageUpdate_message))->Assistant_0.content@,
    ).len() == v.parts().len());
}

} // verus!
