//! The context of a request: estimating tokens, cutting a transcript to a budget, and planning
//! when older messages are to be replaced by a summary.
//!
//! A plan never changes the transcript by itself. Only a plan that carries a commit does, once
//! the commit is applied; where compaction is cancelled or fails, nothing is lost.
use std::sync::Arc;
use vstd::prelude::*;
use vstd::string::*;

use crate::compactor::{CompactionError, CompactionResult};
use crate::message::{
    AssistantContent, AssistantMessage, Message, ToolResultContent, ToolResultMessage, UserContent,
    UserMessage,
};
use crate::text;

verus! {

/// The smaller of two numbers.
pub open spec fn least(a: nat, b: nat) -> nat {
    if a <= b {
        a
    } else {
        b
    }
}

/// The rough number of tokens of a text: a quarter of its bytes, and one more. The length is
/// taken as a 32 bit number.
pub open spec fn tokens_of(s: Seq<char>) -> nat {
    (text::byte_len_spec(s) % 0x1_0000_0000) / 4 + 1
}

/// Estimates the tokens of a text.
pub fn estimate_tokens(text: &str) -> (r: u32)
    ensures
        r == tokens_of(text@),
{
    let len: usize = text::byte_len(text);
    let low: u64 = (len as u64) % 0x1_0000_0000;
    (low / 4 + 1) as u32
}

/// The tokens of a part of a user message.
pub open spec fn user_part_tokens(c: UserContent) -> nat {
    match c {
        UserContent::Text { text } => tokens_of(text@),
        UserContent::Image(image) => tokens_of(image.data@) + 8,
    }
}

/// The tokens of a part of an assistant message.
pub open spec fn assistant_part_tokens(c: AssistantContent) -> nat {
    match c {
        AssistantContent::Text { text } => tokens_of(text@),
        AssistantContent::Thinking { text } => tokens_of(text@),
        AssistantContent::ToolCall(call) => tokens_of(call.name@) + tokens_of(call.arguments@),
    }
}

/// The tokens of a part of a tool result.
pub open spec fn result_part_tokens(c: ToolResultContent) -> nat {
    match c {
        ToolResultContent::Text { text } => tokens_of(text@),
        ToolResultContent::Image(image) => tokens_of(image.data@) + 8,
    }
}

/// The sum of `parts`.
pub open spec fn sum(parts: Seq<nat>) -> nat
    decreases parts.len(),
{
    if parts.len() == 0 {
        0
    } else {
        sum(parts.drop_last()) + parts.last()
    }
}

/// The tokens of all parts of a message.
pub open spec fn message_sum(m: Message) -> nat {
    match m {
        Message::User(u) => sum(u.content@.map_values(|c: UserContent| user_part_tokens(c))),
        Message::Assistant(a) => sum(
            a.content@.map_values(|c: AssistantContent| assistant_part_tokens(c)),
        ),
        Message::ToolResult(t) => tokens_of(t.tool_name@) + sum(
            t.content@.map_values(|c: ToolResultContent| result_part_tokens(c)),
        ),
    }
}

/// The tokens of a message, at most the largest 32 bit number.
pub open spec fn message_tokens(m: Message) -> nat {
    least(message_sum(m), u32::MAX as nat)
}

fn plus(a: u32, b: u32) -> (r: u32)
    ensures
        r == least((a + b) as nat, u32::MAX as nat),
{
    if a > u32::MAX - b {
        u32::MAX
    } else {
        a + b
    }
}

fn estimate_user_tokens(u: &UserMessage) -> (r: u32)
    ensures
        r == message_tokens(Message::User(*u)),
{
    let mut acc: u32 = 0;
    let mut i: usize = 0;
    while i < u.content.len()
        invariant
            i <= u.content@.len(),
            acc == least(
                sum(u.content@.take(i as int).map_values(|c: UserContent| user_part_tokens(c))),
                u32::MAX as nat,
            ),
        decreases u.content@.len() - i,
    {
        let part: u32 = match &u.content[i] {
            UserContent::Text { text } => estimate_tokens(text.as_str()),
            UserContent::Image(image) => estimate_tokens(image.data.as_str()) + 8,
        };
        proof {
            let f = |c: UserContent| user_part_tokens(c);
            let after = u.content@.take(i + 1).map_values(f);
            assert(after.drop_last() =~= u.content@.take(i as int).map_values(f));
            assert(after.last() == user_part_tokens(u.content@[i as int]));
        }
        acc = plus(acc, part);
        i += 1;
    }
    assert(u.content@.take(u.content@.len() as int) =~= u.content@);
    acc
}

fn estimate_assistant_tokens(a: &AssistantMessage) -> (r: u32)
    ensures
        r == message_tokens(Message::Assistant(*a)),
{
    let mut acc: u32 = 0;
    let mut i: usize = 0;
    while i < a.content.len()
        invariant
            i <= a.content@.len(),
            acc == least(
                sum(
                    a.content@.take(i as int).map_values(
                        |c: AssistantContent| assistant_part_tokens(c),
                    ),
                ),
                u32::MAX as nat,
            ),
        decreases a.content@.len() - i,
    {
        let part: u32 = match &a.content[i] {
            AssistantContent::Text { text } => estimate_tokens(text.as_str()),
            AssistantContent::Thinking { text } => estimate_tokens(text.as_str()),
            AssistantContent::ToolCall(call) => estimate_tokens(call.name.as_str())
                + estimate_tokens(call.arguments.as_str()),
        };
        proof {
            let f = |c: AssistantContent| assistant_part_tokens(c);
            let after = a.content@.take(i + 1).map_values(f);
            assert(after.drop_last() =~= a.content@.take(i as int).map_values(f));
            assert(after.last() == assistant_part_tokens(a.content@[i as int]));
        }
        acc = plus(acc, part);
        i += 1;
    }
    assert(a.content@.take(a.content@.len() as int) =~= a.content@);
    acc
}

fn estimate_result_tokens(t: &ToolResultMessage) -> (r: u32)
    ensures
        r == message_tokens(Message::ToolResult(*t)),
{
    let mut acc: u32 = estimate_tokens(t.tool_name.as_str());
    let mut i: usize = 0;
    while i < t.content.len()
        invariant
            i <= t.content@.len(),
            acc == least(
                tokens_of(t.tool_name@) + sum(
                    t.content@.take(i as int).map_values(
                        |c: ToolResultContent| result_part_tokens(c),
                    ),
                ),
                u32::MAX as nat,
            ),
        decreases t.content@.len() - i,
    {
        let part: u32 = match &t.content[i] {
            ToolResultContent::Text { text } => estimate_tokens(text.as_str()),
            ToolResultContent::Image(image) => estimate_tokens(image.data.as_str()) + 8,
        };
        proof {
            let f = |c: ToolResultContent| result_part_tokens(c);
            let after = t.content@.take(i + 1).map_values(f);
            assert(after.drop_last() =~= t.content@.take(i as int).map_values(f));
            assert(after.last() == result_part_tokens(t.content@[i as int]));
        }
        acc = plus(acc, part);
        i += 1;
    }
    assert(t.content@.take(t.content@.len() as int) =~= t.content@);
    acc
}

/// Estimates the tokens of a message.
pub fn estimate_message_tokens(msg: &Message) -> (r: u32)
    ensures
        r == message_tokens(*msg),
{
    match msg {
        Message::User(u) => estimate_user_tokens(u),
        Message::Assistant(a) => estimate_assistant_tokens(a),
        Message::ToolResult(t) => estimate_result_tokens(t),
    }
}

/// What the model reported for the request that ended with this message.
pub open spec fn reported(m: Message) -> Option<u64> {
    match m {
        Message::Assistant(a) => match a.usage {
            Some(usage) => Some(usage.total_tokens),
            None => None,
        },
        _ => None,
    }
}

/// The tokens of a request with `messages`: what the model reported last, which covers all that
/// came before it, and the estimates of the messages after that. Where nothing was reported, the
/// estimates of all messages on top of `overhead`. At most the largest 64 bit number.
pub open spec fn total_tokens(messages: Seq<Arc<Message>>, overhead: nat) -> nat
    decreases messages.len(),
{
    if messages.len() == 0 {
        least(overhead, u64::MAX as nat)
    } else {
        match reported(*messages.last()) {
            Some(n) => n as nat,
            None => least(
                total_tokens(messages.drop_last(), overhead) + message_tokens(*messages.last()),
                u64::MAX as nat,
            ),
        }
    }
}

/// Estimates the tokens of a request with `messages` and a fixed overhead.
pub fn estimate_total(messages: &[Arc<Message>], fixed_overhead: u32) -> (r: u64)
    ensures
        r == total_tokens(messages@, fixed_overhead as nat),
{
    assert(messages@.skip(0) =~= messages@);
    estimate_from(messages, 0, fixed_overhead)
}

/// Estimates the tokens of a request with the messages from `from` on.
fn estimate_from(messages: &[Arc<Message>], from: usize, fixed_overhead: u32) -> (r: u64)
    requires
        from <= messages@.len(),
    ensures
        r == total_tokens(messages@.skip(from as int), fixed_overhead as nat),
{
    let mut acc: u64 = fixed_overhead as u64;
    let mut i: usize = from;
    while i < messages.len()
        invariant
            from <= i <= messages@.len(),
            acc == total_tokens(messages@.subrange(from as int, i as int), fixed_overhead as nat),
        decreases messages@.len() - i,
    {
        proof {
            let after = messages@.subrange(from as int, i + 1);
            assert(after.drop_last() =~= messages@.subrange(from as int, i as int));
            assert(after.last() == messages@[i as int]);
        }
        let known: Option<u64> = match &*messages[i] {
            Message::Assistant(a) => match &a.usage {
                Some(usage) => Some(usage.total_tokens),
                None => None,
            },
            _ => None,
        };
        match known {
            Some(n) => {
                acc = n;
            },
            None => {
                let t: u64 = estimate_message_tokens(&messages[i]) as u64;
                if acc > u64::MAX - t {
                    acc = u64::MAX;
                } else {
                    acc = acc + t;
                }
            },
        }
        i += 1;
    }
    assert(messages@.subrange(from as int, messages@.len() as int) =~= messages@.skip(
        from as int,
    ));
    acc
}

/// The messages from `from` on.
fn shared_from(messages: &[Arc<Message>], from: usize) -> (r: Vec<Arc<Message>>)
    requires
        from <= messages@.len(),
    ensures
        r@ == messages@.skip(from as int),
{
    shared_range(messages, from, messages.len())
}

/// The messages from `from` up to `to`.
fn shared_range(messages: &[Arc<Message>], from: usize, to: usize) -> (r: Vec<Arc<Message>>)
    requires
        from <= to <= messages@.len(),
    ensures
        r@ == messages@.subrange(from as int, to as int),
{
    let mut out: Vec<Arc<Message>> = Vec::new();
    let mut i: usize = from;
    while i < to
        invariant
            from <= i <= to <= messages@.len(),
            out@ == messages@.subrange(from as int, i as int),
        decreases to - i,
    {
        out.push(messages[i].clone());
        i += 1;
        assert(out@ =~= messages@.subrange(from as int, i as int));
    }
    out
}

/// Whether a turn can begin at `i`: with a user message, or at the very start.
pub open spec fn boundary(messages: Seq<Arc<Message>>, i: int) -> bool {
    0 <= i < messages.len() && (i == 0 || *messages[i] is User)
}

/// Whether `m` is an assistant message that calls a tool.
pub open spec fn calls_tool(m: Message) -> bool {
    m matches Message::Assistant(a) && exists|k: int|
        0 <= k < a.content@.len() && (#[trigger] a.content@[k]) is ToolCall
}

/// Whether a cut at `i` parts a tool result from the message that called for it.
pub open spec fn parts_pair(messages: Seq<Arc<Message>>, i: int) -> bool {
    0 < i < messages.len() && calls_tool(*messages[i - 1]) && *messages[i] is ToolResult
}

/// Whether the messages from `i` on are whole turns within `max` tokens.
pub open spec fn fitting_cut(
    messages: Seq<Arc<Message>>,
    max: nat,
    overhead: nat,
    i: int,
) -> bool {
    &&& boundary(messages, i)
    &&& !parts_pair(messages, i)
    &&& total_tokens(messages.skip(i), overhead) <= max
}

/// Whether `i` is where `messages` are cut: at the first turn from which the rest fits, or at
/// the last turn where none does.
pub open spec fn is_cut(messages: Seq<Arc<Message>>, max: nat, overhead: nat, i: int) -> bool {
    if exists|k: int| fitting_cut(messages, max, overhead, k) {
        &&& fitting_cut(messages, max, overhead, i)
        &&& forall|k: int| 0 <= k < i ==> !fitting_cut(messages, max, overhead, k)
    } else {
        &&& boundary(messages, i)
        &&& forall|k: int| boundary(messages, k) ==> k <= i
    }
}

/// Whether `r` is `messages` cut to `max` tokens.
pub open spec fn is_truncation(
    messages: Seq<Arc<Message>>,
    max: nat,
    overhead: nat,
    r: Seq<Arc<Message>>,
) -> bool {
    if total_tokens(messages, overhead) <= max || messages.len() == 0 {
        r == messages
    } else {
        exists|i: int| #[trigger] is_cut(messages, max, overhead, i) && r == messages.skip(i)
    }
}

fn is_user(m: &Message) -> (r: bool)
    ensures
        r == (*m is User),
{
    match m {
        Message::User(_) => true,
        _ => false,
    }
}

/// Whether `prev` calls a tool and `next` is a tool result.
fn is_tool_call_result_split(prev: &Message, next: &Message) -> (r: bool)
    ensures
        r == (calls_tool(*prev) && *next is ToolResult),
{
    let next_is_result = match next {
        Message::ToolResult(_) => true,
        _ => false,
    };
    match prev {
        Message::Assistant(a) => {
            let mut found = false;
            let mut k: usize = 0;
            while k < a.content.len()
                invariant
                    k <= a.content@.len(),
                    found <==> exists|j: int| 0 <= j < k && (#[trigger] a.content@[j]) is ToolCall,
                decreases a.content@.len() - k,
            {
                match &a.content[k] {
                    AssistantContent::ToolCall(_) => {
                        assert(a.content@[k as int] is ToolCall);
                        found = true;
                    },
                    _ => {},
                }
                k += 1;
            }
            found && next_is_result
        },
        _ => false,
    }
}

/// Where the turns of `messages` begin.
fn boundaries_of(messages: &[Arc<Message>]) -> (r: Vec<usize>)
    ensures
        forall|a: int, b: int| 0 <= a < b < r@.len() ==> r@[a] < r@[b],
        forall|i: int| #[trigger]
            boundary(messages@, i) <==> exists|k: int| 0 <= k < r@.len() && r@[k] == i,
{
    let mut out: Vec<usize> = Vec::new();
    let mut i: usize = 0;
    while i < messages.len()
        invariant
            i <= messages@.len(),
            forall|a: int, b: int| 0 <= a < b < out@.len() ==> out@[a] < out@[b],
            forall|k: int| 0 <= k < out@.len() ==> (#[trigger] out@[k]) < i && boundary(
                messages@,
                out@[k] as int,
            ),
            forall|j: int|
                0 <= j < i && #[trigger] boundary(messages@, j) ==> exists|k: int|
                    0 <= k < out@.len() && out@[k] == j,
        decreases messages@.len() - i,
    {
        if i == 0 || is_user(&messages[i]) {
            let ghost before = out@;
            out.push(i);
            proof {
                assert(out@[before.len() as int] == i);
                assert forall|j: int|
                    0 <= j < i + 1 && #[trigger] boundary(messages@, j) implies exists|k: int|
                    0 <= k < out@.len() && out@[k] == j by {
                    if j < i {
                        let k = choose|k: int| 0 <= k < before.len() && before[k] == j;
                        assert(out@[k] == j);
                    }
                }
            }
        }
        i += 1;
    }
    out
}

/// Cuts `messages` to `max` tokens, given a fixed overhead of the request.
fn truncate_within(messages: &[Arc<Message>], max: u64, fixed_overhead: u32) -> (r: Vec<
    Arc<Message>,
>)
    ensures
        is_truncation(messages@, max as nat, fixed_overhead as nat, r@),
{
    let ghost ovh = fixed_overhead as nat;
    if estimate_total(messages, fixed_overhead) <= max || messages.len() == 0 {
        assert(messages@.skip(0) =~= messages@);
        return shared_from(messages, 0);
    }
    let starts = boundaries_of(messages);
    assert(boundary(messages@, 0));
    let mut k: usize = 0;
    while k < starts.len()
        invariant
            k <= starts@.len(),
            ovh == fixed_overhead as nat,
            total_tokens(messages@, ovh) > max,
            messages@.len() > 0,
            forall|a: int, b: int| 0 <= a < b < starts@.len() ==> starts@[a] < starts@[b],
            forall|i: int| #[trigger]
                boundary(messages@, i) <==> exists|k: int|
                    0 <= k < starts@.len() && starts@[k] == i,
            forall|j: int|
                0 <= j < k ==> !fitting_cut(
                    messages@,
                    max as nat,
                    ovh,
                    (#[trigger] starts@[j]) as int,
                ),
        decreases starts@.len() - k,
    {
        let cut: usize = starts[k];
        assert(starts@[k as int] == cut);
        assert(boundary(messages@, cut as int));
        let parted = cut > 0 && is_tool_call_result_split(&messages[cut - 1], &messages[cut]);
        if !parted && estimate_from(messages, cut, fixed_overhead) <= max {
            proof {
                assert(fitting_cut(messages@, max as nat, ovh, cut as int));
                assert forall|j: int| 0 <= j < cut implies !fitting_cut(
                    messages@,
                    max as nat,
                    ovh,
                    j,
                ) by {
                    if boundary(messages@, j) {
                        let t = choose|t: int| 0 <= t < starts@.len() && starts@[t] == j;
                        if k <= t {
                            assert(starts@[k as int] <= starts@[t]);
                        }
                        assert(!fitting_cut(messages@, max as nat, ovh, starts@[t] as int));
                    }
                }
                assert(is_cut(messages@, max as nat, ovh, cut as int));
            }
            return shared_from(messages, cut);
        }
        k += 1;
    }
    assert(starts@.len() > 0);
    let last: usize = starts[starts.len() - 1];
    proof {
        assert(starts@[starts@.len() - 1] == last);
        assert(boundary(messages@, last as int));
        assert forall|i: int| !fitting_cut(messages@, max as nat, ovh, i) by {
            if boundary(messages@, i) {
                let t = choose|t: int| 0 <= t < starts@.len() && starts@[t] == i;
                assert(!fitting_cut(messages@, max as nat, ovh, starts@[t] as int));
            }
        }
        assert forall|i: int| boundary(messages@, i) implies i <= last by {
            let t = choose|t: int| 0 <= t < starts@.len() && starts@[t] == i;
            if t < starts@.len() - 1 {
                assert(starts@[t] < starts@[starts@.len() - 1]);
            }
        }
        assert(is_cut(messages@, max as nat, ovh, last as int));
    }
    shared_from(messages, last)
}

/// Drops whole turns from the front until the rest is within `max_tokens`; the last turn is kept
/// in any case.
pub fn truncate_to_budget(messages: &[Arc<Message>], max_tokens: usize) -> (r: Vec<Arc<Message>>)
    ensures
        is_truncation(messages@, max_tokens as nat, 0, r@),
{
    truncate_within(messages, max_tokens as u64, 0)
}

/// How many tokens a request may take.
#[derive(Debug, Clone, Copy)]
pub struct ContextBudget {
    pub context_window: u32,
    /// Tokens that are kept free for the answer.
    pub reserve_output_tokens: u32,
    /// Tokens that each request takes besides its messages.
    pub fixed_overhead: u32,
}

impl ContextBudget {
    /// What is left of the window for a request.
    pub open spec fn room(self) -> nat {
        if self.context_window >= self.reserve_output_tokens {
            (self.context_window - self.reserve_output_tokens) as nat
        } else {
            0
        }
    }

    /// A budget of the whole window.
    pub fn new(context_window: u32) -> (r: Self)
        ensures
            r.context_window == context_window,
            r.reserve_output_tokens == 0,
            r.fixed_overhead == 0,
    {
        ContextBudget { context_window, reserve_output_tokens: 0, fixed_overhead: 0 }
    }

    /// A budget that keeps tokens free for the answer and counts what each request takes besides
    /// its messages: the system prompt, the tool schemas and the wrapping of the protocol.
    pub fn with_overhead(
        context_window: u32,
        system_prompt: &str,
        tool_schemas: &str,
        reserve_output_tokens: u32,
        protocol_wrapper_tokens: u32,
    ) -> (r: Self)
        ensures
            r.context_window == context_window,
            r.reserve_output_tokens == reserve_output_tokens,
            r.fixed_overhead == least(
                tokens_of(system_prompt@) + tokens_of(tool_schemas@)
                    + protocol_wrapper_tokens as nat,
                u32::MAX as nat,
            ),
    {
        let fixed_overhead: u32 = plus(
            plus(estimate_tokens(system_prompt), estimate_tokens(tool_schemas)),
            protocol_wrapper_tokens,
        );
        ContextBudget { context_window, reserve_output_tokens, fixed_overhead }
    }

    /// What is left of the window for a request.
    pub fn available(&self) -> (r: u32)
        ensures
            r == self.room(),
    {
        if self.context_window >= self.reserve_output_tokens {
            self.context_window - self.reserve_output_tokens
        } else {
            0
        }
    }

    /// Estimates the tokens of a request with `messages`, at most the largest 32 bit number.
    pub fn estimate(&self, messages: &[Arc<Message>]) -> (r: u32)
        ensures
            r == least(total_tokens(messages@, self.fixed_overhead as nat), u32::MAX as nat),
    {
        let total: u64 = estimate_total(messages, self.fixed_overhead);
        if total > u32::MAX as u64 {
            u32::MAX
        } else {
            total as u32
        }
    }

    /// Whether a request with `messages` is within the budget.
    pub fn fits(&self, messages: &[Arc<Message>]) -> (r: bool)
        ensures
            r == (total_tokens(messages@, self.fixed_overhead as nat) <= self.room()),
    {
        estimate_total(messages, self.fixed_overhead) <= self.available() as u64
    }

    /// Drops whole turns from the front until the rest is within the budget; the last turn is
    /// kept in any case.
    pub fn truncate(&self, messages: &[Arc<Message>]) -> (r: Vec<Arc<Message>>)
        ensures
            is_truncation(messages@, self.room(), self.fixed_overhead as nat, r@),
    {
        truncate_within(messages, self.available() as u64, self.fixed_overhead)
    }
}

/// What is left after cutting is the end of the transcript, and not empty where the transcript
/// is not: the most recent message stays.
pub proof fn law_truncation_keeps_the_end(
    messages: Seq<Arc<Message>>,
    max: nat,
    overhead: nat,
    r: Seq<Arc<Message>>,
)
    requires
        is_truncation(messages, max, overhead, r),
        messages.len() > 0,
    ensures
        0 < r.len() <= messages.len(),
        r == messages.skip(messages.len() - r.len()),
        r.last() == messages.last(),
{
    if total_tokens(messages, overhead) <= max {
        assert(messages.skip(0) =~= messages);
    }
}

/// Cutting drops whole turns only: what is left is the whole transcript or begins with a user
/// message, so no tool result is parted from the call before it.
pub proof fn law_truncation_drops_whole_turns(
    messages: Seq<Arc<Message>>,
    max: nat,
    overhead: nat,
    r: Seq<Arc<Message>>,
)
    requires
        is_truncation(messages, max, overhead, r),
    ensures
        r == messages || (r.len() > 0 && *r[0] is User),
        !parts_pair(messages, messages.len() - r.len()),
{
    if !(total_tokens(messages, overhead) <= max || messages.len() == 0) {
        let i = choose|i: int| #[trigger]
            is_cut(messages, max, overhead, i) && r == messages.skip(i);
        if i == 0 {
            assert(messages.skip(0) =~= messages);
        }
    }
}

/// Cutting comes within the limit wherever dropping whole turns can: if what is left is still
/// above the limit, so is the rest from every turn on, and only the last turn is left.
pub proof fn law_truncation_fits_where_it_can(
    messages: Seq<Arc<Message>>,
    max: nat,
    overhead: nat,
    r: Seq<Arc<Message>>,
    i: int,
)
    requires
        is_truncation(messages, max, overhead, r),
        total_tokens(r, overhead) > max,
        boundary(messages, i),
    ensures
        total_tokens(messages.skip(i), overhead) > max,
        messages.len() - r.len() >= i,
{
    let c = choose|c: int| #[trigger] is_cut(messages, max, overhead, c) && r == messages.skip(c);
    if exists|k: int| fitting_cut(messages, max, overhead, k) {
        assert(fitting_cut(messages, max, overhead, c));
    }
    assert(!parts_pair(messages, i));
    assert(!fitting_cut(messages, max, overhead, i));
}

/// The number of bytes of all texts in a part of a user message.
pub open spec fn user_part_bytes(c: UserContent) -> nat {
    match c {
        UserContent::Text { text } => text::byte_len_spec(text@),
        UserContent::Image(image) => text::byte_len_spec(image.data@),
    }
}

/// The number of bytes of all texts in a part of an assistant message that the model is sent.
pub open spec fn assistant_part_bytes(c: AssistantContent) -> nat {
    match c {
        AssistantContent::Text { text } => text::byte_len_spec(text@),
        AssistantContent::Thinking { text } => text::byte_len_spec(text@),
        AssistantContent::ToolCall(call) => text::byte_len_spec(call.name@) + text::byte_len_spec(
            call.arguments@,
        ),
    }
}

/// The number of bytes of all texts in a part of a tool result.
pub open spec fn result_part_bytes(c: ToolResultContent) -> nat {
    match c {
        ToolResultContent::Text { text } => text::byte_len_spec(text@),
        ToolResultContent::Image(image) => text::byte_len_spec(image.data@),
    }
}

/// The number of bytes of all texts of a message.
pub open spec fn message_bytes(m: Message) -> nat {
    match m {
        Message::User(u) => u.content@.fold_left(
            0nat,
            |n: nat, c: UserContent| n + user_part_bytes(c),
        ),
        Message::Assistant(a) => a.content@.fold_left(
            0nat,
            |n: nat, c: AssistantContent| n + assistant_part_bytes(c),
        ),
        Message::ToolResult(t) => t.content@.fold_left(
            text::byte_len_spec(t.tool_name@),
            |n: nat, c: ToolResultContent| n + result_part_bytes(c),
        ),
    }
}

/// The number of parts of a message.
pub open spec fn part_count(m: Message) -> nat {
    match m {
        Message::User(u) => u.content@.len(),
        Message::Assistant(a) => a.content@.len(),
        Message::ToolResult(t) => t.content@.len(),
    }
}

proof fn lemma_text_tokens(s: Seq<char>)
    requires
        text::byte_len_spec(s) < 0x1_0000_0000,
    ensures
        text::byte_len_spec(s) <= 4 * tokens_of(s) <= text::byte_len_spec(s) + 4,
{
    let n = text::byte_len_spec(s);
    assert(n % 0x1_0000_0000 == n);
}

proof fn lemma_assistant_part(c: AssistantContent)
    requires
        assistant_part_bytes(c) < 0x1_0000_0000,
    ensures
        assistant_part_bytes(c) <= 4 * assistant_part_tokens(c) <= assistant_part_bytes(c) + 8,
{
    match c {
        AssistantContent::Text { text } => lemma_text_tokens(text@),
        AssistantContent::Thinking { text } => lemma_text_tokens(text@),
        AssistantContent::ToolCall(call) => {
            lemma_text_tokens(call.name@);
            lemma_text_tokens(call.arguments@);
        },
    }
}

proof fn lemma_user_parts(parts: Seq<UserContent>)
    requires
        parts.fold_left(0nat, |n: nat, c: UserContent| n + user_part_bytes(c)) < 0x1_0000_0000,
    ensures
        ({
            let bytes = parts.fold_left(0nat, |n: nat, c: UserContent| n + user_part_bytes(c));
            let tokens = sum(parts.map_values(|c: UserContent| user_part_tokens(c)));
            bytes <= 4 * tokens <= bytes + 36 * parts.len()
        }),
    decreases parts.len(),
{
    if parts.len() > 0 {
        let f = |c: UserContent| user_part_tokens(c);
        lemma_user_parts(parts.drop_last());
        assert(parts.map_values(f).drop_last() =~= parts.drop_last().map_values(f));
    }
}

proof fn lemma_assistant_parts(parts: Seq<AssistantContent>)
    requires
        parts.fold_left(0nat, |n: nat, c: AssistantContent| n + assistant_part_bytes(c))
            < 0x1_0000_0000,
    ensures
        ({
            let bytes = parts.fold_left(
                0nat,
                |n: nat, c: AssistantContent| n + assistant_part_bytes(c),
            );
            let tokens = sum(parts.map_values(|c: AssistantContent| assistant_part_tokens(c)));
            bytes <= 4 * tokens <= bytes + 8 * parts.len()
        }),
    decreases parts.len(),
{
    if parts.len() > 0 {
        let f = |c: AssistantContent| assistant_part_tokens(c);
        let g = |n: nat, c: AssistantContent| n + assistant_part_bytes(c);
        let init = parts.drop_last();
        let before = init.fold_left(0nat, g);
        assert(parts.fold_left(0nat, g) == before + assistant_part_bytes(parts.last()));
        lemma_assistant_parts(init);
        lemma_assistant_part(parts.last());
        assert(parts.map_values(f).drop_last() =~= init.map_values(f));
        assert(sum(parts.map_values(f)) == sum(init.map_values(f)) + assistant_part_tokens(
            parts.last(),
        ));
    }
}

proof fn lemma_result_parts(parts: Seq<ToolResultContent>, name: nat)
    requires
        parts.fold_left(name, |n: nat, c: ToolResultContent| n + result_part_bytes(c))
            < 0x1_0000_0000,
    ensures
        ({
            let bytes = parts.fold_left(
                name,
                |n: nat, c: ToolResultContent| n + result_part_bytes(c),
            );
            let tokens = sum(parts.map_values(|c: ToolResultContent| result_part_tokens(c)));
            bytes <= name + 4 * tokens && name + 4 * tokens <= bytes + 36 * parts.len() && name
                <= bytes
        }),
    decreases parts.len(),
{
    if parts.len() > 0 {
        let f = |c: ToolResultContent| result_part_tokens(c);
        lemma_result_parts(parts.drop_last(), name);
        assert(parts.map_values(f).drop_last() =~= parts.drop_last().map_values(f));
    }
}

/// The estimate of a message covers all that is sent of it: a token stands for four bytes at most,
/// of texts, thoughts, names and arguments of tool calls, results and images alike. And it is not
/// far off: each part adds a few tokens at most to a quarter of its bytes.
pub proof fn law_estimate_covers_all_texts(m: &Message)
    requires
        message_bytes(*m) < 0x1_0000_0000,
    ensures
        message_bytes(*m) <= 4 * message_tokens(*m),
        4 * message_tokens(*m) <= message_bytes(*m) + 36 * part_count(*m) + 4,
{
    match m {
        Message::User(u) => lemma_user_parts(u.content@),
        Message::Assistant(a) => lemma_assistant_parts(a.content@),
        Message::ToolResult(t) => {
            lemma_result_parts(t.content@, text::byte_len_spec(t.tool_name@));
        },
    }
}

/// A longer text has a larger estimate: each four bytes more are one token more.
pub proof fn law_estimate_grows_with_the_text(a: Seq<char>, b: Seq<char>, k: nat)
    requires
        text::byte_len_spec(a) + 4 * k <= text::byte_len_spec(b),
        text::byte_len_spec(b) < 0x1_0000_0000,
    ensures
        tokens_of(a) + k <= tokens_of(b),
        1 <= tokens_of(a),
        text::byte_len_spec(b) <= 4 * tokens_of(b) <= text::byte_len_spec(b) + 4,
{
}

/// The estimate of a message grows with the arguments of a tool call in it, whatever else the
/// message holds and wherever the call stands.
pub proof fn law_estimate_grows_with_arguments(
    a: AssistantMessage,
    b: AssistantMessage,
    at: int,
    k: nat,
)
    requires
        0 <= at < a.content@.len(),
        a.content@.len() == b.content@.len(),
        forall|i: int| 0 <= i < a.content@.len() && i != at ==> a.content@[i] == b.content@[i],
        a.content@[at] is ToolCall,
        b.content@[at] is ToolCall,
        a.content@[at]->ToolCall_0.name@ == b.content@[at]->ToolCall_0.name@,
        text::byte_len_spec(a.content@[at]->ToolCall_0.arguments@) + 4 * k <= text::byte_len_spec(
            b.content@[at]->ToolCall_0.arguments@,
        ),
        text::byte_len_spec(b.content@[at]->ToolCall_0.arguments@) < 0x1_0000_0000,
    ensures
        message_tokens(Message::Assistant(b)) >= least(
            message_tokens(Message::Assistant(a)) + k,
            u32::MAX as nat,
        ),
{
    let f = |c: AssistantContent| assistant_part_tokens(c);
    let pa = a.content@.map_values(f);
    let pb = b.content@.map_values(f);
    assert(pa[at] + k <= pb[at]);
    assert forall|i: int| 0 <= i < pa.len() && i != at implies pa[i] == pb[i] by {
        assert(a.content@[i] == b.content@[i]);
    }
    lemma_sum_differs(pa, pb, at, k);
}

proof fn lemma_sum_differs(a: Seq<nat>, b: Seq<nat>, at: int, k: nat)
    requires
        0 <= at < a.len(),
        a.len() == b.len(),
        a[at] + k <= b[at],
        forall|i: int| 0 <= i < a.len() && i != at ==> a[i] == b[i],
    ensures
        sum(a) + k <= sum(b),
    decreases a.len(),
{
    if at == a.len() - 1 {
        assert(a.drop_last() =~= b.drop_last());
    } else {
        assert(a[a.len() - 1] == b[a.len() - 1]);
        lemma_sum_differs(a.drop_last(), b.drop_last(), at, k);
    }
}

/// The estimate of a request covers all its messages and what comes with each request, where the
/// model has not reported what it used.
pub proof fn law_total_covers_all_messages(messages: Seq<Arc<Message>>, overhead: nat)
    requires
        overhead <= u32::MAX,
        messages.fold_left(0nat, |n: nat, m: Arc<Message>| n + message_bytes(*m)) < 0x1_0000_0000,
        forall|i: int|
            0 <= i < messages.len() ==> ((*(#[trigger] messages[i])) matches Message::Assistant(a)
                ==> a.usage is None),
    ensures
        4 * total_tokens(messages, overhead) >= 4 * overhead + messages.fold_left(
            0nat,
            |n: nat, m: Arc<Message>| n + message_bytes(*m),
        ),
    decreases messages.len(),
{
    if messages.len() > 0 {
        let init = messages.drop_last();
        assert forall|i: int| 0 <= i < init.len() implies ((*(
        #[trigger] init[i])) matches Message::Assistant(a) ==> a.usage is None) by {
            assert(init[i] == messages[i]);
        }
        law_total_covers_all_messages(init, overhead);
        let last = messages[messages.len() - 1];
        assert(last == messages.last());
        assert(reported(*last) is None);
        law_estimate_covers_all_texts(&*last);
    }
}

/// What the model reported stands for all that came before it, and for what comes with each
/// request: neither counts again. What comes behind it is estimated on top.
pub proof fn law_report_covers_what_came_before(
    before: Seq<Arc<Message>>,
    other: Seq<Arc<Message>>,
    answer: Arc<Message>,
    behind: Seq<Arc<Message>>,
    overhead: nat,
    other_overhead: nat,
    used: u64,
)
    requires
        *answer matches Message::Assistant(a) && (a.usage matches Some(u) && u.total_tokens
            == used),
    ensures
        total_tokens(before.push(answer), overhead) == used,
        total_tokens(before.push(answer) + behind, overhead) == total_tokens(
            other.push(answer) + behind,
            other_overhead,
        ),
    decreases behind.len(),
{
    let a = before.push(answer) + behind;
    let b = other.push(answer) + behind;
    if behind.len() == 0 {
        assert(a =~= before.push(answer));
        assert(b =~= other.push(answer));
    } else {
        assert(a.drop_last() =~= before.push(answer) + behind.drop_last());
        assert(b.drop_last() =~= other.push(answer) + behind.drop_last());
        law_report_covers_what_came_before(
            before,
            other,
            answer,
            behind.drop_last(),
            overhead,
            other_overhead,
            used,
        );
        assert(a.last() == behind.last() && b.last() == behind.last());
    }
}

/// Each message that is added adds its estimate, unless it reports what the model used.
pub proof fn law_messages_add_up(messages: Seq<Arc<Message>>, m: Arc<Message>, overhead: nat)
    requires
        (*m) matches Message::Assistant(a) ==> a.usage is None,
        total_tokens(messages, overhead) + message_tokens(*m) <= u64::MAX,
    ensures
        total_tokens(messages.push(m), overhead) == total_tokens(messages, overhead)
            + message_tokens(*m),
        overhead <= u64::MAX ==> total_tokens(Seq::empty(), overhead) == overhead,
{
    assert(messages.push(m).drop_last() =~= messages);
}

/// What fits is not cut, and of what does not fit no more is cut than has to be: where the messages
/// from a user message on fit, they stay.
pub proof fn law_no_more_is_cut_than_has_to_be(
    messages: Seq<Arc<Message>>,
    max: nat,
    overhead: nat,
    r: Seq<Arc<Message>>,
    i: int,
)
    requires
        is_truncation(messages, max, overhead, r),
    ensures
        total_tokens(messages, overhead) <= max ==> r == messages,
        0 <= i < messages.len() && *messages[i] is User && total_tokens(messages.skip(i), overhead)
            <= max ==> r.len() >= messages.len() - i && total_tokens(r, overhead) <= max,
        total_tokens(r, overhead) > max ==> forall|k: int|
            messages.len() - r.len() < k < messages.len() ==> !(*(#[trigger] messages[k]) is User),
{
    if total_tokens(messages, overhead) <= max || messages.len() == 0 {
    } else {
        let c = choose|c: int| #[trigger] is_cut(messages, max, overhead, c) && r == messages.skip(c);
        assert(0 <= i < messages.len() && *messages[i] is User && total_tokens(
            messages.skip(i),
            overhead,
        ) <= max ==> fitting_cut(messages, max, overhead, i));
        if total_tokens(r, overhead) > max {
            assert forall|k: int| messages.len() - r.len() < k < messages.len() implies !(*(
            #[trigger] messages[k]) is User) by {
                assert(*messages[k] is User ==> boundary(messages, k));
                if exists|j: int| fitting_cut(messages, max, overhead, j) {
                    assert(fitting_cut(messages, max, overhead, c));
                }
            }
        }
    }
}

/// When to compact, and what to keep.
#[derive(Debug, Clone, Copy, PartialEq, Eq)]
pub struct CompactionPolicy {
    /// A transcript with more tokens is compacted.
    pub budget_tokens: usize,
    /// The number of recent turns that are kept as they are.
    pub keep_recent: usize,
    pub reserve_output_tokens: u32,
    pub protocol_wrapper_tokens: u32,
}

impl Default for CompactionPolicy {
    fn default() -> (r: Self)
        ensures
            r.budget_tokens == usize::MAX,
            r.keep_recent == 1,
            r.reserve_output_tokens == 0,
            r.protocol_wrapper_tokens == 0,
    {
        CompactionPolicy {
            budget_tokens: usize::MAX,
            keep_recent: 1,
            reserve_output_tokens: 0,
            protocol_wrapper_tokens: 0,
        }
    }
}

/// The messages of the next request, and the change of the transcript that goes with them.
#[derive(Debug, Clone)]
pub struct PreparedContext {
    pub request_messages: Vec<Arc<Message>>,
    pub commit: Option<CompactionCommit>,
}

/// The first `keep_from` messages are to be replaced by the summary.
#[derive(Debug, Clone, PartialEq, Eq)]
pub struct CompactionCommit {
    pub summary: String,
    pub keep_from: usize,
}

/// How to come to the next request: at once, or by way of a summary of the messages before
/// `split`.
#[derive(Debug)]
pub enum ContextPlan {
    Ready(PreparedContext),
    Compact { split: usize, messages: Vec<Arc<Message>> },
}

/// The number of user messages among the first `n`.
pub open spec fn users_before(messages: Seq<Arc<Message>>, n: int) -> nat
    decreases n,
{
    if n <= 0 {
        0
    } else {
        users_before(messages, n - 1) + (if *messages[n - 1] is User {
            1nat
        } else {
            0nat
        })
    }
}

/// The number of turns to keep: at least one.
pub open spec fn kept_turns(keep_recent: nat) -> nat {
    if keep_recent == 0 {
        1
    } else {
        keep_recent
    }
}

/// Whether `split` is where the last `keep_recent` turns begin; 0 where there are no more turns
/// than that.
pub open spec fn is_split(messages: Seq<Arc<Message>>, keep_recent: nat, split: int) -> bool {
    let turns = users_before(messages, messages.len() as int);
    let keep = kept_turns(keep_recent);
    if keep >= turns {
        split == 0
    } else {
        &&& 0 <= split < messages.len()
        &&& *messages[split] is User
        &&& users_before(messages, split) == turns - keep
    }
}

/// Where the last `keep_recent` turns begin.
fn compute_split(messages: &[Arc<Message>], keep_recent: usize) -> (r: usize)
    ensures
        is_split(messages@, keep_recent as nat, r as int),
{
    let mut starts: Vec<usize> = Vec::new();
    let mut i: usize = 0;
    while i < messages.len()
        invariant
            i <= messages@.len(),
            starts@.len() == users_before(messages@, i as int),
            starts@.len() <= i,
            forall|k: int|
                0 <= k < starts@.len() ==> (#[trigger] starts@[k]) < i
                    && *messages@[starts@[k] as int] is User && users_before(
                    messages@,
                    starts@[k] as int,
                ) == k,
        decreases messages@.len() - i,
    {
        if is_user(&messages[i]) {
            starts.push(i);
        }
        i += 1;
    }
    let keep: usize = if keep_recent == 0 {
        1
    } else {
        keep_recent
    };
    if keep >= starts.len() {
        return 0;
    }
    starts[starts.len() - keep]
}

proof fn lemma_users_are_counted(messages: Seq<Arc<Message>>, n: int)
    requires
        0 <= n <= messages.len(),
    ensures
        users_before(messages, n) == messages.take(n).filter(|m: Arc<Message>| *m is User).len(),
    decreases n,
{
    reveal(Seq::filter);
    if n > 0 {
        lemma_users_are_counted(messages, n - 1);
        assert(messages.take(n).drop_last() =~= messages.take(n - 1));
        assert(messages.take(n).last() == messages[n - 1]);
    }
}

/// The split keeps just the last turns that are to be kept: behind it there are as many user
/// messages as turns are kept, at least one, and it begins with one of them. Only where there are no
/// more turns than that nothing is split off.
pub proof fn law_split_keeps_the_recent_turns(
    messages: Seq<Arc<Message>>,
    keep_recent: nat,
    split: int,
)
    requires
        is_split(messages, keep_recent, split),
    ensures
        ({
            let keep = if keep_recent == 0 {
                1
            } else {
                keep_recent
            };
            let users = messages.filter(|m: Arc<Message>| *m is User).len();
            &&& keep >= users ==> split == 0
            &&& keep < users ==> {
                &&& 0 <= split < messages.len()
                &&& *messages[split] is User
                &&& messages.skip(split).filter(|m: Arc<Message>| *m is User).len() == keep
            }
        }),
{
    let p = |m: Arc<Message>| *m is User;
    let n = messages.len() as int;
    lemma_users_are_counted(messages, n);
    assert(messages.take(n) =~= messages);
    if 0 <= split <= n {
        lemma_users_are_counted(messages, split);
        assert(messages.take(split) + messages.skip(split) =~= messages);
        Seq::filter_distributes_over_add(messages.take(split), messages.skip(split), p);
    }
}

/// What is summarised and what is kept make up the whole transcript, and of the recent turns nothing
/// is summarised.
pub proof fn law_summary_stands_for_the_rest(
    transcript: Seq<Arc<Message>>,
    split: usize,
    summarised: Seq<Arc<Message>>,
    request: Seq<Arc<Message>>,
    summary: Seq<char>,
)
    requires
        0 < split < transcript.len(),
        summarised == transcript.take(split as int),
        request.len() == transcript.len() - split + 1,
        is_summary(*request[0], summary),
        request.skip(1) == transcript.skip(split as int),
    ensures
        summarised + request.skip(1) == transcript,
        summarised.len() > 0,
        request.last() == transcript.last(),
        *request[0] matches Message::User(u) && u.content@ == seq![
            u.content@[0],
        ] && (u.content@[0] matches UserContent::Text { text } && text@ == summary),
{
    assert(summarised + request.skip(1) =~= transcript);
    assert(request.skip(1).last() == request.last());
    assert(*request[0] matches Message::User(u) && u.content@ =~= seq![u.content@[0]]);
}

/// Whether `m` is a user message with `summary` as its only part.
pub open spec fn is_summary(m: Message, summary: Seq<char>) -> bool {
    &&& m matches Message::User(u)
    &&& u.timestamp == 0
    &&& u.content@.len() == 1
    &&& u.content@[0] matches UserContent::Text { text }
    &&& text@ == summary
}

fn summary_message(summary: String) -> (r: Arc<Message>)
    ensures
        is_summary(*r, summary@),
{
    let mut content: Vec<UserContent> = Vec::new();
    content.push(UserContent::Text { text: summary });
    Arc::new(Message::User(UserMessage { content, timestamp: 0 }))
}

/// Plans the next request. Within the budget the transcript is sent as it is. Above it, the turns
/// before the recent ones are to be compacted; where there are none, the request is cut for this
/// once.
pub fn plan_context(transcript: &[Arc<Message>], policy: &CompactionPolicy) -> (r: ContextPlan)
    ensures
        ({
            let over = total_tokens(transcript@, 0) > policy.budget_tokens;
            match r {
                ContextPlan::Ready(p) => {
                    &&& p.commit is None
                    &&& over ==> is_split(transcript@, policy.keep_recent as nat, 0)
                        && is_truncation(
                        transcript@,
                        policy.budget_tokens as nat,
                        0,
                        p.request_messages@,
                    )
                    &&& !over ==> p.request_messages@ == transcript@
                },
                ContextPlan::Compact { split, messages } => {
                    &&& over
                    &&& 0 < split < transcript@.len()
                    &&& is_split(transcript@, policy.keep_recent as nat, split as int)
                    &&& messages@ == transcript@.take(split as int)
                },
            }
        }),
{
    if estimate_total(transcript, 0) <= policy.budget_tokens as u64 {
        assert(transcript@.skip(0) =~= transcript@);
        return ContextPlan::Ready(
            PreparedContext { request_messages: shared_from(transcript, 0), commit: None },
        );
    }
    let split: usize = compute_split(transcript, policy.keep_recent);
    if split == 0 {
        return ContextPlan::Ready(
            PreparedContext {
                request_messages: truncate_to_budget(transcript, policy.budget_tokens),
                commit: None,
            },
        );
    }
    assert(transcript@.subrange(0, split as int) =~= transcript@.take(split as int));
    ContextPlan::Compact { split, messages: shared_range(transcript, 0, split) }
}

/// Finishes a plan with what the compactor gave. A summary stands for the messages before
/// `split` and is to be committed. Cancellation is passed on. After any other failure the request
/// is cut for this once, and the transcript stays.
pub fn complete_plan(
    transcript: &[Arc<Message>],
    policy: &CompactionPolicy,
    split: usize,
    result: Result<CompactionResult, CompactionError>,
) -> (r: Result<PreparedContext, CompactionError>)
    requires
        split <= transcript@.len(),
    ensures
        match result {
            Ok(c) => r matches Ok(p) && {
                &&& p.commit matches Some(commit) && commit.summary@ == c.summary@
                    && commit.keep_from == split
                &&& p.request_messages@.len() == transcript@.len() - split + 1
                &&& is_summary(*p.request_messages@[0], c.summary@)
                &&& p.request_messages@.skip(1) == transcript@.skip(split as int)
            },
            Err(CompactionError::Cancelled) => r matches Err(e) && e is Cancelled,
            Err(_) => r matches Ok(p) && p.commit is None && is_truncation(
                transcript@,
                policy.budget_tokens as nat,
                0,
                p.request_messages@,
            ),
        },
{
    match result {
        Ok(c) => {
            let mut out: Vec<Arc<Message>> = Vec::new();
            out.push(summary_message(c.summary.clone()));
            let mut keep = shared_from(transcript, split);
            out.append(&mut keep);
            assert(out@.skip(1) =~= transcript@.skip(split as int));
            Ok(
                PreparedContext {
                    request_messages: out,
                    commit: Some(CompactionCommit { summary: c.summary, keep_from: split }),
                },
            )
        },
        Err(CompactionError::Cancelled) => Err(CompactionError::Cancelled),
        Err(_) => Ok(
            PreparedContext {
                request_messages: truncate_to_budget(transcript, policy.budget_tokens),
                commit: None,
            },
        ),
    }
}

/// Applies a commit: the first `keep_from` messages are replaced by the summary, which is also
/// returned, to be recorded.
pub fn commit_compaction(transcript: &mut Vec<Arc<Message>>, commit: CompactionCommit) -> (r: Arc<
    Message,
>)
    requires
        commit.keep_from <= old(transcript)@.len(),
    ensures
        is_summary(*r, commit.summary@),
        final(transcript)@ == seq![r] + old(transcript)@.skip(commit.keep_from as int),
{
    let summary = summary_message(commit.summary);
    let mut tail = transcript.split_off(commit.keep_from);
    transcript.clear();
    transcript.push(summary.clone());
    transcript.append(&mut tail);
    assert(transcript@ =~= seq![summary] + old(transcript)@.skip(commit.keep_from as int));
    summary
}

/// Once a plan is committed, the transcript holds what the request held: the summary in front,
/// and then the very messages that were kept.
#[verifier::rlimit(30)]
pub proof fn law_commit_matches_request(
    transcript: Seq<Arc<Message>>,
    prepared: PreparedContext,
    commit: CompactionCommit,
    summary: Arc<Message>,
    committed: Seq<Arc<Message>>,
)
    requires
        commit.keep_from <= transcript.len(),
        prepared.commit == Some(commit),
        prepared.request_messages@.len() == transcript.len() - commit.keep_from + 1,
        is_summary(*prepared.request_messages@[0], commit.summary@),
        prepared.request_messages@.skip(1) == transcript.skip(commit.keep_from as int),
        is_summary(*summary, commit.summary@),
        committed == seq![summary] + transcript.skip(commit.keep_from as int),
    ensures
        committed.len() == prepared.request_messages@.len(),
        is_summary(*committed[0], commit.summary@),
        committed.skip(1) == prepared.request_messages@.skip(1),
        committed.last() == transcript.last() || commit.keep_from == transcript.len(),
        total_tokens(committed, 0) == total_tokens(prepared.request_messages@, 0),
{
    let req = prepared.request_messages@;
    let kept = transcript.skip(commit.keep_from as int);
    assert(committed[0] == summary);
    assert(committed.skip(1) =~= kept);
    assert(commit.keep_from < transcript.len() ==> committed.last() == kept.last());
    assert(total_tokens(committed, 0) == total_tokens(req, 0)) by {
        lemma_total_same(committed, req, commit.summary@, req.len() as int);
        assert(committed.take(req.len() as int) =~= committed);
        assert(req.take(req.len() as int) =~= req);
    }
}

proof fn lemma_total_same(
    a: Seq<Arc<Message>>,
    b: Seq<Arc<Message>>,
    summary: Seq<char>,
    n: int,
)
    requires
        1 <= n <= a.len(),
        a.len() == b.len(),
        is_summary(*a[0], summary),
        is_summary(*b[0], summary),
        a.skip(1) == b.skip(1),
    ensures
        total_tokens(a.take(n), 0) == total_tokens(b.take(n), 0),
    decreases n,
{
    if n == 1 {
        assert(a.take(1).drop_last() =~= Seq::empty());
        assert(b.take(1).drop_last() =~= Seq::empty());
        lemma_summary_tokens(&*a[0], summary);
        lemma_summary_tokens(&*b[0], summary);
    } else {
        lemma_total_same(a, b, summary, n - 1);
        assert(a.take(n).drop_last() =~= a.take(n - 1));
        assert(b.take(n).drop_last() =~= b.take(n - 1));
        assert(a.skip(1)[n - 2] == a[n - 1]);
        assert(b.skip(1)[n - 2] == b[n - 1]);
    }
}

proof fn lemma_summary_tokens(m: &Message, summary: Seq<char>)
    requires
        is_summary(*m, summary),
    ensures
        message_sum(*m) == tokens_of(summary),
        reported(*m) is None,
{
    let content = m->User_0.content@;
    let parts = content.map_values(|c: UserContent| user_part_tokens(c));
    assert(parts.drop_last() =~= Seq::empty());
    assert(sum(parts.drop_last()) == 0);
    assert(parts.last() == tokens_of(summary));
}

/// The messages of a transcript as owned values, the default form in which they are sent.
pub fn default_convert_to_llm(messages: Vec<Arc<Message>>) -> (r: Vec<Message>)
    ensures
        r@.len() == messages@.len(),
        forall|i: int| 0 <= i < r@.len() ==> (#[trigger] r@[i])@ == messages@[i]@,
{
    let mut out: Vec<Message> = Vec::new();
    let mut i: usize = 0;
    while i < messages.len()
        invariant
            i <= messages@.len(),
            out@.len() == i,
            forall|k: int| 0 <= k < i ==> (#[trigger] out@[k])@ == messages@[k]@,
        decreases messages@.len() - i,
    {
        let copy: Message = (*messages[i]).clone();
        out.push(copy);
        i += 1;
    }
    out
}

/// A plan loses nothing: within the budget the request is all that was said, and what is to be summed
/// up and what is kept make up the transcript. Only above the budget anything is summed up or cut.
pub proof fn law_plan_loses_nothing(
    transcript: &[Arc<Message>],
    policy: CompactionPolicy,
    plan: ContextPlan,
)
    requires
        call_ensures(plan_context, (transcript, &policy), plan),
    ensures
        total_tokens(transcript@, 0) <= policy.budget_tokens ==> plan is Ready
            && plan->Ready_0.request_messages@ == transcript@,
        plan matches ContextPlan::Ready(p) ==> p.commit is None,
        plan matches ContextPlan::Compact { split, messages } ==> {
            &&& 0 < split < transcript@.len()
            &&& messages@ + transcript@.skip(split as int) == transcript@
            &&& *transcript@[split as int] is User
            &&& total_tokens(transcript@, 0) > policy.budget_tokens
        },
{
    if let ContextPlan::Compact { split, messages } = plan {
        assert(messages@ + transcript@.skip(split as int) =~= transcript@);
    }
}

/// A request with a summary has the summary and all that was kept, and the summary is to be
/// committed. Where there is no summary the transcript stays, and the request ends as the transcript
/// does. Only a cancellation keeps the request from being made.
pub proof fn law_failed_summary_changes_nothing(
    transcript: &[Arc<Message>],
    policy: CompactionPolicy,
    split: usize,
    result: Result<CompactionResult, CompactionError>,
    r: Result<PreparedContext, CompactionError>,
)
    requires
        split <= transcript@.len(),
        call_ensures(complete_plan, (transcript, &policy, split, result), r),
    ensures
        r is Err <==> result is Err && result->Err_0 is Cancelled,
        r matches Ok(p) ==> (p.commit is Some <==> result is Ok),
        r matches Ok(p) ==> (p.commit matches Some(commit) ==> {
            &&& commit.summary@ == result->Ok_0.summary@
            &&& commit.keep_from == split
            &&& p.request_messages@.skip(1) == transcript@.skip(split as int)
            &&& p.request_messages@.len() == 1 + transcript@.len() - split
        }),
        r matches Ok(p) ==> (p.commit is None ==> exists|from: int|
            0 <= from <= transcript@.len() && p.request_messages@ == #[trigger] transcript@.skip(
                from,
            )),
{
    assert(transcript@.skip(0) =~= transcript@);
    if r is Ok && r->Ok_0.commit is None && transcript@.len() > 0 {
        law_truncation_keeps_the_end(
            transcript@,
            policy.budget_tokens as nat,
            0,
            r->Ok_0.request_messages@,
        );
    }
}

/// Every message is sent, as it was said, in the order in which it was said.
pub proof fn law_every_message_is_sent(messages: Vec<Arc<Message>>, r: Vec<Message>)
    requires
        call_ensures(default_convert_to_llm, (messages,), r),
    ensures
        r@.map_values(|m: Message| m@) == messages@.map_values(|m: Arc<Message>| m@),
{
    assert(r@.map_values(|m: Message| m@) =~= messages@.map_values(|m: Arc<Message>| m@)) by {
        assert forall|i: int| 0 <= i < r@.len() implies (#[trigger] r@[i])@ == messages@[i]@ by {}
    }
}

/// What a request takes besides its messages counts the system prompt, the tools and the wrapping,
/// each of them.
pub proof fn law_overhead_counts_everything(
    window: u32,
    prompt: &str,
    schemas: &str,
    reserve: u32,
    wrapper: u32,
    r: ContextBudget,
)
    requires
        call_ensures(ContextBudget::with_overhead, (window, prompt, schemas, reserve, wrapper), r),
        text::byte_len_spec(prompt@) + text::byte_len_spec(schemas@) < 0x1_0000_0000,
        4 * wrapper + text::byte_len_spec(prompt@) + text::byte_len_spec(schemas@)
            < 0x3_0000_0000,
    ensures
        4 * r.fixed_overhead >= 4 * wrapper + text::byte_len_spec(prompt@) + text::byte_len_spec(
            schemas@,
        ),
        4 * r.fixed_overhead <= 4 * wrapper + text::byte_len_spec(prompt@) + text::byte_len_spec(
            schemas@,
        ) + 8,
        r.context_window == window,
        r.reserve_output_tokens == reserve,
{
    lemma_text_tokens(prompt@);
    lemma_text_tokens(schemas@);
}

/// A request is within the budget just where its tokens and those kept for the answer are within the
/// window, and one that is within it is not cut.
pub proof fn law_fitting_requests_are_not_cut(
    budget: ContextBudget,
    messages: &[Arc<Message>],
    fits: bool,
    r: Vec<Arc<Message>>,
)
    requires
        call_ensures(ContextBudget::fits, (&budget, messages), fits),
        call_ensures(ContextBudget::truncate, (&budget, messages), r),
    ensures
        budget.reserve_output_tokens <= budget.context_window ==> (fits <==> total_tokens(
            messages@,
            budget.fixed_overhead as nat,
        ) + budget.reserve_output_tokens <= budget.context_window),
        fits ==> r@ == messages@,
        messages@.len() > 0 ==> r@.len() > 0 && r@.last() == messages@.last(),
{
    if messages@.len() > 0 {
        law_truncation_keeps_the_end(
            messages@,
            budget.room(),
            budget.fixed_overhead as nat,
            r@,
        );
    }
}

/// What is kept for the answer is taken from the window, and where more is to be kept than the window
/// has nothing is left.
pub proof fn law_room_and_reserve_make_up_the_window(budget: ContextBudget, r: u32)
    requires
        call_ensures(ContextBudget::available, (&budget,), r),
    ensures
        budget.reserve_output_tokens <= budget.context_window ==> r + budget.reserve_output_tokens
            == budget.context_window,
        budget.reserve_output_tokens >= budget.context_window ==> r == 0,
{
}

} // verus!
