//! Hooks: plugins that look on as an agent runs, and may step in.
use std::sync::Arc;
use vstd::prelude::*;
use vstd::string::*;

use crate::message::Message;
use crate::text;
use crate::tool::ToolResult;

verus! {

/// What a hook gets to see: the transcript.
#[derive(Debug, Clone)]
pub struct HookContext {
    pub transcript: Vec<Arc<Message>>,
}

impl HookContext {
    /// The context of a transcript.
    pub fn new(transcript: &[Arc<Message>]) -> (r: Self)
        ensures
            r.transcript@ == transcript@,
    {
        let mut out: Vec<Arc<Message>> = Vec::new();
        let mut i: usize = 0;
        while i < transcript.len()
            invariant
                i <= transcript@.len(),
                out@ == transcript@.take(i as int),
            decreases transcript@.len() - i,
        {
            out.push(transcript[i].clone());
            i += 1;
        }
        assert(out@ =~= transcript@);
        HookContext { transcript: out }
    }
}

/// A hook failed.
#[derive(Debug, Clone, PartialEq)]
pub struct HookError {
    pub message: String,
}

impl HookError {
    /// The text of the error.
    pub open spec fn text(self) -> Seq<char> {
        "HookError: "@ + self.message@
    }

    /// A failure with a text.
    pub fn new(message: String) -> (r: Self)
        ensures
            r.message == message,
    {
        HookError { message }
    }

    /// The text of the error.
    pub fn to_text(&self) -> (r: String)
        ensures
            r@ == self.text(),
    {
        "HookError: ".to_owned().concat(self.message.as_str())
    }
}

/// A hook that is asked at once. Hooks that take their time are asked elsewhere, one after the
/// other, as the steps of `MergedHooks` say.
pub trait LifecycleHooks {
    /// Whether the run is to stop after the turn; `None` to leave that to others, as a hook does
    /// that says nothing else.
    fn should_stop_after_turn(&self, _ctx: &HookContext) -> (r: Option<bool>)
        default_ensures
            r is None,
    {
        None
    }
}

/// A hook and the name of the plugin that it comes from.
#[derive(Debug)]
pub struct NamedHook<H> {
    pub id: String,
    pub hook: H,
}

/// Several hooks, asked in the order of their names.
#[derive(Debug)]
pub struct MergedHooks<H> {
    pub hooks: Vec<NamedHook<H>>,
}

/// Where a hook named `id` goes among `hooks`: behind all whose name does not come after it.
pub open spec fn place<H>(hooks: Seq<NamedHook<H>>, id: Seq<char>) -> int
    decreases hooks.len(),
{
    if hooks.len() == 0 {
        0
    } else if text::lex_less(id, hooks.last().id@) {
        place(hooks.drop_last(), id)
    } else {
        hooks.len() as int
    }
}

/// The hooks in the order of their names; those of one name keep their order.
pub open spec fn by_name<H>(hooks: Seq<NamedHook<H>>) -> Seq<NamedHook<H>>
    decreases hooks.len(),
{
    if hooks.len() == 0 {
        Seq::empty()
    } else {
        let init = by_name(hooks.drop_last());
        init.insert(place(init, hooks.last().id@), hooks.last())
    }
}

proof fn lemma_place<H>(hooks: Seq<NamedHook<H>>, id: Seq<char>)
    ensures
        0 <= place(hooks, id) <= hooks.len(),
        forall|j: int|
            place(hooks, id) <= j < hooks.len() ==> text::lex_less(id, (#[trigger] hooks[j]).id@),
        place(hooks, id) > 0 ==> !text::lex_less(id, hooks[place(hooks, id) - 1].id@),
    decreases hooks.len(),
{
    if hooks.len() > 0 && text::lex_less(id, hooks.last().id@) {
        let init = hooks.drop_last();
        lemma_place(init, id);
        assert forall|j: int| place(hooks, id) <= j < hooks.len() implies text::lex_less(
            id,
            (#[trigger] hooks[j]).id@,
        ) by {
            if j < init.len() {
                assert(init[j] == hooks[j]);
            }
        }
    }
}

/// The hooks are all there, in the order of their names.
pub proof fn law_hooks_are_sorted<H>(hooks: Seq<NamedHook<H>>)
    ensures
        by_name(hooks).len() == hooks.len(),
        by_name(hooks).to_multiset() == hooks.to_multiset(),
        forall|i: int, j: int|
            0 <= i < j < hooks.len() ==> !text::lex_less(
                (#[trigger] by_name(hooks)[j]).id@,
                (#[trigger] by_name(hooks)[i]).id@,
            ),
    decreases hooks.len(),
{
    broadcast use vstd::seq_lib::group_to_multiset_ensures;

    if hooks.len() > 0 {
        let rest = hooks.drop_last();
        let h = hooks.last();
        law_hooks_are_sorted(rest);
        let init = by_name(rest);
        let p = place(init, h.id@);
        lemma_place(init, h.id@);
        let all = by_name(hooks);
        assert(all == init.insert(p, h));
        assert(hooks =~= rest.push(h));
        assert(all.to_multiset() =~= init.to_multiset().insert(h));
        assert(rest.push(h).to_multiset() =~= rest.to_multiset().insert(h));
        assert forall|i: int, j: int| 0 <= i < j < hooks.len() implies !text::lex_less(
            (#[trigger] all[j]).id@,
            (#[trigger] all[i]).id@,
        ) by {
            let a = if i < p {
                i
            } else {
                i - 1
            };
            let b = if j < p {
                j
            } else {
                j - 1
            };
            if i != p && j != p {
                assert(!text::lex_less(init[b].id@, init[a].id@));
            } else if i == p {
                // `h` comes before a hook whose name is larger.
                assert(text::lex_less(h.id@, init[b].id@));
                if text::lex_less(init[b].id@, h.id@) {
                    text::lemma_lex_transitive(h.id@, init[b].id@, h.id@);
                    text::lemma_lex_irreflexive(h.id@);
                }
            } else {
                // `h` comes behind one whose name is not larger, and so are those before that.
                if text::lex_less(h.id@, init[a].id@) {
                    assert(!text::lex_less(h.id@, init[p - 1].id@));
                    if a < p - 1 {
                        assert(!text::lex_less(init[p - 1].id@, init[a].id@));
                        text::lemma_lex_total(init[p - 1].id@, init[a].id@);
                        if text::lex_less(init[a].id@, init[p - 1].id@) {
                            text::lemma_lex_transitive(h.id@, init[a].id@, init[p - 1].id@);
                        }
                    }
                }
            }
        }
    } else {
        assert(by_name(hooks) =~= hooks);
    }
}

/// What follows an answer of a hook.
#[derive(Debug, PartialEq)]
pub enum HookStep<R> {
    /// Ask the next hook, if there is one.
    Next,
    /// No further hook is asked.
    Done(R),
}

impl<H> MergedHooks<H> {
    /// Hooks, brought into the order of their names.
    pub fn new(hooks: Vec<NamedHook<H>>) -> (r: Self)
        ensures
            r.hooks@ == by_name(hooks@),
    {
        let ghost all = hooks@;
        let mut out: Vec<NamedHook<H>> = Vec::new();
        let mut n: Ghost<int> = Ghost(0);
        for hook in it: hooks
            invariant
                all == it.seq(),
                n@ == it.index(),
                0 <= n@ <= all.len(),
                out@ == by_name(all.take(n@)),
        {
            let mut at: usize = out.len();
            assert(out@.take(at as int) =~= out@);
            while at > 0 && text::str_less(hook.id.as_str(), out[at - 1].id.as_str())
                invariant
                    at <= out@.len(),
                    place(out@, hook.id@) == place(out@.take(at as int), hook.id@),
                decreases at,
            {
                proof {
                    assert(out@.take(at as int).drop_last() =~= out@.take(at - 1));
                    assert(out@.take(at as int).last() == out@[at - 1]);
                }
                at -= 1;
            }
            proof {
                if at > 0 {
                    assert(out@.take(at as int).last() == out@[at - 1]);
                }
                assert(all.take(n@ + 1).drop_last() =~= all.take(n@));
                assert(all.take(n@ + 1).last() == hook);
                n@ = n@ + 1;
            }
            out.insert(at, hook);
        }
        assert(all.take(all.len() as int) =~= all);
        MergedHooks { hooks: out }
    }

    /// The first refusal decides whether a tool may run; the hooks behind it are not asked.
    pub fn before_tool_call_step(answer: Result<(), HookError>) -> (r: HookStep<HookError>)
        ensures
            r == (match answer {
                Ok(_) => HookStep::Next,
                Err(e) => HookStep::Done(e),
            }),
            forall|rest: Seq<Result<(), HookError>>| #[trigger]
                first_refusal(seq![answer] + rest) == match r {
                    HookStep::Next => first_refusal(rest),
                    HookStep::Done(e) => Some(e),
                },
    {
        proof {
            assert forall|rest: Seq<Result<(), HookError>>| #[trigger]
                first_refusal(seq![answer] + rest) == match answer {
                    Ok(_) => first_refusal(rest),
                    Err(e) => Some(e),
                } by {
                assert((seq![answer] + rest).drop_first() =~= rest);
            }
        }
        match answer {
            Ok(_) => HookStep::Next,
            Err(e) => HookStep::Done(e),
        }
    }

    /// Each hook gets the result that the one before it made. A failure ends that, and the result
    /// stays what the last success made of it.
    pub fn after_tool_call_step(
        current: ToolResult,
        answer: Result<ToolResult, HookError>,
    ) -> (r: (ToolResult, HookStep<()>))
        ensures
            match answer {
                Ok(t) => r.0 == t && r.1 is Next,
                Err(_) => r.0 == current && r.1 is Done,
            },
            forall|rest: Seq<Result<ToolResult, HookError>>| #[trigger]
                last_success(current, seq![answer] + rest) == match r.1 {
                    HookStep::Next => last_success(r.0, rest),
                    HookStep::Done(_) => r.0,
                },
    {
        proof {
            assert forall|rest: Seq<Result<ToolResult, HookError>>| #[trigger]
                last_success(current, seq![answer] + rest) == match answer {
                    Ok(t) => last_success(t, rest),
                    Err(_) => current,
                } by {
                assert((seq![answer] + rest).drop_first() =~= rest);
            }
        }
        match answer {
            Ok(t) => (t, HookStep::Next),
            Err(_) => (current, HookStep::Done(())),
        }
    }

    /// The messages of the hooks are put one behind the other. A failure ends that; what was
    /// gathered before it stays.
    pub fn prepare_next_turn_step(
        gathered: &mut Vec<Message>,
        answer: Result<Vec<Message>, HookError>,
    ) -> (r: HookStep<()>)
        ensures
            match answer {
                Ok(msgs) => final(gathered)@ == old(gathered)@ + msgs@ && r is Next,
                Err(_) => final(gathered)@ == old(gathered)@ && r is Done,
            },
            forall|rest: Seq<Result<Vec<Message>, HookError>>|
                old(gathered)@ + #[trigger] messages_of(seq![answer] + rest) == match r {
                    HookStep::Next => final(gathered)@ + messages_of(rest),
                    HookStep::Done(_) => final(gathered)@,
                },
    {
        proof {
            assert forall|rest: Seq<Result<Vec<Message>, HookError>>|
                old(gathered)@ + #[trigger] messages_of(seq![answer] + rest) == match answer {
                    Ok(msgs) => old(gathered)@ + msgs@ + messages_of(rest),
                    Err(_) => old(gathered)@,
                } by {
                assert((seq![answer] + rest).drop_first() =~= rest);
                assert(old(gathered)@ + messages_of(seq![answer] + rest) =~= match answer {
                    Ok(msgs) => old(gathered)@ + msgs@ + messages_of(rest),
                    Err(_) => old(gathered)@,
                });
            }
        }
        match answer {
            Ok(msgs) => {
                let mut msgs = msgs;
                gathered.append(&mut msgs);
                HookStep::Next
            },
            Err(_) => HookStep::Done(()),
        }
    }
}

/// Whether a hook can have answered that the run need not stop.
pub open spec fn lets_go_on<H: LifecycleHooks>(hook: &H, ctx: &HookContext) -> bool {
    exists|a: Option<bool>|
        a != Some(true) && #[trigger] call_ensures(H::should_stop_after_turn, (hook, ctx), a)
}

/// Whether none of `hooks` has to have answered that the run is to stop.
pub open spec fn none_stops<H: LifecycleHooks>(
    hooks: Seq<NamedHook<H>>,
    ctx: &HookContext,
) -> bool {
    forall|i: int| 0 <= i < hooks.len() ==> lets_go_on(&(#[trigger] hooks[i]).hook, ctx)
}

impl<H: LifecycleHooks> MergedHooks<H> {
    /// Whether the run is to stop: if any hook says so. Hooks behind the first one that says so
    /// are not asked.
    pub fn should_stop_after_turn(&self, ctx: &HookContext) -> (r: Option<bool>)
        requires
            forall|i: int|
                0 <= i < self.hooks@.len() ==> call_requires(
                    H::should_stop_after_turn,
                    (&(#[trigger] self.hooks@[i]).hook, ctx),
                ),
        ensures
            r matches Some(b) ==> b,
            r is Some ==> exists|i: int|
                {
                    &&& 0 <= i < self.hooks@.len()
                    &&& call_ensures(
                        H::should_stop_after_turn,
                        (&(#[trigger] self.hooks@[i]).hook, ctx),
                        Some(true),
                    )
                    &&& forall|j: int|
                        0 <= j < i ==> lets_go_on(&(#[trigger] self.hooks@[j]).hook, ctx)
                },
            r is None ==> none_stops(self.hooks@, ctx),
    {
        let mut i: usize = 0;
        while i < self.hooks.len()
            invariant
                i <= self.hooks@.len(),
                forall|k: int|
                    0 <= k < self.hooks@.len() ==> call_requires(
                        H::should_stop_after_turn,
                        (&(#[trigger] self.hooks@[k]).hook, ctx),
                    ),
                forall|k: int|
                    0 <= k < i ==> lets_go_on(&(#[trigger] self.hooks@[k]).hook, ctx),
            decreases self.hooks@.len() - i,
        {
            let answer = self.hooks[i].hook.should_stop_after_turn(ctx);
            match answer {
                Some(stop) => {
                    if stop {
                        return Some(true);
                    }
                },
                None => {},
            }
            proof {
                assert(answer != Some(true));
                assert(call_ensures(
                    H::should_stop_after_turn,
                    (&self.hooks@[i as int].hook, ctx),
                    answer,
                ));
            }
            i += 1;
        }
        None
    }
}

/// What the answers of the hooks before a tool call come to: the first refusal.
pub open spec fn first_refusal(answers: Seq<Result<(), HookError>>) -> Option<HookError>
    decreases answers.len(),
{
    if answers.len() == 0 {
        None
    } else {
        match answers[0] {
            Err(e) => Some(e),
            Ok(_) => first_refusal(answers.drop_first()),
        }
    }
}

/// The hooks in a row: what the answers after a tool call come to.
pub open spec fn last_success(
    result: ToolResult,
    answers: Seq<Result<ToolResult, HookError>>,
) -> ToolResult
    decreases answers.len(),
{
    if answers.len() == 0 {
        result
    } else {
        match answers[0] {
            Ok(t) => last_success(t, answers.drop_first()),
            Err(_) => result,
        }
    }
}

/// What the answers of the hooks before the next turn come to: their messages, up to the first
/// failure.
pub open spec fn messages_of(answers: Seq<Result<Vec<Message>, HookError>>) -> Seq<Message>
    decreases answers.len(),
{
    if answers.len() == 0 {
        Seq::empty()
    } else {
        match answers[0] {
            Ok(msgs) => msgs@ + messages_of(answers.drop_first()),
            Err(_) => Seq::empty(),
        }
    }
}

/// A hook that fails takes nothing away from the messages of the hooks before it, and keeps those
/// of the hooks behind it out.
pub proof fn law_messages_before_a_failure_stay(
    before: Seq<Result<Vec<Message>, HookError>>,
    failure: HookError,
    behind: Seq<Result<Vec<Message>, HookError>>,
)
    ensures
        messages_of(before + seq![Err(failure)] + behind) == messages_of(before),
    decreases before.len(),
{
    let all = before + seq![Err::<Vec<Message>, HookError>(failure)] + behind;
    if before.len() > 0 {
        assert(all[0] == before[0]);
        law_messages_before_a_failure_stay(before.drop_first(), failure, behind);
        assert(all.drop_first() =~= before.drop_first() + seq![
            Err::<Vec<Message>, HookError>(failure),
        ] + behind);
    } else {
        assert(all[0] == Err::<Vec<Message>, HookError>(failure));
    }
}

/// A tool runs only if no hook refuses it.
pub proof fn law_every_hook_can_refuse(answers: Seq<Result<(), HookError>>)
    ensures
        first_refusal(answers) is None <==> forall|i: int|
            0 <= i < answers.len() ==> (#[trigger] answers[i]) is Ok,
    decreases answers.len(),
{
    if answers.len() > 0 {
        let rest = answers.drop_first();
        law_every_hook_can_refuse(rest);
        if answers[0] is Ok {
            if first_refusal(answers) is None {
                assert forall|i: int| 0 <= i < answers.len() implies (
                #[trigger] answers[i]) is Ok by {
                    if i > 0 {
                        assert(rest[i - 1] is Ok);
                    }
                }
            } else {
                let i = choose|i: int| 0 <= i < rest.len() && !((#[trigger] rest[i]) is Ok);
                assert(!(answers[i + 1] is Ok));
            }
        }
    }
}

/// If no hook fails, the result is what the last hook made of it.
pub proof fn law_last_hook_makes_the_result(
    result: ToolResult,
    answers: Seq<Result<ToolResult, HookError>>,
)
    requires
        answers.len() > 0,
        forall|i: int| 0 <= i < answers.len() ==> (#[trigger] answers[i]) is Ok,
    ensures
        last_success(result, answers) == answers.last()->Ok_0,
    decreases answers.len(),
{
    reveal_with_fuel(last_success, 2);
    assert(answers[0] is Ok);
    if answers.len() > 1 {
        let rest = answers.drop_first();
        assert forall|i: int| 0 <= i < rest.len() implies (#[trigger] rest[i]) is Ok by {
            assert(answers[i + 1] is Ok);
        }
        law_last_hook_makes_the_result(answers[0]->Ok_0, rest);
        assert(rest.last() == answers.last());
    }
}

/// A hook that fails leaves the result as the hooks before it made it, and the hooks behind it do
/// not change it.
pub proof fn law_failing_hooks_change_nothing(
    result: ToolResult,
    before: Seq<Result<ToolResult, HookError>>,
    failure: HookError,
    behind: Seq<Result<ToolResult, HookError>>,
)
    ensures
        last_success(result, before + seq![Err(failure)] + behind) == last_success(result, before),
    decreases before.len(),
{
    let failed = Err::<ToolResult, HookError>(failure);
    let all = before + seq![failed] + behind;
    if before.len() > 0 {
        assert(all[0] == before[0]);
        if let Ok(t) = before[0] {
            law_failing_hooks_change_nothing(t, before.drop_first(), failure, behind);
            assert(all.drop_first() =~= before.drop_first() + seq![failed] + behind);
        }
    } else {
        assert(all[0] == failed);
    }
}

/// Hooks of one name are asked in the order in which they were given.
pub proof fn law_hooks_of_one_name_keep_their_order<H>(hooks: Seq<NamedHook<H>>, id: Seq<char>)
    ensures
        by_name(hooks).filter(|h: NamedHook<H>| h.id@ == id) == hooks.filter(
            |h: NamedHook<H>| h.id@ == id,
        ),
    decreases hooks.len(),
{
    reveal(Seq::filter);
    let named = |h: NamedHook<H>| h.id@ == id;
    if hooks.len() > 0 {
        let rest = hooks.drop_last();
        let h = hooks.last();
        law_hooks_of_one_name_keep_their_order(rest, id);
        let init = by_name(rest);
        let p = place(init, h.id@);
        lemma_place(init, h.id@);
        let a = init.take(p);
        let b = init.skip(p);
        let one = seq![h];
        assert(init =~= a + b);
        assert(by_name(hooks) =~= a + one + b);
        Seq::filter_distributes_over_add(a, b, named);
        Seq::filter_distributes_over_add(a + one, b, named);
        Seq::filter_distributes_over_add(a, one, named);
        assert(one.drop_last() =~= Seq::empty());
        reveal_with_fuel(Seq::<_>::filter, 2);
        if h.id@ == id {
            assert forall|j: int| 0 <= j < b.len() implies (#[trigger] b[j]).id@ != id by {
                assert(b[j] == init[p + j]);
                text::lemma_lex_irreflexive(id);
            }
            lemma_no_such_name(b, id);
            assert(b.filter(named) =~= Seq::empty());
            assert(by_name(hooks).filter(named) =~= rest.filter(named).push(h));
        } else {
            assert(one.filter(named) =~= Seq::empty());
            assert(by_name(hooks).filter(named) =~= rest.filter(named));
        }
    }
}

proof fn lemma_no_such_name<H>(hooks: Seq<NamedHook<H>>, id: Seq<char>)
    requires
        forall|j: int| 0 <= j < hooks.len() ==> (#[trigger] hooks[j]).id@ != id,
    ensures
        hooks.filter(|h: NamedHook<H>| h.id@ == id).len() == 0,
    decreases hooks.len(),
{
    reveal(Seq::filter);
    if hooks.len() > 0 {
        assert(hooks[hooks.len() - 1].id@ != id);
        lemma_no_such_name(hooks.drop_last(), id);
    }
}

/// The refusal that counts is the first one: that of the hook before which no other refused.
pub proof fn law_first_refusal_counts(answers: Seq<Result<(), HookError>>, at: int)
    requires
        0 <= at < answers.len(),
        answers[at] is Err,
        forall|i: int| 0 <= i < at ==> (#[trigger] answers[i]) is Ok,
    ensures
        first_refusal(answers) == Some(answers[at]->Err_0),
    decreases at,
{
    if at > 0 {
        assert(answers[0] is Ok);
        let rest = answers.drop_first();
        assert forall|i: int| 0 <= i < at - 1 implies (#[trigger] rest[i]) is Ok by {
            assert(answers[i + 1] is Ok);
        }
        law_first_refusal_counts(rest, at - 1);
    }
}

/// The messages of all hooks are taken, one hook after the other.
pub proof fn law_messages_of_every_hook_are_taken(
    a: Seq<Result<Vec<Message>, HookError>>,
    b: Seq<Result<Vec<Message>, HookError>>,
    messages: Vec<Message>,
)
    requires
        forall|i: int| 0 <= i < a.len() ==> (#[trigger] a[i]) is Ok,
    ensures
        messages_of(a + b) == messages_of(a) + messages_of(b),
        messages_of(seq![Ok(messages)]) == messages@,
        messages_of(Seq::<Result<Vec<Message>, HookError>>::empty()).len() == 0,
    decreases a.len(),
{
    reveal_with_fuel(messages_of, 2);
    let one = seq![Ok::<Vec<Message>, HookError>(messages)];
    assert(one.drop_first() =~= Seq::empty());
    assert(messages_of(one) =~= messages@);
    if a.len() > 0 {
        assert(a[0] is Ok);
        let rest = a.drop_first();
        assert forall|i: int| 0 <= i < rest.len() implies (#[trigger] rest[i]) is Ok by {
            assert(a[i + 1] is Ok);
        }
        law_messages_of_every_hook_are_taken(rest, b, messages);
        assert((a + b).drop_first() =~= rest + b);
        assert((a + b)[0] == a[0]);
        assert(messages_of(a + b) =~= messages_of(a) + messages_of(b));
    } else {
        assert(a + b =~= b);
        assert(messages_of(a + b) =~= messages_of(a) + messages_of(b));
    }
}

/// Where no hook is asked the result stays as it is.
pub proof fn law_result_stays_without_hooks(
    result: ToolResult,
    answers: Seq<Result<ToolResult, HookError>>,
)
    requires
        answers.len() == 0 || answers[0] is Err,
    ensures
        last_success(result, answers) == result,
{
}

/// Any hook can stop the run: where one cannot but say so, the run stops. Where none can say so, it
/// goes on.
pub proof fn law_any_hook_can_stop_the_run<H: LifecycleHooks>(
    merged: &MergedHooks<H>,
    ctx: &HookContext,
    r: Option<bool>,
    i: int,
)
    requires
        forall|k: int|
            0 <= k < merged.hooks@.len() ==> call_requires(
                H::should_stop_after_turn,
                (&(#[trigger] merged.hooks@[k]).hook, ctx),
            ),
        call_ensures(MergedHooks::<H>::should_stop_after_turn, (merged, ctx), r),
    ensures
        0 <= i < merged.hooks@.len() && (forall|a: Option<bool>| #[trigger]
            call_ensures(H::should_stop_after_turn, (&merged.hooks@[i].hook, ctx), a) ==> a
                == Some(true)) ==> r == Some(true),
        (forall|k: int, a: Option<bool>|
            0 <= k < merged.hooks@.len() && #[trigger] call_ensures(
                H::should_stop_after_turn,
                (&merged.hooks@[k].hook, ctx),
                a,
            ) ==> a != Some(true)) ==> r is None,
        r matches Some(stop) ==> stop,
{
    if r is None && 0 <= i < merged.hooks@.len() {
        assert(lets_go_on(&merged.hooks@[i].hook, ctx));
    }
}

/// Hooks are asked one after the other until one refuses or fails.
pub proof fn law_failure_ends_the_asking<H>(
    refusal: Result<(), HookError>,
    asked: HookStep<HookError>,
    current: ToolResult,
    changed: Result<ToolResult, HookError>,
    after: (ToolResult, HookStep<()>),
)
    requires
        call_ensures(MergedHooks::<H>::before_tool_call_step, (refusal,), asked),
        call_ensures(MergedHooks::<H>::after_tool_call_step, (current, changed), after),
    ensures
        asked is Next <==> refusal is Ok,
        refusal matches Err(e) ==> asked == HookStep::Done(e),
        after.1 is Next <==> changed is Ok,
        changed matches Ok(t) ==> after.0 == t,
        changed is Err ==> after.0 == current,
{
}

/// The messages of a hook join those of the hooks before it; a hook that fails takes none away and
/// ends the asking.
pub proof fn law_messages_are_gathered<H>()
    ensures
        forall|
            gathered: &mut Vec<Message>,
            answer: Result<Vec<Message>, HookError>,
            r: HookStep<()>,
        | #[trigger]
            call_ensures(MergedHooks::<H>::prepare_next_turn_step, (gathered, answer), r) ==> {
                &&& r is Next <==> answer is Ok
                &&& gathered@.is_prefix_of(final(gathered)@)
                &&& answer matches Ok(messages) ==> final(gathered)@.skip(gathered@.len() as int)
                    == messages@
                &&& answer is Err ==> final(gathered)@ == gathered@
            },
{
    assert forall|
        gathered: &mut Vec<Message>,
        answer: Result<Vec<Message>, HookError>,
        r: HookStep<()>,
    | #[trigger]
        call_ensures(MergedHooks::<H>::prepare_next_turn_step, (gathered, answer), r) implies {
        &&& gathered@.is_prefix_of(final(gathered)@)
        &&& answer matches Ok(messages) ==> final(gathered)@.skip(gathered@.len() as int)
            == messages@
    } by {
        let n = gathered@.len() as int;
        assert(final(gathered)@.subrange(0, n) =~= gathered@);
        if answer is Ok {
            assert(final(gathered)@.skip(n) =~= answer->Ok_0@);
        }
    }
}

} // verus!
