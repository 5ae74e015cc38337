//! The loop of an agent, step by step. A run is driven from outside: each step says what to
//! report and what to do next, and is answered with what came of it.
use std::collections::VecDeque;
use std::sync::Arc;
use vstd::prelude::*;
use vstd::string::*;

use crate::agent::AgentCommand;
use crate::context;
use crate::context::{CompactionCommit, CompactionPolicy};
use crate::event::AgentEvent;
use crate::json;
use crate::message::{
    AssistantContent, AssistantMessage, AssistantMessageView, Message, StopReason, ThinkingLevel, ToolCall,
    ToolResultMessage, ToolResultMessageView,
};
use crate::provider::{Context, Model, ProviderRequest};
use crate::runtime::commands;
use crate::runtime::tools;
use crate::runtime::tools::{ToolExecutionMode, ToolInfo};
use crate::runtime::turn;
use crate::runtime::turn::{RetryPolicy, TurnResult};
use crate::text;
use crate::tool::ToolResult;

verus! {

/// How the loop of an agent is set up.
#[derive(Debug)]
pub struct LoopConfig {
    pub model: Model,
    pub tool_execution: ToolExecutionMode,
    pub retry: RetryPolicy,
    /// How long to wait for the provider to take a request, in nanoseconds; `None` for ever.
    pub request_timeout: Option<u128>,
    pub compaction: CompactionPolicy,
}

impl Default for LoopConfig {
    fn default() -> (r: Self)
        ensures
            r.model.id@ == "default"@,
            r.model.context_window == 8192,
            r.tool_execution == ToolExecutionMode::Sequential,
            r.retry.max_retries == 3,
            r.retry.base_delay == 500_000_000,
            r.retry.max_delay == 30_000_000_000,
            r.request_timeout is None,
            r.compaction.budget_tokens == usize::MAX,
            r.compaction.keep_recent == 1,
            r.compaction.reserve_output_tokens == 0,
            r.compaction.protocol_wrapper_tokens == 0,
    {
        LoopConfig {
            model: Model { id: "default".to_owned(), context_window: 8192 },
            tool_execution: ToolExecutionMode::Sequential,
            retry: RetryPolicy {
                max_retries: 3,
                base_delay: 500_000_000,
                max_delay: 30_000_000_000,
            },
            request_timeout: None,
            compaction: CompactionPolicy::default(),
        }
    }
}

/// What the tools take up in a request: for each its name, its description and its parameters.
pub open spec fn schemas_text(tools: Seq<ToolInfo>) -> Seq<char>
    decreases tools.len(),
{
    if tools.len() == 0 {
        Seq::empty()
    } else {
        let t = tools.last();
        schemas_text(tools.drop_last()) + t.name@ + t.description@ + json::parameters_debug(
            t.parameters,
        )
    }
}

/// What the tools take up in a request.
pub fn tool_schemas(tools: &[ToolInfo]) -> (r: String)
    ensures
        r@ == schemas_text(tools@),
{
    let mut out = String::new();
    let mut i: usize = 0;
    while i < tools.len()
        invariant
            i <= tools@.len(),
            out@ == schemas_text(tools@.take(i as int)),
        decreases tools@.len() - i,
    {
        proof {
            assert(tools@.take(i + 1).drop_last() =~= tools@.take(i as int));
        }
        out.append(tools[i].name.as_str());
        out.append(tools[i].description.as_str());
        let parameters = json::parameters_text(&tools[i].parameters);
        out.append(parameters.as_str());
        i += 1;
    }
    assert(tools@.take(tools@.len() as int) =~= tools@);
    out
}

/// The tokens that each request takes besides its messages.
pub open spec fn overhead_of(
    system_prompt: Seq<char>,
    schemas: Seq<char>,
    wrapper: nat,
) -> nat {
    context::least(
        context::tokens_of(system_prompt) + context::tokens_of(schemas) + wrapper,
        u32::MAX as nat,
    )
}

/// What is left of the window of the model.
pub open spec fn room_of(window: nat, reserve: nat) -> nat {
    if window >= reserve {
        (window - reserve) as nat
    } else {
        0
    }
}

/// Cuts the messages of a request to the window of the model, whether or not they were
/// compacted before.
pub fn project_request(
    config: &LoopConfig,
    system_prompt: &str,
    tools: &[ToolInfo],
    messages: &[Arc<Message>],
) -> (r: Vec<Arc<Message>>)
    ensures
        context::is_truncation(
            messages@,
            room_of(
                config.model.context_window as nat,
                config.compaction.reserve_output_tokens as nat,
            ),
            overhead_of(
                system_prompt@,
                schemas_text(tools@),
                config.compaction.protocol_wrapper_tokens as nat,
            ),
            r@,
        ),
{
    let schemas = tool_schemas(tools);
    let budget = context::ContextBudget::with_overhead(
        config.model.context_window,
        system_prompt,
        schemas.as_str(),
        config.compaction.reserve_output_tokens,
        config.compaction.protocol_wrapper_tokens,
    );
    budget.truncate(messages)
}

/// The request of a turn.
pub fn build_request(
    config: &LoopConfig,
    system_prompt: &str,
    thinking_level: ThinkingLevel,
    infos: &[ToolInfo],
    messages: Vec<Message>,
) -> (r: ProviderRequest)
    ensures
        r.model == config.model,
        r.context.system_prompt@ == system_prompt@,
        r.context.messages == messages,
        r.context.tools@.len() == infos@.len(),
        forall|i: int|
            0 <= i < infos@.len() ==> {
                &&& (#[trigger] r.context.tools@[i]).name == infos@[i].name
                &&& r.context.tools@[i].description == infos@[i].description
                &&& r.context.tools@[i].parameters == infos@[i].parameters
            },
        r.thinking_level == thinking_level,
        r.session_id is None,
{
    ProviderRequest {
        model: config.model.clone(),
        context: Context {
            system_prompt: system_prompt.to_owned(),
            messages,
            tools: tools::tool_specs(infos),
        },
        thinking_level,
        session_id: None,
    }
}

/// What an agent holds between its runs: the transcript, the commands that wait, and how many
/// commands were dealt with.
#[derive(Debug)]
pub struct RuntimeState {
    pub transcript: Vec<Arc<Message>>,
    pub queue: VecDeque<AgentCommand>,
    pub processed: u64,
}

/// What a command asks for.
#[derive(Debug)]
pub enum CommandPlan {
    /// Run with these messages.
    Run(Vec<Message>),
    /// Nothing.
    Nothing,
    /// The transcript and the queue were cleared.
    Cleared { discarded: u64 },
    /// End the agent.
    Exit,
}

impl RuntimeState {
    /// An agent with a transcript and nothing to do.
    pub fn new(transcript: Vec<Arc<Message>>) -> (r: Self)
        ensures
            r.transcript == transcript,
            r.queue@.len() == 0,
            r.processed == 0,
    {
        RuntimeState { transcript, queue: VecDeque::new(), processed: 0 }
    }

    /// The oldest command that waits. Commands that wait come before those that arrive later.
    pub fn next_command(&mut self) -> (r: Option<AgentCommand>)
        ensures
            final(self).transcript == old(self).transcript,
            final(self).processed == old(self).processed,
            match r {
                Some(cmd) => old(self).queue@.len() > 0 && cmd == old(self).queue@[0]
                    && final(self).queue@ == old(self).queue@.skip(1),
                None => old(self).queue@.len() == 0 && final(self).queue@ == old(self).queue@,
            },
    {
        let r = self.queue.pop_front();
        assert(r is Some ==> self.queue@ =~= old(self).queue@.skip(1));
        r
    }

    /// Decides what a command asks for. A reset is carried out at once.
    pub fn process_command(&mut self, cmd: AgentCommand) -> (r: CommandPlan)
        ensures
            final(self).processed == old(self).processed,
            cmd is Reset ==> {
                &&& final(self).transcript@.len() == 0
                &&& final(self).queue@.len() == 0
                &&& r == (CommandPlan::Cleared { discarded: old(self).queue@.len() as u64 })
            },
            !(cmd is Reset) ==> {
                &&& final(self).transcript == old(self).transcript
                &&& final(self).queue == old(self).queue
            },
            match cmd {
                AgentCommand::Prompt(msgs) => r == CommandPlan::Run(msgs),
                AgentCommand::Steer(msg) => r matches CommandPlan::Run(msgs) && msgs@ == seq![msg],
                AgentCommand::FollowUp(msg) => r matches CommandPlan::Run(msgs) && msgs@
                    == seq![msg],
                AgentCommand::Continue => r matches CommandPlan::Run(msgs) && msgs@.len() == 0,
                AgentCommand::Abort => r is Nothing,
                AgentCommand::Reset => r is Cleared,
                AgentCommand::Shutdown => r is Exit,
            },
    {
        match cmd {
            AgentCommand::Prompt(msgs) => CommandPlan::Run(msgs),
            AgentCommand::Steer(msg) => {
                let mut msgs: Vec<Message> = Vec::new();
                msgs.push(msg);
                assert(msgs@ =~= seq![msg]);
                CommandPlan::Run(msgs)
            },
            AgentCommand::FollowUp(msg) => {
                let mut msgs: Vec<Message> = Vec::new();
                msgs.push(msg);
                assert(msgs@ =~= seq![msg]);
                CommandPlan::Run(msgs)
            },
            AgentCommand::Continue => CommandPlan::Run(Vec::new()),
            AgentCommand::Abort => CommandPlan::Nothing,
            AgentCommand::Reset => {
                let discarded: u64 = self.queue.len() as u64;
                self.transcript = Vec::new();
                self.queue = VecDeque::new();
                CommandPlan::Cleared { discarded }
            },
            AgentCommand::Shutdown => CommandPlan::Exit,
        }
    }

    /// Counts a command as dealt with, and `extra` more that went with it. Stays at the largest
    /// number.
    pub fn settle(&mut self, extra: u64)
        ensures
            final(self).transcript == old(self).transcript,
            final(self).queue == old(self).queue,
            final(self).processed == context::least(
                old(self).processed as nat + 1 + extra as nat,
                u64::MAX as nat,
            ),
    {
        self.processed = plus(plus(self.processed, 1), extra);
    }
}

fn plus(a: u64, b: u64) -> (r: u64)
    ensures
        r == context::least(a as nat + b as nat, u64::MAX as nat),
{
    if a > u64::MAX - b {
        u64::MAX
    } else {
        a + b
    }
}

/// Something to report.
#[derive(Debug)]
pub enum RunEffect {
    Emit(AgentEvent),
    /// Show this transcript to the outside.
    Publish { messages: Vec<Arc<Message>>, error_message: Option<String> },
}

/// Something to report.
pub enum EffectView {
    AgentStart,
    AgentEnd(Seq<Arc<Message>>),
    TurnStart,
    TurnEnd(AssistantMessageView, Seq<ToolResultMessageView>),
    MessageStart(Arc<Message>),
    MessageEnd(Arc<Message>),
    Publish(Seq<Arc<Message>>, Option<String>),
    Other,
}

impl View for RunEffect {
    type V = EffectView;

    open spec fn view(&self) -> EffectView {
        match self {
            RunEffect::Emit(AgentEvent::AgentStart) => EffectView::AgentStart,
            RunEffect::Emit(AgentEvent::AgentEnd { messages }) => EffectView::AgentEnd(messages@),
            RunEffect::Emit(AgentEvent::TurnStart) => EffectView::TurnStart,
            RunEffect::Emit(
                AgentEvent::TurnEnd { message, tool_results },
            ) => EffectView::TurnEnd(message@, results_view(tool_results@)),
            RunEffect::Emit(AgentEvent::MessageStart { message }) => EffectView::MessageStart(
                *message,
            ),
            RunEffect::Emit(AgentEvent::MessageEnd { message }) => EffectView::MessageEnd(
                *message,
            ),
            RunEffect::Publish { messages, error_message } => EffectView::Publish(
                messages@,
                *error_message,
            ),
            _ => EffectView::Other,
        }
    }
}

/// The contents of tool results.
pub open spec fn results_view(results: Seq<ToolResultMessage>) -> Seq<ToolResultMessageView> {
    results.map_values(|m: ToolResultMessage| m@)
}

/// What there is to report.
pub open spec fn effects_view(effects: Seq<RunEffect>) -> Seq<EffectView> {
    effects.map_values(|e: RunEffect| e@)
}

/// Where a run stands, as its reports show it.
pub enum TracePhase {
    /// Before the start of the agent is reported.
    Before,
    /// Between two turns.
    Between,
    InTurn,
    /// The end of the agent is reported.
    After,
    /// The reports make no sense.
    Broken,
}

/// Where a run stands after one more report.
pub open spec fn trace_step(p: TracePhase, e: EffectView) -> TracePhase {
    match (p, e) {
        (TracePhase::Before, EffectView::AgentStart) => TracePhase::Between,
        (TracePhase::Between, EffectView::TurnStart) => TracePhase::InTurn,
        (TracePhase::InTurn, EffectView::TurnEnd(_, _)) => TracePhase::Between,
        (TracePhase::Between, EffectView::AgentEnd(_)) => TracePhase::After,
        (TracePhase::Before, EffectView::MessageStart(_)) => p,
        (TracePhase::Before, EffectView::MessageEnd(_)) => p,
        (TracePhase::Before, EffectView::Publish(_, _)) => p,
        (TracePhase::Between, EffectView::MessageStart(_)) => p,
        (TracePhase::Between, EffectView::MessageEnd(_)) => p,
        (TracePhase::Between, EffectView::Publish(_, _)) => p,
        (TracePhase::InTurn, EffectView::MessageStart(_)) => p,
        (TracePhase::InTurn, EffectView::MessageEnd(_)) => p,
        (TracePhase::InTurn, EffectView::Publish(_, _)) => p,
        (TracePhase::InTurn, EffectView::Other) => p,
        _ => TracePhase::Broken,
    }
}

/// Where a run stands after `effects`.
pub open spec fn trace(p: TracePhase, effects: Seq<EffectView>) -> TracePhase
    decreases effects.len(),
{
    if effects.len() == 0 {
        p
    } else {
        trace_step(trace(p, effects.drop_last()), effects.last())
    }
}

/// Reports of one step after those of another lead on from where those ended.
pub proof fn law_traces_compose(p: TracePhase, a: Seq<EffectView>, b: Seq<EffectView>)
    ensures
        trace(p, a + b) == trace(trace(p, a), b),
    decreases b.len(),
{
    if b.len() == 0 {
        assert(a + b =~= a);
    } else {
        assert((a + b).drop_last() =~= a + b.drop_last());
        law_traces_compose(p, a, b.drop_last());
    }
}

/// Where in a run the commands are looked at.
#[derive(Debug, Clone, Copy, PartialEq, Eq, Structural)]
pub enum DrainPoint {
    /// After a message that the run began with.
    Initial,
    /// After a turn without tool calls.
    NoTools,
    /// After a turn with tool calls.
    AfterTools,
}

/// What to do next in a run.
#[derive(Debug)]
pub enum RunRequest {
    /// Take the commands that have arrived.
    Drain(DrainPoint),
    /// Prepare the next request and stream the turn.
    Prepare,
    /// Run these tool calls.
    RunTools(Vec<ToolCall>),
    /// Ask whether the run is to stop after this turn.
    AskStop,
    /// Ask for messages to add before the next turn.
    AskNext,
    /// The run is over.
    Finished,
}

/// Where a run stands when it asks for `request`.
pub open spec fn phase_of(request: RunRequest) -> TracePhase {
    match request {
        RunRequest::Drain(DrainPoint::Initial) => TracePhase::Before,
        RunRequest::Prepare => TracePhase::InTurn,
        RunRequest::RunTools(_) => TracePhase::InTurn,
        RunRequest::Finished => TracePhase::After,
        _ => TracePhase::Between,
    }
}

/// A step of a run: what to report, and what to do next.
#[derive(Debug)]
pub struct RunStep {
    pub effects: Vec<RunEffect>,
    pub next: RunRequest,
}

/// A run.
#[derive(Debug)]
pub struct AgentRun {
    /// The messages that the run begins with and that are not in the transcript yet.
    pub initial: VecDeque<Message>,
    /// The message of the turn whose tools are being run.
    pub current: Option<Arc<AssistantMessage>>,
    /// How many steering and follow-up messages the run took in.
    pub consumed: u64,
    pub shutdown: bool,
}

/// Whether `after` is `before` with `msgs` added.
pub open spec fn appended(
    before: Seq<Arc<Message>>,
    after: Seq<Arc<Message>>,
    msgs: Seq<Message>,
) -> bool {
    &&& after.len() == before.len() + msgs.len()
    &&& after.take(before.len() as int) == before
    &&& forall|i: int| 0 <= i < msgs.len() ==> *(#[trigger] after[before.len() + i]) == msgs[i]
}

/// The reports for the messages of `t` from `from` on: each begins, is shown, and ends.
pub open spec fn message_effects(t: Seq<Arc<Message>>, from: int) -> Seq<EffectView>
    decreases t.len() - from,
{
    if from >= t.len() {
        Seq::empty()
    } else {
        seq![
            EffectView::MessageStart(t[from]),
            EffectView::Publish(t.take(from + 1), None),
            EffectView::MessageEnd(t[from]),
        ] + message_effects(t, from + 1)
    }
}

proof fn lemma_message_effects_push(t: Seq<Arc<Message>>, m: Arc<Message>, from: int)
    requires
        0 <= from <= t.len(),
    ensures
        message_effects(t.push(m), from) == message_effects(t, from) + seq![
            EffectView::MessageStart(m),
            EffectView::Publish(t.push(m), None),
            EffectView::MessageEnd(m),
        ],
    decreases t.len() - from,
{
    let u = t.push(m);
    if from == t.len() {
        assert(u.take(from + 1) =~= u);
        assert(message_effects(u, from + 1) =~= Seq::empty());
        assert(message_effects(u, from) =~= message_effects(t, from) + seq![
            EffectView::MessageStart(m),
            EffectView::Publish(u, None),
            EffectView::MessageEnd(m),
        ]);
    } else {
        lemma_message_effects_push(t, m, from + 1);
        assert(u.take(from + 1) =~= t.take(from + 1));
        assert(message_effects(u, from) =~= message_effects(t, from) + seq![
            EffectView::MessageStart(m),
            EffectView::Publish(u, None),
            EffectView::MessageEnd(m),
        ]);
    }
}

proof fn lemma_trace_of_messages(p: TracePhase, t: Seq<Arc<Message>>, from: int)
    requires
        p is Before || p is Between,
    ensures
        trace(p, message_effects(t, from)) == p,
    decreases t.len() - from,
{
    if 0 <= from < t.len() || from < t.len() {
        let three = seq![
            EffectView::MessageStart(t[from]),
            EffectView::Publish(t.take(from + 1), None),
            EffectView::MessageEnd(t[from]),
        ];
        lemma_trace_of_messages(p, t, from + 1);
        law_traces_compose(p, three, message_effects(t, from + 1));
        lemma_trace3(p, three[0], three[1], three[2]);
        assert(three =~= seq![three[0], three[1], three[2]]);
    }
}

proof fn lemma_trace1(p: TracePhase, a: EffectView)
    ensures
        trace(p, seq![a]) == trace_step(p, a),
{
    assert(seq![a].drop_last() =~= Seq::<EffectView>::empty());
    assert(trace(p, Seq::<EffectView>::empty()) == p);
}

proof fn lemma_trace2(p: TracePhase, a: EffectView, b: EffectView)
    ensures
        trace(p, seq![a, b]) == trace_step(trace_step(p, a), b),
{
    lemma_trace1(p, a);
    assert(seq![a, b].drop_last() =~= seq![a]);
}

proof fn lemma_trace3(p: TracePhase, a: EffectView, b: EffectView, c: EffectView)
    ensures
        trace(p, seq![a, b, c]) == trace_step(trace_step(trace_step(p, a), b), c),
{
    lemma_trace2(p, a, b);
    assert(seq![a, b, c].drop_last() =~= seq![a, b]);
}

/// A copy of the transcript.
fn shared(messages: &Vec<Arc<Message>>) -> (r: Vec<Arc<Message>>)
    ensures
        r@ == messages@,
{
    let mut out: Vec<Arc<Message>> = Vec::new();
    let mut i: usize = 0;
    while i < messages.len()
        invariant
            i <= messages@.len(),
            out@ == messages@.take(i as int),
        decreases messages@.len() - i,
    {
        out.push(messages[i].clone());
        i += 1;
    }
    assert(out@ =~= messages@);
    out
}

fn emit(effects: &mut Vec<RunEffect>, event: AgentEvent)
    ensures
        final(effects)@ == old(effects)@.push(RunEffect::Emit(event)),
        effects_view(final(effects)@) == effects_view(old(effects)@).push(
            RunEffect::Emit(event)@,
        ),
{
    effects.push(RunEffect::Emit(event));
    assert(effects_view(effects@) =~= effects_view(old(effects)@).push(RunEffect::Emit(event)@));
}

fn publish(
    effects: &mut Vec<RunEffect>,
    transcript: &Vec<Arc<Message>>,
    error_message: Option<String>,
)
    ensures
        effects_view(final(effects)@) == effects_view(old(effects)@).push(
            EffectView::Publish(transcript@, error_message),
        ),
{
    let e = RunEffect::Publish { messages: shared(transcript), error_message };
    effects.push(e);
    assert(effects_view(effects@) =~= effects_view(old(effects)@).push(
        EffectView::Publish(transcript@, error_message),
    ));
}

impl RuntimeState {
    /// Adds a message to the transcript and reports it.
    fn append_user_message(&mut self, msg: Message, effects: &mut Vec<RunEffect>)
        ensures
            final(self).queue == old(self).queue,
            final(self).processed == old(self).processed,
            final(self).transcript@.len() == old(self).transcript@.len() + 1,
            final(self).transcript@.drop_last() == old(self).transcript@,
            *final(self).transcript@.last() == msg,
            effects_view(final(effects)@) == effects_view(old(effects)@) + message_effects(
                final(self).transcript@,
                old(self).transcript@.len() as int,
            ),
    {
        let arc = Arc::new(msg);
        let ghost t0 = self.transcript@;
        emit(effects, AgentEvent::MessageStart { message: arc.clone() });
        self.transcript.push(arc.clone());
        publish(effects, &self.transcript, None);
        emit(effects, AgentEvent::MessageEnd { message: arc });
        proof {
            lemma_message_effects_push(t0, arc, t0.len() as int);
            assert(message_effects(t0, t0.len() as int) =~= Seq::empty());
            assert(self.transcript@ =~= t0.push(arc));
            assert(effects_view(effects@) =~= effects_view(old(effects)@) + message_effects(
                self.transcript@,
                t0.len() as int,
            ));
        }
    }

    /// Applies the commit of a plan: the summary takes the place of the messages that it stands
    /// for, and is reported, so that it is recorded too.
    pub fn apply_commit(&mut self, commit: CompactionCommit) -> (r: Vec<RunEffect>)
        requires
            commit.keep_from <= old(self).transcript@.len(),
        ensures
            final(self).queue == old(self).queue,
            final(self).processed == old(self).processed,
            final(self).transcript@.len() == old(self).transcript@.len() - commit.keep_from + 1,
            final(self).transcript@.skip(1) == old(self).transcript@.skip(commit.keep_from as int),
            context::is_summary(*final(self).transcript@[0], commit.summary@),
            effects_view(r@) == seq![
                EffectView::MessageEnd(final(self).transcript@[0]),
                EffectView::Publish(final(self).transcript@, None),
            ],
            trace(TracePhase::InTurn, effects_view(r@)) == TracePhase::InTurn,
    {
        let summary = context::commit_compaction(&mut self.transcript, commit);
        let mut effects: Vec<RunEffect> = Vec::new();
        assert(effects_view(effects@) =~= Seq::empty());
        emit(&mut effects, AgentEvent::MessageEnd { message: summary });
        publish(&mut effects, &self.transcript, None);
        proof {
            assert(self.transcript@.skip(1) =~= old(self).transcript@.skip(
                commit.keep_from as int,
            ));
            let v = effects_view(effects@);
            assert(v =~= seq![v[0], v[1]]);
            lemma_trace2(TracePhase::InTurn, v[0], v[1]);
        }
        effects
    }

    /// Adds messages to the transcript, one after the other, and reports each.
    fn append_user_messages(&mut self, msgs: Vec<Message>, effects: &mut Vec<RunEffect>)
        ensures
            final(self).queue == old(self).queue,
            final(self).processed == old(self).processed,
            appended(old(self).transcript@, final(self).transcript@, msgs@),
            effects_view(final(effects)@) == effects_view(old(effects)@) + message_effects(
                final(self).transcript@,
                old(self).transcript@.len() as int,
            ),
    {
        let ghost all = msgs@;
        let ghost t0 = self.transcript@;
        let ghost e0 = effects_view(effects@);
        let ghost q0 = self.queue;
        let ghost p0 = self.processed;
        let mut n: Ghost<int> = Ghost(0);
        proof {
            assert(message_effects(t0, t0.len() as int) =~= Seq::empty());
            assert(e0 + Seq::<EffectView>::empty() =~= e0);
            assert(t0.take(t0.len() as int) =~= t0);
        }
        for msg in it: msgs
            invariant
                all == it.seq(),
                n@ == it.index(),
                0 <= n@ <= all.len(),
                self.queue == q0,
                self.processed == p0,
                appended(t0, self.transcript@, all.take(n@)),
                effects_view(effects@) == e0 + message_effects(
                    self.transcript@,
                    t0.len() as int,
                ),
        {
            let ghost t1 = self.transcript@;
            let ghost e1 = effects_view(effects@);
            self.append_user_message(msg, effects);
            proof {
                let t2 = self.transcript@;
                assert(t2 =~= t1.push(t2.last()));
                lemma_message_effects_push(t1, t2.last(), t0.len() as int);
                lemma_message_effects_push(t1, t2.last(), t1.len() as int);
                assert(message_effects(t1, t1.len() as int) =~= Seq::empty());
                assert(effects_view(effects@) =~= e0 + message_effects(t2, t0.len() as int));
                assert(t2.take(t0.len() as int) =~= t1.take(t0.len() as int));
                assert forall|i: int| 0 <= i < all.take(n@ + 1).len() implies *(#[trigger] t2[
                t0.len() + i]) == all.take(n@ + 1)[i] by {
                    if i < n@ {
                        assert(t2[t0.len() + i] == t1[t0.len() + i]);
                        assert(all.take(n@)[i] == all[i]);
                    }
                }
                n@ = n@ + 1;
            }
        }
        assert(all.take(all.len() as int) =~= all);
    }
}

/// What a step leaves as it was: nothing but what it says it changes.
pub open spec fn same_counts(a: AgentRun, b: AgentRun) -> bool {
    a.consumed == b.consumed && a.shutdown == b.shutdown
}

impl AgentRun {
    /// Begins a run with `initial`: the first of them joins the transcript; without any the first
    /// turn begins.
    pub fn start(state: &mut RuntimeState, initial: Vec<Message>) -> (r: (Self, RunStep))
        ensures
            final(state).queue == old(state).queue,
            final(state).processed == old(state).processed,
            r.0.consumed == 0,
            !r.0.shutdown,
            initial@.len() == 0 ==> {
                &&& final(state).transcript@ == old(state).transcript@
                &&& r.0.initial@.len() == 0
                &&& r.1.next is Prepare
                &&& effects_view(r.1.effects@) == seq![
                    EffectView::AgentStart,
                    EffectView::TurnStart,
                ]
            },
            initial@.len() > 0 ==> {
                &&& appended(old(state).transcript@, final(state).transcript@, initial@.take(1))
                &&& r.0.initial@ == initial@.skip(1)
                &&& r.1.next == RunRequest::Drain(DrainPoint::Initial)
                &&& effects_view(r.1.effects@) == message_effects(
                    final(state).transcript@,
                    old(state).transcript@.len() as int,
                )
            },
            trace(TracePhase::Before, effects_view(r.1.effects@)) == phase_of(r.1.next),
    {
        let ghost all = initial@;
        let mut pending: VecDeque<Message> = VecDeque::new();
        let mut n: Ghost<int> = Ghost(0);
        for msg in it: initial
            invariant
                all == it.seq(),
                n@ == it.index(),
                0 <= n@ <= all.len(),
                pending@ == all.take(n@),
        {
            pending.push_back(msg);
            proof {
                n@ = n@ + 1;
                assert(pending@ =~= all.take(n@));
            }
        }
        assert(pending@ =~= all);
        let mut run = AgentRun { initial: pending, current: None, consumed: 0, shutdown: false };
        let step = run.next_initial(state);
        (run, step)
    }

    /// Adds the next of the messages that the run begins with, or begins the first turn.
    fn next_initial(&mut self, state: &mut RuntimeState) -> (r: RunStep)
        ensures
            final(state).queue == old(state).queue,
            final(state).processed == old(state).processed,
            same_counts(*final(self), *old(self)),
            old(self).initial@.len() == 0 ==> {
                &&& final(state).transcript@ == old(state).transcript@
                &&& final(self).initial@.len() == 0
                &&& begins(r, old(self).shutdown, old(state).transcript@)
            },
            old(self).initial@.len() > 0 ==> {
                &&& appended(
                    old(state).transcript@,
                    final(state).transcript@,
                    old(self).initial@.take(1),
                )
                &&& final(self).initial@ == old(self).initial@.skip(1)
                &&& r.next == RunRequest::Drain(DrainPoint::Initial)
                &&& effects_view(r.effects@) == message_effects(
                    final(state).transcript@,
                    old(state).transcript@.len() as int,
                )
            },
            trace(TracePhase::Before, effects_view(r.effects@)) == phase_of(r.next),
    {
        let mut effects: Vec<RunEffect> = Vec::new();
        assert(effects_view(effects@) =~= Seq::empty());
        match self.initial.pop_front() {
            Some(msg) => {
                let ghost t0 = state.transcript@;
                state.append_user_message(msg, &mut effects);
                proof {
                    let t1 = state.transcript@;
                    assert(t1.take(t0.len() as int) =~= t1.drop_last());
                    assert(effects_view(effects@) =~= message_effects(t1, t0.len() as int));
                    lemma_trace_of_messages(TracePhase::Before, t1, t0.len() as int);
                    assert(self.initial@ =~= old(self).initial@.skip(1));
                }
                RunStep { effects, next: RunRequest::Drain(DrainPoint::Initial) }
            },
            None => {
                let step = self.begin_turns(state);
                step
            },
        }
    }

    /// Reports the start of the agent, and begins the first turn unless the agent is to shut down.
    fn begin_turns(&self, state: &RuntimeState) -> (r: RunStep)
        ensures
            begins(r, self.shutdown, state.transcript@),
            trace(TracePhase::Before, effects_view(r.effects@)) == phase_of(r.next),
    {
        let mut effects: Vec<RunEffect> = Vec::new();
        assert(effects_view(effects@) =~= Seq::empty());
        emit(&mut effects, AgentEvent::AgentStart);
        if self.shutdown {
            emit(&mut effects, AgentEvent::AgentEnd { messages: shared(&state.transcript) });
            proof {
                assert(effects_view(effects@) =~= seq![
                    EffectView::AgentStart,
                    EffectView::AgentEnd(state.transcript@),
                ]);
                lemma_trace2(
                    TracePhase::Before,
                    EffectView::AgentStart,
                    EffectView::AgentEnd(state.transcript@),
                );
            }
            return RunStep { effects, next: RunRequest::Finished };
        }
        emit(&mut effects, AgentEvent::TurnStart);
        proof {
            assert(effects_view(effects@) =~= seq![
                EffectView::AgentStart,
                EffectView::TurnStart,
            ]);
            lemma_trace2(TracePhase::Before, EffectView::AgentStart, EffectView::TurnStart);
        }
        RunStep { effects, next: RunRequest::Prepare }
    }

    /// Ends the run.
    fn finish(&mut self, state: &RuntimeState, effects: Vec<RunEffect>, shutdown: bool) -> (r:
        RunStep)
        ensures
            final(self).initial == old(self).initial,
            final(self).consumed == old(self).consumed,
            final(self).shutdown == shutdown,
            r.next is Finished,
            effects_view(r.effects@) == effects_view(effects@).push(
                EffectView::AgentEnd(state.transcript@),
            ),
    {
        let mut effects = effects;
        self.shutdown = shutdown;
        emit(&mut effects, AgentEvent::AgentEnd { messages: shared(&state.transcript) });
        RunStep { effects, next: RunRequest::Finished }
    }

    /// Takes the commands that arrived after one of the messages that the run begins with. A stop
    /// keeps the remaining ones out; messages among the commands go back into the queue.
    pub fn drained_initial(&mut self, state: &mut RuntimeState, received: Vec<AgentCommand>) -> (r:
        RunStep)
        ensures
            final(state).processed == old(state).processed,
            final(state).queue@ == put_back(old(state).queue@, received@),
            final(self).consumed == old(self).consumed,
            stop_in(received@) ==> {
                &&& final(state).transcript@ == old(state).transcript@
                &&& final(self).shutdown == commands::has_shutdown(received@)
                &&& begins(r, commands::has_shutdown(received@), old(state).transcript@)
            },
            !stop_in(received@) ==> final(self).shutdown == old(self).shutdown,
            !stop_in(received@) && old(self).initial@.len() == 0 ==> {
                &&& final(state).transcript@ == old(state).transcript@
                &&& begins(r, old(self).shutdown, old(state).transcript@)
            },
            !stop_in(received@) && old(self).initial@.len() > 0 ==> {
                &&& appended(
                    old(state).transcript@,
                    final(state).transcript@,
                    old(self).initial@.take(1),
                )
                &&& final(self).initial@ == old(self).initial@.skip(1)
                &&& r.next == RunRequest::Drain(DrainPoint::Initial)
                &&& effects_view(r.effects@) == message_effects(
                    final(state).transcript@,
                    old(state).transcript@.len() as int,
                )
            },
            trace(TracePhase::Before, effects_view(r.effects@)) == phase_of(r.next),
    {
        let d = commands::drain_commands(received, &mut state.queue);
        commands::requeue(d.steer, d.followup, &mut state.queue);
        if d.aborted || d.shutdown {
            self.shutdown = d.shutdown;
            return self.begin_turns(state);
        }
        self.next_initial(state)
    }

    /// The request could not be prepared because the run was cancelled: the turn ends as aborted,
    /// and the transcript stays as it is.
    pub fn prepare_aborted(&mut self, state: &RuntimeState) -> (r: RunStep)
        ensures
            final(self).consumed == old(self).consumed,
            final(self).shutdown == old(self).shutdown,
            r.next is Finished,
            effects_view(r.effects@).len() == 2,
            effects_view(r.effects@)[0] matches EffectView::TurnEnd(m, results) && results.len()
                == 0 && is_aborted_message(m),
            effects_view(r.effects@)[1] == EffectView::AgentEnd(state.transcript@),
            trace(TracePhase::InTurn, effects_view(r.effects@)) == phase_of(r.next),
    {
        let message = Arc::new(
            AssistantMessage {
                content: Vec::new(),
                model: None,
                usage: None,
                stop_reason: Some(StopReason::Aborted),
                error_message: None,
                timestamp: 0,
            },
        );
        let mut effects: Vec<RunEffect> = Vec::new();
        assert(effects_view(effects@) =~= Seq::empty());
        let shutdown = self.shutdown;
        emit(&mut effects, AgentEvent::TurnEnd { message, tool_results: Vec::new() });
        let step = self.finish(state, effects, shutdown);
        proof {
            let v = effects_view(step.effects@);
            assert(v =~= seq![v[0], v[1]]);
            lemma_trace2(TracePhase::InTurn, v[0], v[1]);
        }
        step
    }

    /// Takes the result of a turn: its message joins the transcript. A turn that was aborted ends
    /// the run. A turn with tool calls goes on with them, one without ends here.
    pub fn turn_done(&mut self, state: &mut RuntimeState, turn: TurnResult) -> (r: RunStep)
        ensures
            final(state).queue == old(state).queue,
            final(state).processed == old(state).processed,
            final(self).initial == old(self).initial,
            final(self).consumed == old(self).consumed,
            final(state).transcript@.len() == old(state).transcript@.len() + 1,
            final(state).transcript@.drop_last() == old(state).transcript@,
            *final(state).transcript@.last() matches Message::Assistant(a) && a@
                == turn.assistant_message@,
            ({
                let shown = EffectView::Publish(
                    final(state).transcript@,
                    turn.assistant_message.error_message,
                );
                let ended = EffectView::TurnEnd(
                    turn.assistant_message@,
                    Seq::<ToolResultMessageView>::empty(),
                );
                let v = effects_view(r.effects@);
                if turn.aborted {
                    &&& r.next is Finished
                    &&& final(self).shutdown == turn.shutdown
                    &&& v == seq![shown, ended, EffectView::AgentEnd(final(state).transcript@)]
                } else {
                    &&& final(self).shutdown == old(self).shutdown
                    &&& if turn.tool_calls@.len() == 0 {
                        &&& r.next == RunRequest::Drain(DrainPoint::NoTools)
                        &&& v == seq![shown, ended]
                    } else {
                        &&& r.next == RunRequest::RunTools(turn.tool_calls)
                        &&& v == seq![shown]
                        &&& final(self).current matches Some(m) && m@ == turn.assistant_message@
                    }
                }
            }),
            trace(TracePhase::InTurn, effects_view(r.effects@)) == phase_of(r.next),
    {
        let message = Arc::new(turn.assistant_message.clone());
        let error_message = match &turn.assistant_message.error_message {
            Some(e) => Some(e.clone()),
            None => None,
        };
        let ghost t0 = state.transcript@;
        let ghost error = turn.assistant_message.error_message;
        let ghost tm = turn.assistant_message@;
        state.transcript.push(Arc::new(Message::Assistant(turn.assistant_message)));
        assert(state.transcript@.drop_last() =~= t0);
        let mut effects: Vec<RunEffect> = Vec::new();
        assert(effects_view(effects@) =~= Seq::empty());
        publish(&mut effects, &state.transcript, error_message);
        let ghost shown = EffectView::Publish(state.transcript@, error);
        assert(effects_view(effects@) =~= seq![shown]);
        if turn.aborted {
            emit(&mut effects, AgentEvent::TurnEnd { message, tool_results: Vec::new() });
            let step = self.finish(state, effects, turn.shutdown);
            proof {
                let v = effects_view(step.effects@);
                assert(results_view(Seq::<ToolResultMessage>::empty()) =~= Seq::<
                    ToolResultMessageView,
                >::empty());
                assert(v[1] == EffectView::TurnEnd(tm, Seq::<ToolResultMessageView>::empty()));
                assert(v =~= seq![v[0], v[1], v[2]]);
                lemma_trace3(TracePhase::InTurn, v[0], v[1], v[2]);
            }
            return step;
        }
        if turn.tool_calls.len() == 0 {
            emit(&mut effects, AgentEvent::TurnEnd { message, tool_results: Vec::new() });
            proof {
                let v = effects_view(effects@);
                assert(results_view(Seq::<ToolResultMessage>::empty()) =~= Seq::<
                    ToolResultMessageView,
                >::empty());
                assert(v[1] == EffectView::TurnEnd(tm, Seq::<ToolResultMessageView>::empty()));
                assert(v =~= seq![v[0], v[1]]);
                lemma_trace2(TracePhase::InTurn, v[0], v[1]);
            }
            return RunStep { effects, next: RunRequest::Drain(DrainPoint::NoTools) };
        }
        self.current = Some(message);
        proof {
            lemma_trace1(TracePhase::InTurn, shown);
        }
        RunStep { effects, next: RunRequest::RunTools(turn.tool_calls) }
    }

    /// Takes the commands that arrived by the end of a turn without tool calls, together with the
    /// messages that were put back before. A stop ends the run, and the messages go back. Steering
    /// messages come first and lead to another turn, for which follow-up messages wait; without
    /// any, follow-up messages do. Without either the run is over.
    pub fn drained_no_tools(&mut self, state: &mut RuntimeState, received: Vec<AgentCommand>) -> (r:
        RunStep)
        ensures
            final(state).processed == old(state).processed,
            ({
                let all = old(state).queue@ + commands::waiting(received@);
                let steer = commands::steers(received@) + commands::steers(all);
                let followup = commands::followups(received@) + commands::followups(all);
                let rest = commands::plain(all);
                let t0 = old(state).transcript@;
                let t1 = final(state).transcript@;
                let v = effects_view(r.effects@);
                if stop_in(received@) {
                    &&& final(state).queue@ == rest + commands::as_steers(steer)
                        + commands::as_followups(followup)
                    &&& t1 == t0
                    &&& final(self).consumed == old(self).consumed
                    &&& final(self).shutdown == commands::has_shutdown(received@)
                    &&& r.next is Finished
                    &&& v == seq![EffectView::AgentEnd(t0)]
                } else if steer.len() > 0 {
                    &&& final(state).queue@ == rest + commands::as_followups(followup)
                    &&& appended(t0, t1, steer)
                    &&& final(self).consumed == context::least(
                        old(self).consumed as nat + steer.len(),
                        u64::MAX as nat,
                    )
                    &&& final(self).shutdown == old(self).shutdown
                    &&& r.next is Prepare
                    &&& v == message_effects(t1, t0.len() as int).push(EffectView::TurnStart)
                } else if followup.len() > 0 {
                    &&& final(state).queue@ == rest
                    &&& appended(t0, t1, followup)
                    &&& final(self).consumed == context::least(
                        old(self).consumed as nat + followup.len(),
                        u64::MAX as nat,
                    )
                    &&& final(self).shutdown == old(self).shutdown
                    &&& r.next is Prepare
                    &&& v == message_effects(t1, t0.len() as int).push(EffectView::TurnStart)
                } else {
                    &&& final(state).queue@ == rest
                    &&& t1 == t0
                    &&& final(self).consumed == old(self).consumed
                    &&& !final(self).shutdown
                    &&& r.next is Finished
                    &&& v == seq![EffectView::AgentEnd(t0)]
                }
            }),
            trace(TracePhase::Between, effects_view(r.effects@)) == phase_of(r.next),
            ({
                let b = pause(old(state).queue@, received@);
                &&& final(state).queue@ == b.queue
                &&& appended(old(state).transcript@, final(state).transcript@, b.taken)
                &&& final(self).consumed == context::least(
                    old(self).consumed as nat + b.taken.len(),
                    u64::MAX as nat,
                )
                &&& b.goes_on ==> r.next is Prepare
                &&& !b.goes_on ==> r.next is Finished
            }),
    {
        let ghost t0 = state.transcript@;
        assert(t0.take(t0.len() as int) =~= t0);
        let d = commands::collect_pending(received, &mut state.queue);
        let mut effects: Vec<RunEffect> = Vec::new();
        assert(effects_view(effects@) =~= Seq::empty());
        if d.aborted || d.shutdown {
            commands::requeue(d.steer, d.followup, &mut state.queue);
            let step = self.finish(state, effects, d.shutdown);
            proof {
                assert(effects_view(step.effects@) =~= seq![EffectView::AgentEnd(t0)]);
                lemma_trace1(TracePhase::Between, EffectView::AgentEnd(t0));
            }
            return step;
        }
        if d.steer.len() > 0 {
            commands::requeue_followups(d.followup, &mut state.queue);
            let count: u64 = d.steer.len() as u64;
            state.append_user_messages(d.steer, &mut effects);
            self.consumed = plus(self.consumed, count);
            let ghost shown = effects_view(effects@);
            emit(&mut effects, AgentEvent::TurnStart);
            proof {
                lemma_turn_follows(state.transcript@, t0.len() as int, shown);
            }
            return RunStep { effects, next: RunRequest::Prepare };
        }
        if d.followup.len() > 0 {
            let count: u64 = d.followup.len() as u64;
            state.append_user_messages(d.followup, &mut effects);
            self.consumed = plus(self.consumed, count);
            let ghost shown = effects_view(effects@);
            emit(&mut effects, AgentEvent::TurnStart);
            proof {
                lemma_turn_follows(state.transcript@, t0.len() as int, shown);
            }
            return RunStep { effects, next: RunRequest::Prepare };
        }
        let step = self.finish(state, effects, false);
        proof {
            assert(effects_view(step.effects@) =~= seq![EffectView::AgentEnd(t0)]);
            lemma_trace1(TracePhase::Between, EffectView::AgentEnd(t0));
        }
        step
    }

    /// Takes the results of the tool calls: they join the transcript, and the turn ends.
    pub fn tools_done(&mut self, state: &mut RuntimeState, results: Vec<ToolResultMessage>) -> (r:
        RunStep)
        requires
            old(self).current is Some,
        ensures
            final(state).queue == old(state).queue,
            final(state).processed == old(state).processed,
            final(self).initial == old(self).initial,
            same_counts(*final(self), *old(self)),
            r.next is AskStop,
            results_added(old(state).transcript@, final(state).transcript@, results@),
            effects_view(r.effects@) == seq![
                EffectView::Publish(final(state).transcript@, None),
                EffectView::TurnEnd(old(self).current->0@, results_view(results@)),
            ],
            trace(TracePhase::InTurn, effects_view(r.effects@)) == phase_of(r.next),
    {
        let message = self.current.take().unwrap();
        let ghost t0 = state.transcript@;
        let ghost q0 = state.queue;
        let ghost p0 = state.processed;
        assert(t0.take(t0.len() as int) =~= t0);
        let mut i: usize = 0;
        while i < results.len()
            invariant
                i <= results@.len(),
                state.queue == q0,
                state.processed == p0,
                results_added(t0, state.transcript@, results@.take(i as int)),
            decreases results@.len() - i,
        {
            let ghost t1 = state.transcript@;
            state.transcript.push(Arc::new(Message::ToolResult(results[i].clone())));
            proof {
                let t2 = state.transcript@;
                assert(t2.take(t0.len() as int) =~= t1.take(t0.len() as int));
                assert forall|k: int| 0 <= k < i + 1 implies is_tool_result(
                    *(#[trigger] t2[t0.len() + k]),
                    results@.take(i + 1)[k],
                ) by {
                    if k < i {
                        assert(t2[t0.len() + k] == t1[t0.len() + k]);
                        assert(results@.take(i as int)[k] == results@[k]);
                    }
                }
            }
            i += 1;
        }
        assert(results@.take(results@.len() as int) =~= results@);
        let mut effects: Vec<RunEffect> = Vec::new();
        assert(effects_view(effects@) =~= Seq::empty());
        publish(&mut effects, &state.transcript, None);
        emit(&mut effects, AgentEvent::TurnEnd { message, tool_results: results });
        proof {
            let v = effects_view(effects@);
            assert(v =~= seq![v[0], v[1]]);
            lemma_trace2(TracePhase::InTurn, v[0], v[1]);
        }
        RunStep { effects, next: RunRequest::AskStop }
    }

    /// Takes the answer whether the run is to stop after the turn.
    pub fn stop_answered(&mut self, state: &RuntimeState, stop: bool) -> (r: RunStep)
        ensures
            final(self).initial == old(self).initial,
            final(self).consumed == old(self).consumed,
            stop ==> {
                &&& r.next is Finished
                &&& !final(self).shutdown
                &&& effects_view(r.effects@) == seq![EffectView::AgentEnd(state.transcript@)]
            },
            !stop ==> {
                &&& r.next is AskNext
                &&& final(self).shutdown == old(self).shutdown
                &&& r.effects@.len() == 0
            },
            trace(TracePhase::Between, effects_view(r.effects@)) == phase_of(r.next),
    {
        let effects: Vec<RunEffect> = Vec::new();
        assert(effects_view(effects@) =~= Seq::empty());
        if stop {
            let step = self.finish(state, effects, false);
            proof {
                assert(effects_view(step.effects@) =~= seq![
                    EffectView::AgentEnd(state.transcript@),
                ]);
                lemma_trace1(TracePhase::Between, EffectView::AgentEnd(state.transcript@));
            }
            return step;
        }
        RunStep { effects, next: RunRequest::AskNext }
    }

    /// Adds the messages that are to come before the next turn.
    pub fn next_answered(&mut self, state: &mut RuntimeState, messages: Vec<Message>) -> (r:
        RunStep)
        ensures
            *final(self) == *old(self),
            final(state).queue == old(state).queue,
            final(state).processed == old(state).processed,
            appended(old(state).transcript@, final(state).transcript@, messages@),
            r.next == RunRequest::Drain(DrainPoint::AfterTools),
            effects_view(r.effects@) == message_effects(
                final(state).transcript@,
                old(state).transcript@.len() as int,
            ),
            trace(TracePhase::Between, effects_view(r.effects@)) == phase_of(r.next),
    {
        let mut effects: Vec<RunEffect> = Vec::new();
        assert(effects_view(effects@) =~= Seq::empty());
        state.append_user_messages(messages, &mut effects);
        proof {
            let from = old(state).transcript@.len() as int;
            assert(effects_view(effects@) =~= message_effects(state.transcript@, from));
            lemma_trace_of_messages(TracePhase::Between, state.transcript@, from);
        }
        RunStep { effects, next: RunRequest::Drain(DrainPoint::AfterTools) }
    }

    /// Takes the commands that arrived by the end of a turn with tool calls. A stop ends the run;
    /// otherwise the next turn begins. Messages among the commands go back into the queue in
    /// either case.
    pub fn drained_after_tools(&mut self, state: &mut RuntimeState, received: Vec<AgentCommand>)
        -> (r: RunStep)
        ensures
            final(state).processed == old(state).processed,
            final(state).transcript == old(state).transcript,
            final(state).queue@ == put_back(old(state).queue@, received@),
            final(self).consumed == old(self).consumed,
            stop_in(received@) ==> {
                &&& r.next is Finished
                &&& final(self).shutdown == commands::has_shutdown(received@)
                &&& effects_view(r.effects@) == seq![
                    EffectView::AgentEnd(old(state).transcript@),
                ]
            },
            !stop_in(received@) ==> {
                &&& r.next is Prepare
                &&& final(self).shutdown == old(self).shutdown
                &&& effects_view(r.effects@) == seq![EffectView::TurnStart]
            },
            trace(TracePhase::Between, effects_view(r.effects@)) == phase_of(r.next),
    {
        let d = commands::drain_commands(received, &mut state.queue);
        commands::requeue(d.steer, d.followup, &mut state.queue);
        let mut effects: Vec<RunEffect> = Vec::new();
        assert(effects_view(effects@) =~= Seq::empty());
        if d.aborted || d.shutdown {
            let step = self.finish(state, effects, d.shutdown);
            proof {
                assert(effects_view(step.effects@) =~= seq![
                    EffectView::AgentEnd(state.transcript@),
                ]);
                lemma_trace1(TracePhase::Between, EffectView::AgentEnd(state.transcript@));
            }
            return step;
        }
        emit(&mut effects, AgentEvent::TurnStart);
        proof {
            assert(effects_view(effects@) =~= seq![EffectView::TurnStart]);
            lemma_trace1(TracePhase::Between, EffectView::TurnStart);
        }
        RunStep { effects, next: RunRequest::Prepare }
    }
}

proof fn lemma_turn_follows(t: Seq<Arc<Message>>, from: int, shown: Seq<EffectView>)
    requires
        shown == Seq::<EffectView>::empty() + message_effects(t, from),
    ensures
        shown == message_effects(t, from),
        trace(TracePhase::Between, shown.push(EffectView::TurnStart)) == TracePhase::InTurn,
{
    assert(shown =~= message_effects(t, from));
    lemma_trace_of_messages(TracePhase::Between, t, from);
    assert(shown.push(EffectView::TurnStart).drop_last() =~= shown);
}

/// Whether a stop is among the commands.
pub open spec fn stop_in(received: Seq<AgentCommand>) -> bool {
    commands::has_abort(received) || commands::has_shutdown(received)
}

/// The queue after the commands that arrived joined it, messages last.
pub open spec fn put_back(queue: Seq<AgentCommand>, received: Seq<AgentCommand>) -> Seq<
    AgentCommand,
> {
    queue + commands::waiting(received) + commands::as_steers(commands::steers(received))
        + commands::as_followups(commands::followups(received))
}

/// Whether a step reports the start of the agent and begins the first turn, or ends the run where
/// the agent is to shut down.
pub open spec fn begins(r: RunStep, shutdown: bool, transcript: Seq<Arc<Message>>) -> bool {
    if shutdown {
        &&& r.next is Finished
        &&& effects_view(r.effects@) == seq![
            EffectView::AgentStart,
            EffectView::AgentEnd(transcript),
        ]
    } else {
        &&& r.next is Prepare
        &&& effects_view(r.effects@) == seq![EffectView::AgentStart, EffectView::TurnStart]
    }
}

/// Whether `m` is the empty message of a turn that was aborted.
pub open spec fn is_aborted_message(m: AssistantMessageView) -> bool {
    &&& m.content.len() == 0
    &&& m.model is None
    &&& m.usage is None
    &&& m.stop_reason == Some(StopReason::Aborted)
    &&& m.error_message is None
    &&& m.timestamp == 0
}

/// Whether `m` holds the tool result `t`.
pub open spec fn is_tool_result(m: Message, t: ToolResultMessage) -> bool {
    m matches Message::ToolResult(x) && x@ == t@
}

/// Whether `after` is `before` with the tool results added.
pub open spec fn results_added(
    before: Seq<Arc<Message>>,
    after: Seq<Arc<Message>>,
    results: Seq<ToolResultMessage>,
) -> bool {
    &&& after.len() == before.len() + results.len()
    &&& after.take(before.len() as int) == before
    &&& forall|i: int|
        0 <= i < results.len() ==> is_tool_result(
            *(#[trigger] after[before.len() + i]),
            results[i],
        )
}

/// What becomes of the commands at the end of a turn without tool calls: the messages that are
/// taken into the run, the queue that is left, and whether the run goes on.
pub struct Pause {
    pub taken: Seq<Message>,
    pub queue: Seq<AgentCommand>,
    pub goes_on: bool,
}

/// What becomes of the commands that wait in `queue` and of those that arrived.
pub open spec fn pause(queue: Seq<AgentCommand>, received: Seq<AgentCommand>) -> Pause {
    let all = queue + commands::waiting(received);
    let steer = commands::steers(received) + commands::steers(all);
    let followup = commands::followups(received) + commands::followups(all);
    let rest = commands::plain(all);
    if stop_in(received) {
        Pause {
            taken: Seq::empty(),
            queue: rest + commands::as_steers(steer) + commands::as_followups(followup),
            goes_on: false,
        }
    } else if steer.len() > 0 {
        Pause { taken: steer, queue: rest + commands::as_followups(followup), goes_on: true }
    } else {
        Pause { taken: followup, queue: rest, goes_on: followup.len() > 0 }
    }
}

proof fn lemma_waiting_has_no_messages(cmds: Seq<AgentCommand>)
    ensures
        commands::steers(commands::waiting(cmds)).len() == 0,
        commands::followups(commands::waiting(cmds)).len() == 0,
        commands::plain(commands::waiting(cmds)) == commands::waiting(cmds),
    decreases cmds.len(),
{
    if cmds.len() > 0 {
        lemma_waiting_has_no_messages(cmds.drop_last());
        let w = commands::waiting(cmds);
        if w.len() > 0 {
            assert(w.drop_last() =~= commands::waiting(cmds.drop_last())
                || w == commands::waiting(cmds.drop_last()));
        }
    }
}

/// Steering comes first: where there are steering messages and no stop, the run takes in just these,
/// those that arrived before those that were put back, and no follow-up. Where there are none it
/// takes in the follow-ups.
pub proof fn law_steering_comes_before_following_up(
    queue: Seq<AgentCommand>,
    received: Seq<AgentCommand>,
)
    requires
        forall|i: int|
            0 <= i < received.len() ==> !((#[trigger] received[i]) is Abort)
                && !(received[i] is Shutdown),
    ensures
        ({
            let steer = received.filter(|c: AgentCommand| c is Steer) + queue.filter(
                |c: AgentCommand| c is Steer,
            );
            let followup = received.filter(|c: AgentCommand| c is FollowUp) + queue.filter(
                |c: AgentCommand| c is FollowUp,
            );
            let p = pause(queue, received);
            &&& steer.len() > 0 ==> p.goes_on && p.taken.map_values(
                |m: Message| AgentCommand::Steer(m),
            ) == steer
            &&& steer.len() == 0 ==> p.taken.map_values(|m: Message| AgentCommand::FollowUp(m))
                == followup && (p.goes_on <==> followup.len() > 0)
        }),
{
    let all = queue + commands::waiting(received);
    commands::lemma_parts_of_concat(queue, commands::waiting(received));
    lemma_waiting_has_no_messages(received);
    commands::law_commands_are_sorted_by_kind(received);
    commands::law_commands_are_sorted_by_kind(queue);
    let st = commands::steers(received) + commands::steers(all);
    let fo = commands::followups(received) + commands::followups(all);
    assert(commands::steers(all) =~= commands::steers(queue));
    assert(commands::followups(all) =~= commands::followups(queue));
    assert(commands::as_steers(st) =~= commands::as_steers(commands::steers(received))
        + commands::as_steers(commands::steers(queue)));
    assert(commands::as_followups(fo) =~= commands::as_followups(commands::followups(received))
        + commands::as_followups(commands::followups(queue)));
    assert(commands::as_steers(st) == st.map_values(|m: Message| AgentCommand::Steer(m)));
    assert(commands::as_followups(fo) == fo.map_values(|m: Message| AgentCommand::FollowUp(m)));
}

/// A run ends only where nothing is left for it, unless it was stopped: no steering and no follow-up
/// message is there, neither among the commands that arrived nor in the queue. A run that was
/// stopped takes in nothing.
pub proof fn law_run_ends_when_nothing_is_left(
    queue: Seq<AgentCommand>,
    received: Seq<AgentCommand>,
)
    ensures
        ({
            let p = pause(queue, received);
            let stopped = exists|i: int|
                0 <= i < received.len() && ((#[trigger] received[i]) is Abort
                    || received[i] is Shutdown);
            &&& stopped ==> !p.goes_on && p.taken.len() == 0
            &&& !stopped && !p.goes_on ==> {
                &&& p.taken.len() == 0
                &&& forall|i: int|
                    0 <= i < received.len() ==> !((#[trigger] received[i]) is Steer)
                        && !(received[i] is FollowUp)
                &&& forall|i: int|
                    0 <= i < queue.len() ==> !((#[trigger] queue[i]) is Steer) && !(
                    queue[i] is FollowUp)
            }
            &&& p.goes_on ==> p.taken.len() > 0
        }),
{
    let stopped = exists|i: int|
        0 <= i < received.len() && ((#[trigger] received[i]) is Abort || received[i] is Shutdown);
    if stopped {
        let i = choose|i: int|
            0 <= i < received.len() && ((#[trigger] received[i]) is Abort
                || received[i] is Shutdown);
        assert(stop_in(received));
    } else {
        law_steering_comes_before_following_up(queue, received);
        let p = pause(queue, received);
        let is_steer = |c: AgentCommand| c is Steer;
        let is_follow = |c: AgentCommand| c is FollowUp;
        if !p.goes_on {
            assert(received.filter(is_steer).len() == 0 && queue.filter(is_steer).len() == 0);
            assert(received.filter(is_follow).len() == 0 && queue.filter(is_follow).len() == 0);
            assert forall|i: int| 0 <= i < received.len() implies !((
            #[trigger] received[i]) is Steer) && !(received[i] is FollowUp) by {
                if received[i] is Steer {
                    received.lemma_filter_contains(is_steer, i);
                }
                if received[i] is FollowUp {
                    received.lemma_filter_contains(is_follow, i);
                }
            }
            assert forall|i: int| 0 <= i < queue.len() implies !((#[trigger] queue[i]) is Steer)
                && !(queue[i] is FollowUp) by {
                if queue[i] is Steer {
                    queue.lemma_filter_contains(is_steer, i);
                }
                if queue[i] is FollowUp {
                    queue.lemma_filter_contains(is_follow, i);
                }
            }
        }
    }
}

proof fn lemma_nothing_counts(cmds: Seq<AgentCommand>)
    requires
        cmds.len() == 0,
    ensures
        cmds.to_multiset() == vstd::multiset::Multiset::<AgentCommand>::empty(),
{
    cmds.to_multiset_ensures();
    assert forall|c: AgentCommand| cmds.to_multiset().count(c) == 0 by {
        assert(!cmds.contains(c));
    }
    assert(cmds.to_multiset() =~= vstd::multiset::Multiset::<AgentCommand>::empty());
}

/// No command is lost at the end of a turn: each one that waited or arrived, but for the stops, is
/// in the queue afterwards or was taken into the run as its message.
pub proof fn law_pause_keeps_every_command(queue: Seq<AgentCommand>, received: Seq<AgentCommand>)
    ensures
        ({
            let p = pause(queue, received);
            let given = queue.to_multiset().add(
                received.filter(
                    |c: AgentCommand| !(c is Abort) && !(c is Shutdown),
                ).to_multiset(),
            );
            ||| p.queue.to_multiset().add(
                p.taken.map_values(|m: Message| AgentCommand::Steer(m)).to_multiset(),
            ) == given
            ||| p.queue.to_multiset().add(
                p.taken.map_values(|m: Message| AgentCommand::FollowUp(m)).to_multiset(),
            ) == given
        }),
{
    let w = commands::waiting(received);
    let all = queue + w;
    let st = commands::steers(received) + commands::steers(all);
    let fo = commands::followups(received) + commands::followups(all);
    let rest = commands::plain(all);
    let s1 = commands::as_steers(commands::steers(received));
    let s2 = commands::as_steers(commands::steers(all));
    let f1 = commands::as_followups(commands::followups(received));
    let f2 = commands::as_followups(commands::followups(all));
    commands::law_sorting_keeps_every_command(received);
    commands::law_sorting_keeps_every_command(all);
    vstd::seq_lib::lemma_multiset_commutative(queue, w);
    vstd::seq_lib::lemma_multiset_commutative(s1, s2);
    vstd::seq_lib::lemma_multiset_commutative(f1, f2);
    assert(commands::as_steers(st) =~= s1 + s2);
    assert(commands::as_followups(fo) =~= f1 + f2);
    let p = pause(queue, received);
    let given = queue.to_multiset().add(
        received.filter(|c: AgentCommand| !(c is Abort) && !(c is Shutdown)).to_multiset(),
    );
    let as_s = p.taken.map_values(|m: Message| AgentCommand::Steer(m));
    let as_f = p.taken.map_values(|m: Message| AgentCommand::FollowUp(m));
    assert(as_s =~= commands::as_steers(p.taken));
    assert(as_f =~= commands::as_followups(p.taken));
    let sm = commands::as_steers(st).to_multiset();
    let fm = commands::as_followups(fo).to_multiset();
    assert(rest.to_multiset().add(sm).add(fm) =~= given) by {
        assert(sm == s1.to_multiset().add(s2.to_multiset()));
        assert(fm == f1.to_multiset().add(f2.to_multiset()));
        assert(rest.to_multiset().add(sm).add(fm) =~= rest.to_multiset().add(s2.to_multiset()).add(
            f2.to_multiset(),
        ).add(s1.to_multiset()).add(f1.to_multiset()));
        assert(queue.to_multiset().add(w.to_multiset()).add(s1.to_multiset()).add(
            f1.to_multiset(),
        ) =~= queue.to_multiset().add(
            w.to_multiset().add(s1.to_multiset()).add(f1.to_multiset()),
        ));
    }
    if stop_in(received) {
        vstd::seq_lib::lemma_multiset_commutative(rest, commands::as_steers(st));
        vstd::seq_lib::lemma_multiset_commutative(
            rest + commands::as_steers(st),
            commands::as_followups(fo),
        );
        lemma_nothing_counts(as_s);
        assert(p.queue.to_multiset().add(as_s.to_multiset()) =~= given);
    } else if st.len() > 0 {
        vstd::seq_lib::lemma_multiset_commutative(rest, commands::as_followups(fo));
        assert(p.queue.to_multiset().add(as_s.to_multiset()) =~= rest.to_multiset().add(sm).add(
            fm,
        ));
    } else {
        lemma_nothing_counts(commands::as_steers(st));
        assert(p.queue.to_multiset().add(as_f.to_multiset()) =~= rest.to_multiset().add(sm).add(
            fm,
        ));
    }
}

/// Commands that arrive during a run wait behind those that wait already, and none but the stops is
/// lost.
pub proof fn law_put_back_loses_nothing(queue: Seq<AgentCommand>, received: Seq<AgentCommand>)
    ensures
        queue.is_prefix_of(put_back(queue, received)),
        put_back(queue, received).to_multiset() == queue.to_multiset().add(
            received.filter(|c: AgentCommand| !(c is Abort) && !(c is Shutdown)).to_multiset(),
        ),
{
    let w = commands::waiting(received);
    let s = commands::as_steers(commands::steers(received));
    let f = commands::as_followups(commands::followups(received));
    let r = put_back(queue, received);
    assert(r.subrange(0, queue.len() as int) =~= queue);
    commands::law_sorting_keeps_every_command(received);
    vstd::seq_lib::lemma_multiset_commutative(queue, w);
    vstd::seq_lib::lemma_multiset_commutative(queue + w, s);
    vstd::seq_lib::lemma_multiset_commutative(queue + w + s, f);
    assert(r.to_multiset() =~= queue.to_multiset().add(
        received.filter(|c: AgentCommand| !(c is Abort) && !(c is Shutdown)).to_multiset(),
    ));
}

/// A stop is an abort or a shutdown among the commands, and nothing else is.
pub proof fn law_stops_are_aborts_and_shutdowns(received: Seq<AgentCommand>)
    ensures
        stop_in(received) <==> exists|i: int|
            0 <= i < received.len() && ((#[trigger] received[i]) is Abort
                || received[i] is Shutdown),
{
    if exists|i: int|
        0 <= i < received.len() && ((#[trigger] received[i]) is Abort || received[i] is Shutdown) {
        let i = choose|i: int|
            0 <= i < received.len() && ((#[trigger] received[i]) is Abort
                || received[i] is Shutdown);
        assert(received[i] is Abort || received[i] is Shutdown);
    }
}

/// Messages join the transcript behind what is there, all of them, in their order, and nothing else
/// changes.
pub proof fn law_messages_join_at_the_end(
    before: Seq<Arc<Message>>,
    after: Seq<Arc<Message>>,
    msgs: Seq<Message>,
)
    requires
        appended(before, after, msgs),
    ensures
        before.is_prefix_of(after),
        after.skip(before.len() as int).map_values(|m: Arc<Message>| *m) == msgs,
{
    assert(after.subrange(0, before.len() as int) =~= before);
    assert(after.skip(before.len() as int).map_values(|m: Arc<Message>| *m) =~= msgs) by {
        assert forall|i: int| 0 <= i < msgs.len() implies *(#[trigger] after.skip(
            before.len() as int,
        )[i]) == msgs[i] by {
            assert(*(after[before.len() + i]) == msgs[i]);
        }
    }
}

/// Each message that joins the transcript is reported to begin once and to end once, in their order,
/// and is shown with all that came before it. So whoever records the ends records every message.
pub proof fn law_every_message_is_reported_once(t: Seq<Arc<Message>>, from: int)
    requires
        0 <= from <= t.len(),
    ensures
        message_effects(t, from).filter(|e: EffectView| e is MessageEnd) == t.skip(
            from,
        ).map_values(|m: Arc<Message>| EffectView::MessageEnd(m)),
        message_effects(t, from).filter(|e: EffectView| e is MessageStart) == t.skip(
            from,
        ).map_values(|m: Arc<Message>| EffectView::MessageStart(m)),
        from < t.len() ==> message_effects(t, from).filter(|e: EffectView| e is Publish).last()
            == EffectView::Publish(t, None),
    decreases t.len() - from,
{
    reveal(Seq::filter);
    let ends = |e: EffectView| e is MessageEnd;
    let starts = |e: EffectView| e is MessageStart;
    let shows = |e: EffectView| e is Publish;
    if from < t.len() {
        let head = seq![
            EffectView::MessageStart(t[from]),
            EffectView::Publish(t.take(from + 1), None),
            EffectView::MessageEnd(t[from]),
        ];
        let tail = message_effects(t, from + 1);
        law_every_message_is_reported_once(t, from + 1);
        Seq::filter_distributes_over_add(head, tail, ends);
        Seq::filter_distributes_over_add(head, tail, starts);
        Seq::filter_distributes_over_add(head, tail, shows);
        reveal_with_fuel(Seq::<_>::filter, 4);
        assert(head.drop_last() =~= seq![
            EffectView::MessageStart(t[from]),
            EffectView::Publish(t.take(from + 1), None),
        ]);
        assert(head.drop_last().drop_last() =~= seq![EffectView::MessageStart(t[from])]);
        assert(head.drop_last().drop_last().drop_last() =~= Seq::<EffectView>::empty());
        assert(head.filter(ends) =~= seq![EffectView::MessageEnd(t[from])]);
        assert(head.filter(starts) =~= seq![EffectView::MessageStart(t[from])]);
        assert(head.filter(shows) =~= seq![EffectView::Publish(t.take(from + 1), None)]);
        assert(t.skip(from) =~= seq![t[from]] + t.skip(from + 1));
        assert(t.skip(from).map_values(|m: Arc<Message>| EffectView::MessageEnd(m))
            =~= message_effects(t, from).filter(ends));
        assert(t.skip(from).map_values(|m: Arc<Message>| EffectView::MessageStart(m))
            =~= message_effects(t, from).filter(starts));
        if from + 1 == t.len() {
            assert(t.take(from + 1) =~= t);
            assert(tail.len() == 0);
            assert(tail.filter(shows).len() == 0);
        } else {
            lemma_something_is_shown(t, from + 1);
        }
    } else {
        assert(t.skip(from).map_values(|m: Arc<Message>| EffectView::MessageEnd(m)) =~= Seq::<
            EffectView,
        >::empty());
        assert(t.skip(from).map_values(|m: Arc<Message>| EffectView::MessageStart(m)) =~= Seq::<
            EffectView,
        >::empty());
    }
}

proof fn lemma_something_is_shown(t: Seq<Arc<Message>>, from: int)
    requires
        0 <= from < t.len(),
    ensures
        message_effects(t, from).filter(|e: EffectView| e is Publish).len() > 0,
{
    let shows = |e: EffectView| e is Publish;
    assert(message_effects(t, from)[1] is Publish);
    message_effects(t, from).lemma_filter_contains(shows, 1);
}

/// How often `effects` report the start of the agent, its end, the start of a turn, and its end.
pub open spec fn report_counts(effects: Seq<EffectView>) -> (nat, nat, nat, nat) {
    (
        effects.filter(|e: EffectView| e is AgentStart).len(),
        effects.filter(|e: EffectView| e is AgentEnd).len(),
        effects.filter(|e: EffectView| e is TurnStart).len(),
        effects.filter(|e: EffectView| e is TurnEnd).len(),
    )
}

/// The reports of a run are nested: the agent starts once and ends once, which is the last thing
/// that is reported, and every turn that starts ends before the next one starts and before the agent
/// ends.
pub proof fn law_reports_are_nested(effects: Seq<EffectView>)
    ensures
        ({
            let c = report_counts(effects);
            match trace(TracePhase::Before, effects) {
                TracePhase::Before => c == (0nat, 0nat, 0nat, 0nat),
                TracePhase::Between => c.0 == 1 && c.1 == 0 && c.2 == c.3,
                TracePhase::InTurn => c.0 == 1 && c.1 == 0 && c.2 == c.3 + 1,
                TracePhase::After => c.0 == 1 && c.1 == 1 && c.2 == c.3
                    && effects.last() is AgentEnd,
                TracePhase::Broken => true,
            }
        }),
    decreases effects.len(),
{
    reveal(Seq::filter);
    if effects.len() > 0 {
        law_reports_are_nested(effects.drop_last());
    }
}

/// Every tool call of an answer is answered: once the tools of a turn have run, the transcript has a
/// tool result for each tool call in the message, with its id and its name, in the order of the
/// calls, and no others.
pub proof fn law_every_tool_call_is_answered(
    content: Seq<AssistantContent>,
    prepared: Seq<tools::PreparedCall>,
    given: Seq<ToolResult>,
    results: Seq<ToolResultMessage>,
    before: Seq<Arc<Message>>,
    after: Seq<Arc<Message>>,
)
    requires
        prepared.len() == turn::calls_of(content).len(),
        forall|i: int|
            0 <= i < prepared.len() ==> (#[trigger] prepared[i]).tool_call == turn::calls_of(
                content,
            )[i],
        given.len() == prepared.len(),
        results.len() == prepared.len(),
        forall|i: int|
            0 <= i < results.len() ==> tools::is_result_of(
                #[trigger] results[i],
                prepared[i].tool_call,
                given[i],
            ),
        results_added(before, after, results),
    ensures
        ({
            let calls = content.filter(|c: AssistantContent| c is ToolCall);
            &&& before.is_prefix_of(after)
            &&& after.len() == before.len() + calls.len()
            &&& forall|i: int|
                0 <= i < calls.len() ==> answers(
                    *(#[trigger] after[before.len() + i]),
                    calls[i]->ToolCall_0,
                    given[i],
                )
        }),
{
    turn::law_no_tool_call_is_lost(content);
    let f = |c: ToolCall| AssistantContent::ToolCall(c);
    let calls = content.filter(|c: AssistantContent| c is ToolCall);
    assert(after.subrange(0, before.len() as int) =~= before);
    assert forall|i: int| 0 <= i < calls.len() implies answers(
        *(#[trigger] after[before.len() + i]),
        calls[i]->ToolCall_0,
        given[i],
    ) by {
        assert(turn::calls_of(content).map_values(f)[i] == calls[i]);
        assert(prepared[i].tool_call == turn::calls_of(content)[i]);
        assert(tools::is_result_of(results[i], prepared[i].tool_call, given[i]));
        assert(is_tool_result(*after[before.len() + i], results[i]));
    }
}

/// Whether `m` is the result of the call `tc`.
pub open spec fn answers(m: Message, tc: ToolCall, result: ToolResult) -> bool {
    m matches Message::ToolResult(x) && x.tool_call_id@ == tc.id@ && x.tool_name@ == tc.name@
        && x.is_error == result.is_error && x.content@ == result.content@ && x.details
        == result.details
}

/// All that the model is told of each tool is counted: its name, its description and its parameters
/// stand in the text one behind the other, for each tool behind those before it.
pub proof fn law_every_tool_is_counted(tools: Seq<ToolInfo>, i: int)
    requires
        0 <= i < tools.len(),
    ensures
        schemas_text(tools.take(i)).is_prefix_of(schemas_text(tools)),
        schemas_text(tools.take(i + 1)).is_prefix_of(schemas_text(tools)),
        schemas_text(tools.take(i + 1)).skip(schemas_text(tools.take(i)).len() as int)
            == tools[i].name@ + tools[i].description@ + json::parameters_debug(
            tools[i].parameters,
        ),
        schemas_text(Seq::empty()).len() == 0,
    decreases tools.len(),
{
    let n = tools.len() - 1;
    let init = tools.drop_last();
    let t = tools[n];
    let own = t.name@ + t.description@ + json::parameters_debug(t.parameters);
    assert(schemas_text(tools) =~= schemas_text(init) + own);
    assert(tools.take(n) =~= init);
    assert(tools.take(n + 1) =~= tools);
    if i < n {
        law_every_tool_is_counted(init, i);
        assert(init.take(i) =~= tools.take(i));
        assert(init.take(i + 1) =~= tools.take(i + 1));
        lemma_prefix_grows(schemas_text(tools.take(i)), schemas_text(init), own);
        lemma_prefix_grows(schemas_text(tools.take(i + 1)), schemas_text(init), own);
    } else {
        lemma_prefix_grows(schemas_text(init), schemas_text(init), own);
        assert(schemas_text(tools).subrange(0, schemas_text(tools).len() as int) =~= schemas_text(
            tools,
        ));
        assert(schemas_text(tools).skip(schemas_text(init).len() as int) =~= own);
    }
}

proof fn lemma_prefix_grows(a: Seq<char>, b: Seq<char>, more: Seq<char>)
    requires
        a.is_prefix_of(b),
    ensures
        a.is_prefix_of(b + more),
{
    assert((b + more).subrange(0, a.len() as int) =~= b.subrange(0, a.len() as int));
}

/// What each request takes besides its messages covers the system prompt, the tools and the
/// wrapping; and the messages that are sent leave the tokens free that are kept for the answer,
/// wherever cutting can bring that about.
pub proof fn law_request_leaves_room_for_the_answer(
    window: nat,
    reserve: nat,
    system_prompt: Seq<char>,
    schemas: Seq<char>,
    wrapper: nat,
    messages: Seq<Arc<Message>>,
    r: Seq<Arc<Message>>,
    last_turn: int,
)
    requires
        text::byte_len_spec(system_prompt) + text::byte_len_spec(schemas) < 0x1_0000_0000,
        wrapper < 0x1000_0000,
        reserve <= window,
        context::is_truncation(
            messages,
            room_of(window, reserve),
            overhead_of(system_prompt, schemas, wrapper),
            r,
        ),
        0 <= last_turn < messages.len(),
        *messages[last_turn] is User,
        context::total_tokens(
            messages.skip(last_turn),
            overhead_of(system_prompt, schemas, wrapper),
        ) <= room_of(window, reserve),
    ensures
        4 * overhead_of(system_prompt, schemas, wrapper) >= text::byte_len_spec(system_prompt)
            + text::byte_len_spec(schemas) + 4 * wrapper,
        context::total_tokens(r, overhead_of(system_prompt, schemas, wrapper)) + reserve <= window,
        r.len() >= messages.len() - last_turn,
{
    context::law_no_more_is_cut_than_has_to_be(
        messages,
        room_of(window, reserve),
        overhead_of(system_prompt, schemas, wrapper),
        r,
        last_turn,
    );
}

/// At the end of a turn without tool calls every message is accounted for once: it was taken into
/// the run and counted, or it is in the queue to be dealt with later. No other command is lost.
pub proof fn law_messages_are_counted_once(
    queue: Seq<AgentCommand>,
    received: Seq<AgentCommand>,
    queue_after: Seq<AgentCommand>,
    taken: nat,
)
    requires
        ({
            let all = queue + commands::waiting(received);
            let steer = commands::steers(received) + commands::steers(all);
            let followup = commands::followups(received) + commands::followups(all);
            let rest = commands::plain(all);
            if stop_in(received) {
                queue_after == rest + commands::as_steers(steer) + commands::as_followups(followup)
                    && taken == 0
            } else if steer.len() > 0 {
                queue_after == rest + commands::as_followups(followup) && taken == steer.len()
            } else {
                queue_after == rest && taken == followup.len()
            }
        }),
    ensures
        queue_after.len() + taken + commands::stop_count(received) == queue.len() + received.len(),
{
    let all = queue + commands::waiting(received);
    commands::law_drain_loses_nothing(received);
    commands::lemma_plain_len(all);
}

/// The messages of a transcript.
pub open spec fn said(t: Seq<Arc<Message>>) -> Seq<Message> {
    t.map_values(|m: Arc<Message>| *m)
}

/// A run forgets nothing: whatever step it takes, what was said before stays at the beginning of the
/// transcript.
pub proof fn law_run_forgets_nothing()
    ensures
        forall|state: &mut RuntimeState, initial: Vec<Message>, r: (AgentRun, RunStep)| #[trigger]
            call_ensures(AgentRun::start, (state, initial), r) ==> state.transcript@.is_prefix_of(
                final(state).transcript@,
            ),
        forall|
            run: &mut AgentRun,
            state: &mut RuntimeState,
            received: Vec<AgentCommand>,
            r: RunStep,
        | #[trigger]
            call_ensures(AgentRun::drained_initial, (run, state, received), r)
                ==> state.transcript@.is_prefix_of(final(state).transcript@),
        forall|run: &mut AgentRun, state: &mut RuntimeState, turn: TurnResult, r: RunStep| #[trigger]
            call_ensures(AgentRun::turn_done, (run, state, turn), r)
                ==> state.transcript@.is_prefix_of(final(state).transcript@),
        forall|
            run: &mut AgentRun,
            state: &mut RuntimeState,
            received: Vec<AgentCommand>,
            r: RunStep,
        | #[trigger]
            call_ensures(AgentRun::drained_no_tools, (run, state, received), r)
                ==> state.transcript@.is_prefix_of(final(state).transcript@),
        forall|
            run: &mut AgentRun,
            state: &mut RuntimeState,
            results: Vec<ToolResultMessage>,
            r: RunStep,
        | #[trigger]
            call_ensures(AgentRun::tools_done, (run, state, results), r)
                ==> state.transcript@.is_prefix_of(final(state).transcript@),
        forall|run: &mut AgentRun, state: &mut RuntimeState, messages: Vec<Message>, r: RunStep|
            #[trigger]
            call_ensures(AgentRun::next_answered, (run, state, messages), r)
                ==> state.transcript@.is_prefix_of(final(state).transcript@),
        forall|
            run: &mut AgentRun,
            state: &mut RuntimeState,
            received: Vec<AgentCommand>,
            r: RunStep,
        | #[trigger]
            call_ensures(AgentRun::drained_after_tools, (run, state, received), r)
                ==> state.transcript@ == final(state).transcript@,
{
    assert forall|a: Seq<Arc<Message>>, b: Seq<Arc<Message>>, msgs: Seq<Message>| #[trigger]
        appended(a, b, msgs) implies a.is_prefix_of(b) by {
        assert(b.take(a.len() as int) =~= b.subrange(0, a.len() as int));
    }
    assert forall|a: Seq<Arc<Message>>, b: Seq<Arc<Message>>, r: Seq<ToolResultMessage>| #[trigger]
        results_added(a, b, r) implies a.is_prefix_of(b) by {
        assert(b.take(a.len() as int) =~= b.subrange(0, a.len() as int));
    }
    assert forall|a: Seq<Arc<Message>>| #[trigger] a.is_prefix_of(a) by {
        assert(a.subrange(0, a.len() as int) =~= a);
    }
    assert forall|run: &mut AgentRun, state: &mut RuntimeState, turn: TurnResult, r: RunStep|
        #[trigger] call_ensures(AgentRun::turn_done, (run, state, turn), r) implies
        state.transcript@.is_prefix_of(final(state).transcript@) by {
        let n = state.transcript@.len() as int;
        assert(final(state).transcript@.subrange(0, n) =~= final(state).transcript@.drop_last());
    }
}

/// No message that a run begins with is lost or said twice: those that were said and those that are
/// still to be said are the same before a step and after it, as long as no stop arrives.
pub proof fn law_every_first_message_is_said()
    ensures
        forall|state: &mut RuntimeState, initial: Vec<Message>, r: (AgentRun, RunStep)| #[trigger]
            call_ensures(AgentRun::start, (state, initial), r) ==> said(final(state).transcript@)
                + r.0.initial@ == said(state.transcript@) + initial@,
        forall|
            run: &mut AgentRun,
            state: &mut RuntimeState,
            received: Vec<AgentCommand>,
            r: RunStep,
        | #[trigger]
            call_ensures(AgentRun::drained_initial, (run, state, received), r) && (forall|i: int|
                0 <= i < received@.len() ==> !((#[trigger] received@[i]) is Abort)
                    && !(received@[i] is Shutdown)) && run.initial@.len() > 0 ==> said(
                final(state).transcript@,
            ) + final(run).initial@ == said(state.transcript@) + run.initial@,
{
    assert forall|a: Seq<Arc<Message>>, b: Seq<Arc<Message>>, msgs: Seq<Message>| #[trigger]
        appended(a, b, msgs) implies said(b) == said(a) + msgs by {
        lemma_said(a, b, msgs);
    }
    assert forall|state: &mut RuntimeState, initial: Vec<Message>, r: (AgentRun, RunStep)| #[trigger]
        call_ensures(AgentRun::start, (state, initial), r) implies said(final(state).transcript@)
        + r.0.initial@ == said(state.transcript@) + initial@ by {
        if initial@.len() > 0 {
            assert(initial@ =~= initial@.take(1) + initial@.skip(1));
        }
        assert(said(final(state).transcript@) + r.0.initial@ =~= said(state.transcript@) + initial@);
    }
    assert forall|
        run: &mut AgentRun,
        state: &mut RuntimeState,
        received: Vec<AgentCommand>,
        r: RunStep,
    | #[trigger]
        call_ensures(AgentRun::drained_initial, (run, state, received), r) && (forall|i: int|
            0 <= i < received@.len() ==> !((#[trigger] received@[i]) is Abort) && !(
            received@[i] is Shutdown)) && run.initial@.len() > 0 implies said(
        final(state).transcript@,
    ) + final(run).initial@ == said(state.transcript@) + run.initial@ by {
        law_stops_are_aborts_and_shutdowns(received@);
        assert(!stop_in(received@));
        let first = run.initial@.take(1);
        assert(said(final(state).transcript@) == said(state.transcript@) + first);
        assert(run.initial@ =~= first + run.initial@.skip(1));
        assert(said(final(state).transcript@) + final(run).initial@ =~= said(state.transcript@)
            + run.initial@);
    }
}

proof fn lemma_said(a: Seq<Arc<Message>>, b: Seq<Arc<Message>>, msgs: Seq<Message>)
    requires
        appended(a, b, msgs),
    ensures
        said(b) == said(a) + msgs,
{
    assert forall|i: int| 0 <= i < b.len() implies said(b)[i] == (said(a) + msgs)[i] by {
        if i < a.len() {
            assert(b.take(a.len() as int)[i] == b[i]);
        } else {
            assert(*b[a.len() + (i - a.len())] == msgs[i - a.len()]);
        }
    }
    assert(said(b) =~= said(a) + msgs);
}

/// A run that is over says so, with the whole transcript, as the last thing that it reports; one that
/// goes on does not.
pub proof fn law_end_is_reported_with_the_transcript()
    ensures
        forall|run: &mut AgentRun, state: &mut RuntimeState, turn: TurnResult, r: RunStep| #[trigger]
            call_ensures(AgentRun::turn_done, (run, state, turn), r) ==> tells_the_end(
                r,
                final(state).transcript@,
            ),
        forall|
            run: &mut AgentRun,
            state: &mut RuntimeState,
            received: Vec<AgentCommand>,
            r: RunStep,
        | #[trigger]
            call_ensures(AgentRun::drained_initial, (run, state, received), r) ==> tells_the_end(
                r,
                final(state).transcript@,
            ),
        forall|
            run: &mut AgentRun,
            state: &mut RuntimeState,
            received: Vec<AgentCommand>,
            r: RunStep,
        | #[trigger]
            call_ensures(AgentRun::drained_no_tools, (run, state, received), r) ==> tells_the_end(
                r,
                final(state).transcript@,
            ),
        forall|
            run: &mut AgentRun,
            state: &mut RuntimeState,
            received: Vec<AgentCommand>,
            r: RunStep,
        | #[trigger]
            call_ensures(AgentRun::drained_after_tools, (run, state, received), r) ==> tells_the_end(
                r,
                final(state).transcript@,
            ),
        forall|run: &mut AgentRun, state: &RuntimeState, r: RunStep| #[trigger]
            call_ensures(AgentRun::prepare_aborted, (run, state), r) ==> r.next is Finished
                && tells_the_end(r, state.transcript@),
        forall|run: &mut AgentRun, state: &RuntimeState, stop: bool, r: RunStep| #[trigger]
            call_ensures(AgentRun::stop_answered, (run, state, stop), r) ==> (r.next is Finished
                <==> stop) && tells_the_end(r, state.transcript@),
{
    assert forall|
        run: &mut AgentRun,
        state: &mut RuntimeState,
        received: Vec<AgentCommand>,
        r: RunStep,
    | #[trigger]
        call_ensures(AgentRun::drained_initial, (run, state, received), r) implies tells_the_end(
        r,
        final(state).transcript@,
    ) by {
        let t = final(state).transcript@;
        let from = state.transcript@.len() as int;
        lemma_messages_tell_no_end(t, from);
    }
    assert forall|
        run: &mut AgentRun,
        state: &mut RuntimeState,
        received: Vec<AgentCommand>,
        r: RunStep,
    | #[trigger]
        call_ensures(AgentRun::drained_no_tools, (run, state, received), r) implies tells_the_end(
        r,
        final(state).transcript@,
    ) by {
        let t = final(state).transcript@;
        let from = state.transcript@.len() as int;
        lemma_messages_tell_no_end(t, from);
    }
}

/// Whether `step` reports the end of the agent with `transcript` where the run is over, and nowhere
/// else.
pub open spec fn tells_the_end(step: RunStep, transcript: Seq<Arc<Message>>) -> bool {
    let v = effects_view(step.effects@);
    let n = v.len() as int;
    if step.next is Finished {
        &&& n > 0
        &&& v[n - 1] == EffectView::AgentEnd(transcript)
        &&& forall|i: int| 0 <= i < n - 1 ==> !((#[trigger] v[i]) is AgentEnd)
    } else {
        forall|i: int| 0 <= i < n ==> !((#[trigger] v[i]) is AgentEnd)
    }
}

proof fn lemma_messages_tell_no_end(t: Seq<Arc<Message>>, from: int)
    ensures
        forall|i: int|
            0 <= i < message_effects(t, from).len() ==> !((#[trigger] message_effects(t, from)[i])
                is AgentEnd),
    decreases t.len() - from,
{
    if from < t.len() {
        let three = seq![
            EffectView::MessageStart(t[from]),
            EffectView::Publish(t.take(from + 1), None),
            EffectView::MessageEnd(t[from]),
        ];
        let rest = message_effects(t, from + 1);
        lemma_messages_tell_no_end(t, from + 1);
        assert forall|i: int| 0 <= i < message_effects(t, from).len() implies !((
        #[trigger] message_effects(t, from)[i]) is AgentEnd) by {
            if i >= 3 {
                assert(message_effects(t, from)[i] == rest[i - 3]);
            } else {
                assert(message_effects(t, from)[i] == three[i]);
            }
        }
    }
}

/// The answer of a turn joins the transcript, whatever becomes of the turn. A turn that was aborted
/// ends the run; otherwise all tool calls of the turn are run, if there are any, and if there are
/// none the commands are looked at.
pub proof fn law_turn_is_carried_out()
    ensures
        forall|run: &mut AgentRun, state: &mut RuntimeState, turn: TurnResult, r: RunStep| #[trigger]
            call_ensures(AgentRun::turn_done, (run, state, turn), r) ==> {
                &&& final(state).transcript@.len() == state.transcript@.len() + 1
                &&& *final(state).transcript@.last() is Assistant
                &&& (*final(state).transcript@.last())->Assistant_0@ == turn.assistant_message@
                &&& r.next is Finished <==> turn.aborted
                &&& r.next is RunTools <==> !turn.aborted && turn.tool_calls@.len() > 0
                &&& r.next is RunTools ==> r.next->RunTools_0@ == turn.tool_calls@
                &&& !turn.aborted && turn.tool_calls@.len() == 0 ==> r.next == RunRequest::Drain(
                    DrainPoint::NoTools,
                )
                &&& final(state).queue@ == state.queue@
            },
{
}

/// The messages that a command brings.
pub open spec fn brought(cmd: AgentCommand) -> Seq<Message> {
    match cmd {
        AgentCommand::Prompt(messages) => messages@,
        AgentCommand::Steer(message) => seq![message],
        AgentCommand::FollowUp(message) => seq![message],
        _ => Seq::empty(),
    }
}

/// A command that brings messages, and one to go on, leads to a run with just these messages; only a
/// reset clears the transcript and the queue, and says how many commands it dropped; only a shutdown
/// ends the agent.
pub proof fn law_commands_are_carried_out()
    ensures
        forall|state: &mut RuntimeState, cmd: AgentCommand, r: CommandPlan| #[trigger]
            call_ensures(RuntimeState::process_command, (state, cmd), r) ==> {
                &&& r is Run ==> r->Run_0@ == brought(cmd)
                &&& brought(cmd).len() > 0 || cmd is Continue ==> r is Run
                &&& r is Exit <==> cmd is Shutdown
                &&& r is Cleared <==> cmd is Reset
                &&& r is Nothing <==> cmd is Abort
                &&& cmd is Reset ==> final(state).transcript@.len() == 0
                    && final(state).queue@.len() == 0 && r->discarded == state.queue@.len() as u64
                &&& !(cmd is Reset) ==> final(state).transcript@ == state.transcript@
                    && final(state).queue@ == state.queue@
                &&& final(state).processed == state.processed
            },
{
}

/// Commands that wait are taken in their order, and none is lost.
pub proof fn law_oldest_command_is_next()
    ensures
        forall|state: &mut RuntimeState, r: Option<AgentCommand>| #[trigger]
            call_ensures(RuntimeState::next_command, (state,), r) ==> {
                &&& r is None <==> state.queue@.len() == 0
                &&& r matches Some(cmd) ==> seq![cmd] + final(state).queue@ == state.queue@
                &&& final(state).transcript@ == state.transcript@
            },
{
    assert forall|state: &mut RuntimeState, r: Option<AgentCommand>| #[trigger]
        call_ensures(RuntimeState::next_command, (state,), r) && r is Some implies seq![r->0]
        + final(state).queue@ == state.queue@ by {
        assert(seq![r->0] + final(state).queue@ =~= state.queue@);
    }
}

/// A summary takes the place of what it stands for, and of nothing else: the messages that are kept
/// stay as they are, and the summary comes before them.
pub proof fn law_summary_comes_before_what_is_kept()
    ensures
        forall|state: &mut RuntimeState, commit: CompactionCommit, r: Vec<RunEffect>| #[trigger]
            call_ensures(RuntimeState::apply_commit, (state, commit), r) && commit.keep_from
                <= state.transcript@.len() ==> {
                &&& final(state).transcript@ == seq![final(state).transcript@[0]]
                    + state.transcript@.skip(commit.keep_from as int)
                &&& final(state).queue@ == state.queue@
            },
{
    assert forall|state: &mut RuntimeState, commit: CompactionCommit, r: Vec<RunEffect>| #[trigger]
        call_ensures(RuntimeState::apply_commit, (state, commit), r) && commit.keep_from
            <= state.transcript@.len() implies final(state).transcript@ == seq![
        final(state).transcript@[0],
    ] + state.transcript@.skip(commit.keep_from as int) by {
        let t = final(state).transcript@;
        assert(t =~= seq![t[0]] + t.skip(1));
    }
}

/// A request holds the messages and the prompt that it was built with, and tells of every tool, in the
/// order of the tools, by its name, its description and its parameters.
pub proof fn law_request_tells_of_every_tool(
    config: LoopConfig,
    system_prompt: &str,
    thinking_level: ThinkingLevel,
    infos: &[ToolInfo],
    messages: Vec<Message>,
    r: ProviderRequest,
)
    requires
        call_ensures(
            build_request,
            (&config, system_prompt, thinking_level, infos, messages),
            r,
        ),
    ensures
        r.context.messages@ == messages@,
        r.context.system_prompt@ == system_prompt@,
        r.context.tools@.len() == infos@.len(),
        forall|i: int|
            0 <= i < infos@.len() ==> (#[trigger] r.context.tools@[i]).name == infos@[i].name
                && r.context.tools@[i].description == infos@[i].description
                && r.context.tools@[i].parameters == infos@[i].parameters,
        r.model == config.model && r.thinking_level == thinking_level,
{
    let told = r.context.tools@;
    assert forall|i: int| 0 <= i < infos@.len() implies (#[trigger] told[i]).name == infos@[i].name
        && told[i].description == infos@[i].description && told[i].parameters
        == infos@[i].parameters by {}
}

/// What is stated of a report is stated of all that it says: of which kind it is, and with which
/// messages.
pub proof fn law_reports_are_told_apart(e: RunEffect)
    ensures
        e@ matches EffectView::AgentEnd(t) ==> (e matches RunEffect::Emit(AgentEvent::AgentEnd {
            messages,
        }) && messages@ == t),
        e@ matches EffectView::TurnEnd(m, results) ==> (e matches RunEffect::Emit(
            AgentEvent::TurnEnd { message, tool_results },
        ) && message@ == m && tool_results@.len() == results.len()),
        e@ matches EffectView::MessageStart(m) ==> (e matches RunEffect::Emit(
            AgentEvent::MessageStart { message },
        ) && *message == *m),
        e@ matches EffectView::MessageEnd(m) ==> (e matches RunEffect::Emit(AgentEvent::MessageEnd {
            message,
        }) && *message == *m),
        e@ matches EffectView::Publish(t, error) ==> (e matches RunEffect::Publish {
            messages,
            error_message,
        } && messages@ == t && error_message == error),
        e@ is AgentStart <==> e == RunEffect::Emit(AgentEvent::AgentStart),
        e@ is TurnStart <==> e == RunEffect::Emit(AgentEvent::TurnStart),
{
}

/// A turn for which no request could be prepared is reported as aborted, with an empty message and no
/// tool results.
pub proof fn law_aborted_turn_is_empty()
    ensures
        forall|run: &mut AgentRun, state: &RuntimeState, r: RunStep| #[trigger]
            call_ensures(AgentRun::prepare_aborted, (run, state), r) ==> {
                let shown = effects_view(r.effects@)[0];
                &&& shown is TurnEnd
                &&& (shown->TurnEnd_0).content.len() == 0
                &&& (shown->TurnEnd_0).stop_reason == Some(StopReason::Aborted)
                &&& (shown->TurnEnd_0).error_message is None
                &&& (shown->TurnEnd_1).len() == 0
            },
{
}

/// What is kept for the answer is taken from the window, and where more is to be kept than the window
/// has nothing is left.
pub proof fn law_room_and_reserve_make_up_the_window(window: nat, reserve: nat)
    ensures
        reserve <= window ==> room_of(window, reserve) + reserve == window,
        reserve >= window ==> room_of(window, reserve) == 0,
{
}

/// The messages that are to come before the next turn are said, all of them, in their order; and the
/// results of the tools are said too, one for each, and reported with the end of the turn.
pub proof fn law_turn_leads_on_to_the_next()
    ensures
        forall|run: &mut AgentRun, state: &mut RuntimeState, messages: Vec<Message>, r: RunStep| #[trigger]
            call_ensures(AgentRun::next_answered, (run, state, messages), r) ==> said(
                final(state).transcript@,
            ) == said(state.transcript@) + messages@ && r.next == RunRequest::Drain(
                DrainPoint::AfterTools,
            ),
        forall|
            run: &mut AgentRun,
            state: &mut RuntimeState,
            results: Vec<ToolResultMessage>,
            r: RunStep,
        |
            run.current is Some && #[trigger] call_ensures(
                AgentRun::tools_done,
                (run, state, results),
                r,
            ) ==> {
                let v = effects_view(r.effects@);
                let n = state.transcript@.len() as int;
                &&& final(state).transcript@.len() == n + results@.len()
                &&& v.last() is TurnEnd
                &&& (v.last()->TurnEnd_1).len() == results@.len()
                &&& v.last()->TurnEnd_0 == run.current->0@
                &&& r.next is AskStop
            },
        forall|
            run: &mut AgentRun,
            state: &mut RuntimeState,
            received: Vec<AgentCommand>,
            r: RunStep,
        | #[trigger]
            call_ensures(AgentRun::drained_after_tools, (run, state, received), r) ==> {
                let stopped = exists|i: int|
                    0 <= i < received@.len() && ((#[trigger] received@[i]) is Abort
                        || received@[i] is Shutdown);
                &&& r.next is Finished <==> stopped
                &&& r.next is Prepare <==> !stopped
                &&& state.queue@.is_prefix_of(final(state).queue@)
            },
{
    assert forall|a: Seq<Arc<Message>>, b: Seq<Arc<Message>>, msgs: Seq<Message>| #[trigger]
        appended(a, b, msgs) implies said(b) == said(a) + msgs by {
        lemma_said(a, b, msgs);
    }
    assert forall|
        run: &mut AgentRun,
        state: &mut RuntimeState,
        received: Vec<AgentCommand>,
        r: RunStep,
    | #[trigger]
        call_ensures(AgentRun::drained_after_tools, (run, state, received), r) implies {
        let stopped = exists|i: int|
            0 <= i < received@.len() && ((#[trigger] received@[i]) is Abort
                || received@[i] is Shutdown);
        &&& r.next is Finished <==> stopped
        &&& r.next is Prepare <==> !stopped
        &&& state.queue@.is_prefix_of(final(state).queue@)
    } by {
        law_stops_are_aborts_and_shutdowns(received@);
        law_put_back_loses_nothing(state.queue@, received@);
    }
}

} // verus!
