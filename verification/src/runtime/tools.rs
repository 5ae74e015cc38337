//! Running the tools that a turn calls for.
use vstd::prelude::*;
use vstd::string::*;

use crate::event::AgentEvent;
use crate::json;
use crate::message::{ToolCall, ToolResultMessage};
use crate::provider::ToolSpec;
use crate::text;
use crate::tool::{ResourceScope, ToolError, ToolResult};

verus! {

/// How the tool calls of a turn are run.
#[derive(Debug, Clone, Copy, PartialEq, Eq, Structural)]
pub enum ToolExecutionMode {
    /// One after the other.
    Sequential,
    /// Neighbouring calls of tools that only read run together.
    ReadOnlyParallel,
}

/// What is known of a tool.
#[derive(Debug)]
pub struct ToolInfo {
    pub name: String,
    pub description: String,
    pub parameters: Option<serde_json::Value>,
    pub scope: ResourceScope,
}

/// The tools as the model is told of them.
pub fn tool_specs(tools: &[ToolInfo]) -> (r: Vec<ToolSpec>)
    ensures
        r@.len() == tools@.len(),
        forall|i: int|
            0 <= i < r@.len() ==> {
                &&& (#[trigger] r@[i]).name == tools@[i].name
                &&& r@[i].description == tools@[i].description
                &&& r@[i].parameters == tools@[i].parameters
            },
{
    let mut out: Vec<ToolSpec> = Vec::new();
    let mut i: usize = 0;
    while i < tools.len()
        invariant
            i <= tools@.len(),
            out@.len() == i,
            forall|k: int|
                0 <= k < i ==> {
                    &&& (#[trigger] out@[k]).name == tools@[k].name
                    &&& out@[k].description == tools@[k].description
                    &&& out@[k].parameters == tools@[k].parameters
                },
        decreases tools@.len() - i,
    {
        let parameters = match &tools[i].parameters {
            Some(p) => Some(p.clone()),
            None => None,
        };
        out.push(
            ToolSpec {
                name: tools[i].name.clone(),
                description: tools[i].description.clone(),
                parameters,
            },
        );
        i += 1;
    }
    out
}

/// Whether `r` is the first tool with the name `name`.
pub open spec fn is_first_named(tools: Seq<ToolInfo>, name: Seq<char>, r: Option<usize>) -> bool {
    match r {
        Some(i) => {
            &&& i < tools.len()
            &&& tools[i as int].name@ == name
            &&& forall|j: int| 0 <= j < i ==> (#[trigger] tools[j]).name@ != name
        },
        None => forall|j: int| 0 <= j < tools.len() ==> (#[trigger] tools[j]).name@ != name,
    }
}

fn find_tool(tools: &[ToolInfo], name: &str) -> (r: Option<usize>)
    ensures
        is_first_named(tools@, name@, r),
{
    let mut i: usize = 0;
    while i < tools.len()
        invariant
            i <= tools@.len(),
            forall|j: int| 0 <= j < i ==> (#[trigger] tools@[j]).name@ != name@,
        decreases tools@.len() - i,
    {
        if text::str_eq(tools[i].name.as_str(), name) {
            return Some(i);
        }
        i += 1;
    }
    None
}

/// A tool call that is ready to be run.
#[derive(Debug)]
pub struct PreparedCall {
    pub tool_call: ToolCall,
    /// Which tool is called; `None` if there is none of that name.
    pub tool: Option<usize>,
    /// What the call can run beside; a tool that does not exist is taken to need all.
    pub scope: ResourceScope,
    pub args: serde_json::Value,
    /// Why the call is refused, if it is.
    pub rejected: Option<String>,
}

/// Prepares a tool call: finds the tool and reads the arguments. Arguments that are not JSON are
/// a reason to refuse the call.
pub fn prepare_call(tools: &[ToolInfo], tc: &ToolCall) -> (r: PreparedCall)
    ensures
        r.tool_call == *tc,
        is_first_named(tools@, tc.name@, r.tool),
        r.scope == (match r.tool {
            Some(i) => tools@[i as int].scope,
            None => ResourceScope::Exclusive,
        }),
        prepared_args(tc.arguments@, r.args, r.rejected),
{
    let tool = find_tool(tools, tc.name.as_str());
    let scope = match tool {
        Some(i) => tools[i].scope,
        None => ResourceScope::Exclusive,
    };
    match json::parse_json(tc.arguments.as_str()) {
        Ok(args) => read_call(tc, tool, scope, Ok(args)),
        Err(e) => read_call(tc, tool, scope, Err(e)),
    }
}

/// What becomes of the text of the arguments.
pub open spec fn prepared_args(
    arguments: Seq<char>,
    args: serde_json::Value,
    rejected: Option<String>,
) -> bool {
    match json::parsed_json(arguments) {
        Ok(v) => args == v && rejected is None,
        Err(e) => args == json::json_null() && (rejected matches Some(s) && s@
            == "invalid arguments: "@ + e),
    }
}

/// The prepared call for arguments that were read, or could not be.
pub fn read_call(
    tc: &ToolCall,
    tool: Option<usize>,
    scope: ResourceScope,
    parsed: Result<serde_json::Value, String>,
) -> (r: PreparedCall)
    ensures
        r.tool_call == *tc,
        r.tool == tool,
        r.scope == scope,
        match parsed {
            Ok(v) => r.args == v && r.rejected is None,
            Err(e) => r.args == json::json_null() && (r.rejected matches Some(s) && s@
                == "invalid arguments: "@ + e@),
        },
{
    match parsed {
        Ok(args) => PreparedCall { tool_call: tc.clone(), tool, scope, args, rejected: None },
        Err(e) => PreparedCall {
            tool_call: tc.clone(),
            tool,
            scope,
            args: json::null(),
            rejected: Some("invalid arguments: ".to_owned().concat(e.as_str())),
        },
    }
}

impl PreparedCall {
    /// Whether a hook may still refuse the call.
    pub fn is_open(&self) -> (r: bool)
        ensures
            r == (self.rejected is None),
    {
        self.rejected.is_none()
    }

    /// Takes the verdict of a hook: the first reason to refuse the call stands.
    pub fn apply_veto(&mut self, verdict: Result<(), String>)
        ensures
            final(self).tool_call == old(self).tool_call,
            final(self).tool == old(self).tool,
            final(self).scope == old(self).scope,
            final(self).args == old(self).args,
            final(self).rejected == (match old(self).rejected {
                Some(reason) => Some(reason),
                None => match verdict {
                    Ok(_) => None,
                    Err(reason) => Some(reason),
                },
            }),
    {
        if self.rejected.is_none() {
            match verdict {
                Ok(_) => {},
                Err(reason) => {
                    self.rejected = Some(reason);
                },
            }
        }
    }

    /// The report that the call begins.
    pub fn start_event(&self) -> (r: AgentEvent)
        ensures
            r == (AgentEvent::ToolExecutionStart {
                tool_call_id: self.tool_call.id,
                tool_name: self.tool_call.name,
                args: self.args,
            }),
    {
        AgentEvent::ToolExecutionStart {
            tool_call_id: self.tool_call.id.clone(),
            tool_name: self.tool_call.name.clone(),
            args: self.args.clone(),
        }
    }

    /// The report of a partial result.
    pub fn update_event(&self, partial: ToolResult) -> (r: AgentEvent)
        ensures
            r == (AgentEvent::ToolExecutionUpdate {
                tool_call_id: self.tool_call.id,
                tool_name: self.tool_call.name,
                args: self.args,
                partial,
            }),
    {
        AgentEvent::ToolExecutionUpdate {
            tool_call_id: self.tool_call.id.clone(),
            tool_name: self.tool_call.name.clone(),
            args: self.args.clone(),
            partial,
        }
    }

    /// The result of a call for which no tool is run: one that is refused, or one of a tool that
    /// does not exist. `None` if the tool is to be run.
    pub fn immediate_result(&self) -> (r: Option<ToolResult>)
        ensures
            match self.rejected {
                Some(reason) => r matches Some(t) && t.is_error && t.is_text(reason@),
                None => match self.tool {
                    Some(_) => r is None,
                    None => r matches Some(t) && t.is_error && t.is_text(
                        "unknown tool: "@ + self.tool_call.name@,
                    ),
                },
            },
    {
        match &self.rejected {
            Some(reason) => Some(ToolResult::error(reason.clone())),
            None => match self.tool {
                Some(_) => None,
                None => Some(
                    ToolResult::error(
                        "unknown tool: ".to_owned().concat(self.tool_call.name.as_str()),
                    ),
                ),
            },
        }
    }

    /// The report that the call ended with `result`.
    pub fn end_event(&self, result: &ToolResult) -> (r: AgentEvent)
        ensures
            r matches AgentEvent::ToolExecutionEnd {
                tool_call_id,
                tool_name,
                result: reported,
                is_error,
            } && tool_call_id == self.tool_call.id && tool_name == self.tool_call.name
                && reported@ == result@ && is_error == result.is_error,
    {
        AgentEvent::ToolExecutionEnd {
            tool_call_id: self.tool_call.id.clone(),
            tool_name: self.tool_call.name.clone(),
            result: result.clone(),
            is_error: result.is_error,
        }
    }
}

/// What a tool gave back, where a failure to run it is a result too.
pub fn outcome(result: Result<ToolResult, ToolError>) -> (r: ToolResult)
    ensures
        match result {
            Ok(t) => r == t,
            Err(e) => r.is_error && r.is_text(e.text()),
        },
{
    match result {
        Ok(t) => t,
        Err(e) => ToolResult::error(e.to_text()),
    }
}

/// Neighbouring calls, from `start` up to `end`, that run together.
#[derive(Debug, Clone, Copy, PartialEq, Eq, Structural)]
pub struct CallGroup {
    pub start: usize,
    pub end: usize,
}

/// Whether `groups` cover the calls before `n` in order, each as large as it can be: in sequence
/// one call each, in parallel all neighbours that only read.
pub open spec fn grouped(
    mode: ToolExecutionMode,
    calls: Seq<PreparedCall>,
    groups: Seq<CallGroup>,
    n: int,
) -> bool {
    &&& if groups.len() == 0 {
        n == 0
    } else {
        groups[0].start == 0 && groups.last().end == n
    }
    &&& forall|g: int|
        0 <= g < groups.len() ==> (#[trigger] groups[g]).start < groups[g].end <= calls.len()
    &&& forall|g: int|
        #![trigger groups[g]]
        0 < g < groups.len() ==> groups[g].start == groups[g - 1].end
    &&& forall|g: int| 0 <= g < groups.len() ==> group_is_right(mode, calls, #[trigger] groups[g])
}

/// Whether a group holds what it should.
pub open spec fn group_is_right(
    mode: ToolExecutionMode,
    calls: Seq<PreparedCall>,
    group: CallGroup,
) -> bool {
    let first = calls[group.start as int].scope;
    if mode == ToolExecutionMode::ReadOnlyParallel && first == ResourceScope::ReadOnly {
        &&& forall|k: int|
            group.start <= k < group.end ==> (#[trigger] calls[k]).scope == ResourceScope::ReadOnly
        &&& group.end == calls.len() || calls[group.end as int].scope != ResourceScope::ReadOnly
    } else {
        group.end == group.start + 1
    }
}

/// Which calls run together.
pub fn plan_groups(mode: ToolExecutionMode, calls: &[PreparedCall]) -> (r: Vec<CallGroup>)
    ensures
        grouped(mode, calls@, r@, calls@.len() as int),
{
    let mut groups: Vec<CallGroup> = Vec::new();
    let mut i: usize = 0;
    while i < calls.len()
        invariant
            i <= calls@.len(),
            grouped(mode, calls@, groups@, i as int),
        decreases calls@.len() - i,
    {
        let ghost before = groups@;
        let start: usize = i;
        let mut end: usize = i + 1;
        if mode == ToolExecutionMode::ReadOnlyParallel && calls[i].scope
            == ResourceScope::ReadOnly {
            while end < calls.len() && calls[end].scope == ResourceScope::ReadOnly
                invariant
                    start < end <= calls@.len(),
                    forall|k: int|
                        start <= k < end ==> (#[trigger] calls@[k]).scope
                            == ResourceScope::ReadOnly,
                decreases calls@.len() - end,
            {
                end += 1;
            }
        }
        groups.push(CallGroup { start, end });
        proof {
            assert(groups@ == before.push(CallGroup { start, end }));
            assert forall|g: int| 0 <= g < groups@.len() implies group_is_right(
                mode,
                calls@,
                #[trigger] groups@[g],
            ) by {
                if g < before.len() {
                    assert(groups@[g] == before[g]);
                }
            }
            assert forall|g: int|
                #![trigger groups@[g]]
                0 < g < groups@.len() implies groups@[g].start == groups@[g - 1].end by {
                if g < before.len() {
                    assert(groups@[g] == before[g]);
                    assert(groups@[g - 1] == before[g - 1]);
                } else {
                    assert(groups@[g - 1] == before[g - 1]);
                }
            }
            assert forall|g: int| 0 <= g < groups@.len() implies (#[trigger] groups@[g]).start
                < groups@[g].end <= calls@.len() by {
                if g < before.len() {
                    assert(groups@[g] == before[g]);
                }
            }
            if before.len() > 0 {
                assert(groups@[0] == before[0]);
            }
        }
        i = end;
    }
    groups
}

/// No two calls run together unless both only read.
pub proof fn law_only_readers_run_together(
    mode: ToolExecutionMode,
    calls: Seq<PreparedCall>,
    groups: Seq<CallGroup>,
    g: int,
    a: int,
    b: int,
)
    requires
        grouped(mode, calls, groups, calls.len() as int),
        0 <= g < groups.len(),
        groups[g].start <= a < b < groups[g].end,
    ensures
        mode == ToolExecutionMode::ReadOnlyParallel,
        calls[a].scope == ResourceScope::ReadOnly,
        calls[b].scope == ResourceScope::ReadOnly,
{
    assert(group_is_right(mode, calls, groups[g]));
}

/// Every call is in exactly one group.
pub proof fn law_every_call_runs_once(
    mode: ToolExecutionMode,
    calls: Seq<PreparedCall>,
    groups: Seq<CallGroup>,
    k: int,
)
    requires
        grouped(mode, calls, groups, calls.len() as int),
        0 <= k < calls.len(),
    ensures
        exists|g: int|
            0 <= g < groups.len() && (#[trigger] groups[g]).start <= k < groups[g].end,
        forall|g: int, h: int|
            0 <= g < groups.len() && 0 <= h < groups.len() && (#[trigger] groups[g]).start <= k
                < groups[g].end && (#[trigger] groups[h]).start <= k < groups[h].end ==> g == h,
{
    lemma_group_of(mode, calls, groups, k, groups.len() - 1);
    assert forall|g: int, h: int|
        0 <= g < groups.len() && 0 <= h < groups.len() && (#[trigger] groups[g]).start <= k
            < groups[g].end && (#[trigger] groups[h]).start <= k < groups[h].end implies g == h by {
        if g < h {
            lemma_groups_ordered(mode, calls, groups, g, h);
        } else if h < g {
            lemma_groups_ordered(mode, calls, groups, h, g);
        }
    }
}

/// In parallel, neighbouring calls of tools that only read do run together.
pub proof fn law_neighbouring_readers_run_together(
    calls: Seq<PreparedCall>,
    groups: Seq<CallGroup>,
    k: int,
)
    requires
        grouped(ToolExecutionMode::ReadOnlyParallel, calls, groups, calls.len() as int),
        0 <= k < calls.len() - 1,
        calls[k].scope == ResourceScope::ReadOnly,
        calls[k + 1].scope == ResourceScope::ReadOnly,
    ensures
        exists|g: int|
            0 <= g < groups.len() && (#[trigger] groups[g]).start <= k && k + 1 < groups[g].end,
{
    let mode = ToolExecutionMode::ReadOnlyParallel;
    law_every_call_runs_once(mode, calls, groups, k);
    let g = choose|g: int|
        0 <= g < groups.len() && (#[trigger] groups[g]).start <= k < groups[g].end;
    assert(group_is_right(mode, calls, groups[g]));
    assert(groups[g].start <= k);
}

/// Calls run in their order: those of a later group come behind those of an earlier one.
pub proof fn law_groups_run_in_order(
    mode: ToolExecutionMode,
    calls: Seq<PreparedCall>,
    groups: Seq<CallGroup>,
    g: int,
    h: int,
    a: int,
    b: int,
)
    requires
        grouped(mode, calls, groups, calls.len() as int),
        0 <= g < h < groups.len(),
        groups[g].start <= a < groups[g].end,
        groups[h].start <= b < groups[h].end,
    ensures
        a < b,
{
    lemma_groups_ordered(mode, calls, groups, g, h);
}

/// A call is run with the arguments that the model wrote, and only where they are JSON; where they
/// are not, it is refused and says why.
pub proof fn law_only_json_arguments_are_run(
    arguments: Seq<char>,
    args: serde_json::Value,
    rejected: Option<String>,
)
    requires
        prepared_args(arguments, args, rejected),
    ensures
        rejected is None <==> json::parsed_json(arguments) is Ok,
        rejected is None ==> json::parsed_json(arguments) == Ok::<serde_json::Value, Seq<char>>(
            args,
        ),
        json::parsed_json(arguments) matches Err(why) ==> (rejected matches Some(s)
            && why.is_suffix_of(s@)),
{
    if let Err(why) = json::parsed_json(arguments) {
        let s = rejected->0@;
        assert(s.subrange(s.len() - why.len(), s.len() as int) =~= why);
    }
}

/// The tool that is found is one of that name, and a tool of that name is found wherever there is
/// one.
pub proof fn law_tools_are_found_by_name(
    tools: Seq<ToolInfo>,
    name: Seq<char>,
    r: Option<usize>,
)
    requires
        is_first_named(tools, name, r),
    ensures
        r is Some <==> exists|j: int| 0 <= j < tools.len() && (#[trigger] tools[j]).name@ == name,
        r matches Some(i) ==> i < tools.len() && tools[i as int].name@ == name,
{
    if let Some(i) = r {
        assert(tools[i as int].name@ == name);
    }
}

proof fn lemma_group_of(
    mode: ToolExecutionMode,
    calls: Seq<PreparedCall>,
    groups: Seq<CallGroup>,
    k: int,
    upto: int,
)
    requires
        grouped(mode, calls, groups, calls.len() as int),
        0 <= upto < groups.len(),
        0 <= k < groups[upto].end,
    ensures
        exists|g: int|
            0 <= g < groups.len() && (#[trigger] groups[g]).start <= k < groups[g].end,
    decreases upto,
{
    if k < groups[upto].start {
        assert(upto > 0);
        assert(groups[upto].start == groups[upto - 1].end);
        lemma_group_of(mode, calls, groups, k, upto - 1);
    }
}

proof fn lemma_groups_ordered(
    mode: ToolExecutionMode,
    calls: Seq<PreparedCall>,
    groups: Seq<CallGroup>,
    g: int,
    h: int,
)
    requires
        grouped(mode, calls, groups, calls.len() as int),
        0 <= g < h < groups.len(),
    ensures
        groups[g].end <= groups[h].start,
    decreases h - g,
{
    assert(groups[h].start == groups[h - 1].end);
    if g < h - 1 {
        lemma_groups_ordered(mode, calls, groups, g, h - 1);
        assert(groups[h - 1].start < groups[h - 1].end);
    }
}

/// Whether `pairs` holds one result for each call.
pub open spec fn one_each(pairs: Seq<(usize, ToolResult)>) -> bool {
    &&& forall|k: int| 0 <= k < pairs.len() ==> (#[trigger] pairs[k]).0 < pairs.len()
    &&& forall|j: int, k: int|
        0 <= j < k < pairs.len() ==> (#[trigger] pairs[j]).0 != (#[trigger] pairs[k]).0
}

proof fn lemma_one_each_covers(pairs: Seq<(usize, ToolResult)>, i: int)
    requires
        one_each(pairs),
        0 <= i < pairs.len(),
    ensures
        exists|k: int| 0 <= k < pairs.len() && (#[trigger] pairs[k]).0 == i,
{
    if !(exists|k: int| 0 <= k < pairs.len() && (#[trigger] pairs[k]).0 == i) {
        let ids = pairs.map_values(|p: (usize, ToolResult)| p.0 as int);
        assert forall|j: int, k: int|
            0 <= j < ids.len() && 0 <= k < ids.len() && j != k implies ids[j] != ids[k] by {
            if j < k {
                assert(pairs[j].0 != pairs[k].0);
            } else {
                assert(pairs[k].0 != pairs[j].0);
            }
        }
        assert(ids.no_duplicates());
        ids.unique_seq_to_set();
        let all = vstd::set_lib::set_int_range(0, pairs.len() as int);
        vstd::set_lib::lemma_int_range(0, pairs.len() as int);
        let rest = all.remove(i);
        assert(ids.to_set().subset_of(rest)) by {
            assert forall|x: int| ids.to_set().contains(x) implies rest.contains(x) by {
                let k = choose|k: int| 0 <= k < ids.len() && ids[k] == x;
                assert(pairs[k].0 == x);
            }
        }
        vstd::set_lib::lemma_len_subset(ids.to_set(), rest);
    }
}

/// Brings results that came in any order into the order of their calls.
pub fn order_results(pairs: Vec<(usize, ToolResult)>) -> (r: Vec<ToolResult>)
    requires
        one_each(pairs@),
    ensures
        r@.len() == pairs@.len(),
        forall|k: int| 0 <= k < pairs@.len() ==> r@[(#[trigger] pairs@[k]).0 as int] == pairs@[k].1,
{
    let n: usize = pairs.len();
    let ghost ps = pairs@;
    let mut slots: Vec<Option<ToolResult>> = Vec::new();
    let mut i: usize = 0;
    while i < n
        invariant
            i <= n,
            slots@.len() == i,
            forall|k: int| 0 <= k < i ==> (#[trigger] slots@[k]) is None,
        decreases n - i,
    {
        slots.push(None);
        i += 1;
    }
    let mut m: Ghost<int> = Ghost(0);
    for pair in it: pairs
        invariant
            ps == it.seq(),
            one_each(ps),
            n == ps.len(),
            slots@.len() == n,
            m@ == it.index(),
            0 <= m@ <= n,
            forall|k: int|
                0 <= k < m@ ==> slots@[(#[trigger] ps[k]).0 as int] == Some(ps[k].1),
    {
        let (at, result) = pair;
        assert(ps[m@] == (at, result));
        let ghost before = slots@;
        slots.set(at, Some(result));
        proof {
            assert forall|k: int| 0 <= k < m@ + 1 implies slots@[(#[trigger] ps[k]).0 as int]
                == Some(ps[k].1) by {
                if k < m@ {
                    assert(ps[k].0 != ps[m@].0);
                }
            }
            m@ = m@ + 1;
        }
    }
    let mut out: Vec<ToolResult> = Vec::new();
    let ghost filled = slots@;
    proof {
        assert forall|j: int| 0 <= j < n implies (#[trigger] filled[j]) is Some by {
            lemma_one_each_covers(ps, j);
            let k = choose|k: int| 0 <= k < ps.len() && (#[trigger] ps[k]).0 == j;
            assert(filled[ps[k].0 as int] == Some(ps[k].1));
        }
    }
    let mut j: Ghost<int> = Ghost(0);
    for slot in it: slots
        invariant
            filled == it.seq(),
            j@ == it.index(),
            0 <= j@ <= filled.len(),
            out@.len() == j@,
            forall|k: int| 0 <= k < filled.len() ==> (#[trigger] filled[k]) is Some,
            forall|k: int| 0 <= k < j@ ==> Some(#[trigger] out@[k]) == filled[k],
    {
        assert(slot == filled[j@]);
        match slot {
            Some(result) => {
                out.push(result);
            },
            None => {},
        }
        proof {
            j@ = j@ + 1;
        }
    }
    proof {
        assert forall|k: int| 0 <= k < ps.len() implies out@[(#[trigger] ps[k]).0 as int]
            == ps[k].1 by {
            assert(Some(out@[ps[k].0 as int]) == filled[ps[k].0 as int]);
        }
    }
    out
}

/// The messages for the results of the calls: one for each call, in the order of the calls.
pub fn result_messages(calls: &[PreparedCall], results: Vec<ToolResult>) -> (r: Vec<
    ToolResultMessage,
>)
    requires
        results@.len() == calls@.len(),
    ensures
        r@.len() == calls@.len(),
        forall|i: int|
            0 <= i < r@.len() ==> is_result_of(#[trigger] r@[i], calls@[i].tool_call, results@[i]),
{
    let ghost rs = results@;
    let mut out: Vec<ToolResultMessage> = Vec::new();
    let mut i: usize = 0;
    for result in it: results
        invariant
            rs == it.seq(),
            rs.len() == calls@.len(),
            i == it.index(),
            0 <= i <= rs.len(),
            out@.len() == i,
            forall|k: int|
                0 <= k < i ==> is_result_of(#[trigger] out@[k], calls@[k].tool_call, rs[k]),
    {
        let tc = &calls[i].tool_call;
        assert(result == rs[i as int]);
        out.push(
            ToolResultMessage {
                tool_call_id: tc.id.clone(),
                tool_name: tc.name.clone(),
                is_error: result.is_error,
                content: result.content,
                details: result.details,
                timestamp: 0,
            },
        );
        i += 1;
    }
    out
}

/// Whether `m` reports `result` for the call `tc`.
pub open spec fn is_result_of(m: ToolResultMessage, tc: ToolCall, result: ToolResult) -> bool {
    &&& m.tool_call_id == tc.id
    &&& m.tool_name == tc.name
    &&& m.is_error == result.is_error
    &&& m.content@ == result.content@
    &&& m.details == result.details
    &&& m.timestamp == 0
}

/// The order in which results come in is irrelevant: results of the same calls are brought into the
/// same order, and none is lost.
pub proof fn law_results_follow_the_calls(
    a: Vec<(usize, ToolResult)>,
    b: Vec<(usize, ToolResult)>,
    from_a: Vec<ToolResult>,
    from_b: Vec<ToolResult>,
)
    requires
        one_each(a@),
        one_each(b@),
        a@.to_set() == b@.to_set(),
        call_ensures(order_results, (a,), from_a),
        call_ensures(order_results, (b,), from_b),
    ensures
        from_a@ == from_b@,
        forall|i: int| 0 <= i < from_a@.len() ==> a@.contains((i as usize, #[trigger] from_a@[i])),
{
    lemma_same_results(a, b, from_a, from_b);
    lemma_same_results(b, a, from_b, from_a);
    assert(from_a@ =~= from_b@);
}

proof fn lemma_same_results(
    a: Vec<(usize, ToolResult)>,
    b: Vec<(usize, ToolResult)>,
    from_a: Vec<ToolResult>,
    from_b: Vec<ToolResult>,
)
    requires
        one_each(a@),
        one_each(b@),
        a@.to_set() == b@.to_set(),
        call_ensures(order_results, (a,), from_a),
        call_ensures(order_results, (b,), from_b),
    ensures
        from_a@.len() <= from_b@.len(),
        forall|i: int|
            0 <= i < from_a@.len() ==> a@.contains((i as usize, #[trigger] from_a@[i])) && from_b@[i]
                == from_a@[i],
{
    assert forall|i: int| 0 <= i < from_a@.len() implies a@.contains(
        (i as usize, #[trigger] from_a@[i]),
    ) && from_b@[i] == from_a@[i] && i < from_b@.len() by {
        lemma_one_each_covers(a@, i);
        let k = choose|k: int| 0 <= k < a@.len() && (#[trigger] a@[k]).0 == i;
        assert(a@[k] == (i as usize, from_a@[i]));
        assert(a@.to_set().contains(a@[k]));
        assert(b@.to_set().contains(a@[k]));
        let j = choose|j: int| 0 <= j < b@.len() && b@[j] == a@[k];
        assert(from_b@[b@[j].0 as int] == b@[j].1);
    }
    if from_a@.len() > 0 {
        let last = from_a@.len() - 1;
        assert(a@.contains((last as usize, from_a@[last])));
    }
}

/// A tool is run unless its call was refused or there is no such tool; in its place comes a failure
/// that says why.
pub proof fn law_refused_calls_are_not_run(call: PreparedCall, r: Option<ToolResult>)
    requires
        call_ensures(PreparedCall::immediate_result, (&call,), r),
    ensures
        r is None <==> call.rejected is None && call.tool is Some,
        r matches Some(t) ==> t.is_error && t.content@.len() == 1 && t.content@[0] is Text,
        r matches Some(t) ==> (call.rejected matches Some(reason) ==> t.content@[0]->Text_text@
            == reason@),
{
}

/// The first reason to refuse a call stands, and a verdict changes nothing else of the call.
pub proof fn law_first_veto_stands()
    ensures
        forall|call: &mut PreparedCall, verdict: Result<(), String>, r: ()| #[trigger]
            call_ensures(PreparedCall::apply_veto, (call, verdict), r) ==> {
                &&& call.rejected is Some ==> final(call).rejected == call.rejected
                &&& call.rejected is None ==> (final(call).rejected is Some <==> verdict is Err)
                &&& call.rejected is None && verdict is Err ==> final(call).rejected == Some(
                    verdict->Err_0,
                )
                &&& final(call).tool_call == call.tool_call && final(call).tool == call.tool
                    && final(call).args == call.args
            },
{
}

/// A tool that could not be run gives a failure that says why; what a tool gave back is passed on as
/// it is.
pub proof fn law_failure_to_run_is_a_result(
    result: Result<ToolResult, ToolError>,
    r: ToolResult,
)
    requires
        call_ensures(outcome, (result,), r),
    ensures
        result matches Ok(t) ==> r == t,
        result matches Err(e) ==> r.is_error && r.content@.len() == 1 && r.content@[0] is Text
            && (r.content@[0])->Text_text@ == e.text(),
{
}

/// What is reported of a call tells which call it is, and with what it ended.
pub proof fn law_reports_name_their_call(
    call: PreparedCall,
    start: AgentEvent,
    result: ToolResult,
    end: AgentEvent,
)
    requires
        call_ensures(PreparedCall::start_event, (&call,), start),
        call_ensures(PreparedCall::end_event, (&call, &result), end),
    ensures
        start matches AgentEvent::ToolExecutionStart { tool_call_id, tool_name, args }
            && tool_call_id == call.tool_call.id && tool_name == call.tool_call.name && args
            == call.args,
        end matches AgentEvent::ToolExecutionEnd { tool_call_id, tool_name, result: told, is_error }
            && tool_call_id == call.tool_call.id && tool_name == call.tool_call.name
            && told.content@ == result.content@ && is_error == result.is_error,
{
}

/// Of tools with one name the first is called.
pub proof fn law_first_tool_of_a_name_is_called(
    tools: Seq<ToolInfo>,
    name: Seq<char>,
    r: Option<usize>,
    i: int,
)
    requires
        is_first_named(tools, name, r),
        0 <= i < tools.len(),
        tools[i].name@ == name,
    ensures
        r matches Some(k) && k <= i && tools[k as int].name@ == name,
{
}

} // verus!
