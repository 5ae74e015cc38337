//! Commands that arrive while an agent is running.
use std::collections::VecDeque;
use vstd::prelude::*;

use crate::agent::AgentCommand;
use crate::message::{Message, StopReason};

verus! {

/// What was found among the commands that arrived.
#[derive(Debug)]
pub struct Drain {
    pub aborted: bool,
    pub shutdown: bool,
    pub steer: Vec<Message>,
    pub followup: Vec<Message>,
}

/// The messages of the steering commands, in order.
pub open spec fn steers(cmds: Seq<AgentCommand>) -> Seq<Message>
    decreases cmds.len(),
{
    if cmds.len() == 0 {
        Seq::empty()
    } else {
        match cmds.last() {
            AgentCommand::Steer(m) => steers(cmds.drop_last()).push(m),
            _ => steers(cmds.drop_last()),
        }
    }
}

/// The messages of the follow-up commands, in order.
pub open spec fn followups(cmds: Seq<AgentCommand>) -> Seq<Message>
    decreases cmds.len(),
{
    if cmds.len() == 0 {
        Seq::empty()
    } else {
        match cmds.last() {
            AgentCommand::FollowUp(m) => followups(cmds.drop_last()).push(m),
            _ => followups(cmds.drop_last()),
        }
    }
}

/// Whether a command stops the run at once.
pub open spec fn stops(cmd: AgentCommand) -> bool {
    cmd is Abort || cmd is Shutdown
}

/// Whether a command stops the run at once.
pub fn stops_run(cmd: &AgentCommand) -> (r: bool)
    ensures
        r == stops(*cmd),
{
    match cmd {
        AgentCommand::Abort => true,
        AgentCommand::Shutdown => true,
        _ => false,
    }
}

/// Whether a command carries a message into a run.
pub open spec fn injects(cmd: AgentCommand) -> bool {
    cmd is Steer || cmd is FollowUp
}

/// The commands that wait until the run has ended, in order.
pub open spec fn waiting(cmds: Seq<AgentCommand>) -> Seq<AgentCommand>
    decreases cmds.len(),
{
    if cmds.len() == 0 {
        Seq::empty()
    } else if stops(cmds.last()) || injects(cmds.last()) {
        waiting(cmds.drop_last())
    } else {
        waiting(cmds.drop_last()).push(cmds.last())
    }
}

/// The commands that carry no message into a run, in order.
pub open spec fn plain(cmds: Seq<AgentCommand>) -> Seq<AgentCommand>
    decreases cmds.len(),
{
    if cmds.len() == 0 {
        Seq::empty()
    } else if injects(cmds.last()) {
        plain(cmds.drop_last())
    } else {
        plain(cmds.drop_last()).push(cmds.last())
    }
}

/// Whether the run is to be aborted.
pub open spec fn has_abort(cmds: Seq<AgentCommand>) -> bool {
    exists|i: int| 0 <= i < cmds.len() && (#[trigger] cmds[i]) is Abort
}

/// Whether the agent is to shut down.
pub open spec fn has_shutdown(cmds: Seq<AgentCommand>) -> bool {
    exists|i: int| 0 <= i < cmds.len() && (#[trigger] cmds[i]) is Shutdown
}

/// Messages as steering commands.
pub open spec fn as_steers(msgs: Seq<Message>) -> Seq<AgentCommand> {
    msgs.map_values(|m: Message| AgentCommand::Steer(m))
}

/// Messages as follow-up commands.
pub open spec fn as_followups(msgs: Seq<Message>) -> Seq<AgentCommand> {
    msgs.map_values(|m: Message| AgentCommand::FollowUp(m))
}

/// Sorts the commands that arrived: messages are collected, stops are noted, and everything else
/// joins the queue behind what is there.
pub fn drain_commands(received: Vec<AgentCommand>, queue: &mut VecDeque<AgentCommand>) -> (r:
    Drain)
    ensures
        r.aborted == has_abort(received@),
        r.shutdown == has_shutdown(received@),
        r.steer@ == steers(received@),
        r.followup@ == followups(received@),
        final(queue)@ == old(queue)@ + waiting(received@),
{
    let mut drain = Drain {
        aborted: false,
        shutdown: false,
        steer: Vec::new(),
        followup: Vec::new(),
    };
    let ghost cmds = received@;
    let ghost start = queue@;
    let mut n: Ghost<int> = Ghost(0);
    for cmd in it: received
        invariant
            cmds == it.seq(),
            n@ == it.index(),
            0 <= n@ <= cmds.len(),
            drain.aborted == has_abort(cmds.take(n@)),
            drain.shutdown == has_shutdown(cmds.take(n@)),
            drain.steer@ == steers(cmds.take(n@)),
            drain.followup@ == followups(cmds.take(n@)),
            queue@ == start + waiting(cmds.take(n@)),
    {
        proof {
            let before = cmds.take(n@);
            let after = cmds.take(n@ + 1);
            assert(after.drop_last() =~= before);
            assert(after.last() == cmd);
            assert(after[n@] == cmd);
            assert forall|i: int| 0 <= i < before.len() implies after[i] == before[i] by {}
            if has_abort(before) {
                let i = choose|i: int| 0 <= i < before.len() && (#[trigger] before[i]) is Abort;
                assert(after[i] is Abort);
            }
            if has_shutdown(before) {
                let i = choose|i: int| 0 <= i < before.len() && (#[trigger] before[i]) is Shutdown;
                assert(after[i] is Shutdown);
            }
            if has_abort(after) && !(cmd is Abort) {
                let i = choose|i: int| 0 <= i < after.len() && (#[trigger] after[i]) is Abort;
                assert(before[i] is Abort);
            }
            if has_shutdown(after) && !(cmd is Shutdown) {
                let i = choose|i: int| 0 <= i < after.len() && (#[trigger] after[i]) is Shutdown;
                assert(before[i] is Shutdown);
            }
            n@ = n@ + 1;
        }
        let ghost q0 = queue@;
        match cmd {
            AgentCommand::Abort => {
                drain.aborted = true;
            },
            AgentCommand::Shutdown => {
                drain.shutdown = true;
            },
            AgentCommand::Steer(msg) => drain.steer.push(msg),
            AgentCommand::FollowUp(msg) => drain.followup.push(msg),
            other => {
                queue.push_back(other);
                assert(queue@ =~= q0.push(other));
            },
        }
        assert(queue@ =~= start + waiting(cmds.take(n@)));
    }
    assert(cmds.take(cmds.len() as int) =~= cmds);
    drain
}

/// Sorts the commands that arrived and, after them, takes the messages out of the queue that
/// were put back there before.
pub fn collect_pending(received: Vec<AgentCommand>, queue: &mut VecDeque<AgentCommand>) -> (r:
    Drain)
    ensures
        r.aborted == has_abort(received@),
        r.shutdown == has_shutdown(received@),
        ({
            let all = old(queue)@ + waiting(received@);
            &&& r.steer@ == steers(received@) + steers(all)
            &&& r.followup@ == followups(received@) + followups(all)
            &&& final(queue)@ == plain(all)
        }),
{
    let mut d = drain_commands(received, queue);
    let ghost all = queue@;
    let ghost s0 = d.steer@;
    let ghost f0 = d.followup@;
    let mut remaining: VecDeque<AgentCommand> = VecDeque::new();
    let mut n: Ghost<int> = Ghost(0);
    loop
        invariant
            0 <= n@ <= all.len(),
            queue@ == all.skip(n@),
            d.steer@ == s0 + steers(all.take(n@)),
            d.followup@ == f0 + followups(all.take(n@)),
            d.aborted == has_abort(received@),
            d.shutdown == has_shutdown(received@),
            remaining@ == plain(all.take(n@)),
        ensures
            n@ == all.len(),
            queue@.len() == 0,
        decreases all.len() - n@,
    {
        let ghost st = d.steer@;
        let ghost fo = d.followup@;
        let ghost re = remaining@;
        match queue.pop_front() {
            None => {
                break;
            },
            Some(cmd) => {
                proof {
                    let after = all.take(n@ + 1);
                    assert(after.drop_last() =~= all.take(n@));
                    assert(after.last() == cmd);
                    assert(all.skip(n@ + 1) =~= all.skip(n@).skip(1));
                    n@ = n@ + 1;
                }
                match cmd {
                    AgentCommand::Steer(msg) => {
                        d.steer.push(msg);
                        assert(d.steer@ =~= st.push(msg));
                    },
                    AgentCommand::FollowUp(msg) => {
                        d.followup.push(msg);
                        assert(d.followup@ =~= fo.push(msg));
                    },
                    other => {
                        remaining.push_back(other);
                        assert(remaining@ =~= re.push(other));
                    },
                }
                assert(d.steer@ =~= s0 + steers(all.take(n@)));
                assert(d.followup@ =~= f0 + followups(all.take(n@)));
            },
        }
    }
    assert(all.take(all.len() as int) =~= all);
    queue.append(&mut remaining);
    assert(queue@ =~= plain(all));
    d
}

/// Puts collected messages back at the end of the queue: the steering ones, and then the others.
pub fn requeue(steer: Vec<Message>, followup: Vec<Message>, queue: &mut VecDeque<AgentCommand>)
    ensures
        final(queue)@ == old(queue)@ + as_steers(steer@) + as_followups(followup@),
{
    requeue_steers(steer, queue);
    requeue_followups(followup, queue);
}

fn requeue_steers(msgs: Vec<Message>, queue: &mut VecDeque<AgentCommand>)
    ensures
        final(queue)@ == old(queue)@ + as_steers(msgs@),
{
    let ghost all = msgs@;
    let ghost start = queue@;
    let mut n: Ghost<int> = Ghost(0);
    for msg in it: msgs
        invariant
            all == it.seq(),
            n@ == it.index(),
            0 <= n@ <= all.len(),
            queue@ == start + as_steers(all.take(n@)),
    {
        let ghost q0 = queue@;
        queue.push_back(AgentCommand::Steer(msg));
        proof {
            assert(queue@ =~= q0.push(AgentCommand::Steer(all[n@])));
            assert(as_steers(all.take(n@ + 1)) =~= as_steers(all.take(n@)).push(
                AgentCommand::Steer(all[n@]),
            ));
            n@ = n@ + 1;
            assert(queue@ =~= start + as_steers(all.take(n@)));
        }
    }
    assert(all.take(all.len() as int) =~= all);
}

/// Puts collected follow-up messages back at the end of the queue.
pub fn requeue_followups(msgs: Vec<Message>, queue: &mut VecDeque<AgentCommand>)
    ensures
        final(queue)@ == old(queue)@ + as_followups(msgs@),
{
    let ghost all = msgs@;
    let ghost start = queue@;
    let mut n: Ghost<int> = Ghost(0);
    for msg in it: msgs
        invariant
            all == it.seq(),
            n@ == it.index(),
            0 <= n@ <= all.len(),
            queue@ == start + as_followups(all.take(n@)),
    {
        let ghost q0 = queue@;
        queue.push_back(AgentCommand::FollowUp(msg));
        proof {
            assert(queue@ =~= q0.push(AgentCommand::FollowUp(all[n@])));
            assert(as_followups(all.take(n@ + 1)) =~= as_followups(all.take(n@)).push(
                AgentCommand::FollowUp(all[n@]),
            ));
            n@ = n@ + 1;
            assert(queue@ =~= start + as_followups(all.take(n@)));
        }
    }
    assert(all.take(all.len() as int) =~= all);
}

/// The stop reason of a turn that did not end well.
pub fn stop_reason_for_error(aborted: bool) -> (r: StopReason)
    ensures
        r == (if aborted {
            StopReason::Aborted
        } else {
            StopReason::Error
        }),
{
    if aborted {
        StopReason::Aborted
    } else {
        StopReason::Error
    }
}

/// The number of commands that stop the run.
pub open spec fn stop_count(cmds: Seq<AgentCommand>) -> nat
    decreases cmds.len(),
{
    if cmds.len() == 0 {
        0
    } else {
        stop_count(cmds.drop_last()) + (if stops(cmds.last()) {
            1nat
        } else {
            0nat
        })
    }
}

/// Sorting loses no command: each is a stop, a collected message, or waits in the queue.
pub proof fn law_drain_loses_nothing(cmds: Seq<AgentCommand>)
    ensures
        cmds.len() == stop_count(cmds) + steers(cmds).len() + followups(cmds).len() + waiting(
            cmds,
        ).len(),
    decreases cmds.len(),
{
    if cmds.len() > 0 {
        law_drain_loses_nothing(cmds.drop_last());
    }
}

/// Sorting puts each command where it belongs, in the order in which they arrived: the messages of
/// the steering and of the follow-up commands are collected, and what is left for later is
/// everything that is neither a message nor a stop.
pub proof fn law_commands_are_sorted_by_kind(cmds: Seq<AgentCommand>)
    ensures
        as_steers(steers(cmds)) == cmds.filter(|c: AgentCommand| c is Steer),
        as_followups(followups(cmds)) == cmds.filter(|c: AgentCommand| c is FollowUp),
        waiting(cmds) == cmds.filter(
            |c: AgentCommand| c is Prompt || c is Continue || c is Reset,
        ),
        plain(cmds) == cmds.filter(|c: AgentCommand| !(c is Steer) && !(c is FollowUp)),
        has_abort(cmds) <==> cmds.filter(|c: AgentCommand| c is Abort).len() > 0,
        has_shutdown(cmds) <==> cmds.filter(|c: AgentCommand| c is Shutdown).len() > 0,
    decreases cmds.len(),
{
    reveal(Seq::filter);
    if cmds.len() > 0 {
        let init = cmds.drop_last();
        let last = cmds.last();
        law_commands_are_sorted_by_kind(init);
        if let AgentCommand::Steer(m) = last {
            assert(as_steers(steers(cmds)) =~= as_steers(steers(init)).push(last));
        }
        if let AgentCommand::FollowUp(m) = last {
            assert(as_followups(followups(cmds)) =~= as_followups(followups(init)).push(last));
        }
        assert(has_abort(cmds) <==> has_abort(init) || last is Abort) by {
            if has_abort(init) {
                let i = choose|i: int| 0 <= i < init.len() && (#[trigger] init[i]) is Abort;
                assert(cmds[i] is Abort);
            }
            if has_abort(cmds) {
                let i = choose|i: int| 0 <= i < cmds.len() && (#[trigger] cmds[i]) is Abort;
                assert(i < init.len() ==> init[i] is Abort);
            }
            assert(cmds[cmds.len() - 1] == last);
        }
        assert(has_shutdown(cmds) <==> has_shutdown(init) || last is Shutdown) by {
            if has_shutdown(init) {
                let i = choose|i: int| 0 <= i < init.len() && (#[trigger] init[i]) is Shutdown;
                assert(cmds[i] is Shutdown);
            }
            if has_shutdown(cmds) {
                let i = choose|i: int| 0 <= i < cmds.len() && (#[trigger] cmds[i]) is Shutdown;
                assert(i < init.len() ==> init[i] is Shutdown);
            }
            assert(cmds[cmds.len() - 1] == last);
        }
    } else {
        assert(as_steers(steers(cmds)) =~= cmds.filter(|c: AgentCommand| c is Steer));
        assert(as_followups(followups(cmds)) =~= cmds.filter(|c: AgentCommand| c is FollowUp));
        assert(waiting(cmds) =~= cmds);
        assert(plain(cmds) =~= cmds);
    }
}

/// No command is lost by sorting, and none is made up: the messages and what waits are all commands
/// but the stops, and the messages and the plain commands are all commands.
pub proof fn law_sorting_keeps_every_command(cmds: Seq<AgentCommand>)
    ensures
        waiting(cmds).to_multiset().add(as_steers(steers(cmds)).to_multiset()).add(
            as_followups(followups(cmds)).to_multiset(),
        ) == cmds.filter(|c: AgentCommand| !(c is Abort) && !(c is Shutdown)).to_multiset(),
        plain(cmds).to_multiset().add(as_steers(steers(cmds)).to_multiset()).add(
            as_followups(followups(cmds)).to_multiset(),
        ) == cmds.to_multiset(),
    decreases cmds.len(),
{
    broadcast use vstd::seq_lib::group_to_multiset_ensures;

    reveal(Seq::filter);
    let p = |c: AgentCommand| !(c is Abort) && !(c is Shutdown);
    let w = waiting(cmds).to_multiset().add(as_steers(steers(cmds)).to_multiset()).add(
        as_followups(followups(cmds)).to_multiset(),
    );
    let q = plain(cmds).to_multiset().add(as_steers(steers(cmds)).to_multiset()).add(
        as_followups(followups(cmds)).to_multiset(),
    );
    if cmds.len() > 0 {
        let init = cmds.drop_last();
        let last = cmds.last();
        law_sorting_keeps_every_command(init);
        assert(cmds =~= init.push(last));
        if let AgentCommand::Steer(m) = last {
            assert(as_steers(steers(cmds)) =~= as_steers(steers(init)).push(last));
        }
        if let AgentCommand::FollowUp(m) = last {
            assert(as_followups(followups(cmds)) =~= as_followups(followups(init)).push(last));
        }
        assert(w =~= cmds.filter(p).to_multiset());
        assert(q =~= cmds.to_multiset());
    } else {
        assert(as_steers(steers(cmds)) =~= cmds);
        assert(as_followups(followups(cmds)) =~= cmds);
        assert(cmds.to_multiset().len() == 0);
        assert(w =~= cmds.filter(p).to_multiset());
        assert(q =~= cmds.to_multiset());
    }
}

proof fn lemma_followups_of_steers(msgs: Seq<Message>)
    ensures
        steers(as_steers(msgs)) == msgs,
        followups(as_steers(msgs)) == Seq::<Message>::empty(),
        plain(as_steers(msgs)) == Seq::<AgentCommand>::empty(),
    decreases msgs.len(),
{
    if msgs.len() > 0 {
        let init = msgs.drop_last();
        assert(as_steers(msgs).drop_last() =~= as_steers(init));
        assert(as_steers(msgs).last() == AgentCommand::Steer(msgs.last()));
        lemma_followups_of_steers(init);
        assert(init.push(msgs.last()) =~= msgs);
    } else {
        assert(steers(as_steers(msgs)) =~= msgs);
    }
}

proof fn lemma_steers_of_followups(msgs: Seq<Message>)
    ensures
        steers(as_followups(msgs)) == Seq::<Message>::empty(),
        followups(as_followups(msgs)) == msgs,
        plain(as_followups(msgs)) == Seq::<AgentCommand>::empty(),
    decreases msgs.len(),
{
    if msgs.len() > 0 {
        let init = msgs.drop_last();
        assert(as_followups(msgs).drop_last() =~= as_followups(init));
        assert(as_followups(msgs).last() == AgentCommand::FollowUp(msgs.last()));
        lemma_steers_of_followups(init);
        assert(init.push(msgs.last()) =~= msgs);
    } else {
        assert(followups(as_followups(msgs)) =~= msgs);
    }
}

/// Splitting a queue treats each part on its own.
pub proof fn lemma_parts_of_concat(a: Seq<AgentCommand>, b: Seq<AgentCommand>)
    ensures
        steers(a + b) == steers(a) + steers(b),
        followups(a + b) == followups(a) + followups(b),
        plain(a + b) == plain(a) + plain(b),
    decreases b.len(),
{
    if b.len() == 0 {
        assert(a + b =~= a);
        assert(steers(a) + steers(b) =~= steers(a));
        assert(followups(a) + followups(b) =~= followups(a));
        assert(plain(a) + plain(b) =~= plain(a));
    } else {
        assert((a + b).drop_last() =~= a + b.drop_last());
        assert((a + b).last() == b.last());
        lemma_parts_of_concat(a, b.drop_last());
        assert(steers(a + b) =~= steers(a) + steers(b));
        assert(followups(a + b) =~= followups(a) + followups(b));
        assert(plain(a + b) =~= plain(a) + plain(b));
    }
}

/// Messages that are put back are found again: collecting from a queue without messages to which
/// they were added gives just them, in their order, and leaves the queue as it was before.
pub proof fn law_requeued_messages_are_found_again(
    queue: Seq<AgentCommand>,
    steer: Seq<Message>,
    followup: Seq<Message>,
)
    requires
        plain(queue) == queue,
    ensures
        ({
            let q = queue + as_steers(steer) + as_followups(followup);
            &&& steers(q) == steer
            &&& followups(q) == followup
            &&& plain(q) == queue
        }),
{
    lemma_plain_has_no_messages(queue);
    lemma_parts_of_concat(queue, as_steers(steer));
    lemma_parts_of_concat(queue + as_steers(steer), as_followups(followup));
    lemma_followups_of_steers(steer);
    lemma_steers_of_followups(followup);
    let q = queue + as_steers(steer) + as_followups(followup);
    assert(steers(q) =~= steer);
    assert(followups(q) =~= followup);
    assert(plain(q) =~= queue);
}

/// Taking the messages out of a queue leaves the other commands.
pub proof fn lemma_plain_len(cmds: Seq<AgentCommand>)
    ensures
        plain(cmds).len() <= cmds.len(),
        plain(cmds).len() == cmds.len() - steers(cmds).len() - followups(cmds).len(),
    decreases cmds.len(),
{
    if cmds.len() > 0 {
        lemma_plain_len(cmds.drop_last());
    }
}

proof fn lemma_plain_has_no_messages(queue: Seq<AgentCommand>)
    requires
        plain(queue) == queue,
    ensures
        steers(queue) == Seq::<Message>::empty(),
        followups(queue) == Seq::<Message>::empty(),
{
    lemma_plain_len(queue);
    assert(steers(queue) =~= Seq::<Message>::empty());
    assert(followups(queue) =~= Seq::<Message>::empty());
}

/// Sorting the commands that arrived loses none: the messages that were collected and what joined the
/// queue are those commands, but for the stops, and each stop is noted.
pub proof fn law_drained_commands_are_all_there()
    ensures
        forall|received: Vec<AgentCommand>, queue: &mut VecDeque<AgentCommand>, d: Drain| #[trigger]
            call_ensures(drain_commands, (received, queue), d) ==> {
                &&& d.aborted <==> exists|i: int|
                    0 <= i < received@.len() && (#[trigger] received@[i]) is Abort
                &&& d.shutdown <==> exists|i: int|
                    0 <= i < received@.len() && (#[trigger] received@[i]) is Shutdown
                &&& queue@.is_prefix_of(final(queue)@)
                &&& d.steer@.map_values(|m: Message| AgentCommand::Steer(m)) == received@.filter(
                    |c: AgentCommand| c is Steer,
                )
                &&& d.followup@.map_values(|m: Message| AgentCommand::FollowUp(m))
                    == received@.filter(|c: AgentCommand| c is FollowUp)
                &&& final(queue)@.skip(queue@.len() as int) == received@.filter(
                    |c: AgentCommand| c is Prompt || c is Continue || c is Reset,
                )
            },
{
    assert forall|received: Vec<AgentCommand>, queue: &mut VecDeque<AgentCommand>, d: Drain| #[trigger]
        call_ensures(drain_commands, (received, queue), d) implies {
        &&& queue@.is_prefix_of(final(queue)@)
        &&& d.steer@.map_values(|m: Message| AgentCommand::Steer(m)) == received@.filter(
            |c: AgentCommand| c is Steer,
        )
        &&& d.followup@.map_values(|m: Message| AgentCommand::FollowUp(m)) == received@.filter(
            |c: AgentCommand| c is FollowUp,
        )
        &&& final(queue)@.skip(queue@.len() as int) == received@.filter(
            |c: AgentCommand| c is Prompt || c is Continue || c is Reset,
        )
    } by {
        law_commands_are_sorted_by_kind(received@);
        let n = queue@.len() as int;
        assert(final(queue)@.subrange(0, n) =~= queue@);
        assert(final(queue)@.skip(n) =~= waiting(received@));
    }
}

} // verus!
