//! The side of the client: numbers for its requests, and who waits for which answer.
use std::collections::BTreeMap;
use vstd::prelude::*;
use vstd::string::*;

use crate::agent::{AgentConfig, AgentSnapshot};
use crate::event::AgentEvent;
use crate::message::ThinkingLevel;
use crate::remote::protocol::{RemoteError, RemoteErrorView, ServerMessage};

verus! {

/// How many seconds a request waits for its answer.
pub const COMMAND_TIMEOUT_SECS: u64 = 30;

/// The state of a client: the number of its next request, whether the connection is closed, and
/// who waits for the answers to its commands and to its requests for snapshots.
#[derive(Debug)]
pub struct ClientState<C, G> {
    pub next_id: u64,
    pub closed: bool,
    pub pending: BTreeMap<u64, C>,
    pub pending_snapshots: BTreeMap<u64, G>,
}

/// What to do with a message of the agent.
#[allow(inconsistent_fields)]
#[derive(Debug)]
pub enum ClientEffect<C, G> {
    /// Nobody waits for it.
    Nothing,
    /// Tell the one who waits for it how the command went.
    Settle { waiter: C, result: Result<(), String> },
    /// Keep the snapshot, and give it to the one who waits for it, if anybody does.
    Snapshot { snapshot: AgentSnapshot, waiter: Option<G> },
    /// Tell the subscribers.
    Publish { event: AgentEvent },
}

/// How waiting for an answer ended.
#[derive(Debug)]
pub enum Waited<T> {
    Answered(T),
    /// The one who would have answered is gone.
    Dropped,
    TimedOut,
}

impl<C, G> ClientState<C, G> {
    /// Once the connection is closed nobody waits.
    pub open spec fn wf(self) -> bool {
        self.closed ==> self.pending@.dom().is_empty() && self.pending_snapshots@.dom().is_empty()
    }

    /// A client whose connection is open.
    pub fn new() -> (r: Self)
        ensures
            r.wf(),
            r.next_id == 1,
            !r.closed,
            r.pending@ == Map::<u64, C>::empty(),
            r.pending_snapshots@ == Map::<u64, G>::empty(),
    {
        broadcast use vstd::std_specs::btree::group_btree_axioms;

        ClientState {
            next_id: 1,
            closed: false,
            pending: BTreeMap::new(),
            pending_snapshots: BTreeMap::new(),
        }
    }

    /// The number of the next request.
    pub fn claim_id(&mut self) -> (r: u64)
        ensures
            r == old(self).next_id,
            final(self).next_id == (old(self).next_id + 1) % 0x1_0000_0000_0000_0000,
            final(self).closed == old(self).closed,
            final(self).pending == old(self).pending,
            final(self).pending_snapshots == old(self).pending_snapshots,
    {
        let id = self.next_id;
        self.next_id = id.wrapping_add(1);
        id
    }

    /// Fails where the connection is closed.
    pub fn check_open(&self) -> (r: Result<(), RemoteError>)
        ensures
            !self.closed ==> r is Ok,
            self.closed ==> (r matches Err(e) && e@ == RemoteErrorView::Protocol(
                "connection closed"@,
            )),
    {
        if self.closed {
            Err(RemoteError::Protocol("connection closed".to_owned()))
        } else {
            Ok(())
        }
    }

    /// Before a command is sent: somebody waits for its answer.
    pub fn expect_answer(&mut self, id: u64, waiter: C) -> (r: Result<(), RemoteError>)
        requires
            old(self).wf(),
        ensures
            final(self).wf(),
            if old(self).closed {
                &&& r matches Err(e) && e@ == RemoteErrorView::Protocol("connection closed"@)
                &&& *final(self) == *old(self)
            } else {
                &&& r is Ok
                &&& final(self).pending@ == old(self).pending@.insert(id, waiter)
                &&& final(self).pending_snapshots == old(self).pending_snapshots
                &&& !final(self).closed
                &&& final(self).next_id == old(self).next_id
            },
    {
        broadcast use vstd::std_specs::btree::group_btree_axioms;

        if self.closed {
            return Err(RemoteError::Protocol("connection closed".to_owned()));
        }
        self.pending.insert(id, waiter);
        Ok(())
    }

    /// After a command was sent, or was not: whether to wait for its answer.
    pub fn command_sent(&mut self, id: u64, taken: bool) -> (r: Result<(), RemoteError>)
        requires
            old(self).wf(),
        ensures
            final(self).wf(),
            final(self).closed == old(self).closed,
            final(self).next_id == old(self).next_id,
            final(self).pending_snapshots == old(self).pending_snapshots,
            if !taken {
                &&& r matches Err(e) && e@ == RemoteErrorView::Protocol("write channel closed"@)
                &&& final(self).pending@ == old(self).pending@.remove(id)
            } else if old(self).closed {
                &&& r matches Err(e) && e@ == RemoteErrorView::Protocol("connection closed"@)
                &&& final(self).pending@ == old(self).pending@.remove(id)
            } else {
                &&& r is Ok
                &&& final(self).pending == old(self).pending
            },
    {
        broadcast use vstd::std_specs::btree::group_btree_axioms;

        if !taken {
            self.pending.remove(&id);
            return Err(RemoteError::Protocol("write channel closed".to_owned()));
        }
        if self.closed {
            self.pending.remove(&id);
            return Err(RemoteError::Protocol("connection closed".to_owned()));
        }
        Ok(())
    }

    /// How a command went.
    pub fn command_waited(&mut self, id: u64, waited: Waited<Result<(), String>>) -> (r: Result<
        (),
        RemoteError,
    >)
        requires
            old(self).wf(),
        ensures
            final(self).wf(),
            final(self).closed == old(self).closed,
            final(self).next_id == old(self).next_id,
            final(self).pending_snapshots == old(self).pending_snapshots,
            match waited {
                Waited::Answered(Ok(_)) => r is Ok && final(self).pending == old(self).pending,
                Waited::Answered(Err(s)) => r == Err::<(), RemoteError>(RemoteError::Command(s))
                    && final(self).pending == old(self).pending,
                Waited::Dropped => {
                    &&& r matches Err(e) && e@ == RemoteErrorView::Protocol(
                        "response channel closed"@,
                    )
                    &&& final(self).pending == old(self).pending
                },
                Waited::TimedOut => r == Err::<(), RemoteError>(RemoteError::Timeout) && final(self).pending@ == old(self).pending@.remove(id),
            },
    {
        broadcast use vstd::std_specs::btree::group_btree_axioms;

        match waited {
            Waited::Answered(Ok(_)) => Ok(()),
            Waited::Answered(Err(s)) => Err(RemoteError::Command(s)),
            Waited::Dropped => Err(RemoteError::Protocol("response channel closed".to_owned())),
            Waited::TimedOut => {
                self.pending.remove(&id);
                Err(RemoteError::Timeout)
            },
        }
    }

    /// Before a snapshot is asked for: somebody waits for it, under the next number.
    pub fn expect_snapshot(&mut self, waiter: G) -> (r: Result<u64, RemoteError>)
        requires
            old(self).wf(),
        ensures
            final(self).wf(),
            if old(self).closed {
                &&& r matches Err(e) && e@ == RemoteErrorView::Protocol("connection closed"@)
                &&& *final(self) == *old(self)
            } else {
                &&& r == Ok::<u64, RemoteError>(old(self).next_id)
                &&& final(self).pending_snapshots@ == old(self).pending_snapshots@.insert(
                    old(self).next_id,
                    waiter,
                )
                &&& final(self).pending == old(self).pending
                &&& !final(self).closed
                &&& final(self).next_id == (old(self).next_id + 1) % 0x1_0000_0000_0000_0000
            },
    {
        broadcast use vstd::std_specs::btree::group_btree_axioms;

        if self.closed {
            return Err(RemoteError::Protocol("connection closed".to_owned()));
        }
        let id = self.claim_id();
        self.pending_snapshots.insert(id, waiter);
        Ok(id)
    }

    /// After a snapshot was asked for, or was not: whether to wait for it.
    pub fn snapshot_sent(&mut self, id: u64, taken: bool) -> (r: Result<(), RemoteError>)
        requires
            old(self).wf(),
        ensures
            final(self).wf(),
            final(self).closed == old(self).closed,
            final(self).next_id == old(self).next_id,
            final(self).pending == old(self).pending,
            if !taken {
                &&& r matches Err(e) && e@ == RemoteErrorView::Protocol("write channel closed"@)
                &&& final(self).pending_snapshots@ == old(self).pending_snapshots@.remove(id)
            } else if old(self).closed {
                &&& r matches Err(e) && e@ == RemoteErrorView::Protocol("connection closed"@)
                &&& final(self).pending_snapshots@ == old(self).pending_snapshots@.remove(id)
            } else {
                &&& r is Ok
                &&& final(self).pending_snapshots == old(self).pending_snapshots
            },
    {
        broadcast use vstd::std_specs::btree::group_btree_axioms;

        if !taken {
            self.pending_snapshots.remove(&id);
            return Err(RemoteError::Protocol("write channel closed".to_owned()));
        }
        if self.closed {
            self.pending_snapshots.remove(&id);
            return Err(RemoteError::Protocol("connection closed".to_owned()));
        }
        Ok(())
    }

    /// The snapshot that was asked for.
    pub fn snapshot_waited(&mut self, id: u64, waited: Waited<AgentSnapshot>) -> (r: Result<
        AgentSnapshot,
        RemoteError,
    >)
        requires
            old(self).wf(),
        ensures
            final(self).wf(),
            final(self).closed == old(self).closed,
            final(self).next_id == old(self).next_id,
            final(self).pending == old(self).pending,
            match waited {
                Waited::Answered(s) => r == Ok::<AgentSnapshot, RemoteError>(s) && final(self).pending_snapshots == old(self).pending_snapshots,
                Waited::Dropped => {
                    &&& r matches Err(e) && e@ == RemoteErrorView::Protocol(
                        "response channel closed"@,
                    )
                    &&& final(self).pending_snapshots == old(self).pending_snapshots
                },
                Waited::TimedOut => {
                    &&& r == Err::<AgentSnapshot, RemoteError>(RemoteError::Timeout)
                    &&& final(self).pending_snapshots@ == old(self).pending_snapshots@.remove(id)
                },
            },
    {
        broadcast use vstd::std_specs::btree::group_btree_axioms;

        match waited {
            Waited::Answered(s) => Ok(s),
            Waited::Dropped => Err(RemoteError::Protocol("response channel closed".to_owned())),
            Waited::TimedOut => {
                self.pending_snapshots.remove(&id);
                Err(RemoteError::Timeout)
            },
        }
    }

    /// `abort` does not wait: it is taken where the connection is open before and after the request
    /// is handed on, and the writer takes it.
    pub fn abort_sent(&self, taken: bool) -> (r: Result<(), RemoteError>)
        ensures
            if !taken {
                r matches Err(e) && e@ == RemoteErrorView::Protocol("write channel closed"@)
            } else if self.closed {
                r matches Err(e) && e@ == RemoteErrorView::Protocol("connection closed"@)
            } else {
                r is Ok
            },
    {
        if !taken {
            return Err(RemoteError::Protocol("write channel closed".to_owned()));
        }
        self.check_open()
    }

    /// What to do with a message of the agent: an answer goes to the one who waits for it, and to
    /// nobody else.
    pub fn on_message(&mut self, message: ServerMessage) -> (r: ClientEffect<C, G>)
        requires
            old(self).wf(),
        ensures
            final(self).wf(),
            final(self).closed == old(self).closed,
            final(self).next_id == old(self).next_id,
            match message {
                ServerMessage::Response { id, result } => {
                    &&& final(self).pending@ == old(self).pending@.remove(id)
                    &&& final(self).pending_snapshots == old(self).pending_snapshots
                    &&& r == if old(self).pending@.contains_key(id) {
                        ClientEffect::<C, G>::Settle { waiter: old(self).pending@[id], result }
                    } else {
                        ClientEffect::<C, G>::Nothing
                    }
                },
                ServerMessage::Snapshot { id, snapshot } => {
                    &&& final(self).pending == old(self).pending
                    &&& final(self).pending_snapshots@ == if id == 0 {
                        old(self).pending_snapshots@
                    } else {
                        old(self).pending_snapshots@.remove(id)
                    }
                    &&& r == ClientEffect::<C, G>::Snapshot {
                        snapshot,
                        waiter: if id != 0 && old(self).pending_snapshots@.contains_key(id) {
                            Some(old(self).pending_snapshots@[id])
                        } else {
                            None
                        },
                    }
                },
                ServerMessage::Event { event } => {
                    &&& *final(self) == *old(self)
                    &&& r == ClientEffect::<C, G>::Publish { event }
                },
            },
    {
        broadcast use vstd::std_specs::btree::group_btree_axioms;

        match message {
            ServerMessage::Response { id, result } => match self.pending.remove(&id) {
                Some(waiter) => ClientEffect::Settle { waiter, result },
                None => {
                    assert(old(self).pending@.remove(id) =~= old(self).pending@);
                    ClientEffect::Nothing
                },
            },
            ServerMessage::Snapshot { id, snapshot } => {
                let waiter = if id != 0 {
                    self.pending_snapshots.remove(&id)
                } else {
                    None
                };
                ClientEffect::Snapshot { snapshot, waiter }
            },
            ServerMessage::Event { event } => ClientEffect::Publish { event },
        }
    }

    /// The connection is closed: nobody waits any more. Those who did are given, to be dropped.
    pub fn close(&mut self) -> (r: (BTreeMap<u64, C>, BTreeMap<u64, G>))
        ensures
            final(self).wf(),
            final(self).closed,
            final(self).next_id == old(self).next_id,
            r.0 == old(self).pending,
            r.1 == old(self).pending_snapshots,
    {
        broadcast use vstd::std_specs::btree::group_btree_axioms;

        self.closed = true;
        let mut pending: BTreeMap<u64, C> = BTreeMap::new();
        let mut snapshots: BTreeMap<u64, G> = BTreeMap::new();
        assert(pending@.dom() =~= Set::empty());
        assert(snapshots@.dom() =~= Set::empty());
        std::mem::swap(&mut self.pending, &mut pending);
        std::mem::swap(&mut self.pending_snapshots, &mut snapshots);
        (pending, snapshots)
    }
}

/// The snapshot that a client shows before the agent has sent one.
pub fn initial_snapshot() -> (r: AgentSnapshot)
    ensures
        r.wf(),
        r.system_prompt@.len() == 0,
        r.model is None,
        r.thinking_level == ThinkingLevel::Off,
        r.messages@.len() == 0,
        !r.is_streaming,
        r.streaming_message is None,
        r.pending_tool_calls@.len() == 0,
        r.error_message is None,
{
    proof {
        reveal_strlit("");
    }
    let config = AgentConfig {
        system_prompt: "".to_owned(),
        model: None,
        thinking_level: ThinkingLevel::Off,
    };
    AgentSnapshot::initial(&config, Vec::new())
}

/// The number of the request that comes after `n` others.
pub open spec fn nth_id(n: nat) -> int {
    ((1 + n) % 0x1_0000_0000_0000_0000) as int
}

/// No number is used twice, and none is 0, as long as there are fewer requests than numbers.
pub proof fn law_numbers_are_not_reused(a: nat, b: nat)
    requires
        a < b,
        b < 0xFFFF_FFFF_FFFF_FFFF,
    ensures
        nth_id(a) != nth_id(b),
        nth_id(a) != 0,
        nth_id(b) != 0,
        nth_id(0) == 1,
        nth_id(a + 1) == (nth_id(a) + 1) % 0x1_0000_0000_0000_0000,
{
}

/// Who waits, after requests and answers: each step has the number of a request and the one who
/// starts to wait for its answer, or nobody where the answer came or the time was up.
pub open spec fn waiting<C>(pending: Map<u64, C>, steps: Seq<(u64, Option<C>)>) -> Map<u64, C>
    decreases steps.len(),
{
    if steps.len() == 0 {
        pending
    } else {
        let before = waiting(pending, steps.drop_last());
        match steps.last() {
            (id, Some(waiter)) => before.insert(id, waiter),
            (id, None) => before.remove(id),
        }
    }
}

/// The answer to a request goes to the one who waits for it, whatever other requests and answers
/// come in between, in whatever order.
pub proof fn law_answer_finds_its_request<C>(
    pending: Map<u64, C>,
    id: u64,
    waiter: C,
    between: Seq<(u64, Option<C>)>,
)
    requires
        forall|i: int| 0 <= i < between.len() ==> (#[trigger] between[i]).0 != id,
    ensures
        waiting(pending.insert(id, waiter), between).contains_key(id),
        waiting(pending.insert(id, waiter), between)[id] == waiter,
    decreases between.len(),
{
    if between.len() > 0 {
        assert(between[between.len() - 1].0 != id);
        assert forall|i: int| 0 <= i < between.drop_last().len() implies (
        #[trigger] between.drop_last()[i]).0 != id by {
            assert(between[i].0 != id);
        }
        law_answer_finds_its_request(pending, id, waiter, between.drop_last());
    }
}

/// An answer goes to the one who waits for it, once, and everybody else goes on waiting; an answer
/// that nobody waits for is dropped, and an event is passed on and changes nothing.
pub proof fn law_answer_goes_to_who_waits<C, G>()
    ensures
        forall|client: &mut ClientState<C, G>, message: ServerMessage, r: ClientEffect<C, G>| #[trigger]
            call_ensures(ClientState::<C, G>::on_message, (client, message), r) ==> {
                &&& message matches ServerMessage::Response { id, result } ==> {
                    &&& r is Settle <==> client.pending@.contains_key(id)
                    &&& r is Settle ==> r->Settle_waiter == client.pending@[id] && r->result == result
                    &&& !(r is Settle) ==> r is Nothing
                    &&& !final(client).pending@.contains_key(id)
                    &&& forall|other: u64|
                        other != id ==> (#[trigger] final(client).pending@.contains_key(other)
                            <==> client.pending@.contains_key(other))
                    &&& forall|other: u64|
                        other != id && client.pending@.contains_key(other) ==> (
                        #[trigger] final(client).pending@[other]) == client.pending@[other]
                    &&& final(client).pending_snapshots@ == client.pending_snapshots@
                }
                &&& message matches ServerMessage::Snapshot { id, snapshot } ==> {
                    &&& r is Snapshot && r->snapshot == snapshot
                    &&& id == 0 ==> r->Snapshot_waiter is None && final(client).pending_snapshots@
                        == client.pending_snapshots@
                    &&& id != 0 ==> (r->Snapshot_waiter is Some
                        <==> client.pending_snapshots@.contains_key(id))
                    &&& id != 0 ==> !final(client).pending_snapshots@.contains_key(id)
                    &&& r->Snapshot_waiter matches Some(w) ==> w == client.pending_snapshots@[id]
                    &&& final(client).pending@ == client.pending@
                }
                &&& message matches ServerMessage::Event { event } ==> {
                    &&& r is Publish && r->event == event
                    &&& final(client).pending@ == client.pending@
                    &&& final(client).pending_snapshots@ == client.pending_snapshots@
                }
            },
{
}

/// Who waits can wait only while the connection is open; once it is closed nobody waits any more, and
/// all those who did are told.
pub proof fn law_nobody_waits_for_a_closed_connection<C, G>()
    ensures
        forall|client: &mut ClientState<C, G>, id: u64, waiter: C, r: Result<(), RemoteError>| #[trigger]
            call_ensures(ClientState::<C, G>::expect_answer, (client, id, waiter), r) ==> {
                &&& r is Ok <==> !client.closed
                &&& r is Ok ==> final(client).pending@.contains_key(id)
                    && final(client).pending@[id] == waiter
                &&& r is Err ==> final(client).pending@ == client.pending@
            },
        forall|client: &mut ClientState<C, G>, r: (BTreeMap<u64, C>, BTreeMap<u64, G>)| #[trigger]
            call_ensures(ClientState::<C, G>::close, (client,), r) ==> {
                &&& final(client).closed
                &&& forall|id: u64| !#[trigger] final(client).pending@.contains_key(id)
                &&& forall|id: u64| !#[trigger] final(client).pending_snapshots@.contains_key(id)
                &&& r.0@ == client.pending@
                &&& r.1@ == client.pending_snapshots@
            },
{
    assert forall|client: &mut ClientState<C, G>, r: (BTreeMap<u64, C>, BTreeMap<u64, G>)| #[trigger]
        call_ensures(ClientState::<C, G>::close, (client,), r) implies {
        &&& forall|id: u64| !#[trigger] final(client).pending@.contains_key(id)
        &&& forall|id: u64| !#[trigger] final(client).pending_snapshots@.contains_key(id)
    } by {
        assert(final(client).wf());
    }
}

/// A command that was not taken, or whose time was up, is not waited for any more; its answer is what
/// the agent said, and nothing else is a success.
pub proof fn law_command_ends_as_it_was_answered<C, G>()
    ensures
        forall|client: &mut ClientState<C, G>, id: u64, taken: bool, r: Result<(), RemoteError>| #[trigger]
            call_ensures(ClientState::<C, G>::command_sent, (client, id, taken), r) ==> {
                &&& r is Ok <==> taken && !client.closed
                &&& r is Err ==> !final(client).pending@.contains_key(id)
                &&& r is Ok ==> final(client).pending@ == client.pending@
            },
        forall|
            client: &mut ClientState<C, G>,
            id: u64,
            waited: Waited<Result<(), String>>,
            r: Result<(), RemoteError>,
        | #[trigger]
            call_ensures(ClientState::<C, G>::command_waited, (client, id, waited), r) ==> {
                &&& r is Ok <==> waited is Answered && waited->0 is Ok
                &&& waited is Answered && waited->0 is Err ==> r == Err::<(), RemoteError>(
                    RemoteError::Command(waited->0->Err_0),
                )
                &&& waited is TimedOut ==> r == Err::<(), RemoteError>(RemoteError::Timeout)
                    && !final(client).pending@.contains_key(id)
            },
{
}

/// A snapshot is asked for under a number of its own, while the connection is open; it is what the
/// agent sent, and one that was not taken or whose time was up is not waited for any more.
pub proof fn law_snapshot_is_what_the_agent_sent<C, G>()
    ensures
        forall|client: &mut ClientState<C, G>, waiter: G, r: Result<u64, RemoteError>| #[trigger]
            call_ensures(ClientState::<C, G>::expect_snapshot, (client, waiter), r) ==> {
                &&& r is Ok <==> !client.closed
                &&& r matches Ok(id) ==> final(client).pending_snapshots@.contains_key(id)
                    && final(client).pending_snapshots@[id] == waiter && id == client.next_id
                &&& r is Ok && client.next_id < u64::MAX ==> final(client).next_id
                    == client.next_id + 1
                &&& final(client).pending@ == client.pending@
            },
        forall|client: &mut ClientState<C, G>, id: u64, taken: bool, r: Result<(), RemoteError>| #[trigger]
            call_ensures(ClientState::<C, G>::snapshot_sent, (client, id, taken), r) ==> {
                &&& r is Ok <==> taken && !client.closed
                &&& r is Err ==> !final(client).pending_snapshots@.contains_key(id)
            },
        forall|
            client: &mut ClientState<C, G>,
            id: u64,
            waited: Waited<AgentSnapshot>,
            r: Result<AgentSnapshot, RemoteError>,
        | #[trigger]
            call_ensures(ClientState::<C, G>::snapshot_waited, (client, id, waited), r) ==> {
                &&& r is Ok <==> waited is Answered
                &&& r matches Ok(s) ==> s == waited->0
                &&& waited is TimedOut ==> !final(client).pending_snapshots@.contains_key(id)
            },
        forall|client: &mut ClientState<C, G>, r: u64| #[trigger]
            call_ensures(ClientState::<C, G>::claim_id, (client,), r) ==> r == client.next_id && (
            client.next_id < u64::MAX ==> final(client).next_id == client.next_id + 1),
{
}

/// An abort is taken just where the connection is open and the writer takes it.
pub proof fn law_abort_is_taken_while_open<C, G>(
    client: ClientState<C, G>,
    taken: bool,
    r: Result<(), RemoteError>,
    open: Result<(), RemoteError>,
)
    requires
        call_ensures(ClientState::<C, G>::abort_sent, (&client, taken), r),
        call_ensures(ClientState::<C, G>::check_open, (&client,), open),
    ensures
        r is Ok <==> taken && !client.closed,
        open is Ok <==> !client.closed,
{
}

} // verus!
