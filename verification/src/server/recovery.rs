//! Going on with a session that was stored: from which node, and with which transcript.
use std::sync::Arc;
use vstd::prelude::*;
use vstd::string::*;

use crate::message::Message;
use crate::server::registry;
use crate::server::registry::Registry;
use crate::server::{ServerError, ServerErrorView, SessionId};
use crate::session;
use crate::session::log;
use crate::session::{NodeId, SessionEntry, SessionError, SessionTree};
use crate::text;

verus! {

/// Where a lane goes on: its head, and what was said up to it.
#[derive(Debug)]
pub struct ResumePoint {
    pub head: Option<NodeId>,
    pub transcript: Vec<Arc<Message>>,
}

/// Whether `transcript` is what was said from the root down to `leaf`.
pub open spec fn is_transcript(
    nodes: Map<NodeId, session::SessionNode>,
    leaf: NodeId,
    transcript: Seq<Arc<Message>>,
) -> bool {
    exists|ids: Seq<NodeId>|
        {
            &&& #[trigger] session::is_lineage(nodes, ids, leaf)
            &&& transcript.len() == ids.len()
            &&& forall|i: int|
                0 <= i < ids.len() ==> (*(#[trigger] transcript[i]))@ == nodes[ids[i]].message@
        }
}

/// Whether following parents from a leaf comes to an end.
pub open spec fn ends(tree: SessionTree) -> bool {
    forall|id: NodeId| #[trigger]
        tree.is_leaf(id) ==> exists|n: nat| session::stops_within(tree.nodes@, id, n)
}

/// Whether the leaf `id` is there, with all nodes from a root down to it.
pub open spec fn reachable(tree: SessionTree, id: NodeId) -> bool {
    tree.is_leaf(id) && exists|ids: Seq<NodeId>| session::is_lineage(tree.nodes@, ids, id)
}

/// Whether `h` is the largest id of a leaf.
pub open spec fn is_largest_leaf(tree: SessionTree, h: NodeId) -> bool {
    &&& exists|k: NodeId| #[trigger] tree.is_leaf(k) && tree.nodes@[k].id == h
    &&& forall|k: NodeId| #[trigger] tree.is_leaf(k) ==> tree.nodes@[k].id <= h
}

/// Whether `r` says where to go on in `tree`, when `head` was asked for. A head that is named has
/// to be a leaf: a lane does not fall back to another leaf on its own. Without a name it is the
/// largest leaf, the one that was written last; an empty tree has none.
pub open spec fn resumes(
    tree: SessionTree,
    head: Option<NodeId>,
    r: Result<ResumePoint, ServerError>,
) -> bool {
    match head {
        Some(h) => if reachable(tree, h) {
            r matches Ok(p) && p.head == Some(h) && is_transcript(tree.nodes@, h, p.transcript@)
        } else {
            r matches Err(e) && e@ == ServerErrorView::Protocol(not_a_leaf(h))
        },
        None => match r {
            Ok(p) => match p.head {
                Some(h) => {
                    &&& is_largest_leaf(tree, h)
                    &&& reachable(tree, h)
                    &&& is_transcript(tree.nodes@, h, p.transcript@)
                },
                None => {
                    &&& forall|k: NodeId| !#[trigger] tree.is_leaf(k)
                    &&& p.transcript@.len() == 0
                },
            },
            Err(e) => {
                &&& e@ == ServerErrorView::Protocol("active leaf path unavailable"@)
                &&& exists|h: NodeId| #[trigger] is_largest_leaf(tree, h) && !reachable(tree, h)
            },
        },
    }
}

/// In a tree that was replayed from its entries every leaf can be gone on from, and without a name
/// there is always a place to go on from.
pub proof fn law_replayed_tree_can_be_resumed(
    tree: SessionTree,
    entries: Seq<SessionEntry>,
    r: Result<ResumePoint, ServerError>,
)
    requires
        session::forms_tree(entries),
        tree.is_tree_of(entries),
    ensures
        ends(tree),
        forall|id: NodeId| #[trigger] tree.is_leaf(id) ==> reachable(tree, id),
        resumes(tree, None, r) ==> r is Ok,
{
    assert forall|id: NodeId| #[trigger] tree.nodes@.contains_key(id) implies {
        &&& tree.nodes@[id].id == id
        &&& exists|n: nat| session::stops_within(tree.nodes@, id, n)
        &&& exists|ids: Seq<NodeId>| session::is_lineage(tree.nodes@, ids, id)
    } by {
        session::law_every_node_descends_from_the_root(tree, entries, id);
        let i = choose|i: int| 0 <= i < entries.len() && (#[trigger] entries[i]).id == id;
        assert(tree.nodes@[entries[i].id].id == entries[i].id);
    }
}

/// The text of the error for a head that is not a leaf.
pub open spec fn not_a_leaf(h: NodeId) -> Seq<char> {
    "resume head "@ + text::decimal(h as nat) + " is not a leaf node (unknown or internal)"@
}

/// The messages of a path, shared.
fn transcript_from_path(path: Vec<&Message>) -> (r: Vec<Arc<Message>>)
    ensures
        r@.len() == path@.len(),
        forall|i: int| 0 <= i < r@.len() ==> (*(#[trigger] r@[i]))@ == path@[i]@,
{
    let mut out: Vec<Arc<Message>> = Vec::new();
    let mut i: usize = 0;
    while i < path.len()
        invariant
            i <= path@.len(),
            out@.len() == i,
            forall|k: int| 0 <= k < i ==> (*(#[trigger] out@[k]))@ == path@[k]@,
        decreases path@.len() - i,
    {
        out.push(Arc::new(path[i].clone()));
        i += 1;
    }
    out
}

/// The largest id of a leaf; `None` where there is none.
fn largest_leaf(tree: &SessionTree) -> (r: Option<NodeId>)
    ensures
        match r {
            Some(h) => is_largest_leaf(*tree, h),
            None => forall|k: NodeId| !#[trigger] tree.is_leaf(k),
        },
{
    let leaves = tree.leaves();
    let ghost keys = choose|keys: Seq<NodeId>| #[trigger]
        tree.leaf_keys(keys) && leaves@ == keys.map_values(|k: NodeId| tree.nodes@[k].id);
    if leaves.len() == 0 {
        assert forall|k: NodeId| !#[trigger] tree.is_leaf(k) by {
            assert(!keys.contains(k));
        }
        return None;
    }
    let mut best: NodeId = leaves[0];
    let mut i: usize = 1;
    assert(keys.contains(keys[0]));
    assert(tree.is_leaf(keys[0]) && tree.nodes@[keys[0]].id == best);
    while i < leaves.len()
        invariant
            1 <= i <= leaves@.len(),
            tree.leaf_keys(keys),
            leaves@ == keys.map_values(|k: NodeId| tree.nodes@[k].id),
            exists|k: NodeId| #[trigger] tree.is_leaf(k) && tree.nodes@[k].id == best,
            forall|j: int| 0 <= j < i ==> #[trigger] leaves@[j] <= best,
        decreases leaves@.len() - i,
    {
        if leaves[i] > best {
            best = leaves[i];
            assert(keys.contains(keys[i as int]));
            assert(tree.is_leaf(keys[i as int]) && tree.nodes@[keys[i as int]].id == best);
        }
        i += 1;
    }
    assert forall|k: NodeId| #[trigger] tree.is_leaf(k) implies tree.nodes@[k].id <= best by {
        assert(keys.contains(k));
        let j = choose|j: int| 0 <= j < keys.len() && keys[j] == k;
        assert(leaves@[j] <= best);
    }
    Some(best)
}

/// Where to go on.
pub fn resolve_resume_head(tree: &SessionTree, head: Option<NodeId>) -> (r: Result<
    ResumePoint,
    ServerError,
>)
    requires
        ends(*tree),
    ensures
        resumes(*tree, head, r),
{
    let chosen = match head {
        Some(h) => h,
        None => match largest_leaf(tree) {
            Some(h) => h,
            None => {
                return Ok(ResumePoint { head: None, transcript: Vec::new() });
            },
        },
    };
    match tree.path_to(chosen) {
        Some(path) => {
            let ghost shown = path@;
            let transcript = transcript_from_path(path);
            proof {
                let ids = choose|ids: Seq<NodeId>|
                    {
                        &&& #[trigger] session::is_lineage(tree.nodes@, ids, chosen)
                        &&& shown.len() == ids.len()
                        &&& forall|i: int|
                            0 <= i < ids.len() ==> *(#[trigger] shown[i])
                                == tree.nodes@[ids[i]].message
                    };
                assert forall|i: int| 0 <= i < ids.len() implies (*(#[trigger] transcript@[i]))@
                    == tree.nodes@[ids[i]].message@ by {
                    assert(*shown[i] == tree.nodes@[ids[i]].message);
                }
                assert(is_transcript(tree.nodes@, chosen, transcript@));
            }
            Ok(ResumePoint { head: Some(chosen), transcript })
        },
        None => {
            assert(!reachable(*tree, chosen));
            match head {
                Some(h) => Err(
                    ServerError::Protocol(
                        "resume head ".to_owned().concat(text::decimal_u64(h).as_str()).concat(
                            " is not a leaf node (unknown or internal)",
                        ),
                    ),
                ),
                None => Err(ServerError::Protocol("active leaf path unavailable".to_owned())),
            }
        },
    }
}

/// Before a lane goes on in a session that is not registered yet: the head is looked at first, and
/// only then the session is registered. Where it fails nothing is registered.
pub fn register_resumed<S, L>(
    sessions: &mut Registry<S, L>,
    session_id: SessionId,
    storage: Arc<S>,
    loaded: Result<SessionTree, SessionError>,
    head: Option<NodeId>,
    has_runtime: bool,
) -> (r: Result<ResumePoint, ServerError>)
    requires
        old(sessions).wf(),
        loaded matches Ok(tree) ==> ends(tree),
    ensures
        final(sessions).wf(),
        final(sessions).next_session_id == old(sessions).next_session_id,
        final(sessions).next_generation == old(sessions).next_generation,
        r is Err ==> *final(sessions) == *old(sessions),
        r is Ok ==> final(sessions)@ == old(sessions)@.insert(
            session_id@,
            registry::fresh(storage),
        ),
        match loaded {
            Err(e) => r == Err::<ResumePoint, ServerError>(ServerError::Session(e)),
            Ok(tree) => exists|resolved: Result<ResumePoint, ServerError>| #[trigger]
                resumes(tree, head, resolved) && if resolved is Err {
                    r == resolved
                } else if !has_runtime {
                    r matches Err(e) && e@ == ServerErrorView::Protocol("no runtime factory"@)
                } else if old(sessions)@.contains_key(session_id@) {
                    r matches Err(e) && e@ == ServerErrorView::DuplicateSession(session_id@)
                } else {
                    r == resolved
                },
        },
{
    let tree = match loaded {
        Err(e) => {
            return Err(ServerError::Session(e));
        },
        Ok(tree) => tree,
    };
    let resolved = resolve_resume_head(&tree, head);
    assert(resumes(tree, head, resolved));
    let point = match resolved {
        Err(e) => {
            return Err(e);
        },
        Ok(p) => p,
    };
    if !has_runtime {
        return Err(ServerError::Protocol("no runtime factory".to_owned()));
    }
    match sessions.create_session(session_id, storage) {
        Err(e) => Err(e),
        Ok(_) => Ok(point),
    }
}

/// A lane that goes on at a leaf says what comes next after all that was said: once a message was
/// written below the head, what was said up to it is the transcript and that message.
pub proof fn law_resumed_lane_continues(
    entries: Seq<SessionEntry>,
    tree: SessionTree,
    head: NodeId,
    transcript: Seq<Arc<Message>>,
    e: SessionEntry,
    after: SessionTree,
)
    requires
        session::forms_tree(entries),
        tree.is_tree_of(entries),
        tree.is_leaf(head),
        is_transcript(tree.nodes@, head, transcript),
        e.parent_id == Some(head),
        e.id >= log::above_ids(entries),
        after.is_tree_of(entries.push(e)),
    ensures
        after.is_leaf(e.id),
        !after.is_leaf(head),
        is_transcript(after.nodes@, e.id, transcript.push(Arc::new(e.message))),
{
    let all = entries.push(e);
    let n = entries.len() as int;
    let k = choose|k: int| 0 <= k < entries.len() && (#[trigger] entries[k]).id == head;
    assert(session::has_id(entries, head));
    log::law_appended_message_is_loaded(entries, e, after);
    assert(all[n] == e);
    let ids = choose|ids: Seq<NodeId>|
        {
            &&& #[trigger] session::is_lineage(tree.nodes@, ids, head)
            &&& transcript.len() == ids.len()
            &&& forall|i: int|
                0 <= i < ids.len() ==> (*(#[trigger] transcript[i]))@
                    == tree.nodes@[ids[i]].message@
        };
    let more = ids.push(e.id);
    assert forall|i: int| 0 <= i < ids.len() implies {
        &&& after.nodes@.contains_key(#[trigger] ids[i])
        &&& after.nodes@[ids[i]].parent_id == tree.nodes@[ids[i]].parent_id
        &&& after.nodes@[ids[i]].message == tree.nodes@[ids[i]].message
    } by {
        let j = choose|j: int| 0 <= j < entries.len() && (#[trigger] entries[j]).id == ids[i];
        assert(tree.nodes@[entries[j].id].parent_id == entries[j].parent_id);
        assert(all[j] == entries[j]);
        assert(after.nodes@[all[j].id].parent_id == all[j].parent_id);
    }
    assert(session::is_lineage(after.nodes@, more, e.id)) by {
        assert forall|i: int| 0 <= i < more.len() implies after.nodes@.contains_key(
            #[trigger] more[i],
        ) by {
            if i < ids.len() {
                assert(more[i] == ids[i]);
            }
        }
        assert forall|i: int|
            #![trigger more[i]]
            0 < i < more.len() implies after.nodes@[more[i]].parent_id == Some(more[i - 1]) by {
            if i < ids.len() {
                assert(more[i] == ids[i]);
                assert(more[i - 1] == ids[i - 1]);
            } else {
                assert(more[i - 1] == ids.last());
            }
        }
        assert(more[0] == ids[0]);
    }
    let said = transcript.push(Arc::new(e.message));
    assert forall|i: int| 0 <= i < more.len() implies (*(#[trigger] said[i]))@
        == after.nodes@[more[i]].message@ by {
        if i < ids.len() {
            assert(said[i] == transcript[i]);
            assert(more[i] == ids[i]);
        }
    }
    assert(!after.is_leaf(head)) by {
        session::lemma_parents_at(all);
        assert(all[k].id == head);
        let children = after.nodes@[all[k].id].children@;
        assert(session::children_are(session::parents(all), all[k].id, children));
        assert(session::parents(all)[all[n].id] == Some(head));
        assert(children.contains(e.id));
    }
}

/// What one lane writes does not change what was said on another: the way from the root to a node
/// stays as it is.
pub proof fn law_other_branches_stay(
    entries: Seq<SessionEntry>,
    tree: SessionTree,
    id: NodeId,
    transcript: Seq<Arc<Message>>,
    e: SessionEntry,
    after: SessionTree,
)
    requires
        tree.is_tree_of(entries),
        is_transcript(tree.nodes@, id, transcript),
        after.is_tree_of(entries.push(e)),
        e.id >= log::above_ids(entries),
    ensures
        is_transcript(after.nodes@, id, transcript),
{
    let all = entries.push(e);
    let ids = choose|ids: Seq<NodeId>|
        {
            &&& #[trigger] session::is_lineage(tree.nodes@, ids, id)
            &&& transcript.len() == ids.len()
            &&& forall|i: int|
                0 <= i < ids.len() ==> (*(#[trigger] transcript[i]))@
                    == tree.nodes@[ids[i]].message@
        };
    assert forall|i: int| 0 <= i < ids.len() implies {
        &&& after.nodes@.contains_key(#[trigger] ids[i])
        &&& after.nodes@[ids[i]].parent_id == tree.nodes@[ids[i]].parent_id
        &&& after.nodes@[ids[i]].message == tree.nodes@[ids[i]].message
    } by {
        let j = choose|j: int| 0 <= j < entries.len() && (#[trigger] entries[j]).id == ids[i];
        assert(tree.nodes@[entries[j].id].parent_id == entries[j].parent_id);
        assert(all[j] == entries[j]);
        assert(after.nodes@[all[j].id].parent_id == all[j].parent_id);
    }
    assert(session::is_lineage(after.nodes@, ids, id)) by {
        assert forall|i: int|
            #![trigger ids[i]]
            0 < i < ids.len() implies after.nodes@[ids[i]].parent_id == Some(ids[i - 1]) by {
            assert(after.nodes@[ids[i]].parent_id == tree.nodes@[ids[i]].parent_id);
        }
        assert(after.nodes@[ids[0]].parent_id == tree.nodes@[ids[0]].parent_id);
    }
}

/// A lane that branches off, and the lane that it branches off, write below the same node: the tree
/// comes to have a leaf for each.
pub proof fn law_branching_yields_two_leaves(
    entries: Seq<SessionEntry>,
    head: NodeId,
    a: SessionEntry,
    b: SessionEntry,
    after: SessionTree,
)
    requires
        session::forms_tree(entries),
        session::has_id(entries, head),
        a.parent_id == Some(head),
        b.parent_id == Some(head),
        a.id >= log::above_ids(entries),
        b.id >= log::above_ids(entries.push(a)),
        after.is_tree_of(entries.push(a).push(b)),
    ensures
        session::forms_tree(entries.push(a).push(b)),
        a.id != b.id,
        after.is_leaf(a.id),
        after.is_leaf(b.id),
        !after.is_leaf(head),
{
    let one = entries.push(a);
    let all = one.push(b);
    let n = entries.len() as int;
    assert(one[n] == a);
    assert(all[n] == a);
    assert(all[n + 1] == b);
    log::law_appended_message_forms_tree(entries, a);
    let k = choose|k: int| 0 <= k < entries.len() && (#[trigger] entries[k]).id == head;
    assert(one[k].id == head);
    assert(session::has_id(one, head));
    log::law_appended_message_is_loaded(one, b, after);
    log::lemma_above_ids(one, n);
    log::lemma_above_ids(one, k);
    log::lemma_above_ids(entries, k);
    session::lemma_parents_at(all);
    let up = session::parents(all);
    let below_a = after.nodes@[all[n].id].children@;
    assert(session::children_are(up, all[n].id, below_a));
    if below_a.len() > 0 {
        let c = below_a[0];
        assert(below_a.contains(c));
        let j = choose|j: int| 0 <= j < all.len() && (#[trigger] all[j]).id == c;
        assert(up[all[j].id] == all[j].parent_id);
        if j < n {
            assert(all[j] == entries[j]);
            assert(!session::orphan_at(entries, j));
            let q = choose|q: int| 0 <= q < entries.len() && (#[trigger] entries[q]).id == a.id;
            log::lemma_above_ids(entries, q);
        }
    }
    assert(all[k].id == head);
    let below_head = after.nodes@[all[k].id].children@;
    assert(session::children_are(up, all[k].id, below_head));
    assert(up[all[n].id] == Some(head));
    assert(below_head.contains(a.id));
}

/// A lane goes on at the leaf that was named, and nowhere else; without a name it goes on at the
/// leaf with the largest id, of which there is none larger. A node below which something was written
/// is refused, and so is one that is not there.
pub proof fn law_lane_goes_on_where_it_was_told(
    entries: Seq<SessionEntry>,
    tree: SessionTree,
    head: Option<NodeId>,
    r: Result<ResumePoint, ServerError>,
)
    requires
        session::forms_tree(entries),
        tree.is_tree_of(entries),
        resumes(tree, head, r),
    ensures
        head matches Some(h) ==> (r is Ok <==> (exists|i: int|
            0 <= i < entries.len() && (#[trigger] entries[i]).id == h) && (forall|j: int|
            0 <= j < entries.len() ==> (#[trigger] entries[j]).parent_id != Some(h))),
        head is Some ==> (r matches Ok(p) ==> p.head == head),
        head is None ==> r is Ok,
        head is None ==> (r matches Ok(p) ==> match p.head {
            Some(h) => {
                &&& exists|i: int| 0 <= i < entries.len() && (#[trigger] entries[i]).id == h
                &&& forall|j: int|
                    0 <= j < entries.len() ==> (#[trigger] entries[j]).parent_id != Some(h)
                &&& forall|k: int|
                    0 <= k < entries.len() && (forall|j: int|
                        0 <= j < entries.len() ==> (#[trigger] entries[j]).parent_id != Some(
                            entries[k].id,
                        )) ==> (#[trigger] entries[k]).id <= h
            },
            None => entries.len() == 0 && p.transcript@.len() == 0,
        }),
{
    session::law_tree_holds_every_entry(tree, entries);
    law_replayed_tree_can_be_resumed(tree, entries, r);
    assert forall|id: NodeId| #[trigger] tree.is_leaf(id) <==> ((exists|i: int|
        0 <= i < entries.len() && (#[trigger] entries[i]).id == id) && (forall|j: int|
        0 <= j < entries.len() ==> (#[trigger] entries[j]).parent_id != Some(id))) by {
        if exists|i: int| 0 <= i < entries.len() && (#[trigger] entries[i]).id == id {
            let i = choose|i: int| 0 <= i < entries.len() && (#[trigger] entries[i]).id == id;
            assert(tree.is_leaf(entries[i].id) <==> forall|j: int|
                0 <= j < entries.len() ==> (#[trigger] entries[j]).parent_id != Some(
                    entries[i].id,
                ));
        } else if tree.is_leaf(id) {
            assert(tree.nodes@.contains_key(id));
        }
    }
    if head is None && r is Ok {
        let p = r->Ok_0;
        match p.head {
            Some(h) => {
                let k = choose|k: NodeId| #[trigger] tree.is_leaf(k) && tree.nodes@[k].id == h;
                let i = choose|i: int| 0 <= i < entries.len() && (#[trigger] entries[i]).id == k;
                assert(tree.nodes@[entries[i].id].id == entries[i].id);
                assert(k == h);
                assert forall|n: int|
                    0 <= n < entries.len() && (forall|j: int|
                        0 <= j < entries.len() ==> (#[trigger] entries[j]).parent_id != Some(
                            entries[n].id,
                        )) implies (#[trigger] entries[n]).id <= h by {
                    assert(tree.is_leaf(entries[n].id));
                    assert(tree.nodes@[entries[n].id].id == entries[n].id);
                }
            },
            None => {
                if entries.len() > 0 {
                    session::law_some_node_is_a_leaf(tree, entries);
                    let i = choose|i: int|
                        0 <= i < entries.len() && tree.is_leaf((#[trigger] entries[i]).id);
                    assert(tree.is_leaf(entries[i].id));
                }
            },
        }
    }
}

/// The error for a head that is not a leaf names the head.
pub proof fn law_refused_head_is_named(h: NodeId)
    ensures
        text::occurs(text::decimal(h as nat), not_a_leaf(h)),
{
    text::lemma_occurs(
        "resume head "@,
        text::decimal(h as nat),
        " is not a leaf node (unknown or internal)"@,
    );
}

/// A session that cannot be gone on with is not registered: not where it cannot be read, not where its
/// head is refused, not where there is nothing to run it, and not where it is registered already.
/// Otherwise it is registered, with its storage and without lanes, and no other session is touched.
pub proof fn law_resumed_session_is_registered<S, L>()
    ensures
        forall|
            sessions: &mut Registry<S, L>,
            name: SessionId,
            storage: Arc<S>,
            loaded: Result<SessionTree, SessionError>,
            head: Option<NodeId>,
            has_runtime: bool,
            r: Result<ResumePoint, ServerError>,
        |
            sessions.wf() && (loaded is Ok ==> ends(loaded->Ok_0)) && #[trigger] call_ensures(
                register_resumed::<S, L>,
                (sessions, name, storage, loaded, head, has_runtime),
                r,
            ) ==> {
                &&& r is Err ==> final(sessions)@ == sessions@
                &&& loaded is Err || !has_runtime || sessions@.contains_key(name@) ==> r is Err
                &&& r is Ok ==> final(sessions)@.contains_key(name@)
                    && final(sessions)@[name@].storage == storage
                    && final(sessions)@[name@].lanes.dom().is_empty()
                    && final(sessions)@.remove(name@) == sessions@.remove(name@)
                &&& r is Ok && head is Some ==> (r->Ok_0).head == head
            },
{
    assert(Map::<Seq<char>, registry::LaneRuntime<L>>::empty().dom() =~= Set::empty());
    assert forall|
        a: Map<Seq<char>, registry::SessionView<S, L>>,
        k: Seq<char>,
        v: registry::SessionView<S, L>,
    | (#[trigger] a.insert(k, v)).remove(k) == a.remove(k) by {
        assert(a.insert(k, v).remove(k) =~= a.remove(k));
    }
}

} // verus!
