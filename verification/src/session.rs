//! The session tree: every message is a node, a branch is a path from the root to a leaf, and
//! the tree is rebuilt by replaying the entries of an append-only log.
pub mod lane;
pub mod log;

use std::collections::BTreeMap;
use vstd::prelude::*;
use vstd::string::*;

use crate::collections;
use crate::file_lock::FileLockError;
use crate::message::Message;
use crate::text;

verus! {

/// The id of a node: ids grow, and are handed out by the storage.
pub type NodeId = u64;

/// The name of a lane.
pub type LaneId = String;

/// A node of the session tree.
#[derive(Debug, Clone, PartialEq)]
pub struct SessionNode {
    pub id: NodeId,
    /// `None` for the root.
    pub parent_id: Option<NodeId>,
    pub message: Message,
    /// The direct children, in increasing order of their ids.
    pub children: Vec<NodeId>,
}

/// The tree of a session.
#[derive(Debug, Clone, PartialEq)]
pub struct SessionTree {
    pub session_id: String,
    pub root: Option<NodeId>,
    pub nodes: BTreeMap<NodeId, SessionNode>,
}

/// One entry of the log: a message and the node it hangs below.
#[derive(Debug, Clone, PartialEq)]
pub struct SessionEntry {
    pub id: NodeId,
    pub parent_id: Option<NodeId>,
    pub message: Message,
}

/// Why a session operation failed. Errors of the file system and of the serialiser are held as
/// their text.
#[derive(Debug, PartialEq)]
pub enum SessionError {
    Io(String),
    Serde(String),
    FileLock(FileLockError),
    DuplicateNode(NodeId),
    ParentNotFound(NodeId),
    MultipleRoots,
    Cycle,
    /// The next id would be past the last number.
    IdExhausted,
}

impl SessionError {
    /// The text of the error.
    pub open spec fn text(self) -> Seq<char> {
        match self {
            SessionError::Io(e) => "io error: "@ + e@,
            SessionError::Serde(e) => "serialize error: "@ + e@,
            SessionError::FileLock(e) => e.text(),
            SessionError::DuplicateNode(id) => "duplicate node id: "@ + text::decimal(id as nat),
            SessionError::ParentNotFound(id) => "parent node not found: "@ + text::decimal(
                id as nat,
            ),
            SessionError::MultipleRoots => "multiple roots not allowed"@,
            SessionError::Cycle => "cycle detected"@,
            SessionError::IdExhausted => "node id cursor exhausted"@,
        }
    }

    /// The text of the error.
    pub fn message(&self) -> (r: String)
        ensures
            r@ == self.text(),
    {
        match self {
            SessionError::Io(e) => "io error: ".to_owned().concat(e.as_str()),
            SessionError::Serde(e) => "serialize error: ".to_owned().concat(e.as_str()),
            SessionError::FileLock(e) => e.message(),
            SessionError::DuplicateNode(id) => "duplicate node id: ".to_owned().concat(
                text::decimal_u64(*id).as_str(),
            ),
            SessionError::ParentNotFound(id) => "parent node not found: ".to_owned().concat(
                text::decimal_u64(*id).as_str(),
            ),
            SessionError::MultipleRoots => "multiple roots not allowed".to_owned(),
            SessionError::Cycle => "cycle detected".to_owned(),
            SessionError::IdExhausted => "node id cursor exhausted".to_owned(),
        }
    }
}

/// Whether an earlier entry has the id of entry `i`.
pub open spec fn duplicate_at(entries: Seq<SessionEntry>, i: int) -> bool {
    exists|j: int| 0 <= j < i && (#[trigger] entries[j]).id == entries[i].id
}

/// Whether entry `i` is a root and so is an earlier one.
pub open spec fn second_root_at(entries: Seq<SessionEntry>, i: int) -> bool {
    entries[i].parent_id is None && exists|j: int|
        0 <= j < i && (#[trigger] entries[j]).parent_id is None
}

/// Whether entry `i` cannot be added to the entries before it.
pub open spec fn bad_at(entries: Seq<SessionEntry>, i: int) -> bool {
    duplicate_at(entries, i) || second_root_at(entries, i)
}

/// Whether `i` is the first entry that cannot be added.
pub open spec fn first_bad(entries: Seq<SessionEntry>, i: int) -> bool {
    &&& 0 <= i < entries.len()
    &&& bad_at(entries, i)
    &&& forall|j: int| 0 <= j < i ==> !#[trigger] bad_at(entries, j)
}

/// Whether all entries can be added: ids are unique and there is at most one root.
pub open spec fn scans(entries: Seq<SessionEntry>) -> bool {
    forall|i: int| 0 <= i < entries.len() ==> !#[trigger] bad_at(entries, i)
}

/// Whether some entry has the id `id`.
pub open spec fn has_id(entries: Seq<SessionEntry>, id: NodeId) -> bool {
    exists|j: int| 0 <= j < entries.len() && (#[trigger] entries[j]).id == id
}

/// Whether the parent of entry `i` is missing.
pub open spec fn orphan_at(entries: Seq<SessionEntry>, i: int) -> bool {
    entries[i].parent_id matches Some(p) && !has_id(entries, p)
}

/// Whether `i` is the entry with the smallest id among those whose parent is missing.
pub open spec fn first_orphan(entries: Seq<SessionEntry>, i: int) -> bool {
    &&& 0 <= i < entries.len()
    &&& orphan_at(entries, i)
    &&& forall|j: int|
        0 <= j < entries.len() && #[trigger] orphan_at(entries, j) ==> entries[i].id
            <= entries[j].id
}

/// Whether every parent is there.
pub open spec fn parents_present(entries: Seq<SessionEntry>) -> bool {
    forall|i: int| 0 <= i < entries.len() ==> !#[trigger] orphan_at(entries, i)
}

/// The parent of each node.
pub open spec fn parents(entries: Seq<SessionEntry>) -> Map<NodeId, Option<NodeId>>
    decreases entries.len(),
{
    if entries.len() == 0 {
        Map::empty()
    } else {
        parents(entries.drop_last()).insert(entries.last().id, entries.last().parent_id)
    }
}

/// Whether the chain of parents from `id` comes to a root in at most `n` steps.
pub open spec fn ends_within(up: Map<NodeId, Option<NodeId>>, id: NodeId, n: nat) -> bool
    decreases n,
{
    up.contains_key(id) && match up[id] {
        None => true,
        Some(p) => n > 0 && ends_within(up, p, (n - 1) as nat),
    }
}

/// Whether the chain of parents from `id` comes to a root.
pub open spec fn rooted(up: Map<NodeId, Option<NodeId>>, id: NodeId) -> bool {
    exists|n: nat| ends_within(up, id, n)
}

/// Whether no chain of parents runs in a circle: each comes to a root.
pub open spec fn acyclic(up: Map<NodeId, Option<NodeId>>) -> bool {
    forall|id: NodeId| #[trigger] up.contains_key(id) ==> rooted(up, id)
}

/// Whether the entries make up a tree.
pub open spec fn forms_tree(entries: Seq<SessionEntry>) -> bool {
    &&& scans(entries)
    &&& parents_present(entries)
    &&& acyclic(parents(entries))
}

/// Whether `children` are the nodes below `id`, in increasing order.
pub open spec fn children_are(
    up: Map<NodeId, Option<NodeId>>,
    id: NodeId,
    children: Seq<NodeId>,
) -> bool {
    &&& collections::increasing(children)
    &&& forall|c: NodeId| #[trigger]
        children.contains(c) <==> up.contains_key(c) && up[c] == Some(id)
}

impl SessionTree {
    /// Whether this is the tree of `entries`: one node for each entry, with its parent, its
    /// message and its children, and the entry without a parent as the root.
    pub open spec fn is_tree_of(self, entries: Seq<SessionEntry>) -> bool {
        let nodes = self.nodes@;
        &&& forall|id: NodeId| #[trigger] nodes.contains_key(id) <==> has_id(entries, id)
        &&& forall|i: int|
            0 <= i < entries.len() ==> {
                let e = #[trigger] entries[i];
                let node = nodes[e.id];
                &&& node.id == e.id
                &&& node.parent_id == e.parent_id
                &&& node.message == e.message
                &&& children_are(parents(entries), e.id, node.children@)
            }
        &&& match self.root {
            Some(r) => exists|i: int|
                0 <= i < entries.len() && (#[trigger] entries[i]).id == r
                    && entries[i].parent_id is None,
            None => forall|i: int|
                0 <= i < entries.len() ==> (#[trigger] entries[i]).parent_id is Some,
        }
    }
}

/// What replaying `entries` gives.
pub open spec fn reduce_result(
    entries: Seq<SessionEntry>,
    session_id: Seq<char>,
    r: Result<SessionTree, SessionError>,
) -> bool {
    match r {
        Err(SessionError::DuplicateNode(id)) => exists|i: int| #[trigger]
            first_bad(entries, i) && duplicate_at(entries, i) && id == entries[i].id,
        Err(SessionError::MultipleRoots) => exists|i: int| #[trigger]
            first_bad(entries, i) && !duplicate_at(entries, i),
        Err(SessionError::ParentNotFound(p)) => scans(entries) && exists|i: int| #[trigger]
            first_orphan(entries, i) && entries[i].parent_id == Some(p),
        Err(SessionError::Cycle) => {
            &&& scans(entries)
            &&& parents_present(entries)
            &&& !acyclic(parents(entries))
        },
        Err(_) => false,
        Ok(tree) => {
            &&& forms_tree(entries)
            &&& tree.session_id@ == session_id
            &&& tree.is_tree_of(entries)
        },
    }
}

/// The parents that `nodes` record.
pub open spec fn up_of(nodes: Map<NodeId, SessionNode>) -> Map<NodeId, Option<NodeId>> {
    nodes.map_values(|n: SessionNode| n.parent_id)
}

/// The parents are those that the entries name.
pub proof fn lemma_parents_at(entries: Seq<SessionEntry>)
    requires
        scans(entries),
    ensures
        forall|id: NodeId| #[trigger]
            parents(entries).contains_key(id) <==> has_id(entries, id),
        forall|i: int|
            0 <= i < entries.len() ==> parents(entries)[(#[trigger] entries[i]).id]
                == entries[i].parent_id,
    decreases entries.len(),
{
    if entries.len() > 0 {
        let init = entries.drop_last();
        assert forall|i: int| 0 <= i < init.len() implies !#[trigger] bad_at(init, i) by {
            assert(!bad_at(entries, i));
            if duplicate_at(init, i) {
                let j = choose|j: int| 0 <= j < i && (#[trigger] init[j]).id == init[i].id;
                assert(entries[j].id == entries[i].id);
            }
            if second_root_at(init, i) {
                let j = choose|j: int| 0 <= j < i && (#[trigger] init[j]).parent_id is None;
                assert(entries[j].parent_id is None);
            }
        }
        lemma_parents_at(init);
        let last = entries.last();
        assert(!bad_at(entries, entries.len() - 1));
        assert forall|id: NodeId| #[trigger]
            parents(entries).contains_key(id) <==> has_id(entries, id) by {
            if has_id(init, id) {
                let j = choose|j: int| 0 <= j < init.len() && (#[trigger] init[j]).id == id;
                assert(entries[j].id == id);
            }
            if id == last.id {
                assert(entries[entries.len() - 1].id == id);
            }
            if has_id(entries, id) && id != last.id {
                let j = choose|j: int| 0 <= j < entries.len() && (#[trigger] entries[j]).id == id;
                assert(init[j].id == id);
            }
        }
        assert forall|i: int| 0 <= i < entries.len() implies parents(
            entries,
        )[(#[trigger] entries[i]).id] == entries[i].parent_id by {
            if i < entries.len() - 1 {
                assert(init[i] == entries[i]);
                assert(entries[i].id != last.id);
            }
        }
    }
}

proof fn lemma_rooted_step(up: Map<NodeId, Option<NodeId>>, id: NodeId, p: NodeId)
    requires
        up.contains_key(id),
        up[id] == Some(p),
    ensures
        rooted(up, id) <==> rooted(up, p),
{
    if rooted(up, p) {
        let n = choose|n: nat| ends_within(up, p, n);
        assert(ends_within(up, id, n + 1));
    }
    if rooted(up, id) {
        let n = choose|n: nat| ends_within(up, id, n);
        assert(ends_within(up, p, (n - 1) as nat));
    }
}

/// Whether each of `path` is a node whose parent is the next one.
spec fn climbs(up: Map<NodeId, Option<NodeId>>, path: Seq<NodeId>) -> bool {
    forall|i: int|
        0 <= i < path.len() ==> up.contains_key(#[trigger] path[i]) && (i + 1 < path.len()
            ==> up[path[i]] == Some(path[i + 1]))
}

proof fn lemma_circle_not_rooted(
    up: Map<NodeId, Option<NodeId>>,
    path: Seq<NodeId>,
    k: int,
    j: int,
    n: nat,
)
    requires
        climbs(up, path),
        0 <= k <= j < path.len(),
        up[path.last()] == Some(path[k]),
    ensures
        !ends_within(up, path[j], n),
    decreases n,
{
    if n > 0 {
        if j + 1 < path.len() {
            lemma_circle_not_rooted(up, path, k, j + 1, (n - 1) as nat);
        } else {
            lemma_circle_not_rooted(up, path, k, k, (n - 1) as nat);
        }
    }
}

proof fn lemma_climb_rooted(up: Map<NodeId, Option<NodeId>>, path: Seq<NodeId>, j: int)
    requires
        climbs(up, path),
        0 <= j < path.len(),
        rooted(up, path.last()),
    ensures
        rooted(up, path[j]),
    decreases path.len() - j,
{
    if j + 1 < path.len() {
        lemma_climb_rooted(up, path, j + 1);
        lemma_rooted_step(up, path[j], path[j + 1]);
    }
}

proof fn lemma_path_len(up: Map<NodeId, Option<NodeId>>, path: Seq<NodeId>)
    requires
        climbs(up, path),
        path.no_duplicates(),
        up.dom().finite(),
    ensures
        path.len() <= up.dom().len(),
{
    path.unique_seq_to_set();
    assert(path.to_set().subset_of(up.dom())) by {
        assert forall|x: NodeId| path.to_set().contains(x) implies up.dom().contains(x) by {
            let i = choose|i: int| 0 <= i < path.len() && path[i] == x;
            assert(up.contains_key(path[i]));
        }
    }
    vstd::set_lib::lemma_len_subset(path.to_set(), up.dom());
}

/// Follows the chain of parents from each node: fails if one runs in a circle.
fn check_acyclic(nodes: &BTreeMap<NodeId, SessionNode>) -> (r: Result<(), SessionError>)
    requires
        forall|id: NodeId|
            #![trigger nodes@.contains_key(id)]
            nodes@.contains_key(id) ==> (nodes@[id].parent_id matches Some(p)
                ==> nodes@.contains_key(p)),
    ensures
        match r {
            Ok(_) => acyclic(up_of(nodes@)),
            Err(e) => e is Cycle && !acyclic(up_of(nodes@)),
        },
{
    broadcast use vstd::std_specs::btree::group_btree_axioms;

    let ghost up = up_of(nodes@);
    let keys = collections::sorted_keys(nodes);
    // Nodes that are known to come to a root.
    let mut done: BTreeMap<NodeId, bool> = BTreeMap::new();
    let mut s: usize = 0;
    while s < keys.len()
        invariant
            up == up_of(nodes@),
            s <= keys@.len(),
            forall|k: u64| keys@.contains(k) <==> nodes@.contains_key(k),
            forall|id: NodeId|
                #![trigger nodes@.contains_key(id)]
                nodes@.contains_key(id) ==> (nodes@[id].parent_id matches Some(p)
                    ==> nodes@.contains_key(p)),
            forall|id: NodeId|
                #[trigger] done@.contains_key(id) && done@[id] ==> rooted(up, id),
            forall|id: NodeId| #[trigger] done@.contains_key(id) ==> done@[id],
            forall|i: int| 0 <= i < s ==> rooted(up, #[trigger] keys@[i]),
        decreases keys@.len() - s,
    {
        let start = keys[s];
        assert(keys@.contains(keys@[s as int]));
        let mut path: Vec<NodeId> = Vec::new();
        let mut cursor: Option<NodeId> = Some(start);
        let ghost old_done = done@;
        // `done` maps a node of the current path to false.
        loop
            invariant_except_break
                cursor matches Some(id) ==> nodes@.contains_key(id),
                path@.len() > 0 ==> up[path@.last()] == cursor,
                path@.len() == 0 ==> cursor == Some(start),
                cursor is None ==> path@.len() > 0,
            invariant
                up == up_of(nodes@),
                nodes@.contains_key(start),
                forall|id: NodeId|
                    #![trigger nodes@.contains_key(id)]
                    nodes@.contains_key(id) ==> (nodes@[id].parent_id matches Some(p)
                        ==> nodes@.contains_key(p)),
                forall|id: NodeId|
                    #[trigger] done@.contains_key(id) && done@[id] ==> rooted(up, id),
                forall|id: NodeId|
                    #[trigger] done@.contains_key(id) && !done@[id] <==> path@.contains(id),
                path@.no_duplicates(),
                climbs(up, path@),
                path@.len() > 0 ==> path@[0] == start,
            ensures
                path@.len() == 0 ==> rooted(up, start),
                path@.len() > 0 ==> rooted(up, path@.last()),
            decreases up.dom().len() - path@.len(),
        {
            let id = match cursor {
                None => {
                    assert(ends_within(up, path@.last(), 0));
                    break;
                },
                Some(id) => id,
            };
            match done.get(&id) {
                Some(known) => {
                    if *known {
                        proof {
                            if path@.len() > 0 {
                                lemma_rooted_step(up, path@.last(), id);
                            }
                        }
                        break;
                    }
                    proof {
                        let k = choose|k: int| 0 <= k < path@.len() && path@[k] == id;
                        assert(!rooted(up, path@[k])) by {
                            assert forall|n: nat| !ends_within(up, path@[k], n) by {
                                lemma_circle_not_rooted(up, path@, k, k, n);
                            }
                        }
                        assert(up.contains_key(id));
                    }
                    return Err(SessionError::Cycle);
                },
                None => {},
            }
            let ghost before = path@;
            done.insert(id, false);
            path.push(id);
            match nodes.get(&id) {
                Some(node) => {
                    cursor = node.parent_id;
                },
                None => {
                    assert(false);
                },
            }
            proof {
                assert(!before.contains(id));
                assert(path@ == before.push(id));
                assert(path@.last() == id);
                assert forall|i: int| 0 <= i < path@.len() implies up.contains_key(
                    #[trigger] path@[i],
                ) && (i + 1 < path@.len() ==> up[path@[i]] == Some(path@[i + 1])) by {
                    if i < before.len() {
                        assert(path@[i] == before[i]);
                        if i + 1 < before.len() {
                            assert(path@[i + 1] == before[i + 1]);
                        }
                    }
                }
                assert forall|x: NodeId|
                    #[trigger] done@.contains_key(x) && !done@[x] <==> path@.contains(x) by {
                    if x == id {
                        assert(path@[before.len() as int] == id);
                    } else if before.contains(x) {
                        let i = choose|i: int| 0 <= i < before.len() && before[i] == x;
                        assert(path@[i] == x);
                    }
                    if path@.contains(x) && x != id {
                        let i = choose|i: int| 0 <= i < path@.len() && path@[i] == x;
                        assert(before[i] == x);
                    }
                }
                vstd::std_specs::btree::axiom_btree_map_view_finite_dom(*nodes);
                assert(up.dom() =~= nodes@.dom());
                lemma_path_len(up, path@);
            }
        }
        proof {
            assert forall|i: int| 0 <= i < path@.len() implies rooted(up, #[trigger] path@[i]) by {
                lemma_climb_rooted(up, path@, i);
            }
            assert(path@.skip(0) =~= path@);
        }
        let mut t: usize = 0;
        while t < path.len()
            invariant
                up == up_of(nodes@),
                t <= path@.len(),
                forall|i: int| 0 <= i < path@.len() ==> rooted(up, #[trigger] path@[i]),
                forall|id: NodeId|
                    #[trigger] done@.contains_key(id) && done@[id] ==> rooted(up, id),
                forall|id: NodeId|
                    #[trigger] done@.contains_key(id) && !done@[id] ==> path@.skip(
                        t as int,
                    ).contains(id),
            decreases path@.len() - t,
        {
            let ghost pre = done@;
            done.insert(path[t], true);
            proof {
                assert forall|id: NodeId|
                    #[trigger] done@.contains_key(id) && !done@[id] implies path@.skip(
                    t + 1,
                ).contains(id) by {
                    assert(pre.contains_key(id));
                    let i = choose|i: int|
                        0 <= i < path@.skip(t as int).len() && path@.skip(t as int)[i] == id;
                    assert(path@[t + i] == id);
                    assert(i != 0);
                    assert(path@.skip(t + 1)[i - 1] == id);
                }
            }
            t += 1;
        }
        s += 1;
    }
    proof {
        assert forall|id: NodeId| #[trigger] up.contains_key(id) implies rooted(up, id) by {
            assert(keys@.contains(id));
            let i = choose|i: int| 0 <= i < keys@.len() && keys@[i] == id;
            assert(rooted(up, keys@[i]));
        }
    }
    Ok(())
}

/// Replays `entries` into the tree of a session without a name.
pub fn reduce(entries: Vec<SessionEntry>) -> (r: Result<SessionTree, SessionError>)
    ensures
        reduce_result(entries@, Seq::empty(), r),
{
    proof {
        reveal_strlit("");
    }
    assert(""@ =~= Seq::<char>::empty());
    reduce_for(entries, "")
}

/// Adds the nodes of `entries` one after the other, without children yet.
fn scan_entries(entries: Vec<SessionEntry>) -> (r: Result<
    (BTreeMap<NodeId, SessionNode>, Option<NodeId>),
    SessionError,
>)
    ensures
        match r {
            Err(SessionError::DuplicateNode(id)) => exists|i: int| #[trigger]
                first_bad(entries@, i) && duplicate_at(entries@, i) && id == entries@[i].id,
            Err(SessionError::MultipleRoots) => exists|i: int| #[trigger]
                first_bad(entries@, i) && !duplicate_at(entries@, i),
            Err(_) => false,
            Ok((nodes, root)) => {
                &&& scans(entries@)
                &&& scanned(entries@, nodes@, root)
            },
        },
{
    broadcast use vstd::std_specs::btree::group_btree_axioms;

    let mut nodes: BTreeMap<NodeId, SessionNode> = BTreeMap::new();
    let mut root: Option<NodeId> = None;
    let ghost es = entries@;
    let mut n: Ghost<int> = Ghost(0);
    for entry in it: entries
        invariant
            es == it.seq(),
            n@ == it.index(),
            0 <= n@ <= es.len(),
            forall|j: int| 0 <= j < n@ ==> !#[trigger] bad_at(es, j),
            scanned(es.take(n@), nodes@, root),
    {
        let ghost before = es.take(n@);
        let ghost after = es.take(n@ + 1);
        assert(after =~= before.push(es[n@]));
        assert(entry == es[n@]);
        assert forall|id: NodeId| has_id(after, id) <==> has_id(before, id) || id == entry.id by {
            if has_id(before, id) {
                let j = choose|j: int| 0 <= j < before.len() && (#[trigger] before[j]).id == id;
                assert(after[j].id == id);
            }
            if has_id(after, id) && id != entry.id {
                let j = choose|j: int| 0 <= j < after.len() && (#[trigger] after[j]).id == id;
                assert(before[j].id == id);
            }
            assert(after[n@].id == entry.id);
        }
        if nodes.contains_key(&entry.id) {
            proof {
                let j = choose|j: int|
                    0 <= j < before.len() && (#[trigger] before[j]).id == entry.id;
                assert(es[j].id == es[n@].id);
                assert(first_bad(es, n@));
            }
            return Err(SessionError::DuplicateNode(entry.id));
        }
        proof {
            if duplicate_at(es, n@) {
                let j = choose|j: int| 0 <= j < n@ && (#[trigger] es[j]).id == es[n@].id;
                assert(before[j].id == entry.id);
            }
        }
        if entry.parent_id.is_none() {
            if root.is_some() {
                proof {
                    let j = choose|j: int|
                        0 <= j < before.len() && (#[trigger] before[j]).id == root->0
                            && before[j].parent_id is None;
                    assert(es[j].parent_id is None);
                    assert(first_bad(es, n@));
                }
                return Err(SessionError::MultipleRoots);
            }
            root = Some(entry.id);
        }
        proof {
            if second_root_at(es, n@) {
                let j = choose|j: int| 0 <= j < n@ && (#[trigger] es[j]).parent_id is None;
                assert(before[j].parent_id is None);
            }
            assert forall|j: int| 0 <= j < n@ + 1 implies !#[trigger] bad_at(es, j) by {}
        }
        let ghost old_nodes = nodes@;
        let id = entry.id;
        let parent_id = entry.parent_id;
        nodes.insert(
            id,
            SessionNode { id, parent_id, message: entry.message, children: Vec::new() },
        );
        proof {
            assert forall|i: int| 0 <= i < after.len() implies {
                let e = #[trigger] after[i];
                let node = nodes@[e.id];
                &&& node.id == e.id
                &&& node.parent_id == e.parent_id
                &&& node.message == e.message
                &&& node.children@.len() == 0
            } by {
                if i < before.len() {
                    assert(after[i] == before[i]);
                    assert(before[i].id != id);
                }
            }
            if root is Some {
                if entry.parent_id is None {
                    assert(after[n@].id == root->0);
                } else {
                    let j = choose|j: int|
                        0 <= j < before.len() && (#[trigger] before[j]).id == root->0
                            && before[j].parent_id is None;
                    assert(after[j] == before[j]);
                }
            } else {
                assert forall|i: int| 0 <= i < after.len() implies (#[trigger] after[i]).parent_id
                    is Some by {
                    if i < before.len() {
                        assert(after[i] == before[i]);
                    }
                }
            }
            n@ = n@ + 1;
        }
    }
    assert(es.take(es.len() as int) =~= es);
    Ok((nodes, root))
}

/// What the nodes are after the entries were added and before the children are filled in.
spec fn scanned(
    entries: Seq<SessionEntry>,
    nodes: Map<NodeId, SessionNode>,
    root: Option<NodeId>,
) -> bool {
    &&& forall|id: NodeId| #[trigger] nodes.contains_key(id) <==> has_id(entries, id)
    &&& forall|i: int|
        0 <= i < entries.len() ==> {
            let e = #[trigger] entries[i];
            let node = nodes[e.id];
            &&& node.id == e.id
            &&& node.parent_id == e.parent_id
            &&& node.message == e.message
            &&& node.children@.len() == 0
        }
    &&& match root {
        Some(r) => exists|i: int|
            0 <= i < entries.len() && (#[trigger] entries[i]).id == r
                && entries[i].parent_id is None,
        None => forall|i: int|
            0 <= i < entries.len() ==> (#[trigger] entries[i]).parent_id is Some,
    }
}

/// Those of `ks` whose parent is `id`, in the order of `ks`.
spec fn kids(up: Map<NodeId, Option<NodeId>>, ks: Seq<NodeId>, id: NodeId) -> Seq<NodeId>
    decreases ks.len(),
{
    if ks.len() == 0 {
        Seq::empty()
    } else {
        let init = kids(up, ks.drop_last(), id);
        if up[ks.last()] == Some(id) {
            init.push(ks.last())
        } else {
            init
        }
    }
}

proof fn lemma_kids(up: Map<NodeId, Option<NodeId>>, ks: Seq<NodeId>, id: NodeId)
    requires
        collections::increasing(ks),
    ensures
        collections::increasing(kids(up, ks, id)),
        forall|c: NodeId| #[trigger]
            kids(up, ks, id).contains(c) <==> ks.contains(c) && up[c] == Some(id),
    decreases ks.len(),
{
    if ks.len() > 0 {
        let init = ks.drop_last();
        let last = ks.last();
        assert forall|i: int, j: int| 0 <= i < j < init.len() implies init[i] < init[j] by {
            assert(ks[i] < ks[j]);
        }
        lemma_kids(up, init, id);
        let old_kids = kids(up, init, id);
        let new_kids = kids(up, ks, id);
        assert forall|c: NodeId| init.contains(c) implies c < last && ks.contains(c) by {
            let i = choose|i: int| 0 <= i < init.len() && init[i] == c;
            assert(ks[i] < ks[ks.len() - 1]);
        }
        assert(ks.contains(last)) by {
            assert(ks[ks.len() - 1] == last);
        }
        assert forall|c: NodeId| ks.contains(c) && c != last implies init.contains(c) by {
            let i = choose|i: int| 0 <= i < ks.len() && ks[i] == c;
            assert(init[i] == c);
        }
        if up[last] == Some(id) {
            assert(new_kids == old_kids.push(last));
            assert forall|i: int, j: int| 0 <= i < j < new_kids.len() implies new_kids[i]
                < new_kids[j] by {
                if j == old_kids.len() {
                    assert(old_kids.contains(old_kids[i]));
                }
            }
            assert forall|c: NodeId| #[trigger]
                new_kids.contains(c) <==> ks.contains(c) && up[c] == Some(id) by {
                if old_kids.contains(c) {
                    let i = choose|i: int| 0 <= i < old_kids.len() && old_kids[i] == c;
                    assert(new_kids[i] == c);
                }
                assert(new_kids[old_kids.len() as int] == last);
                if new_kids.contains(c) && c != last {
                    let i = choose|i: int| 0 <= i < new_kids.len() && new_kids[i] == c;
                    assert(old_kids[i] == c);
                }
            }
        }
    }
}

/// Adds each node to the children of its parent, in increasing order of ids.
fn fill_children(nodes: &mut BTreeMap<NodeId, SessionNode>)
    requires
        forall|id: NodeId| #[trigger]
            old(nodes)@.contains_key(id) ==> old(nodes)@[id].children@.len() == 0,
        forall|id: NodeId|
            #![trigger old(nodes)@.contains_key(id)]
            old(nodes)@.contains_key(id) ==> (old(nodes)@[id].parent_id matches Some(p)
                ==> old(nodes)@.contains_key(p)),
    ensures
        final(nodes)@.dom() == old(nodes)@.dom(),
        forall|id: NodeId| #[trigger]
            final(nodes)@.contains_key(id) ==> {
                &&& final(nodes)@[id].id == old(nodes)@[id].id
                &&& final(nodes)@[id].parent_id == old(nodes)@[id].parent_id
                &&& final(nodes)@[id].message == old(nodes)@[id].message
                &&& children_are(up_of(old(nodes)@), id, final(nodes)@[id].children@)
            },
{
    broadcast use vstd::std_specs::btree::group_btree_axioms;

    let ghost base = nodes@;
    let ghost up = up_of(base);
    let keys = collections::sorted_keys(nodes);
    let mut t: usize = 0;
    while t < keys.len()
        invariant
            t <= keys@.len(),
            up == up_of(base),
            collections::increasing(keys@),
            forall|k: u64| keys@.contains(k) <==> base.contains_key(k),
            forall|id: NodeId|
                #![trigger base.contains_key(id)]
                base.contains_key(id) ==> (base[id].parent_id matches Some(p)
                    ==> base.contains_key(p)),
            nodes@.dom() == base.dom(),
            forall|id: NodeId| #[trigger]
                nodes@.contains_key(id) ==> {
                    &&& nodes@[id].id == base[id].id
                    &&& nodes@[id].parent_id == base[id].parent_id
                    &&& nodes@[id].message == base[id].message
                    &&& nodes@[id].children@ == kids(up, keys@.take(t as int), id)
                },
        decreases keys@.len() - t,
    {
        let child = keys[t];
        assert(keys@.contains(keys@[t as int]));
        let ghost before = keys@.take(t as int);
        let ghost after = keys@.take(t + 1);
        assert(after.drop_last() =~= before);
        assert(after.last() == child);
        assert(base.contains_key(child));
        let parent = match nodes.get(&child) {
            Some(node) => node.parent_id,
            None => None,
        };
        let ghost pre = nodes@;
        match parent {
            Some(p) => {
                assert(base.contains_key(p));
                match nodes.remove(&p) {
                    Some(node) => {
                        let mut children = node.children;
                        children.push(child);
                        nodes.insert(
                            p,
                            SessionNode {
                                id: node.id,
                                parent_id: node.parent_id,
                                message: node.message,
                                children,
                            },
                        );
                    },
                    None => {},
                }
            },
            None => {},
        }
        proof {
            assert(nodes@.dom() =~= base.dom());
            assert forall|id: NodeId| #[trigger] nodes@.contains_key(id) implies {
                &&& nodes@[id].id == base[id].id
                &&& nodes@[id].parent_id == base[id].parent_id
                &&& nodes@[id].message == base[id].message
                &&& nodes@[id].children@ == kids(up, after, id)
            } by {
                assert(pre.contains_key(id));
            }
        }
        t += 1;
    }
    proof {
        assert(keys@.take(keys@.len() as int) =~= keys@);
        assert forall|id: NodeId| #[trigger] nodes@.contains_key(id) implies children_are(
            up,
            id,
            nodes@[id].children@,
        ) by {
            lemma_kids(up, keys@, id);
            assert forall|c: NodeId| #[trigger]
                nodes@[id].children@.contains(c) <==> up.contains_key(c) && up[c] == Some(id) by {
                assert(keys@.contains(c) <==> base.contains_key(c));
            }
        }
    }
}

/// Replays `entries` into the tree of the session `session_id`. The checks come in this order:
/// ids are unique and there is one root at most, every parent is there, and no chain of parents
/// runs in a circle.
pub fn reduce_for(entries: Vec<SessionEntry>, session_id: &str) -> (r: Result<
    SessionTree,
    SessionError,
>)
    ensures
        reduce_result(entries@, session_id@, r),
{
    broadcast use vstd::std_specs::btree::group_btree_axioms;

    let ghost es = entries@;
    let (mut nodes, root) = match scan_entries(entries) {
        Ok(scanned) => scanned,
        Err(e) => {
            return Err(e);
        },
    };
    let ghost base = nodes@;
    proof {
        lemma_parents_at(es);
        lemma_scanned_up(es, base, root);
    }
    let keys = collections::sorted_keys(&nodes);
    let mut k: usize = 0;
    while k < keys.len()
        invariant
            k <= keys@.len(),
            es == entries@,
            scans(es),
            scanned(es, nodes@, root),
            nodes@ == base,
            collections::increasing(keys@),
            forall|x: u64| keys@.contains(x) <==> nodes@.contains_key(x),
            forall|i: int|
                0 <= i < k ==> (nodes@[#[trigger] keys@[i]].parent_id matches Some(p)
                    ==> nodes@.contains_key(p)),
        decreases keys@.len() - k,
    {
        let id = keys[k];
        assert(keys@.contains(keys@[k as int]));
        match nodes.get(&id) {
            Some(node) => {
                match node.parent_id {
                    Some(parent) => {
                        if !nodes.contains_key(&parent) {
                            proof {
                                assert(has_id(es, id));
                                let i = choose|i: int|
                                    0 <= i < es.len() && (#[trigger] es[i]).id == id;
                                assert(nodes@[es[i].id].parent_id == es[i].parent_id);
                                assert(orphan_at(es, i));
                                assert forall|j: int|
                                    0 <= j < es.len() && #[trigger] orphan_at(es, j) implies es[i].id
                                    <= es[j].id by {
                                    assert(has_id(es, es[j].id));
                                    assert(keys@.contains(es[j].id));
                                    let t = choose|t: int|
                                        0 <= t < keys@.len() && keys@[t] == es[j].id;
                                    if t < k {
                                        assert(nodes@[keys@[t]].parent_id == es[j].parent_id);
                                        assert(has_id(es, es[j].parent_id->0));
                                    }
                                    if k < t {
                                        assert(keys@[k as int] < keys@[t]);
                                    }
                                }
                                assert(first_orphan(es, i));
                            }
                            return Err(SessionError::ParentNotFound(parent));
                        }
                    },
                    None => {},
                }
            },
            None => {},
        }
        k += 1;
    }
    proof {
        assert forall|id: NodeId|
            #![trigger nodes@.contains_key(id)]
            nodes@.contains_key(id) implies (nodes@[id].parent_id matches Some(p)
            ==> nodes@.contains_key(p)) by {
            assert(keys@.contains(id));
            let t = choose|t: int| 0 <= t < keys@.len() && keys@[t] == id;
            assert(nodes@[keys@[t]].parent_id matches Some(p) ==> nodes@.contains_key(p));
        }
        assert forall|i: int| 0 <= i < es.len() implies !#[trigger] orphan_at(es, i) by {
            assert(has_id(es, es[i].id));
            assert(nodes@.contains_key(es[i].id));
        }
    }
    match check_acyclic(&nodes) {
        Ok(_) => {},
        Err(e) => {
            return Err(e);
        },
    }
    proof {
        assert forall|id: NodeId| #[trigger] nodes@.contains_key(id) implies nodes@[id].children@.len()
            == 0 by {
            let i = choose|i: int| 0 <= i < es.len() && (#[trigger] es[i]).id == id;
            assert(nodes@[es[i].id].children@.len() == 0);
        }
    }
    fill_children(&mut nodes);
    let tree = SessionTree { session_id: session_id.to_owned(), root, nodes };
    proof {
        assert forall|i: int| 0 <= i < es.len() implies {
            let e = #[trigger] es[i];
            let node = tree.nodes@[e.id];
            &&& node.id == e.id
            &&& node.parent_id == e.parent_id
            &&& node.message == e.message
            &&& children_are(parents(es), e.id, node.children@)
        } by {
            assert(has_id(es, es[i].id));
            assert(base.contains_key(es[i].id));
            assert(tree.nodes@.contains_key(es[i].id));
        }
        assert forall|id: NodeId| #[trigger] tree.nodes@.contains_key(id) <==> has_id(es, id) by {
            assert(base.contains_key(id) <==> has_id(es, id));
        }
    }
    Ok(tree)
}

proof fn lemma_scanned_up(
    entries: Seq<SessionEntry>,
    nodes: Map<NodeId, SessionNode>,
    root: Option<NodeId>,
)
    requires
        scans(entries),
        scanned(entries, nodes, root),
    ensures
        up_of(nodes) == parents(entries),
{
    lemma_parents_at(entries);
    assert forall|id: NodeId| up_of(nodes).contains_key(id) <==> parents(entries).contains_key(
        id,
    ) by {
        assert(nodes.contains_key(id) <==> has_id(entries, id));
    }
    assert forall|id: NodeId| up_of(nodes).contains_key(id) implies up_of(nodes)[id] == parents(
        entries,
    )[id] by {
        let i = choose|i: int| 0 <= i < entries.len() && (#[trigger] entries[i]).id == id;
        assert(nodes[entries[i].id].parent_id == entries[i].parent_id);
    }
    assert(up_of(nodes) =~= parents(entries));
}

/// Whether `ids` leads from a root down to `leaf`.
pub open spec fn is_lineage(
    nodes: Map<NodeId, SessionNode>,
    ids: Seq<NodeId>,
    leaf: NodeId,
) -> bool {
    &&& ids.len() > 0
    &&& ids.last() == leaf
    &&& forall|i: int| 0 <= i < ids.len() ==> nodes.contains_key(#[trigger] ids[i])
    &&& nodes[ids[0]].parent_id is None
    &&& forall|i: int|
        #![trigger ids[i]]
        0 < i < ids.len() ==> nodes[ids[i]].parent_id == Some(ids[i - 1])
}

/// Whether the chain of parents from `id` comes to a root or leaves the tree in at most `n` steps.
pub open spec fn stops_within(nodes: Map<NodeId, SessionNode>, id: NodeId, n: nat) -> bool
    decreases n,
{
    !nodes.contains_key(id) || match nodes[id].parent_id {
        None => true,
        Some(p) => n > 0 && stops_within(nodes, p, (n - 1) as nat),
    }
}

/// Whether each of `ids`, read from the back, is the parent of the one before it.
spec fn ascends(nodes: Map<NodeId, SessionNode>, rev: Seq<NodeId>) -> bool {
    &&& forall|i: int|
        #![trigger rev[i]]
        0 <= i < rev.len() - 1 ==> nodes.contains_key(rev[i]) && nodes[rev[i]].parent_id == Some(
            rev[i + 1],
        )
}

proof fn lemma_lineage_unique(
    nodes: Map<NodeId, SessionNode>,
    ids: Seq<NodeId>,
    rev: Seq<NodeId>,
    leaf: NodeId,
    j: int,
)
    requires
        is_lineage(nodes, ids, leaf),
        ascends(nodes, rev),
        0 <= j < rev.len(),
        rev[0] == leaf,
    ensures
        j < ids.len(),
        rev[j] == ids[ids.len() - 1 - j],
    decreases j,
{
    if j > 0 {
        lemma_lineage_unique(nodes, ids, rev, leaf, j - 1);
        assert(nodes[rev[j - 1]].parent_id == Some(rev[j]));
        if j == ids.len() {
            assert(nodes[ids[0]].parent_id is None);
        } else {
            assert(nodes[ids[ids.len() - j]].parent_id == Some(ids[ids.len() - j - 1]));
        }
    }
}

/// What an ascent leads to stops if its end does.
proof fn lemma_ascent_stops(nodes: Map<NodeId, SessionNode>, rev: Seq<NodeId>, j: int)
    requires
        ascends(nodes, rev),
        0 <= j < rev.len(),
        stops_within(nodes, rev.last(), 0),
    ensures
        exists|n: nat| stops_within(nodes, rev[j], n),
    decreases rev.len() - j,
{
    if j + 1 < rev.len() {
        lemma_ascent_stops(nodes, rev, j + 1);
        let next = rev[j + 1];
        let n = choose|n: nat| stops_within(nodes, next, n);
        assert(nodes[rev[j]].parent_id == Some(next));
        assert(stops_within(nodes, rev[j], n + 1));
    } else {
        assert(stops_within(nodes, rev[j], 0));
    }
}

/// An ascent that comes back to a node that it has passed never stops.
proof fn lemma_circle_runs_on(
    nodes: Map<NodeId, SessionNode>,
    rev: Seq<NodeId>,
    a: int,
    b: int,
    j: int,
    n: nat,
)
    requires
        ascends(nodes, rev),
        0 <= a < b < rev.len(),
        rev[a] == rev[b],
        0 <= j < b,
    ensures
        !stops_within(nodes, rev[j], n),
    decreases n,
{
    assert(nodes[rev[j]].parent_id == Some(rev[j + 1]));
    if n > 0 {
        if j + 1 < b {
            lemma_circle_runs_on(nodes, rev, a, b, j + 1, (n - 1) as nat);
        } else {
            lemma_circle_runs_on(nodes, rev, a, b, a, (n - 1) as nat);
        }
    }
}

/// An ascent over more nodes than there are never stops.
proof fn lemma_long_ascent_runs_on(
    nodes: Map<NodeId, SessionNode>,
    rev: Seq<NodeId>,
    keys: Seq<NodeId>,
)
    requires
        ascends(nodes, rev),
        rev.len() > keys.len() + 1,
        forall|k: NodeId| keys.contains(k) <==> nodes.contains_key(k),
    ensures
        !exists|n: nat| stops_within(nodes, rev[0], n),
{
    let path = rev.drop_last();
    if path.no_duplicates() {
        path.unique_seq_to_set();
        keys.lemma_cardinality_of_set();
        assert(path.to_set().subset_of(keys.to_set())) by {
            assert forall|x: NodeId| path.to_set().contains(x) implies keys.to_set().contains(
                x,
            ) by {
                let i = choose|i: int| 0 <= i < path.len() && path[i] == x;
                assert(nodes.contains_key(rev[i]));
                assert(keys.contains(rev[i]));
            }
        }
        vstd::set_lib::lemma_len_subset(path.to_set(), keys.to_set());
    }
    let (a, b) = choose|a: int, b: int|
        0 <= a < path.len() && 0 <= b < path.len() && a != b && path[a] == path[b];
    let (lo, hi) = if a < b {
        (a, b)
    } else {
        (b, a)
    };
    assert forall|n: nat| !stops_within(nodes, rev[0], n) by {
        lemma_circle_runs_on(nodes, rev, lo, hi, 0, n);
    }
}

impl SessionTree {
    /// Whether the node `id` is there and has no children.
    pub open spec fn is_leaf(self, id: NodeId) -> bool {
        self.nodes@.contains_key(id) && self.nodes@[id].children@.len() == 0
    }

    /// Whether `keys` are the leaves, in increasing order.
    pub open spec fn leaf_keys(self, keys: Seq<NodeId>) -> bool {
        &&& collections::increasing(keys)
        &&& forall|k: NodeId| #[trigger] keys.contains(k) <==> self.is_leaf(k)
    }

    /// The nodes without children: the heads of the branches, in the order of their keys.
    pub fn leaves(&self) -> (r: Vec<NodeId>)
        ensures
            exists|keys: Seq<NodeId>| #[trigger]
                self.leaf_keys(keys) && r@ == keys.map_values(|k: NodeId| self.nodes@[k].id),
    {
        broadcast use vstd::std_specs::btree::group_btree_axioms;

        let all = collections::sorted_keys(&self.nodes);
        let mut out: Vec<NodeId> = Vec::new();
        let ghost mut keys: Seq<NodeId> = Seq::empty();
        let mut i: usize = 0;
        while i < all.len()
            invariant
                i <= all@.len(),
                collections::increasing(all@),
                forall|k: u64| all@.contains(k) <==> self.nodes@.contains_key(k),
                collections::increasing(keys),
                forall|k: NodeId| #[trigger]
                    keys.contains(k) <==> self.is_leaf(k) && all@.take(i as int).contains(k),
                out@ == keys.map_values(|k: NodeId| self.nodes@[k].id),
            decreases all@.len() - i,
        {
            let key = all[i];
            let ghost old_keys = keys;
            assert(all@.contains(all@[i as int]));
            match self.nodes.get(&key) {
                Some(node) => {
                    if node.children.len() == 0 {
                        out.push(node.id);
                        proof {
                            keys = keys.push(key);
                        }
                    }
                },
                None => {},
            }
            proof {
                let before = all@.take(i as int);
                let after = all@.take(i + 1);
                assert forall|k: NodeId| #[trigger]
                    keys.contains(k) <==> self.is_leaf(k) && after.contains(k) by {
                    if before.contains(k) {
                        let j = choose|j: int| 0 <= j < before.len() && before[j] == k;
                        assert(after[j] == k);
                    }
                    assert(after[i as int] == key);
                    if after.contains(k) && k != key {
                        let j = choose|j: int| 0 <= j < after.len() && after[j] == k;
                        assert(before[j] == k);
                    }
                    if old_keys.contains(k) {
                        let j = choose|j: int| 0 <= j < old_keys.len() && old_keys[j] == k;
                        assert(keys[j] == k);
                    }
                    if keys.contains(k) && k != key {
                        let j = choose|j: int| 0 <= j < keys.len() && keys[j] == k;
                        assert(old_keys[j] == k);
                    }
                    if k == key && self.is_leaf(key) {
                        assert(keys[old_keys.len() as int] == key);
                    }
                    if k == key && keys.contains(k) && !self.is_leaf(key) {
                        assert(before.contains(key));
                        let j = choose|j: int| 0 <= j < before.len() && before[j] == key;
                        assert(all@[j] < all@[i as int]);
                    }
                }
                assert forall|a: int, b: int| 0 <= a < b < keys.len() implies keys[a] < keys[b] by {
                    if b == old_keys.len() {
                        assert(old_keys.contains(old_keys[a]));
                        let j = choose|j: int| 0 <= j < before.len() && before[j] == old_keys[a];
                        assert(all@[j] < all@[i as int]);
                    }
                }
                assert(out@ =~= keys.map_values(|k: NodeId| self.nodes@[k].id));
            }
            i += 1;
        }
        proof {
            assert(all@.take(all@.len() as int) =~= all@);
            assert(self.leaf_keys(keys));
        }
        out
    }

    /// Whether following parents from each leaf comes to an end.
    pub fn leaves_end(&self) -> (r: bool)
        ensures
            r == forall|id: NodeId| #[trigger]
                self.is_leaf(id) ==> exists|n: nat| stops_within(self.nodes@, id, n),
    {
        broadcast use vstd::std_specs::btree::group_btree_axioms;

        let keys = collections::sorted_keys(&self.nodes);
        let mut i: usize = 0;
        while i < keys.len()
            invariant
                i <= keys@.len(),
                forall|k: u64| keys@.contains(k) <==> self.nodes@.contains_key(k),
                forall|j: int|
                    0 <= j < i && self.is_leaf(#[trigger] keys@[j]) ==> exists|n: nat|
                        stops_within(self.nodes@, keys@[j], n),
            decreases keys@.len() - i,
        {
            let leaf = match self.nodes.get(&keys[i]) {
                Some(node) => node.children.len() == 0,
                None => false,
            };
            if leaf && !self.path_ends(keys[i], &keys) {
                assert(self.is_leaf(keys@[i as int]));
                return false;
            }
            i += 1;
        }
        proof {
            assert forall|id: NodeId| #[trigger] self.is_leaf(id) implies exists|n: nat|
                stops_within(self.nodes@, id, n) by {
                let j = choose|j: int| 0 <= j < keys@.len() && keys@[j] == id;
                assert(self.is_leaf(keys@[j]));
            }
        }
        true
    }

    /// Whether following parents from `start` comes to an end. A path of more nodes than there
    /// are goes round in a circle.
    fn path_ends(&self, start: NodeId, keys: &Vec<NodeId>) -> (r: bool)
        requires
            forall|k: u64| keys@.contains(k) <==> self.nodes@.contains_key(k),
        ensures
            r == exists|n: nat| stops_within(self.nodes@, start, n),
    {
        broadcast use vstd::std_specs::btree::group_btree_axioms;

        let ghost nodes = self.nodes@;
        let ghost mut path: Seq<NodeId> = Seq::empty();
        let mut at: NodeId = start;
        let mut left: usize = keys.len();
        loop
            invariant
                nodes == self.nodes@,
                forall|k: u64| keys@.contains(k) <==> nodes.contains_key(k),
                left + path.len() == keys@.len(),
                ascends(nodes, path.push(at)),
                path.push(at)[0] == start,
            decreases left,
        {
            let parent = match self.nodes.get(&at) {
                Some(node) => node.parent_id,
                None => None,
            };
            let up: NodeId = match parent {
                Some(p) => p,
                None => {
                    proof {
                        assert(stops_within(nodes, at, 0));
                        lemma_ascent_stops(nodes, path.push(at), 0);
                    }
                    return true;
                },
            };
            let ghost longer = path.push(at);
            assert(longer.push(up)[0] == longer[0]);
            assert(ascends(nodes, longer.push(up))) by {
                assert forall|i: int| #![trigger longer.push(up)[i]]
                    0 <= i < longer.push(up).len() - 1 implies nodes.contains_key(
                    longer.push(up)[i],
                ) && nodes[longer.push(up)[i]].parent_id == Some(longer.push(up)[i + 1]) by {
                    if i < longer.len() - 1 {
                        assert(nodes[longer[i]].parent_id == Some(longer[i + 1]));
                    }
                }
            }
            if left == 0 {
                proof {
                    lemma_long_ascent_runs_on(nodes, longer.push(up), keys@);
                }
                return false;
            }
            proof {
                path = longer;
            }
            at = up;
            left = left - 1;
        }
    }

    /// The messages from the root down to the leaf `leaf`; `None` if it is not a leaf of the
    /// tree, or if a parent on the way is missing.
    pub fn path_to(&self, leaf: NodeId) -> (r: Option<Vec<&Message>>)
        requires
            self.is_leaf(leaf) ==> exists|n: nat| stops_within(self.nodes@, leaf, n),
        ensures
            match r {
                Some(path) => self.is_leaf(leaf) && exists|ids: Seq<NodeId>|
                    {
                        &&& #[trigger] is_lineage(self.nodes@, ids, leaf)
                        &&& path@.len() == ids.len()
                        &&& forall|i: int|
                            0 <= i < ids.len() ==> *(#[trigger] path@[i])
                                == self.nodes@[ids[i]].message
                    },
                None => !self.is_leaf(leaf) || !exists|ids: Seq<NodeId>|
                    is_lineage(self.nodes@, ids, leaf),
            },
    {
        broadcast use vstd::std_specs::btree::group_btree_axioms;

        match self.nodes.get(&leaf) {
            None => {
                return None;
            },
            Some(node) => {
                if node.children.len() != 0 {
                    return None;
                }
            },
        }
        let ghost nodes = self.nodes@;
        let ghost mut fuel: nat = choose|n: nat| stops_within(nodes, leaf, n);
        let ghost mut rev: Seq<NodeId> = Seq::empty();
        let mut up: Vec<&Message> = Vec::new();
        let mut cursor: Option<NodeId> = Some(leaf);
        loop
            invariant_except_break
                cursor matches Some(id) ==> {
                    &&& stops_within(nodes, id, fuel)
                    &&& ascends(nodes, rev.push(id))
                    &&& rev.push(id)[0] == leaf
                },
                cursor is None ==> {
                    &&& rev.len() > 0
                    &&& ascends(nodes, rev)
                    &&& rev[0] == leaf
                    &&& nodes.contains_key(rev.last())
                    &&& nodes[rev.last()].parent_id is None
                },
            invariant
                nodes == self.nodes@,
                self.is_leaf(leaf),
                up@.len() == rev.len(),
                forall|i: int|
                    0 <= i < rev.len() ==> nodes.contains_key(rev[i]) && *(#[trigger] up@[i])
                        == nodes[rev[i]].message,
            ensures
                rev.len() > 0,
                ascends(nodes, rev),
                rev[0] == leaf,
                nodes.contains_key(rev.last()),
                nodes[rev.last()].parent_id is None,
            decreases fuel, (if cursor is Some { 1int } else { 0int }),
        {
            let id = match cursor {
                None => {
                    break;
                },
                Some(id) => id,
            };
            match self.nodes.get(&id) {
                None => {
                    proof {
                        if exists|ids: Seq<NodeId>| is_lineage(nodes, ids, leaf) {
                            let ids = choose|ids: Seq<NodeId>| is_lineage(nodes, ids, leaf);
                            lemma_lineage_unique(nodes, ids, rev.push(id), leaf, rev.len() as int);
                            assert(nodes.contains_key(ids[ids.len() - 1 - rev.len()]));
                        }
                    }
                    return None;
                },
                Some(node) => {
                    let ghost old_rev = rev;
                    up.push(&node.message);
                    cursor = node.parent_id;
                    proof {
                        rev = rev.push(id);
                        if nodes[id].parent_id is Some {
                            fuel = (fuel - 1) as nat;
                            let next = rev.push(nodes[id].parent_id->0);
                            assert forall|i: int|
                                #![trigger next[i]]
                                0 <= i < next.len() - 1 implies nodes.contains_key(next[i])
                                && nodes[next[i]].parent_id == Some(next[i + 1]) by {
                                if i < rev.len() - 1 {
                                    assert(next[i] == rev[i]);
                                    assert(next[i + 1] == rev[i + 1]);
                                }
                            }
                            assert(next[0] == rev[0]);
                        }
                    }
                },
            }
        }
        let mut path: Vec<&Message> = Vec::new();
        let mut k: usize = up.len();
        while k > 0
            invariant
                k <= up@.len(),
                path@.len() == up@.len() - k,
                forall|i: int|
                    0 <= i < path@.len() ==> #[trigger] path@[i] == up@[up@.len() - 1 - i],
            decreases k,
        {
            k -= 1;
            path.push(up[k]);
        }
        proof {
            let ids = rev.reverse();
            assert forall|i: int|
                #![trigger ids[i]]
                0 < i < ids.len() implies nodes[ids[i]].parent_id == Some(ids[i - 1]) by {
                assert(ids[i] == rev[rev.len() - 1 - i]);
                assert(ids[i - 1] == rev[rev.len() - i]);
            }
            assert forall|i: int| 0 <= i < ids.len() implies nodes.contains_key(
                #[trigger] ids[i],
            ) by {
                assert(*up@[rev.len() - 1 - i] == nodes[rev[rev.len() - 1 - i]].message);
            }
            assert(is_lineage(nodes, ids, leaf));
            assert forall|i: int| 0 <= i < ids.len() implies *(#[trigger] path@[i])
                == nodes[ids[i]].message by {
                assert(*up@[rev.len() - 1 - i] == nodes[rev[rev.len() - 1 - i]].message);
            }
        }
        Some(path)
    }
}

proof fn lemma_lineage_of(up: Map<NodeId, Option<NodeId>>, nodes: Map<NodeId, SessionNode>, id: NodeId, n: nat) -> (ids: Seq<NodeId>)
    requires
        up == up_of(nodes),
        ends_within(up, id, n),
    ensures
        is_lineage(nodes, ids, id),
        stops_within(nodes, id, n),
    decreases n,
{
    match nodes[id].parent_id {
        None => {
            let ids = seq![id];
            assert(is_lineage(nodes, ids, id));
            ids
        },
        Some(p) => {
            let above = lemma_lineage_of(up, nodes, p, (n - 1) as nat);
            let ids = above.push(id);
            assert forall|i: int|
                #![trigger ids[i]]
                0 < i < ids.len() implies nodes[ids[i]].parent_id == Some(ids[i - 1]) by {
                if i < above.len() {
                    assert(ids[i] == above[i]);
                    assert(ids[i - 1] == above[i - 1]);
                }
            }
            assert forall|i: int| 0 <= i < ids.len() implies nodes.contains_key(
                #[trigger] ids[i],
            ) by {
                if i < above.len() {
                    assert(nodes.contains_key(above[i]));
                }
            }
            assert(ids[0] == above[0]);
            assert(is_lineage(nodes, ids, id));
            ids
        },
    }
}

proof fn lemma_tree_up(tree: SessionTree, entries: Seq<SessionEntry>)
    requires
        scans(entries),
        tree.is_tree_of(entries),
    ensures
        up_of(tree.nodes@) == parents(entries),
{
    lemma_parents_at(entries);
    let nodes = tree.nodes@;
    assert forall|id: NodeId| up_of(nodes).contains_key(id) <==> parents(entries).contains_key(
        id,
    ) by {
        assert(nodes.contains_key(id) <==> has_id(entries, id));
    }
    assert forall|id: NodeId| up_of(nodes).contains_key(id) implies up_of(nodes)[id] == parents(
        entries,
    )[id] by {
        let i = choose|i: int| 0 <= i < entries.len() && (#[trigger] entries[i]).id == id;
        assert(nodes[entries[i].id].parent_id == entries[i].parent_id);
    }
    assert(up_of(nodes) =~= parents(entries));
}

/// In a tree that was replayed every node can be reached from the one root: there is a line of
/// nodes from the root down to it, and following parents from it stops.
pub proof fn law_every_node_descends_from_the_root(
    tree: SessionTree,
    entries: Seq<SessionEntry>,
    id: NodeId,
)
    requires
        forms_tree(entries),
        tree.is_tree_of(entries),
        tree.nodes@.contains_key(id),
    ensures
        exists|ids: Seq<NodeId>| #[trigger]
            is_lineage(tree.nodes@, ids, id) && tree.root == Some(ids[0]),
        exists|n: nat| stops_within(tree.nodes@, id, n),
{
    let nodes = tree.nodes@;
    let up = up_of(nodes);
    lemma_tree_up(tree, entries);
    assert(up.contains_key(id));
    let n = choose|n: nat| ends_within(up, id, n);
    let ids = lemma_lineage_of(up, nodes, id, n);
    let top = ids[0];
    assert(nodes.contains_key(top));
    let i = choose|i: int| 0 <= i < entries.len() && (#[trigger] entries[i]).id == top;
    assert(nodes[entries[i].id].parent_id == entries[i].parent_id);
    assert(entries[i].parent_id is None);
    match tree.root {
        None => {},
        Some(r) => {
            let j = choose|j: int|
                0 <= j < entries.len() && (#[trigger] entries[j]).id == r
                    && entries[j].parent_id is None;
            if i < j {
                assert(second_root_at(entries, j));
                assert(bad_at(entries, j));
            } else if j < i {
                assert(second_root_at(entries, i));
                assert(bad_at(entries, i));
            }
        },
    }
    assert(is_lineage(nodes, ids, id) && tree.root == Some(ids[0]));
}

/// Where the ids grow from parent to child, the node with the largest id is a leaf.
pub proof fn law_largest_node_is_a_leaf(
    tree: SessionTree,
    entries: Seq<SessionEntry>,
    id: NodeId,
)
    requires
        forms_tree(entries),
        tree.is_tree_of(entries),
        forall|i: int|
            0 <= i < entries.len() ==> ((#[trigger] entries[i]).parent_id matches Some(p) ==> p
                < entries[i].id),
        tree.nodes@.contains_key(id),
        forall|other: NodeId| #[trigger] tree.nodes@.contains_key(other) ==> other <= id,
    ensures
        tree.is_leaf(id),
{
    lemma_parents_at(entries);
    let i = choose|i: int| 0 <= i < entries.len() && (#[trigger] entries[i]).id == id;
    let children = tree.nodes@[id].children@;
    assert(children_are(parents(entries), entries[i].id, children));
    if children.len() > 0 {
        let c = children[0];
        assert(children.contains(c));
        assert(parents(entries).contains_key(c));
        let k = choose|k: int| 0 <= k < entries.len() && (#[trigger] entries[k]).id == c;
        assert(parents(entries)[entries[k].id] == entries[k].parent_id);
        assert(tree.nodes@.contains_key(c));
    }
}

/// Entries that make up a tree do so in any other order too, and each node has the same parent.
pub proof fn law_reordered_entries_form_a_tree(a: Seq<SessionEntry>, b: Seq<SessionEntry>)
    requires
        a.len() == b.len(),
        a.to_set() == b.to_set(),
        forms_tree(a),
    ensures
        forms_tree(b),
        parents(a) == parents(b),
{
    lemma_scans_of_same_set(a, b);
    lemma_parents_at(a);
    lemma_parents_at(b);
    lemma_same_ids(a, b);
    assert forall|i: int| 0 <= i < b.len() implies !#[trigger] orphan_at(b, i) by {
        let j = lemma_index_in(a, b, i);
        assert(!orphan_at(a, j));
        if b[i].parent_id is Some {
            assert(has_id(a, b[i].parent_id->0) <==> has_id(b, b[i].parent_id->0));
        }
    }
    assert forall|id: NodeId| parents(a).contains_key(id) implies parents(a)[id] == parents(
        b,
    )[id] by {
        assert(has_id(b, id));
        let i = choose|i: int| 0 <= i < b.len() && (#[trigger] b[i]).id == id;
        let j = lemma_index_in(a, b, i);
        assert(parents(a)[a[j].id] == a[j].parent_id);
        assert(parents(b)[b[i].id] == b[i].parent_id);
    }
    assert forall|id: NodeId| parents(a).contains_key(id) <==> parents(b).contains_key(id) by {
        assert(has_id(a, id) <==> has_id(b, id));
    }
    assert(parents(a) =~= parents(b));
}

/// The order of the entries does not matter: entries in another order make up a tree too, and
/// the two trees have the same root and the same nodes, each with the same parent, message and
/// children.
pub proof fn law_order_of_entries_is_irrelevant(
    a: Seq<SessionEntry>,
    b: Seq<SessionEntry>,
    ta: SessionTree,
    tb: SessionTree,
)
    requires
        forms_tree(a),
        a.len() == b.len(),
        a.to_set() == b.to_set(),
        ta.is_tree_of(a),
        tb.is_tree_of(b),
    ensures
        forms_tree(b),
        ta.root == tb.root,
        ta.nodes@.dom() == tb.nodes@.dom(),
        forall|id: NodeId| #[trigger]
            ta.nodes@.contains_key(id) ==> {
                &&& ta.nodes@[id].parent_id == tb.nodes@[id].parent_id
                &&& ta.nodes@[id].message == tb.nodes@[id].message
                &&& ta.nodes@[id].children@ == tb.nodes@[id].children@
            },
{
    law_reordered_entries_form_a_tree(a, b);
    lemma_same_ids(a, b);
    assert forall|id: NodeId| ta.nodes@.dom().contains(id) <==> tb.nodes@.dom().contains(id) by {
        assert(ta.nodes@.contains_key(id) <==> has_id(a, id));
        assert(tb.nodes@.contains_key(id) <==> has_id(b, id));
        assert(has_id(a, id) <==> has_id(b, id));
    }
    assert(ta.nodes@.dom() =~= tb.nodes@.dom());
    assert forall|id: NodeId| #[trigger] ta.nodes@.contains_key(id) implies {
        &&& ta.nodes@[id].parent_id == tb.nodes@[id].parent_id
        &&& ta.nodes@[id].message == tb.nodes@[id].message
        &&& ta.nodes@[id].children@ == tb.nodes@[id].children@
    } by {
        assert(has_id(b, id));
        let i = choose|i: int| 0 <= i < b.len() && (#[trigger] b[i]).id == id;
        let j = lemma_index_in(a, b, i);
        assert(a[j].id == id && b[i].id == id);
        lemma_children_unique(parents(a), id, ta.nodes@[id].children@, tb.nodes@[id].children@);
    }
    match (ta.root, tb.root) {
        (Some(ra), Some(rb)) => {
            let i = choose|i: int|
                0 <= i < b.len() && (#[trigger] b[i]).id == rb && b[i].parent_id is None;
            let j = lemma_index_in(a, b, i);
            let k = choose|k: int|
                0 <= k < a.len() && (#[trigger] a[k]).id == ra && a[k].parent_id is None;
            if j < k {
                assert(second_root_at(a, k));
                assert(bad_at(a, k));
            } else if k < j {
                assert(second_root_at(a, j));
                assert(bad_at(a, j));
            }
        },
        (Some(ra), None) => {
            let k = choose|k: int|
                0 <= k < a.len() && (#[trigger] a[k]).id == ra && a[k].parent_id is None;
            let i = lemma_index_in(b, a, k);
        },
        (None, Some(rb)) => {
            let i = choose|i: int|
                0 <= i < b.len() && (#[trigger] b[i]).id == rb && b[i].parent_id is None;
            let j = lemma_index_in(a, b, i);
        },
        (None, None) => {},
    }
}

proof fn lemma_index_in(a: Seq<SessionEntry>, b: Seq<SessionEntry>, i: int) -> (j: int)
    requires
        a.to_set() == b.to_set(),
        0 <= i < b.len(),
    ensures
        0 <= j < a.len(),
        a[j] == b[i],
{
    assert(b.to_set().contains(b[i]));
    assert(a.to_set().contains(b[i]));
    choose|j: int| 0 <= j < a.len() && a[j] == b[i]
}

proof fn lemma_same_ids(a: Seq<SessionEntry>, b: Seq<SessionEntry>)
    requires
        a.to_set() == b.to_set(),
    ensures
        forall|id: NodeId| #[trigger] has_id(a, id) <==> has_id(b, id),
{
    assert forall|id: NodeId| #[trigger] has_id(a, id) <==> has_id(b, id) by {
        if has_id(a, id) {
            let i = choose|i: int| 0 <= i < a.len() && (#[trigger] a[i]).id == id;
            let j = lemma_index_in(b, a, i);
            assert(b[j].id == id);
        }
        if has_id(b, id) {
            let i = choose|i: int| 0 <= i < b.len() && (#[trigger] b[i]).id == id;
            let j = lemma_index_in(a, b, i);
            assert(a[j].id == id);
        }
    }
}

proof fn lemma_scans_of_same_set(a: Seq<SessionEntry>, b: Seq<SessionEntry>)
    requires
        scans(a),
        a.len() == b.len(),
        a.to_set() == b.to_set(),
    ensures
        scans(b),
{
    assert forall|i: int, j: int| 0 <= i < a.len() && 0 <= j < a.len() && i != j implies a[i]
        != a[j] by {
        if i < j {
            assert(!bad_at(a, j));
            assert(a[i].id != a[j].id);
        } else {
            assert(!bad_at(a, i));
            assert(a[j].id != a[i].id);
        }
    }
    a.unique_seq_to_set();
    vstd::seq_lib::seq_to_set_is_finite(b);
    assert(b.to_set().len() == b.len());
    b.lemma_no_dup_set_cardinality();
    assert forall|i: int| 0 <= i < b.len() implies !#[trigger] bad_at(b, i) by {
        let i2 = lemma_index_in(a, b, i);
        if duplicate_at(b, i) {
            let j = choose|j: int| 0 <= j < i && (#[trigger] b[j]).id == b[i].id;
            let j2 = lemma_index_in(a, b, j);
            assert(b[j] != b[i]);
            if j2 < i2 {
                assert(a[j2].id == a[i2].id);
                assert(bad_at(a, i2));
            } else {
                assert(a[i2].id == a[j2].id);
                assert(bad_at(a, j2));
            }
        }
        if second_root_at(b, i) {
            let j = choose|j: int| 0 <= j < i && (#[trigger] b[j]).parent_id is None;
            let j2 = lemma_index_in(a, b, j);
            assert(b[j] != b[i]);
            if j2 < i2 {
                assert(a[j2].parent_id is None);
                assert(bad_at(a, i2));
            } else {
                assert(a[i2].parent_id is None);
                assert(bad_at(a, j2));
            }
        }
    }
}

proof fn lemma_children_unique(
    up: Map<NodeId, Option<NodeId>>,
    id: NodeId,
    a: Seq<NodeId>,
    b: Seq<NodeId>,
)
    requires
        children_are(up, id, a),
        children_are(up, id, b),
    ensures
        a == b,
{
    assert forall|c: NodeId| a.contains(c) <==> b.contains(c) by {}
    collections::lemma_increasing_unique(a, b);
}

/// In entries that make up a tree no two have the same id, there is one root and no other, every
/// parent is there, and no entry is its own parent.
pub proof fn law_trees_are_sound(entries: Seq<SessionEntry>)
    requires
        forms_tree(entries),
    ensures
        forall|i: int, j: int|
            0 <= i < j < entries.len() ==> (#[trigger] entries[i]).id != (#[trigger] entries[j]).id,
        forall|i: int, j: int|
            0 <= i < j < entries.len() ==> (#[trigger] entries[i]).parent_id is Some || (
            #[trigger] entries[j]).parent_id is Some,
        entries.len() > 0 ==> exists|i: int|
            0 <= i < entries.len() && (#[trigger] entries[i]).parent_id is None,
        forall|i: int|
            0 <= i < entries.len() ==> ((#[trigger] entries[i]).parent_id matches Some(p)
                ==> exists|j: int| 0 <= j < entries.len() && j != i && (#[trigger] entries[j]).id
                == p),
{
    assert forall|i: int, j: int| 0 <= i < j < entries.len() implies (#[trigger] entries[i]).id != (
    #[trigger] entries[j]).id && (entries[i].parent_id is Some || entries[j].parent_id
        is Some) by {
        assert(!bad_at(entries, j));
        assert(!duplicate_at(entries, j));
    }
    lemma_parents_at(entries);
    let up = parents(entries);
    if entries.len() > 0 {
        let id = entries[0].id;
        assert(has_id(entries, id));
        assert(up.contains_key(id));
        let n = choose|n: nat| ends_within(up, id, n);
        lemma_root_above(entries, id, n);
    }
    assert forall|i: int| 0 <= i < entries.len() implies ((
    #[trigger] entries[i]).parent_id matches Some(p) ==> exists|j: int|
        0 <= j < entries.len() && j != i && (#[trigger] entries[j]).id == p) by {
        if let Some(p) = entries[i].parent_id {
            assert(!orphan_at(entries, i));
            let j = choose|j: int| 0 <= j < entries.len() && (#[trigger] entries[j]).id == p;
            if j == i {
                assert(up[p] == Some(p));
                assert(up.contains_key(p));
                let n = choose|n: nat| ends_within(up, p, n);
                lemma_circle_not_rooted(up, seq![p], 0, 0, n);
            }
        }
    }
}

proof fn lemma_root_above(entries: Seq<SessionEntry>, id: NodeId, n: nat)
    requires
        scans(entries),
        ends_within(parents(entries), id, n),
    ensures
        exists|i: int| 0 <= i < entries.len() && (#[trigger] entries[i]).parent_id is None,
    decreases n,
{
    lemma_parents_at(entries);
    let up = parents(entries);
    assert(up.contains_key(id));
    let i = choose|i: int| 0 <= i < entries.len() && (#[trigger] entries[i]).id == id;
    assert(up[entries[i].id] == entries[i].parent_id);
    match entries[i].parent_id {
        None => {},
        Some(p) => lemma_root_above(entries, p, (n - 1) as nat),
    }
}

/// Entries that were written one after the other make up a tree: the first one as the root, each of
/// the others below one that came before it, and no id twice.
pub proof fn law_orderly_entries_form_a_tree(entries: Seq<SessionEntry>)
    requires
        forall|i: int, j: int|
            0 <= i < j < entries.len() ==> (#[trigger] entries[i]).id != (#[trigger] entries[j]).id,
        entries.len() > 0 ==> entries[0].parent_id is None,
        forall|i: int| 0 < i < entries.len() ==> below_an_earlier(entries, i),
    ensures
        forms_tree(entries),
{
    assert forall|i: int| 0 <= i < entries.len() implies !#[trigger] bad_at(entries, i) by {
        if i > 0 {
            assert(below_an_earlier(entries, i));
        }
    }
    assert forall|i: int| 0 <= i < entries.len() implies !#[trigger] orphan_at(entries, i) by {
        if i > 0 {
            assert(below_an_earlier(entries, i));
        }
    }
    lemma_parents_at(entries);
    let up = parents(entries);
    assert forall|id: NodeId| #[trigger] up.contains_key(id) implies rooted(up, id) by {
        assert(has_id(entries, id));
        let i = choose|i: int| 0 <= i < entries.len() && (#[trigger] entries[i]).id == id;
        lemma_orderly_is_rooted(entries, i);
    }
}

/// Whether entry `i` hangs below one that came before it.
pub open spec fn below_an_earlier(entries: Seq<SessionEntry>, i: int) -> bool {
    entries[i].parent_id matches Some(p) && exists|j: int|
        0 <= j < i && (#[trigger] entries[j]).id == p
}

proof fn lemma_orderly_is_rooted(entries: Seq<SessionEntry>, i: int)
    requires
        scans(entries),
        entries.len() > 0 ==> entries[0].parent_id is None,
        forall|i: int| 0 < i < entries.len() ==> below_an_earlier(entries, i),
        0 <= i < entries.len(),
    ensures
        rooted(parents(entries), entries[i].id),
    decreases i,
{
    lemma_parents_at(entries);
    let up = parents(entries);
    let id = entries[i].id;
    assert(has_id(entries, id));
    assert(up.contains_key(id));
    assert(up[id] == entries[i].parent_id);
    if i == 0 {
        assert(ends_within(up, id, 0));
    } else {
        assert(below_an_earlier(entries, i));
        let p = entries[i].parent_id->0;
        let j = choose|j: int| 0 <= j < i && (#[trigger] entries[j]).id == p;
        lemma_orderly_is_rooted(entries, j);
        lemma_rooted_step(up, id, p);
    }
}

/// A tree that was replayed holds every entry, with its message below its parent, and nothing else;
/// its root is the entry without a parent; a node is a child of its parent and of no other node; and
/// the leaves are the nodes below which nothing was written.
pub proof fn law_tree_holds_every_entry(tree: SessionTree, entries: Seq<SessionEntry>)
    requires
        forms_tree(entries),
        tree.is_tree_of(entries),
    ensures
        forall|i: int|
            0 <= i < entries.len() ==> tree.nodes@.contains_key((#[trigger] entries[i]).id)
                && tree.nodes@[entries[i].id].message == entries[i].message
                && tree.nodes@[entries[i].id].parent_id == entries[i].parent_id,
        forall|id: NodeId| #[trigger]
            tree.nodes@.contains_key(id) ==> exists|i: int|
                0 <= i < entries.len() && (#[trigger] entries[i]).id == id,
        forall|i: int|
            0 <= i < entries.len() && (#[trigger] entries[i]).parent_id is None ==> tree.root
                == Some(entries[i].id),
        forall|i: int, j: int|
            0 <= i < entries.len() && 0 <= j < entries.len() ==> (
            tree.nodes@[(#[trigger] entries[i]).id].children@.contains((#[trigger] entries[j]).id)
                <==> entries[j].parent_id == Some(entries[i].id)),
        forall|i: int|
            0 <= i < entries.len() ==> (tree.is_leaf((#[trigger] entries[i]).id) <==> forall|j: int|
                0 <= j < entries.len() ==> (#[trigger] entries[j]).parent_id != Some(
                    entries[i].id,
                )),
{
    let nodes = tree.nodes@;
    law_trees_are_sound(entries);
    lemma_parents_at(entries);
    let up = parents(entries);
    assert forall|i: int| 0 <= i < entries.len() implies nodes.contains_key(
        (#[trigger] entries[i]).id,
    ) by {
        assert(has_id(entries, entries[i].id));
    }
    assert forall|id: NodeId| #[trigger] nodes.contains_key(id) implies exists|i: int|
        0 <= i < entries.len() && (#[trigger] entries[i]).id == id by {
        assert(has_id(entries, id));
    }
    assert forall|i: int, j: int| 0 <= i < entries.len() && 0 <= j < entries.len() implies (
    nodes[(#[trigger] entries[i]).id].children@.contains((#[trigger] entries[j]).id)
        <==> entries[j].parent_id == Some(entries[i].id)) by {
        assert(children_are(up, entries[i].id, nodes[entries[i].id].children@));
        assert(has_id(entries, entries[j].id));
        assert(up[entries[j].id] == entries[j].parent_id);
    }
    assert forall|i: int| 0 <= i < entries.len() implies (tree.is_leaf((#[trigger] entries[i]).id)
        <==> forall|j: int|
        0 <= j < entries.len() ==> (#[trigger] entries[j]).parent_id != Some(entries[i].id)) by {
        let children = nodes[entries[i].id].children@;
        assert(children_are(up, entries[i].id, children));
        if children.len() > 0 {
            let c = children[0];
            assert(children.contains(c));
            assert(up.contains_key(c));
            let j = choose|j: int| 0 <= j < entries.len() && (#[trigger] entries[j]).id == c;
            assert(up[entries[j].id] == entries[j].parent_id);
            assert(entries[j].parent_id == Some(entries[i].id));
        } else {
            assert forall|j: int| 0 <= j < entries.len() implies (#[trigger] entries[j]).parent_id
                != Some(entries[i].id) by {
                assert(nodes[entries[i].id].children@.contains(entries[j].id) <==> entries[j].parent_id
                    == Some(entries[i].id));
            }
        }
    }
    match tree.root {
        None => {
            assert forall|i: int|
                0 <= i < entries.len() && (#[trigger] entries[i]).parent_id is None implies tree.root
                == Some(entries[i].id) by {}
        },
        Some(r) => {
            let k = choose|k: int|
                0 <= k < entries.len() && (#[trigger] entries[k]).id == r
                    && entries[k].parent_id is None;
            assert forall|i: int|
                0 <= i < entries.len() && (#[trigger] entries[i]).parent_id is None implies tree.root
                == Some(entries[i].id) by {
                if i < k {
                    assert(entries[i].parent_id is Some || entries[k].parent_id is Some);
                } else if k < i {
                    assert(entries[k].parent_id is Some || entries[i].parent_id is Some);
                }
            }
        },
    }
}

/// There is one way from the root down to a node: it begins at the root, each node on it is the
/// child of the one before it, it ends at the node, and no node comes twice.
pub proof fn law_lineage_is_the_one_way_down(
    tree: SessionTree,
    entries: Seq<SessionEntry>,
    a: Seq<NodeId>,
    b: Seq<NodeId>,
    id: NodeId,
)
    requires
        forms_tree(entries),
        tree.is_tree_of(entries),
        is_lineage(tree.nodes@, a, id),
        is_lineage(tree.nodes@, b, id),
    ensures
        a == b,
        a.len() > 0,
        tree.root == Some(a[0]),
        a.last() == id,
        forall|i: int|
            #![trigger a[i]]
            0 < i < a.len() ==> tree.nodes@[a[i]].parent_id == Some(a[i - 1]),
        a.no_duplicates(),
{
    let nodes = tree.nodes@;
    let rev_a = a.reverse();
    let rev_b = b.reverse();
    assert(ascends(nodes, rev_a)) by {
        assert forall|i: int|
            #![trigger rev_a[i]]
            0 <= i < rev_a.len() - 1 implies nodes.contains_key(rev_a[i])
            && nodes[rev_a[i]].parent_id == Some(rev_a[i + 1]) by {
            assert(rev_a[i] == a[a.len() - 1 - i]);
        }
    }
    assert(ascends(nodes, rev_b)) by {
        assert forall|i: int|
            #![trigger rev_b[i]]
            0 <= i < rev_b.len() - 1 implies nodes.contains_key(rev_b[i])
            && nodes[rev_b[i]].parent_id == Some(rev_b[i + 1]) by {
            assert(rev_b[i] == b[b.len() - 1 - i]);
        }
    }
    lemma_lineage_unique(nodes, a, rev_b, id, rev_b.len() - 1);
    lemma_lineage_unique(nodes, b, rev_a, id, rev_a.len() - 1);
    assert forall|i: int| 0 <= i < a.len() implies a[i] == b[i] by {
        lemma_lineage_unique(nodes, a, rev_b, id, a.len() - 1 - i);
        assert(rev_b[a.len() - 1 - i] == b[i]);
    }
    assert(a =~= b);
    law_every_node_descends_from_the_root(tree, entries, id);
    let ids = choose|ids: Seq<NodeId>| #[trigger]
        is_lineage(nodes, ids, id) && tree.root == Some(ids[0]);
    let rev = ids.reverse();
    assert(ascends(nodes, rev)) by {
        assert forall|i: int|
            #![trigger rev[i]]
            0 <= i < rev.len() - 1 implies nodes.contains_key(rev[i]) && nodes[rev[i]].parent_id
            == Some(rev[i + 1]) by {
            assert(rev[i] == ids[ids.len() - 1 - i]);
        }
    }
    lemma_lineage_unique(nodes, a, rev, id, rev.len() - 1);
    lemma_lineage_unique(nodes, ids, rev_a, id, rev_a.len() - 1);
    assert(rev_a[rev_a.len() - 1] == a[0]);
    let n = choose|n: nat| stops_within(nodes, id, n);
    assert forall|i: int, j: int| 0 <= i < j < a.len() implies a[i] != a[j] by {
        if a[i] == a[j] {
            let x = a.len() - 1 - j;
            let y = a.len() - 1 - i;
            assert(rev_a[x] == a[j] && rev_a[y] == a[i]);
            assert(rev_a[0] == id);
            lemma_circle_runs_on(nodes, rev_a, x, y, 0, n);
        }
    }
}

/// A tree that is not empty has a leaf: somewhere nothing was written below.
pub proof fn law_some_node_is_a_leaf(tree: SessionTree, entries: Seq<SessionEntry>)
    requires
        forms_tree(entries),
        tree.is_tree_of(entries),
        entries.len() > 0,
    ensures
        exists|i: int| 0 <= i < entries.len() && tree.is_leaf((#[trigger] entries[i]).id),
{
    let nodes = tree.nodes@;
    if forall|i: int| 0 <= i < entries.len() ==> !tree.is_leaf((#[trigger] entries[i]).id) {
        assert forall|id: NodeId| #[trigger] nodes.contains_key(id) implies exists|c: NodeId| #[trigger]
            nodes.contains_key(c) && nodes[c].parent_id == Some(id) by {
            lemma_below(tree, entries, id);
        }
        let first = entries[0].id;
        assert(nodes.contains_key(first)) by {
            assert(has_id(entries, first));
        }
        law_every_node_descends_from_the_root(tree, entries, first);
        let line = choose|ids: Seq<NodeId>| #[trigger]
            is_lineage(nodes, ids, first) && tree.root == Some(ids[0]);
        let ids = lemma_line_goes_on(nodes, line, first, entries.len() + 1);
        lemma_line_is_short(tree, entries, ids);
    }
}

proof fn lemma_below(tree: SessionTree, entries: Seq<SessionEntry>, id: NodeId)
    requires
        forms_tree(entries),
        tree.is_tree_of(entries),
        tree.nodes@.contains_key(id),
        !tree.is_leaf(id),
    ensures
        exists|c: NodeId| #[trigger]
            tree.nodes@.contains_key(c) && tree.nodes@[c].parent_id == Some(id),
{
    law_tree_holds_every_entry(tree, entries);
    let i = choose|i: int| 0 <= i < entries.len() && (#[trigger] entries[i]).id == id;
    assert(!tree.is_leaf(entries[i].id));
    let j = choose|j: int|
        0 <= j < entries.len() && (#[trigger] entries[j]).parent_id == Some(entries[i].id);
    assert(tree.nodes@.contains_key(entries[j].id));
}

proof fn lemma_line_is_short(tree: SessionTree, entries: Seq<SessionEntry>, ids: Seq<NodeId>)
    requires
        forms_tree(entries),
        tree.is_tree_of(entries),
        is_lineage(tree.nodes@, ids, ids.last()),
    ensures
        ids.len() <= entries.len(),
{
    let all = entries.map_values(|e: SessionEntry| e.id);
    law_lineage_is_the_one_way_down(tree, entries, ids, ids, ids.last());
    assert forall|x: NodeId| ids.to_set().contains(x) implies all.to_set().contains(x) by {
        let k = choose|k: int| 0 <= k < ids.len() && ids[k] == x;
        assert(tree.nodes@.contains_key(ids[k]));
        assert(has_id(entries, x));
        let j = choose|j: int| 0 <= j < entries.len() && (#[trigger] entries[j]).id == x;
        assert(all[j] == x);
    }
    ids.unique_seq_to_set();
    all.lemma_cardinality_of_set();
    vstd::seq_lib::seq_to_set_is_finite(all);
    vstd::set_lib::lemma_len_subset(ids.to_set(), all.to_set());
}

proof fn lemma_line_goes_on(
    nodes: Map<NodeId, SessionNode>,
    line: Seq<NodeId>,
    id: NodeId,
    n: nat,
) -> (ids: Seq<NodeId>)
    requires
        is_lineage(nodes, line, id),
        forall|id: NodeId| #[trigger]
            nodes.contains_key(id) ==> exists|c: NodeId| #[trigger]
                nodes.contains_key(c) && nodes[c].parent_id == Some(id),
    ensures
        ids.len() >= n,
        is_lineage(nodes, ids, ids.last()),
    decreases n - line.len(),
{
    if line.len() >= n {
        line
    } else {
        let last = line[line.len() - 1];
        assert(nodes.contains_key(last));
        let c = choose|c: NodeId| #[trigger]
            nodes.contains_key(c) && nodes[c].parent_id == Some(last);
        let more = line.push(c);
        assert forall|k: int| 0 <= k < more.len() implies nodes.contains_key(#[trigger] more[k]) by {
            if k < line.len() {
                assert(more[k] == line[k]);
            }
        }
        assert forall|k: int| #![trigger more[k]] 0 < k < more.len() implies nodes[more[k]].parent_id
            == Some(more[k - 1]) by {
            if k < line.len() {
                assert(more[k] == line[k]);
                assert(more[k - 1] == line[k - 1]);
            }
        }
        assert(more[0] == line[0]);
        assert(is_lineage(nodes, more, c));
        lemma_line_goes_on(nodes, more, c, n)
    }
}

/// The text of an error tells what it is about.
pub proof fn law_error_tells_its_cause(e: SessionError)
    ensures
        e matches SessionError::Io(s) ==> text::occurs(s@, e.text()),
        e matches SessionError::Serde(s) ==> text::occurs(s@, e.text()),
        e matches SessionError::DuplicateNode(id) ==> text::occurs(
            text::decimal(id as nat),
            e.text(),
        ),
        e matches SessionError::ParentNotFound(id) ==> text::occurs(
            text::decimal(id as nat),
            e.text(),
        ),
{
    match e {
        SessionError::Io(s) => text::lemma_ends_with("io error: "@, s@),
        SessionError::Serde(s) => text::lemma_ends_with("serialize error: "@, s@),
        SessionError::DuplicateNode(id) => {
            text::lemma_ends_with("duplicate node id: "@, text::decimal(id as nat));
        },
        SessionError::ParentNotFound(id) => {
            text::lemma_ends_with("parent node not found: "@, text::decimal(id as nat));
        },
        _ => {},
    }
}

/// All leaves of a tree are found, in the order of their ids, and nothing else.
pub proof fn law_every_leaf_is_found(
    tree: SessionTree,
    entries: Seq<SessionEntry>,
    r: Vec<NodeId>,
    i: int,
)
    requires
        forms_tree(entries),
        tree.is_tree_of(entries),
        call_ensures(SessionTree::leaves, (&tree,), r),
        0 <= i < entries.len(),
    ensures
        r@.contains(entries[i].id) <==> forall|j: int|
            0 <= j < entries.len() ==> (#[trigger] entries[j]).parent_id != Some(entries[i].id),
        forall|a: int, b: int| 0 <= a < b < r@.len() ==> #[trigger] r@[a] < #[trigger] r@[b],
{
    let keys = choose|keys: Seq<NodeId>| #[trigger]
        tree.leaf_keys(keys) && r@ == keys.map_values(|k: NodeId| tree.nodes@[k].id);
    assert forall|a: int| 0 <= a < keys.len() implies #[trigger] r@[a] == keys[a] by {
        assert(keys.contains(keys[a]));
        assert(tree.nodes@.contains_key(keys[a]));
        assert(has_id(entries, keys[a]));
        let k = choose|k: int| 0 <= k < entries.len() && (#[trigger] entries[k]).id == keys[a];
        assert(tree.nodes@[entries[k].id].id == entries[k].id);
    }
    assert(r@ =~= keys);
    law_tree_holds_every_entry(tree, entries);
    assert(keys.contains(entries[i].id) <==> tree.is_leaf(entries[i].id));
}

/// What was said up to a leaf begins at the root and ends at the leaf, and is told for every leaf and
/// for nothing else.
pub proof fn law_path_leads_from_the_root_to_the_leaf(
    tree: SessionTree,
    entries: Seq<SessionEntry>,
    leaf: NodeId,
    r: Option<Vec<&Message>>,
)
    requires
        forms_tree(entries),
        tree.is_tree_of(entries),
        call_ensures(SessionTree::path_to, (&tree, leaf), r),
    ensures
        r is Some <==> tree.is_leaf(leaf),
        r matches Some(path) ==> {
            &&& path@.len() > 0
            &&& *path@[path@.len() - 1] == tree.nodes@[leaf].message
            &&& tree.root is Some
            &&& *path@[0] == tree.nodes@[tree.root->0].message
        },
{
    if tree.is_leaf(leaf) {
        law_every_node_descends_from_the_root(tree, entries, leaf);
    }
    if let Some(path) = r {
        let ids = choose|ids: Seq<NodeId>|
            {
                &&& #[trigger] is_lineage(tree.nodes@, ids, leaf)
                &&& path@.len() == ids.len()
                &&& forall|i: int|
                    0 <= i < ids.len() ==> *(#[trigger] path@[i]) == tree.nodes@[ids[i]].message
            };
        law_lineage_is_the_one_way_down(tree, entries, ids, ids, leaf);
        assert(*path@[0] == tree.nodes@[ids[0]].message);
        assert(*path@[ids.len() - 1] == tree.nodes@[ids[ids.len() - 1]].message);
    }
}

/// The children of a node are in the order of their ids.
pub proof fn law_children_are_in_order(tree: SessionTree, entries: Seq<SessionEntry>, i: int)
    requires
        forms_tree(entries),
        tree.is_tree_of(entries),
        0 <= i < entries.len(),
    ensures
        ({
            let children = tree.nodes@[entries[i].id].children@;
            forall|a: int, b: int|
                0 <= a < b < children.len() ==> #[trigger] children[a] < #[trigger] children[b]
        }),
{
    assert(tree.nodes@[entries[i].id].id == entries[i].id);
}

/// What is told of a log that is no tree is its first fault: the first entry, in the order of the log,
/// whose id is taken or that is a second root; and, where there is none, the missing parent of the
/// entry with the smallest id. Only where there is nothing of that kind a circle is told.
pub proof fn law_first_fault_is_told(
    entries: Seq<SessionEntry>,
    session_id: Seq<char>,
    r: Result<SessionTree, SessionError>,
    b: int,
)
    requires
        reduce_result(entries, session_id, r),
        0 <= b < entries.len(),
        forall|i: int, j: int|
            0 <= i < j < b ==> (#[trigger] entries[i]).id != (#[trigger] entries[j]).id && (
            entries[i].parent_id is Some || entries[j].parent_id is Some),
    ensures
        (exists|i: int| 0 <= i < b && (#[trigger] entries[i]).id == entries[b].id) ==> r == Err::<
            SessionTree,
            SessionError,
        >(SessionError::DuplicateNode(entries[b].id)),
        (forall|i: int| 0 <= i < b ==> (#[trigger] entries[i]).id != entries[b].id)
            && entries[b].parent_id is None && (exists|i: int|
            0 <= i < b && (#[trigger] entries[i]).parent_id is None) ==> r == Err::<
            SessionTree,
            SessionError,
        >(SessionError::MultipleRoots),
        r matches Err(SessionError::ParentNotFound(p)) ==> exists|i: int|
            0 <= i < entries.len() && (#[trigger] entries[i]).parent_id == Some(p) && !has_id(
                entries,
                p,
            ) && forall|j: int|
                0 <= j < entries.len() && (#[trigger] entries[j]).id < entries[i].id ==> (
                entries[j].parent_id matches Some(q) ==> has_id(entries, q)),
        r matches Err(SessionError::Cycle) ==> forall|j: int|
            0 <= j < entries.len() ==> ((#[trigger] entries[j]).parent_id matches Some(q)
                ==> has_id(entries, q)),
{
    assert forall|j: int| 0 <= j < b implies !#[trigger] bad_at(entries, j) by {
        if duplicate_at(entries, j) {
            let i = choose|i: int| 0 <= i < j && (#[trigger] entries[i]).id == entries[j].id;
            assert(entries[i].id != entries[j].id);
        }
        if second_root_at(entries, j) {
            let i = choose|i: int| 0 <= i < j && (#[trigger] entries[i]).parent_id is None;
            assert(entries[i].parent_id is Some || entries[j].parent_id is Some);
        }
    }
    if bad_at(entries, b) {
        assert(first_bad(entries, b));
        assert forall|c: int| #[trigger] first_bad(entries, c) implies c == b by {
            if c < b {
                assert(bad_at(entries, c));
            }
            if b < c {
                assert(bad_at(entries, b));
            }
        }
        assert(!scans(entries));
    }
    match r {
        Err(SessionError::ParentNotFound(p)) => {
            let i = choose|i: int| #[trigger]
                first_orphan(entries, i) && entries[i].parent_id == Some(p);
            assert(orphan_at(entries, i));
            assert forall|j: int|
                0 <= j < entries.len() && (#[trigger] entries[j]).id < entries[i].id implies (
            entries[j].parent_id matches Some(q) ==> has_id(entries, q)) by {
                assert(!orphan_at(entries, j));
            }
            assert(entries[i].parent_id == Some(p) && !has_id(entries, p));
        },
        Err(SessionError::Cycle) => {
            assert forall|j: int| 0 <= j < entries.len() implies ((
            #[trigger] entries[j]).parent_id matches Some(q) ==> has_id(entries, q)) by {
                assert(!orphan_at(entries, j));
            }
        },
        _ => {},
    }
}

/// Entries whose parents run in a circle are not loaded.
pub proof fn law_circles_are_refused(
    entries: Seq<SessionEntry>,
    session_id: Seq<char>,
    r: Result<SessionTree, SessionError>,
    circle: Seq<int>,
)
    requires
        reduce_result(entries, session_id, r),
        circle.len() > 0,
        forall|k: int|
            #![trigger circle[k]]
            0 <= k < circle.len() ==> 0 <= circle[k] < entries.len() && (0 < k
                ==> entries[circle[k]].parent_id == Some(entries[circle[k - 1]].id)),
        entries[circle[0]].parent_id == Some(entries[circle[circle.len() - 1]].id),
    ensures
        r is Err,
{
    if r is Ok {
        lemma_parents_at(entries);
        let up = parents(entries);
        let n = circle.len() as int;
        let path = Seq::new(circle.len(), |k: int| entries[circle[n - 1 - k]].id);
        assert(climbs(up, path)) by {
            assert forall|k: int| 0 <= k < path.len() implies up.contains_key(#[trigger] path[k])
                && (k + 1 < path.len() ==> up[path[k]] == Some(path[k + 1])) by {
                let e = entries[circle[n - 1 - k]];
                assert(has_id(entries, e.id));
                assert(up[e.id] == e.parent_id);
                if k + 1 < path.len() {
                    assert(path[k + 1] == entries[circle[n - 1 - (k + 1)]].id);
                }
            }
        }
        assert(up[path.last()] == Some(path[0])) by {
            let e = entries[circle[0]];
            assert(up[e.id] == e.parent_id);
        }
        assert(up.contains_key(path[0]));
        assert(rooted(up, path[0]));
        let m = choose|m: nat| ends_within(up, path[0], m);
        lemma_circle_not_rooted(up, path, 0, 0, m);
    }
}

} // verus!
