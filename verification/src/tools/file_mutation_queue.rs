//! The locks of files within a process: one for each path. Locks that nobody uses are dropped
//! once there are many.
use vstd::prelude::*;
use vstd::string::*;

use crate::file_lock::FileLockError;
use crate::text;

verus! {

/// With so many locks, those that nobody uses are dropped before another one is added.
pub const PRUNE_THRESHOLD: usize = 1024;

/// Why a file cannot be written to.
#[derive(Debug, PartialEq)]
pub enum FileMutationError {
    /// The lock between processes could not be had.
    FileLock(FileLockError),
}

impl FileMutationError {
    /// The text of the error.
    pub open spec fn text(self) -> Seq<char> {
        match self {
            FileMutationError::FileLock(e) => "cross-process file lock failed: "@ + e.text(),
        }
    }

    /// The text of the error.
    pub fn message(&self) -> (r: String)
        ensures
            r@ == self.text(),
    {
        match self {
            FileMutationError::FileLock(e) => "cross-process file lock failed: ".to_owned().concat(
                e.message().as_str(),
            ),
        }
    }
}

/// A path and its lock.
#[derive(Debug)]
pub struct LockEntry<L> {
    pub path: String,
    pub lock: L,
}

/// The locks, one for each path.
#[derive(Debug)]
pub struct FileMutationQueue<L> {
    pub entries: Vec<LockEntry<L>>,
    /// Whether a lock between processes is taken too.
    pub file_lock_enabled: bool,
}

/// The number of owners of a lock when the table alone holds it.
pub const UNUSED: usize = 1;

/// The locks that are in use, in order; `owners` holds the number of owners of each.
pub open spec fn in_use<L>(entries: Seq<LockEntry<L>>, owners: Seq<usize>) -> Seq<LockEntry<L>>
    decreases entries.len(),
{
    if entries.len() == 0 || owners.len() != entries.len() {
        Seq::empty()
    } else {
        let init = in_use(entries.drop_last(), owners.drop_last());
        if owners.last() > UNUSED {
            init.push(entries.last())
        } else {
            init
        }
    }
}

/// The locks that stay when a lock is asked for: with many locks those that are in use, otherwise
/// all of them.
pub open spec fn kept_for<L>(entries: Seq<LockEntry<L>>, owners: Seq<usize>) -> Seq<LockEntry<L>> {
    if entries.len() >= PRUNE_THRESHOLD {
        in_use(entries, owners)
    } else {
        entries
    }
}

/// Whether asking for the lock of `path` makes `after` of `entries` and gives the lock at `r`: the
/// one that is there, or `fresh` behind all others.
pub open spec fn asked_for<L>(
    entries: Seq<LockEntry<L>>,
    path: Seq<char>,
    fresh: L,
    owners: Seq<usize>,
    after: Seq<LockEntry<L>>,
    r: int,
) -> bool {
    let kept = kept_for(entries, owners);
    &&& 0 <= r < after.len()
    &&& after[r].path@ == path
    &&& if has_path(kept, path) {
        after == kept
    } else {
        &&& after.len() == kept.len() + 1
        &&& after.drop_last() == kept
        &&& r == kept.len()
        &&& after[r].lock == fresh
    }
}

impl<L> Default for FileMutationQueue<L> {
    fn default() -> (r: Self)
        ensures
            r.wf(),
            r.entries@.len() == 0,
            !r.file_lock_enabled,
    {
        FileMutationQueue::new()
    }
}

impl<L> FileMutationQueue<L> {
    /// No path has two locks.
    pub open spec fn wf(self) -> bool {
        distinct(self.entries@)
    }

    /// No locks; files are protected within the process only.
    pub fn new() -> (r: Self)
        ensures
            r.wf(),
            r.entries@.len() == 0,
            !r.file_lock_enabled,
    {
        FileMutationQueue { entries: Vec::new(), file_lock_enabled: false }
    }

    /// No locks; files are protected against other processes too.
    pub fn with_file_lock() -> (r: Self)
        ensures
            r.wf(),
            r.entries@.len() == 0,
            r.file_lock_enabled,
    {
        FileMutationQueue { entries: Vec::new(), file_lock_enabled: true }
    }

    /// The number of locks.
    pub fn len(&self) -> (r: usize)
        ensures
            r == self.entries@.len(),
    {
        self.entries.len()
    }

    /// Whether there are no locks.
    pub fn is_empty(&self) -> (r: bool)
        ensures
            r == (self.entries@.len() == 0),
    {
        self.entries.len() == 0
    }

    /// Whether the file may be written once its lock is held. `file` tells how taking the lock
    /// between processes went, `None` where it is not taken: without it the file may always be
    /// written, and where it could not be had the file is not written.
    pub fn enter<G>(file: Option<Result<G, FileLockError>>) -> (r: Result<
        Option<G>,
        FileMutationError,
    >)
        ensures
            r == (match file {
                None => Ok(None),
                Some(Ok(guard)) => Ok(Some(guard)),
                Some(Err(e)) => Err(FileMutationError::FileLock(e)),
            }),
    {
        match file {
            None => Ok(None),
            Some(Ok(guard)) => Ok(Some(guard)),
            Some(Err(e)) => Err(FileMutationError::FileLock(e)),
        }
    }

    /// Drops the locks that the table alone holds; `owners` holds the number of owners of each
    /// lock.
    pub fn prune(&mut self, owners: &[usize])
        requires
            old(self).wf(),
            owners@.len() == old(self).entries@.len(),
        ensures
            final(self).wf(),
            final(self).file_lock_enabled == old(self).file_lock_enabled,
            final(self).entries@ == in_use(old(self).entries@, owners@),
    {
        let mut kept: Vec<LockEntry<L>> = Vec::new();
        let mut all: Vec<LockEntry<L>> = Vec::new();
        core::mem::swap(&mut all, &mut self.entries);
        let ghost es = all@;
        let mut i: usize = 0;
        for entry in it: all
            invariant
                es == it.seq(),
                i == it.index(),
                0 <= i <= es.len(),
                owners@.len() == es.len(),
                distinct(es),
                kept@ == in_use(es.take(i as int), owners@.take(i as int)),
        {
            proof {
                assert(es.take(i + 1).drop_last() =~= es.take(i as int));
                assert(owners@.take(i + 1).drop_last() =~= owners@.take(i as int));
                assert(es.take(i + 1).last() == entry);
            }
            if owners[i] > UNUSED {
                kept.push(entry);
            }
            i += 1;
        }
        proof {
            assert(es.take(es.len() as int) =~= es);
            assert(owners@.take(es.len() as int) =~= owners@);
            lemma_in_use(es, owners@);
        }
        self.entries = kept;
    }

    /// Where the lock of `path` is. If there is none yet, `fresh` becomes its lock; if there are
    /// many locks, those that are not in use are dropped before that.
    pub fn lock_for(&mut self, path: &str, fresh: L, owners: &[usize]) -> (r: usize)
        requires
            old(self).wf(),
            owners@.len() == old(self).entries@.len(),
        ensures
            final(self).wf(),
            final(self).file_lock_enabled == old(self).file_lock_enabled,
            asked_for(
                old(self).entries@,
                path@,
                fresh,
                owners@,
                final(self).entries@,
                r as int,
            ),
    {
        if self.entries.len() >= PRUNE_THRESHOLD {
            self.prune(owners);
        }
        let ghost kept = self.entries@;
        let mut i: usize = 0;
        while i < self.entries.len()
            invariant
                i <= self.entries@.len(),
                kept == self.entries@,
                self.wf(),
                self.file_lock_enabled == old(self).file_lock_enabled,
                kept == kept_for(old(self).entries@, owners@),
                forall|j: int| 0 <= j < i ==> (#[trigger] self.entries@[j]).path@ != path@,
            decreases self.entries@.len() - i,
        {
            if text::str_eq(self.entries[i].path.as_str(), path) {
                assert(has_path(kept, path@));
                return i;
            }
            i += 1;
        }
        let at: usize = self.entries.len();
        self.entries.push(LockEntry { path: path.to_owned(), lock: fresh });
        proof {
            assert(self.entries@.drop_last() =~= kept);
            assert forall|a: int, b: int| 0 <= a < b < self.entries@.len() implies (
            #[trigger] self.entries@[a]).path@ != (#[trigger] self.entries@[b]).path@ by {
                if b < kept.len() {
                    assert(kept[a].path@ != kept[b].path@);
                } else {
                    assert(kept[a].path@ != path@);
                }
            }
        }
        at
    }
}

/// Whether no two locks have the same path.
pub open spec fn distinct<L>(entries: Seq<LockEntry<L>>) -> bool {
    forall|i: int, j: int|
        0 <= i < j < entries.len() ==> (#[trigger] entries[i]).path@ != (
        #[trigger] entries[j]).path@
}

/// Whether there is a lock for `path`.
pub open spec fn has_path<L>(entries: Seq<LockEntry<L>>, path: Seq<char>) -> bool {
    exists|i: int| 0 <= i < entries.len() && (#[trigger] entries[i]).path@ == path
}

proof fn lemma_in_use<L>(entries: Seq<LockEntry<L>>, owners: Seq<usize>)
    requires
        distinct(entries),
        owners.len() == entries.len(),
    ensures
        distinct(in_use(entries, owners)),
        forall|k: int|
            0 <= k < in_use(entries, owners).len() ==> exists|i: int|
                0 <= i < entries.len() && (#[trigger] entries[i]) == (#[trigger] in_use(
                    entries,
                    owners,
                )[k]) && owners[i] > UNUSED,
    decreases entries.len(),
{
    if entries.len() > 0 {
        let e0 = entries.drop_last();
        let o0 = owners.drop_last();
        assert forall|i: int, j: int| 0 <= i < j < e0.len() implies (#[trigger] e0[i]).path@ != (
        #[trigger] e0[j]).path@ by {
            assert(entries[i].path@ != entries[j].path@);
        }
        lemma_in_use(e0, o0);
        let k0 = in_use(e0, o0);
        let k1 = in_use(entries, owners);
        assert forall|k: int| 0 <= k < k1.len() implies exists|i: int|
            0 <= i < entries.len() && (#[trigger] entries[i]) == (#[trigger] k1[k]) && owners[i]
                > UNUSED by {
            if k < k0.len() {
                assert(k1[k] == k0[k]);
                let i = choose|i: int|
                    0 <= i < e0.len() && (#[trigger] e0[i]) == k0[k] && o0[i] > UNUSED;
                assert(entries[i] == k1[k] && owners[i] > UNUSED);
            } else {
                assert(entries[entries.len() - 1] == k1[k]);
            }
        }
        assert forall|a: int, b: int| 0 <= a < b < k1.len() implies (#[trigger] k1[a]).path@ != (
        #[trigger] k1[b]).path@ by {
            if b < k0.len() {
                assert(k0[a].path@ != k0[b].path@);
            } else {
                let i = choose|i: int|
                    0 <= i < e0.len() && (#[trigger] e0[i]) == k0[a] && o0[i] > UNUSED;
                assert(entries[i].path@ != entries[entries.len() - 1].path@);
            }
        }
    }
}

/// A lock that someone uses is never dropped, and whoever asks for its path later comes to the same
/// lock.
pub proof fn law_locks_in_use_are_kept<L>(
    entries: Seq<LockEntry<L>>,
    owners: Seq<usize>,
    i: int,
    fresh: L,
    after: Seq<LockEntry<L>>,
    r: int,
)
    requires
        distinct(entries),
        owners.len() == entries.len(),
        0 <= i < entries.len(),
        owners[i] > UNUSED,
        asked_for(entries, entries[i].path@, fresh, owners, after, r),
    ensures
        in_use(entries, owners).contains(entries[i]),
        after[r] == entries[i],
{
    lemma_used_is_kept(entries, owners, i);
    lemma_in_use(entries, owners);
    let kept = kept_for(entries, owners);
    assert(kept.contains(entries[i])) by {
        assert(entries.contains(entries[i]));
    }
    let k = choose|k: int| 0 <= k < kept.len() && kept[k] == entries[i];
    assert(has_path(kept, entries[i].path@));
    assert(kept[k].path@ == kept[r].path@);
}

proof fn lemma_used_is_kept<L>(entries: Seq<LockEntry<L>>, owners: Seq<usize>, i: int)
    requires
        owners.len() == entries.len(),
        0 <= i < entries.len(),
        owners[i] > UNUSED,
    ensures
        in_use(entries, owners).contains(entries[i]),
    decreases entries.len(),
{
    let kept = in_use(entries, owners);
    if i == entries.len() - 1 {
        assert(kept[kept.len() - 1] == entries[i]);
    } else {
        let e0 = entries.drop_last();
        lemma_used_is_kept(e0, owners.drop_last(), i);
        let k0 = in_use(e0, owners.drop_last());
        let k = choose|k: int| 0 <= k < k0.len() && k0[k] == entries[i];
        assert(kept[k] == entries[i]);
    }
}

/// The places of the locks that are in use, in order.
pub open spec fn used_places(owners: Seq<usize>) -> Seq<int>
    decreases owners.len(),
{
    if owners.len() == 0 {
        Seq::empty()
    } else if owners.last() > UNUSED {
        used_places(owners.drop_last()).push(owners.len() - 1)
    } else {
        used_places(owners.drop_last())
    }
}

/// Pruning drops what is not in use, and nothing else: what stays are the locks that are in use,
/// each once, in the order in which they were.
pub proof fn law_pruning_drops_unused_only<L>(entries: Seq<LockEntry<L>>, owners: Seq<usize>)
    requires
        owners.len() == entries.len(),
    ensures
        in_use(entries, owners) == used_places(owners).map_values(|i: int| entries[i]),
        forall|i: int|
            #[trigger] used_places(owners).contains(i) <==> 0 <= i < owners.len() && owners[i]
                > UNUSED,
        forall|a: int, b: int|
            0 <= a < b < used_places(owners).len() ==> (#[trigger] used_places(owners)[a]) < (
            #[trigger] used_places(owners)[b]),
    decreases entries.len(),
{
    let places = used_places(owners);
    if entries.len() > 0 {
        let e0 = entries.drop_last();
        let o0 = owners.drop_last();
        let p0 = used_places(o0);
        let n = owners.len() - 1;
        law_pruning_drops_unused_only(e0, o0);
        assert forall|k: int| 0 <= k < p0.len() implies 0 <= (#[trigger] p0[k]) < n by {
            assert(p0.contains(p0[k]));
        }
        assert(places.map_values(|i: int| entries[i]) =~= in_use(entries, owners)) by {
            assert forall|k: int| 0 <= k < p0.len() implies entries[#[trigger] p0[k]]
                == e0[p0[k]] by {}
            assert(in_use(e0, o0).len() == p0.len());
            assert forall|k: int| 0 <= k < places.len() implies entries[#[trigger] places[k]]
                == in_use(entries, owners)[k] by {
                if k < p0.len() {
                    assert(places[k] == p0[k]);
                    assert(in_use(e0, o0)[k] == e0[p0[k]]);
                }
            }
        }
        assert forall|i: int|
            #[trigger] places.contains(i) <==> 0 <= i < owners.len() && owners[i] > UNUSED by {
            if places.contains(i) {
                let k = choose|k: int| 0 <= k < places.len() && places[k] == i;
                if k < p0.len() {
                    assert(p0.contains(i));
                    assert(o0[i] == owners[i]);
                }
            } else if 0 <= i < n && owners[i] > UNUSED {
                assert(o0[i] == owners[i]);
                assert(p0.contains(i));
                let k = choose|k: int| 0 <= k < p0.len() && p0[k] == i;
                assert(places[k] == i);
            } else if i == n && owners[i] > UNUSED {
                assert(places[p0.len() as int] == n);
            }
        }
    } else {
        assert(places.map_values(|i: int| entries[i]) =~= in_use(entries, owners));
    }
}

/// Someone who has asked for the lock of a path and waits for it, or holds it.
pub struct LockUser<L> {
    pub path: Seq<char>,
    pub lock: L,
    pub holds: bool,
}

/// The locks and those who use them, at one moment.
pub struct QueueState<L> {
    pub entries: Seq<LockEntry<L>>,
    pub users: Seq<LockUser<L>>,
}

/// Whether every lock that someone uses is counted as in use.
pub open spec fn counted<L>(s: QueueState<L>, owners: Seq<usize>) -> bool {
    &&& owners.len() == s.entries.len()
    &&& forall|i: int, k: int|
        0 <= i < s.entries.len() && 0 <= k < s.users.len() && (#[trigger] s.entries[i]).lock == (
        #[trigger] s.users[k]).lock ==> owners[i] > UNUSED
}

/// Whether `lock` is none of the locks that are known.
pub open spec fn is_new<L>(s: QueueState<L>, lock: L) -> bool {
    &&& forall|i: int| 0 <= i < s.entries.len() ==> (#[trigger] s.entries[i]).lock != lock
    &&& forall|k: int| 0 <= k < s.users.len() ==> (#[trigger] s.users[k]).lock != lock
}

/// Someone asks for the lock of `path`, and waits for it from then on.
pub open spec fn asks<L>(
    s: QueueState<L>,
    t: QueueState<L>,
    path: Seq<char>,
    fresh: L,
    owners: Seq<usize>,
    r: int,
) -> bool {
    &&& counted(s, owners)
    &&& is_new(s, fresh)
    &&& asked_for(s.entries, path, fresh, owners, t.entries, r)
    &&& t.users == s.users.push(LockUser { path, lock: t.entries[r].lock, holds: false })
}

/// The locks that are not in use are dropped.
pub open spec fn prunes<L>(s: QueueState<L>, t: QueueState<L>, owners: Seq<usize>) -> bool {
    &&& counted(s, owners)
    &&& t.entries == in_use(s.entries, owners)
    &&& t.users == s.users
}

/// Whether nobody else holds the lock that user `k` waits for. A lock can be had where that is so.
pub open spec fn is_free<L>(s: QueueState<L>, k: int) -> bool {
    &&& 0 <= k < s.users.len()
    &&& forall|j: int|
        0 <= j < s.users.len() && j != k && (#[trigger] s.users[j]).lock == s.users[k].lock
            ==> !s.users[j].holds
}

/// User `k` gets the lock.
pub open spec fn gets<L>(s: QueueState<L>, t: QueueState<L>, k: int) -> bool {
    &&& is_free(s, k)
    &&& t.entries == s.entries
    &&& t.users == s.users.update(k, LockUser { holds: true, ..s.users[k] })
}

/// User `k` gives the lock back, or does not wait any longer.
pub open spec fn goes<L>(s: QueueState<L>, t: QueueState<L>, k: int) -> bool {
    &&& 0 <= k < s.users.len()
    &&& t.entries == s.entries
    &&& t.users == s.users.remove(k)
}

/// Whether `t` can come after `s`.
pub open spec fn moves<L>(s: QueueState<L>, t: QueueState<L>) -> bool {
    ||| exists|path: Seq<char>, fresh: L, owners: Seq<usize>, r: int| #[trigger]
        asks(s, t, path, fresh, owners, r)
    ||| exists|owners: Seq<usize>| #[trigger] prunes(s, t, owners)
    ||| exists|k: int| #[trigger] gets(s, t, k)
    ||| exists|k: int| #[trigger] goes(s, t, k)
}

/// What holds at every moment: the lock of a path is in the table as long as someone uses it, no
/// two paths share a lock, and a lock is held by one user at most.
pub open spec fn in_order<L>(s: QueueState<L>) -> bool {
    &&& distinct(s.entries)
    &&& forall|i: int, j: int|
        0 <= i < j < s.entries.len() ==> (#[trigger] s.entries[i]).lock != (
        #[trigger] s.entries[j]).lock
    &&& forall|k: int| 0 <= k < s.users.len() ==> tied(s.entries, #[trigger] s.users[k])
    &&& forall|j: int, k: int|
        0 <= j < k < s.users.len() && (#[trigger] s.users[j]).lock == (
        #[trigger] s.users[k]).lock ==> !(s.users[j].holds && s.users[k].holds)
}

/// Whether the lock of `user` is that of its path.
pub open spec fn tied<L>(entries: Seq<LockEntry<L>>, user: LockUser<L>) -> bool {
    exists|i: int|
        0 <= i < entries.len() && (#[trigger] entries[i]).path@ == user.path && entries[i].lock
            == user.lock
}

/// Whether no two users that hold a lock have the same path, users of different paths do not wait
/// for each other, and a user gets the lock of a path that nobody else holds.
pub open spec fn excludes<L>(s: QueueState<L>) -> bool {
    &&& forall|j: int, k: int|
        0 <= j < k < s.users.len() && (#[trigger] s.users[j]).holds && (
        #[trigger] s.users[k]).holds ==> s.users[j].path != s.users[k].path
    &&& forall|j: int, k: int|
        0 <= j < k < s.users.len() && (#[trigger] s.users[j]).path != (
        #[trigger] s.users[k]).path ==> s.users[j].lock != s.users[k].lock
    &&& forall|k: int|
        0 <= k < s.users.len() && (forall|j: int|
            0 <= j < s.users.len() && j != k && (#[trigger] s.users[j]).path == s.users[k].path
                ==> !s.users[j].holds) ==> #[trigger] is_free(s, k)
}

proof fn lemma_kept_in_order<L>(s: QueueState<L>, owners: Seq<usize>)
    requires
        in_order(s),
        counted(s, owners),
    ensures
        in_order(QueueState { entries: in_use(s.entries, owners), users: s.users }),
        forall|fresh: L| #[trigger]
            is_new(s, fresh) ==> is_new(
                QueueState { entries: in_use(s.entries, owners), users: s.users },
                fresh,
            ),
{
    let kept = in_use(s.entries, owners);
    law_pruning_drops_unused_only(s.entries, owners);
    lemma_in_use(s.entries, owners);
    let places = used_places(owners);
    assert forall|i: int| 0 <= i < kept.len() implies 0 <= (#[trigger] places[i])
        < s.entries.len() && kept[i] == s.entries[places[i]] by {
        assert(places.contains(places[i]));
    }
    assert forall|i: int, j: int| 0 <= i < j < kept.len() implies (#[trigger] kept[i]).lock != (
    #[trigger] kept[j]).lock by {
        assert(places[i] < places[j]);
        assert(s.entries[places[i]].lock != s.entries[places[j]].lock);
    }
    assert forall|k: int| 0 <= k < s.users.len() implies tied(kept, #[trigger] s.users[k]) by {
        let user = s.users[k];
        assert(tied(s.entries, user));
        let i = choose|i: int|
            0 <= i < s.entries.len() && (#[trigger] s.entries[i]).path@ == user.path
                && s.entries[i].lock == user.lock;
        lemma_used_is_kept(s.entries, owners, i);
        let at = choose|at: int| 0 <= at < kept.len() && kept[at] == s.entries[i];
        assert(kept[at].path@ == user.path && kept[at].lock == user.lock);
    }
    assert forall|fresh: L| #[trigger] is_new(s, fresh) implies is_new(
        QueueState { entries: kept, users: s.users },
        fresh,
    ) by {
        assert forall|i: int| 0 <= i < kept.len() implies (#[trigger] kept[i]).lock != fresh by {
            assert(kept[i] == s.entries[places[i]]);
        }
    }
}

proof fn lemma_asking<L>(
    s: QueueState<L>,
    t: QueueState<L>,
    path: Seq<char>,
    fresh: L,
    owners: Seq<usize>,
    r: int,
)
    requires
        in_order(s),
        asks(s, t, path, fresh, owners, r),
    ensures
        in_order(t),
{
    lemma_kept_in_order(s, owners);
    let kept = kept_for(s.entries, owners);
    let m = QueueState { entries: kept, users: s.users };
    assert(in_order(m) && is_new(m, fresh));
    let user = t.users[s.users.len() as int];
    assert forall|i: int, j: int| 0 <= i < j < t.entries.len() implies (
    #[trigger] t.entries[i]).path@ != (#[trigger] t.entries[j]).path@ && t.entries[i].lock
        != t.entries[j].lock by {
        if !has_path(kept, path) {
            assert(t.entries.drop_last()[i] == kept[i]);
            if j < kept.len() {
                assert(t.entries.drop_last()[j] == kept[j]);
            }
        }
    }
    assert forall|k: int| 0 <= k < t.users.len() implies tied(t.entries, #[trigger] t.users[k]) by {
        if k < s.users.len() {
            assert(tied(m.entries, m.users[k]));
            let i = choose|i: int|
                0 <= i < kept.len() && (#[trigger] kept[i]).path@ == s.users[k].path
                    && kept[i].lock == s.users[k].lock;
            if !has_path(kept, path) {
                assert(t.entries.drop_last()[i] == kept[i]);
            }
            assert(t.entries[i] == kept[i]);
        } else {
            assert(t.entries[r].path@ == user.path && t.entries[r].lock == user.lock);
        }
    }
    assert forall|j: int, k: int|
        0 <= j < k < t.users.len() && (#[trigger] t.users[j]).lock == (
        #[trigger] t.users[k]).lock implies !(t.users[j].holds && t.users[k].holds) by {
        if k < s.users.len() {
            assert(s.users[j].lock == s.users[k].lock);
        }
    }
}

proof fn lemma_moving<L>(s: QueueState<L>, t: QueueState<L>)
    requires
        in_order(s),
        moves(s, t),
    ensures
        in_order(t),
{
    if exists|path: Seq<char>, fresh: L, owners: Seq<usize>, r: int| #[trigger]
        asks(s, t, path, fresh, owners, r) {
        let (path, fresh, owners, r) = choose|
            path: Seq<char>,
            fresh: L,
            owners: Seq<usize>,
            r: int,
        | #[trigger] asks(s, t, path, fresh, owners, r);
        lemma_asking(s, t, path, fresh, owners, r);
    } else if exists|owners: Seq<usize>| #[trigger] prunes(s, t, owners) {
        let owners = choose|owners: Seq<usize>| #[trigger] prunes(s, t, owners);
        lemma_kept_in_order(s, owners);
    } else if exists|k: int| #[trigger] gets(s, t, k) {
        let n = choose|k: int| #[trigger] gets(s, t, k);
        assert forall|k: int| 0 <= k < t.users.len() implies tied(
            t.entries,
            #[trigger] t.users[k],
        ) by {
            assert(tied(s.entries, s.users[k]));
        }
        assert forall|j: int, k: int|
            0 <= j < k < t.users.len() && (#[trigger] t.users[j]).lock == (
            #[trigger] t.users[k]).lock implies !(t.users[j].holds && t.users[k].holds) by {
            assert(s.users[j].lock == s.users[k].lock);
        }
    } else {
        let n = choose|k: int| #[trigger] goes(s, t, k);
        assert forall|k: int| 0 <= k < t.users.len() implies tied(
            t.entries,
            #[trigger] t.users[k],
        ) by {
            let from = if k < n {
                k
            } else {
                k + 1
            };
            assert(t.users[k] == s.users[from]);
            assert(tied(s.entries, s.users[from]));
        }
        assert forall|j: int, k: int|
            0 <= j < k < t.users.len() && (#[trigger] t.users[j]).lock == (
            #[trigger] t.users[k]).lock implies !(t.users[j].holds && t.users[k].holds) by {
            let a = if j < n {
                j
            } else {
                j + 1
            };
            let b = if k < n {
                k
            } else {
                k + 1
            };
            assert(t.users[j] == s.users[a] && t.users[k] == s.users[b]);
        }
    }
}

proof fn lemma_order_excludes<L>(s: QueueState<L>)
    requires
        in_order(s),
    ensures
        excludes(s),
{
    assert forall|j: int, k: int|
        0 <= j < s.users.len() && 0 <= k < s.users.len() implies ((#[trigger] s.users[j]).path == (
    #[trigger] s.users[k]).path <==> s.users[j].lock == s.users[k].lock) by {
        let (u, v) = (s.users[j], s.users[k]);
        assert(tied(s.entries, u) && tied(s.entries, v));
        let a = choose|i: int|
            0 <= i < s.entries.len() && (#[trigger] s.entries[i]).path@ == u.path
                && s.entries[i].lock == u.lock;
        let b = choose|i: int|
            0 <= i < s.entries.len() && (#[trigger] s.entries[i]).path@ == v.path
                && s.entries[i].lock == v.lock;
        if a < b {
            assert(s.entries[a].path@ != s.entries[b].path@);
        } else if b < a {
            assert(s.entries[b].path@ != s.entries[a].path@);
        }
    }
}

/// However often locks are asked for, had, given back and pruned: at no moment do two users hold
/// the lock of one path, users of different paths do not wait for each other, and once the lock of
/// a path is given back, the next one who waits for it can have it.
pub proof fn law_one_holder_for_each_path<L>(states: Seq<QueueState<L>>, i: int)
    requires
        states.len() > 0,
        states[0].entries.len() == 0,
        states[0].users.len() == 0,
        forall|n: int| 0 < n < states.len() ==> moves(states[n - 1], #[trigger] states[n]),
        0 <= i < states.len(),
    ensures
        excludes(states[i]),
{
    lemma_states_in_order(states, i);
    lemma_order_excludes(states[i]);
}

proof fn lemma_states_in_order<L>(states: Seq<QueueState<L>>, i: int)
    requires
        states.len() > 0,
        states[0].entries.len() == 0,
        states[0].users.len() == 0,
        forall|n: int| 0 < n < states.len() ==> moves(states[n - 1], #[trigger] states[n]),
        0 <= i < states.len(),
    ensures
        in_order(states[i]),
    decreases i,
{
    if i > 0 {
        lemma_states_in_order(states, i - 1);
        assert(moves(states[i - 1], states[i]));
        lemma_moving(states[i - 1], states[i]);
    }
}

/// A file is not written where its lock between processes could not be had, and what was taken is
/// handed on.
pub proof fn law_file_is_written_under_its_lock<L, G>(
    file: Option<Result<G, FileLockError>>,
    r: Result<Option<G>, FileMutationError>,
)
    requires
        call_ensures(FileMutationQueue::<L>::enter::<G>, (file,), r),
    ensures
        r is Err <==> file is Some && file->0 is Err,
        file matches Some(Ok(guard)) ==> r == Ok::<Option<G>, FileMutationError>(Some(guard)),
        file is None ==> r == Ok::<Option<G>, FileMutationError>(None),
{
}

} // verus!
