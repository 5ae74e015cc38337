//! Locks between processes: a file beside the one that is to be protected stands for the lock.
use vstd::prelude::*;
use vstd::string::*;

use crate::paths;
use crate::text;

verus! {

/// The lock of a file. All processes that name the same lock file exclude each other.
#[derive(Debug, PartialEq)]
pub struct FileLock {
    pub lock_file: String,
}

/// Why a lock could not be had. Errors of the file system are held as their text.
#[derive(Debug, PartialEq)]
pub enum FileLockError {
    Open { path: String, source: String },
    Acquire { path: String, source: String },
    /// The wait was given up.
    Cancelled,
    /// The task that waited failed.
    Join(String),
}

impl Clone for FileLock {
    fn clone(&self) -> (r: Self)
        ensures
            r == *self,
    {
        FileLock { lock_file: self.lock_file.clone() }
    }
}

impl FileLock {
    /// The lock of the file `target`: a file beside it, with `.guigu.lock` added to its name.
    pub fn for_path(target: &str) -> (r: FileLock)
        ensures
            r.lock_file@ == paths::suffixed(target@, ".guigu.lock"@),
            forall|dir: Seq<char>, name: Seq<char>| #[trigger]
                paths::is_file_in(target@, dir, name) ==> r.lock_file@ == target@
                    + ".guigu.lock"@,
    {
        let lock_file = paths::with_suffix(target, ".guigu.lock");
        proof {
            reveal_strlit(".guigu.lock");
            reveal_strlit(".");
            reveal_strlit("..");
            assert forall|dir: Seq<char>, name: Seq<char>| #[trigger]
                paths::is_file_in(target@, dir, name) implies lock_file@ == target@
                + ".guigu.lock"@ by {
                let n = name + ".guigu.lock"@;
                assert(n.len() > 11);
                assert forall|i: int| 0 <= i < n.len() implies (#[trigger] n[i]) != '/' by {
                    if i < name.len() {
                        assert(name[i] != '/');
                    } else {
                        assert(n[i] == ".guigu.lock"@[i - name.len()]);
                    }
                }
                assert(paths::plain_name(n));
            }
        }
        FileLock { lock_file }
    }

    /// What trying to lock came to, given what the file system said: held by another is no error.
    pub fn tried(&self, outcome: TryLock) -> (r: Result<bool, FileLockError>)
        ensures
            match outcome {
                TryLock::Locked => r == Ok::<bool, FileLockError>(true),
                TryLock::Held => r == Ok::<bool, FileLockError>(false),
                TryLock::OpenFailed(e) => r == Err::<bool, FileLockError>(
                    FileLockError::Open { path: self.lock_file, source: e },
                ),
                TryLock::LockFailed(e) => r == Err::<bool, FileLockError>(
                    FileLockError::Acquire { path: self.lock_file, source: e },
                ),
                TryLock::TaskFailed(e) => r == Err::<bool, FileLockError>(FileLockError::Join(e)),
            },
    {
        match outcome {
            TryLock::Locked => Ok(true),
            TryLock::Held => Ok(false),
            TryLock::OpenFailed(e) => Err(
                FileLockError::Open { path: self.lock_file.clone(), source: e },
            ),
            TryLock::LockFailed(e) => Err(
                FileLockError::Acquire { path: self.lock_file.clone(), source: e },
            ),
            TryLock::TaskFailed(e) => Err(FileLockError::Join(e)),
        }
    }
}

/// What the file system said when a lock was asked for.
#[derive(Debug)]
pub enum TryLock {
    Locked,
    /// Another holds the lock.
    Held,
    OpenFailed(String),
    LockFailed(String),
    /// The task that asked failed.
    TaskFailed(String),
}

impl FileLockError {
    /// The text of the error.
    pub open spec fn text(self) -> Seq<char> {
        match self {
            FileLockError::Open { path, source } => "failed to open lock file `"@ + path@ + "`: "@
                + source@,
            FileLockError::Acquire { path, source } => "failed to acquire lock on `"@ + path@
                + "`: "@ + source@,
            FileLockError::Cancelled => "lock task cancelled"@,
            FileLockError::Join(e) => "join error: "@ + e@,
        }
    }

    /// The text of the error.
    pub fn message(&self) -> (r: String)
        ensures
            r@ == self.text(),
    {
        match self {
            FileLockError::Open { path, source } => "failed to open lock file `".to_owned().concat(
                path.as_str(),
            ).concat("`: ").concat(source.as_str()),
            FileLockError::Acquire {
                path,
                source,
            } => "failed to acquire lock on `".to_owned().concat(path.as_str()).concat(
                "`: ",
            ).concat(source.as_str()),
            FileLockError::Cancelled => "lock task cancelled".to_owned(),
            FileLockError::Join(e) => "join error: ".to_owned().concat(e.as_str()),
        }
    }
}

/// A lock counts as taken just where it was, and as held where somebody else has it; everything else
/// is an error that names the file.
pub proof fn law_lock_is_tried(lock: FileLock, outcome: TryLock, r: Result<bool, FileLockError>)
    requires
        call_ensures(FileLock::tried, (&lock, outcome), r),
    ensures
        r == Ok::<bool, FileLockError>(true) <==> outcome is Locked,
        r == Ok::<bool, FileLockError>(false) <==> outcome is Held,
        outcome matches TryLock::OpenFailed(e) ==> r == Err::<bool, FileLockError>(
            FileLockError::Open { path: lock.lock_file, source: e },
        ),
        outcome matches TryLock::LockFailed(e) ==> r == Err::<bool, FileLockError>(
            FileLockError::Acquire { path: lock.lock_file, source: e },
        ),
{
}

/// The text of an error tells what it is about.
pub proof fn law_error_tells_its_cause(e: FileLockError)
    ensures
        e matches FileLockError::Open { path, source } ==> text::occurs(path@, e.text())
            && text::occurs(source@, e.text()),
        e matches FileLockError::Acquire { path, source } ==> text::occurs(path@, e.text())
            && text::occurs(source@, e.text()),
        e matches FileLockError::Join(s) ==> text::occurs(s@, e.text()),
{
    match e {
        FileLockError::Open { path, source } => {
            lemma_both("failed to open lock file `"@, path@, "`: "@, source@);
        },
        FileLockError::Acquire { path, source } => {
            lemma_both("failed to acquire lock on `"@, path@, "`: "@, source@);
        },
        FileLockError::Join(s) => text::lemma_ends_with("join error: "@, s@),
        _ => {},
    }
}

proof fn lemma_both(a: Seq<char>, b: Seq<char>, c: Seq<char>, d: Seq<char>)
    ensures
        text::occurs(b, a + b + c + d),
        text::occurs(d, a + b + c + d),
{
    text::lemma_ends_with(a + b + c, d);
    text::lemma_occurs(a, b, c + d);
    assert(a + b + (c + d) =~= a + b + c + d);
}

} // verus!
