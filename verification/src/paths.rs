//! Unix paths as text.
use vstd::prelude::*;
use vstd::string::*;

verus! {

/// Whether a path begins at the root.
pub open spec fn is_absolute(p: Seq<char>) -> bool {
    p.len() > 0 && p[0] == '/'
}

/// A path taken from the directory `dir`.
pub open spec fn joined(dir: Seq<char>, p: Seq<char>) -> Seq<char> {
    if is_absolute(p) || dir.len() == 0 {
        p
    } else if dir.last() == '/' {
        dir + p
    } else {
        dir + "/"@ + p
    }
}

/// The path of a tool call before it is made absolute.
pub open spec fn tool_path(work_dir: Option<Seq<char>>, raw: Seq<char>) -> Seq<char> {
    match work_dir {
        Some(dir) => joined(dir, raw),
        None => raw,
    }
}

/// Whether `p` is written without anything that could be left out: it is not empty, it has no
/// empty parts and no parts `.`, and no slash at its end.
pub open spec fn is_plain(p: Seq<char>) -> bool {
    &&& p.len() > 0
    &&& p.last() != '/'
    &&& forall|i: int|
        0 <= i < p.len() && #[trigger] begins_part(p, i) ==> p[i] != '/' && !is_dot(p, i)
}

/// Whether a part of `p` begins at `i`.
pub open spec fn begins_part(p: Seq<char>, i: int) -> bool {
    if i == 0 {
        p[0] != '/'
    } else {
        p[i - 1] == '/'
    }
}

/// Whether the part of `p` that begins at `i` is `.`.
pub open spec fn is_dot(p: Seq<char>, i: int) -> bool {
    p[i] == '.' && (i + 1 == p.len() || p[i + 1] == '/')
}

/// What `std::path::absolute` makes of a path that begins at the root, on Unix.
pub uninterp spec fn normalized_path(p: Seq<char>) -> Seq<char>;

/// Whether `r` is the relative path `p` taken from the directory `dir` and resolved.
pub open spec fn taken_from(dir: Seq<char>, p: Seq<char>, r: Seq<char>) -> bool {
    &&& is_absolute(dir)
    &&& r == normalized_path(joined(dir, p))
    &&& is_plain(p) ==> r == joined(dir, p)
}

/// Calls `std::path::absolute`, on Unix, and takes the path as text. A path that begins at the
/// root gives a function of itself, named `normalized_path`; one without empty parts, parts `.` and
/// a slash at its end stays as it is. Any other path is taken from the current directory and
/// resolved in the same way, unless that directory cannot be had or is not text; a plain one stands
/// as it is behind that directory. Which directory it is depends on the process, and nothing is
/// said of it but that it begins at the root. An empty path gives nothing. In a path that was given
/// back all is resolved that can be: it stays as it is.
#[verifier::external_body]
fn std_absolute(p: &str) -> (r: Option<String>)
    ensures
        is_absolute(p@) ==> r is Some && r->0@ == normalized_path(p@),
        is_absolute(p@) && is_plain(p@) ==> r is Some && r->0@ == p@,
        r is Some && !is_absolute(p@) ==> exists|dir: Seq<char>| #[trigger]
            taken_from(dir, p@, r->0@),
        r is Some ==> is_absolute(r->0@) && normalized_path(r->0@) == r->0@,
        p@.len() == 0 ==> r is None,
{
    std::path::absolute(p).ok().and_then(|a| a.to_str().map(|s| s.to_owned()))
}

fn first_is_slash(p: &str) -> (r: bool)
    ensures
        r == is_absolute(p@),
{
    if p.unicode_len() == 0 {
        false
    } else {
        p.get_char(0) == '/'
    }
}

/// A path taken from the directory `dir`.
pub fn join(dir: &str, p: &str) -> (r: String)
    ensures
        r@ == joined(dir@, p@),
{
    let len: usize = dir.unicode_len();
    if first_is_slash(p) || len == 0 {
        return p.to_owned();
    }
    if dir.get_char(len - 1) == '/' {
        dir.to_owned().concat(p)
    } else {
        dir.to_owned().concat("/").concat(p)
    }
}

/// A path made absolute where that succeeded, and the path itself where it did not.
pub fn choose_absolute(path: String, absolute: Option<String>) -> (r: String)
    ensures
        r == (match absolute {
            Some(a) => a,
            None => path,
        }),
{
    match absolute {
        Some(a) => a,
        None => path,
    }
}

/// Whether `r` can be `p` made absolute: a path that begins at the root is resolved; any other is
/// taken from a directory, which is the current one, and resolved, or stays as it is where that
/// directory cannot be had.
pub open spec fn made_absolute(p: Seq<char>, r: Seq<char>) -> bool {
    &&& if is_absolute(p) {
        r == normalized_path(p) && (is_plain(p) ==> r == p)
    } else {
        r == p || exists|dir: Seq<char>| #[trigger] taken_from(dir, p, r)
    }
    &&& if is_absolute(r) {
        normalized_path(r) == r
    } else {
        r == p
    }
    &&& p.len() == 0 ==> r == p
}

/// Makes a path absolute. An empty path stays as it is, and so does any path where the current
/// directory cannot be had or is not text.
pub fn normalize(path: &str) -> (r: String)
    ensures
        made_absolute(path@, r@),
{
    choose_absolute(path.to_owned(), std_absolute(path))
}

/// Whether `r` can be the path of a tool call: `raw`, taken from `work_dir` if it does not begin at
/// the root, and made absolute.
pub open spec fn resolves_to(
    work_dir: Option<Seq<char>>,
    raw: Seq<char>,
    r: Seq<char>,
) -> bool {
    made_absolute(tool_path(work_dir, raw), r)
}

/// A directory as a sequence of characters.
pub open spec fn dir_view(dir: Option<String>) -> Option<Seq<char>> {
    match dir {
        Some(d) => Some(d@),
        None => None,
    }
}

/// The path of a tool call: taken from `work_dir` if it does not begin at the root, and made
/// absolute. The result is used both to lock and to read or write the file.
pub fn resolve_tool_path(work_dir: Option<&str>, raw: &str) -> (r: String)
    ensures
        resolves_to(
            (match work_dir {
                Some(d) => Some(d@),
                None => None,
            }),
            raw@,
            r@,
        ),
{
    let path = match work_dir {
        Some(dir) => join(dir, raw),
        None => raw.to_owned(),
    };
    normalize(path.as_str())
}

/// A path that was resolved and begins at the root resolves to itself, wherever it is taken from.
/// So a file is locked under the path by which it is read and written.
pub proof fn law_resolved_paths_stay(
    work_dir: Option<Seq<char>>,
    raw: Seq<char>,
    r: Seq<char>,
    other_dir: Option<Seq<char>>,
    again: Seq<char>,
)
    requires
        resolves_to(work_dir, raw, r),
        is_absolute(r),
        resolves_to(other_dir, r, again),
    ensures
        again == r,
        made_absolute(r, r),
{
}

/// Paths that are plain stay plain when one is taken from the other.
proof fn lemma_joined_is_plain(dir: Seq<char>, p: Seq<char>)
    requires
        is_plain(dir),
        is_plain(p),
        !is_absolute(p),
    ensures
        is_plain(joined(dir, p)),
        joined(dir, p) == dir + "/"@ + p,
        is_absolute(joined(dir, p)) <==> is_absolute(dir),
{
    reveal_strlit("/");
    let n = dir.len() as int;
    let j = dir + "/"@ + p;
    assert(begins_part(p, 0));
    assert forall|i: int| 0 <= i < j.len() && #[trigger] begins_part(j, i) implies j[i] != '/'
        && !is_dot(j, i) by {
        if i < n {
            assert(begins_part(dir, i));
        } else if i > n {
            assert(begins_part(p, i - n - 1));
        } else {
            assert(j[n - 1] == dir.last());
        }
    }
}

/// A plain relative path is found behind the directory that it is taken from: behind the work
/// directory where that begins at the root, and otherwise at the end of the path, behind the name
/// of the work directory where there is one.
pub proof fn law_relative_paths_come_last(
    work_dir: Option<Seq<char>>,
    raw: Seq<char>,
    r: Seq<char>,
)
    requires
        is_plain(raw),
        !is_absolute(raw),
        work_dir matches Some(dir) ==> is_plain(dir),
        resolves_to(work_dir, raw, r),
    ensures
        match work_dir {
            Some(dir) => {
                &&& tool_path(work_dir, raw) == dir + "/"@ + raw
                &&& is_absolute(dir) ==> r == dir + "/"@ + raw
            },
            None => tool_path(work_dir, raw) == raw,
        },
        tool_path(work_dir, raw).is_suffix_of(r),
{
    if let Some(dir) = work_dir {
        lemma_joined_is_plain(dir, raw);
    }
    let p = tool_path(work_dir, raw);
    assert(p.is_suffix_of(p)) by {
        assert(p.subrange(0, p.len() as int) =~= p);
    }
    if r != p {
        let dir = choose|dir: Seq<char>| #[trigger] taken_from(dir, p, r);
        assert(r == joined(dir, p));
        assert(r.subrange(r.len() - p.len(), r.len() as int) =~= p);
    }
}

/// An absolute path stays the same wherever it is taken from.
pub proof fn law_absolute_paths_ignore_the_work_dir(dir: Seq<char>, p: Seq<char>)
    requires
        is_absolute(p),
    ensures
        tool_path(Some(dir), p) == tool_path(None, p),
{
}

/// Whether `n` can be the name of a file.
pub open spec fn plain_name(n: Seq<char>) -> bool {
    &&& n.len() > 0
    &&& forall|i: int| 0 <= i < n.len() ==> (#[trigger] n[i]) != '/'
    &&& n != "."@
    &&& n != ".."@
}

/// Whether `p` is the file `name` in the directory `dir`: `dir` is empty, or the root, or ends
/// with the name of a directory and one separator.
pub open spec fn is_file_in(p: Seq<char>, dir: Seq<char>, name: Seq<char>) -> bool {
    &&& p == dir + name
    &&& plain_name(name)
    &&& dir.len() == 0 || dir == "/"@ || exists|up: Seq<char>, d: Seq<char>|
        {
            &&& #[trigger] (up + d) == dir.drop_last()
            &&& dir.last() == '/'
            &&& plain_name(d)
            &&& up.len() == 0 || up.last() == '/'
        }
}

/// The last part of a path, as `std::path::Path::file_name` gives it on Unix.
pub uninterp spec fn path_file_name(p: Seq<char>) -> Option<Seq<char>>;

/// Calls `std::path::Path::file_name`, on Unix, and takes the name as text. The result is a
/// function of the path, named `path_file_name`; for a file in a directory it is the name of the
/// file.
#[verifier::external_body]
fn std_file_name(p: &str) -> (r: Option<String>)
    ensures
        match r {
            Some(n) => path_file_name(p@) == Some(n@),
            None => path_file_name(p@) is None,
        },
        forall|dir: Seq<char>, name: Seq<char>| #[trigger]
            is_file_in(p@, dir, name) ==> r is Some && r->0@ == name,
{
    std::path::Path::new(p).file_name().map(|n| n.to_string_lossy().into_owned())
}

/// A path with its last part replaced, as `std::path::Path::with_file_name` gives it on Unix.
pub uninterp spec fn path_with_file_name(p: Seq<char>, name: Seq<char>) -> Seq<char>;

/// Calls `std::path::Path::with_file_name`, on Unix, and takes the path as text. The result is a
/// function of the path and the name, named `path_with_file_name`; for a file in a directory it is
/// the file with the new name in the same directory.
#[verifier::external_body]
fn std_with_file_name(p: &str, name: &str) -> (r: String)
    ensures
        r@ == path_with_file_name(p@, name@),
        forall|dir: Seq<char>, old_name: Seq<char>| #[trigger]
            is_file_in(p@, dir, old_name) && plain_name(name@) ==> r@ == dir + name@,
{
    std::path::Path::new(p).with_file_name(name).to_string_lossy().into_owned()
}

/// The path beside `p` whose name is that of `p` with `suffix` added; `p` itself where it has no
/// name.
pub open spec fn suffixed(p: Seq<char>, suffix: Seq<char>) -> Seq<char> {
    match path_file_name(p) {
        Some(name) => path_with_file_name(p, name + suffix),
        None => p,
    }
}

/// The path beside `p` whose name is that of `p` with `suffix` added. For a file in a directory
/// that is the path with the suffix added.
pub fn with_suffix(p: &str, suffix: &str) -> (r: String)
    ensures
        r@ == suffixed(p@, suffix@),
        forall|dir: Seq<char>, name: Seq<char>| #[trigger]
            is_file_in(p@, dir, name) && plain_name(name + suffix@) ==> r@ == p@ + suffix@,
{
    match std_file_name(p) {
        Some(name) => {
            let new_name = name.concat(suffix);
            let r = std_with_file_name(p, new_name.as_str());
            proof {
                assert forall|dir: Seq<char>, n: Seq<char>| #[trigger]
                    is_file_in(p@, dir, n) && plain_name(n + suffix@) implies r@ == p@
                    + suffix@ by {
                    assert(name@ == n);
                    assert(dir + (n + suffix@) =~= (dir + n) + suffix@);
                }
            }
            r
        },
        None => p.to_owned(),
    }
}

/// A relative path stands behind the directory that it is taken from, with one separator in between
/// that is not doubled; from no directory at all it stays as it is.
pub proof fn law_relative_path_stands_behind_its_directory(dir: Seq<char>, p: Seq<char>)
    requires
        !is_absolute(p),
    ensures
        p.is_suffix_of(joined(dir, p)),
        dir.is_prefix_of(joined(dir, p)),
        dir.len() == 0 ==> joined(dir, p) == p,
        dir.len() > 0 && dir.last() == '/' ==> joined(dir, p).len() == dir.len() + p.len(),
        dir.len() > 0 && dir.last() != '/' ==> joined(dir, p).len() == dir.len() + p.len() + 1
            && joined(dir, p)[dir.len() as int] == '/',
{
    reveal_strlit("/");
    let j = joined(dir, p);
    assert(j.subrange(j.len() - p.len(), j.len() as int) =~= p);
    assert(j.subrange(0, dir.len() as int) =~= dir);
}

/// A path that begins at the root stays as it is, wherever it is taken from.
pub proof fn law_absolute_path_stays(dir: Seq<char>, p: Seq<char>)
    requires
        p.len() > 0 && p[0] == '/',
    ensures
        joined(dir, p) == p,
        tool_path(Some(dir), p) == p,
        tool_path(None, p) == p,
{
}

} // verus!
