//! The tool `edit`: replaces the one place in a file where a text occurs.
use vstd::prelude::*;
use vstd::string::*;
use vstd::utf8::*;

use crate::json;
use crate::json::Parameter;
use crate::paths;
use crate::text;
use crate::tool::{ResourceScope, ToolError, ToolResult};
use crate::tools::files;
use crate::tools::files::LockOutcome;

verus! {

/// The arguments of `edit`.
#[derive(Debug, Clone, PartialEq)]
pub struct EditArgs {
    pub path: String,
    pub old_string: String,
    pub new_string: String,
}

/// Replaces a text that occurs once in a file by another.
#[derive(Debug, Clone)]
pub struct EditTool {
    /// Where paths that do not begin at the root are taken from; `None` for the directory of the
    /// process.
    pub work_dir: Option<String>,
}

/// What `edit` reports.
#[derive(Debug, PartialEq)]
pub struct EditOutcome {
    pub text: String,
    pub path: String,
    pub replaced: u64,
}

/// Whether `needle` stands in `hay` at `i`.
pub open spec fn occurs_at(hay: Seq<char>, needle: Seq<char>, i: int) -> bool {
    &&& 0 <= i
    &&& i + needle.len() <= hay.len()
    &&& hay.subrange(i, i + needle.len()) == needle
}

/// How far the search goes on behind a place that was found.
pub open spec fn stride(needle: Seq<char>) -> nat {
    if needle.len() == 0 {
        1
    } else {
        needle.len()
    }
}

/// How often `needle` is found in `hay` from `i` on, where the search goes from the front and
/// goes on behind each place that it finds. An empty text is found before each character and at
/// the end.
pub open spec fn count_from(hay: Seq<char>, needle: Seq<char>, i: int) -> nat
    decreases hay.len() + 1 - i,
    when i >= 0
{
    if i + needle.len() > hay.len() {
        0
    } else if occurs_at(hay, needle, i) {
        1 + count_from(hay, needle, i + stride(needle))
    } else {
        count_from(hay, needle, i + 1)
    }
}

/// Whether `i` is the first place where `needle` stands in `hay`.
pub open spec fn first_at(hay: Seq<char>, needle: Seq<char>, i: int) -> bool {
    occurs_at(hay, needle, i) && forall|j: int| 0 <= j < i ==> !occurs_at(hay, needle, j)
}

/// `hay` with the text of the length of `needle` at `i` replaced by `new`.
pub open spec fn replaced_at(
    hay: Seq<char>,
    needle: Seq<char>,
    new: Seq<char>,
    i: int,
) -> Seq<char> {
    hay.take(i) + new + hay.skip(i + needle.len())
}

fn found_at(hay: &Vec<char>, needle: &Vec<char>, i: usize) -> (r: bool)
    requires
        i + needle@.len() <= hay@.len(),
    ensures
        r == occurs_at(hay@, needle@, i as int),
{
    let len: usize = hay.len();
    let mut k: usize = 0;
    while k < needle.len()
        invariant
            k <= needle@.len(),
            len == hay@.len(),
            i + needle@.len() <= hay@.len(),
            forall|j: int| 0 <= j < k ==> hay@[i + j] == (#[trigger] needle@[j]),
        decreases needle@.len() - k,
    {
        if hay[i + k] != needle[k] {
            proof {
                let part = hay@.subrange(i as int, i + needle@.len());
                assert(part[k as int] == hay@[i + k]);
            }
            return false;
        }
        k += 1;
    }
    assert(hay@.subrange(i as int, i + needle@.len()) =~= needle@);
    true
}

/// How often `needle` is found in `hay`, and where first.
fn search(hay: &str, needle: &str) -> (r: (u64, Option<usize>))
    requires
        count_from(hay@, needle@, 0) <= u64::MAX,
    ensures
        r.0 == count_from(hay@, needle@, 0),
        match r.1 {
            Some(i) => first_at(hay@, needle@, i as int),
            None => r.0 == 0,
        },
{
    let h = text::chars_of(hay);
    let n = text::chars_of(needle);
    let step: usize = if n.len() == 0 {
        1
    } else {
        n.len()
    };
    let mut count: u64 = 0;
    let mut first: Option<usize> = None;
    let mut i: usize = 0;
    while i <= h.len() && n.len() <= h.len() - i
        invariant
            h@ == hay@,
            n@ == needle@,
            step == stride(needle@),
            count_from(hay@, needle@, 0) <= u64::MAX,
            i <= h@.len() ==> count + count_from(hay@, needle@, i as int) == count_from(
                hay@,
                needle@,
                0,
            ),
            i > h@.len() ==> count == count_from(hay@, needle@, 0),
            i <= h@.len() + 1,
            match first {
                Some(f) => first_at(hay@, needle@, f as int) && f <= h@.len(),
                None => count == 0 && forall|j: int|
                    0 <= j < i ==> !occurs_at(hay@, needle@, j),
            },
        decreases h@.len() + 1 - i,
    {
        if found_at(&h, &n, i) {
            count += 1;
            if first.is_none() {
                first = Some(i);
            }
            if i == h.len() {
                // An empty text at the end: nothing can follow.
                proof {
                    assert(count_from(hay@, needle@, i + 1) == 0);
                }
                return (count, first);
            }
            i += step;
        } else {
            proof {
                if n@.len() == 0 {
                    assert(hay@.subrange(i as int, i as int) =~= needle@);
                }
            }
            i += 1;
        }
    }
    (count, first)
}

proof fn lemma_count_bound(hay: Seq<char>, needle: Seq<char>, i: int)
    requires
        0 <= i,
    ensures
        count_from(hay, needle, i) <= (if i <= hay.len() {
            hay.len() + 1 - i
        } else {
            0
        }),
    decreases hay.len() + 1 - i,
{
    if i + needle.len() <= hay.len() {
        if occurs_at(hay, needle, i) {
            lemma_count_bound(hay, needle, i + stride(needle));
        } else {
            lemma_count_bound(hay, needle, i + 1);
        }
    }
}

/// Replaces `old_string` in `content` if it is found exactly once, and says otherwise how often
/// it was.
pub fn replace_unique(content: &str, old_string: &str, new_string: &str) -> (r: Result<
    String,
    u64,
>)
    requires
        content@.len() < u64::MAX,
    ensures
        match r {
            Ok(s) => count_from(content@, old_string@, 0) == 1 && exists|i: int| #[trigger]
                first_at(content@, old_string@, i) && s@ == replaced_at(
                    content@,
                    old_string@,
                    new_string@,
                    i,
                ),
            Err(n) => n == count_from(content@, old_string@, 0) && n != 1,
        },
{
    proof {
        lemma_count_bound(content@, old_string@, 0);
    }
    let (count, first) = search(content, old_string);
    if count != 1 {
        return Err(count);
    }
    match first {
        Some(i) => {
            let total: usize = content.unicode_len();
            let skip: usize = old_string.unicode_len();
            let before = content.substring_char(0, i);
            let after = content.substring_char(i + skip, total);
            let out = before.to_owned().concat(new_string).concat(after);
            proof {
                assert(before@ =~= content@.take(i as int));
                assert(after@ =~= content@.skip(i + skip));
                assert(first_at(content@, old_string@, i as int));
            }
            Ok(out)
        },
        None => Err(count),
    }
}

/// An edit changes nothing but the place that it found: the text before it and the text behind it
/// stay, and the text in between is exchanged.
pub proof fn law_edit_changes_one_place(
    hay: Seq<char>,
    needle: Seq<char>,
    new: Seq<char>,
    i: int,
)
    requires
        occurs_at(hay, needle, i),
    ensures
        hay == hay.take(i) + needle + hay.skip(i + needle.len()),
        replaced_at(hay, needle, new, i).take(i) == hay.take(i),
        replaced_at(hay, needle, new, i).skip(i + new.len()) == hay.skip(i + needle.len()),
        occurs_at(replaced_at(hay, needle, new, i), new, i),
{
    let part = hay.subrange(i, i + needle.len());
    assert(hay =~= hay.take(i) + needle + hay.skip(i + needle.len())) by {
        assert forall|k: int| i <= k < i + needle.len() implies hay[k] == needle[k - i] by {
            assert(part[k - i] == hay[k]);
        }
    }
    let r = replaced_at(hay, needle, new, i);
    assert(r.take(i) =~= hay.take(i));
    assert(r.skip(i + new.len()) =~= hay.skip(i + needle.len()));
    assert(r.subrange(i, i + new.len()) =~= new);
}

/// Editing back undoes an edit.
pub proof fn law_edit_can_be_undone(hay: Seq<char>, needle: Seq<char>, new: Seq<char>, i: int)
    requires
        occurs_at(hay, needle, i),
    ensures
        replaced_at(replaced_at(hay, needle, new, i), new, needle, i) == hay,
{
    law_edit_changes_one_place(hay, needle, new, i);
    let r = replaced_at(hay, needle, new, i);
    assert(replaced_at(r, new, needle, i) =~= hay.take(i) + needle + hay.skip(i + needle.len()));
}

impl EditOutcome {
    /// The result of the tool.
    pub fn into_result(self) -> (r: ToolResult)
        ensures
            r.shows(self.text@),
            !r.is_error,
            r.details matches Some(v) && {
                &&& json::has_text(v, "path"@, self.path@)
                &&& json::has_number(v, "replaced"@, self.replaced)
                &&& forall|key: Seq<char>|
                    key != "path"@ && key != "replaced"@ ==> #[trigger] json::field_of(v, key)
                        is None
            },
    {
        let mut fields: Vec<(String, serde_json::Value)> = Vec::new();
        fields.push(("path".to_owned(), json::from_text(self.path)));
        fields.push(("replaced".to_owned(), json::from_number(self.replaced)));
        proof {
            reveal_strlit("path");
            reveal_strlit("replaced");
            assert("path"@.len() == 4);
            assert("replaced"@.len() == 8);
            json::lemma_last_field(fields@, 0);
            json::lemma_last_field(fields@, 1);
            assert forall|key: Seq<char>| key != "path"@ && key != "replaced"@ implies
                #[trigger] json::last_field(fields@, key) is None by {
                json::lemma_no_field(fields@, key);
            }
        }
        ToolResult::with_details(self.text, false, json::from_fields(fields))
    }
}

/// The arguments, as they are described to a model.
pub open spec fn parameter_list() -> Seq<Parameter> {
    seq![
        Parameter { name: "path", kind: "string", minimum: None },
        Parameter { name: "old_string", kind: "string", minimum: None },
        Parameter { name: "new_string", kind: "string", minimum: None },
    ]
}

impl EditTool {
    /// An `edit` that takes paths from `work_dir`.
    pub fn new(work_dir: Option<String>) -> (r: Self)
        ensures
            r.work_dir == work_dir,
    {
        EditTool { work_dir }
    }

    /// The name of the tool.
    pub fn name(&self) -> (r: &'static str)
        ensures
            r@ == "edit"@,
    {
        "edit"
    }

    /// What the tool does.
    pub fn description(&self) -> (r: &'static str)
        ensures
            r@ == "Replace a unique occurrence of old_string with new_string in a file."@,
    {
        "Replace a unique occurrence of old_string with new_string in a file."
    }

    /// The schema of the arguments.
    pub fn parameters(&self) -> (r: Option<serde_json::Value>)
        ensures
            r matches Some(v) && json::is_schema(v, parameter_list(), 3),
    {
        let parameters = vec![
            Parameter { name: "path", kind: "string", minimum: None },
            Parameter { name: "old_string", kind: "string", minimum: None },
            Parameter { name: "new_string", kind: "string", minimum: None },
        ];
        proof {
            reveal_strlit("path");
            reveal_strlit("old_string");
            reveal_strlit("new_string");
            assert("path"@[0] == 'p');
            assert("old_string"@[0] == 'o');
            assert("new_string"@[0] == 'n');
        }
        assert(parameters@ =~= parameter_list());
        Some(json::object_schema(parameters, 3))
    }

    /// What the tool touches.
    pub fn resource_scope(&self) -> (r: ResourceScope)
        ensures
            r == ResourceScope::FileWriter,
    {
        ResourceScope::FileWriter
    }

    /// Before anything is done.
    pub fn begin(&self, cancelled: bool) -> (r: Result<(), ToolError>)
        ensures
            cancelled ==> (r matches Err(e) && e.message@ == files::cancelled_text(
                "edit"@,
                "before IO"@,
            )),
            !cancelled ==> r is Ok,
    {
        files::check_cancelled(cancelled, "edit", "before IO")
    }

    /// The path that is locked and edited.
    pub fn resolve(&self, args: &EditArgs) -> (r: String)
        ensures
            paths::resolves_to(paths::dir_view(self.work_dir), args.path@, r@),
    {
        match &self.work_dir {
            Some(d) => paths::resolve_tool_path(Some(d.as_str()), args.path.as_str()),
            None => paths::resolve_tool_path(None, args.path.as_str()),
        }
    }

    /// Once the wait for the lock is over.
    pub fn locked(&self, path: &str, outcome: LockOutcome, cancelled: bool) -> (r: Result<
        (),
        ToolError,
    >)
        ensures
            match outcome {
                LockOutcome::Cancelled => r matches Err(e) && e.message@ == files::cancelled_text(
                    "edit"@,
                    "while waiting for file lock"@,
                ),
                LockOutcome::Failed(f) => r matches Err(e) && e.message@ == files::failure(
                    "edit"@,
                    path@,
                    f.text(),
                ),
                LockOutcome::Acquired => {
                    &&& cancelled ==> (r matches Err(e) && e.message@ == files::cancelled_text(
                        "edit"@,
                        "after acquiring file lock"@,
                    ))
                    &&& !cancelled ==> r is Ok
                },
            },
    {
        files::check_lock(outcome, cancelled, "edit", path)
    }

    /// What is to be written, given what was read: the file must be UTF-8, and the text must be
    /// found in it exactly once.
    pub fn edited(&self, path: &str, args: &EditArgs, read: Result<Vec<u8>, String>) -> (r: Result<
        String,
        ToolError,
    >)
        requires
            read matches Ok(bytes) ==> bytes@.len() < u64::MAX,
        ensures
            match read {
                Err(s) => r matches Err(e) && e.message@ == files::failure("edit"@, path@, s@),
                Ok(bytes) => if !valid_utf8(bytes@) {
                    r matches Err(e) && e.message@ == files::failure(
                        "edit"@,
                        path@,
                        "invalid UTF-8: "@ + files::utf8_error(bytes@),
                    )
                } else {
                    edit_result(path@, *args, decode_utf8(bytes@), r)
                },
            },
    {
        let bytes = match read {
            Ok(bytes) => bytes,
            Err(s) => {
                return Err(files::file_error("edit", path, s.as_str()));
            },
        };
        let ghost bs = bytes@;
        match files::text_of_bytes(bytes) {
            Err(e) => Err(
                files::file_error(
                    "edit",
                    path,
                    "invalid UTF-8: ".to_owned().concat(e.as_str()).as_str(),
                ),
            ),
            Ok(content) => {
                proof {
                    encode_utf8_decode_utf8(content@);
                    lemma_chars_at_most_bytes(content@);
                }
                self.edited_text(path, args, content.as_str())
            },
        }
    }

    /// What is to be written in place of `content`.
    pub fn edited_text(&self, path: &str, args: &EditArgs, content: &str) -> (r: Result<
        String,
        ToolError,
    >)
        requires
            content@.len() < u64::MAX,
        ensures
            edit_result(path@, *args, content@, r),
    {
        match replace_unique(content, args.old_string.as_str(), args.new_string.as_str()) {
            Ok(new_content) => Ok(new_content),
            Err(n) => if n == 0 {
                Err(files::file_error("edit", path, "old_string not found"))
            } else {
                Err(
                    files::file_error(
                        "edit",
                        path,
                        "old_string not unique (".to_owned().concat(
                            text::decimal_u64(n).as_str(),
                        ).concat(" matches)").as_str(),
                    ),
                )
            },
        }
    }

    /// Before the file is written.
    pub fn before_write(&self, cancelled: bool) -> (r: Result<(), ToolError>)
        ensures
            cancelled ==> (r matches Err(e) && e.message@ == files::cancelled_text(
                "edit"@,
                "before write"@,
            )),
            !cancelled ==> r is Ok,
    {
        files::check_cancelled(cancelled, "edit", "before write")
    }

    /// Once the file is written.
    pub fn written(&self, path: &str, result: Result<(), String>) -> (r: Result<
        EditOutcome,
        ToolError,
    >)
        ensures
            match result {
                Err(s) => r matches Err(e) && e.message@ == files::failure("edit"@, path@, s@),
                Ok(_) => r matches Ok(o) && o.text@ == "edited "@ + path@
                    + ": replaced 1 occurrence"@ && o.path@ == path@ && o.replaced == 1,
            },
    {
        match result {
            Err(s) => Err(files::file_error("edit", path, s.as_str())),
            Ok(_) => Ok(
                EditOutcome {
                    text: "edited ".to_owned().concat(path).concat(": replaced 1 occurrence"),
                    path: path.to_owned(),
                    replaced: 1,
                },
            ),
        }
    }
}

/// What becomes of `content`.
pub open spec fn edit_result(
    path: Seq<char>,
    args: EditArgs,
    content: Seq<char>,
    r: Result<String, ToolError>,
) -> bool {
    let n = count_from(content, args.old_string@, 0);
    match r {
        Ok(s) => n == 1 && exists|i: int| #[trigger]
            first_at(content, args.old_string@, i) && s@ == replaced_at(
                content,
                args.old_string@,
                args.new_string@,
                i,
            ),
        Err(e) => {
            &&& n != 1
            &&& e.message@ == files::failure(
                "edit"@,
                path,
                if n == 0 {
                    "old_string not found"@
                } else {
                    "old_string not unique ("@ + text::decimal(n) + " matches)"@
                },
            )
        },
    }
}

/// Places in `hay` where `needle` stands, from the front, none of which overlaps another; an empty
/// text overlaps nothing but itself.
pub open spec fn apart(hay: Seq<char>, needle: Seq<char>, places: Seq<int>) -> bool {
    &&& forall|k: int|
        0 <= k < places.len() ==> 0 <= (#[trigger] places[k]) <= hay.len() - needle.len()
            && hay.subrange(places[k], places[k] + needle.len()) == needle
    &&& forall|j: int, k: int|
        0 <= j < k < places.len() ==> (#[trigger] places[j]) < (#[trigger] places[k]) && places[j]
            + needle.len() <= places[k]
}

/// The number of matches is the largest number of places that do not overlap: there are so many,
/// and there are not more.
pub proof fn law_count_is_the_most_places_apart(
    hay: Seq<char>,
    needle: Seq<char>,
    places: Seq<int>,
)
    ensures
        apart(hay, needle, places) ==> places.len() <= count_from(hay, needle, 0),
        exists|all: Seq<int>| #[trigger]
            apart(hay, needle, all) && all.len() == count_from(hay, needle, 0),
{
    if apart(hay, needle, places) {
        lemma_places_are_counted(hay, needle, places, 0);
    }
    let all = lemma_counted_places(hay, needle, 0);
}

proof fn lemma_places_are_counted(
    hay: Seq<char>,
    needle: Seq<char>,
    places: Seq<int>,
    from: int,
)
    requires
        apart(hay, needle, places),
        0 <= from,
        places.len() > 0 ==> from <= places[0],
    ensures
        places.len() <= count_from(hay, needle, from),
    decreases hay.len() + 1 - from,
{
    if places.len() > 0 {
        assert(0 <= places[0] <= hay.len() - needle.len());
        let rest = places.drop_first();
        assert forall|k: int| 0 <= k < rest.len() implies 0 <= (#[trigger] rest[k]) <= hay.len()
            - needle.len() && hay.subrange(rest[k], rest[k] + needle.len()) == needle by {
            assert(rest[k] == places[k + 1]);
        }
        assert forall|j: int, k: int| 0 <= j < k < rest.len() implies (#[trigger] rest[j]) < (
        #[trigger] rest[k]) && rest[j] + needle.len() <= rest[k] by {
            assert(rest[j] == places[j + 1] && rest[k] == places[k + 1]);
        }
        if occurs_at(hay, needle, from) {
            if rest.len() > 0 {
                assert(places[0] < places[1] && places[0] + needle.len() <= places[1]);
            }
            lemma_places_are_counted(hay, needle, rest, from + stride(needle));
        } else {
            assert(occurs_at(hay, needle, places[0]));
            lemma_places_are_counted(hay, needle, places, from + 1);
        }
    }
}

proof fn lemma_counted_places(hay: Seq<char>, needle: Seq<char>, from: int) -> (places: Seq<int>)
    requires
        0 <= from,
    ensures
        apart(hay, needle, places),
        places.len() == count_from(hay, needle, from),
        forall|k: int| 0 <= k < places.len() ==> from <= #[trigger] places[k],
    decreases hay.len() + 1 - from,
{
    if from + needle.len() > hay.len() {
        Seq::empty()
    } else if occurs_at(hay, needle, from) {
        let rest = lemma_counted_places(hay, needle, from + stride(needle));
        let places = seq![from] + rest;
        assert forall|k: int| 0 <= k < places.len() implies 0 <= (#[trigger] places[k])
            <= hay.len() - needle.len() && hay.subrange(places[k], places[k] + needle.len())
            == needle && from <= places[k] by {
            if k > 0 {
                assert(places[k] == rest[k - 1]);
            }
        }
        assert forall|j: int, k: int| 0 <= j < k < places.len() implies (#[trigger] places[j]) < (
        #[trigger] places[k]) && places[j] + needle.len() <= places[k] by {
            assert(places[k] == rest[k - 1]);
            if j > 0 {
                assert(places[j] == rest[j - 1]);
            }
        }
        places
    } else {
        lemma_counted_places(hay, needle, from + 1)
    }
}

/// An edit is made only where the text stands at one place: two places that do not overlap make it
/// fail, and it says that there are at least two; no place makes it fail too. Where the text stands
/// somewhere and no two places are apart, the edit is made.
pub proof fn law_edit_needs_one_place(
    path: Seq<char>,
    args: EditArgs,
    content: Seq<char>,
    r: Result<String, ToolError>,
)
    requires
        edit_result(path, args, content, r),
    ensures
        ({
            let old = args.old_string@;
            let m = old.len();
            &&& (exists|i: int, j: int|
                0 <= i < j && i + m <= j && j + m <= content.len() && #[trigger] content.subrange(
                    i,
                    i + m,
                ) == old && #[trigger] content.subrange(j, j + m) == old) ==> (r matches Err(e)
                && exists|n: nat|
                n >= 2 && e.message@ == files::failure(
                    "edit"@,
                    path,
                    "old_string not unique ("@ + #[trigger] text::decimal(n) + " matches)"@,
                ))
            &&& (forall|i: int| 0 <= i && i + m <= content.len() ==> #[trigger] content.subrange(
                i,
                i + m,
            ) != old) ==> (r matches Err(e) && e.message@ == files::failure(
                "edit"@,
                path,
                "old_string not found"@,
            ))
            &&& r is Err ==> (forall|i: int|
                0 <= i && i + m <= content.len() ==> #[trigger] content.subrange(i, i + m) != old)
                || (exists|i: int, j: int|
                0 <= i < j && i + m <= j && j + m <= content.len() && #[trigger] content.subrange(
                    i,
                    i + m,
                ) == old && #[trigger] content.subrange(j, j + m) == old)
        }),
{
    let old = args.old_string@;
    let m = old.len();
    let n = count_from(content, old, 0);
    if exists|i: int, j: int|
        0 <= i < j && i + m <= j && j + m <= content.len() && #[trigger] content.subrange(i, i + m)
            == old && #[trigger] content.subrange(j, j + m) == old {
        let (i, j) = choose|i: int, j: int|
            0 <= i < j && i + m <= j && j + m <= content.len() && #[trigger] content.subrange(
                i,
                i + m,
            ) == old && #[trigger] content.subrange(j, j + m) == old;
        let places = seq![i, j];
        assert(apart(content, old, places));
        law_count_is_the_most_places_apart(content, old, places);
        assert(text::decimal(n) == text::decimal(n));
    }
    if forall|i: int|
        0 <= i && i + m <= content.len() ==> #[trigger] content.subrange(i, i + m) != old {
        law_count_is_the_most_places_apart(content, old, Seq::empty());
        let all = choose|all: Seq<int>| #[trigger] apart(content, old, all) && all.len() == n;
        if n > 0 {
            assert(content.subrange(all[0], all[0] + m) == old);
        }
    }
    if r is Err {
        law_count_is_the_most_places_apart(content, old, Seq::empty());
        let all = choose|all: Seq<int>| #[trigger] apart(content, old, all) && all.len() == n;
        if n >= 2 {
            assert(all[0] < all[1]);
            assert(content.subrange(all[0], all[0] + m) == old);
            assert(content.subrange(all[1], all[1] + m) == old);
        } else {
            assert forall|i: int| 0 <= i && i + m <= content.len() implies
                #[trigger] content.subrange(i, i + m) != old by {
                if content.subrange(i, i + m) == old {
                    assert(apart(content, old, seq![i]));
                    law_count_is_the_most_places_apart(content, old, seq![i]);
                }
            }
        }
    }
}

/// What is written is the file with the old text, at the first place where it stands, exchanged for
/// the new one, and with nothing else changed.
pub proof fn law_edit_exchanges_the_text(
    path: Seq<char>,
    args: EditArgs,
    content: Seq<char>,
    s: String,
)
    requires
        edit_result(path, args, content, Ok(s)),
    ensures
        exists|i: int|
            {
                &&& 0 <= i <= content.len() - args.old_string@.len()
                &&& content == #[trigger] content.take(i) + args.old_string@ + content.skip(
                    i + args.old_string@.len(),
                )
                &&& s@ == content.take(i) + args.new_string@ + content.skip(
                    i + args.old_string@.len(),
                )
                &&& forall|j: int|
                    0 <= j < i ==> #[trigger] content.subrange(j, j + args.old_string@.len())
                        != args.old_string@
            },
{
    let old = args.old_string@;
    let i = choose|i: int| #[trigger]
        first_at(content, old, i) && s@ == replaced_at(content, old, args.new_string@, i);
    law_edit_changes_one_place(content, old, args.new_string@, i);
    assert(content == content.take(i) + old + content.skip(i + old.len()));
    assert forall|j: int| 0 <= j < i implies #[trigger] content.subrange(j, j + old.len())
        != old by {
        assert(!occurs_at(content, old, j));
    }
}

proof fn lemma_chars_at_most_bytes(s: Seq<char>)
    ensures
        s.len() <= encode_utf8(s).len(),
    decreases s.len(),
{
    if s.len() > 0 {
        lemma_chars_at_most_bytes(s.drop_first());
        encode_utf8_first_scalar(s);
    }
}

/// An edit that was written is reported with the file and as one exchange; a failure names the file.
pub proof fn law_editing_is_reported(
    tool: EditTool,
    path: &str,
    result: Result<(), String>,
    r: Result<EditOutcome, ToolError>,
)
    requires
        call_ensures(EditTool::written, (&tool, path, result), r),
    ensures
        r is Ok <==> result is Ok,
        r matches Ok(o) ==> o.path@ == path@ && o.replaced == 1 && text::occurs(path@, o.text@),
        r matches Err(e) ==> text::occurs(path@, e.message@) && text::occurs(
            (result->Err_0)@,
            e.message@,
        ),
{
    text::lemma_occurs("edited "@, path@, ": replaced 1 occurrence"@);
    if let Err(s) = result {
        files::law_failure_names_the_file("edit"@, path@, s@);
    }
}

/// A file that cannot be read, or is not UTF-8, is not edited, and the error names it.
pub proof fn law_only_text_is_edited(
    tool: EditTool,
    path: &str,
    args: EditArgs,
    read: Result<Vec<u8>, String>,
    r: Result<String, ToolError>,
)
    requires
        read matches Ok(bytes) ==> bytes@.len() < u64::MAX,
        call_ensures(EditTool::edited, (&tool, path, &args, read), r),
    ensures
        read is Err ==> r is Err && text::occurs(path@, (r->Err_0).message@),
        read is Ok && !valid_utf8((read->Ok_0)@) ==> r is Err && text::occurs(
            path@,
            (r->Err_0).message@,
        ),
        read is Ok && valid_utf8((read->Ok_0)@) ==> edit_result(
            path@,
            args,
            decode_utf8((read->Ok_0)@),
            r,
        ),
{
    match read {
        Err(s) => files::law_failure_names_the_file("edit"@, path@, s@),
        Ok(bytes) => {
            files::law_failure_names_the_file(
                "edit"@,
                path@,
                "invalid UTF-8: "@ + files::utf8_error(bytes@),
            );
        },
    }
}

} // verus!
