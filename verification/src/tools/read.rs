//! The tool `read`: the text of a file, or of a range of its bytes.
use vstd::prelude::*;
use vstd::string::*;
use vstd::utf8::*;

use crate::paths;
use crate::json;
use crate::text;
use crate::tool::{ResourceScope, ToolError, ToolResult};
use crate::tools::files;

verus! {

/// The arguments of `read`.
#[derive(Debug, Clone, PartialEq)]
pub struct ReadArgs {
    pub path: String,
    /// The first byte to read; from the start if it is left out.
    pub offset: Option<u64>,
    /// How many bytes to read; all if it is left out.
    pub limit: Option<u64>,
}

/// Reads files.
#[derive(Debug, Clone)]
pub struct ReadTool {
    /// Where paths that do not begin at the root are taken from; `None` for the directory of the
    /// process.
    pub work_dir: Option<String>,
}

/// What `read` gives back: the text, and what it was taken from.
#[derive(Debug, PartialEq)]
pub struct ReadOutcome {
    pub text: String,
    pub path: String,
    pub bytes: u64,
    pub offset: Option<u64>,
    pub limit: Option<u64>,
}

/// Where the range begins.
pub open spec fn range_start(args: ReadArgs, len: nat) -> nat {
    let offset = match args.offset {
        Some(o) => o as nat,
        None => 0,
    };
    if offset < len {
        offset
    } else {
        len
    }
}

/// Where the range ends.
pub open spec fn range_end(args: ReadArgs, len: nat) -> nat {
    let offset = match args.offset {
        Some(o) => o as nat,
        None => 0,
    };
    match args.limit {
        Some(l) => if offset + l < len {
            offset + l as nat
        } else {
            len
        },
        None => len,
    }
}

impl ReadOutcome {
    /// The result of the tool. The range is told where it was asked for.
    pub fn into_result(self) -> (r: ToolResult)
        ensures
            r.shows(self.text@),
            !r.is_error,
            r.details matches Some(v) && {
                &&& json::has_text(v, "path"@, self.path@)
                &&& json::has_number(v, "bytes"@, self.bytes)
                &&& match self.offset {
                    Some(n) => json::has_number(v, "offset"@, n),
                    None => json::field_of(v, "offset"@) is None,
                }
                &&& match self.limit {
                    Some(n) => json::has_number(v, "limit"@, n),
                    None => json::field_of(v, "limit"@) is None,
                }
                &&& forall|key: Seq<char>|
                    key != "path"@ && key != "bytes"@ && key != "offset"@ && key != "limit"@
                        ==> #[trigger] json::field_of(v, key) is None
            },
    {
        let mut fields: Vec<(String, serde_json::Value)> = Vec::new();
        fields.push(("path".to_owned(), json::from_text(self.path)));
        fields.push(("bytes".to_owned(), json::from_number(self.bytes)));
        match self.offset {
            Some(n) => {
                fields.push(("offset".to_owned(), json::from_number(n)));
            },
            None => {},
        }
        match self.limit {
            Some(n) => {
                fields.push(("limit".to_owned(), json::from_number(n)));
            },
            None => {},
        }
        proof {
            reveal_strlit("path");
            reveal_strlit("bytes");
            reveal_strlit("offset");
            reveal_strlit("limit");
            assert("path"@[0] == 'p');
            assert("bytes"@[0] == 'b');
            assert("offset"@[0] == 'o');
            assert("limit"@[0] == 'l');
            let n = fields@.len() as int;
            assert(fields@[0].0@ == "path"@);
            assert(fields@[1].0@ == "bytes"@);
            if self.offset is Some {
                assert(fields@[2].0@ == "offset"@);
            }
            if self.limit is Some {
                assert(fields@[n - 1].0@ == "limit"@);
            }
            assert(n == 2 || n == 3 || n == 4);
            json::lemma_last_field(fields@, 0);
            json::lemma_last_field(fields@, 1);
            if self.offset is Some {
                json::lemma_last_field(fields@, 2);
            } else {
                json::lemma_no_field(fields@, "offset"@);
            }
            if self.limit is Some {
                json::lemma_last_field(fields@, n - 1);
            } else {
                json::lemma_no_field(fields@, "limit"@);
            }
            assert forall|key: Seq<char>|
                key != "path"@ && key != "bytes"@ && key != "offset"@ && key != "limit"@ implies
                #[trigger] json::last_field(fields@, key) is None by {
                json::lemma_no_field(fields@, key);
            }
        }
        ToolResult::with_details(self.text, false, json::from_fields(fields))
    }
}

/// The bytes that `args` ask for.
pub open spec fn part_of(args: ReadArgs, bytes: Seq<u8>) -> Seq<u8> {
    bytes.subrange(range_start(args, bytes.len()) as int, range_end(args, bytes.len()) as int)
}

impl ReadTool {
    /// A `read` that takes paths from `work_dir`.
    pub fn new(work_dir: Option<String>) -> (r: Self)
        ensures
            r.work_dir == work_dir,
    {
        ReadTool { work_dir }
    }

    /// The name of the tool.
    pub fn name(&self) -> (r: &'static str)
        ensures
            r@ == "read"@,
    {
        "read"
    }

    /// What the tool does.
    pub fn description(&self) -> (r: &'static str)
        ensures
            r@ == "Read the contents of a file. Supports byte offset and limit slicing."@,
    {
        "Read the contents of a file. Supports byte offset and limit slicing."
    }

    /// What the tool touches.
    pub fn resource_scope(&self) -> (r: ResourceScope)
        ensures
            r == ResourceScope::ReadOnly,
    {
        ResourceScope::ReadOnly
    }

    /// Before anything is done.
    pub fn begin(&self, cancelled: bool) -> (r: Result<(), ToolError>)
        ensures
            cancelled ==> (r matches Err(e) && e.message@ == files::cancelled_text(
                "read"@,
                "before IO"@,
            )),
            !cancelled ==> r is Ok,
    {
        files::check_cancelled(cancelled, "read", "before IO")
    }

    /// The path that is read.
    pub fn resolve(&self, args: &ReadArgs) -> (r: String)
        ensures
            paths::resolves_to(paths::dir_view(self.work_dir), args.path@, r@),
    {
        match &self.work_dir {
            Some(d) => paths::resolve_tool_path(Some(d.as_str()), args.path.as_str()),
            None => paths::resolve_tool_path(None, args.path.as_str()),
        }
    }

    /// The result, given the bytes of the file. The file must be UTF-8 as a whole; a range that
    /// cuts a character leaves a mark in place of it.
    pub fn finish(&self, path: &str, args: &ReadArgs, read: Result<Vec<u8>, String>) -> (r: Result<
        ReadOutcome,
        ToolError,
    >)
        ensures
            match read {
                Err(s) => r matches Err(e) && e.message@ == files::failure("read"@, path@, s@),
                Ok(bytes) => if !valid_utf8(bytes@) {
                    r matches Err(e) && e.message@ == files::failure(
                        "read"@,
                        path@,
                        "invalid UTF-8"@,
                    )
                } else {
                    let part = part_of(*args, bytes@);
                    &&& r matches Ok(o)
                    &&& o.text@ == files::lossy_text(part)
                    &&& files::shown_as_written(part)
                    &&& o.path@ == path@
                    &&& o.bytes == part.len()
                    &&& o.offset == args.offset
                    &&& o.limit == args.limit
                },
            },
    {
        let bytes = match read {
            Ok(bytes) => bytes,
            Err(s) => {
                return Err(files::file_error("read", path, s.as_str()));
            },
        };
        if !files::is_utf8(bytes.as_slice()) {
            return Err(files::file_error("read", path, "invalid UTF-8"));
        }
        let part = slice_range(bytes.as_slice(), args);
        let text = files::text_lossy(part);
        Ok(
            ReadOutcome {
                text,
                path: path.to_owned(),
                bytes: part.len() as u64,
                offset: args.offset,
                limit: args.limit,
            },
        )
    }
}

/// The bytes that `args` ask for.
pub fn slice_range<'a>(bytes: &'a [u8], args: &ReadArgs) -> (r: &'a [u8])
    ensures
        0 <= range_start(*args, bytes@.len()) <= range_end(*args, bytes@.len()) <= bytes@.len(),
        r@ == part_of(*args, bytes@),
{
    let len: u64 = bytes.len() as u64;
    let offset: u64 = match args.offset {
        Some(o) => o,
        None => 0,
    };
    let start: u64 = if offset < len {
        offset
    } else {
        len
    };
    let end: u64 = match args.limit {
        Some(l) => if offset >= len || l >= len - offset {
            len
        } else {
            offset + l
        },
        None => len,
    };
    vstd::slice::slice_subrange(bytes, start as usize, end as usize)
}

/// Reading a file without a range gives its text: where the bytes of the file write `content`,
/// they are read, and what is shown is `content`.
pub proof fn law_whole_file_is_read_exactly(
    args: ReadArgs,
    bytes: Seq<u8>,
    content: Seq<char>,
    text: Seq<char>,
)
    requires
        args.offset is None,
        args.limit is None,
        bytes == encode_utf8(content),
        text == files::lossy_text(part_of(args, bytes)),
        files::shown_as_written(part_of(args, bytes)),
    ensures
        valid_utf8(bytes),
        part_of(args, bytes) == bytes,
        text == content,
{
    assert(part_of(args, bytes) =~= bytes);
    files::lemma_text_is_shown(content);
}

/// A range begins at the byte that was asked for and has as many bytes as were asked for, as far as
/// the file goes; behind the end of the file there is nothing.
pub proof fn law_range_is_what_was_asked_for(args: ReadArgs, bytes: Seq<u8>)
    ensures
        ({
            let from = match args.offset {
                Some(o) => o as int,
                None => 0,
            };
            let part = part_of(args, bytes);
            &&& from >= bytes.len() ==> part.len() == 0
            &&& from < bytes.len() ==> {
                let rest = bytes.skip(from);
                match args.limit {
                    Some(l) => part == if l <= rest.len() {
                        rest.take(l as int)
                    } else {
                        rest
                    },
                    None => part == rest,
                }
            }
        }),
{
    let from = match args.offset {
        Some(o) => o as int,
        None => 0,
    };
    if from < bytes.len() {
        let rest = bytes.skip(from);
        if let Some(l) = args.limit {
            if l <= rest.len() {
                assert(part_of(args, bytes) =~= rest.take(l as int));
            } else {
                assert(part_of(args, bytes) =~= rest);
            }
        } else {
            assert(part_of(args, bytes) =~= rest);
        }
    }
}

/// Reading in two ranges, where the second begins at the end of the first, gives the same bytes
/// as reading both at once.
pub proof fn law_ranges_join(
    bytes: Seq<u8>,
    first: ReadArgs,
    second: ReadArgs,
    both: ReadArgs,
)
    requires
        first.offset is Some,
        first.limit is Some,
        second.offset is Some,
        second.limit is Some,
        both.limit is Some,
        both.offset == first.offset,
        second.offset->0 == first.offset->0 + first.limit->0,
        both.limit->0 == first.limit->0 + second.limit->0,
    ensures
        part_of(first, bytes) + part_of(second, bytes) == part_of(both, bytes),
{
    let n = bytes.len();
    assert(bytes.subrange(range_start(first, n) as int, range_end(first, n) as int)
        + bytes.subrange(range_start(second, n) as int, range_end(second, n) as int)
        =~= bytes.subrange(range_start(both, n) as int, range_end(both, n) as int));
}

/// A file is read just where its bytes are there and are UTF-8 as a whole; the outcome has the number
/// of bytes that are shown. A failure names the file.
pub proof fn law_reading_is_reported(
    tool: ReadTool,
    path: &str,
    args: ReadArgs,
    read: Result<Vec<u8>, String>,
    r: Result<ReadOutcome, ToolError>,
)
    requires
        call_ensures(ReadTool::finish, (&tool, path, &args, read), r),
    ensures
        r is Ok <==> read is Ok && valid_utf8(read->Ok_0@),
        r matches Ok(o) ==> {
            &&& o.path@ == path@
            &&& o.bytes <= (read->Ok_0)@.len()
            &&& args.offset is None && args.limit is None ==> encode_utf8(o.text@)
                == (read->Ok_0)@ && o.bytes == (read->Ok_0)@.len()
            &&& args.limit matches Some(l) ==> o.bytes <= l
        },
        r matches Err(e) ==> text::occurs(path@, e.message@),
        read matches Err(s) ==> text::occurs(s@, (r->Err_0).message@),
{
    match read {
        Err(s) => files::law_failure_names_the_file("read"@, path@, s@),
        Ok(bytes) => {
            files::law_failure_names_the_file("read"@, path@, "invalid UTF-8"@);
            law_range_is_what_was_asked_for(args, bytes@);
            if args.offset is None && args.limit is None {
                assert(part_of(args, bytes@) =~= bytes@);
            }
        },
    }
}

} // verus!
