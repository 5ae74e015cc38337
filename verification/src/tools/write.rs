//! The tool `write`: puts a text into a file in place of what was there.
use vstd::prelude::*;
use vstd::string::*;
use vstd::utf8::*;

use crate::json;
use crate::json::Parameter;
use crate::text;
use crate::tool::{ResourceScope, ToolError, ToolResult};
use crate::tools::files;
use crate::tools::files::LockOutcome;

verus! {

/// The arguments of `write`.
#[derive(Debug, Clone, PartialEq)]
pub struct WriteArgs {
    pub path: String,
    pub content: String,
}

/// Writes files.
#[derive(Debug, Clone)]
pub struct WriteTool;

/// What `write` reports.
#[derive(Debug, PartialEq)]
pub struct WriteOutcome {
    pub text: String,
    pub path: String,
    pub bytes: u64,
}

/// How writing ended.
#[derive(Debug)]
pub enum WriteResult {
    Written,
    /// The directory of the file could not be made.
    NoParent(String),
    Failed(String),
}

impl WriteOutcome {
    /// The result of the tool.
    pub fn into_result(self) -> (r: ToolResult)
        ensures
            r.shows(self.text@),
            !r.is_error,
            r.details matches Some(v) && {
                &&& json::has_text(v, "path"@, self.path@)
                &&& json::has_number(v, "bytes"@, self.bytes)
                &&& forall|key: Seq<char>|
                    key != "path"@ && key != "bytes"@ ==> #[trigger] json::field_of(v, key) is None
            },
    {
        let mut fields: Vec<(String, serde_json::Value)> = Vec::new();
        fields.push(("path".to_owned(), json::from_text(self.path)));
        fields.push(("bytes".to_owned(), json::from_number(self.bytes)));
        proof {
            reveal_strlit("path");
            reveal_strlit("bytes");
            assert("path"@.len() == 4);
            assert("bytes"@.len() == 5);
            json::lemma_last_field(fields@, 0);
            json::lemma_last_field(fields@, 1);
            assert forall|key: Seq<char>| key != "path"@ && key != "bytes"@ implies
                #[trigger] json::last_field(fields@, key) is None by {
                json::lemma_no_field(fields@, key);
            }
        }
        ToolResult::with_details(self.text, false, json::from_fields(fields))
    }
}

/// The arguments, as they are described to a model.
pub open spec fn parameter_list() -> Seq<Parameter> {
    seq![
        Parameter { name: "path", kind: "string", minimum: None },
        Parameter { name: "content", kind: "string", minimum: None },
    ]
}

impl WriteTool {
    /// A `write`.
    pub fn new() -> (r: Self) {
        WriteTool
    }

    /// The name of the tool.
    pub fn name(&self) -> (r: &'static str)
        ensures
            r@ == "write"@,
    {
        "write"
    }

    /// What the tool does.
    pub fn description(&self) -> (r: &'static str)
        ensures
            r@
                == "Write content to a file, creating parent directories as needed. Overwrites existing files."@,
    {
        "Write content to a file, creating parent directories as needed. Overwrites existing files."
    }

    /// The schema of the arguments.
    pub fn parameters(&self) -> (r: Option<serde_json::Value>)
        ensures
            r matches Some(v) && json::is_schema(v, parameter_list(), 2),
    {
        let parameters = vec![
            Parameter { name: "path", kind: "string", minimum: None },
            Parameter { name: "content", kind: "string", minimum: None },
        ];
        proof {
            reveal_strlit("path");
            reveal_strlit("content");
            assert("path"@[0] == 'p');
            assert("content"@[0] == 'c');
        }
        assert(parameters@ =~= parameter_list());
        Some(json::object_schema(parameters, 2))
    }

    /// What the tool touches.
    pub fn resource_scope(&self) -> (r: ResourceScope)
        ensures
            r == ResourceScope::FileWriter,
    {
        ResourceScope::FileWriter
    }

    /// Before anything is done.
    pub fn begin(&self, cancelled: bool) -> (r: Result<(), ToolError>)
        ensures
            cancelled ==> (r matches Err(e) && e.message@ == files::cancelled_text(
                "write"@,
                "before IO"@,
            )),
            !cancelled ==> r is Ok,
    {
        files::check_cancelled(cancelled, "write", "before IO")
    }

    /// Once the wait for the lock is over.
    pub fn locked(&self, path: &str, outcome: LockOutcome, cancelled: bool) -> (r: Result<
        (),
        ToolError,
    >)
        ensures
            match outcome {
                LockOutcome::Cancelled => r matches Err(e) && e.message@ == files::cancelled_text(
                    "write"@,
                    "while waiting for file lock"@,
                ),
                LockOutcome::Failed(f) => r matches Err(e) && e.message@ == files::failure(
                    "write"@,
                    path@,
                    f.text(),
                ),
                LockOutcome::Acquired => {
                    &&& cancelled ==> (r matches Err(e) && e.message@ == files::cancelled_text(
                        "write"@,
                        "after acquiring file lock"@,
                    ))
                    &&& !cancelled ==> r is Ok
                },
            },
    {
        files::check_lock(outcome, cancelled, "write", path)
    }

    /// Once the file is written, or could not be.
    pub fn finish(&self, args: &WriteArgs, result: WriteResult) -> (r: Result<
        WriteOutcome,
        ToolError,
    >)
        ensures
            match result {
                WriteResult::Written => {
                    let n = text::byte_len_spec(args.content@);
                    r matches Ok(o) && o.text@ == "wrote "@ + text::decimal(n) + " bytes to "@
                        + args.path@ && o.path@ == args.path@ && o.bytes == n
                },
                WriteResult::NoParent(s) => r matches Err(e) && e.message@ == files::failure(
                    "write"@,
                    args.path@,
                    "create parent dir: "@ + s@,
                ),
                WriteResult::Failed(s) => r matches Err(e) && e.message@ == files::failure(
                    "write"@,
                    args.path@,
                    s@,
                ),
            },
    {
        match result {
            WriteResult::Written => {
                let bytes: u64 = text::byte_len(args.content.as_str()) as u64;
                Ok(
                    WriteOutcome {
                        text: "wrote ".to_owned().concat(text::decimal_u64(bytes).as_str()).concat(
                            " bytes to ",
                        ).concat(args.path.as_str()),
                        path: args.path.clone(),
                        bytes,
                    },
                )
            },
            WriteResult::NoParent(s) => Err(
                files::file_error(
                    "write",
                    args.path.as_str(),
                    "create parent dir: ".to_owned().concat(s.as_str()).as_str(),
                ),
            ),
            WriteResult::Failed(s) => Err(
                files::file_error("write", args.path.as_str(), s.as_str()),
            ),
        }
    }
}

/// A file that was written is reported with its path and the number of bytes that were written; a
/// failure is an error that names the file and what went wrong.
pub proof fn law_writing_is_reported(
    tool: WriteTool,
    args: WriteArgs,
    result: WriteResult,
    r: Result<WriteOutcome, ToolError>,
)
    requires
        call_ensures(WriteTool::finish, (&tool, &args, result), r),
    ensures
        r is Ok <==> result is Written,
        r matches Ok(o) ==> {
            &&& o.bytes == encode_utf8(args.content@).len()
            &&& o.path@ == args.path@
            &&& text::occurs(args.path@, o.text@)
            &&& text::occurs(text::decimal(o.bytes as nat), o.text@)
        },
        r matches Err(e) ==> text::occurs(args.path@, e.message@),
        result matches WriteResult::Failed(s) ==> text::occurs(s@, (r->Err_0).message@),
        result matches WriteResult::NoParent(s) ==> text::occurs(s@, (r->Err_0).message@),
{
    match result {
        WriteResult::Written => {
            lemma_report(text::decimal(text::byte_len_spec(args.content@)), args.path@);
        },
        WriteResult::NoParent(s) => lemma_no_parent(args.path@, s@),
        WriteResult::Failed(s) => {
            files::law_failure_names_the_file("write"@, args.path@, s@);
        },
    }
}

proof fn lemma_report(n: Seq<char>, path: Seq<char>)
    ensures
        text::occurs(n, "wrote "@ + n + " bytes to "@ + path),
        text::occurs(path, "wrote "@ + n + " bytes to "@ + path),
{
    text::lemma_ends_with("wrote "@ + n + " bytes to "@, path);
    text::lemma_occurs("wrote "@, n, " bytes to "@ + path);
    assert("wrote "@ + n + (" bytes to "@ + path) =~= "wrote "@ + n + " bytes to "@ + path);
}

proof fn lemma_no_parent(path: Seq<char>, s: Seq<char>)
    ensures
        text::occurs(path, files::failure("write"@, path, "create parent dir: "@ + s)),
        text::occurs(s, files::failure("write"@, path, "create parent dir: "@ + s)),
{
    let rest = "create parent dir: "@ + s;
    files::law_failure_names_the_file("write"@, path, rest);
    let before = "write"@ + " "@ + path + ": "@;
    assert(files::failure("write"@, path, rest) == before + rest);
    lemma_cause("create parent dir: "@, s, before);
}

proof fn lemma_cause(head: Seq<char>, s: Seq<char>, before: Seq<char>)
    ensures
        text::occurs(s, before + (head + s)),
{
    text::lemma_ends_with(head, s);
    text::lemma_occurs_within(s, before, head + s, Seq::empty());
    assert(before + (head + s) + Seq::<char>::empty() =~= before + (head + s));
}

} // verus!
