//! The tool `bash`: runs a command in a shell.
use vstd::prelude::*;
use vstd::string::*;
use vstd::utf8::*;

use crate::json;
use crate::json::Parameter;
use crate::text;
use crate::tool::{ResourceScope, ToolError, ToolResult};
use crate::tools::files;

verus! {

/// The arguments of `bash`.
#[derive(Debug, Clone, PartialEq)]
pub struct BashArgs {
    pub command: String,
    pub cwd: Option<String>,
    pub timeout_ms: Option<u64>,
}

/// Runs commands.
#[derive(Debug, Clone)]
pub struct BashTool {
    /// Where commands run that name no directory; `None` for the directory of the process.
    pub default_cwd: Option<String>,
}

/// How a command ended.
#[derive(Debug)]
pub enum BashEnd {
    /// It could not be started.
    NotStarted(String),
    Cancelled,
    TimedOut,
    /// Waiting for it failed.
    WaitFailed(String),
    /// The task that read `stdout` or `stderr` failed.
    DrainFailed { label: String, error: String },
    /// Reading `stdout` or `stderr` failed.
    ReadFailed { label: String, error: String },
    /// It exited, with a code unless a signal ended it, and wrote this.
    Exited { code: Option<i32>, stdout: Vec<u8>, stderr: Vec<u8> },
}

/// What `bash` gives back: the text, whether the command failed, its exit code, and for a command
/// that failed both its outputs.
#[derive(Debug, PartialEq)]
pub struct BashOutcome {
    pub text: String,
    pub is_error: bool,
    pub exit_code: i64,
    pub outputs: Option<(String, String)>,
}

/// The exit code, -1 where there is none.
pub open spec fn code_of(code: Option<i32>) -> int {
    match code {
        Some(c) => c as int,
        None => -1,
    }
}

/// Both outputs as one text: a line break parts them where there are both.
pub open spec fn both_outputs(stdout: Seq<char>, stderr: Seq<char>) -> Seq<char> {
    if stderr.len() == 0 {
        stdout
    } else if stdout.len() == 0 {
        stderr
    } else {
        stdout + "\n"@ + stderr
    }
}

/// What a command that exited gives back.
pub open spec fn exit_outcome(
    code: Option<i32>,
    stdout: Seq<char>,
    stderr: Seq<char>,
    o: BashOutcome,
) -> bool {
    &&& o.exit_code == code_of(code)
    &&& if code_of(code) == 0 {
        o.text@ == stdout && !o.is_error && o.outputs is None
    } else {
        &&& o.text@ == both_outputs(stdout, stderr)
        &&& o.is_error
        &&& o.outputs matches Some(out)
        &&& out.0@ == stdout
        &&& out.1@ == stderr
    }
}

/// What a command that exited and wrote these bytes gives back.
pub open spec fn shows_exit(
    code: Option<i32>,
    stdout: Seq<u8>,
    stderr: Seq<u8>,
    o: BashOutcome,
) -> bool {
    &&& exit_outcome(code, files::lossy_text(stdout), files::lossy_text(stderr), o)
    &&& files::shown_as_written(stdout)
    &&& files::shown_as_written(stderr)
}

/// The text that a command writes is the text that is given back.
pub proof fn law_output_is_shown_as_written(
    code: Option<i32>,
    stdout: Seq<char>,
    stderr: Seq<char>,
    o: BashOutcome,
)
    requires
        shows_exit(code, encode_utf8(stdout), encode_utf8(stderr), o),
    ensures
        exit_outcome(code, stdout, stderr, o),
{
    files::lemma_text_is_shown(stdout);
    files::lemma_text_is_shown(stderr);
}

/// Nothing that a command wrote is left out of what the model is shown of a failure: all of the
/// output is at the front of the text and all of the error output at its end, with at most a line
/// break between them. Of a command that succeeded the text is its output.
pub proof fn law_output_is_shown_whole(
    code: Option<i32>,
    stdout: Seq<char>,
    stderr: Seq<char>,
    o: BashOutcome,
)
    requires
        exit_outcome(code, stdout, stderr, o),
    ensures
        stdout.is_prefix_of(o.text@),
        o.is_error ==> stderr.is_suffix_of(o.text@),
        o.is_error ==> o.text@.len() == stdout.len() + stderr.len() + (if stdout.len() > 0
            && stderr.len() > 0 {
            1int
        } else {
            0int
        }),
        o.is_error && stdout.len() > 0 && stderr.len() > 0 ==> o.text@[stdout.len() as int] == '\n',
        !o.is_error ==> o.text@ == stdout,
        o.is_error ==> (o.outputs matches Some(out) && out.0@ == stdout && out.1@ == stderr),
{
    reveal_strlit("\n");
    let t = o.text@;
    assert(t.subrange(0, stdout.len() as int) =~= stdout);
    if o.is_error {
        assert(t.subrange(t.len() - stderr.len(), t.len() as int) =~= stderr);
    }
}

/// A command failed just where it did not exit with the code 0, and the code that is told is the
/// one that it exited with.
pub proof fn law_exit_code_is_told(
    code: Option<i32>,
    stdout: Seq<char>,
    stderr: Seq<char>,
    o: BashOutcome,
)
    requires
        exit_outcome(code, stdout, stderr, o),
    ensures
        o.is_error <==> code != Some(0i32),
        code matches Some(c) ==> o.exit_code == c,
        code is None ==> o.exit_code == -1,
{
}

/// Whether `v` tells the exit code, and the outputs where they are there.
pub open spec fn tells(v: serde_json::Value, o: BashOutcome) -> bool {
    &&& json::field_of(v, "exit_code"@) matches Some(n) && json::signed_of(n) == Some(o.exit_code)
    &&& match o.outputs {
        Some(out) => json::has_text(v, "stdout"@, out.0@) && json::has_text(
            v,
            "stderr"@,
            out.1@,
        ),
        None => json::field_of(v, "stdout"@) is None && json::field_of(v, "stderr"@) is None,
    }
    &&& forall|key: Seq<char>|
        key != "exit_code"@ && key != "stdout"@ && key != "stderr"@ ==> #[trigger] json::field_of(
            v,
            key,
        ) is None
}

impl BashOutcome {
    /// The result of the tool.
    pub fn into_result(self) -> (r: ToolResult)
        ensures
            r.shows(self.text@),
            r.is_error == self.is_error,
            r.details matches Some(v) && tells(v, self),
    {
        let mut fields: Vec<(String, serde_json::Value)> = Vec::new();
        fields.push(("exit_code".to_owned(), json::from_signed(self.exit_code)));
        let ghost outputs = self.outputs;
        match self.outputs {
            Some(out) => {
                fields.push(("stdout".to_owned(), json::from_text(out.0)));
                fields.push(("stderr".to_owned(), json::from_text(out.1)));
            },
            None => {},
        }
        proof {
            reveal_strlit("exit_code");
            reveal_strlit("stdout");
            reveal_strlit("stderr");
            assert("exit_code"@.len() == 9);
            assert("stdout"@[3] == 'o');
            assert("stderr"@[3] == 'e');
            json::lemma_last_field(fields@, 0);
            if outputs is Some {
                json::lemma_last_field(fields@, 1);
                json::lemma_last_field(fields@, 2);
            } else {
                json::lemma_no_field(fields@, "stdout"@);
                json::lemma_no_field(fields@, "stderr"@);
            }
            assert forall|key: Seq<char>|
                key != "exit_code"@ && key != "stdout"@ && key != "stderr"@ implies
                #[trigger] json::last_field(fields@, key) is None by {
                json::lemma_no_field(fields@, key);
            }
        }
        ToolResult::with_details(self.text, self.is_error, json::from_fields(fields))
    }
}

/// The arguments, as they are described to a model.
pub open spec fn parameter_list() -> Seq<Parameter> {
    seq![
        Parameter { name: "command", kind: "string", minimum: None },
        Parameter { name: "cwd", kind: "string", minimum: None },
        Parameter { name: "timeout_ms", kind: "integer", minimum: Some(1) },
    ]
}

impl BashTool {
    /// A `bash` that runs commands in `default_cwd`.
    pub fn new(default_cwd: Option<String>) -> (r: Self)
        ensures
            r.default_cwd == default_cwd,
    {
        BashTool { default_cwd }
    }

    /// The name of the tool.
    pub fn name(&self) -> (r: &'static str)
        ensures
            r@ == "bash"@,
    {
        "bash"
    }

    /// What the tool does.
    pub fn description(&self) -> (r: &'static str)
        ensures
            r@
                == "Run a shell command via `sh -c`. Supports cwd and timeout_ms. Non-zero exit returns an error result (not a throw)."@,
    {
        "Run a shell command via `sh -c`. Supports cwd and timeout_ms. Non-zero exit returns an error result (not a throw)."
    }

    /// The schema of the arguments.
    pub fn parameters(&self) -> (r: Option<serde_json::Value>)
        ensures
            r matches Some(v) && json::is_schema(v, parameter_list(), 1),
    {
        let parameters = vec![
            Parameter { name: "command", kind: "string", minimum: None },
            Parameter { name: "cwd", kind: "string", minimum: None },
            Parameter { name: "timeout_ms", kind: "integer", minimum: Some(1) },
        ];
        proof {
            reveal_strlit("command");
            reveal_strlit("cwd");
            reveal_strlit("timeout_ms");
            assert("command"@.len() == 7);
            assert("cwd"@.len() == 3);
            assert("timeout_ms"@.len() == 10);
        }
        assert(parameters@ =~= parameter_list());
        Some(json::object_schema(parameters, 1))
    }

    /// What the tool touches.
    pub fn resource_scope(&self) -> (r: ResourceScope)
        ensures
            r == ResourceScope::Exclusive,
    {
        ResourceScope::Exclusive
    }

    /// Before the command is started.
    pub fn begin(&self, cancelled: bool) -> (r: Result<(), ToolError>)
        ensures
            cancelled ==> (r matches Err(e) && e.message@ == files::cancelled_text(
                "bash"@,
                "before spawn"@,
            )),
            !cancelled ==> r is Ok,
    {
        files::check_cancelled(cancelled, "bash", "before spawn")
    }

    /// Where the command runs: where the call says, unless it says nothing.
    pub fn command_cwd(&self, args: &BashArgs) -> (r: Option<String>)
        ensures
            r == (match args.cwd {
                Some(c) if c@.len() > 0 => Some(c),
                _ => self.default_cwd,
            }),
    {
        match &args.cwd {
            Some(c) => if !c.as_str().is_empty() {
                return Some(c.clone());
            },
            None => {},
        }
        match &self.default_cwd {
            Some(d) => Some(d.clone()),
            None => None,
        }
    }

    /// The result of a command that exited.
    pub fn assemble_result(code: Option<i32>, stdout: String, stderr: String) -> (r: BashOutcome)
        ensures
            exit_outcome(code, stdout@, stderr@, r),
    {
        let exit_code: i64 = match code {
            Some(c) => c as i64,
            None => -1,
        };
        if exit_code == 0 {
            return BashOutcome { text: stdout, is_error: false, exit_code: 0, outputs: None };
        }
        let text = if stderr.as_str().is_empty() {
            stdout.clone()
        } else if stdout.as_str().is_empty() {
            stderr.clone()
        } else {
            stdout.clone().concat("\n").concat(stderr.as_str())
        };
        BashOutcome { text, is_error: true, exit_code, outputs: Some((stdout, stderr)) }
    }

    /// The result of the call, given how the command ended. A command that exits with a code other
    /// than 0 is a result; a command that did not come to its end is an error. Output that is UTF-8
    /// is shown as the text that it writes.
    pub fn finish(&self, args: &BashArgs, end: BashEnd) -> (r: Result<BashOutcome, ToolError>)
        ensures
            match end {
                BashEnd::NotStarted(s) => r matches Err(e) && e.message@ == "bash spawn: "@ + s@,
                BashEnd::Cancelled => r matches Err(e) && e.message@ == "cancelled: bash killed"@,
                BashEnd::TimedOut => r matches Err(e) && e.message@
                    == "timeout: bash killed after "@ + text::decimal(
                    (match args.timeout_ms {
                        Some(ms) => ms as nat,
                        None => 0,
                    }),
                ) + "ms"@,
                BashEnd::WaitFailed(s) => r matches Err(e) && e.message@ == "bash wait: "@ + s@,
                BashEnd::DrainFailed { label, error } => r matches Err(e) && e.message@
                    == "bash: join "@ + label@ + " drain task: "@ + error@,
                BashEnd::ReadFailed { label, error } => r matches Err(e) && e.message@
                    == "bash: read "@ + label@ + ": "@ + error@,
                BashEnd::Exited { code, stdout, stderr } => {
                    &&& r matches Ok(o)
                    &&& shows_exit(code, stdout@, stderr@, o)
                },
            },
    {
        match end {
            BashEnd::NotStarted(s) => Err(
                ToolError::new("bash spawn: ".to_owned().concat(s.as_str())),
            ),
            BashEnd::Cancelled => Err(ToolError::new("cancelled: bash killed".to_owned())),
            BashEnd::TimedOut => {
                let ms: u64 = match args.timeout_ms {
                    Some(ms) => ms,
                    None => 0,
                };
                Err(
                    ToolError::new(
                        "timeout: bash killed after ".to_owned().concat(
                            text::decimal_u64(ms).as_str(),
                        ).concat("ms"),
                    ),
                )
            },
            BashEnd::WaitFailed(s) => Err(
                ToolError::new("bash wait: ".to_owned().concat(s.as_str())),
            ),
            BashEnd::DrainFailed { label, error } => Err(
                ToolError::new(
                    "bash: join ".to_owned().concat(label.as_str()).concat(" drain task: ").concat(
                        error.as_str(),
                    ),
                ),
            ),
            BashEnd::ReadFailed { label, error } => Err(
                ToolError::new(
                    "bash: read ".to_owned().concat(label.as_str()).concat(": ").concat(
                        error.as_str(),
                    ),
                ),
            ),
            BashEnd::Exited { code, stdout, stderr } => {
                let out = files::text_lossy(stdout.as_slice());
                let err = files::text_lossy(stderr.as_slice());
                Ok(Self::assemble_result(code, out, err))
            },
        }
    }
}

/// A command that came to its end gives a result, whatever its code; one that did not is an error that
/// says why.
pub proof fn law_only_exits_are_results(
    tool: BashTool,
    args: BashArgs,
    end: BashEnd,
    r: Result<BashOutcome, ToolError>,
)
    requires
        call_ensures(BashTool::finish, (&tool, &args, end), r),
    ensures
        r is Ok <==> end is Exited,
        r matches Ok(o) ==> (end matches BashEnd::Exited { code, .. } && (o.is_error <==> code
            != Some(0i32))),
        end matches BashEnd::NotStarted(s) ==> text::occurs(s@, (r->Err_0).message@),
        end matches BashEnd::WaitFailed(s) ==> text::occurs(s@, (r->Err_0).message@),
        end matches BashEnd::ReadFailed { label, error } ==> text::occurs(
            error@,
            (r->Err_0).message@,
        ),
        end matches BashEnd::DrainFailed { label, error } ==> text::occurs(
            error@,
            (r->Err_0).message@,
        ),
        end is TimedOut ==> (args.timeout_ms matches Some(ms) ==> text::occurs(
            text::decimal(ms as nat),
            (r->Err_0).message@,
        )),
{
    match end {
        BashEnd::NotStarted(s) => text::lemma_ends_with("bash spawn: "@, s@),
        BashEnd::WaitFailed(s) => text::lemma_ends_with("bash wait: "@, s@),
        BashEnd::ReadFailed { label, error } => {
            text::lemma_ends_with("bash: read "@ + label@ + ": "@, error@);
        },
        BashEnd::DrainFailed { label, error } => {
            text::lemma_ends_with("bash: join "@ + label@ + " drain task: "@, error@);
        },
        BashEnd::TimedOut => {
            if let Some(ms) = args.timeout_ms {
                text::lemma_occurs(
                    "timeout: bash killed after "@,
                    text::decimal(ms as nat),
                    "ms"@,
                );
            }
        },
        _ => {},
    }
}

/// A command runs where the call says; where it says nothing, or nothing but an empty path, it runs
/// where the tool was set up to.
pub proof fn law_command_runs_where_it_was_told(tool: BashTool, args: BashArgs, r: Option<String>)
    requires
        call_ensures(BashTool::command_cwd, (&tool, &args), r),
    ensures
        args.cwd is Some && (args.cwd->0)@.len() > 0 ==> r == args.cwd,
        args.cwd is None || (args.cwd->0)@.len() == 0 ==> r == tool.default_cwd,
{
}

/// The details of a result tell the exit code, and both outputs of a command that failed.
pub proof fn law_details_tell_the_outputs(
    v: serde_json::Value,
    code: Option<i32>,
    stdout: Seq<char>,
    stderr: Seq<char>,
    o: BashOutcome,
)
    requires
        exit_outcome(code, stdout, stderr, o),
        tells(v, o),
    ensures
        json::field_of(v, "exit_code"@) is Some,
        code matches Some(c) ==> json::signed_of(json::field_of(v, "exit_code"@)->0) == Some(
            c as i64,
        ),
        code != Some(0i32) ==> json::has_text(v, "stdout"@, stdout) && json::has_text(
            v,
            "stderr"@,
            stderr,
        ),
        code == Some(0i32) ==> json::field_of(v, "stdout"@) is None,
{
}

} // verus!
