//! What the tools that work on files have in common.
use vstd::prelude::*;
use vstd::string::*;
use vstd::utf8::*;

use crate::text;
use crate::tool::ToolError;
use crate::tools::file_mutation_queue::FileMutationError;

verus! {

/// The text `verb path: rest`.
pub open spec fn failure(verb: Seq<char>, path: Seq<char>, rest: Seq<char>) -> Seq<char> {
    verb + " "@ + path + ": "@ + rest
}

/// The error `verb path: rest`.
pub fn file_error(verb: &str, path: &str, rest: &str) -> (r: ToolError)
    ensures
        r.message@ == failure(verb@, path@, rest@),
{
    ToolError::new(verb.to_owned().concat(" ").concat(path).concat(": ").concat(rest))
}

/// The text `cancelled: verb aborted when`.
pub open spec fn cancelled_text(verb: Seq<char>, when: Seq<char>) -> Seq<char> {
    "cancelled: "@ + verb + " aborted "@ + when
}

/// Goes on unless the call was cancelled.
pub fn check_cancelled(cancelled: bool, verb: &str, when: &str) -> (r: Result<(), ToolError>)
    ensures
        cancelled ==> (r matches Err(e) && e.message@ == cancelled_text(verb@, when@)),
        !cancelled ==> r is Ok,
{
    if cancelled {
        Err(
            ToolError::new(
                "cancelled: ".to_owned().concat(verb).concat(" aborted ").concat(when),
            ),
        )
    } else {
        Ok(())
    }
}

/// How waiting for the lock of a file ended.
#[derive(Debug)]
pub enum LockOutcome {
    Acquired,
    Failed(FileMutationError),
    Cancelled,
}

/// Goes on only with the lock, and only if the call was not cancelled by the time it was had.
pub fn check_lock(outcome: LockOutcome, cancelled: bool, verb: &str, path: &str) -> (r: Result<
    (),
    ToolError,
>)
    ensures
        match outcome {
            LockOutcome::Cancelled => r matches Err(e) && e.message@ == cancelled_text(
                verb@,
                "while waiting for file lock"@,
            ),
            LockOutcome::Failed(f) => r matches Err(e) && e.message@ == failure(
                verb@,
                path@,
                f.text(),
            ),
            LockOutcome::Acquired => {
                &&& cancelled ==> (r matches Err(e) && e.message@ == cancelled_text(
                    verb@,
                    "after acquiring file lock"@,
                ))
                &&& !cancelled ==> r is Ok
            },
        },
{
    match outcome {
        LockOutcome::Cancelled => check_cancelled(true, verb, "while waiting for file lock"),
        LockOutcome::Failed(f) => Err(file_error(verb, path, f.message().as_str())),
        LockOutcome::Acquired => check_cancelled(cancelled, verb, "after acquiring file lock"),
    }
}

/// Goes on only with a regular file; `stat` says whether it is one.
pub fn check_regular(verb: &str, path: &str, stat: Result<bool, String>) -> (r: Result<
    (),
    ToolError,
>)
    ensures
        match stat {
            Ok(regular) => {
                &&& regular ==> r is Ok
                &&& !regular ==> (r matches Err(e) && e.message@ == failure(
                    verb@,
                    path@,
                    "not a regular file"@,
                ))
            },
            Err(s) => r matches Err(e) && e.message@ == failure(verb@, path@, s@),
        },
{
    match stat {
        Ok(regular) => if regular {
            Ok(())
        } else {
            Err(file_error(verb, path, "not a regular file"))
        },
        Err(s) => Err(file_error(verb, path, s.as_str())),
    }
}

/// The text of the error of `String::from_utf8`.
pub uninterp spec fn utf8_error(bytes: Seq<u8>) -> Seq<char>;

/// Calls `String::from_utf8` and takes its error as text. It succeeds on UTF-8 alone, and then
/// the text has the bytes that it was made of; the text of the error is a function of the bytes,
/// named `utf8_error`.
#[verifier::external_body]
pub(crate) fn text_of_bytes(bytes: Vec<u8>) -> (r: Result<String, String>)
    ensures
        match r {
            Ok(s) => valid_utf8(bytes@) && encode_utf8(s@) == bytes@,
            Err(e) => !valid_utf8(bytes@) && e@ == utf8_error(bytes@),
        },
{
    String::from_utf8(bytes).map_err(|e| e.to_string())
}

/// Calls `std::str::from_utf8`: whether it succeeds, which it does on UTF-8 alone.
#[verifier::external_body]
pub(crate) fn is_utf8(bytes: &[u8]) -> (r: bool)
    ensures
        r == valid_utf8(bytes@),
{
    std::str::from_utf8(bytes).is_ok()
}

/// What `String::from_utf8_lossy` makes of bytes.
pub uninterp spec fn lossy_text(bytes: Seq<u8>) -> Seq<char>;

/// Whether `bytes`, if they are UTF-8, are shown as the text that they write.
pub open spec fn shown_as_written(bytes: Seq<u8>) -> bool {
    valid_utf8(bytes) ==> encode_utf8(lossy_text(bytes)) == bytes
}

/// The bytes of a text are shown as that text.
pub(crate) proof fn lemma_text_is_shown(text: Seq<char>)
    requires
        shown_as_written(encode_utf8(text)),
    ensures
        valid_utf8(encode_utf8(text)),
        lossy_text(encode_utf8(text)) == text,
{
    let shown = lossy_text(encode_utf8(text));
    encode_utf8_valid_utf8(text);
    encode_utf8_decode_utf8(text);
    encode_utf8_decode_utf8(shown);
}

/// Calls `String::from_utf8_lossy`. The text is a function of the bytes, named `lossy_text`; for
/// bytes that are UTF-8 it is the text that they write.
#[verifier::external_body]
pub(crate) fn text_lossy(bytes: &[u8]) -> (r: String)
    ensures
        r@ == lossy_text(bytes@),
        valid_utf8(bytes@) ==> encode_utf8(r@) == bytes@,
{
    String::from_utf8_lossy(bytes).into_owned()
}

/// The text of a failure says what was to be done, with which file, and what went wrong.
pub proof fn law_failure_names_the_file(verb: Seq<char>, path: Seq<char>, rest: Seq<char>)
    ensures
        verb.is_prefix_of(failure(verb, path, rest)),
        text::occurs(path, failure(verb, path, rest)),
        text::occurs(rest, failure(verb, path, rest)),
{
    let whole = failure(verb, path, rest);
    assert(whole.subrange(0, verb.len() as int) =~= verb);
    text::lemma_occurs(verb + " "@, path, ": "@ + rest);
    assert(whole =~= verb + " "@ + path + (": "@ + rest));
    text::lemma_ends_with(verb + " "@ + path + ": "@, rest);
}

/// The text of a cancellation says what was cancelled, and when.
pub proof fn law_cancellation_is_told(verb: Seq<char>, when: Seq<char>)
    ensures
        "cancelled: "@.is_prefix_of(cancelled_text(verb, when)),
        text::occurs(verb, cancelled_text(verb, when)),
        text::occurs(when, cancelled_text(verb, when)),
{
    let whole = cancelled_text(verb, when);
    assert(whole.subrange(0, "cancelled: "@.len() as int) =~= "cancelled: "@);
    text::lemma_occurs("cancelled: "@, verb, " aborted "@ + when);
    assert(whole =~= "cancelled: "@ + verb + (" aborted "@ + when));
    text::lemma_ends_with("cancelled: "@ + verb + " aborted "@, when);
}

/// A tool goes on just where it was not cancelled, it has the lock, and the file is a regular one.
pub proof fn law_tool_goes_on_where_it_may(
    verb: &str,
    path: &str,
    cancelled: bool,
    when: &str,
    checked: Result<(), ToolError>,
    outcome: LockOutcome,
    locked: Result<(), ToolError>,
    stat: Result<bool, String>,
    regular: Result<(), ToolError>,
)
    requires
        call_ensures(check_cancelled, (cancelled, verb, when), checked),
        call_ensures(check_lock, (outcome, cancelled, verb, path), locked),
        call_ensures(check_regular, (verb, path, stat), regular),
    ensures
        checked is Ok <==> !cancelled,
        locked is Ok <==> outcome is Acquired && !cancelled,
        regular is Ok <==> stat is Ok && stat->Ok_0,
        regular matches Err(e) ==> text::occurs(path@, e.message@),
        regular matches Err(e) ==> (stat matches Err(s) ==> text::occurs(s@, e.message@)),
        outcome is Failed ==> text::occurs(path@, (locked->Err_0).message@),
{
    law_failure_names_the_file(verb@, path@, "not a regular file"@);
    if let Err(s) = stat {
        law_failure_names_the_file(verb@, path@, s@);
    }
    if let LockOutcome::Failed(f) = outcome {
        law_failure_names_the_file(verb@, path@, f.text());
    }
}

} // verus!
