use std::path::Path;
use std::sync::atomic::{AtomicUsize, Ordering};
use std::sync::Arc;

use guigu::file_lock::{FileLock, FileLockError};
use guigu::message::ToolResultContent;
use guigu::paths::resolve_tool_path;
use guigu::runtime::tools::ToolInfo;
use guigu::schema::root_schema;
use guigu::tool::{ResourceScope, ToolError, ToolResult};
use guigu::tools::bash::{BashArgs, BashEnd, BashTool};
use guigu::tools::deferred::{DeferredTool, DeferredToolSpec};
use guigu::tools::echo::{EchoArgs, EchoTool};
use guigu::tools::edit::{replace_unique, EditArgs, EditTool};
use guigu::tools::file_mutation_queue::{FileMutationError, FileMutationQueue, PRUNE_THRESHOLD};
use guigu::tools::files::{check_regular, LockOutcome};
use guigu::tools::read::{slice_range, ReadArgs, ReadTool};
use guigu::tools::write::{WriteArgs, WriteResult, WriteTool};

fn json(text: &str) -> serde_json::Value {
    serde_json::from_str(text).expect("JSON")
}

#[test]
fn test_resolve_absolute_unchanged() {
    let p = resolve_tool_path(Some("/work"), "/abs/file.txt");
    assert_eq!(p, "/abs/file.txt");
}

#[test]
fn test_resolve_relative_joins_work_dir() {
    let p = resolve_tool_path(Some("/work"), "sub/file.txt");
    assert_eq!(p, "/work/sub/file.txt");
}

#[test]
fn test_resolve_relative_no_work_dir() {
    let p = resolve_tool_path(None, "file.txt");
    let p = Path::new(&p);
    assert!(p.is_absolute());
    assert!(p.ends_with("file.txt"));
}

#[test]
fn test_resolve_relative_work_dir() {
    let p = resolve_tool_path(Some("sub"), "file.txt");
    let p = Path::new(&p);
    assert!(p.is_absolute());
    assert!(p.ends_with("sub/file.txt"));
}

#[test]
fn paths_are_normalised_before_they_are_locked() {
    assert_eq!(resolve_tool_path(Some("/work"), "./a/./b.txt"), "/work/a/b.txt");
    assert_eq!(resolve_tool_path(Some("/one"), "/x"), resolve_tool_path(Some("/two"), "/x"));
}

#[test]
fn resolved_paths_resolve_to_themselves() {
    for raw in [
        "/a//./b/../c", "//a/./b", "///a//b/", "/", "//", "//.", "/./", "/a/.", "/a/./", "/..",
        "a//b/.", "./a", ".", "../x/", "~",
    ] {
        for dir in [None, Some("/work/./dir"), Some("rel/../dir")] {
            let r = resolve_tool_path(dir, raw);
            assert!(r.starts_with('/'), "{raw}");
            assert_eq!(resolve_tool_path(None, &r), r, "{raw}");
            assert_eq!(resolve_tool_path(Some("/elsewhere"), &r), r, "{raw}");
        }
    }
    assert_eq!(resolve_tool_path(None, "/a//./b/../c"), "/a/b/../c");
    assert_eq!(resolve_tool_path(None, ""), "");
}

#[test]
fn plain_relative_paths_come_last() {
    assert_eq!(resolve_tool_path(Some("/work/dir"), "a/../b.txt"), "/work/dir/a/../b.txt");
    assert_eq!(resolve_tool_path(None, "/a/.../b..c"), "/a/.../b..c");
    let here = resolve_tool_path(None, "x/y.txt");
    assert!(here.ends_with("/x/y.txt"));
    let below = resolve_tool_path(Some("sub"), "x/y.txt");
    assert_eq!(below, here.replace("/x/y.txt", "/sub/x/y.txt"));
}

#[test]
fn test_join_error_display() {
    let err = FileLockError::Join("test error".to_string());
    assert_eq!(err.message(), "join error: test error");
}

#[test]
fn test_open_error_display() {
    let err = FileLockError::Open {
        path: "/nonexistent/dir/file.guigu.lock".to_string(),
        source: std::io::Error::new(std::io::ErrorKind::NotFound, "not found").to_string(),
    };
    let msg = err.message();
    assert!(msg.contains("/nonexistent/dir/file.guigu.lock"));
    assert!(msg.contains("not found"));
}

#[test]
fn a_lock_file_stands_beside_its_file() {
    assert_eq!(FileLock::for_path("/dir/file.txt").lock_file, "/dir/file.txt.guigu.lock");
    assert_eq!(FileLock::for_path("file").lock_file, "file.guigu.lock");
    // There is no file name to add to.
    assert_eq!(FileLock::for_path("/").lock_file, "/");
    assert_eq!(FileLock::for_path("..").lock_file, "..");
}

#[test]
fn test_read_tool_name() {
    assert_eq!(ReadTool::new(None).name(), "read");
}

#[test]
fn test_read_tool_resource_scope() {
    assert_eq!(ReadTool::new(None).resource_scope(), ResourceScope::ReadOnly);
}

fn read_args(offset: Option<u64>, limit: Option<u64>) -> ReadArgs {
    ReadArgs { path: "f".to_string(), offset, limit }
}

#[test]
fn test_read_tool_cancelled() {
    let e = ReadTool::new(None).begin(true).unwrap_err();
    assert!(e.message.contains("cancelled"));
    assert_eq!(ReadTool::new(None).begin(false), Ok(()));
}

#[test]
fn test_read_tool_work_dir_relative() {
    let tool = ReadTool::new(Some("/dir".to_string()));
    let args = ReadArgs { path: "a.txt".to_string(), offset: None, limit: None };
    assert_eq!(tool.resolve(&args), "/dir/a.txt");
    let out = tool.finish("/dir/a.txt", &args, Ok(b"in work dir".to_vec())).unwrap();
    assert_eq!(out.text, "in work dir");
}

#[test]
fn test_read_tool_work_dir_absolute_unchanged() {
    let tool = ReadTool::new(Some("/dir".to_string()));
    let args = ReadArgs { path: "/other/abs.txt".to_string(), offset: None, limit: None };
    assert_eq!(tool.resolve(&args), "/other/abs.txt");
}

#[test]
fn test_read_tool_offset_in_multibyte_char() {
    let out = ReadTool::new(None)
        .finish("f", &read_args(Some(1), None), Ok("你好世界".as_bytes().to_vec()))
        .unwrap();
    assert_eq!(out.text, "\u{FFFD}\u{FFFD}好世界");
    assert_eq!(out.bytes, 11);
}

#[test]
fn test_read_tool_limit_in_multibyte_char() {
    let out = ReadTool::new(None)
        .finish("f", &read_args(None, Some(4)), Ok("你好世界".as_bytes().to_vec()))
        .unwrap();
    assert_eq!(out.text, "你\u{FFFD}");
    assert_eq!(out.bytes, 4);
}

#[test]
fn test_read_tool_offset_beyond_eof() {
    let out = ReadTool::new(None)
        .finish("f", &read_args(Some(100), None), Ok(b"abc".to_vec()))
        .unwrap();
    assert_eq!(out.text, "");
    assert_eq!(out.bytes, 0);
}

#[test]
fn ranges_of_a_file_join() {
    let bytes = b"0123456789";
    let front = slice_range(bytes, &read_args(None, Some(4)));
    let back = slice_range(bytes, &read_args(Some(4), None));
    assert_eq!([front, back].concat(), bytes);
    assert_eq!(slice_range(bytes, &read_args(Some(u64::MAX), Some(u64::MAX))), b"");
}

#[test]
fn text_is_shown_as_it_was_written() {
    let text = "你好 é\n\u{0}end";
    let read = ReadTool::new(None)
        .finish("f", &read_args(None, None), Ok(text.as_bytes().to_vec()))
        .unwrap();
    assert_eq!(read.text, text);
    let args = BashArgs { command: "c".to_string(), cwd: None, timeout_ms: None };
    let end = BashEnd::Exited {
        code: Some(1),
        stdout: text.as_bytes().to_vec(),
        stderr: "é".as_bytes().to_vec(),
    };
    let ran = BashTool::new(None).finish(&args, end).unwrap();
    assert_eq!(ran.text, format!("{text}\né"));
    assert_eq!(ran.outputs, Some((text.to_string(), "é".to_string())));
}

#[test]
fn a_file_that_is_not_utf8_cannot_be_read() {
    let e = ReadTool::new(None)
        .finish("f", &read_args(None, None), Ok(vec![0xff, 0xfe]))
        .unwrap_err();
    assert!(e.message.contains("UTF-8"), "{}", e.message);
    let e = ReadTool::new(None)
        .finish("f", &read_args(None, None), Err("gone".to_string()))
        .unwrap_err();
    assert!(e.message.contains("gone"));
}

#[test]
fn only_regular_files_are_read() {
    assert_eq!(check_regular("read", "f", Ok(true)), Ok(()));
    assert!(check_regular("read", "f", Ok(false)).is_err());
    assert!(check_regular("read", "f", Err("gone".to_string())).is_err());
}

fn required(params: &serde_json::Value) -> &Vec<serde_json::Value> {
    params["required"].as_array().expect("required should be an array")
}

#[test]
fn test_edit_tool_name() {
    assert_eq!(EditTool::new(None).name(), "edit");
}

#[test]
fn test_edit_tool_resource_scope() {
    assert_eq!(EditTool::new(None).resource_scope(), ResourceScope::FileWriter);
}

#[test]
fn test_edit_tool_parameters() {
    let params = EditTool::new(None).parameters().expect("parameters should be declared");
    assert_eq!(params["type"], "object");
    let required = required(&params);
    assert!(required.contains(&json("\"path\"")));
    assert!(required.contains(&json("\"old_string\"")));
    assert!(required.contains(&json("\"new_string\"")));
}

#[test]
fn test_edit_tool_cancelled() {
    let e = EditTool::new(None).begin(true).unwrap_err();
    assert!(e.message.contains("cancelled"));
    assert_eq!(e.message, "cancelled: edit aborted before IO");
}

fn edit_args(old: &str, new: &str) -> EditArgs {
    EditArgs {
        path: "e.txt".to_string(),
        old_string: old.to_string(),
        new_string: new.to_string(),
    }
}

#[test]
fn test_edit_tool_work_dir_relative() {
    let tool = EditTool::new(Some("/dir".to_string()));
    let args = edit_args("bar", "BAZ");
    let path = tool.resolve(&args);
    assert_eq!(path, "/dir/e.txt");
    assert_eq!(tool.locked(&path, LockOutcome::Acquired, false), Ok(()));
    let new = tool.edited(&path, &args, Ok(b"foo bar".to_vec())).unwrap();
    assert_eq!(new, "foo BAZ");
    assert_eq!(tool.before_write(false), Ok(()));
    let out = tool.written(&path, Ok(())).unwrap();
    assert_eq!(out.text, "edited /dir/e.txt: replaced 1 occurrence");
    assert_eq!(out.replaced, 1);
}

#[test]
fn an_edit_needs_exactly_one_place() {
    let tool = EditTool::new(None);
    let message = |content: &str, old: &str| {
        tool.edited("p", &edit_args(old, "x"), Ok(content.as_bytes().to_vec()))
            .unwrap_err()
            .message
    };
    assert_eq!(message("foo", "bar"), "edit p: old_string not found");
    assert_eq!(message("a a a", "a"), "edit p: old_string not unique (3 matches)");
    assert!(tool
        .edited("p", &edit_args("a", "b"), Ok(vec![0xff]))
        .unwrap_err()
        .message
        .starts_with("edit p: invalid UTF-8: "));
    assert_eq!(
        tool.edited("p", &edit_args("a", "b"), Err("gone".to_string())).unwrap_err().message,
        "edit p: gone"
    );
}

#[test]
fn replacing_counts_places_that_do_not_overlap() {
    assert_eq!(replace_unique("aaa", "aa", "b"), Ok("ba".to_string()));
    assert_eq!(replace_unique("aaaa", "aa", "b"), Err(2));
    assert_eq!(replace_unique("日本", "本", "x"), Ok("日x".to_string()));
    // An edit can be undone where what was put in occurs once.
    let edited = replace_unique("foo bar", "bar", "qux").unwrap();
    assert_eq!(replace_unique(&edited, "qux", "bar"), Ok("foo bar".to_string()));
}

#[test]
fn an_empty_text_is_found_between_all_characters() {
    assert_eq!(replace_unique("", "", "x"), Ok("x".to_string()));
    assert_eq!(replace_unique("ab", "", "x"), Err(3));
}

#[test]
fn a_lock_that_cannot_be_had_fails_the_edit() {
    let tool = EditTool::new(None);
    let error = FileMutationError::FileLock(FileLockError::Cancelled);
    let text = error.message();
    let e = tool.locked("p", LockOutcome::Failed(error), false).unwrap_err();
    assert!(e.message.contains(&text), "{}", e.message);
    assert_eq!(
        tool.locked("p", LockOutcome::Cancelled, false).unwrap_err().message,
        "cancelled: edit aborted while waiting for file lock"
    );
    assert_eq!(
        tool.locked("p", LockOutcome::Acquired, true).unwrap_err().message,
        "cancelled: edit aborted after acquiring file lock"
    );
    assert_eq!(
        tool.before_write(true).unwrap_err().message,
        "cancelled: edit aborted before write"
    );
}

#[test]
fn test_write_tool_name() {
    assert_eq!(WriteTool::new().name(), "write");
}

#[test]
fn test_write_tool_resource_scope() {
    assert_eq!(WriteTool::new().resource_scope(), ResourceScope::FileWriter);
}

#[test]
fn test_write_tool_parameters() {
    let params = WriteTool::new().parameters().expect("parameters should be declared");
    assert_eq!(params["type"], "object");
    let required = required(&params);
    assert!(required.contains(&json("\"path\"")));
    assert!(required.contains(&json("\"content\"")));
}

#[test]
fn test_write_tool_cancelled() {
    let e = WriteTool::new().begin(true).unwrap_err();
    assert!(e.message.contains("cancelled"));
}

#[test]
fn writing_reports_the_bytes() {
    let tool = WriteTool::new();
    let args = WriteArgs { path: "p".to_string(), content: "日本".to_string() };
    assert_eq!(tool.locked("p", LockOutcome::Acquired, false), Ok(()));
    let out = tool.finish(&args, WriteResult::Written).unwrap();
    assert_eq!(out.bytes, 6);
    assert_eq!(out.path, "p");
    assert!(tool.finish(&args, WriteResult::NoParent("no".to_string())).is_err());
    assert!(tool.finish(&args, WriteResult::Failed("full".to_string())).is_err());
}

#[test]
fn the_parameters_of_bash_are_described() {
    let params = BashTool::new(None).parameters().unwrap();
    assert_eq!(
        params,
        json(
            "{\"type\":\"object\",\"properties\":{\"command\":{\"type\":\"string\"},\
             \"cwd\":{\"type\":\"string\"},\"timeout_ms\":{\"type\":\"integer\",\"minimum\":1}},\
             \"required\":[\"command\"]}"
        )
    );
    let echo = EchoTool.parameters().unwrap();
    assert_eq!(
        echo,
        json(
            "{\"type\":\"object\",\"properties\":{\"message\":{\"type\":\"string\"}},\
             \"required\":[\"message\"]}"
        )
    );
    assert!(root_schema(Some(&params)).is_some());
}

fn bash_args(cwd: Option<&str>) -> BashArgs {
    BashArgs {
        command: "true".to_string(),
        cwd: cwd.map(|s| s.to_string()),
        timeout_ms: Some(5),
    }
}

#[test]
fn bash_runs_where_it_is_told_to() {
    let tool = BashTool::new(Some("/home".to_string()));
    assert_eq!(tool.command_cwd(&bash_args(None)), Some("/home".to_string()));
    assert_eq!(tool.command_cwd(&bash_args(Some("/x"))), Some("/x".to_string()));
    assert_eq!(BashTool::new(None).command_cwd(&bash_args(None)), None);
    assert!(tool.begin(true).unwrap_err().message.contains("cancelled"));
    assert_eq!(tool.resource_scope(), ResourceScope::Exclusive);
}

#[test]
fn bash_reports_how_the_command_ended() {
    let tool = BashTool::new(None);
    let args = bash_args(None);
    let ok = tool
        .finish(
            &args,
            BashEnd::Exited { code: Some(0), stdout: b"out".to_vec(), stderr: Vec::new() },
        )
        .unwrap();
    assert!(!ok.is_error);
    assert_eq!(ok.exit_code, 0);
    assert!(ok.text.contains("out"));
    let failed = tool
        .finish(
            &args,
            BashEnd::Exited { code: Some(3), stdout: Vec::new(), stderr: vec![b'x', 0xff] },
        )
        .unwrap();
    assert!(failed.is_error);
    assert_eq!(failed.exit_code, 3);
    assert!(failed.text.contains("x\u{FFFD}"));
    let killed = BashTool::assemble_result(None, String::new(), String::new());
    assert_eq!(killed.exit_code, -1);
    assert!(tool.finish(&args, BashEnd::NotStarted("no sh".to_string())).is_err());
    assert!(tool.finish(&args, BashEnd::WaitFailed("gone".to_string())).is_err());
}

#[test]
fn echo_gives_the_message_back() {
    let r = EchoTool.run(EchoArgs { message: "hi".to_string() });
    assert_eq!(r.content, vec![ToolResultContent::Text { text: "hi".to_string() }]);
    assert!(!r.is_error);
    assert_eq!(EchoTool.name(), "echo");
}

#[test]
fn results_and_errors_of_tools() {
    let text = ToolResult::text("t".to_string());
    assert!(!text.is_error);
    assert!(ToolResult::error("t".to_string()).is_error);
    let e = ToolError::invalid_arguments("missing field".to_string());
    assert!(e.message.contains("missing field"));
    assert!(ToolError::new("m".to_string()).to_text().contains('m'));
}

fn spec(name: &str, scope: ResourceScope) -> DeferredToolSpec {
    DeferredToolSpec {
        name: name.to_string(),
        description: format!("desc of {name}"),
        parameters: Some(json("{\"type\":\"object\"}")),
        resource_scope: scope,
    }
}

#[test]
fn test_laziness_schema_methods_do_not_build() {
    let counter = Arc::new(AtomicUsize::new(0));
    let c = counter.clone();
    let tool = DeferredTool::lazy(spec("lazy", ResourceScope::ReadOnly), move || {
        c.fetch_add(1, Ordering::SeqCst);
        EchoTool
    });
    assert_eq!(counter.load(Ordering::SeqCst), 0);
    let _ = tool.name();
    let _ = tool.description();
    let _ = tool.parameters();
    let _ = tool.resource_scope();
    assert_eq!(counter.load(Ordering::SeqCst), 0);
}

#[test]
fn test_execute_builds_once_and_caches() {
    let counter = Arc::new(AtomicUsize::new(0));
    let c = counter.clone();
    let mut tool = DeferredTool::new(spec("echo", ResourceScope::ReadOnly), move || {
        c.fetch_add(1, Ordering::SeqCst);
        EchoTool
    });
    let r1 = tool.get_or_build().run(EchoArgs { message: "hi".to_string() });
    assert_eq!(counter.load(Ordering::SeqCst), 1);
    assert!(!r1.is_error);
    let r2 = tool.get_or_build().run(EchoArgs { message: "yo".to_string() });
    assert_eq!(counter.load(Ordering::SeqCst), 1);
    assert!(!r2.is_error);
}

#[test]
fn deferred_test_schema_forwarding() {
    let params = Some(json("{\"type\":\"object\",\"x\":1}"));
    let tool = DeferredTool::lazy(
        DeferredToolSpec {
            name: "mytool".into(),
            description: "the desc".into(),
            parameters: params.clone(),
            resource_scope: ResourceScope::Exclusive,
        },
        || EchoTool,
    );
    assert_eq!(tool.name(), "mytool");
    assert_eq!(tool.description(), "the desc");
    assert_eq!(tool.parameters(), params);
    assert_eq!(tool.resource_scope(), ResourceScope::Exclusive);
}

#[test]
fn test_from_tool_extracts_schema() {
    let base = ToolInfo {
        name: EchoTool.name().to_string(),
        description: EchoTool.description().to_string(),
        parameters: EchoTool.parameters(),
        scope: EchoTool.resource_scope(),
    };
    let spec = DeferredToolSpec::from_tool(&base);
    assert_eq!(spec.name, "echo");
    assert_eq!(spec.description, "Echo back the provided message.");
    assert!(spec.parameters.is_some());
    assert_eq!(spec.resource_scope, ResourceScope::ReadOnly);
}

#[test]
fn test_root_schema_none() {
    assert!(root_schema(None).is_none());
}

#[test]
fn test_root_schema_invalid_returns_none() {
    let not_a_schema = json("\"this is not a schema\"");
    assert!(root_schema(Some(&not_a_schema)).is_none());
    let array = json("[1, 2, 3]");
    assert!(root_schema(Some(&array)).is_none());
}

#[test]
fn test_root_schema_accepts_legacy_manual_json() {
    let legacy = json(
        "{\"type\":\"object\",\"properties\":{\"path\":{\"type\":\"string\"}},\
         \"required\":[\"path\"]}",
    );
    assert!(root_schema(Some(&legacy)).is_some());
}

#[test]
fn test_prune_clears_released_paths() {
    let mut queue: FileMutationQueue<u32> = FileMutationQueue::new();
    queue.lock_for("a", 1, &[]);
    queue.lock_for("b", 2, &[1]);
    assert_eq!(queue.len(), 2);
    queue.prune(&[1, 1]);
    assert!(queue.is_empty());
}

#[test]
fn test_prune_keeps_inflight_path() {
    let mut queue: FileMutationQueue<u32> = FileMutationQueue::new();
    queue.lock_for("a", 1, &[]);
    queue.lock_for("b", 2, &[1]);
    queue.prune(&[2, 1]);
    assert_eq!(queue.len(), 1);
    assert_eq!(queue.entries[0].path, "a");
    assert_eq!(queue.entries[0].lock, 1);
}

#[test]
fn a_path_has_one_lock() {
    let mut queue: FileMutationQueue<u32> = FileMutationQueue::with_file_lock();
    assert!(queue.file_lock_enabled);
    let first = queue.lock_for("a", 1, &[]);
    let again = queue.lock_for("a", 2, &[2]);
    assert_eq!(first, again);
    assert_eq!(queue.entries[again].lock, 1);
}

#[test]
fn pruning_keeps_the_order_of_what_is_in_use() {
    let mut queue: FileMutationQueue<u32> = FileMutationQueue::new();
    let mut owners: Vec<usize> = Vec::new();
    for (i, path) in ["a", "b", "c", "d"].iter().enumerate() {
        queue.lock_for(path, i as u32, &owners);
        owners.push(1);
    }
    queue.prune(&[1, 2, 1, 3]);
    let left: Vec<(&str, u32)> =
        queue.entries.iter().map(|e| (e.path.as_str(), e.lock)).collect();
    assert_eq!(left, vec![("b", 1), ("d", 3)]);
    // A path in use keeps its lock; one that was dropped gets a new one.
    let b = queue.lock_for("b", 10, &[2, 3]);
    assert_eq!(queue.entries[b].lock, 1);
    let a = queue.lock_for("a", 11, &[2, 3]);
    assert_eq!(queue.entries[a].lock, 11);
}

#[test]
fn a_file_is_written_unless_its_lock_cannot_be_had() {
    type Queue = FileMutationQueue<u32>;
    assert_eq!(Queue::enter::<u8>(None), Ok(None));
    assert_eq!(Queue::enter(Some(Ok(3u8))), Ok(Some(3)));
    let failed = || FileLockError::Join("x".to_string());
    assert_eq!(
        Queue::enter::<u8>(Some(Err(failed()))),
        Err(FileMutationError::FileLock(failed()))
    );
}

#[test]
fn test_acquire_auto_prunes_at_threshold() {
    let mut queue: FileMutationQueue<usize> = FileMutationQueue::new();
    let mut owners: Vec<usize> = Vec::new();
    for i in 0..PRUNE_THRESHOLD {
        queue.lock_for(&format!("p{i}"), i, &owners);
        owners.push(1);
    }
    assert_eq!(queue.len(), PRUNE_THRESHOLD);
    owners[7] = 2;
    let at = queue.lock_for("one more", 9999, &owners);
    assert_eq!(queue.len(), 2);
    assert_eq!(queue.entries[0].path, "p7");
    assert_eq!(queue.entries[at].lock, 9999);
}

fn shown(r: &ToolResult) -> &str {
    assert_eq!(r.content.len(), 1);
    match &r.content[0] {
        ToolResultContent::Text { text } => text.as_str(),
        _ => panic!("text is expected"),
    }
}

#[test]
fn results_carry_their_details() {
    let read = ReadTool::new(None);
    let whole = read
        .finish("f", &read_args(None, None), Ok(b"abc".to_vec()))
        .unwrap()
        .into_result();
    assert_eq!(shown(&whole), "abc");
    assert!(!whole.is_error);
    assert_eq!(whole.details, Some(json("{\"path\":\"f\",\"bytes\":3}")));
    let part = read
        .finish("f", &read_args(Some(1), Some(1)), Ok(b"abc".to_vec()))
        .unwrap()
        .into_result();
    assert_eq!(shown(&part), "b");
    assert_eq!(
        part.details,
        Some(json("{\"path\":\"f\",\"bytes\":1,\"offset\":1,\"limit\":1}"))
    );

    let args = WriteArgs { path: "p".to_string(), content: "日本".to_string() };
    let written = WriteTool::new().finish(&args, WriteResult::Written).unwrap().into_result();
    assert_eq!(written.details, Some(json("{\"path\":\"p\",\"bytes\":6}")));

    let edited = EditTool::new(None).written("p", Ok(())).unwrap().into_result();
    assert_eq!(shown(&edited), "edited p: replaced 1 occurrence");
    assert_eq!(edited.details, Some(json("{\"path\":\"p\",\"replaced\":1}")));
}

#[test]
fn bash_tells_the_exit_code() {
    let ok = BashTool::assemble_result(Some(0), "out".to_string(), String::new()).into_result();
    assert!(!ok.is_error);
    assert_eq!(ok.details, Some(json("{\"exit_code\":0}")));
    let failed =
        BashTool::assemble_result(Some(3), "o".to_string(), "e".to_string()).into_result();
    assert!(failed.is_error);
    assert_eq!(
        failed.details,
        Some(json("{\"exit_code\":3,\"stdout\":\"o\",\"stderr\":\"e\"}"))
    );
    let killed = BashTool::assemble_result(None, String::new(), String::new()).into_result();
    assert_eq!(
        killed.details,
        Some(json("{\"exit_code\":-1,\"stdout\":\"\",\"stderr\":\"\"}"))
    );
}

#[test]
fn test_ready_wraps_existing_tool() {
    let info = ToolInfo {
        name: EchoTool.name().to_string(),
        description: EchoTool.description().to_string(),
        parameters: EchoTool.parameters(),
        scope: EchoTool.resource_scope(),
    };
    let existing = Arc::new(EchoTool);
    let handed_out = existing.clone();
    let mut tool = DeferredTool::ready(&info, move || handed_out.clone());
    assert_eq!(tool.name(), "echo");
    assert_eq!(tool.description(), EchoTool.description());
    assert_eq!(tool.parameters(), EchoTool.parameters());
    assert_eq!(tool.resource_scope(), ResourceScope::ReadOnly);
    assert!(Arc::ptr_eq(tool.get_or_build(), &existing));
    let result = tool.get_or_build().run(EchoArgs { message: "ping".to_string() });
    assert!(!result.is_error);
    assert_eq!(result.content[0], ToolResultContent::Text { text: "ping".to_string() });
}
