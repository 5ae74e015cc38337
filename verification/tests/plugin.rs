use std::sync::atomic::{AtomicUsize, Ordering};
use std::sync::Arc;

use guigu::message::{Message, ToolResultContent, UserContent, UserMessage};
use guigu::plugin::agent::{AgentPlugin, AgentPluginError, AgentPluginRegistry};
use guigu::plugin::hooks::{
    HookContext, HookError, HookStep, LifecycleHooks, MergedHooks, NamedHook,
};
use guigu::plugin::tool::PluginTool;
use guigu::plugin::{Plugin, PluginError, PluginRegistry};
use guigu::tool::{ResourceScope, ToolResult};
use guigu::tools::deferred::DeferredToolSpec;
use guigu::tools::echo::{EchoArgs, EchoTool};

fn json(text: &str) -> serde_json::Value {
    serde_json::from_str(text).expect("JSON")
}

fn spec(name: &str, scope: ResourceScope) -> DeferredToolSpec {
    DeferredToolSpec {
        name: name.to_string(),
        description: format!("desc of {name}"),
        parameters: Some(json("{\"type\":\"object\"}")),
        resource_scope: scope,
    }
}

/// A plugin that counts how often it builds a tool.
struct CountingPlugin {
    id: String,
    names: Vec<String>,
    calls: Arc<AtomicUsize>,
    fail_until: usize,
}

impl Plugin for CountingPlugin {
    fn id(&self) -> &str {
        &self.id
    }

    fn tools(&self) -> Vec<DeferredToolSpec> {
        self.names.iter().map(|n| spec(n, ResourceScope::ReadOnly)).collect()
    }
}

impl CountingPlugin {
    fn instantiate(&self, name: &str) -> Result<EchoTool, PluginError> {
        let n = self.calls.fetch_add(1, Ordering::SeqCst) + 1;
        if n <= self.fail_until {
            return Err(PluginError::Instantiation {
                plugin: self.id.clone(),
                tool: name.to_string(),
                source: "simulated transient failure".to_string(),
            });
        }
        if self.names.iter().any(|s| s == name) {
            Ok(EchoTool)
        } else {
            Err(PluginError::ToolNotDeclared(name.to_string()))
        }
    }
}

fn counting(id: &str, names: &[&str]) -> (CountingPlugin, Arc<AtomicUsize>) {
    let calls = Arc::new(AtomicUsize::new(0));
    let plugin = CountingPlugin {
        id: id.to_string(),
        names: names.iter().map(|n| n.to_string()).collect(),
        calls: calls.clone(),
        fail_until: 0,
    };
    (plugin, calls)
}

/// Runs a plugin tool: builds it first where that is needed.
fn execute(
    tool: &mut PluginTool<Arc<CountingPlugin>, EchoTool>,
    message: &str,
) -> Result<ToolResult, guigu::tool::ToolError> {
    if tool.needs_instance() {
        let built = tool.plugin.instantiate(tool.name());
        tool.install(built)?;
    }
    let inner = tool.inner.as_ref().expect("built");
    Ok(inner.run(EchoArgs { message: message.to_string() }))
}

#[test]
fn mod_test_register_duplicate_id() {
    let mut registry = PluginRegistry::new();
    registry.register(counting("p", &[]).0).expect("first register");
    let result = registry.register(counting("p", &[]).0);
    assert!(matches!(&result, Err(PluginError::DuplicatePlugin(id)) if id == "p"));
}

#[test]
fn mod_test_unregister_nonexistent() {
    let mut registry: PluginRegistry<CountingPlugin> = PluginRegistry::new();
    assert!(registry.unregister("nope").is_none());
}

#[test]
fn mod_test_get_and_list_sorted() {
    let mut registry = PluginRegistry::new();
    registry.register(counting("b", &[]).0).expect("register b");
    registry.register(counting("a", &[]).0).expect("register a");
    registry.register(counting("c", &[]).0).expect("register c");
    assert!(registry.get("a").is_some());
    assert!(registry.get("b").is_some());
    assert!(registry.get("c").is_some());
    assert!(registry.get("missing").is_none());
    assert_eq!(
        registry.list(),
        vec!["a".to_string(), "b".to_string(), "c".to_string()]
    );
}

#[test]
fn test_tools_assembly_order_and_no_instantiation() {
    let mut registry = PluginRegistry::new();
    let (b, calls_b) = counting("b", &["b1", "b2"]);
    let (a, calls_a) = counting("a", &["a1", "a2"]);
    registry.register(b).expect("register b");
    registry.register(a).expect("register a");
    let tools = registry.tools();
    let names: Vec<&str> = tools.iter().map(|t| t.spec.name.as_str()).collect();
    assert_eq!(names, vec!["a1", "a2", "b1", "b2"]);
    assert_eq!(tools[0].spec.description, "desc of a1");
    assert_eq!(tools[0].spec.resource_scope, ResourceScope::ReadOnly);
    assert!(tools[0].spec.parameters.is_some());
    assert_eq!((tools[0].plugin, tools[2].plugin), (0, 1));
    assert_eq!(calls_a.load(Ordering::SeqCst), 0);
    assert_eq!(calls_b.load(Ordering::SeqCst), 0);
}

#[test]
fn registering_can_be_undone() {
    let mut registry = PluginRegistry::new();
    registry.register(counting("a", &[]).0).unwrap();
    registry.register(counting("b", &[]).0).unwrap();
    assert_eq!(registry.unregister("b").unwrap().id, "b");
    assert_eq!(registry.list(), vec!["a".to_string()]);
    registry.register(counting("b", &[]).0).unwrap();
    assert_eq!(registry.list(), vec!["a".to_string(), "b".to_string()]);
}

#[test]
fn test_laziness_schema_methods_do_not_instantiate() {
    let (plugin, calls) = counting("p", &["echo"]);
    let tool: PluginTool<_, EchoTool> =
        PluginTool::new(Arc::new(plugin), spec("echo", ResourceScope::ReadOnly));
    assert_eq!(calls.load(Ordering::SeqCst), 0);
    let _ = tool.name();
    let _ = tool.description();
    let _ = tool.parameters();
    let _ = tool.resource_scope();
    assert_eq!(calls.load(Ordering::SeqCst), 0);
}

#[test]
fn test_execute_instantiates_once_and_caches() {
    let (plugin, calls) = counting("p", &["echo"]);
    let mut tool = PluginTool::new(Arc::new(plugin), spec("echo", ResourceScope::ReadOnly));
    let r1 = execute(&mut tool, "hi").expect("first execute should succeed");
    assert_eq!(calls.load(Ordering::SeqCst), 1);
    assert!(!r1.is_error);
    let r2 = execute(&mut tool, "yo").expect("second execute should succeed");
    assert_eq!(calls.load(Ordering::SeqCst), 1);
    assert!(!r2.is_error);
}

#[test]
fn test_failure_not_cached_retryable() {
    let (mut plugin, calls) = counting("p", &["echo"]);
    plugin.fail_until = 1;
    let mut tool = PluginTool::new(Arc::new(plugin), spec("echo", ResourceScope::ReadOnly));
    let r1 = execute(&mut tool, "hi");
    assert_eq!(
        r1.unwrap_err().message,
        PluginError::Instantiation {
            plugin: "p".to_string(),
            tool: "echo".to_string(),
            source: "simulated transient failure".to_string(),
        }
        .message()
    );
    assert_eq!(calls.load(Ordering::SeqCst), 1);
    let r2 = execute(&mut tool, "yo").expect("second execute should succeed");
    assert_eq!(calls.load(Ordering::SeqCst), 2);
    assert!(!r2.is_error);
}

#[test]
fn tool_test_schema_forwarding() {
    let params = Some(json("{\"type\":\"object\",\"x\":1}"));
    let spec = DeferredToolSpec {
        name: "mytool".into(),
        description: "the desc".into(),
        parameters: params.clone(),
        resource_scope: ResourceScope::Exclusive,
    };
    let tool: PluginTool<_, EchoTool> = PluginTool::new(counting("p", &["mytool"]).0, spec);
    assert_eq!(tool.name(), "mytool");
    assert_eq!(tool.description(), "the desc");
    assert_eq!(tool.parameters(), params);
    assert_eq!(tool.resource_scope(), ResourceScope::Exclusive);
}

#[test]
fn test_unregistered_plugin_tool_still_executes() {
    let mut registry = PluginRegistry::new();
    let (p, _) = counting("p", &["echo"]);
    registry.register(p).expect("register");
    let declared = registry.tools();
    assert_eq!(declared.len(), 1);
    let removed = registry.unregister("p").expect("unregister should return the plugin");
    assert!(registry.get("p").is_none());
    let spec = declared.into_iter().next().expect("one tool").spec;
    let mut tool = PluginTool::new(Arc::new(removed), spec);
    let result = execute(&mut tool, "hi").expect("execute after unregister should succeed");
    assert!(!result.is_error);
}

#[test]
fn errors_of_plugins_have_their_texts() {
    assert!(PluginError::DuplicatePlugin("p".to_string()).message().contains('p'));
    assert!(PluginError::PluginNotFound("q".to_string()).message().contains('q'));
    assert!(PluginError::ToolNotDeclared("t".to_string()).message().contains('t'));
    assert!(AgentPluginError::DuplicateAgentPlugin("x".to_string()).message().contains('x'));
    assert!(AgentPluginError::AgentPluginNotFound("y".to_string()).message().contains('y'));
    assert!(AgentPluginError::BuildFailed("z".to_string()).message().contains('z'));
}

/// The hooks of the tests: what each answers, and how often it was asked.
struct TestHooks {
    stop: Option<bool>,
    before: Result<(), String>,
    after: Option<Result<String, String>>,
    next: Result<Vec<String>, String>,
    calls: Arc<AtomicUsize>,
}

fn noop() -> TestHooks {
    TestHooks {
        stop: None,
        before: Ok(()),
        after: None,
        next: Ok(Vec::new()),
        calls: Arc::new(AtomicUsize::new(0)),
    }
}

impl LifecycleHooks for TestHooks {
    fn should_stop_after_turn(&self, _ctx: &HookContext) -> Option<bool> {
        self.calls.fetch_add(1, Ordering::SeqCst);
        self.stop
    }
}

struct NoopHooks;

impl LifecycleHooks for NoopHooks {}

fn ctx() -> HookContext {
    HookContext::new(&[])
}

fn merged(hooks: Vec<(&str, TestHooks)>) -> MergedHooks<TestHooks> {
    MergedHooks::new(
        hooks
            .into_iter()
            .map(|(id, hook)| NamedHook { id: id.to_string(), hook })
            .collect(),
    )
}

fn before_tool_call(merged: &MergedHooks<TestHooks>) -> Result<(), HookError> {
    for h in &merged.hooks {
        h.hook.calls.fetch_add(1, Ordering::SeqCst);
        let answer = h.hook.before.clone().map_err(HookError::new);
        match MergedHooks::<TestHooks>::before_tool_call_step(answer) {
            HookStep::Next => {}
            HookStep::Done(e) => return Err(e),
        }
    }
    Ok(())
}

fn text_of(r: &ToolResult) -> String {
    match &r.content[0] {
        ToolResultContent::Text { text } => text.clone(),
        other => panic!("expected text, got {other:?}"),
    }
}

fn after_tool_call(merged: &MergedHooks<TestHooks>, result: ToolResult) -> ToolResult {
    let mut current = result;
    for h in &merged.hooks {
        h.hook.calls.fetch_add(1, Ordering::SeqCst);
        let answer = match &h.hook.after {
            Some(Ok(suffix)) => Ok(ToolResult::text(format!("{}{suffix}", text_of(&current)))),
            Some(Err(e)) => Err(HookError::new(e.clone())),
            None => Ok(current.clone()),
        };
        let (next, step) = MergedHooks::<TestHooks>::after_tool_call_step(current, answer);
        current = next;
        if matches!(step, HookStep::Done(_)) {
            break;
        }
    }
    current
}

fn prepare_next_turn(merged: &MergedHooks<TestHooks>) -> Vec<Message> {
    let mut gathered = Vec::new();
    for h in &merged.hooks {
        h.hook.calls.fetch_add(1, Ordering::SeqCst);
        let answer = match &h.hook.next {
            Ok(texts) => Ok(texts.iter().map(|t| user_msg(t)).collect()),
            Err(e) => Err(HookError::new(e.clone())),
        };
        let step = MergedHooks::<TestHooks>::prepare_next_turn_step(&mut gathered, answer);
        if matches!(step, HookStep::Done(_)) {
            break;
        }
    }
    gathered
}

fn user_msg(text: &str) -> Message {
    Message::User(UserMessage {
        content: vec![UserContent::Text { text: text.to_string() }],
        timestamp: 0,
    })
}

#[test]
fn test_default_should_stop_none() {
    assert_eq!(NoopHooks.should_stop_after_turn(&ctx()), None);
}

#[test]
fn test_merged_should_stop_first_true() {
    let a = TestHooks { stop: Some(false), ..noop() };
    let b = TestHooks { stop: Some(true), ..noop() };
    let (calls_a, calls_b) = (a.calls.clone(), b.calls.clone());
    let merged = merged(vec![("a", a), ("b", b)]);
    assert_eq!(merged.should_stop_after_turn(&ctx()), Some(true));
    assert_eq!(calls_a.load(Ordering::SeqCst), 1);
    assert_eq!(calls_b.load(Ordering::SeqCst), 1);
}

#[test]
fn test_merged_should_stop_all_none() {
    let merged = MergedHooks::new(vec![NamedHook { id: "a".to_string(), hook: NoopHooks }]);
    assert_eq!(merged.should_stop_after_turn(&ctx()), None);
}

#[test]
fn test_merged_before_tool_call_short_circuit() {
    let a = noop();
    let b = TestHooks { before: Err("vetoed".to_string()), ..noop() };
    let c = noop();
    let calls = [a.calls.clone(), b.calls.clone(), c.calls.clone()];
    let merged = merged(vec![("a", a), ("b", b), ("c", c)]);
    assert_eq!(before_tool_call(&merged), Err(HookError::new("vetoed".to_string())));
    let counts: Vec<usize> = calls.iter().map(|c| c.load(Ordering::SeqCst)).collect();
    assert_eq!(counts, vec![1, 1, 0]);
}

#[test]
fn test_merged_after_tool_call_chained() {
    let a = TestHooks { after: Some(Ok("-a".to_string())), ..noop() };
    let b = TestHooks { after: Some(Ok("-b".to_string())), ..noop() };
    let merged = merged(vec![("a", a), ("b", b)]);
    let out = after_tool_call(&merged, ToolResult::text("orig".to_string()));
    assert_eq!(text_of(&out), "orig-a-b");
}

#[test]
fn test_merged_after_tool_call_short_circuit_keeps_last_success() {
    let a = TestHooks { after: Some(Ok("-a".to_string())), ..noop() };
    let b = TestHooks { after: Some(Err("fail".to_string())), ..noop() };
    let c = TestHooks { after: Some(Ok("-c".to_string())), ..noop() };
    let calls_c = c.calls.clone();
    let merged = merged(vec![("a", a), ("b", b), ("c", c)]);
    let out = after_tool_call(&merged, ToolResult::text("orig".to_string()));
    assert_eq!(text_of(&out), "orig-a");
    assert_eq!(calls_c.load(Ordering::SeqCst), 0);
}

#[test]
fn test_merged_hooks_sorted_by_id() {
    let z = TestHooks { after: Some(Ok("-z".to_string())), ..noop() };
    let a = TestHooks { after: Some(Ok("-a".to_string())), ..noop() };
    let m = TestHooks { after: Some(Ok("-m".to_string())), ..noop() };
    let merged = merged(vec![("z", z), ("a", a), ("m", m)]);
    let ids: Vec<&str> = merged.hooks.iter().map(|h| h.id.as_str()).collect();
    assert_eq!(ids, vec!["a", "m", "z"]);
    let out = after_tool_call(&merged, ToolResult::text("x".to_string()));
    assert_eq!(text_of(&out), "x-a-m-z");
}

#[test]
fn hooks_of_one_name_keep_their_order() {
    let first = TestHooks { after: Some(Ok("1".to_string())), ..noop() };
    let second = TestHooks { after: Some(Ok("2".to_string())), ..noop() };
    let merged = merged(vec![("n", first), ("n", second)]);
    let out = after_tool_call(&merged, ToolResult::text(String::new()));
    assert_eq!(text_of(&out), "12");
}

#[test]
fn test_merged_prepare_next_turn_concat() {
    let a = TestHooks { next: Ok(vec!["from-a".to_string()]), ..noop() };
    let b = TestHooks { next: Ok(vec!["from-b".to_string()]), ..noop() };
    let merged = merged(vec![("a", a), ("b", b)]);
    assert_eq!(
        prepare_next_turn(&merged),
        vec![user_msg("from-a"), user_msg("from-b")]
    );
}

#[test]
fn test_merged_prepare_next_turn_short_circuit_keeps_success() {
    let a = TestHooks { next: Ok(vec!["from-a".to_string()]), ..noop() };
    let b = TestHooks { next: Err("fail".to_string()), ..noop() };
    let merged = merged(vec![("a", a), ("b", b)]);
    assert_eq!(prepare_next_turn(&merged), vec![user_msg("from-a")]);
}

#[test]
fn a_context_shows_the_transcript() {
    let transcript = vec![Arc::new(user_msg("x"))];
    assert_eq!(HookContext::new(&transcript).transcript, transcript);
    assert_eq!(HookError::new("m".to_string()).to_text(), "HookError: m");
}

/// A plugin for agents: it brings hooks and a factory, or not.
struct FakeAgentPlugin {
    id: String,
    hooks: Option<Arc<AtomicUsize>>,
    factory: Option<String>,
}

impl AgentPlugin for FakeAgentPlugin {
    type Hooks = Arc<AtomicUsize>;
    type Factory = String;

    fn id(&self) -> &str {
        &self.id
    }

    fn hooks(&self) -> Option<Arc<AtomicUsize>> {
        self.hooks.clone()
    }

    fn agent_factory(&self) -> Option<String> {
        self.factory.clone()
    }
}

fn agent_plugin(id: &str) -> FakeAgentPlugin {
    FakeAgentPlugin { id: id.to_string(), hooks: None, factory: None }
}

#[test]
fn tests_test_register_duplicate_id() {
    let mut registry = AgentPluginRegistry::new();
    registry.register(agent_plugin("p")).expect("first register");
    let result = registry.register(agent_plugin("p"));
    assert!(matches!(
        &result,
        Err(AgentPluginError::DuplicateAgentPlugin(id)) if id == "p"
    ));
}

#[test]
fn tests_test_unregister_nonexistent() {
    let mut registry: AgentPluginRegistry<FakeAgentPlugin> = AgentPluginRegistry::new();
    assert!(registry.unregister("nope").is_none());
}

#[test]
fn tests_test_get_and_list_sorted() {
    let mut registry = AgentPluginRegistry::new();
    for id in ["b", "a", "c"] {
        registry.register(agent_plugin(id)).expect("register");
    }
    assert!(registry.get("a").is_some());
    assert!(registry.get("b").is_some());
    assert!(registry.get("c").is_some());
    assert!(registry.get("missing").is_none());
    assert_eq!(
        registry.list(),
        vec!["a".to_string(), "b".to_string(), "c".to_string()]
    );
}

#[test]
fn test_merged_hooks_none_when_no_hooks() {
    let mut registry = AgentPluginRegistry::new();
    registry.register(agent_plugin("p")).expect("register");
    assert!(registry.merged_hooks().is_none());
}

#[test]
fn test_merged_hooks_some_when_hooks_contributed() {
    let mut registry = AgentPluginRegistry::new();
    for id in ["b", "a"] {
        let mut plugin = agent_plugin(id);
        plugin.hooks = Some(Arc::new(AtomicUsize::new(0)));
        registry.register(plugin).expect("register");
    }
    registry.register(agent_plugin("c")).expect("register");
    let merged = registry.merged_hooks().expect("two plugins bring hooks");
    let ids: Vec<&str> = merged.hooks.iter().map(|h| h.id.as_str()).collect();
    assert_eq!(ids, vec!["a", "b"]);
}

#[test]
fn test_agent_factory_lookup() {
    let mut registry = AgentPluginRegistry::new();
    let mut plugin = agent_plugin("p");
    plugin.factory = Some("p".to_string());
    registry.register(plugin).expect("register");
    registry.register(agent_plugin("q")).expect("register");
    assert!(registry.agent_factory("p").is_some());
    assert!(registry.agent_factory("q").is_none());
    assert!(registry.agent_factory("missing").is_none());
}

#[test]
fn test_unregistered_plugin_still_callable() {
    let mut registry = AgentPluginRegistry::new();
    let mut plugin = agent_plugin("p");
    plugin.hooks = Some(Arc::new(AtomicUsize::new(0)));
    registry.register(plugin).expect("register");
    let removed = registry.unregister("p").expect("unregister should return the plugin");
    assert!(registry.get("p").is_none());
    assert!(removed.hooks().is_some());
    assert_eq!(removed.id(), "p");
}
