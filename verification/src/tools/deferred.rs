//! Tools that are built when they are first run. What the model is told of them is there from the
//! start.
use vstd::prelude::*;

use crate::runtime::tools::ToolInfo;
use crate::tool::ResourceScope;

verus! {

/// What is known of a tool before it is built.
#[derive(Debug, Clone)]
pub struct DeferredToolSpec {
    pub name: String,
    pub description: String,
    pub parameters: Option<serde_json::Value>,
    pub resource_scope: ResourceScope,
}

impl DeferredToolSpec {
    /// What is known of a tool that is there.
    pub fn from_tool(tool: &ToolInfo) -> (r: Self)
        ensures
            r.name == tool.name,
            r.description == tool.description,
            r.parameters == tool.parameters,
            r.resource_scope == tool.scope,
    {
        let parameters = match &tool.parameters {
            Some(p) => Some(p.clone()),
            None => None,
        };
        DeferredToolSpec {
            name: tool.name.clone(),
            description: tool.description.clone(),
            parameters,
            resource_scope: tool.scope,
        }
    }
}

/// A tool that is built by `factory` when it is first run, and then kept.
#[verifier::reject_recursive_types(T)]
pub struct DeferredTool<T, F: Fn() -> T> {
    pub spec: DeferredToolSpec,
    pub factory: F,
    pub inner: Option<T>,
}

impl<T, F: Fn() -> T> DeferredTool<T, F> {
    /// A tool that is not built yet.
    pub fn new(spec: DeferredToolSpec, factory: F) -> (r: Self)
        ensures
            r.spec == spec,
            r.factory == factory,
            r.inner is None,
    {
        DeferredTool { spec, factory, inner: None }
    }

    /// A tool that is not built yet.
    pub fn lazy(spec: DeferredToolSpec, factory: F) -> (r: Self)
        ensures
            r.spec == spec,
            r.factory == factory,
            r.inner is None,
    {
        Self::new(spec, factory)
    }

    /// A tool that is there already: it is known by what it says of itself, and `factory` hands
    /// it out.
    pub fn ready(tool: &ToolInfo, factory: F) -> (r: Self)
        ensures
            r.spec.name == tool.name,
            r.spec.description == tool.description,
            r.spec.parameters == tool.parameters,
            r.spec.resource_scope == tool.scope,
            r.factory == factory,
            r.inner is None,
    {
        Self::new(DeferredToolSpec::from_tool(tool), factory)
    }

    /// The name of the tool; it is not built for that.
    pub fn name(&self) -> (r: &str)
        ensures
            r@ == self.spec.name@,
    {
        self.spec.name.as_str()
    }

    /// What the tool does; it is not built for that.
    pub fn description(&self) -> (r: &str)
        ensures
            r@ == self.spec.description@,
    {
        self.spec.description.as_str()
    }

    /// The parameters of the tool; it is not built for that.
    pub fn parameters(&self) -> (r: Option<serde_json::Value>)
        ensures
            r == self.spec.parameters,
    {
        match &self.spec.parameters {
            Some(p) => Some(p.clone()),
            None => None,
        }
    }

    /// What the tool touches; it is not built for that.
    pub fn resource_scope(&self) -> (r: ResourceScope)
        ensures
            r == self.spec.resource_scope,
    {
        self.spec.resource_scope
    }

    /// The tool itself: built the first time, the same one ever after.
    pub fn get_or_build(&mut self) -> (r: &T)
        requires
            call_requires(old(self).factory, ()),
        ensures
            final(self).spec == old(self).spec,
            final(self).factory == old(self).factory,
            final(self).inner == Some(*r),
            match old(self).inner {
                Some(t) => *r == t,
                None => call_ensures(old(self).factory, (), *r),
            },
    {
        if self.inner.is_none() {
            let built = (self.factory)();
            self.inner = Some(built);
        }
        self.inner.as_ref().unwrap()
    }
}

/// A tool is built once: it is the same tool on every later call.
pub proof fn law_tool_is_built_once<T, F: Fn() -> T>()
    ensures
        forall|tool: &mut DeferredTool<T, F>, r: &T| #[trigger]
            call_ensures(DeferredTool::<T, F>::get_or_build, (tool,), r) ==> {
                &&& final(tool).inner == Some(*r)
                &&& tool.inner is Some ==> final(tool).inner == tool.inner
                &&& tool.inner is None ==> call_ensures(tool.factory, (), *r)
                &&& final(tool).spec == tool.spec
            },
{
}

/// What the model is told of a tool that is made ahead is what the tool says of itself.
pub proof fn law_tool_is_announced_as_it_is(tool: ToolInfo, r: DeferredToolSpec)
    requires
        call_ensures(DeferredToolSpec::from_tool, (&tool,), r),
    ensures
        r.name@ == tool.name@ && r.description@ == tool.description@,
        r.parameters == tool.parameters,
        r.resource_scope == tool.scope,
{
}

} // verus!
