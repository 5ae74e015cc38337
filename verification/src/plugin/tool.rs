//! Tools of plugins. What the model is told of them is there from the start; they are built when
//! they are first run.
use vstd::prelude::*;

use crate::plugin::PluginError;
use crate::tool::{ResourceScope, ToolError};
use crate::tools::deferred::DeferredToolSpec;

verus! {

/// A tool of a plugin; once it was built it is kept, and a failure to build it is not.
#[derive(Debug)]
pub struct PluginTool<P, T> {
    pub spec: DeferredToolSpec,
    pub plugin: P,
    pub inner: Option<T>,
}

/// A plugin that fails to build a tool makes the call fail.
pub fn plugin_to_tool_error(err: PluginError) -> (r: ToolError)
    ensures
        r.message@ == err.text(),
{
    ToolError::new(err.message())
}

impl<P, T> PluginTool<P, T> {
    /// A tool that is not built yet.
    pub fn new(plugin: P, spec: DeferredToolSpec) -> (r: Self)
        ensures
            r.plugin == plugin,
            r.spec == spec,
            r.inner is None,
    {
        PluginTool { spec, plugin, inner: None }
    }

    /// The name of the tool; it is not built for that.
    pub fn name(&self) -> (r: &str)
        ensures
            r@ == self.spec.name@,
    {
        self.spec.name.as_str()
    }

    /// What the tool does; it is not built for that.
    pub fn description(&self) -> (r: &str)
        ensures
            r@ == self.spec.description@,
    {
        self.spec.description.as_str()
    }

    /// The parameters of the tool; it is not built for that.
    pub fn parameters(&self) -> (r: Option<serde_json::Value>)
        ensures
            r == self.spec.parameters,
    {
        match &self.spec.parameters {
            Some(p) => Some(p.clone()),
            None => None,
        }
    }

    /// What the tool touches; it is not built for that.
    pub fn resource_scope(&self) -> (r: ResourceScope)
        ensures
            r == self.spec.resource_scope,
    {
        self.spec.resource_scope
    }

    /// Whether the tool has to be built before it can run.
    pub fn needs_instance(&self) -> (r: bool)
        ensures
            r == (self.inner is None),
    {
        self.inner.is_none()
    }

    /// Takes what building the tool came to, unless it was built meanwhile. A tool that was built
    /// is kept; after a failure the next call tries again.
    pub fn install(&mut self, built: Result<T, PluginError>) -> (r: Result<(), ToolError>)
        ensures
            final(self).spec == old(self).spec,
            final(self).plugin == old(self).plugin,
            match old(self).inner {
                Some(t) => final(self).inner == Some(t) && r is Ok,
                None => match built {
                    Ok(t) => final(self).inner == Some(t) && r is Ok,
                    Err(e) => final(self).inner is None && (r matches Err(f) && f.message@
                        == e.text()),
                },
            },
    {
        if self.inner.is_some() {
            return Ok(());
        }
        match built {
            Ok(t) => {
                self.inner = Some(t);
                Ok(())
            },
            Err(e) => Err(plugin_to_tool_error(e)),
        }
    }
}

/// A tool is built once: what was built first is kept, a failure to build it is told and not kept, and
/// what the model is told of the tool does not change.
pub proof fn law_tool_is_built_once<P, T>()
    ensures
        forall|tool: &mut PluginTool<P, T>, built: Result<T, PluginError>, r: Result<(), ToolError>| #[trigger]
            call_ensures(PluginTool::<P, T>::install, (tool, built), r) ==> {
                &&& tool.inner is Some ==> final(tool).inner == tool.inner && r is Ok
                &&& tool.inner is None ==> (final(tool).inner is Some <==> built is Ok)
                &&& tool.inner is None && built is Ok ==> final(tool).inner == Some(built->Ok_0)
                &&& r is Ok <==> final(tool).inner is Some
                &&& r matches Err(e) ==> e.message@ == (built->Err_0).text()
                &&& final(tool).spec == tool.spec
            },
{
}

} // verus!
