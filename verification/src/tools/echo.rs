//! The tool `echo`: gives its message back.
use vstd::prelude::*;
use vstd::string::*;

use crate::json;
use crate::json::Parameter;
use crate::tool::{ResourceScope, ToolResult};

verus! {

/// The arguments of `echo`.
#[derive(Debug, Clone, PartialEq)]
pub struct EchoArgs {
    pub message: String,
}

/// Gives a message back.
#[derive(Debug, Clone)]
pub struct EchoTool;

/// The arguments, as they are described to a model.
pub open spec fn parameter_list() -> Seq<Parameter> {
    seq![
        Parameter { name: "message", kind: "string", minimum: None },
    ]
}

impl EchoTool {
    /// The name of the tool.
    pub fn name(&self) -> (r: &'static str)
        ensures
            r@ == "echo"@,
    {
        "echo"
    }

    /// What the tool does.
    pub fn description(&self) -> (r: &'static str)
        ensures
            r@ == "Echo back the provided message."@,
    {
        "Echo back the provided message."
    }

    /// The schema of the arguments.
    pub fn parameters(&self) -> (r: Option<serde_json::Value>)
        ensures
            r matches Some(v) && json::is_schema(v, parameter_list(), 1),
    {
        let parameters = vec![
            Parameter { name: "message", kind: "string", minimum: None },
        ];
        assert(parameters@ =~= parameter_list());
        Some(json::object_schema(parameters, 1))
    }

    /// What the tool touches.
    pub fn resource_scope(&self) -> (r: ResourceScope)
        ensures
            r == ResourceScope::ReadOnly,
    {
        ResourceScope::ReadOnly
    }

    /// The message, as it is.
    pub fn run(&self, args: EchoArgs) -> (r: ToolResult)
        ensures
            r.is_text(args.message@),
            !r.is_error,
    {
        ToolResult::text(args.message)
    }
}

} // verus!
