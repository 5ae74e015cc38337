//! The events that an agent reports while it runs.
use std::sync::Arc;
use vstd::prelude::*;

use crate::message::{AssistantMessage, Message, ToolResultMessage};
use crate::provider::AssistantEvent;
use crate::tool::ToolResult;

verus! {

/// An event of an agent.
#[allow(inconsistent_fields)]
#[derive(Debug, Clone, PartialEq)]
pub enum AgentEvent {
    AgentStart,
    AgentEnd { messages: Vec<Arc<Message>> },
    TurnStart,
    TurnEnd { message: Arc<AssistantMessage>, tool_results: Vec<ToolResultMessage> },
    MessageStart { message: Arc<Message> },
    MessageUpdate { message: Arc<Message>, assistant_event: AssistantEvent },
    MessageEnd { message: Arc<Message> },
    ToolExecutionStart { tool_call_id: String, tool_name: String, args: serde_json::Value },
    ToolExecutionUpdate {
        tool_call_id: String,
        tool_name: String,
        args: serde_json::Value,
        partial: ToolResult,
    },
    ToolExecutionEnd {
        tool_call_id: String,
        tool_name: String,
        result: ToolResult,
        is_error: bool,
    },
}

} // verus!
