//! The parts of a chat request and reply that tool calling reads and writes.
use vstd::prelude::*;

verus! {

/// A function that a request declares.
#[derive(Debug, Clone)]
pub struct FunctionSpec {
    pub name: String,
    pub description: Option<String>,
    /// The JSON schema of the arguments.
    pub parameters: Option<serde_json::Value>,
}

/// An entry of a request's `tools` array.
#[derive(Debug, Clone)]
pub struct ToolSpec {
    pub tool_type: String,
    pub function: FunctionSpec,
}

/// The function that a call names, and its arguments as JSON text.
#[derive(Debug, Clone)]
pub struct FunctionCall {
    pub name: String,
    pub arguments: String,
}

/// An entry of a reply's `tool_calls` array.
#[derive(Debug, Clone)]
pub struct ToolCall {
    pub id: String,
    pub call_type: String,
    pub function: FunctionCall,
}

/// The texts of a `ToolCall`.
pub struct CallText {
    pub id: Seq<char>,
    pub call_type: Seq<char>,
    pub name: Seq<char>,
    pub arguments: Seq<char>,
}

impl View for ToolCall {
    type V = CallText;

    open spec fn view(&self) -> CallText {
        CallText {
            id: self.id@,
            call_type: self.call_type@,
            name: self.function.name@,
            arguments: self.function.arguments@,
        }
    }
}

} // verus!
