//! Chat-completion messages, and the parts of answers that carry no
//! floating-point data.
use vstd::prelude::*;

verus! {

/// Options of a streamed answer.
#[derive(Clone, Debug, PartialEq, Eq)]
pub struct StreamOptionsParam {
    /// Whether an extra chunk with the request's token usage comes just
    /// before the sentinel.
    pub include_usage: Option<bool>,
}

/// One message of a conversation, tagged by its role.
#[derive(Clone, Debug, PartialEq, Eq)]
pub enum ChatCompletionMessage {
    System(SystemMessage),
    User(UserMessage),
    Assistant(AssistantMessage),
    Tool(ToolMessage),
}

/// A system message.
#[derive(Clone, Debug, PartialEq, Eq)]
pub struct SystemMessage {
    pub content: String,
}

/// A user message.
#[derive(Clone, Debug, PartialEq, Eq)]
pub struct UserMessage {
    pub content: String,
}

/// An earlier answer of the assistant, with the tool calls it made.
#[derive(Clone, Debug, PartialEq, Eq)]
pub struct AssistantMessage {
    pub content: Option<String>,
    pub tool_calls: Option<Vec<MessageToolCallParam>>,
}

/// A tool call made by the assistant, as sent back in a conversation.
#[derive(Clone, Debug, PartialEq, Eq)]
pub struct MessageToolCallParam {
    /// The call's identifier.
    pub id: String,
    /// The kind of tool called.
    pub kind: ToolCallType,
    /// The function called and its arguments.
    pub function: FunctionParam,
}

/// A function call: its name and its arguments as JSON text.
#[derive(Clone, Debug, PartialEq, Eq)]
pub struct FunctionParam {
    pub name: String,
    pub arguments: String,
}

/// The kinds of tool; only functions exist.
#[derive(Clone, Copy, Debug, PartialEq, Eq)]
pub enum ToolCallType {
    Function,
}

impl Default for ToolCallType {
    fn default() -> (r: Self)
        ensures
            r == ToolCallType::Function,
    {
        ToolCallType::Function
    }
}

/// The result of a tool call, answering the call with id `tool_call_id`.
#[derive(Clone, Debug, PartialEq, Eq)]
pub struct ToolMessage {
    pub content: String,
    pub tool_call_id: String,
}

/// The message of a complete answer. At least one of `content` and
/// `tool_calls` is present.
#[derive(Clone, Debug, PartialEq, Eq)]
pub struct Message {
    /// Always `assistant`.
    pub role: String,
    pub content: Option<String>,
    pub tool_calls: Option<Vec<MessageToolCall>>,
}

/// A tool call in an answer.
#[derive(Clone, Debug, PartialEq, Eq)]
pub struct MessageToolCall {
    pub id: String,
    /// The kind of tool; always `function`.
    pub kind: String,
    pub function: Function,
}

/// A function that the model calls, with its arguments as JSON text (which
/// the model does not promise to be valid).
#[derive(Clone, Debug, PartialEq, Eq)]
pub struct Function {
    pub name: String,
    pub arguments: String,
}

/// Token counts of a request.
#[derive(Clone, Copy, Debug, PartialEq, Eq)]
pub struct Usage {
    pub prompt_tokens: usize,
    pub completion_tokens: usize,
    pub total_tokens: usize,
}

/// The partial message that one streamed chunk adds for one choice.
#[derive(Clone, Debug, PartialEq, Eq)]
pub struct ChoiceDelta {
    /// Always `assistant`.
    pub role: String,
    pub content: Option<String>,
    pub tool_calls: Option<Vec<ChoiceDeltaToolCall>>,
}

/// A fragment of a tool call in a streamed chunk.
#[derive(Clone, Debug, PartialEq, Eq)]
pub struct ChoiceDeltaToolCall {
    /// Position of the call in the list of tool calls.
    pub index: usize,
    pub id: String,
    /// The kind of tool; always `function`.
    pub kind: String,
    pub function: Function,
}

} // verus!
