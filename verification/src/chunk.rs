use vstd::prelude::*;

verus! {

/// One `data:` payload of a Chat Completions stream, as decoded from JSON.
#[derive(Debug)]
pub struct ChatChunk {
    pub id: Option<String>,
    pub model: Option<String>,
    pub choices: Option<Vec<ChatChunkChoice>>,
    pub usage: Option<ChatChunkUsage>,
}

/// One entry of `choices` in a chunk.
#[derive(Debug)]
pub struct ChatChunkChoice {
    pub delta: Option<ChatChunkDelta>,
    pub finish_reason: Option<String>,
}

/// The incremental part of a choice.
#[derive(Debug)]
pub struct ChatChunkDelta {
    pub content: Option<String>,
    pub reasoning_content: Option<String>,
    pub tool_calls: Option<Vec<ChatChunkToolCallDelta>>,
}

/// A fragment of a tool call, identified by its `index`.
#[derive(Debug)]
pub struct ChatChunkToolCallDelta {
    pub index: i32,
    pub id: Option<String>,
    pub function: Option<ChatChunkFunctionDelta>,
}

/// A fragment of the function of a tool call.
#[derive(Debug)]
pub struct ChatChunkFunctionDelta {
    pub name: Option<String>,
    pub arguments: Option<String>,
}

/// Token counts reported by the provider.
#[derive(Debug, Clone, Copy)]
pub struct ChatChunkUsage {
    pub prompt_tokens: Option<i64>,
    pub completion_tokens: Option<i64>,
    pub total_tokens: i64,
}

/// A payload that reports a provider error.
#[derive(Debug)]
pub struct ChatErrorPayload {
    pub error: Option<ChatErrorDetail>,
}

/// The error reported by the provider.
#[derive(Debug)]
pub struct ChatErrorDetail {
    pub code: Option<String>,
    pub message: Option<String>,
}

} // verus!
