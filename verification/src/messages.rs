//! The uniform message, tool and error model shared by the provider pool and
//! the agent turn loop.
//!
//! A transcript is an append-only sequence of `Message`s. Every tool call a
//! model emits is answered, before the next model call, by exactly one tool
//! result whose id matches; `transcript_wf` states that shape.

use vstd::prelude::*;

verus! {

/// Who produced a message.
#[derive(Clone, Copy, PartialEq, Eq, Structural, Debug)]
pub enum Role {
    System,
    User,
    Assistant,
    Tool,
}

/// A model-issued request to invoke a named tool with JSON arguments.
/// Arguments are never parsed by the loop; that is the tool boundary's job.
#[derive(Debug)]
pub struct ToolCall {
    pub id: String,
    pub name: String,
    pub arguments: String,
}

/// The payload of one transcript message.
#[derive(Debug)]
pub enum MessageContent {
    /// Plain text, used by system, user and plain assistant messages.
    Text(String),
    /// An assistant turn that requests tool calls, in the model's own order.
    AssistantWithToolCalls { text: Option<String>, tool_calls: Vec<ToolCall> },
    /// The result of one tool call, tied back by `tool_call_id`.
    ToolResult { tool_call_id: String, name: String, content: String },
}

/// One entry of a conversation transcript.
#[derive(Debug)]
pub struct Message {
    pub role: Role,
    pub content: MessageContent,
}

/// A tool made known to the model: name, human description, JSON schema text.
#[derive(Debug)]
pub struct ToolDef {
    pub name: String,
    pub description: String,
    pub parameters: String,
}

/// Token accounting reported by a provider.
#[derive(Clone, Copy, PartialEq, Eq, Structural, Debug)]
pub struct Usage {
    pub prompt_tokens: u32,
    pub completion_tokens: u32,
}

/// What a provider answered: optional text, tool calls in issued order.
#[derive(Debug)]
pub struct LlmResponse {
    pub content: Option<String>,
    pub tool_calls: Vec<ToolCall>,
    pub usage: Usage,
}

/// The closed set of classified provider failures.
#[derive(Debug)]
pub enum ProviderError {
    /// The credential's quota is exhausted; another key may still work.
    RateLimited,
    /// The credential is rejected; rotating keys of the same backend is futile.
    AuthError(String),
    /// The backend answered, but with a body the adapter could not read.
    ParseError(String),
    /// Transport failure or any other non-success answer.
    RequestError(String),
    /// The pool was built with no provider at all.
    NoKeysConfigured,
}

impl Clone for ToolCall {
    fn clone(&self) -> (r: Self)
        ensures
            r == *self,
    {
        ToolCall {
            id: self.id.clone(),
            name: self.name.clone(),
            arguments: self.arguments.clone(),
        }
    }
}

/// Clone of every tool call, in order, preserving values.
pub fn clone_tool_calls(v: &Vec<ToolCall>) -> (r: Vec<ToolCall>)
    ensures
        r@ == v@,
{
    let mut r: Vec<ToolCall> = Vec::new();
    let mut i: usize = 0;
    while i < v.len()
        invariant
            i <= v@.len(),
            r@ =~= v@.subrange(0, i as int),
        decreases v@.len() - i,
    {
        r.push(v[i].clone());
        i += 1;
    }
    proof {
        assert(r@ =~= v@);
    }
    r
}

fn clone_string_opt(o: &Option<String>) -> (r: Option<String>)
    ensures
        r == *o,
{
    match o {
        Some(s) => Some(s.clone()),
        None => None,
    }
}

/// Two responses that agree on text, tool calls and token counts. Cloning a
/// response preserves this; the vectors inside may be distinct allocations.
pub open spec fn llm_eq(a: LlmResponse, b: LlmResponse) -> bool {
    &&& a.content == b.content
    &&& a.tool_calls@ == b.tool_calls@
    &&& a.usage == b.usage
}

impl Clone for LlmResponse {
    fn clone(&self) -> (r: Self)
        ensures
            llm_eq(r, *self),
    {
        LlmResponse {
            content: clone_string_opt(&self.content),
            tool_calls: clone_tool_calls(&self.tool_calls),
            usage: self.usage,
        }
    }
}

/// Two message payloads that agree on everything a reader can see.
pub open spec fn content_eq(a: MessageContent, b: MessageContent) -> bool {
    match (a, b) {
        (MessageContent::Text(x), MessageContent::Text(y)) => x == y,
        (
            MessageContent::AssistantWithToolCalls { text: xt, tool_calls: xc },
            MessageContent::AssistantWithToolCalls { text: yt, tool_calls: yc },
        ) => xt == yt && xc@ == yc@,
        (
            MessageContent::ToolResult { tool_call_id: xi, name: xn, content: xc },
            MessageContent::ToolResult { tool_call_id: yi, name: yn, content: yc },
        ) => xi == yi && xn == yn && xc == yc,
        _ => false,
    }
}

impl Clone for MessageContent {
    fn clone(&self) -> (r: Self)
        ensures
            content_eq(r, *self),
    {
        match self {
            MessageContent::Text(s) => MessageContent::Text(s.clone()),
            MessageContent::AssistantWithToolCalls { text, tool_calls } => MessageContent::AssistantWithToolCalls {
                text: clone_string_opt(text),
                tool_calls: clone_tool_calls(tool_calls),
            },
            MessageContent::ToolResult { tool_call_id, name, content } => MessageContent::ToolResult {
                tool_call_id: tool_call_id.clone(),
                name: name.clone(),
                content: content.clone(),
            },
        }
    }
}

impl Clone for Message {
    fn clone(&self) -> (r: Self)
        ensures
            r.role == self.role,
            content_eq(r.content, self.content),
    {
        Message { role: self.role, content: self.content.clone() }
    }
}

impl Clone for ToolDef {
    fn clone(&self) -> (r: Self)
        ensures
            r == *self,
    {
        ToolDef {
            name: self.name.clone(),
            description: self.description.clone(),
            parameters: self.parameters.clone(),
        }
    }
}

impl Clone for ProviderError {
    fn clone(&self) -> (r: Self)
        ensures
            r == *self,
    {
        match self {
            ProviderError::RateLimited => ProviderError::RateLimited,
            ProviderError::AuthError(d) => ProviderError::AuthError(d.clone()),
            ProviderError::ParseError(d) => ProviderError::ParseError(d.clone()),
            ProviderError::RequestError(d) => ProviderError::RequestError(d.clone()),
            ProviderError::NoKeysConfigured => ProviderError::NoKeysConfigured,
        }
    }
}

impl MessageContent {
    /// The text a reader would attribute to this message: the plain text, an
    /// assistant turn's optional text, or a tool result's content.
    pub open spec fn spec_text(self) -> Seq<char> {
        match self {
            MessageContent::Text(s) => s@,
            MessageContent::AssistantWithToolCalls { text, .. } => match text {
                Some(t) => t@,
                None => Seq::<char>::empty(),
            },
            MessageContent::ToolResult { content, .. } => content@,
        }
    }

    pub fn as_text(&self) -> (r: &str)
        ensures
            r@ == self.spec_text(),
    {
        match self {
            MessageContent::Text(s) => s.as_str(),
            MessageContent::AssistantWithToolCalls { text, .. } => match text {
                Some(t) => t.as_str(),
                None => {
                    proof {
                        reveal_strlit("");
                    }
                    ""
                },
            },
            MessageContent::ToolResult { content, .. } => content.as_str(),
        }
    }
}

impl ProviderError {
    /// A short description of the failure, used when the loop surfaces a
    /// terminal pool error to its caller.
    pub open spec fn spec_describe(self) -> Seq<char> {
        match self {
            ProviderError::RateLimited => "rate limited"@,
            ProviderError::AuthError(d) => "auth error: "@ + d@,
            ProviderError::ParseError(d) => "parse error: "@ + d@,
            ProviderError::RequestError(d) => "request error: "@ + d@,
            ProviderError::NoKeysConfigured => "no API keys configured"@,
        }
    }

    pub fn describe(&self) -> (r: String)
        ensures
            r@ == self.spec_describe(),
    {
        match self {
            ProviderError::RateLimited => "rate limited".to_owned(),
            ProviderError::AuthError(d) => concat_str("auth error: ", d.as_str()),
            ProviderError::ParseError(d) => concat_str("parse error: ", d.as_str()),
            ProviderError::RequestError(d) => concat_str("request error: ", d.as_str()),
            ProviderError::NoKeysConfigured => "no API keys configured".to_owned(),
        }
    }
}

/// Concatenation of two string slices.
pub fn concat_str(a: &str, b: &str) -> (r: String)
    ensures
        r@ == a@ + b@,
{
    let mut s = a.to_owned();
    s.append(b);
    s
}

/// The classification every adapter owes the pool: HTTP 429 is a rate limit,
/// 401 and 403 are credential failures, any other non-success status is a
/// request failure carrying its detail; a success status classifies as no
/// error at all.
pub fn provider_error_for_status(status: u16, detail: String) -> (r: Option<ProviderError>)
    ensures
        status == 429 ==> r == Some(ProviderError::RateLimited),
        (status == 401 || status == 403) ==> (r matches Some(e) && e matches ProviderError::AuthError(d) && d == detail),
        (200 <= status < 300) ==> r is None,
        !(status == 429 || status == 401 || status == 403 || (200 <= status < 300)) ==> (r
            matches Some(e) && e matches ProviderError::RequestError(d) && d == detail),
{
    if status == 429 {
        Some(ProviderError::RateLimited)
    } else if status == 401 || status == 403 {
        Some(ProviderError::AuthError(detail))
    } else if 200 <= status && status < 300 {
        None
    } else {
        Some(ProviderError::RequestError(detail))
    }
}

} // verus!
