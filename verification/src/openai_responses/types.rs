//! What is said to a model, and what it says.

use vstd::prelude::*;

use crate::json::{Json, JsonView};
use crate::json_text::fault_text;
use crate::text::opt_text;

verus! {

/// Who says something.
#[derive(Clone, Copy, Debug, PartialEq, Eq, Structural)]
pub enum Role {
    System,
    User,
    Assistant,
    Tool,
}

/// Where an image is.
#[derive(Clone, Debug, PartialEq)]
pub struct ImageUrl {
    pub url: String,
}

/// A part of what is said.
#[derive(Clone, Debug, PartialEq)]
pub enum ContentPart {
    Text { text: String },
    ImageUrl { image_url: ImageUrl },
}

/// What a part is.
pub enum PartView {
    Text(Seq<char>),
    Image(Seq<char>),
}

impl View for ContentPart {
    type V = PartView;

    open spec fn view(&self) -> PartView {
        match self {
            ContentPart::Text { text } => PartView::Text(text@),
            ContentPart::ImageUrl { image_url } => PartView::Image(image_url.url@),
        }
    }
}

/// What a list of parts is.
pub open spec fn part_views(s: Seq<ContentPart>) -> Seq<PartView> {
    s.map_values(|x: ContentPart| x@)
}

/// A call of a tool.
#[derive(Debug, PartialEq)]
pub struct ToolCall {
    pub id: String,
    pub name: String,
    pub arguments: Json,
    pub reasoning: Option<String>,
    pub signature: Option<String>,
}

/// What a call is.
pub struct CallView {
    pub id: Seq<char>,
    pub name: Seq<char>,
    pub arguments: JsonView,
    pub reasoning: Option<Seq<char>>,
    pub signature: Option<Seq<char>>,
}

impl View for ToolCall {
    type V = CallView;

    open spec fn view(&self) -> CallView {
        CallView {
            id: self.id@,
            name: self.name@,
            arguments: self.arguments@,
            reasoning: opt_text(self.reasoning),
            signature: opt_text(self.signature),
        }
    }
}

/// What a list of calls is.
pub open spec fn call_views(s: Seq<ToolCall>) -> Seq<CallView> {
    s.map_values(|x: ToolCall| x@)
}

/// What an optional list of calls is.
pub open spec fn opt_calls(o: Option<Vec<ToolCall>>) -> Option<Seq<CallView>> {
    match o {
        Some(v) => Some(call_views(v@)),
        None => None,
    }
}

/// Something that was said.
#[derive(Debug, PartialEq)]
pub struct ChatMessage {
    pub role: Role,
    pub content: String,
    pub content_parts: Vec<ContentPart>,
    pub tool_calls: Option<Vec<ToolCall>>,
    pub tool_call_id: Option<String>,
    pub name: Option<String>,
}

/// What a message is.
pub struct MessageView {
    pub role: Role,
    pub content: Seq<char>,
    pub content_parts: Seq<PartView>,
    pub tool_calls: Option<Seq<CallView>>,
    pub tool_call_id: Option<Seq<char>>,
    pub name: Option<Seq<char>>,
}

impl View for ChatMessage {
    type V = MessageView;

    open spec fn view(&self) -> MessageView {
        MessageView {
            role: self.role,
            content: self.content@,
            content_parts: part_views(self.content_parts@),
            tool_calls: opt_calls(self.tool_calls),
            tool_call_id: opt_text(self.tool_call_id),
            name: opt_text(self.name),
        }
    }
}

/// What a list of messages is.
pub open spec fn message_views(s: Seq<ChatMessage>) -> Seq<MessageView> {
    s.map_values(|x: ChatMessage| x@)
}

/// A message that is nothing but text.
pub open spec fn plain_message(role: Role, content: Seq<char>) -> MessageView {
    MessageView {
        role,
        content,
        content_parts: seq![],
        tool_calls: None,
        tool_call_id: None,
        name: None,
    }
}

impl ChatMessage {
    /// A message that is nothing but text.
    pub fn plain(role: Role, content: String) -> (r: ChatMessage)
        ensures
            r@ == plain_message(role, content@),
    {
        let r = ChatMessage {
            role,
            content,
            content_parts: Vec::new(),
            tool_calls: None,
            tool_call_id: None,
            name: None,
        };
        assert(r@.content_parts =~= Seq::<PartView>::empty());
        r
    }

    /// What a user says.
    pub fn user(content: &str) -> (r: ChatMessage)
        ensures
            r@ == plain_message(Role::User, content@),
    {
        Self::plain(Role::User, content.to_owned())
    }

    /// What a model says when it calls tools.
    pub fn assistant_with_tool_calls(content: Option<String>, tool_calls: Vec<ToolCall>) -> (r:
        ChatMessage)
        ensures
            r@ == (MessageView {
                tool_calls: if tool_calls@.len() == 0 {
                    None
                } else {
                    Some(call_views(tool_calls@))
                },
                ..plain_message(
                    Role::Assistant,
                    match content {
                        Some(c) => c@,
                        None => seq![],
                    },
                )
            }),
    {
        let text = match content {
            Some(c) => c,
            None => {
                proof {
                    reveal_strlit("");
                    assert(""@ =~= Seq::<char>::empty());
                }
                "".to_owned()
            },
        };
        let mut r = Self::plain(Role::Assistant, text);
        if tool_calls.len() > 0 {
            r.tool_calls = Some(tool_calls);
        }
        r
    }

    /// What a tool gives for a call.
    pub fn tool_result(tool_call_id: &str, name: &str, content: &str) -> (r: ChatMessage)
        ensures
            r@ == (MessageView {
                tool_call_id: Some(tool_call_id@),
                name: Some(name@),
                ..plain_message(Role::Tool, content@)
            }),
    {
        let mut r = Self::plain(Role::Tool, content.to_owned());
        r.tool_call_id = Some(tool_call_id.to_owned());
        r.name = Some(name.to_owned());
        r
    }
}

/// A tool that a model may call. The description and the parameters are in the
/// form in which the service takes them.
#[derive(Debug, PartialEq)]
pub struct ToolDefinition {
    pub name: String,
    pub description: String,
    pub parameters: Json,
}

/// What a tool is.
pub struct ToolView {
    pub name: Seq<char>,
    pub description: Seq<char>,
    pub parameters: JsonView,
}

impl View for ToolDefinition {
    type V = ToolView;

    open spec fn view(&self) -> ToolView {
        ToolView {
            name: self.name@,
            description: self.description@,
            parameters: self.parameters@,
        }
    }
}

/// What a list of tools is.
pub open spec fn tool_views(s: Seq<ToolDefinition>) -> Seq<ToolView> {
    s.map_values(|x: ToolDefinition| x@)
}

/// Why a model stopped.
#[derive(Clone, Copy, Debug, PartialEq, Eq, Structural)]
pub enum FinishReason {
    /// It was done.
    Stop,
    /// It ran out of room.
    Length,
    /// It calls tools.
    ToolUse,
}

/// What a model said.
#[derive(Debug, PartialEq)]
pub struct ParsedResponse {
    pub text_content: String,
    pub tool_calls: Vec<ToolCall>,
    pub input_tokens: u32,
    pub output_tokens: u32,
    pub finish_reason: FinishReason,
}

/// What a response is.
pub struct ResponseView {
    pub text_content: Seq<char>,
    pub tool_calls: Seq<CallView>,
    pub input_tokens: u32,
    pub output_tokens: u32,
    pub finish_reason: FinishReason,
}

impl View for ParsedResponse {
    type V = ResponseView;

    open spec fn view(&self) -> ResponseView {
        ResponseView {
            text_content: self.text_content@,
            tool_calls: call_views(self.tool_calls@),
            input_tokens: self.input_tokens,
            output_tokens: self.output_tokens,
            finish_reason: self.finish_reason,
        }
    }
}

/// How long to wait before another try.
#[derive(Clone, Copy, Debug, PartialEq, Eq, Structural)]
pub struct RetryDelay {
    pub secs: u64,
    pub nanos: u32,
}

/// Why a model could not be asked.
#[derive(Debug)]
pub enum LlmError {
    RequestFailed { provider: String, reason: String },
    AuthFailed { provider: String },
    RateLimited { provider: String, retry_after: Option<RetryDelay> },
    ContextLengthExceeded { used: usize, limit: usize },
    BadGateway { provider: String, status: u16, retry_after: Option<RetryDelay> },
    /// An answer was no JSON text.
    Json(serde_json::Error),
}

/// What an error is.
pub enum LlmErrorView {
    RequestFailed(Seq<char>, Seq<char>),
    AuthFailed(Seq<char>),
    RateLimited(Seq<char>, Option<RetryDelay>),
    ContextLengthExceeded(usize, usize),
    BadGateway(Seq<char>, u16, Option<RetryDelay>),
    Json(Seq<char>),
}

impl View for LlmError {
    type V = LlmErrorView;

    open spec fn view(&self) -> LlmErrorView {
        match self {
            LlmError::RequestFailed { provider, reason } => LlmErrorView::RequestFailed(
                provider@,
                reason@,
            ),
            LlmError::AuthFailed { provider } => LlmErrorView::AuthFailed(provider@),
            LlmError::RateLimited { provider, retry_after } => LlmErrorView::RateLimited(
                provider@,
                *retry_after,
            ),
            LlmError::ContextLengthExceeded { used, limit } => {
                LlmErrorView::ContextLengthExceeded(*used, *limit)
            },
            LlmError::BadGateway { provider, status, retry_after } => LlmErrorView::BadGateway(
                provider@,
                *status,
                *retry_after,
            ),
            LlmError::Json(e) => LlmErrorView::Json(fault_text(*e)),
        }
    }
}

/// A message that is nothing but text has its text and its role, and nothing else.
pub proof fn law_plain_messages(role: Role, content: Seq<char>)
    ensures
        plain_message(role, content).role == role,
        plain_message(role, content).content == content,
        plain_message(role, content).content_parts.len() == 0,
        plain_message(role, content).tool_calls is None,
        plain_message(role, content).tool_call_id is None,
        plain_message(role, content).name is None,
{
}

/// Messages, calls, tools and responses are seen as they are, field by field and in
/// their order.
pub proof fn law_messages_are_seen_as_they_are(
    m: ChatMessage,
    c: ToolCall,
    t: ToolDefinition,
    r: ParsedResponse,
    i: int,
)
    ensures
        m@.role == m.role && m@.content == m.content@ && m@.content_parts.len()
            == m.content_parts@.len(),
        0 <= i < m.content_parts@.len() ==> m@.content_parts[i] == m.content_parts@[i]@,
        m.tool_calls matches Some(v) ==> (m@.tool_calls matches Some(s) && s.len() == v@.len() && (0
            <= i < v@.len() ==> s[i] == v@[i]@)),
        m.tool_calls is None ==> m@.tool_calls is None,
        m.tool_call_id matches Some(x) ==> m@.tool_call_id == Some(x@),
        m.tool_call_id is None ==> m@.tool_call_id is None,
        m.name matches Some(x) ==> m@.name == Some(x@),
        m.name is None ==> m@.name is None,
        c@.id == c.id@ && c@.name == c.name@ && c@.arguments == c.arguments@,
        c.reasoning matches Some(x) ==> c@.reasoning == Some(x@),
        c.reasoning is None ==> c@.reasoning is None,
        c.signature matches Some(x) ==> c@.signature == Some(x@),
        c.signature is None ==> c@.signature is None,
        t@.name == t.name@ && t@.description == t.description@ && t@.parameters == t.parameters@,
        r@.text_content == r.text_content@ && r@.tool_calls.len() == r.tool_calls@.len(),
        0 <= i < r.tool_calls@.len() ==> r@.tool_calls[i] == r.tool_calls@[i]@,
        r@.input_tokens == r.input_tokens && r@.output_tokens == r.output_tokens,
        r@.finish_reason == r.finish_reason,
{
}

} // verus!
