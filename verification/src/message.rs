//! The messages of a conversation, as the session keeps them and a model is
//! given them.

use serde_json::Value;
use vstd::prelude::*;

use crate::json::{json_of, json_opt, Json};


verus! {

/// Who speaks in a message.
#[derive(Debug, Clone, Copy, PartialEq, Eq, Structural)]
pub enum Role {
    System,
    User,
    Assistant,
    Tool,
}

/// One part of a message. `options` carries what a provider attached to the
/// part; nothing here reads it. `Other` is a part of any other kind, as JSON.
#[allow(inconsistent_fields)]
#[derive(Debug)]
pub enum ContentPart {
    Text { text: String, options: Option<Value> },
    ToolCall { tool_call_id: String, tool_name: String, input: Value, options: Option<Value> },
    ToolResult {
        tool_call_id: String,
        result: Value,
        tool_name: Option<String>,
        is_error: Option<bool>,
        options: Option<Value>,
    },
    Other(Value),
}

/// The content of a message: one text, or parts.
#[derive(Debug)]
pub enum MessageContent {
    Text(String),
    Parts(Vec<ContentPart>),
}

/// One message of a conversation.
#[derive(Debug)]
pub struct ModelMessage {
    pub role: Role,
    pub content: MessageContent,
}

/// A tool call that a model asked for.
#[derive(Debug)]
pub struct ToolCall {
    pub tool_call_id: String,
    pub tool_name: String,
    pub input: Value,
}

// ── models ──────────────────────────────────────────────────────────

#[allow(inconsistent_fields)]
#[verifier::ext_equal]
pub enum PartView {
    Text { text: Seq<char>, options: Option<Json> },
    ToolCall { id: Seq<char>, name: Seq<char>, input: Json, options: Option<Json> },
    ToolResult {
        id: Seq<char>,
        result: Json,
        name: Option<Seq<char>>,
        is_error: Option<bool>,
        options: Option<Json>,
    },
    Other(Json),
}

#[verifier::ext_equal]
pub enum ContentView {
    Text(Seq<char>),
    Parts(Seq<PartView>),
}

#[verifier::ext_equal]
pub struct MessageView {
    pub role: Role,
    pub content: ContentView,
}

#[verifier::ext_equal]
pub struct CallView {
    pub id: Seq<char>,
    pub name: Seq<char>,
    pub input: Json,
}

/// The text of an optional string.
pub open spec fn text_opt(s: Option<String>) -> Option<Seq<char>> {
    match s {
        Some(x) => Some(x@),
        None => None,
    }
}

impl View for ContentPart {
    type V = PartView;

    open spec fn view(&self) -> PartView {
        match *self {
            ContentPart::Text { text, options } => PartView::Text {
                text: text@,
                options: json_opt(options),
            },
            ContentPart::ToolCall { tool_call_id, tool_name, input, options } => PartView::ToolCall {
                id: tool_call_id@,
                name: tool_name@,
                input: json_of(input),
                options: json_opt(options),
            },
            ContentPart::ToolResult { tool_call_id, result, tool_name, is_error, options } => PartView::ToolResult {
                id: tool_call_id@,
                result: json_of(result),
                name: text_opt(tool_name),
                is_error,
                options: json_opt(options),
            },
            ContentPart::Other(v) => PartView::Other(json_of(v)),
        }
    }
}

/// The views of a sequence of parts.
pub open spec fn part_views(v: Seq<ContentPart>) -> Seq<PartView> {
    Seq::new(v.len(), |i: int| v[i]@)
}

impl View for MessageContent {
    type V = ContentView;

    open spec fn view(&self) -> ContentView {
        match *self {
            MessageContent::Text(s) => ContentView::Text(s@),
            MessageContent::Parts(parts) => ContentView::Parts(part_views(parts@)),
        }
    }
}

impl View for ModelMessage {
    type V = MessageView;

    open spec fn view(&self) -> MessageView {
        MessageView { role: self.role, content: self.content@ }
    }
}

impl View for ToolCall {
    type V = CallView;

    open spec fn view(&self) -> CallView {
        CallView { id: self.tool_call_id@, name: self.tool_name@, input: json_of(self.input) }
    }
}

/// The views of a sequence of messages.
pub open spec fn message_views(v: Seq<ModelMessage>) -> Seq<MessageView> {
    Seq::new(v.len(), |i: int| v[i]@)
}

/// The views of a sequence of calls.
pub open spec fn call_views(v: Seq<ToolCall>) -> Seq<CallView> {
    Seq::new(v.len(), |i: int| v[i]@)
}

/// The message of one speaker with one text.
pub open spec fn plain(role: Role, text: Seq<char>) -> MessageView {
    MessageView { role, content: ContentView::Text(text) }
}

// ── copies ──────────────────────────────────────────────────────────

fn copy_value(v: &Option<Value>) -> (r: Option<Value>)
    ensures
        json_opt(r) == json_opt(*v),
{
    match v {
        Some(x) => Some(x.clone()),
        None => None,
    }
}

/// A copy of an optional string.
pub fn copy_text(s: &Option<String>) -> (r: Option<String>)
    ensures
        text_opt(r) == text_opt(*s),
{
    match s {
        Some(x) => Some(x.clone()),
        None => None,
    }
}

impl Clone for ContentPart {
    fn clone(&self) -> (r: Self)
        ensures
            r@ == self@,
    {
        match self {
            ContentPart::Text { text, options } => ContentPart::Text {
                text: text.clone(),
                options: copy_value(options),
            },
            ContentPart::ToolCall { tool_call_id, tool_name, input, options } => ContentPart::ToolCall {
                tool_call_id: tool_call_id.clone(),
                tool_name: tool_name.clone(),
                input: input.clone(),
                options: copy_value(options),
            },
            ContentPart::ToolResult { tool_call_id, result, tool_name, is_error, options } => ContentPart::ToolResult {
                tool_call_id: tool_call_id.clone(),
                result: result.clone(),
                tool_name: copy_text(tool_name),
                is_error: *is_error,
                options: copy_value(options),
            },
            ContentPart::Other(v) => ContentPart::Other(v.clone()),
        }
    }
}

impl Clone for MessageContent {
    fn clone(&self) -> (r: Self)
        ensures
            r@ == self@,
    {
        match self {
            MessageContent::Text(s) => MessageContent::Text(s.clone()),
            MessageContent::Parts(parts) => {
                let mut out: Vec<ContentPart> = Vec::new();
                let mut i: usize = 0;
                while i < parts.len()
                    invariant
                        i <= parts@.len(),
                        part_views(out@) == part_views(parts@).take(i as int),
                    decreases parts@.len() - i,
                {
                    let ghost before = out@;
                    out.push(parts[i].clone());
                    assert(part_views(out@) =~= part_views(before).push(parts@[i as int]@));
                    assert(part_views(parts@).take(i + 1) =~= part_views(parts@).take(
                        i as int,
                    ).push(parts@[i as int]@));
                    i = i + 1;
                }
                assert(part_views(parts@).take(i as int) =~= part_views(parts@));
                MessageContent::Parts(out)
            },
        }
    }
}

impl Clone for ModelMessage {
    fn clone(&self) -> (r: Self)
        ensures
            r@ == self@,
    {
        ModelMessage { role: self.role, content: self.content.clone() }
    }
}

impl Clone for ToolCall {
    fn clone(&self) -> (r: Self)
        ensures
            r@ == self@,
    {
        ToolCall {
            tool_call_id: self.tool_call_id.clone(),
            tool_name: self.tool_name.clone(),
            input: self.input.clone(),
        }
    }
}

/// A copy of a sequence of messages.
pub fn copy_messages(v: &Vec<ModelMessage>) -> (r: Vec<ModelMessage>)
    ensures
        message_views(r@) == message_views(v@),
{
    let mut out: Vec<ModelMessage> = Vec::new();
    let mut i: usize = 0;
    while i < v.len()
        invariant
            i <= v@.len(),
            message_views(out@) == message_views(v@).take(i as int),
        decreases v@.len() - i,
    {
        let ghost before = out@;
        out.push(v[i].clone());
        assert(message_views(out@) =~= message_views(before).push(v@[i as int]@));
        assert(message_views(v@).take(i + 1) =~= message_views(v@).take(i as int).push(
            v@[i as int]@,
        ));
        i = i + 1;
    }
    assert(message_views(v@).take(i as int) =~= message_views(v@));
    out
}

// ── constructors ────────────────────────────────────────────────────

impl ModelMessage {
    /// A message of the user with one text.
    pub fn user(text: String) -> (r: Self)
        ensures
            r@ == plain(Role::User, text@),
    {
        ModelMessage { role: Role::User, content: MessageContent::Text(text) }
    }

    /// A message of the assistant with one text.
    pub fn assistant(text: String) -> (r: Self)
        ensures
            r@ == plain(Role::Assistant, text@),
    {
        ModelMessage { role: Role::Assistant, content: MessageContent::Text(text) }
    }
}

impl ContentPart {
    /// A text part.
    pub fn text(text: String) -> (r: Self)
        ensures
            r@ == (PartView::Text { text: text@, options: None }),
    {
        ContentPart::Text { text, options: None }
    }

    /// A tool call part.
    pub fn tool_call(tool_call_id: String, tool_name: String, input: Value) -> (r: Self)
        ensures
            r@ == (PartView::ToolCall {
                id: tool_call_id@,
                name: tool_name@,
                input: json_of(input),
                options: None,
            }),
    {
        ContentPart::ToolCall { tool_call_id, tool_name, input, options: None }
    }

    /// A tool result part that names neither the tool nor an error.
    pub fn tool_result(tool_call_id: String, result: Value) -> (r: Self)
        ensures
            r@ == (PartView::ToolResult {
                id: tool_call_id@,
                result: json_of(result),
                name: None,
                is_error: None,
                options: None,
            }),
    {
        ContentPart::ToolResult {
            tool_call_id,
            result,
            tool_name: None,
            is_error: None,
            options: None,
        }
    }
}

/// A message of one text is of its speaker and holds that text alone.
pub proof fn law_plain_message(role: Role, text: Seq<char>)
    ensures
        plain(role, text).role == role,
        plain(role, text).content == ContentView::Text(text),
{
}

} // verus!
