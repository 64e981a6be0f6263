//! What an agent tells its observers while a turn runs.

use serde_json::Value;
use vstd::prelude::*;

use crate::json::{json_of, Json};
use crate::message::text_opt;
use crate::session::SessionId;

verus! {

/// The agent asks its host to restart it.
#[derive(Debug)]
pub struct SelfReloadRequested {
    pub session: SessionId,
    pub reason: String,
    pub intent_path: String,
}

impl SelfReloadRequested {
    /// The name under which observers hear of it.
    pub fn name(&self) -> (r: &'static str)
        ensures
            r@ == "self/reload-requested"@,
    {
        "self/reload-requested"
    }
}

/// A piece of the model's text.
#[derive(Debug)]
pub struct AgentTextDelta {
    pub session: SessionId,
    pub step: usize,
    pub delta: String,
}

/// A piece of the model's reasoning.
#[derive(Debug)]
pub struct AgentReasoning {
    pub session: SessionId,
    pub step: usize,
    pub delta: String,
}

/// A tool call begins.
#[derive(Debug)]
pub struct AgentToolCall {
    pub session: SessionId,
    pub name: String,
    pub args: Value,
}

/// A tool call has a result; where it failed, `output` says why.
#[derive(Debug)]
pub struct AgentToolResult {
    pub session: SessionId,
    pub name: String,
    pub ok: bool,
    pub output: String,
}

/// A turn is over; where it failed, `error` says why.
#[derive(Debug)]
pub struct AgentTurnEnd {
    pub session: SessionId,
    pub ok: bool,
    pub error: String,
}

/// What one answer of the model held.
#[derive(Debug)]
pub struct AgentStepEvent {
    pub session: SessionId,
    pub step: usize,
    pub content: Option<String>,
    pub tool_calls: usize,
}

/// Any of the events of a turn.
#[derive(Debug)]
pub enum AgentEvent {
    TextDelta(AgentTextDelta),
    Reasoning(AgentReasoning),
    ToolCall(AgentToolCall),
    ToolResult(AgentToolResult),
    TurnEnd(AgentTurnEnd),
    Step(AgentStepEvent),
}

#[verifier::ext_equal]
pub enum EventView {
    TextDelta { session: SessionId, step: nat, delta: Seq<char> },
    Reasoning { session: SessionId, step: nat, delta: Seq<char> },
    ToolCall { session: SessionId, name: Seq<char>, args: Json },
    ToolResult { session: SessionId, name: Seq<char>, ok: bool, output: Seq<char> },
    TurnEnd { session: SessionId, ok: bool, error: Seq<char> },
    Step { session: SessionId, step: nat, content: Option<Seq<char>>, tool_calls: nat },
}

impl View for AgentEvent {
    type V = EventView;

    open spec fn view(&self) -> EventView {
        match *self {
            AgentEvent::TextDelta(e) => EventView::TextDelta {
                session: e.session,
                step: e.step as nat,
                delta: e.delta@,
            },
            AgentEvent::Reasoning(e) => EventView::Reasoning {
                session: e.session,
                step: e.step as nat,
                delta: e.delta@,
            },
            AgentEvent::ToolCall(e) => EventView::ToolCall {
                session: e.session,
                name: e.name@,
                args: json_of(e.args),
            },
            AgentEvent::ToolResult(e) => EventView::ToolResult {
                session: e.session,
                name: e.name@,
                ok: e.ok,
                output: e.output@,
            },
            AgentEvent::TurnEnd(e) => EventView::TurnEnd {
                session: e.session,
                ok: e.ok,
                error: e.error@,
            },
            AgentEvent::Step(e) => EventView::Step {
                session: e.session,
                step: e.step as nat,
                content: text_opt(e.content),
                tool_calls: e.tool_calls as nat,
            },
        }
    }
}

/// The name under which observers hear of an event.
pub open spec fn event_name(e: EventView) -> Seq<char> {
    match e {
        EventView::TextDelta { .. } => "agent/text-delta"@,
        EventView::Reasoning { .. } => "agent/reasoning"@,
        EventView::ToolCall { .. } => "agent/tool-call"@,
        EventView::ToolResult { .. } => "agent/tool-result"@,
        EventView::TurnEnd { .. } => "agent/turn-end"@,
        EventView::Step { .. } => "agent/step"@,
    }
}

impl AgentEvent {
    /// The name under which observers hear of the event.
    pub fn name(&self) -> (r: &'static str)
        ensures
            r@ == event_name(self@),
    {
        match self {
            AgentEvent::TextDelta(_) => "agent/text-delta",
            AgentEvent::Reasoning(_) => "agent/reasoning",
            AgentEvent::ToolCall(_) => "agent/tool-call",
            AgentEvent::ToolResult(_) => "agent/tool-result",
            AgentEvent::TurnEnd(_) => "agent/turn-end",
            AgentEvent::Step(_) => "agent/step",
        }
    }
}

/// The views of a sequence of events.
pub open spec fn event_views(v: Seq<AgentEvent>) -> Seq<EventView> {
    Seq::new(v.len(), |i: int| v[i]@)
}

/// Each kind of event is heard of under a name of its own.
pub proof fn law_events_have_their_own_names(e: EventView)
    ensures
        e is TextDelta <==> event_name(e) == "agent/text-delta"@,
        e is Reasoning <==> event_name(e) == "agent/reasoning"@,
        e is ToolCall <==> event_name(e) == "agent/tool-call"@,
        e is ToolResult <==> event_name(e) == "agent/tool-result"@,
        e is TurnEnd <==> event_name(e) == "agent/turn-end"@,
        e is Step <==> event_name(e) == "agent/step"@,
{
    reveal_strlit("agent/text-delta");
    reveal_strlit("agent/reasoning");
    reveal_strlit("agent/tool-call");
    reveal_strlit("agent/tool-result");
    reveal_strlit("agent/turn-end");
    reveal_strlit("agent/step");
    assert("agent/text-delta"@.len() == 16);
    assert("agent/reasoning"@.len() == 15 && "agent/reasoning"@[6] == 'r');
    assert("agent/tool-call"@.len() == 15 && "agent/tool-call"@[6] == 't');
    assert("agent/tool-result"@.len() == 17);
    assert("agent/turn-end"@.len() == 14);
    assert("agent/step"@.len() == 10);
}

} // verus!
