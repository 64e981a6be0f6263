//! The agent loop: from a user's message over model answers and tool calls to
//! the end of the turn.
//!
//! The driver decides; its host performs. Each call takes what happened
//! outside and says what to tell observers, whether to write the session, and
//! what to do next.

use vstd::prelude::*;

use crate::agent::{error_text, AgentError, AgentStatus, ErrorView, SessionSnapshot, StatusCell};
use crate::events::{
    event_views, AgentEvent, AgentReasoning, AgentStepEvent, AgentTextDelta, AgentToolCall,
    AgentToolResult, AgentTurnEnd, EventView,
};
use crate::history::{
    answers, asks, brings, call_id, has_result, in_block, in_order, law_sanitized_is_legal, legal,
    lemma_call_ids, lemma_call_ids_found, lemma_legal_concat, parts_of, result_ids,
    sanitize_history, sanitized, serves,
};
use crate::json;
use crate::json::Json;
use crate::message::{
    call_views, copy_text, message_views, part_views, plain, text_opt, CallView, ContentPart,
    ContentView, MessageContent, MessageView, ModelMessage, PartView, Role, ToolCall,
};
use crate::session::{
    compacted, first_messages, last_messages, sum_up_to_max, written, Session, SessionFile,
    SessionId, SessionView,
};
use crate::text::{
    contains, count, decimal, head, lemma_found_behind, lemma_occurs_in_front, lemma_regrouped,
    lemma_stands_in, lemma_still_found, lower_case, number, occurs, stands_at, tail, take_head, take_tail, texts,
    to_lower,
};
use crate::tools::{failed, OutputView, ToolOutput};

verus! {

// ── messages of the loop ────────────────────────────────────────────

/// How many characters of a long tool output stay at each end.
pub const TOOL_RESULT_KEEP: usize = 1500;

/// The parts that stand for tool calls.
pub open spec fn call_parts(calls: Seq<CallView>) -> Seq<PartView> {
    Seq::new(
        calls.len(),
        |i: int|
            PartView::ToolCall {
                id: calls[i].id,
                name: calls[i].name,
                input: calls[i].input,
                options: None,
            },
    )
}

/// The message that keeps an answer of the model: its text, where there is
/// any, and its calls.
pub open spec fn answer(text: Seq<char>, calls: Seq<CallView>) -> MessageView {
    MessageView {
        role: Role::Assistant,
        content: ContentView::Parts(
            if text.len() > 0 {
                seq![PartView::Text { text, options: None }] + call_parts(calls)
            } else {
                call_parts(calls)
            },
        ),
    }
}

/// A tool output as it is kept: a long one is cut to its two ends, with a note
/// of how many characters are missing between them.
pub open spec fn kept_output(output: Seq<char>) -> Seq<char> {
    let keep = TOOL_RESULT_KEEP as int;
    if output.len() > 2 * keep + 80 {
        head(output, keep) + "\n…[trimmed "@ + decimal((output.len() - 2 * keep) as nat)
            + " chars…]\n"@ + tail(output, keep)
    } else {
        output
    }
}

/// The message that keeps the output of a call.
pub open spec fn result_message(call: CallView, out: OutputView) -> MessageView {
    MessageView {
        role: Role::Tool,
        content: ContentView::Parts(
            seq![
                PartView::ToolResult {
                    id: call.id,
                    result: Json::Text(kept_output(out.output)),
                    name: Some(call.name),
                    is_error: Some(!out.ok),
                    options: None,
                },
            ],
        ),
    }
}

/// The message that keeps an answer of the model.
pub fn assistant_message(text: &str, calls: &Vec<ToolCall>) -> (r: ModelMessage)
    ensures
        r@ == answer(text@, call_views(calls@)),
{
    let mut parts: Vec<ContentPart> = Vec::new();
    if !text.is_empty() {
        parts.push(ContentPart::text(text.to_owned()));
    }
    let ghost start = part_views(parts@);
    let mut i: usize = 0;
    assert(start =~= start + call_parts(call_views(calls@).take(0)));
    while i < calls.len()
        invariant
            i <= calls@.len(),
            part_views(parts@) == start + call_parts(call_views(calls@).take(i as int)),
        decreases calls@.len() - i,
    {
        let c = &calls[i];
        let ghost before = part_views(parts@);
        let part = ContentPart::tool_call(
            c.tool_call_id.clone(),
            c.tool_name.clone(),
            c.input.clone(),
        );
        let ghost view = part@;
        parts.push(part);
        proof {
            assert(part_views(parts@) =~= before.push(view));
            assert(call_parts(call_views(calls@).take(i + 1)) =~= call_parts(
                call_views(calls@).take(i as int),
            ).push(view));
        }
        i = i + 1;
    }
    proof {
        assert(call_views(calls@).take(i as int) =~= call_views(calls@));
        if text@.len() > 0 {
            assert(start =~= seq![PartView::Text { text: text@, options: None }]);
        } else {
            assert(part_views(parts@) =~= call_parts(call_views(calls@)));
        }
    }
    ModelMessage { role: Role::Assistant, content: MessageContent::Parts(parts) }
}

/// The message that keeps the output of a call.
pub fn tool_result_message(call: &ToolCall, out: &ToolOutput) -> (r: ModelMessage)
    ensures
        r@ == result_message(call@, out@),
{
    let total: usize = count(out.output.as_str());
    let output = if total > 2 * TOOL_RESULT_KEEP + 80 {
        let mut s = take_head(out.output.as_str(), TOOL_RESULT_KEEP);
        s.push_str("\n…[trimmed ");
        s.push_str(number((total - 2 * TOOL_RESULT_KEEP) as u64).as_str());
        s.push_str(" chars…]\n");
        s.push_str(take_tail(out.output.as_str(), TOOL_RESULT_KEEP).as_str());
        s
    } else {
        out.output.clone()
    };
    let mut parts: Vec<ContentPart> = Vec::new();
    assert(output@ =~= kept_output(out.output@));
    parts.push(
        ContentPart::ToolResult {
            tool_call_id: call.tool_call_id.clone(),
            result: json::string(output),
            tool_name: Some(call.tool_name.clone()),
            is_error: Some(!out.ok),
            options: None,
        },
    );
    let r = ModelMessage { role: Role::Tool, content: MessageContent::Parts(parts) };
    assert(r@.content->Parts_0 =~= result_message(call@, out@).content->Parts_0);
    r
}

// ── context overflow ────────────────────────────────────────────────

/// The words by which a model's error, in lower case, is taken to say that the
/// prompt was too long.
pub open spec fn overflow_words() -> Seq<Seq<char>> {
    seq![
        "context"@,
        "too long"@,
        "too many tokens"@,
        "exceed"@,
        "input length"@,
        "prompt is too"@,
        "longer than"@,
        "maximum context"@,
        "token limit"@,
    ]
}

/// One of the words occurs in a text.
pub open spec fn mentions_overflow(lowered: Seq<char>) -> bool {
    exists|k: int| 0 <= k < overflow_words().len() && occurs(lowered, #[trigger] overflow_words()[k])
}

/// Whether an error text in lower case says that the prompt was too long.
pub fn mentions_context_overflow(lowered: &str) -> (r: bool)
    ensures
        r == mentions_overflow(lowered@),
{
    let words: [&str; 9] = [
        "context",
        "too long",
        "too many tokens",
        "exceed",
        "input length",
        "prompt is too",
        "longer than",
        "maximum context",
        "token limit",
    ];
    let mut i: usize = 0;
    while i < 9
        invariant
            i <= 9,
            words@.len() == 9,
            forall|k: int| 0 <= k < 9 ==> (#[trigger] words@[k])@ == overflow_words()[k],
            forall|k: int| 0 <= k < i ==> !occurs(lowered@, #[trigger] overflow_words()[k]),
        decreases 9 - i,
    {
        if contains(lowered, words[i]) {
            assert(words@[i as int]@ == overflow_words()[i as int]);
            return true;
        }
        assert(words@[i as int]@ == overflow_words()[i as int]);
        i = i + 1;
    }
    false
}

/// Whether a model's error says that the prompt was too long.
pub fn is_context_overflow(err: &str) -> (r: bool)
    ensures
        r == mentions_overflow(lower_case(err@)),
{
    let lowered = to_lower(err);
    mentions_context_overflow(lowered.as_str())
}

// ── the system prompt ───────────────────────────────────────────────

/// What the model is told of the messages that were cut off.
pub open spec fn summary_section(summary: Seq<char>) -> Seq<char> {
    "\n\n# 记忆摘要\n\n以下是你早期对话的摘要(原始消息已被压缩裁剪):\n"@ + summary + "\n"@
}

/// What the model of a restarted session is told of its past.
pub open spec fn memory_section(generation: u32, identity: u64) -> Seq<char> {
    "\n\n# 记忆指针\n\n你正在继续一段历史对话(第 "@ + decimal(generation as nat) + " 代,identity="@
        + decimal(identity as nat)
        + ")。以上是之前的完整消息,视为你的记忆。回答时引用它,不要重新询问已经问过/答过的事,不要假装失忆。"@
}

/// What the model is told of the work left open.
pub open spec fn todo_section(todo: Seq<char>) -> Seq<char> {
    "\n\n# 待办/下一步\n\n以下是你(上一代实例)未完成的工作,继续做:\n"@ + todo + "\n"@
}

/// The text, or nothing.
pub open spec fn text_or_empty(s: Option<Seq<char>>) -> Seq<char> {
    match s {
        Some(x) => x,
        None => Seq::empty(),
    }
}

/// What the session adds to the system prompt: the summary, the pointer to the
/// past of a restarted session, and the work left open, each where there is
/// one.
pub open spec fn system_extra(s: SessionView) -> Seq<char> {
    (match s.summary {
        Some(x) => summary_section(x),
        None => Seq::empty(),
    }) + (if s.id.spec_generation() > 1 {
        memory_section(s.id.spec_generation(), s.id.spec_identity())
    } else {
        Seq::empty()
    }) + (match s.todo {
        Some(x) => todo_section(x),
        None => Seq::empty(),
    })
}

/// The session has something to add to the system prompt.
pub open spec fn has_extra(s: SessionView) -> bool {
    s.summary is Some || s.id.spec_generation() > 1 || s.todo is Some
}

/// The system prompt of a step. Without anything to add it is the persona as
/// it is, and there is none where the agent has no persona.
pub open spec fn system_text(persona: Option<Seq<char>>, s: SessionView) -> Option<Seq<char>> {
    if has_extra(s) {
        Some(text_or_empty(persona) + system_extra(s))
    } else {
        persona
    }
}

fn summary_note(summary: Option<&str>) -> (r: String)
    ensures
        r@ == match summary {
            Some(x) => summary_section(x@),
            None => Seq::empty(),
        },
{
    let mut out = String::new();
    if let Some(x) = summary {
        out.push_str("\n\n# 记忆摘要\n\n以下是你早期对话的摘要(原始消息已被压缩裁剪):\n");
        out.push_str(x);
        out.push_str("\n");
        assert(out@ =~= summary_section(x@));
    }
    out
}

fn memory_note(generation: u32, identity: u64) -> (r: String)
    ensures
        r@ == if generation > 1 {
            memory_section(generation, identity)
        } else {
            Seq::empty()
        },
{
    let mut out = String::new();
    if generation > 1 {
        out.push_str("\n\n# 记忆指针\n\n你正在继续一段历史对话(第 ");
        out.push_str(number(generation as u64).as_str());
        out.push_str(" 代,identity=");
        out.push_str(number(identity).as_str());
        out.push_str(
            ")。以上是之前的完整消息,视为你的记忆。回答时引用它,不要重新询问已经问过/答过的事,不要假装失忆。",
        );
        assert(out@ =~= memory_section(generation, identity));
    }
    out
}

fn todo_note(todo: Option<&str>) -> (r: String)
    ensures
        r@ == match todo {
            Some(x) => todo_section(x@),
            None => Seq::empty(),
        },
{
    let mut out = String::new();
    if let Some(x) = todo {
        out.push_str("\n\n# 待办/下一步\n\n以下是你(上一代实例)未完成的工作,继续做:\n");
        out.push_str(x);
        out.push_str("\n");
        assert(out@ =~= todo_section(x@));
    }
    out
}

/// The system prompt of a step.
pub fn system_prompt(persona: &Option<String>, session: &Session) -> (r: Option<String>)
    ensures
        text_opt(r) == system_text(text_opt(*persona), session@),
{
    let id = session.id();
    if session.summary().is_none() && id.generation() <= 1 && session.todo().is_none() {
        return copy_text(persona);
    }
    let mut out = match persona {
        Some(p) => p.clone(),
        None => String::new(),
    };
    let ghost base = out@;
    let summary = summary_note(session.summary());
    let memory = memory_note(id.generation(), id.identity());
    let todo = todo_note(session.todo());
    out.push_str(summary.as_str());
    out.push_str(memory.as_str());
    out.push_str(todo.as_str());
    assert(out@ =~= base + (summary@ + memory@ + todo@));
    Some(out)
}

// ── the turn ────────────────────────────────────────────────────────

/// Where the pipeline of the current tool call stands.
#[derive(Debug, Clone, Copy, PartialEq, Eq, Structural)]
pub enum Stage {
    /// The guard is asked whether the call may run.
    Guard,
    /// The tool runs.
    Running,
    /// The output is put up for a decision.
    Deciding,
}

/// Where the turn stands.
#[derive(Debug)]
enum Turn {
    Idle,
    /// The model is asked.
    Asking { before: usize, step: usize, system: Option<String>, retries: u32 },
    /// The model answers.
    Streaming { before: usize, step: usize, text: String, calls: Vec<ToolCall> },
    /// The calls of the answer are run, one after another.
    Acting { before: usize, step: usize, calls: Vec<ToolCall>, next: usize, stage: Stage },
}

#[verifier::ext_equal]
pub enum TurnView {
    Idle,
    Asking { before: nat, step: nat, system: Option<Seq<char>>, retries: nat },
    Streaming { before: nat, step: nat, text: Seq<char>, calls: Seq<CallView> },
    Acting { before: nat, step: nat, calls: Seq<CallView>, next: nat, stage: Stage },
}

impl View for Turn {
    type V = TurnView;

    closed spec fn view(&self) -> TurnView {
        match *self {
            Turn::Idle => TurnView::Idle,
            Turn::Asking { before, step, system, retries } => TurnView::Asking {
                before: before as nat,
                step: step as nat,
                system: text_opt(system),
                retries: retries as nat,
            },
            Turn::Streaming { before, step, text, calls } => TurnView::Streaming {
                before: before as nat,
                step: step as nat,
                text: text@,
                calls: call_views(calls@),
            },
            Turn::Acting { before, step, calls, next, stage } => TurnView::Acting {
                before: before as nat,
                step: step as nat,
                calls: call_views(calls@),
                next: next as nat,
                stage,
            },
        }
    }
}

/// The driver of one agent.
#[derive(Debug)]
pub struct AgentDriver {
    session: Session,
    status: StatusCell,
    max_steps: usize,
    system_prompt: Option<String>,
    turn: Turn,
}

#[verifier::ext_equal]
pub struct DriverView {
    pub session: SessionView,
    pub status: AgentStatus,
    pub max_steps: nat,
    pub system_prompt: Option<Seq<char>>,
    pub turn: TurnView,
}

impl View for AgentDriver {
    type V = DriverView;

    closed spec fn view(&self) -> DriverView {
        DriverView {
            session: self.session@,
            status: self.status.status(),
            max_steps: self.max_steps as nat,
            system_prompt: text_opt(self.system_prompt),
            turn: self.turn@,
        }
    }
}

/// What the model's stream brought.
#[derive(Debug)]
pub enum Chunk {
    /// The turn was cancelled while the stream was read.
    Cancelled,
    /// The stream is at its end.
    End,
    TextDelta(String),
    ReasoningDelta(String),
    ToolCall(ToolCall),
    /// The tokens of the whole exchange, in and out, as far as they are known.
    Usage { input: Option<u64>, output: Option<u64> },
    /// The stream reported an error, or broke off with one.
    Error(String),
    /// Anything else.
    Other,
}

/// What happened outside.
#[derive(Debug)]
pub enum Signal {
    /// The step was refused before it reached the model.
    Refused(String),
    /// The model could not be asked.
    ModelFailed(String),
    /// The model began to answer.
    Connected,
    /// The stream brought something.
    Chunk(Chunk),
    /// The guard has spoken: a reason to refuse the call, or none. `cancelled`
    /// says whether the turn was cancelled by then.
    Guard { refusal: Option<String>, cancelled: bool },
    /// The tool was run.
    Executed(ToolOutput),
    /// The decision on the output: the output to keep, or an error.
    Decided { result: Result<ToolOutput, String>, cancelled: bool },
}

/// What the host is to do next.
#[derive(Debug)]
pub enum Next {
    /// Ask the model, with this system prompt and these messages.
    AskModel { step: usize, system: Option<String>, messages: Vec<ModelMessage> },
    /// Read on in the stream.
    ReadStream,
    /// Ask the guard whether the call may run.
    AskGuard(ToolCall),
    /// Run the tool.
    RunTool(ToolCall),
    /// Put the output up for a decision.
    AskDecision { call: ToolCall, output: ToolOutput },
    /// The turn is over.
    End(Result<String, AgentError>),
}

#[verifier::ext_equal]
pub enum NextView {
    AskModel { step: nat, system: Option<Seq<char>>, messages: Seq<MessageView> },
    ReadStream,
    AskGuard(CallView),
    RunTool(CallView),
    AskDecision { call: CallView, output: OutputView },
    End(Result<Seq<char>, ErrorView>),
}

impl View for Next {
    type V = NextView;

    open spec fn view(&self) -> NextView {
        match *self {
            Next::AskModel { step, system, messages } => NextView::AskModel {
                step: step as nat,
                system: text_opt(system),
                messages: message_views(messages@),
            },
            Next::ReadStream => NextView::ReadStream,
            Next::AskGuard(call) => NextView::AskGuard(call@),
            Next::RunTool(call) => NextView::RunTool(call@),
            Next::AskDecision { call, output } => NextView::AskDecision {
                call: call@,
                output: output@,
            },
            Next::End(r) => NextView::End(result_view(r)),
        }
    }
}

/// The name of the hook that what is to be done is shown to, where there is one:
/// a hook may change it or refuse it.
pub open spec fn hook_name(n: NextView) -> Option<Seq<char>> {
    match n {
        NextView::AskModel { .. } => Some("agent/pre-step"@),
        NextView::AskGuard(_) => Some("tools/pre-execute"@),
        NextView::AskDecision { .. } => Some("tools/post-execute"@),
        _ => None,
    }
}

impl Next {
    /// The name of the hook that it is shown to, where there is one.
    pub fn hook(&self) -> (r: Option<&'static str>)
        ensures
            match r {
                Some(s) => hook_name(self@) == Some(s@),
                None => hook_name(self@) is None,
            },
    {
        match self {
            Next::AskModel { .. } => Some("agent/pre-step"),
            Next::AskGuard(_) => Some("tools/pre-execute"),
            Next::AskDecision { .. } => Some("tools/post-execute"),
            _ => None,
        }
    }
}

/// The end of a turn as a mathematical value.
pub open spec fn result_view(r: Result<String, AgentError>) -> Result<Seq<char>, ErrorView> {
    match r {
        Ok(s) => Ok(s@),
        Err(e) => Err(e@),
    }
}

/// What the driver answers: what to tell observers, in order; whether the
/// session is to be written; what to do next.
#[derive(Debug)]
pub struct Directive {
    pub events: Vec<AgentEvent>,
    pub persist: bool,
    pub next: Next,
}

#[verifier::ext_equal]
pub struct DirectiveView {
    pub events: Seq<EventView>,
    pub persist: bool,
    pub next: NextView,
}

impl View for Directive {
    type V = DirectiveView;

    open spec fn view(&self) -> DirectiveView {
        DirectiveView {
            events: event_views(self.events@),
            persist: self.persist,
            next: self.next@,
        }
    }
}

// ── the rules of the turn ───────────────────────────────────────────

/// The turn ends with `result`. A failed turn takes back every message it
/// added: the messages that were there before it, as far as no cut took them,
/// are all that is left. Either way the session is written and the agent is
/// idle again.
pub open spec fn ended(
    d: DriverView,
    before: nat,
    events: Seq<EventView>,
    result: Result<Seq<char>, ErrorView>,
) -> (DriverView, DirectiveView) {
    let session = match result {
        Ok(_) => d.session,
        Err(_) => SessionView {
            messages: first_messages(d.session.messages, before as int),
            ..d.session
        },
    };
    let end = EventView::TurnEnd {
        session: d.session.id,
        ok: result is Ok,
        error: match result {
            Ok(_) => Seq::empty(),
            Err(e) => error_text(e),
        },
    };
    (
        DriverView { session, status: AgentStatus::Idle, turn: TurnView::Idle, ..d },
        DirectiveView { events: events.push(end), persist: true, next: NextView::End(result) },
    )
}

/// The next step of the turn begins, unless it was cancelled or has taken all
/// its steps.
pub open spec fn step_begins(
    d: DriverView,
    before: nat,
    step: nat,
    events: Seq<EventView>,
    cancelled: bool,
) -> (DriverView, DirectiveView) {
    if cancelled {
        ended(d, before, events, Err(ErrorView::Stopped))
    } else if step >= d.max_steps {
        ended(d, before, events, Err(ErrorView::MaxSteps(d.max_steps)))
    } else {
        asked(
            d,
            before,
            step + 1,
            system_text(d.system_prompt, d.session),
            0,
            events,
            false,
        )
    }
}

/// The model is asked with the repaired history.
pub open spec fn asked(
    d: DriverView,
    before: nat,
    step: nat,
    system: Option<Seq<char>>,
    retries: nat,
    events: Seq<EventView>,
    persist: bool,
) -> (DriverView, DirectiveView) {
    (
        DriverView { turn: TurnView::Asking { before, step, system, retries }, ..d },
        DirectiveView {
            events,
            persist,
            next: NextView::AskModel { step, system, messages: sanitized(d.session.messages) },
        },
    )
}

/// A turn begins with a message of the user.
pub open spec fn begun(d: DriverView, input: Seq<char>, cancelled: bool) -> (
    DriverView,
    DirectiveView,
) {
    let before = d.session.messages.len();
    let with_input = DriverView {
        session: SessionView {
            messages: d.session.messages.push(plain(Role::User, input)),
            ..d.session
        },
        status: AgentStatus::Running,
        ..d
    };
    step_begins(with_input, before, 0, Seq::empty(), cancelled)
}

/// What stands in for the messages that a prompt too long makes the driver cut
/// off: the summary there is, or a note that they are gone.
pub open spec fn fallback_summary(s: SessionView) -> Seq<char> {
    match s.summary {
        Some(x) => x,
        None => "（早期对话因超出模型上下文窗口被自动裁剪,细节不可恢复）"@,
    }
}

/// How many messages are kept when the prompt was too long: fewer the second
/// time.
pub open spec fn overflow_keep(retries: nat) -> int {
    if retries == 0 {
        40
    } else {
        8
    }
}

/// How many of the `before` messages at the front are left when the last `keep`
/// of `len` messages stay.
pub open spec fn left_of(before: nat, len: nat, keep: int) -> nat {
    if len <= keep {
        before
    } else if before <= len - keep {
        0
    } else {
        (before - (len - keep)) as nat
    }
}

/// The turn after the last `keep` of `len` messages were kept: it goes back to
/// what is left of the messages from before it when it fails.
pub open spec fn turn_after_cut(turn: TurnView, len: nat, keep: int) -> TurnView {
    match turn {
        TurnView::Idle => TurnView::Idle,
        TurnView::Asking { before, step, system, retries } => TurnView::Asking {
            before: left_of(before, len, keep),
            step,
            system,
            retries,
        },
        TurnView::Streaming { before, step, text, calls } => TurnView::Streaming {
            before: left_of(before, len, keep),
            step,
            text,
            calls,
        },
        TurnView::Acting { before, step, calls, next, stage } => TurnView::Acting {
            before: left_of(before, len, keep),
            step,
            calls,
            next,
            stage,
        },
    }
}

/// The driver after its history was cut to the last `keep` messages, with
/// `summary` in place of the others.
pub open spec fn cut(d: DriverView, summary: Seq<char>, keep: int) -> DriverView {
    DriverView {
        session: compacted(d.session, summary, keep),
        turn: turn_after_cut(d.turn, d.session.messages.len(), keep),
        ..d
    }
}

/// The driver after the work left open was noted; an empty text clears the note.
pub open spec fn todo_noted(d: DriverView, todo: Seq<char>) -> DriverView {
    DriverView {
        session: SessionView {
            todo: if todo.len() == 0 {
                None
            } else {
                Some(todo)
            },
            ..d.session
        },
        ..d
    }
}

/// The error is met by cutting the history and asking again.
pub open spec fn is_retried(retries: nat, error: Seq<char>) -> bool {
    retries < 2 && mentions_overflow(lower_case(error))
}

/// The call at `next` goes to the guard.
pub open spec fn call_begins(
    d: DriverView,
    before: nat,
    step: nat,
    calls: Seq<CallView>,
    next: nat,
    events: Seq<EventView>,
) -> (DriverView, DirectiveView) {
    let call = calls[next as int];
    (
        DriverView {
            turn: TurnView::Acting { before, step, calls, next, stage: Stage::Guard },
            ..d
        },
        DirectiveView {
            events: events.push(
                EventView::ToolCall { session: d.session.id, name: call.name, args: call.input },
            ),
            persist: false,
            next: NextView::AskGuard(call),
        },
    )
}

/// The output of the call at `next` is kept; the next call begins, or the next
/// step.
pub open spec fn call_kept(
    d: DriverView,
    before: nat,
    step: nat,
    calls: Seq<CallView>,
    next: nat,
    out: OutputView,
    events: Seq<EventView>,
    cancelled: bool,
) -> (DriverView, DirectiveView) {
    let kept = DriverView {
        session: SessionView {
            messages: d.session.messages.push(result_message(calls[next as int], out)),
            ..d.session
        },
        ..d
    };
    if next + 1 < calls.len() {
        call_begins(kept, before, step, calls, next + 1, events)
    } else {
        step_begins(kept, before, step, events, cancelled)
    }
}

/// The answer is complete: it is kept, and ends the turn unless it asks for
/// tools.
pub open spec fn answered_in_full(
    d: DriverView,
    before: nat,
    step: nat,
    text: Seq<char>,
    calls: Seq<CallView>,
) -> (DriverView, DirectiveView) {
    let kept = DriverView {
        session: SessionView {
            messages: d.session.messages.push(answer(text, calls)),
            ..d.session
        },
        ..d
    };
    let events = seq![
        EventView::Step {
            session: d.session.id,
            step,
            content: if text.len() == 0 {
                None
            } else {
                Some(text)
            },
            tool_calls: calls.len(),
        },
    ];
    if calls.len() == 0 {
        ended(kept, before, events, Ok(text))
    } else {
        call_begins(kept, before, step, calls, 0, events)
    }
}

/// The driver reads on, and tells `events`.
pub open spec fn reads_on(d: DriverView, events: Seq<EventView>) -> (DriverView, DirectiveView) {
    (d, DirectiveView { events, persist: false, next: NextView::ReadStream })
}

/// The number, or zero.
pub open spec fn or_zero(n: Option<u64>) -> u64 {
    match n {
        Some(x) => x,
        None => 0,
    }
}

/// The stream of an answer brings `chunk`.
pub open spec fn streamed(
    d: DriverView,
    before: nat,
    step: nat,
    text: Seq<char>,
    calls: Seq<CallView>,
    chunk: Chunk,
) -> (DriverView, DirectiveView) {
    match chunk {
        Chunk::Cancelled => ended(d, before, Seq::empty(), Err(ErrorView::Stopped)),
        Chunk::Error(e) => ended(d, before, Seq::empty(), Err(ErrorView::Llm(e@))),
        Chunk::End => answered_in_full(d, before, step, text, calls),
        Chunk::TextDelta(delta) => reads_on(
            DriverView {
                turn: TurnView::Streaming { before, step, text: text + delta@, calls },
                ..d
            },
            seq![EventView::TextDelta { session: d.session.id, step, delta: delta@ }],
        ),
        Chunk::ReasoningDelta(delta) => reads_on(
            d,
            seq![EventView::Reasoning { session: d.session.id, step, delta: delta@ }],
        ),
        Chunk::ToolCall(call) => reads_on(
            DriverView {
                turn: TurnView::Streaming { before, step, text, calls: calls.push(call@) },
                ..d
            },
            Seq::empty(),
        ),
        Chunk::Usage { input, output } => reads_on(
            DriverView {
                session: SessionView {
                    tokens_used: sum_up_to_max(
                        d.session.tokens_used,
                        sum_up_to_max(or_zero(input), or_zero(output)),
                    ),
                    ..d.session
                },
                ..d
            },
            Seq::empty(),
        ),
        Chunk::Other => reads_on(d, Seq::empty()),
    }
}

/// The signal can come where the turn stands.
pub open spec fn fits(turn: TurnView, signal: Signal) -> bool {
    match signal {
        Signal::Refused(_) | Signal::ModelFailed(_) | Signal::Connected => turn is Asking,
        Signal::Chunk(_) => turn is Streaming,
        Signal::Guard { .. } => turn is Acting && turn->stage == Stage::Guard,
        Signal::Executed(_) => turn is Acting && turn->stage == Stage::Running,
        Signal::Decided { .. } => turn is Acting && turn->stage == Stage::Deciding,
    }
}

/// What becomes of the driver, and what it answers, when `signal` comes.
pub open spec fn advanced(d: DriverView, signal: Signal) -> (DriverView, DirectiveView) {
    match (d.turn, signal) {
        (TurnView::Asking { before, .. }, Signal::Refused(reason)) => ended(
            d,
            before,
            Seq::empty(),
            Err(ErrorView::Pipeline(reason@)),
        ),
        (TurnView::Asking { before, step, system, retries }, Signal::ModelFailed(error)) => {
            if is_retried(retries, error@) {
                asked(
                    cut(d, fallback_summary(d.session), overflow_keep(retries)),
                    left_of(before, d.session.messages.len(), overflow_keep(retries)),
                    step,
                    system,
                    retries + 1,
                    Seq::empty(),
                    true,
                )
            } else {
                ended(d, before, Seq::empty(), Err(ErrorView::Llm(error@)))
            }
        },
        (TurnView::Asking { before, step, .. }, Signal::Connected) => reads_on(
            DriverView {
                turn: TurnView::Streaming {
                    before,
                    step,
                    text: Seq::empty(),
                    calls: Seq::empty(),
                },
                ..d
            },
            Seq::empty(),
        ),
        (TurnView::Streaming { before, step, text, calls }, Signal::Chunk(chunk)) => streamed(
            d,
            before,
            step,
            text,
            calls,
            chunk,
        ),
        (
            TurnView::Acting { before, step, calls, next, .. },
            Signal::Guard { refusal, cancelled },
        ) => match refusal {
            Some(reason) => call_kept(
                d,
                before,
                step,
                calls,
                next,
                failed("error: tool execution rejected: "@ + reason@),
                Seq::empty(),
                cancelled,
            ),
            None => (
                DriverView {
                    turn: TurnView::Acting { before, step, calls, next, stage: Stage::Running },
                    ..d
                },
                DirectiveView {
                    events: Seq::empty(),
                    persist: false,
                    next: NextView::RunTool(calls[next as int]),
                },
            ),
        },
        (TurnView::Acting { before, step, calls, next, .. }, Signal::Executed(out)) => (
            DriverView {
                turn: TurnView::Acting { before, step, calls, next, stage: Stage::Deciding },
                ..d
            },
            DirectiveView {
                events: Seq::empty(),
                persist: false,
                next: NextView::AskDecision { call: calls[next as int], output: out@ },
            },
        ),
        (
            TurnView::Acting { before, step, calls, next, .. },
            Signal::Decided { result, cancelled },
        ) => {
            let out = match result {
                Ok(o) => o@,
                Err(e) => failed("error: "@ + e@),
            };
            call_kept(
                d,
                before,
                step,
                calls,
                next,
                out,
                seq![
                    EventView::ToolResult {
                        session: d.session.id,
                        name: calls[next as int].name,
                        ok: out.ok,
                        output: out.output,
                    },
                ],
                cancelled,
            )
        },
        _ => (d, DirectiveView { events: Seq::empty(), persist: false, next: NextView::ReadStream }),
    }
}

/// What holds of every driver: a call that is run is one of the calls of the
/// answer, and no step is beyond the last.
pub open spec fn sound(d: DriverView) -> bool {
    match d.turn {
        TurnView::Idle => d.status == AgentStatus::Idle,
        TurnView::Asking { step, retries, .. } => {
            d.status == AgentStatus::Running && 1 <= step <= d.max_steps && retries <= 2
        },
        TurnView::Streaming { step, .. } => {
            d.status == AgentStatus::Running && 1 <= step <= d.max_steps
        },
        TurnView::Acting { step, calls, next, .. } => {
            d.status == AgentStatus::Running && 1 <= step <= d.max_steps && next < calls.len()
        },
    }
}

/// How many messages are kept when the prompt was too long.
fn kept_on_retry(retries: u32) -> (r: usize)
    ensures
        r == overflow_keep(retries as nat),
{
    if retries == 0 {
        40
    } else {
        8
    }
}

/// What is noted where the model is asked again with a cut history: which time
/// it is, and how many messages there were and are.
pub open spec fn retry_notes(retries: nat, before: nat, after: nat) -> Seq<Seq<char>> {
    seq![
        "[driver] context overflow, auto-compact & retry ("@ + decimal(retries + 1) + "/2)"@,
        "[driver] auto-compact: messages "@ + decimal(before) + " -> "@ + decimal(after)
            + " (kept last "@ + decimal(overflow_keep(retries) as nat) + ")"@,
    ]
}

/// What is noted where the model is asked again with a cut history, after
/// `retries` times before.
pub fn notes_on_retry(retries: u32, before: usize, after: usize) -> (r: Vec<String>)
    requires
        retries < u32::MAX,
    ensures
        texts(r@) == retry_notes(retries as nat, before as nat, after as nat),
{
    let mut first = "[driver] context overflow, auto-compact & retry (".to_owned();
    first.push_str(number(retries as u64 + 1).as_str());
    first.push_str("/2)");
    let mut second = "[driver] auto-compact: messages ".to_owned();
    second.push_str(number(before as u64).as_str());
    second.push_str(" -> ");
    second.push_str(number(after as u64).as_str());
    second.push_str(" (kept last ");
    second.push_str(number(kept_on_retry(retries) as u64).as_str());
    second.push_str(")");
    let mut out: Vec<String> = Vec::new();
    out.push(first);
    out.push(second);
    assert(texts(out@) =~= retry_notes(retries as nat, before as nat, after as nat));
    out
}

/// How many of the `before` messages at the front are left when the last `keep`
/// of `len` messages stay.
fn count_left(before: usize, len: usize, keep: usize) -> (r: usize)
    ensures
        r == left_of(before as nat, len as nat, keep as int),
{
    if len <= keep {
        before
    } else if before <= len - keep {
        0
    } else {
        before - (len - keep)
    }
}

/// The events of one.
fn one(e: AgentEvent) -> (r: Vec<AgentEvent>)
    ensures
        event_views(r@) == seq![e@],
{
    let mut v: Vec<AgentEvent> = Vec::new();
    v.push(e);
    assert(event_views(v@) =~= seq![e@]);
    v
}

/// No events.
fn none() -> (r: Vec<AgentEvent>)
    ensures
        event_views(r@) == Seq::<EventView>::empty(),
{
    let v: Vec<AgentEvent> = Vec::new();
    assert(event_views(v@) =~= Seq::empty());
    v
}

/// Adds an event at the end.
fn tell(events: &mut Vec<AgentEvent>, e: AgentEvent)
    ensures
        event_views(final(events)@) == event_views(old(events)@).push(e@),
{
    events.push(e);
    assert(event_views(events@) =~= event_views(old(events)@).push(e@));
}

impl AgentDriver {
    /// The driver keeps to the rules of the turn.
    pub closed spec fn wf(&self) -> bool {
        sound(self@)
    }

    /// A driver that is idle.
    pub fn new(session: Session, max_steps: usize, system_prompt: Option<String>) -> (r: Self)
        ensures
            r.wf(),
            r@ == (DriverView {
                session: session@,
                status: AgentStatus::Idle,
                max_steps: max_steps as nat,
                system_prompt: text_opt(system_prompt),
                turn: TurnView::Idle,
            }),
    {
        AgentDriver {
            session,
            status: StatusCell::idle(),
            max_steps,
            system_prompt,
            turn: Turn::Idle,
        }
    }

    /// Ends the turn.
    fn end(
        &mut self,
        before: usize,
        events: Vec<AgentEvent>,
        result: Result<String, AgentError>,
    ) -> (r: Directive)
        ensures
            (final(self)@, r@) == ended(
                old(self)@,
                before as nat,
                event_views(events@),
                result_view(result),
            ),
            final(self).wf(),
    {
        let mut events = events;
        let error = match &result {
            Ok(_) => String::new(),
            Err(e) => e.message(),
        };
        let ok = result.is_ok();
        if !ok {
            self.session.truncate_to(before);
        }
        self.status.set(AgentStatus::Idle);
        self.turn = Turn::Idle;
        tell(
            &mut events,
            AgentEvent::TurnEnd(AgentTurnEnd { session: self.session.id(), ok, error }),
        );
        Directive { events, persist: true, next: Next::End(result) }
    }

    /// Asks the model.
    fn ask(
        &mut self,
        before: usize,
        step: usize,
        system: Option<String>,
        retries: u32,
        events: Vec<AgentEvent>,
        persist: bool,
    ) -> (r: Directive)
        requires
            1 <= step <= old(self)@.max_steps,
            retries <= 2,
            old(self)@.status == AgentStatus::Running,
        ensures
            (final(self)@, r@) == asked(
                old(self)@,
                before as nat,
                step as nat,
                text_opt(system),
                retries as nat,
                event_views(events@),
                persist,
            ),
            final(self).wf(),
    {
        let messages = sanitize_history(self.session.messages());
        let copy = copy_text(&system);
        self.turn = Turn::Asking { before, step, system, retries };
        Directive { events, persist, next: Next::AskModel { step, system: copy, messages } }
    }

    /// Begins the next step.
    fn begin_step(
        &mut self,
        before: usize,
        step: usize,
        events: Vec<AgentEvent>,
        cancelled: bool,
    ) -> (r: Directive)
        requires
            old(self)@.status == AgentStatus::Running,
        ensures
            (final(self)@, r@) == step_begins(
                old(self)@,
                before as nat,
                step as nat,
                event_views(events@),
                cancelled,
            ),
            final(self).wf(),
    {
        if cancelled {
            return self.end(before, events, Err(AgentError::Stopped));
        }
        if step >= self.max_steps {
            let max: usize = self.max_steps;
            return self.end(before, events, Err(AgentError::MaxSteps(max)));
        }
        let system = system_prompt(&self.system_prompt, &self.session);
        self.ask(before, step + 1, system, 0, events, false)
    }

    /// Takes a message of the user and begins a turn. `cancelled` says whether
    /// the turn was cancelled before it began.
    pub fn followup(&mut self, input: &str, cancelled: bool) -> (r: Directive)
        requires
            old(self).wf(),
            old(self)@.turn is Idle,
        ensures
            (final(self)@, r@) == begun(old(self)@, input@, cancelled),
            final(self).wf(),
    {
        let before: usize = self.session.messages().len();
        assert(before == old(self)@.session.messages.len());
        self.session.push(ModelMessage::user(input.to_owned()));
        self.status.set(AgentStatus::Running);
        let events = none();
        self.begin_step(before, 0, events, cancelled)
    }

    /// Sends the call at `next` to the guard.
    fn begin_call(
        &mut self,
        before: usize,
        step: usize,
        calls: Vec<ToolCall>,
        next: usize,
        events: Vec<AgentEvent>,
    ) -> (r: Directive)
        requires
            next < calls@.len(),
            1 <= step <= old(self)@.max_steps,
            old(self)@.status == AgentStatus::Running,
        ensures
            (final(self)@, r@) == call_begins(
                old(self)@,
                before as nat,
                step as nat,
                call_views(calls@),
                next as nat,
                event_views(events@),
            ),
            final(self).wf(),
    {
        let mut events = events;
        let call = calls[next].clone();
        tell(
            &mut events,
            AgentEvent::ToolCall(
                AgentToolCall {
                    session: self.session.id(),
                    name: call.tool_name.clone(),
                    args: call.input.clone(),
                },
            ),
        );
        self.turn = Turn::Acting { before, step, calls, next, stage: Stage::Guard };
        Directive { events, persist: false, next: Next::AskGuard(call) }
    }

    /// Keeps the output of the call at `next`.
    fn keep_call(
        &mut self,
        before: usize,
        step: usize,
        calls: Vec<ToolCall>,
        next: usize,
        out: &ToolOutput,
        events: Vec<AgentEvent>,
        cancelled: bool,
    ) -> (r: Directive)
        requires
            next < calls@.len(),
            1 <= step <= old(self)@.max_steps,
            old(self)@.status == AgentStatus::Running,
        ensures
            (final(self)@, r@) == call_kept(
                old(self)@,
                before as nat,
                step as nat,
                call_views(calls@),
                next as nat,
                out@,
                event_views(events@),
                cancelled,
            ),
            final(self).wf(),
    {
        self.session.push(tool_result_message(&calls[next], out));
        if next < calls.len() - 1 {
            self.begin_call(before, step, calls, next + 1, events)
        } else {
            self.begin_step(before, step, events, cancelled)
        }
    }

    /// Takes what the stream brought.
    fn on_chunk(
        &mut self,
        before: usize,
        step: usize,
        text: String,
        calls: Vec<ToolCall>,
        chunk: Chunk,
    ) -> (r: Directive)
        requires
            1 <= step <= old(self)@.max_steps,
            old(self)@.status == AgentStatus::Running,
        ensures
            (final(self)@, r@) == streamed(
                DriverView {
                    turn: TurnView::Streaming {
                        before: before as nat,
                        step: step as nat,
                        text: text@,
                        calls: call_views(calls@),
                    },
                    ..old(self)@
                },
                before as nat,
                step as nat,
                text@,
                call_views(calls@),
                chunk,
            ),
            final(self).wf(),
    {
        let mut text = text;
        let mut calls = calls;
        let id = self.session.id();
        let mut events = none();
        match chunk {
            Chunk::Cancelled => {
                return self.end(before, events, Err(AgentError::Stopped));
            },
            Chunk::Error(e) => {
                return self.end(before, events, Err(AgentError::Llm(e)));
            },
            Chunk::End => {
                let n: usize = calls.len();
                self.session.push(assistant_message(text.as_str(), &calls));
                let content = if text.as_str().is_empty() {
                    None
                } else {
                    Some(text.clone())
                };
                let events = one(
                    AgentEvent::Step(AgentStepEvent { session: id, step, content, tool_calls: n }),
                );
                if n == 0 {
                    return self.end(before, events, Ok(text));
                }
                return self.begin_call(before, step, calls, 0, events);
            },
            Chunk::TextDelta(delta) => {
                text.push_str(delta.as_str());
                events = one(AgentEvent::TextDelta(AgentTextDelta { session: id, step, delta }));
            },
            Chunk::ReasoningDelta(delta) => {
                events = one(AgentEvent::Reasoning(AgentReasoning { session: id, step, delta }));
            },
            Chunk::ToolCall(call) => {
                let ghost earlier = calls@;
                calls.push(call);
                assert(call_views(calls@) =~= call_views(earlier).push(call@));
            },
            Chunk::Usage { input, output } => {
                let a: u64 = match input {
                    Some(x) => x,
                    None => 0,
                };
                let b: u64 = match output {
                    Some(x) => x,
                    None => 0,
                };
                self.session.add_tokens(a.saturating_add(b));
            },
            Chunk::Other => {},
        }
        self.turn = Turn::Streaming { before, step, text, calls };
        Directive { events, persist: false, next: Next::ReadStream }
    }

    /// Cuts the history after the model refused the prompt as too long.
    fn auto_compact(&mut self, keep: usize)
        ensures
            final(self)@ == (DriverView {
                session: compacted(
                    old(self)@.session,
                    fallback_summary(old(self)@.session),
                    keep as int,
                ),
                ..old(self)@
            }),
    {
        let summary = match self.session.summary() {
            Some(s) => s.to_owned(),
            None => "（早期对话因超出模型上下文窗口被自动裁剪,细节不可恢复）".to_owned(),
        };
        let _ = self.session.compact(summary, keep);
    }

    /// Takes what happened outside and goes on with the turn.
    pub fn advance(&mut self, signal: Signal) -> (r: Directive)
        requires
            old(self).wf(),
            fits(old(self)@.turn, signal),
        ensures
            (final(self)@, r@) == advanced(old(self)@, signal),
            final(self).wf(),
    {
        let mut turn = Turn::Idle;
        std::mem::swap(&mut self.turn, &mut turn);
        let ghost d = old(self)@;
        assert(turn@ == d.turn);
        match turn {
            Turn::Idle => {
                Directive { events: none(), persist: false, next: Next::ReadStream }
            },
            Turn::Asking { before, step, system, retries } => match signal {
                Signal::Refused(reason) => {
                    let events = none();
                    self.end(before, events, Err(AgentError::Pipeline(reason)))
                },
                Signal::ModelFailed(error) => {
                    let events = none();
                    if retries < 2 && is_context_overflow(error.as_str()) {
                        let keep: usize = kept_on_retry(retries);
                        let len: usize = self.session.messages().len();
                        assert(len == d.session.messages.len());
                        let left: usize = count_left(before, len, keep);
                        self.auto_compact(keep);
                        self.ask(left, step, system, retries + 1, events, true)
                    } else {
                        self.end(before, events, Err(AgentError::Llm(error)))
                    }
                },
                _ => {
                    let text = String::new();
                    let calls: Vec<ToolCall> = Vec::new();
                    assert(call_views(calls@) =~= Seq::empty());
                    self.turn = Turn::Streaming { before, step, text, calls };
                    Directive { events: none(), persist: false, next: Next::ReadStream }
                },
            },
            Turn::Streaming { before, step, text, calls } => match signal {
                Signal::Chunk(chunk) => self.on_chunk(before, step, text, calls, chunk),
                // No other signal fits.
                _ => {
                    assert(false);
                    Directive { events: none(), persist: false, next: Next::ReadStream }
                },
            },
            Turn::Acting { before, step, calls, next, stage } => match signal {
                Signal::Guard { refusal, cancelled } => match refusal {
                    Some(reason) => {
                        let mut s = "error: tool execution rejected: ".to_owned();
                        s.push_str(reason.as_str());
                        let out = ToolOutput::err(s);
                        let events = none();
                        self.keep_call(before, step, calls, next, &out, events, cancelled)
                    },
                    None => {
                        let call = calls[next].clone();
                        self.turn = Turn::Acting { before, step, calls, next, stage: Stage::Running };
                        Directive { events: none(), persist: false, next: Next::RunTool(call) }
                    },
                },
                Signal::Executed(output) => {
                    let call = calls[next].clone();
                    self.turn = Turn::Acting { before, step, calls, next, stage: Stage::Deciding };
                    Directive {
                        events: none(),
                        persist: false,
                        next: Next::AskDecision { call, output },
                    }
                },
                Signal::Decided { result, cancelled } => {
                    let out = match result {
                        Ok(o) => o,
                        Err(e) => {
                            let mut s = "error: ".to_owned();
                            s.push_str(e.as_str());
                            ToolOutput::err(s)
                        },
                    };
                    let events = one(
                        AgentEvent::ToolResult(
                            AgentToolResult {
                                session: self.session.id(),
                                name: calls[next].tool_name.clone(),
                                ok: out.ok,
                                output: out.output.clone(),
                            },
                        ),
                    );
                    self.keep_call(before, step, calls, next, &out, events, cancelled)
                },
                // No other signal fits.
                _ => {
                    assert(false);
                    Directive { events: none(), persist: false, next: Next::ReadStream }
                },
            },
        }
    }

    /// Who the session is.
    pub fn id(&self) -> (r: SessionId)
        ensures
            r == self@.session.id,
    {
        self.session.id()
    }

    /// Whether a turn is running.
    pub fn status(&self) -> (r: AgentStatus)
        ensures
            r == self@.status,
    {
        self.status.get()
    }

    /// A copy of the session as it is now.
    pub fn session(&self) -> (r: SessionSnapshot)
        ensures
            r@ == self@.session,
    {
        SessionSnapshot::new(&self.session)
    }

    /// What is to be written of the session.
    pub fn persist_session(&self, saved_at_ms: u64) -> (r: SessionFile)
        ensures
            r@ == written(self@.session, saved_at_ms),
    {
        self.session.persist(saved_at_ms)
    }

    /// Keeps a summary and the last `keep` messages. Says how many messages
    /// there were and are. A turn that is running goes back to what is left of
    /// the messages from before it, should it fail.
    pub fn compact(&mut self, summary: String, keep: usize) -> (r: (usize, usize))
        requires
            old(self).wf(),
        ensures
            final(self).wf(),
            final(self)@ == cut(old(self)@, summary@, keep as int),
            r.0 == old(self)@.session.messages.len(),
            r.1 == final(self)@.session.messages.len(),
    {
        let len: usize = self.session.messages().len();
        assert(len == old(self)@.session.messages.len());
        match &mut self.turn {
            Turn::Idle => {},
            Turn::Asking { before, .. } => {
                *before = count_left(*before, len, keep);
            },
            Turn::Streaming { before, .. } => {
                *before = count_left(*before, len, keep);
            },
            Turn::Acting { before, .. } => {
                *before = count_left(*before, len, keep);
            },
        }
        self.session.compact(summary, keep)
    }

    /// Notes the work left open; an empty text clears the note.
    pub fn set_todo(&mut self, todo: String)
        requires
            old(self).wf(),
        ensures
            final(self).wf(),
            final(self)@ == todo_noted(old(self)@, todo@),
    {
        self.session.set_todo(todo);
    }

    /// Replaces the persona, from the next step on.
    pub fn update_persona(&mut self, persona: String)
        requires
            old(self).wf(),
        ensures
            final(self).wf(),
            final(self)@ == (DriverView { system_prompt: Some(persona@), ..old(self)@ }),
    {
        self.system_prompt = Some(persona);
    }
}

// ── laws ────────────────────────────────────────────────────────────

/// The output of a call comes back to the model under the identifier and the name
/// of the call, marked as an error exactly where it failed. A short one is word
/// for word what the tool gave; a long one begins and ends as it does, and says
/// between them how many characters are missing.
#[verifier::rlimit(40)]
pub proof fn law_output_keeps_both_ends(call: CallView, out: OutputView)
    ensures
        ({
            let m = result_message(call, out);
            &&& m.role == Role::Tool
            &&& m.content is Parts && m.content->Parts_0.len() == 1
            &&& match m.content->Parts_0[0] {
                PartView::ToolResult { id, result: Json::Text(kept), name, is_error, .. } => {
                    let all = out.output;
                    &&& id == call.id
                    &&& name == Some(call.name)
                    &&& is_error == Some(!out.ok)
                    &&& all.len() <= 3080 ==> kept == all
                    &&& all.len() > 3080 ==> {
                        &&& kept.len() < all.len()
                        &&& kept.take(1500) == all.take(1500)
                        &&& kept.skip(kept.len() - 1500) == all.skip(all.len() - 1500)
                        &&& occurs(
                            kept,
                            "[trimmed "@ + decimal((all.len() - 3000) as nat) + " chars"@,
                        )
                    }
                },
                _ => false,
            }
        }),
{
    let all = out.output;
    let kept = kept_output(all);
    if all.len() > 3080 {
        reveal_strlit("\n…[trimmed ");
        reveal_strlit(" chars…]\n");
        reveal_strlit("[trimmed ");
        reveal_strlit(" chars");
        let n = (all.len() - 3000) as nat;
        let d = decimal(n);
        lemma_decimal_is_short(n);
        assert(kept.take(1500) =~= all.take(1500));
        assert(kept.skip(kept.len() - 1500) =~= all.skip(all.len() - 1500));
        let note = "[trimmed "@ + d + " chars"@;
        let front = head(all, 1500) + seq!['\n', '…'];
        let rest = seq!['…', ']', '\n'] + tail(all, 1500);
        assert(kept =~= front + note + rest);
        lemma_stands_in(front, note, rest);
    }
}

/// A number has no more digits than it counts, and one.
proof fn lemma_decimal_is_short(n: nat)
    ensures
        decimal(n).len() <= n / 10 + 1,
    decreases n,
{
    if n >= 10 {
        lemma_decimal_is_short(n / 10);
    }
}

/// An answer of the model is kept with all it said: its text, where there is any,
/// as one part in front, and behind it one part for each call, in order.
pub proof fn law_answer_is_kept_whole(text: Seq<char>, calls: Seq<CallView>)
    ensures
        ({
            let m = answer(text, calls);
            let first: int = if text.len() > 0 {
                1
            } else {
                0
            };
            &&& m.role == Role::Assistant
            &&& m.content matches ContentView::Parts(parts) && {
                &&& parts.len() == first + calls.len()
                &&& text.len() > 0 ==> parts[0] == (PartView::Text { text, options: None })
                &&& forall|i: int|
                    first <= i < parts.len() ==> (#[trigger] parts[i]) == (PartView::ToolCall {
                        id: calls[i - first].id,
                        name: calls[i - first].name,
                        input: calls[i - first].input,
                        options: None,
                    })
            }
        }),
{
}

#[verifier::rlimit(40)]
proof fn lemma_summary_told(x: Seq<char>, rest: Seq<char>)
    ensures
        stands_at(summary_section(x) + rest, "\n\n# 记忆摘要\n\n"@, 0),
        occurs(summary_section(x) + rest, "\n"@ + x + "\n"@),
{
    reveal_strlit("\n\n# 记忆摘要\n\n");
    reveal_strlit("\n\n# 记忆摘要\n\n以下是你早期对话的摘要(原始消息已被压缩裁剪):\n");
    reveal_strlit("\n");
    let top = "\n\n# 记忆摘要\n\n"@;
    let lead = "\n\n# 记忆摘要\n\n以下是你早期对话的摘要(原始消息已被压缩裁剪):\n"@;
    let all = summary_section(x) + rest;
    let own = "\n"@ + x + "\n"@;
    assert(all.subrange(0, top.len() as int) =~= top);
    assert(all =~= lead.drop_last() + own + rest);
    lemma_stands_in(lead.drop_last(), own, rest);
}

#[verifier::rlimit(40)]
proof fn lemma_memory_told(front: Seq<char>, generation: u32, identity: u64, rest: Seq<char>)
    ensures
        occurs(front + memory_section(generation, identity) + rest, "\n\n# 记忆指针\n\n"@),
        occurs(
            front + memory_section(generation, identity) + rest,
            "第 "@ + decimal(generation as nat) + " 代"@,
        ),
        occurs(
            front + memory_section(generation, identity) + rest,
            "identity="@ + decimal(identity as nat) + ")"@,
        ),
{
    reveal_strlit("\n\n# 记忆指针\n\n");
    reveal_strlit("\n\n# 记忆指针\n\n你正在继续一段历史对话(第 ");
    reveal_strlit("第 ");
    reveal_strlit(" 代");
    reveal_strlit(" 代,identity=");
    reveal_strlit("identity=");
    reveal_strlit(")");
    let top = "\n\n# 记忆指针\n\n"@;
    let lead = "\n\n# 记忆指针\n\n你正在继续一段历史对话(第 "@;
    let mid = " 代,identity="@;
    let end =
        ")。以上是之前的完整消息,视为你的记忆。回答时引用它,不要重新询问已经问过/答过的事,不要假装失忆。"@;
    let g = decimal(generation as nat);
    let who = decimal(identity as nat);
    let all = front + memory_section(generation, identity) + rest;
    assert(end.len() > 0 && end[0] == ')') by {
        reveal_strlit(
            ")。以上是之前的完整消息,视为你的记忆。回答时引用它,不要重新询问已经问过/答过的事,不要假装失忆。",
        );
    }
    let r0 = lead.skip(top.len() as int) + g + mid + who + end + rest;
    assert(lead.take(top.len() as int) =~= top);
    assert(all =~= front + top + r0);
    lemma_stands_in(front, top, r0);
    let which = "第 "@ + g + " 代"@;
    let f1 = front + lead.take(lead.len() - 2);
    let r1 = mid.skip(2) + who + end + rest;
    assert(lead.skip(lead.len() - 2) =~= "第 "@);
    assert(mid.take(2) =~= " 代"@);
    assert(all =~= f1 + which + r1);
    lemma_stands_in(f1, which, r1);
    let name = "identity="@ + who + ")"@;
    let f2 = front + lead + g + mid.take(3);
    let r2 = end.skip(1) + rest;
    assert(mid.skip(3) =~= "identity="@);
    assert(all =~= f2 + name + r2);
    lemma_stands_in(f2, name, r2);
}

#[verifier::rlimit(40)]
proof fn lemma_todo_told(front: Seq<char>, x: Seq<char>)
    ensures
        ({
            let all = front + todo_section(x);
            &&& occurs(all, "\n\n# 待办/下一步\n\n"@)
            &&& all.len() >= x.len() + 2
            &&& all.skip(all.len() - x.len() - 2) == "\n"@ + x + "\n"@
        }),
{
    reveal_strlit("\n\n# 待办/下一步\n\n");
    reveal_strlit("\n\n# 待办/下一步\n\n以下是你(上一代实例)未完成的工作,继续做:\n");
    reveal_strlit("\n");
    let top = "\n\n# 待办/下一步\n\n"@;
    let lead = "\n\n# 待办/下一步\n\n以下是你(上一代实例)未完成的工作,继续做:\n"@;
    let all = front + todo_section(x);
    let r0 = lead.skip(top.len() as int) + x + "\n"@;
    assert(lead.take(top.len() as int) =~= top);
    assert(all =~= front + top + r0);
    lemma_stands_in(front, top, r0);
    assert(all.skip(all.len() - x.len() - 2) =~= "\n"@ + x + "\n"@);
}

/// The system prompt of a step begins with the persona, word for word, whatever
/// the session has to add. What it adds is told: the summary, which time the
/// session is continued, and the work left open, each under a heading of its own
/// and in this order. Where there is nothing to add it is the persona alone.
#[verifier::rlimit(40)]
pub proof fn law_persona_comes_first(persona: Option<Seq<char>>, s: SessionView)
    ensures
        ({
            let prompt = system_text(persona, s);
            let restored = s.id.spec_generation() > 1;
            &&& persona is Some ==> prompt is Some
            &&& s.summary is Some || restored || s.todo is Some ==> prompt is Some
            &&& prompt matches Some(t) ==> {
                let p: Seq<char> = match persona {
                    Some(p) => p,
                    None => Seq::empty(),
                };
                let rest = t.skip(p.len() as int);
                &&& t.len() >= p.len()
                &&& t.take(p.len() as int) == p
                &&& s.summary matches Some(x) ==> stands_at(rest, "\n\n# 记忆摘要\n\n"@, 0)
                    && occurs(rest, "\n"@ + x + "\n"@)
                &&& restored ==> occurs(rest, "\n\n# 记忆指针\n\n"@) && occurs(
                    rest,
                    "第 "@ + decimal(s.id.spec_generation() as nat) + " 代"@,
                ) && occurs(rest, "identity="@ + decimal(s.id.spec_identity() as nat) + ")"@)
                &&& s.todo matches Some(x) ==> occurs(rest, "\n\n# 待办/下一步\n\n"@) && rest.len()
                    >= x.len() + 2 && rest.skip(rest.len() - x.len() - 2) == "\n"@ + x + "\n"@
                &&& s.summary is None && !restored && s.todo is None ==> rest.len() == 0
            }
            &&& persona is None && s.summary is None && !restored && s.todo is None ==> prompt is None
        }),
{
    let p = text_or_empty(persona);
    let a = match s.summary {
        Some(x) => summary_section(x),
        None => Seq::empty(),
    };
    let b = if s.id.spec_generation() > 1 {
        memory_section(s.id.spec_generation(), s.id.spec_identity())
    } else {
        Seq::empty()
    };
    let c = match s.todo {
        Some(x) => todo_section(x),
        None => Seq::empty(),
    };
    if has_extra(s) {
        let t = p + system_extra(s);
        let rest = t.skip(p.len() as int);
        assert(t.take(p.len() as int) =~= p);
        assert(rest =~= a + b + c);
        if let Some(x) = s.summary {
            lemma_summary_told(x, b + c);
            assert(rest =~= summary_section(x) + (b + c));
        }
        if s.id.spec_generation() > 1 {
            lemma_memory_told(a, s.id.spec_generation(), s.id.spec_identity(), c);
        }
        if let Some(x) = s.todo {
            lemma_todo_told(a + b, x);
        }
    } else {
        if let Some(p) = persona {
            assert(p.take(p.len() as int) =~= p);
        }
    }
}

/// Every signal leaves a sound driver sound: a turn never takes more than its
/// steps, and the model is asked at most twice more within one step.
pub proof fn law_rules_keep_sound(d: DriverView, signal: Signal)
    requires
        sound(d),
        fits(d.turn, signal),
    ensures
        sound(advanced(d, signal).0),
        advanced(d, signal).0.max_steps == d.max_steps,
        advanced(d, signal).1.next matches NextView::AskModel { step, .. } ==> 1 <= step
            <= d.max_steps,
{
}

/// Whatever happened before, the model is asked with a history that pairs
/// calls and results.
pub proof fn law_model_sees_legal_history(d: DriverView, signal: Signal, input: Seq<char>, cancelled: bool)
    ensures
        advanced(d, signal).1.next matches NextView::AskModel { messages, .. } ==> legal(messages),
        begun(d, input, cancelled).1.next matches NextView::AskModel { messages, .. } ==> legal(
            messages,
        ),
{
    let (after, directive) = advanced(d, signal);
    law_sanitized_is_legal(after.session.messages);
    law_sanitized_is_legal(begun(d, input, cancelled).0.session.messages);
}

/// The messages of `d` begin with the last `left` messages of `base`, and the
/// turn goes back to them when it fails.
pub open spec fn builds_on(d: DriverView, base: Seq<MessageView>, left: nat) -> bool {
    let before = match d.turn {
        TurnView::Idle => left,
        TurnView::Asking { before, .. } => before,
        TurnView::Streaming { before, .. } => before,
        TurnView::Acting { before, .. } => before,
    };
    &&& before == left
    &&& left <= base.len()
    &&& left <= d.session.messages.len()
    &&& d.session.messages.take(left as int) == base.skip(base.len() - left)
}

/// The signal makes the driver ask again with a cut history.
pub open spec fn asks_again(d: DriverView, signal: Signal) -> bool {
    match (d.turn, signal) {
        (TurnView::Asking { retries, .. }, Signal::ModelFailed(error)) => is_retried(
            retries,
            error@,
        ),
        _ => false,
    }
}

/// How many of the `left` messages from before the turn are left when the
/// signal comes.
pub open spec fn left_by_signal(d: DriverView, signal: Signal, left: nat) -> nat {
    match d.turn {
        TurnView::Asking { retries, .. } if asks_again(d, signal) => left_of(
            left,
            d.session.messages.len(),
            overflow_keep(retries),
        ),
        _ => left,
    }
}

proof fn lemma_push_builds_on(ms: Seq<MessageView>, m: MessageView, n: int)
    requires
        0 <= n <= ms.len(),
    ensures
        ms.push(m).take(n) == ms.take(n),
{
    assert(ms.push(m).take(n) =~= ms.take(n));
}

/// A cut leaves a turn with what it kept of the messages from before it.
pub proof fn law_cut_keeps_the_latest(
    d: DriverView,
    summary: Seq<char>,
    keep: int,
    base: Seq<MessageView>,
    left: nat,
)
    requires
        builds_on(d, base, left),
        keep >= 0,
    ensures
        builds_on(
            cut(d, summary, keep),
            base,
            left_of(left, d.session.messages.len(), keep),
        ),
{
    let ms = d.session.messages;
    let n = left_of(left, ms.len(), keep);
    if ms.len() > keep {
        let gone = ms.len() - keep;
        let kept = ms.skip(gone);
        assert(kept.take(n as int) =~= base.skip(base.len() - n)) by {
            assert forall|i: int| 0 <= i < n implies kept[i] == base[base.len() - n + i] by {
                assert(kept[i] == ms[gone + i]);
                assert(ms.take(left as int)[gone + i] == base.skip(base.len() - left)[gone + i]);
            }
        }
    }
}

/// A turn that fails takes back every message it added: from its beginning to
/// its failure the session keeps the messages there were before it, but for
/// those that a cut has taken, and on its failure it has no others.
pub proof fn law_failed_turn_leaves_no_trace(
    d: DriverView,
    signal: Signal,
    input: Seq<char>,
    cancelled: bool,
    base: Seq<MessageView>,
    left: nat,
)
    ensures
        d.session.messages == base ==> {
            let (after, directive) = begun(d, input, cancelled);
            &&& builds_on(after, base, base.len())
            &&& directive.next matches NextView::End(Err(_)) ==> after.session.messages == base
        },
        builds_on(d, base, left) && fits(d.turn, signal) ==> {
            let (after, directive) = advanced(d, signal);
            let rest = left_by_signal(d, signal, left);
            &&& builds_on(after, base, rest)
            &&& directive.next matches NextView::End(Err(_)) ==> after.session.messages
                == base.skip(base.len() - rest)
        },
{
    if d.session.messages == base {
        let m = plain(Role::User, input);
        lemma_push_builds_on(base, m, base.len() as int);
        assert(base.take(base.len() as int) =~= base);
        assert(base.skip(0) =~= base);
    }
    if builds_on(d, base, left) && fits(d.turn, signal) {
        let ms = d.session.messages;
        let n = left as int;
        let kept = base.skip(base.len() - left);
        if asks_again(d, signal) {
            let keep = overflow_keep(d.turn->retries);
            law_cut_keeps_the_latest(d, fallback_summary(d.session), keep, base, left);
        } else {
            assert forall|m: MessageView| #[trigger] ms.push(m).take(n) == ms.take(n) by {
                lemma_push_builds_on(ms, m, n);
            }
            assert(first_messages(ms, n) =~= kept);
            assert forall|m: MessageView| first_messages(#[trigger] ms.push(m), n) == kept by {
                assert(ms.push(m).take(n) == kept);
            }
            assert(kept.take(n) =~= kept);
        }
    }
}

/// The messages that keep the outputs of calls.
pub open spec fn result_messages(calls: Seq<CallView>, outs: Seq<OutputView>) -> Seq<MessageView> {
    Seq::new(calls.len(), |i: int| result_message(calls[i], outs[i]))
}

proof fn lemma_answer_calls(text: Seq<char>, calls: Seq<CallView>, id: Seq<char>)
    requires
        asks(answer(text, calls), id),
    ensures
        exists|i: int| 0 <= i < calls.len() && (#[trigger] calls[i]).id == id,
{
    let parts = parts_of(answer(text, calls));
    lemma_call_ids_found(parts, id);
    let k = choose|k: int| 0 <= k < parts.len() && #[trigger] call_id(parts[k]) == Some(id);
    if text.len() > 0 {
        assert(calls[k - 1].id == id);
    } else {
        assert(calls[k].id == id);
    }
}

proof fn lemma_answer_asks(text: Seq<char>, calls: Seq<CallView>, i: int)
    requires
        0 <= i < calls.len(),
    ensures
        asks(answer(text, calls), calls[i].id),
{
    let parts = parts_of(answer(text, calls));
    let k = if text.len() > 0 {
        i + 1
    } else {
        i
    };
    assert(call_id(parts[k]) == Some(calls[i].id));
    lemma_call_ids(parts, k);
}

proof fn lemma_result_brings(call: CallView, out: OutputView)
    ensures
        forall|id: Seq<char>| #[trigger] brings(result_message(call, out), id) <==> id == call.id,
{
    let parts = parts_of(result_message(call, out));
    assert(parts.drop_last() =~= Seq::empty());
    assert(result_ids(parts.drop_last()) =~= Seq::empty());
    assert(result_ids(parts) =~= seq![call.id]);
    assert(result_ids(parts)[0] == call.id);
}

/// A whole step of the loop keeps a legal history legal: the answer of the
/// model, where it holds anything, and the outputs of all its calls.
pub proof fn law_step_keeps_history_legal(
    ms: Seq<MessageView>,
    text: Seq<char>,
    calls: Seq<CallView>,
    outs: Seq<OutputView>,
)
    requires
        legal(ms),
        outs.len() == calls.len(),
        text.len() > 0 || calls.len() > 0,
    ensures
        legal(ms.push(answer(text, calls)) + result_messages(calls, outs)),
{
    let unit = seq![answer(text, calls)] + result_messages(calls, outs);
    assert forall|i: int| 0 <= i < unit.len() implies #[trigger] in_order(unit, i) by {
        if i == 0 {
            assert forall|id: Seq<char>| asks(unit[0], id) implies #[trigger] has_result(
                unit,
                0,
                id,
            ) by {
                lemma_answer_calls(text, calls, id);
                let k = choose|k: int| 0 <= k < calls.len() && (#[trigger] calls[k]).id == id;
                lemma_result_brings(calls[k], outs[k]);
                assert(unit[k + 1] == result_message(calls[k], outs[k]));
                assert(brings(unit[k + 1], id));
                assert(in_block(unit, 0, k + 1));
            }
        } else {
            let call = calls[i - 1];
            lemma_result_brings(call, outs[i - 1]);
            lemma_answer_asks(text, calls, i - 1);
            assert(brings(unit[i], call.id));
            assert(answers(unit[0], unit[i]));
            assert(serves(unit[0], unit[i]));
            assert(in_block(unit, 0, i));
        }
    }
    lemma_legal_concat(ms, unit);
    assert(ms.push(answer(text, calls)) + result_messages(calls, outs) =~= ms + unit);
}

// ── a whole turn ────────────────────────────────────────────────────

/// What can happen while a turn runs: a signal comes, or the session is
/// changed from outside, by a tool for one.
pub ghost enum Happening {
    Signal(Signal),
    Compact { summary: Seq<char>, keep: nat },
    Todo(Seq<char>),
    Persona(Seq<char>),
}

/// It can happen where the turn stands.
pub open spec fn can_happen(d: DriverView, h: Happening) -> bool {
    match h {
        Happening::Signal(signal) => fits(d.turn, signal),
        _ => !(d.turn is Idle),
    }
}

/// What becomes of the driver when it happens, and what the driver answered
/// last.
pub open spec fn happened(s: (DriverView, DirectiveView), h: Happening) -> (
    DriverView,
    DirectiveView,
) {
    match h {
        Happening::Signal(signal) => advanced(s.0, signal),
        Happening::Compact { summary, keep } => (cut(s.0, summary, keep as int), s.1),
        Happening::Todo(todo) => (todo_noted(s.0, todo), s.1),
        Happening::Persona(persona) => (
            DriverView { system_prompt: Some(persona), ..s.0 },
            s.1,
        ),
    }
}

/// A turn from its beginning: `states` is what becomes of the driver, and what
/// it answered last, by one happening after another.
pub open spec fn turn_runs(
    d: DriverView,
    input: Seq<char>,
    cancelled: bool,
    happenings: Seq<Happening>,
    states: Seq<(DriverView, DirectiveView)>,
) -> bool {
    &&& states.len() == happenings.len() + 1
    &&& states[0] == begun(d, input, cancelled)
    &&& forall|i: int|
        0 <= i < happenings.len() ==> can_happen(states[i].0, #[trigger] happenings[i])
            && states[i + 1] == happened(states[i], happenings[i])
}

/// How many of the `left` messages from before the turn are left when `h`
/// happens.
pub open spec fn left_by(d: DriverView, h: Happening, left: nat) -> nat {
    match h {
        Happening::Signal(signal) => left_by_signal(d, signal, left),
        Happening::Compact { keep, .. } => left_of(left, d.session.messages.len(), keep as int),
        _ => left,
    }
}

/// How many of the messages from before the turn are left after its first `i`
/// happenings.
pub open spec fn left_after(
    d: DriverView,
    happenings: Seq<Happening>,
    states: Seq<(DriverView, DirectiveView)>,
    i: int,
) -> nat
    decreases i,
{
    if i <= 0 {
        d.session.messages.len()
    } else {
        left_by(
            states[i - 1].0,
            happenings[i - 1],
            left_after(d, happenings, states, i - 1),
        )
    }
}

/// Messages are lost when `h` happens.
pub open spec fn cuts_history(d: DriverView, h: Happening) -> bool {
    match h {
        Happening::Signal(signal) => match d.turn {
            TurnView::Asking { retries, .. } => asks_again(d, signal) && d.session.messages.len()
                > overflow_keep(retries),
            _ => false,
        },
        Happening::Compact { keep, .. } => d.session.messages.len() > keep,
        _ => false,
    }
}

/// Nothing that happens in the turn cuts the history.
pub open spec fn never_cuts(
    happenings: Seq<Happening>,
    states: Seq<(DriverView, DirectiveView)>,
) -> bool {
    forall|i: int|
        0 <= i < happenings.len() ==> !cuts_history(states[i].0, #[trigger] happenings[i])
}

/// No answer of the turn is empty.
pub open spec fn always_says_something(
    happenings: Seq<Happening>,
    states: Seq<(DriverView, DirectiveView)>,
) -> bool {
    forall|i: int|
        0 <= i < happenings.len() ==> (#[trigger] happenings[i] == Happening::Signal(
            Signal::Chunk(Chunk::End),
        ) ==> {
            match states[i].0.turn {
                TurnView::Streaming { text, calls, .. } => text.len() > 0 || calls.len() > 0,
                _ => true,
            }
        })
}

/// The history holds a step that is under way: `calls` were asked for with
/// `text`, and the first of them have their outputs.
pub open spec fn is_open_step(
    ms: Seq<MessageView>,
    calls: Seq<CallView>,
    base: Seq<MessageView>,
    text: Seq<char>,
    outs: Seq<OutputView>,
) -> bool {
    &&& legal(base)
    &&& outs.len() <= calls.len()
    &&& ms == base.push(answer(text, calls)) + result_messages(
        calls.take(outs.len() as int),
        outs,
    )
}

/// Between steps the history is legal; within one it is so up to the step.
pub open spec fn is_orderly(d: DriverView) -> bool {
    match d.turn {
        TurnView::Acting { calls, next, .. } => exists|
            base: Seq<MessageView>,
            text: Seq<char>,
            outs: Seq<OutputView>,
        | #[trigger]
            is_open_step(d.session.messages, calls, base, text, outs) && outs.len() == next,
        _ => legal(d.session.messages),
    }
}

proof fn lemma_kept_call_is_orderly(
    ms: Seq<MessageView>,
    calls: Seq<CallView>,
    base: Seq<MessageView>,
    text: Seq<char>,
    outs: Seq<OutputView>,
    out: OutputView,
)
    requires
        is_open_step(ms, calls, base, text, outs),
        outs.len() < calls.len(),
    ensures
        is_open_step(
            ms.push(result_message(calls[outs.len() as int], out)),
            calls,
            base,
            text,
            outs.push(out),
        ),
        outs.len() + 1 == calls.len() ==> legal(
            ms.push(result_message(calls[outs.len() as int], out)),
        ),
{
    let n = outs.len() as int;
    let after = ms.push(result_message(calls[n], out));
    let kept = outs.push(out);
    assert(after =~= base.push(answer(text, calls)) + result_messages(calls.take(n + 1), kept));
    if n + 1 == calls.len() {
        assert(calls.take(n + 1) =~= calls);
        law_step_keeps_history_legal(base, text, calls, kept);
    }
}

proof fn lemma_open_step_is_orderly(
    d: DriverView,
    base: Seq<MessageView>,
    text: Seq<char>,
    outs: Seq<OutputView>,
)
    requires
        d.turn is Acting,
        is_open_step(d.session.messages, d.turn->Acting_calls, base, text, outs),
        outs.len() == d.turn->next,
    ensures
        is_orderly(d),
{
}

proof fn lemma_signal_keeps_order(d: DriverView, signal: Signal, first: Seq<MessageView>)
    requires
        sound(d),
        fits(d.turn, signal),
        legal(first),
        builds_on(d, first, first.len()),
        is_orderly(d),
        !cuts_history(d, Happening::Signal(signal)),
        signal == Signal::Chunk(Chunk::End) && d.turn is Streaming ==> d.turn->Streaming_text.len()
            > 0 || d.turn->Streaming_calls.len() > 0,
    ensures
        is_orderly(advanced(d, signal).0),
{
    let ms = d.session.messages;
    let after = advanced(d, signal).0;
    law_failed_turn_leaves_no_trace(d, signal, Seq::empty(), false, first, first.len());
    assert(first.skip(0) =~= first);
    match d.turn {
        TurnView::Streaming { text, calls, .. } => {
            if let Signal::Chunk(Chunk::End) = signal {
                let outs = Seq::<OutputView>::empty();
                let kept = ms.push(answer(text, calls));
                assert(kept =~= kept + result_messages(calls.take(0), outs));
                assert(is_open_step(kept, calls, ms, text, outs));
                if calls.len() == 0 {
                    law_step_keeps_history_legal(ms, text, calls, outs);
                    assert(kept + result_messages(calls, outs) =~= kept);
                } else {
                    lemma_open_step_is_orderly(after, ms, text, outs);
                }
            }
        },
        TurnView::Acting { calls, next, .. } => {
            let (base, text, outs) = choose|
                base: Seq<MessageView>,
                text: Seq<char>,
                outs: Seq<OutputView>,
            | #[trigger]
                is_open_step(ms, calls, base, text, outs) && outs.len() == next;
            match signal {
                Signal::Guard { refusal: Some(reason), .. } => {
                    let out = failed("error: tool execution rejected: "@ + reason@);
                    lemma_kept_call_is_orderly(ms, calls, base, text, outs, out);
                    if next + 1 < calls.len() {
                        lemma_open_step_is_orderly(after, base, text, outs.push(out));
                    }
                },
                Signal::Decided { result, .. } => {
                    let out = match result {
                        Ok(o) => o@,
                        Err(e) => failed("error: "@ + e@),
                    };
                    lemma_kept_call_is_orderly(ms, calls, base, text, outs, out);
                    if next + 1 < calls.len() {
                        lemma_open_step_is_orderly(after, base, text, outs.push(out));
                    }
                },
                _ => {
                    lemma_open_step_is_orderly(after, base, text, outs);
                },
            }
        },
        _ => {},
    }
}

proof fn lemma_turn(
    d: DriverView,
    input: Seq<char>,
    cancelled: bool,
    happenings: Seq<Happening>,
    states: Seq<(DriverView, DirectiveView)>,
    i: int,
)
    requires
        sound(d),
        d.turn is Idle,
        turn_runs(d, input, cancelled, happenings, states),
        0 <= i < states.len(),
    ensures
        sound(states[i].0),
        states[i].1.next is End <==> states[i].0.turn is Idle,
        builds_on(states[i].0, d.session.messages, left_after(d, happenings, states, i)),
        states[i].1.next matches NextView::End(Err(_)) ==> states[i].0.session.messages
            == d.session.messages.skip(
            d.session.messages.len() - left_after(d, happenings, states, i),
        ),
        never_cuts(happenings, states) ==> left_after(d, happenings, states, i)
            == d.session.messages.len(),
        never_cuts(happenings, states) && legal(d.session.messages) && always_says_something(
            happenings,
            states,
        ) ==> is_orderly(states[i].0),
    decreases i,
{
    let first = d.session.messages;
    assert(first.skip(0) =~= first);
    if i == 0 {
        law_failed_turn_leaves_no_trace(d, Signal::Connected, input, cancelled, first, first.len());
        if legal(first) {
            let said = seq![plain(Role::User, input)];
            assert forall|k: int| 0 <= k < said.len() implies #[trigger] in_order(said, k) by {}
            lemma_legal_concat(first, said);
            assert(first + said =~= first.push(plain(Role::User, input)));
        }
    } else {
        lemma_turn(d, input, cancelled, happenings, states, i - 1);
        let before = states[i - 1].0;
        let h = happenings[i - 1];
        let left = left_after(d, happenings, states, i - 1);
        assert(can_happen(before, h));
        assert(states[i - 1 + 1] == happened(states[i - 1], h));
        if never_cuts(happenings, states) {
            assert(!cuts_history(before, h));
        }
        match h {
            Happening::Signal(signal) => {
                law_rules_keep_sound(before, signal);
                law_failed_turn_leaves_no_trace(before, signal, input, cancelled, first, left);
                if never_cuts(happenings, states) && legal(first) && always_says_something(
                    happenings,
                    states,
                ) {
                    lemma_signal_keeps_order(before, signal, first);
                }
            },
            Happening::Compact { summary, keep } => {
                law_cut_keeps_the_latest(before, summary, keep as int, first, left);
                if never_cuts(happenings, states) {
                    assert(cut(before, summary, keep as int).turn == before.turn);
                }
            },
            _ => {},
        }
    }
}

/// A whole turn that fails leaves no trace: whatever happened in it, the
/// session has of the messages it had those that no cut has taken, the latest,
/// and no others; where nothing was cut, it has the messages it had.
pub proof fn law_whole_failed_turn_leaves_no_trace(
    d: DriverView,
    input: Seq<char>,
    cancelled: bool,
    happenings: Seq<Happening>,
    states: Seq<(DriverView, DirectiveView)>,
)
    requires
        sound(d),
        d.turn is Idle,
        turn_runs(d, input, cancelled, happenings, states),
    ensures
        ({
            let had = d.session.messages;
            let has_now = states.last().0.session.messages;
            let left = left_after(d, happenings, states, happenings.len() as int);
            &&& left <= had.len()
            &&& never_cuts(happenings, states) ==> left == had.len()
            &&& left <= has_now.len()
            &&& has_now.take(left as int) == had.skip(had.len() - left)
            &&& states.last().1.next matches NextView::End(Err(_)) ==> has_now == had.skip(
                had.len() - left,
            )
            &&& states.last().1.next matches NextView::End(Err(_)) ==> (never_cuts(
                happenings,
                states,
            ) ==> has_now == had)
        }),
{
    lemma_turn(d, input, cancelled, happenings, states, states.len() - 1);
    assert(d.session.messages.skip(0) =~= d.session.messages);
}

/// A whole turn that begins with a legal history ends with one, however it
/// ends, as long as no answer is empty and nothing cut the history.
pub proof fn law_whole_turn_keeps_history_legal(
    d: DriverView,
    input: Seq<char>,
    cancelled: bool,
    happenings: Seq<Happening>,
    states: Seq<(DriverView, DirectiveView)>,
)
    requires
        sound(d),
        d.turn is Idle,
        legal(d.session.messages),
        turn_runs(d, input, cancelled, happenings, states),
        never_cuts(happenings, states),
        always_says_something(happenings, states),
        states.last().1.next is End,
    ensures
        legal(states.last().0.session.messages),
{
    lemma_turn(d, input, cancelled, happenings, states, states.len() - 1);
}

/// A step of a turn: what the model said, the calls it asked for, and the
/// outputs of those that were run so far.
#[verifier::ext_equal]
pub ghost struct StepTaken {
    pub text: Seq<char>,
    pub calls: Seq<CallView>,
    pub outs: Seq<OutputView>,
}

/// What came in a turn: the steps, and what the model has said since it was last
/// connected.
#[verifier::ext_equal]
pub ghost struct Course {
    pub steps: Seq<StepTaken>,
    pub text: Seq<char>,
    pub calls: Seq<CallView>,
}

/// The course with the output of one more call of its last step.
pub open spec fn with_output(c: Course, out: OutputView) -> Course {
    let last = c.steps.last();
    Course {
        steps: c.steps.drop_last().push(StepTaken { outs: last.outs.push(out), ..last }),
        ..c
    }
}

/// The course with one more happening.
pub open spec fn course_after(c: Course, h: Happening) -> Course {
    match h {
        Happening::Signal(Signal::Connected) => Course {
            text: Seq::empty(),
            calls: Seq::empty(),
            ..c
        },
        Happening::Signal(Signal::Chunk(Chunk::TextDelta(delta))) => Course {
            text: c.text + delta@,
            ..c
        },
        Happening::Signal(Signal::Chunk(Chunk::ToolCall(call))) => Course {
            calls: c.calls.push(call@),
            ..c
        },
        Happening::Signal(Signal::Chunk(Chunk::End)) => Course {
            steps: c.steps.push(
                StepTaken { text: c.text, calls: c.calls, outs: Seq::empty() },
            ),
            ..c
        },
        Happening::Signal(Signal::Guard { refusal: Some(reason), .. }) => with_output(
            c,
            failed("error: tool execution rejected: "@ + reason@),
        ),
        Happening::Signal(Signal::Decided { result: Ok(out), .. }) => with_output(c, out@),
        Happening::Signal(Signal::Decided { result: Err(e), .. }) => with_output(
            c,
            failed("error: "@ + e@),
        ),
        _ => c,
    }
}

/// What came in a turn by its first `n` happenings.
pub open spec fn course(happenings: Seq<Happening>, n: int) -> Course
    decreases n,
{
    if n <= 0 {
        Course { steps: Seq::empty(), text: Seq::empty(), calls: Seq::empty() }
    } else {
        course_after(course(happenings, n - 1), happenings[n - 1])
    }
}

/// The messages of a step: one answer, then one result per call that was run,
/// in the order of the calls.
pub open spec fn step_messages(s: StepTaken) -> Seq<MessageView> {
    seq![answer(s.text, s.calls)] + Seq::new(
        s.outs.len(),
        |i: int| result_message(s.calls[i], s.outs[i]),
    )
}

/// The messages of steps, one step after another.
pub open spec fn messages_of(steps: Seq<StepTaken>) -> Seq<MessageView>
    decreases steps.len(),
{
    if steps.len() == 0 {
        Seq::empty()
    } else {
        messages_of(steps.drop_last()) + step_messages(steps.last())
    }
}

/// All messages of a session after a turn: those there were, the user's, and
/// those of the steps.
pub open spec fn told(
    had: Seq<MessageView>,
    input: Seq<char>,
    steps: Seq<StepTaken>,
) -> Seq<MessageView> {
    had.push(plain(Role::User, input)) + messages_of(steps)
}

/// The step asked for tools, and each call has its output.
pub open spec fn is_done(s: StepTaken) -> bool {
    s.calls.len() > 0 && s.outs.len() == s.calls.len()
}

/// Every step is done.
pub open spec fn all_done(steps: Seq<StepTaken>) -> bool {
    forall|i: int| 0 <= i < steps.len() ==> is_done(#[trigger] steps[i])
}

/// `ms` is what is left of `whole` at its end.
pub open spec fn is_rest_of(ms: Seq<MessageView>, whole: Seq<MessageView>) -> bool {
    ms.len() <= whole.len() && ms == whole.skip(whole.len() - ms.len())
}

/// Where the turn stands is where these steps lead, as long as it goes on.
pub open spec fn is_on_course(d: DriverView, c: Course) -> bool {
    match d.turn {
        TurnView::Idle => false,
        TurnView::Asking { .. } => all_done(c.steps),
        TurnView::Streaming { text, calls, .. } => {
            &&& all_done(c.steps)
            &&& text == c.text
            &&& calls == c.calls
        },
        TurnView::Acting { calls, next, .. } => {
            &&& c.steps.len() > 0
            &&& all_done(c.steps.drop_last())
            &&& c.steps.last().calls == calls
            &&& c.steps.last().outs.len() == next
            &&& next < calls.len()
        },
    }
}

/// The turn ended with `text`: its last step has no calls and says it, all
/// others asked for tools.
pub open spec fn ends_with(steps: Seq<StepTaken>, text: Seq<char>) -> bool {
    &&& steps.len() > 0
    &&& all_done(steps.drop_last())
    &&& steps.last() == (StepTaken { text, calls: Seq::empty(), outs: Seq::empty() })
}

proof fn lemma_rest_grows(ms: Seq<MessageView>, whole: Seq<MessageView>, m: MessageView)
    requires
        is_rest_of(ms, whole),
    ensures
        is_rest_of(ms.push(m), whole.push(m)),
{
    assert(ms.push(m) =~= whole.push(m).skip(whole.len() - ms.len()));
}

proof fn lemma_rest_is_cut(ms: Seq<MessageView>, whole: Seq<MessageView>, keep: int)
    requires
        is_rest_of(ms, whole),
        keep >= 0,
    ensures
        is_rest_of(last_messages(ms, keep), whole),
{
    let kept = last_messages(ms, keep);
    assert(kept =~= whole.skip(whole.len() - kept.len()));
}

/// A step that begins adds its answer.
proof fn lemma_told_answer(
    had: Seq<MessageView>,
    input: Seq<char>,
    steps: Seq<StepTaken>,
    text: Seq<char>,
    calls: Seq<CallView>,
)
    ensures
        told(
            had,
            input,
            steps.push(StepTaken { text, calls, outs: Seq::empty() }),
        ) == told(had, input, steps).push(answer(text, calls)),
{
    let step = StepTaken { text, calls, outs: Seq::empty() };
    assert(steps.push(step).drop_last() =~= steps);
    assert(told(had, input, steps.push(step)) =~= told(had, input, steps).push(
        answer(text, calls),
    ));
}

/// A call that was run adds its result.
proof fn lemma_told_output(
    had: Seq<MessageView>,
    input: Seq<char>,
    c: Course,
    out: OutputView,
)
    requires
        c.steps.len() > 0,
    ensures
        ({
            let last = c.steps.last();
            told(had, input, with_output(c, out).steps) == told(had, input, c.steps).push(
                result_message(last.calls[last.outs.len() as int], out),
            )
        }),
{
    let last = c.steps.last();
    let after = with_output(c, out).steps;
    assert(after.drop_last() =~= c.steps.drop_last());
    assert(told(had, input, after) =~= told(had, input, c.steps).push(
        result_message(last.calls[last.outs.len() as int], out),
    ));
}

/// A signal leads on, or ends the turn.
proof fn lemma_signal_on_course(
    d: DriverView,
    signal: Signal,
    c: Course,
    had: Seq<MessageView>,
    input: Seq<char>,
)
    requires
        sound(d),
        fits(d.turn, signal),
        is_on_course(d, c),
        is_rest_of(d.session.messages, told(had, input, c.steps)),
    ensures
        ({
            let (after, directive) = advanced(d, signal);
            let then = course_after(c, Happening::Signal(signal));
            let ms = after.session.messages;
            let fails = match directive.next {
                NextView::End(Err(_)) => true,
                _ => false,
            };
            &&& !fails ==> is_rest_of(ms, told(had, input, then.steps))
            &&& !fails && !cuts_history(d, Happening::Signal(signal)) ==> ms.len() - d.session.messages.len() == told(had, input, then.steps).len() - told(
                had,
                input,
                c.steps,
            ).len()
            &&& match directive.next {
                NextView::End(Err(_)) => true,
                NextView::End(Ok(text)) => ends_with(then.steps, text),
                _ => is_on_course(after, then),
            }
        }),
{
    let ms = d.session.messages;
    let whole = told(had, input, c.steps);
    let then = course_after(c, Happening::Signal(signal));
    match d.turn {
        TurnView::Asking { retries, .. } => {
            if asks_again(d, signal) {
                lemma_rest_is_cut(ms, whole, overflow_keep(retries));
            }
        },
        TurnView::Streaming { text, calls, .. } => {
            if let Signal::Chunk(Chunk::End) = signal {
                lemma_told_answer(had, input, c.steps, text, calls);
                lemma_rest_grows(ms, whole, answer(text, calls));
                assert(then.steps.drop_last() =~= c.steps);
                if calls.len() == 0 {
                    assert(calls =~= Seq::empty());
                }
            }
        },
        TurnView::Acting { calls, next, .. } => {
            let done = match signal {
                Signal::Guard { refusal: Some(reason), .. } => Some(
                    failed("error: tool execution rejected: "@ + reason@),
                ),
                Signal::Decided { result: Ok(out), .. } => Some(out@),
                Signal::Decided { result: Err(e), .. } => Some(failed("error: "@ + e@)),
                _ => None,
            };
            if let Some(out) = done {
                lemma_told_output(had, input, c, out);
                lemma_rest_grows(ms, whole, result_message(calls[next as int], out));
                assert(then == with_output(c, out));
                assert(then.steps.drop_last() =~= c.steps.drop_last());
                if next + 1 == calls.len() {
                    assert forall|i: int| 0 <= i < then.steps.len() implies is_done(
                        #[trigger] then.steps[i],
                    ) by {
                        if i < then.steps.len() - 1 {
                            assert(then.steps[i] == c.steps.drop_last()[i]);
                        }
                    }
                }
            }
        },
        _ => {},
    }
}

proof fn lemma_course(
    d: DriverView,
    input: Seq<char>,
    cancelled: bool,
    happenings: Seq<Happening>,
    states: Seq<(DriverView, DirectiveView)>,
    i: int,
)
    requires
        sound(d),
        d.turn is Idle,
        turn_runs(d, input, cancelled, happenings, states),
        0 <= i < states.len(),
    ensures
        ({
            let c = course(happenings, i);
            let whole = told(d.session.messages, input, c.steps);
            let ms = states[i].0.session.messages;
            match states[i].1.next {
                NextView::End(Err(_)) => true,
                NextView::End(Ok(text)) => {
                    &&& ends_with(c.steps, text)
                    &&& is_rest_of(ms, whole)
                    &&& never_cuts(happenings, states) ==> ms.len() == whole.len()
                },
                _ => {
                    &&& is_on_course(states[i].0, c)
                    &&& is_rest_of(ms, whole)
                    &&& never_cuts(happenings, states) ==> ms.len() == whole.len()
                },
            }
        }),
    decreases i,
{
    let had = d.session.messages;
    lemma_turn(d, input, cancelled, happenings, states, i);
    if i == 0 {
        let c = course(happenings, 0);
        let whole = told(had, input, c.steps);
        assert(whole =~= had.push(plain(Role::User, input)));
        assert(whole.skip(0) =~= whole);
    } else {
        lemma_turn(d, input, cancelled, happenings, states, i - 1);
        lemma_course(d, input, cancelled, happenings, states, i - 1);
        let before = states[i - 1].0;
        let h = happenings[i - 1];
        let c = course(happenings, i - 1);
        assert(can_happen(before, h));
        assert(states[i - 1 + 1] == happened(states[i - 1], h));
        assert(!(before.turn is Idle));
        if never_cuts(happenings, states) {
            assert(!cuts_history(before, h));
        }
        match h {
            Happening::Signal(signal) => {
                lemma_signal_on_course(before, signal, c, had, input);
            },
            Happening::Compact { summary, keep } => {
                lemma_rest_is_cut(
                    before.session.messages,
                    told(had, input, c.steps),
                    keep as int,
                );
            },
            _ => {},
        }
    }
}

/// What a whole turn leaves that ends with an answer: the messages there were,
/// the user's, and for each step one answer of the model followed by one result
/// per call, in the order of the calls. What the steps said and asked for, and
/// what came of it, is what happened in the turn. Every step but the last asked
/// for tools, and the last one's text is the answer. Of these messages the latest
/// are left where the history was cut, all of them where it was not.
pub proof fn law_whole_answered_turn_is_kept(
    d: DriverView,
    input: Seq<char>,
    cancelled: bool,
    happenings: Seq<Happening>,
    states: Seq<(DriverView, DirectiveView)>,
    text: Seq<char>,
)
    requires
        sound(d),
        d.turn is Idle,
        turn_runs(d, input, cancelled, happenings, states),
        states.last().1.next == NextView::End(Ok(text)),
    ensures
        ({
            let steps = course(happenings, happenings.len() as int).steps;
            let whole = told(d.session.messages, input, steps);
            &&& steps.len() > 0
            &&& steps.last().calls.len() == 0
            &&& steps.last().text == text
            &&& forall|i: int|
                0 <= i < steps.len() ==> (#[trigger] steps[i]).outs.len() == steps[i].calls.len()
            &&& forall|i: int|
                0 <= i < steps.len() - 1 ==> (#[trigger] steps[i]).calls.len() > 0
            &&& is_rest_of(states.last().0.session.messages, whole)
            &&& never_cuts(happenings, states) ==> states.last().0.session.messages == whole
        }),
{
    lemma_course(d, input, cancelled, happenings, states, states.len() - 1);
    let steps = course(happenings, happenings.len() as int).steps;
    let whole = told(d.session.messages, input, steps);
    assert forall|i: int| 0 <= i < steps.len() - 1 implies is_done(#[trigger] steps[i]) by {
        assert(steps[i] == steps.drop_last()[i]);
    }
    assert(whole.skip(0) =~= whole);
}

// ── laws of single steps ────────────────────────────────────────────

/// A turn begins with the user's words at the end of the session and asks the
/// model for the first step; one that was cancelled, or may take no step, ends
/// at once and leaves the session as it was.
pub proof fn law_turn_begins_with_the_user(d: DriverView, input: Seq<char>, cancelled: bool)
    ensures
        ({
            let (after, directive) = begun(d, input, cancelled);
            let said = MessageView { role: Role::User, content: ContentView::Text(input) };
            &&& !cancelled && d.max_steps > 0 ==> {
                &&& after.session.messages == d.session.messages.push(said)
                &&& after.status is Running
                &&& after.turn is Asking
                &&& after.turn->retries == 0
                &&& directive.next is AskModel
                &&& directive.next->AskModel_step == 1
                &&& directive.next->system == system_text(d.system_prompt, d.session)
                &&& directive.next->messages == sanitized(d.session.messages.push(said))
                &&& directive.events.len() == 0
                &&& !directive.persist
            }
            &&& cancelled ==> directive.next == NextView::End(Err(ErrorView::Stopped))
                && after.session == d.session
            &&& !cancelled && d.max_steps == 0 ==> directive.next == NextView::End(
                Err(ErrorView::MaxSteps(0)),
            ) && after.session == d.session
        }),
{
    let (after, _) = begun(d, input, cancelled);
    if cancelled || d.max_steps == 0 {
        assert(after.session.messages =~= d.session.messages);
    }
}

/// Where a turn ends, its end is told last, with its error where it failed, the
/// session is written and the agent is idle; where it goes on, the agent runs
/// and no end is told, and the session is written only where it was cut.
pub proof fn law_end_is_told_last(d: DriverView, signal: Signal)
    requires
        sound(d),
        fits(d.turn, signal),
    ensures
        ({
            let (after, directive) = advanced(d, signal);
            &&& directive.next is End ==> {
                let r = directive.next->End_0;
                &&& directive.events.len() > 0
                &&& directive.events.last() == (EventView::TurnEnd {
                    session: d.session.id,
                    ok: r is Ok,
                    error: match r {
                        Ok(_) => Seq::empty(),
                        Err(e) => error_text(e),
                    },
                })
                &&& directive.persist
                &&& after.status is Idle
                &&& after.turn is Idle
            }
            &&& !(directive.next is End) ==> {
                &&& after.status is Running
                &&& !(after.turn is Idle)
                &&& forall|i: int|
                    0 <= i < directive.events.len() ==> !((#[trigger] directive.events[i])
                        is TurnEnd)
            }
            &&& directive.persist <==> directive.next is End || signal is ModelFailed
            &&& after.session.id == d.session.id
            &&& after.system_prompt == d.system_prompt
        }),
{
}

/// What the stream brings is gathered: its text in the order it comes, its
/// calls one after another, its tokens in the count; each piece of text or of
/// reasoning is told as it comes.
#[verifier::rlimit(40)]
pub proof fn law_stream_is_gathered(d: DriverView, chunk: Chunk)
    requires
        d.turn is Streaming,
    ensures
        ({
            let (after, directive) = advanced(d, Signal::Chunk(chunk));
            let step = d.turn->Streaming_step;
            let text = d.turn->text;
            let calls = d.turn->Streaming_calls;
            match chunk {
                Chunk::TextDelta(delta) => {
                    &&& after.turn is Streaming
                    &&& after.turn->text == text + delta@
                    &&& after.turn->Streaming_calls == calls
                    &&& after.turn->Streaming_step == step
                    &&& after.session == d.session
                    &&& directive.next is ReadStream
                    &&& directive.events.len() == 1
                    &&& directive.events[0] == (EventView::TextDelta {
                        session: d.session.id,
                        step,
                        delta: delta@,
                    })
                },
                Chunk::ReasoningDelta(delta) => {
                    &&& after == d
                    &&& directive.next is ReadStream
                    &&& directive.events.len() == 1
                    &&& directive.events[0] == (EventView::Reasoning {
                        session: d.session.id,
                        step,
                        delta: delta@,
                    })
                },
                Chunk::ToolCall(call) => {
                    &&& after.turn is Streaming
                    &&& after.turn->text == text
                    &&& after.turn->Streaming_calls == calls.push(call@)
                    &&& after.session == d.session
                    &&& directive.next is ReadStream
                    &&& directive.events.len() == 0
                },
                Chunk::Usage { input, output } => {
                    let i: u64 = match input {
                        Some(n) => n,
                        None => 0,
                    };
                    let o: u64 = match output {
                        Some(n) => n,
                        None => 0,
                    };
                    &&& after.turn == d.turn
                    &&& after.session.messages == d.session.messages
                    &&& d.session.tokens_used + i + o <= u64::MAX ==> after.session.tokens_used
                        == d.session.tokens_used + i + o
                    &&& directive.next is ReadStream
                    &&& directive.events.len() == 0
                },
                Chunk::Other => after == d && directive.next is ReadStream && directive.events.len()
                    == 0,
                Chunk::Cancelled => directive.next == NextView::End(Err(ErrorView::Stopped)),
                Chunk::Error(e) => directive.next == NextView::End(Err(ErrorView::Llm(e@))),
                Chunk::End => {
                    &&& after.session.messages == d.session.messages.push(answer(text, calls))
                    &&& directive.events.len() == 2
                    &&& directive.events[0] == (EventView::Step {
                        session: d.session.id,
                        step,
                        content: if text.len() > 0 {
                            Some(text)
                        } else {
                            None
                        },
                        tool_calls: calls.len(),
                    })
                    &&& calls.len() == 0 ==> directive.next == NextView::End(Ok(text))
                    &&& calls.len() > 0 ==> directive.next == NextView::AskGuard(calls[0])
                        && directive.events[1] == (EventView::ToolCall {
                        session: d.session.id,
                        name: calls[0].name,
                        args: calls[0].input,
                    })
                },
            }
        }),
{
}

/// The words by which an error is taken to say that the prompt was too long:
/// each of them does, and nothing else.
pub proof fn law_overflow_is_told_by_words(lowered: Seq<char>)
    ensures
        mentions_overflow(lowered) <==> {
            ||| occurs(lowered, "context"@)
            ||| occurs(lowered, "too long"@)
            ||| occurs(lowered, "too many tokens"@)
            ||| occurs(lowered, "exceed"@)
            ||| occurs(lowered, "input length"@)
            ||| occurs(lowered, "prompt is too"@)
            ||| occurs(lowered, "longer than"@)
            ||| occurs(lowered, "maximum context"@)
            ||| occurs(lowered, "token limit"@)
        },
{
    let w = overflow_words();
    assert(w[0] == "context"@);
    assert(w[1] == "too long"@);
    assert(w[2] == "too many tokens"@);
    assert(w[3] == "exceed"@);
    assert(w[4] == "input length"@);
    assert(w[5] == "prompt is too"@);
    assert(w[6] == "longer than"@);
    assert(w[7] == "maximum context"@);
    assert(w[8] == "token limit"@);
    assert(w.len() == 9);
}

/// A prompt that was too long is met by asking again with the latest messages
/// only: forty of them the first time, eight the second. What was cut off is
/// told by the summary there was, or by a note; the session is written. A third
/// time, and any other error, ends the turn with it.
pub proof fn law_overflow_is_met_twice(d: DriverView, error: String)
    requires
        sound(d),
        d.turn is Asking,
    ensures
        ({
            let (after, directive) = advanced(d, Signal::ModelFailed(error));
            let retries = d.turn->retries;
            let again = mentions_overflow(lower_case(error@)) && retries < 2;
            let had = d.session.messages;
            let has_now = after.session.messages;
            &&& !again ==> directive.next == NextView::End(Err(ErrorView::Llm(error@)))
            &&& again ==> {
                &&& directive.next is AskModel
                &&& directive.next->AskModel_step == d.turn->Asking_step
                &&& directive.next->system == d.turn->system
                &&& directive.next->messages == sanitized(has_now)
                &&& directive.persist
                &&& directive.events.len() == 0
                &&& after.turn is Asking
                &&& after.turn->retries == retries + 1
                &&& has_now.len() <= had.len()
                &&& has_now == had.skip(had.len() - has_now.len())
                &&& retries == 0 ==> has_now.len() == if had.len() < 40 {
                    had.len()
                } else {
                    40
                }
                &&& retries == 1 ==> has_now.len() == if had.len() < 8 {
                    had.len()
                } else {
                    8
                }
                &&& after.session.summary is Some
                &&& d.session.summary is Some ==> after.session.summary == d.session.summary
                &&& after.session.todo == d.session.todo
                &&& after.session.tokens_used == d.session.tokens_used
            }
        }),
{
    let (after, _) = advanced(d, Signal::ModelFailed(error));
    let had = d.session.messages;
    let has_now = after.session.messages;
    if is_retried(d.turn->retries, error@) {
        assert(has_now =~= had.skip(had.len() - has_now.len()));
    }
}

/// A call that the guard lets pass is run, as it was asked for; one that it
/// refuses is not, and the model is shown the reason as the call's own error.
pub proof fn law_guard_decides(d: DriverView, refusal: Option<String>, cancelled: bool)
    requires
        sound(d),
        d.turn is Acting,
        d.turn->stage is Guard,
    ensures
        ({
            let (after, directive) = advanced(d, Signal::Guard { refusal, cancelled });
            let call = d.turn->Acting_calls[d.turn->next as int];
            match refusal {
                None => {
                    &&& directive.next == NextView::RunTool(call)
                    &&& directive.events.len() == 0
                    &&& after.session == d.session
                    &&& after.turn is Acting && after.turn->stage is Running
                    &&& after.turn->next == d.turn->next
                },
                Some(reason) => {
                    let out = OutputView {
                        ok: false,
                        output: "error: tool execution rejected: "@ + reason@,
                    };
                    &&& !(directive.next is RunTool)
                    &&& !(directive.next is End) ==> after.session.messages
                        == d.session.messages.push(result_message(call, out))
                },
            }
        }),
{
}

/// What a tool gave is put up for a decision as it is, and what was decided is
/// what is kept of the call and told.
pub proof fn law_decision_is_kept(
    d: DriverView,
    out: ToolOutput,
    result: Result<ToolOutput, String>,
    cancelled: bool,
)
    requires
        sound(d),
        d.turn is Acting,
    ensures
        d.turn->stage is Running ==> {
            let (after, directive) = advanced(d, Signal::Executed(out));
            let call = d.turn->Acting_calls[d.turn->next as int];
            &&& directive.next == (NextView::AskDecision { call, output: out@ })
            &&& after.session == d.session
            &&& after.turn is Acting && after.turn->stage is Deciding
            &&& after.turn->next == d.turn->next
        },
        d.turn->stage is Deciding ==> {
            let (after, directive) = advanced(d, Signal::Decided { result, cancelled });
            let call = d.turn->Acting_calls[d.turn->next as int];
            let kept = match result {
                Ok(o) => o@,
                Err(e) => OutputView { ok: false, output: "error: "@ + e@ },
            };
            &&& directive.events.len() > 0
            &&& directive.events[0] == (EventView::ToolResult {
                session: d.session.id,
                name: call.name,
                ok: kept.ok,
                output: kept.output,
            })
            &&& !(directive.next is End) ==> after.session.messages == d.session.messages.push(
                result_message(call, kept),
            )
        },
{
}

/// The calls of an answer are run one after another, in their order, and behind
/// the last the model is asked again, one step on: unless the turn was
/// cancelled or has taken all its steps.
pub proof fn law_calls_in_their_order(
    d: DriverView,
    result: Result<ToolOutput, String>,
    cancelled: bool,
)
    requires
        sound(d),
        d.turn is Acting,
        d.turn->stage is Deciding,
    ensures
        ({
            let (after, directive) = advanced(d, Signal::Decided { result, cancelled });
            let calls = d.turn->Acting_calls;
            let next = d.turn->next;
            let step = d.turn->Acting_step;
            &&& next + 1 < calls.len() ==> {
                &&& directive.next == NextView::AskGuard(calls[next as int + 1])
                &&& after.turn is Acting && after.turn->stage is Guard
                &&& after.turn->next == next + 1
                &&& after.turn->Acting_calls == calls
                &&& directive.events.last() == (EventView::ToolCall {
                    session: d.session.id,
                    name: calls[next as int + 1].name,
                    args: calls[next as int + 1].input,
                })
            }
            &&& next + 1 == calls.len() && cancelled ==> directive.next == NextView::End(
                Err(ErrorView::Stopped),
            )
            &&& next + 1 == calls.len() && !cancelled && step == d.max_steps ==> directive.next
                == NextView::End(Err(ErrorView::MaxSteps(d.max_steps)))
            &&& next + 1 == calls.len() && !cancelled && step < d.max_steps ==> {
                &&& directive.next is AskModel
                &&& directive.next->AskModel_step == step + 1
                &&& after.turn is Asking
                &&& after.turn->retries == 0
                &&& after.turn->Asking_step == step + 1
                &&& directive.next->messages == sanitized(after.session.messages)
                &&& directive.next->system == system_text(d.system_prompt, d.session)
            }
        }),
{
}

/// A step that was refused ends the turn with the reason; once the model
/// answers, nothing of its answer is there yet.
pub proof fn law_asked_model(d: DriverView, reason: String)
    requires
        d.turn is Asking,
    ensures
        advanced(d, Signal::Refused(reason)).1.next == NextView::End(
            Err(ErrorView::Pipeline(reason@)),
        ),
        advanced(d, Signal::Connected).1.next is ReadStream,
        advanced(d, Signal::Connected).0.session == d.session,
        advanced(d, Signal::Connected).0.turn is Streaming,
        advanced(d, Signal::Connected).0.turn->text.len() == 0,
        advanced(d, Signal::Connected).0.turn->Streaming_calls.len() == 0,
        advanced(d, Signal::Connected).0.turn->Streaming_step == d.turn->Asking_step,
{
}

/// Which hook what is to be done is shown to.
pub proof fn law_hooks(n: NextView)
    ensures
        n is AskModel <==> hook_name(n) == Some("agent/pre-step"@),
        n is AskGuard <==> hook_name(n) == Some("tools/pre-execute"@),
        n is AskDecision <==> hook_name(n) == Some("tools/post-execute"@),
        hook_name(n) is None <==> n is ReadStream || n is RunTool || n is End,
{
    reveal_strlit("agent/pre-step");
    reveal_strlit("tools/pre-execute");
    reveal_strlit("tools/post-execute");
    assert("agent/pre-step"@.len() == 14);
    assert("tools/pre-execute"@.len() == 17);
    assert("tools/post-execute"@.len() == 18);
}

/// Of the messages at the front as many are left by a cut as it does not take:
/// all where nothing is cut, none where it takes them all.
pub proof fn law_what_a_cut_leaves(before: nat, len: nat, keep: nat)
    requires
        before <= len,
    ensures
        len <= keep ==> left_of(before, len, keep as int) == before,
        len > keep && before + keep <= len ==> left_of(before, len, keep as int) == 0,
        len > keep && before + keep > len ==> left_of(before, len, keep as int) == before + keep
            - len,
        left_of(before, len, keep as int) <= before,
        left_of(before, len, keep as int) <= keep || len <= keep,
{
}

/// To note the work left open changes nothing else, and an empty note clears
/// it; to cut the history changes the messages and the summary alone.
pub proof fn law_notes_and_cuts(d: DriverView, todo: Seq<char>, summary: Seq<char>, keep: nat)
    ensures
        todo.len() > 0 ==> todo_noted(d, todo).session.todo == Some(todo),
        todo.len() == 0 ==> todo_noted(d, todo).session.todo is None,
        todo_noted(d, todo).session.messages == d.session.messages,
        todo_noted(d, todo).session.summary == d.session.summary,
        todo_noted(d, todo).turn == d.turn,
        cut(d, summary, keep as int).session.summary == Some(summary),
        cut(d, summary, keep as int).session.todo == d.session.todo,
        cut(d, summary, keep as int).status == d.status,
        d.session.messages.len() <= keep ==> cut(d, summary, keep as int).session.messages
            == d.session.messages,
        d.session.messages.len() > keep ==> cut(d, summary, keep as int).session.messages
            == d.session.messages.skip(d.session.messages.len() - keep),
{
}

/// Asking again is noted: which of the two times it is, and how many messages
/// there were, are, and are kept.
pub proof fn law_retry_is_noted(retries: nat, before: nat, after: nat)
    ensures
        ({
            let notes = retry_notes(retries, before, after);
            &&& notes.len() == 2
            &&& occurs(notes[0], "("@ + decimal(retries + 1) + "/2)"@)
            &&& occurs(notes[1], "messages "@ + decimal(before) + " -> "@ + decimal(after))
            &&& retries == 0 ==> occurs(notes[1], " (kept last "@ + decimal(40))
            &&& retries > 0 ==> occurs(notes[1], " (kept last "@ + decimal(8))
        }),
{
    lemma_time_is_noted(decimal(retries + 1));
    lemma_change_is_noted(
        decimal(before),
        decimal(after),
        decimal(overflow_keep(retries) as nat),
    );
}

proof fn lemma_time_is_noted(n: Seq<char>)
    ensures
        occurs(
            "[driver] context overflow, auto-compact & retry ("@ + n + "/2)"@,
            "("@ + n + "/2)"@,
        ),
{
    let front = "[driver] context overflow, auto-compact & retry "@;
    assert("[driver] context overflow, auto-compact & retry ("@ == front + "("@) by {
        reveal_strlit("[driver] context overflow, auto-compact & retry ");
        reveal_strlit("(");
        reveal_strlit("[driver] context overflow, auto-compact & retry (");
        assert("[driver] context overflow, auto-compact & retry ("@ =~= front + "("@);
    }
    let t = "("@ + n + "/2)"@;
    lemma_regrouped(front, "("@, n);
    lemma_regrouped(front, "("@ + n, "/2)"@);
    lemma_stands_in(front, t, Seq::empty());
    assert(front + t + Seq::<char>::empty() =~= front + t);
}

proof fn lemma_change_is_noted(before: Seq<char>, after: Seq<char>, kept: Seq<char>)
    ensures
        ({
            let note = "[driver] auto-compact: messages "@ + before + " -> "@ + after
                + " (kept last "@ + kept + ")"@;
            &&& occurs(note, "messages "@ + before + " -> "@ + after)
            &&& occurs(note, " (kept last "@ + kept)
        }),
{
    let front = "[driver] auto-compact: "@;
    let label = "messages "@;
    let arrow = " -> "@;
    let last = " (kept last "@;
    assert("[driver] auto-compact: messages "@ == front + label) by {
        reveal_strlit("[driver] auto-compact: ");
        reveal_strlit("messages ");
        reveal_strlit("[driver] auto-compact: messages ");
        assert("[driver] auto-compact: messages "@ =~= front + label);
    }
    let change = label + before + arrow + after;
    let s1 = front + label + before + arrow + after;
    lemma_regrouped(front, label, before);
    lemma_regrouped(front, label + before, arrow);
    lemma_regrouped(front, label + before + arrow, after);
    lemma_stands_in(front, change, Seq::empty());
    assert(front + change + Seq::<char>::empty() =~= front + change);
    lemma_still_found(s1, last, kept, ")"@, ")"@, change);
    lemma_found_behind(s1, last, kept);
    lemma_occurs_in_front(s1 + last + kept, ")"@, last + kept);
}

} // verus!
