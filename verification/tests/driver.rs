use rutis_agent::agent::{AgentError, AgentStatus};
use rutis_agent::driver::{
    assistant_message, is_context_overflow, mentions_context_overflow, notes_on_retry,
    system_prompt,
    tool_result_message, AgentDriver, Chunk, Next, Signal,
};
use rutis_agent::events::AgentEvent;
use rutis_agent::message::{ContentPart, MessageContent, ModelMessage, Role, ToolCall};
use rutis_agent::scripted::{
    text_chunks, tool_call, GenerateContent, LlmResponse, ScriptPart, ScriptedCall, ScriptedLlm,
};
use rutis_agent::session::{Session, SessionIds};
use rutis_agent::tools::{ToolDef, ToolOutcome, ToolOutput, ToolRegistry};
use serde_json::Value;

fn json(s: &str) -> Value {
    serde_json::from_str(s).unwrap()
}

fn call(id: &str, name: &str, input: &str) -> ToolCall {
    tool_call(id.to_string(), name.to_string(), json(input))
}

fn content(s: &str) -> LlmResponse {
    LlmResponse::content(s.to_string())
}

/// A model that follows a script, a driver, and tools that are run by `run`.
struct Host {
    driver: AgentDriver,
    llm: ScriptedLlm,
    tools: ToolRegistry,
    run: fn(&ToolCall) -> ToolOutcome,
    /// Cancels once a tool has run.
    cancel_after_tool: bool,
    /// Cancels after so many pieces of the stream.
    cancel_after_chunks: Option<usize>,
    /// Refuses the calls of this tool, for this reason.
    refused: Option<(&'static str, &'static str)>,
    /// How many calls were run.
    ran: usize,
    /// Replaces the output of tools.
    rewrite: Option<&'static str>,
    persisted: usize,
}

fn host(responses: Vec<LlmResponse>, tools: Vec<ToolDef>, max_steps: usize) -> Host {
    let session = Session::new(&mut SessionIds::new());
    Host {
        driver: AgentDriver::new(session, max_steps, None),
        llm: ScriptedLlm::new(responses),
        tools: ToolRegistry::new(tools),
        run: |_| ToolOutcome::Done(Value::Null),
        cancel_after_tool: false,
        cancel_after_chunks: None,
        refused: None,
        ran: 0,
        rewrite: None,
        persisted: 0,
    }
}

fn tool(name: &str) -> ToolDef {
    ToolDef::new(name, "a tool", json("{\"type\":\"object\",\"properties\":{}}"))
}

fn chunk(p: ScriptPart) -> Chunk {
    match p {
        ScriptPart::TextDelta(s) => Chunk::TextDelta(s),
        ScriptPart::ReasoningDelta(s) => Chunk::ReasoningDelta(s),
        ScriptPart::ToolCall(c) => Chunk::ToolCall(c),
        _ => Chunk::Other,
    }
}

impl Host {
    fn turn(&mut self, input: &str) -> (Vec<AgentEvent>, Result<String, AgentError>) {
        let mut events = Vec::new();
        let mut parts: Vec<ScriptPart> = Vec::new();
        let mut read = 0;
        let mut cancelled = false;
        let mut directive = self.driver.followup(input, false);
        loop {
            events.append(&mut directive.events);
            if directive.persist {
                self.persisted += 1;
            }
            let signal = match directive.next {
                Next::AskModel { system, messages, .. } => {
                    let mut prompt = Vec::new();
                    if let Some(s) = system {
                        prompt.push(ModelMessage {
                            role: Role::System,
                            content: MessageContent::Text(s),
                        });
                    }
                    prompt.extend(messages);
                    match self.llm.do_stream(ScriptedCall { prompt, tools: self.tools.schemas() }) {
                        Ok(p) => {
                            parts = p;
                            Signal::Connected
                        }
                        Err(e) => Signal::ModelFailed(e),
                    }
                }
                Next::ReadStream => {
                    read += 1;
                    if self.cancel_after_chunks.is_some_and(|n| read > n) {
                        Signal::Chunk(Chunk::Cancelled)
                    } else if parts.is_empty() {
                        Signal::Chunk(Chunk::End)
                    } else {
                        Signal::Chunk(chunk(parts.remove(0)))
                    }
                }
                Next::AskGuard(c) => Signal::Guard {
                    refusal: self
                        .refused
                        .filter(|(name, _)| *name == c.tool_name)
                        .map(|(_, reason)| reason.to_string()),
                    cancelled,
                },
                Next::RunTool(c) => {
                    self.ran += 1;
                    let out = self.tools.execute(&c, (self.run)(&c));
                    if self.cancel_after_tool {
                        cancelled = true;
                    }
                    Signal::Executed(out)
                }
                Next::AskDecision { output, .. } => Signal::Decided {
                    result: Ok(match self.rewrite {
                        Some(s) => ToolOutput { ok: true, output: s.to_string() },
                        None => output,
                    }),
                    cancelled,
                },
                Next::End(r) => return (events, r),
            };
            directive = self.driver.advance(signal);
        }
    }

    fn messages(&self) -> usize {
        self.driver.session().messages().len()
    }
}

fn spoken(events: &[AgentEvent]) -> String {
    events
        .iter()
        .map(|e| match e {
            AgentEvent::TextDelta(d) => d.delta.clone(),
            _ => String::new(),
        })
        .collect()
}

fn roles(msgs: &[ModelMessage]) -> Vec<Role> {
    msgs.iter().map(|m| m.role).collect()
}

fn message_text(m: &ModelMessage) -> String {
    match &m.content {
        MessageContent::Text(t) => t.clone(),
        MessageContent::Parts(ps) => ps
            .iter()
            .map(|p| match p {
                ContentPart::Text { text, .. } => text.clone(),
                _ => String::new(),
            })
            .collect(),
    }
}

fn fed_back(m: &ModelMessage) -> (String, Value, Option<bool>) {
    match &m.content {
        MessageContent::Parts(ps) => match &ps[0] {
            ContentPart::ToolResult { tool_call_id, result, is_error, .. } => {
                (tool_call_id.clone(), result.clone(), *is_error)
            }
            other => panic!("expected a tool result, got {other:?}"),
        },
        other => panic!("expected parts, got {other:?}"),
    }
}

#[test]
fn context_overflow_detection() {
    assert!(is_context_overflow("context length exceeded: 350000 > 128000"));
    assert!(is_context_overflow("prompt is too long: 50000 tokens"));
    assert!(is_context_overflow("This model's maximum context window is 128K"));
    assert!(!is_context_overflow("tool execution rejected"));
    assert!(!is_context_overflow("network timeout"));
}

#[test]
fn overflow_is_found_whatever_the_case() {
    assert!(is_context_overflow("TOKEN LIMIT reached"));
    assert!(mentions_context_overflow("token limit reached"));
    assert!(!mentions_context_overflow("TOKEN LIMIT reached"));
}

#[test]
fn tool_result_long_output_is_trimmed() {
    let c = call("t1", "big", "{}");
    let short = ToolOutput { ok: true, output: "hello".into() };
    let m = tool_result_message(&c, &short);
    assert_eq!(fed_back(&m).1, Value::String("hello".into()));

    let long_body: String = "x".repeat(5000);
    let long = ToolOutput { ok: true, output: long_body.clone() };
    let m2 = tool_result_message(&c, &long);
    let result = fed_back(&m2).1;
    let s = result.as_str().expect("string result");
    assert!(s.len() < long_body.len());
    assert!(s.contains("…[trimmed"));
    assert!(s.starts_with("x".repeat(1500).as_str()));
    assert!(s.ends_with("x".repeat(1500).as_str()));
}

#[test]
fn answers_are_written_back_with_their_calls() {
    let m = assistant_message("said", &vec![call("a", "bash", "{}")]);
    match &m.content {
        MessageContent::Parts(ps) => {
            assert_eq!(ps.len(), 2);
            assert!(matches!(&ps[0], ContentPart::Text { text, .. } if text == "said"));
            assert!(
                matches!(&ps[1], ContentPart::ToolCall { tool_call_id, .. } if tool_call_id == "a")
            );
        }
        other => panic!("{other:?}"),
    }
    let m = assistant_message("", &Vec::new());
    assert!(matches!(&m.content, MessageContent::Parts(ps) if ps.is_empty()));
}

#[test]
fn direct_answer_without_tools() {
    let mut h = host(vec![content("42")], vec![], 16);
    let (events, done) = h.turn("meaning of life?");
    assert_eq!(done.unwrap(), "42");
    assert_eq!(spoken(&events), "42");
    assert_eq!(h.llm.calls.len(), 1);
    assert_eq!(roles(&h.llm.calls[0].prompt), vec![Role::User]);
    assert_eq!(message_text(&h.llm.calls[0].prompt[0]), "meaning of life?");
    assert!(h.llm.calls[0].tools.is_empty());
    assert_eq!(h.persisted, 1);
}

#[test]
fn text_arrives_as_multiple_deltas() {
    let mut h = host(vec![content("abcdefghij")], vec![], 16);
    let (events, _) = h.turn("stream");
    let deltas = events.iter().filter(|e| matches!(e, AgentEvent::TextDelta(_))).count();
    assert_eq!(deltas, 3); // "abcd" "efgh" "ij"
    assert_eq!(text_chunks("abcdefghij"), vec!["abcd", "efgh", "ij"]);
}

#[test]
fn tool_round_trip() {
    let mut h = host(
        vec![
            LlmResponse::tool_calls(vec![call("1", "get_weather", "{\"city\":\"Oslo\"}")]),
            content("Oslo: 30 degrees"),
        ],
        vec![tool("get_weather")],
        16,
    );
    h.run = |c| {
        let city = c.input["city"].as_str().unwrap();
        ToolOutcome::Done(json(&format!("{{\"city\":\"{city}\",\"temp\":30}}")))
    };
    let (events, done) = h.turn("weather in Oslo?");
    assert_eq!(done.unwrap(), "Oslo: 30 degrees");
    assert_eq!(spoken(&events), "Oslo: 30 degrees");
    let second = &h.llm.calls[1];
    assert_eq!(roles(&second.prompt), vec![Role::User, Role::Assistant, Role::Tool]);
    match &second.prompt[1].content {
        MessageContent::Parts(ps) => match &ps[0] {
            ContentPart::ToolCall { tool_call_id, tool_name, input, .. } => {
                assert_eq!(tool_call_id, "1");
                assert_eq!(tool_name, "get_weather");
                assert_eq!(input, &json("{\"city\":\"Oslo\"}"));
            }
            other => panic!("{other:?}"),
        },
        other => panic!("{other:?}"),
    }
    let (id, result, is_error) = fed_back(&second.prompt[2]);
    assert_eq!(id, "1");
    assert_eq!(json(result.as_str().unwrap()), json("{\"city\":\"Oslo\",\"temp\":30}"));
    assert_eq!(is_error, Some(false));
    assert_eq!(second.tools.len(), 1);
    assert_eq!(second.tools[0].name(), "get_weather");
}

#[test]
fn multiple_tool_calls_run_in_order() {
    let mut h = host(
        vec![
            LlmResponse::tool_calls(vec![
                call("t1", "add", "{\"a\":1,\"b\":2}"),
                call("t2", "add", "{\"a\":3,\"b\":4}"),
            ]),
            content("done"),
        ],
        vec![tool("add")],
        16,
    );
    h.run = |c| {
        let sum = c.input["a"].as_i64().unwrap() + c.input["b"].as_i64().unwrap();
        ToolOutcome::Done(Value::String(sum.to_string()))
    };
    let (events, _) = h.turn("add twice");
    let shown: Vec<&AgentEvent> = events
        .iter()
        .filter(|e| matches!(e, AgentEvent::ToolCall(_) | AgentEvent::ToolResult(_)))
        .collect();
    assert!(matches!(shown[0], AgentEvent::ToolCall(c) if c.name == "add"));
    assert!(matches!(shown[1], AgentEvent::ToolResult(r) if r.ok && r.output == "3"));
    assert!(matches!(shown[2], AgentEvent::ToolCall(c) if c.name == "add"));
    assert!(matches!(shown[3], AgentEvent::ToolResult(r) if r.ok && r.output == "7"));
    let fed: Vec<String> = h.llm.calls[1]
        .prompt
        .iter()
        .filter(|m| m.role == Role::Tool)
        .map(|m| fed_back(m).0)
        .collect();
    assert_eq!(fed, vec!["t1", "t2"]);
}

#[test]
fn tool_error_is_fed_back_not_fatal() {
    let mut h = host(
        vec![
            LlmResponse::tool_calls(vec![call("e1", "bad", "{\"x\":1}")]),
            content("recovered"),
        ],
        vec![tool("bad")],
        16,
    );
    h.run = |_| ToolOutcome::Failed("boom".to_string());
    let (_, done) = h.turn("try it");
    assert_eq!(done.unwrap(), "recovered");
    let (_, result, is_error) = fed_back(&h.llm.calls[1].prompt[2]);
    assert_eq!(result, Value::String("error: boom".to_string()));
    assert_eq!(is_error, Some(true));
}

#[test]
fn unknown_tool_reported_to_model() {
    let mut h = host(
        vec![LlmResponse::tool_calls(vec![call("u1", "nope", "{}")]), content("ok")],
        vec![],
        16,
    );
    let (_, done) = h.turn("call something odd");
    assert_eq!(done.unwrap(), "ok");
    let result = fed_back(&h.llm.calls[1].prompt[2]).1;
    assert!(result.as_str().unwrap().contains("unknown tool"), "{result}");
}

#[test]
fn tool_panic_is_fed_back() {
    let mut h = host(
        vec![LlmResponse::tool_calls(vec![call("p1", "boom", "{}")]), content("recovered2")],
        vec![tool("boom")],
        16,
    );
    h.run = |_| ToolOutcome::Panicked(Some("tool boom".to_string()));
    let (_, done) = h.turn("go");
    assert_eq!(done.unwrap(), "recovered2");
    let (_, result, is_error) = fed_back(&h.llm.calls[1].prompt[2]);
    assert!(result.as_str().unwrap().starts_with("error:"), "{result}");
    assert_eq!(is_error, Some(true));
}

#[test]
fn multi_turn_history_is_continuous() {
    let mut h = host(vec![content("first"), content("second")], vec![], 16);
    assert_eq!(h.driver.id().as_u64(), h.driver.session().id().as_u64());
    assert_eq!(h.turn("q1").1.unwrap(), "first");
    assert_eq!(h.turn("q2").1.unwrap(), "second");
    let seen: Vec<(Role, String)> =
        h.llm.calls[1].prompt.iter().map(|m| (m.role, message_text(m))).collect();
    assert_eq!(
        seen,
        vec![
            (Role::User, "q1".to_string()),
            (Role::Assistant, "first".to_string()),
            (Role::User, "q2".to_string()),
        ]
    );
    assert_eq!(h.messages(), 4);
}

#[test]
fn cancel_takes_effect_between_steps() {
    let mut h = host(
        vec![LlmResponse::tool_calls(vec![call("s1", "stop", "{}")]), content("never reached")],
        vec![tool("stop")],
        16,
    );
    h.cancel_after_tool = true;
    let (_, done) = h.turn("go");
    assert!(matches!(done, Err(AgentError::Stopped)));
    assert_eq!(h.llm.calls.len(), 1);
    // The next turn is not cancelled.
    h.cancel_after_tool = false;
    assert_eq!(h.turn("again").1.unwrap(), "never reached");
}

#[test]
fn cancel_interrupts_mid_stream() {
    let mut h = host(vec![content("abcdefghij")], vec![], 16);
    h.cancel_after_chunks = Some(2);
    let (events, done) = h.turn("stream");
    assert!(matches!(done, Err(AgentError::Stopped)));
    assert_eq!(spoken(&events), "abcd");
    assert_eq!(h.messages(), 0);
}

#[test]
fn max_steps_bounds_the_loop() {
    let endless: Vec<LlmResponse> = (0..10)
        .map(|i| {
            LlmResponse::tool_calls(vec![call(&format!("c{i}"), "get_weather", "{\"city\":\"x\"}")])
        })
        .collect();
    let mut h = host(endless, vec![tool("get_weather")], 3);
    let (_, done) = h.turn("run forever");
    assert!(matches!(done, Err(AgentError::MaxSteps(3))));
    assert_eq!(h.llm.calls.len(), 3);
}

#[test]
fn llm_error_terminates_turn() {
    let mut h = host(vec![], vec![], 16);
    match h.turn("hi").1 {
        Err(AgentError::Llm(e)) => assert!(e.contains("no responses left"), "{e}"),
        other => panic!("expected an error of the model, got {other:?}"),
    }
}

#[test]
fn failed_turn_rolls_back_session() {
    let mut h = host(vec![content("ok")], vec![], 16);
    assert_eq!(h.driver.status(), AgentStatus::Idle);
    h.turn("hi").1.unwrap();
    assert_eq!(h.messages(), 2);
    assert!(h.turn("nothing left").1.is_err());
    assert_eq!(h.messages(), 2);
    assert_eq!(h.driver.status(), AgentStatus::Idle);
}

#[test]
fn context_overflow_triggers_auto_compact_then_succeeds() {
    let session = Session::new(&mut SessionIds::new());
    let mut d = AgentDriver::new(session, 16, None);
    let mut next = d.followup("hi", false).next;
    assert!(matches!(next, Next::AskModel { .. }));
    assert_eq!(d.status(), AgentStatus::Running);
    // Twice the prompt is too long; each time it is asked again.
    for _ in 0..2 {
        next = d.advance(Signal::ModelFailed("context length exceeded".to_string())).next;
        assert!(matches!(next, Next::AskModel { .. }), "{next:?}");
    }
    next = d.advance(Signal::Connected).next;
    assert!(matches!(next, Next::ReadStream));
    d.advance(Signal::Chunk(Chunk::TextDelta("fine".to_string())));
    next = d.advance(Signal::Chunk(Chunk::End)).next;
    assert!(matches!(next, Next::End(Ok(s)) if s == "fine"));
}

#[test]
fn a_third_overflow_ends_the_turn() {
    let session = Session::new(&mut SessionIds::new());
    let mut d = AgentDriver::new(session, 16, None);
    d.followup("hi", false);
    let too_long = || Signal::ModelFailed("prompt is too long".to_string());
    d.advance(too_long());
    d.advance(too_long());
    let next = d.advance(too_long()).next;
    assert!(matches!(next, Next::End(Err(AgentError::Llm(_)))), "{next:?}");
}

/// A driver with so many messages, half of them the user's.
fn long_driver(messages: usize) -> AgentDriver {
    let mut session = Session::new(&mut SessionIds::new());
    for i in 0..messages {
        let text = format!("m{i}");
        session.push(if i % 2 == 0 {
            ModelMessage::user(text)
        } else {
            ModelMessage::assistant(text)
        });
    }
    AgentDriver::new(session, 16, None)
}

fn texts_of(d: &AgentDriver) -> Vec<String> {
    d.session()
        .messages()
        .iter()
        .map(|m| match &m.content {
            MessageContent::Text(t) => t.clone(),
            MessageContent::Parts(p) => format!("{p:?}"),
        })
        .collect()
}

#[test]
fn a_turn_that_fails_after_a_cut_leaves_no_trace() {
    let mut d = long_driver(50);
    d.followup("go", false);
    let too_long = || Signal::ModelFailed("prompt is too long".to_string());
    d.advance(too_long());
    assert_eq!(d.session().messages().len(), 40);
    d.advance(too_long());
    assert_eq!(texts_of(&d).last().map(String::as_str), Some("go"));
    let next = d.advance(too_long()).next;
    assert!(matches!(next, Next::End(Err(AgentError::Llm(_)))), "{next:?}");
    // Of the last eight messages one was the turn's.
    assert_eq!(texts_of(&d), vec!["m43", "m44", "m45", "m46", "m47", "m48", "m49"]);
}

#[test]
fn a_cut_from_outside_counts_for_a_failing_turn() {
    let mut d = long_driver(6);
    d.followup("go", false);
    d.advance(Signal::Connected);
    assert_eq!(d.compact("short".to_string(), 3), (7, 3));
    d.advance(Signal::Chunk(Chunk::Error("broken".to_string())));
    assert_eq!(texts_of(&d), vec!["m4", "m5"]);

    // Nothing is left where the cut took all that came before the turn.
    let mut d = long_driver(6);
    d.followup("go", false);
    d.compact("short".to_string(), 1);
    assert_eq!(texts_of(&d), vec!["go"]);
    d.advance(Signal::Refused("no".to_string()));
    assert!(texts_of(&d).is_empty());

    // A cut that takes nothing changes nothing.
    let mut d = long_driver(6);
    d.followup("go", false);
    d.compact("short".to_string(), 7);
    d.advance(Signal::Refused("no".to_string()));
    assert_eq!(d.session().messages().len(), 6);
}

#[test]
fn a_retry_is_noted() {
    assert_eq!(
        notes_on_retry(0, 51, 40),
        vec![
            "[driver] context overflow, auto-compact & retry (1/2)",
            "[driver] auto-compact: messages 51 -> 40 (kept last 40)",
        ]
    );
    assert_eq!(
        notes_on_retry(1, 40, 8),
        vec![
            "[driver] context overflow, auto-compact & retry (2/2)",
            "[driver] auto-compact: messages 40 -> 8 (kept last 8)",
        ]
    );
}

#[test]
fn driver_accumulates_llm_token_usage_from_finish() {
    let session = Session::new(&mut SessionIds::new());
    let mut d = AgentDriver::new(session, 8, None);
    d.followup("go", false);
    d.advance(Signal::Connected);
    d.advance(Signal::Chunk(Chunk::TextDelta("hi".to_string())));
    d.advance(Signal::Chunk(Chunk::Usage { input: Some(10), output: Some(5) }));
    d.advance(Signal::Chunk(Chunk::End));
    assert_eq!(d.session().tokens_used(), 15);
}

#[test]
fn pre_execute_gate_can_block_specific_tool() {
    let mut h = host(
        vec![
            LlmResponse::tool_calls(vec![call("b1", "bash", "{\"command\":\"id\"}")]),
            content("understood the block"),
        ],
        vec![tool("bash")],
        16,
    );
    h.run = |_| ToolOutcome::Done(Value::String("UNEXPECTED EXECUTION".to_string()));
    h.refused = Some(("bash", "blocked: audit forbids bash"));
    let (_, done) = h.turn("run it");
    assert_eq!(done.unwrap(), "understood the block");
    assert_eq!(h.ran, 0);
    let (_, result, is_error) = fed_back(&h.llm.calls[1].prompt[2]);
    assert!(result.as_str().unwrap().contains("blocked: audit forbids bash"), "{result}");
    assert_eq!(is_error, Some(true));
    let kept = format!("{:?}", h.driver.session().messages());
    assert!(kept.contains("blocked: audit forbids bash"), "{kept}");
    assert!(!kept.contains("UNEXPECTED EXECUTION"), "{kept}");
}

#[test]
fn post_execute_can_rewrite_result() {
    let mut h = host(
        vec![
            LlmResponse::tool_calls(vec![call("w1", "get_weather", "{\"city\":\"Rome\"}")]),
            content("got REDACTED"),
        ],
        vec![tool("get_weather")],
        16,
    );
    h.run = |_| ToolOutcome::Done(Value::String("SENSITIVE_RAW_30C".to_string()));
    h.rewrite = Some("REDACTED");
    assert_eq!(h.turn("weather now").1.unwrap(), "got REDACTED");
    assert_eq!(h.ran, 1);
    let result = fed_back(&h.llm.calls[1].prompt[2]).1;
    assert_eq!(result, Value::String("REDACTED".to_string()));
    let kept = format!("{:?}", h.driver.session().messages());
    assert!(kept.contains("REDACTED"), "{kept}");
    assert!(!kept.contains("SENSITIVE_RAW_30C"), "{kept}");
}

#[test]
fn a_step_can_be_refused_before_it_reaches_the_model() {
    let session = Session::new(&mut SessionIds::new());
    let mut d = AgentDriver::new(session, 8, None);
    d.followup("go", false);
    let next = d.advance(Signal::Refused("quiet hours".to_string())).next;
    assert!(matches!(next, Next::End(Err(AgentError::Pipeline(r))) if r == "quiet hours"));
    assert_eq!(d.session().messages().len(), 0);
}

/// What the system says in a prompt.
fn system_in(prompt: &[ModelMessage]) -> String {
    prompt.iter().filter(|m| m.role == Role::System).map(message_text).collect()
}

#[test]
fn update_persona_takes_effect_next_turn() {
    let mut h = host(vec![content("turn 1"), content("turn 2")], vec![tool("noop")], 10);
    h.driver = AgentDriver::new(
        Session::new(&mut SessionIds::new()),
        10,
        Some("v1 persona: original".to_string()),
    );
    h.turn("q1").1.unwrap();
    assert!(system_in(&h.llm.calls[0].prompt).contains("v1 persona"));
    h.driver.update_persona("v2 persona: evolved cognition".to_string());
    h.turn("q2").1.unwrap();
    let system = system_in(&h.llm.calls[1].prompt);
    assert!(system.contains("v2 persona"), "{system}");
    assert!(!system.contains("v1 persona"), "{system}");
}

#[test]
fn a_persona_can_come_with_a_later_turn() {
    let mut h = host(vec![content("a"), content("b")], vec![], 16);
    h.turn("q1").1.unwrap();
    h.driver.update_persona("be a poet".to_string());
    h.turn("q2").1.unwrap();
    assert_eq!(h.llm.calls[0].prompt[0].role, Role::User);
    assert_eq!(h.llm.calls[1].prompt[0].role, Role::System);
    assert!(message_text(&h.llm.calls[1].prompt[0]).contains("be a poet"));
}

fn system_of(session: &Session) -> String {
    system_prompt(&None, session).unwrap_or_default()
}

#[test]
fn restored_session_carries_memory_pointer() {
    let mut ids = SessionIds::new();
    let mut s = Session::new(&mut ids);
    s.push(ModelMessage::user("q1".to_string()));
    assert!(!system_of(&s).contains("记忆指针"));
    let r = Session::restore(Ok(s.persist(0)), &mut ids);
    let joined = system_of(&r);
    assert!(joined.contains("记忆指针"), "{joined}");
    assert!(joined.contains("第 2 代"), "{joined}");
    assert!(joined.contains("identity="), "{joined}");
}

#[test]
fn compacted_session_injects_summary_into_prompt() {
    let mut h = host(vec![content("a1"), content("a2"), content("a3")], vec![], 16);
    h.turn("q1").1.unwrap();
    h.turn("q2").1.unwrap();
    let (before, after) = h.driver.compact("first two turns summary".to_string(), 2);
    assert!(before > after);
    h.turn("q3").1.unwrap();
    let system = system_in(&h.llm.calls[2].prompt);
    assert!(system.contains("记忆摘要"), "{system}");
    assert!(system.contains("first two turns summary"), "{system}");
    let kept = texts_of(&h.driver);
    assert!(!kept.contains(&"q1".to_string()), "{kept:?}");
    assert!(kept.contains(&"q2".to_string()), "{kept:?}");
}

#[test]
fn an_answered_turn_keeps_every_step_in_order() {
    let mut h = host(
        vec![
            LlmResponse::tool_calls(vec![call("a", "one", "{}"), call("b", "two", "{}")]),
            LlmResponse::tool_calls(vec![call("c", "one", "{}")]),
            content("done"),
        ],
        vec![tool("one"), tool("two")],
        16,
    );
    h.run = |c| ToolOutcome::Done(Value::String(format!("out {}", c.tool_call_id)));
    h.refused = Some(("two", "no"));
    assert_eq!(h.turn("go").1.unwrap(), "done");
    let session = h.driver.session();
    let ms = session.messages();
    assert_eq!(
        roles(ms),
        vec![
            Role::User,
            Role::Assistant,
            Role::Tool,
            Role::Tool,
            Role::Assistant,
            Role::Tool,
            Role::Assistant,
        ]
    );
    let results: Vec<(String, Value)> =
        [2, 3, 5].iter().map(|i| fed_back(&ms[*i])).map(|(id, v, _)| (id, v)).collect();
    let text = |s: &str| Value::String(s.to_string());
    assert_eq!(
        results,
        vec![
            ("a".to_string(), text("out a")),
            ("b".to_string(), text("error: tool execution rejected: no")),
            ("c".to_string(), text("out c")),
        ]
    );
    assert_eq!(message_text(&ms[6]), "done");
}

#[test]
fn what_is_shown_to_hooks_has_a_name() {
    let mut d = AgentDriver::new(Session::new(&mut SessionIds::new()), 8, None);
    assert_eq!(d.followup("go", false).next.hook(), Some("agent/pre-step"));
    assert_eq!(d.advance(Signal::Connected).next.hook(), None);
    d.advance(Signal::Chunk(Chunk::ToolCall(call("a", "t", "{}"))));
    assert_eq!(d.advance(Signal::Chunk(Chunk::End)).next.hook(), Some("tools/pre-execute"));
    let next = d.advance(Signal::Guard { refusal: None, cancelled: false }).next;
    assert_eq!(next.hook(), None);
    let out = ToolOutput { ok: true, output: String::new() };
    assert_eq!(d.advance(Signal::Executed(out)).next.hook(), Some("tools/post-execute"));
}

#[test]
fn todo_injected_into_prompt() {
    let mut s = Session::new(&mut SessionIds::new());
    assert!(!system_of(&s).contains("待办"));
    s.set_todo("continue the dsh bridge work".to_string());
    let joined = system_of(&s);
    assert!(joined.contains("待办"), "{joined}");
    assert!(joined.contains("continue the dsh bridge work"), "{joined}");
}

#[test]
fn the_driver_keeps_the_session() {
    let mut h = host(vec![content("a")], vec![], 16);
    h.turn("q").1.unwrap();
    h.driver.set_todo("next".to_string());
    assert_eq!(h.driver.compact("short".to_string(), 1), (2, 1));
    let file = h.driver.persist_session(3);
    assert_eq!(file.todo.as_deref(), Some("next"));
    assert_eq!(file.summary.as_deref(), Some("short"));
    assert_eq!(file.messages.len(), 1);
}

#[test]
fn a_scripted_answer_can_come_at_once() {
    let mut llm = ScriptedLlm::new(vec![
        LlmResponse::tool_calls(vec![call("a", "bash", "{}")]).with_reasoning("hm".to_string()),
        content("text"),
    ]);
    let ask = || ScriptedCall { prompt: Vec::new(), tools: Vec::new() };
    let first = llm.do_generate(ask()).unwrap();
    assert!(first.asks_tools);
    assert!(matches!(&first.content[..], [GenerateContent::ToolCall(c)] if c.tool_name == "bash"));
    let second = llm.do_generate(ask()).unwrap();
    assert!(!second.asks_tools);
    assert!(matches!(&second.content[..], [GenerateContent::Text(s)] if s == "text"));
    assert_eq!(llm.do_generate(ask()).unwrap_err(), "ScriptedLLM has no responses left");
    assert_eq!(llm.calls.len(), 3);
}

#[test]
fn reasoning_streams_before_the_text() {
    let mut llm = ScriptedLlm::new(vec![content("12345").with_reasoning("why".to_string())]);
    let parts =
        llm.do_stream(ScriptedCall { prompt: Vec::new(), tools: Vec::new() }).unwrap();
    let shape: Vec<String> = parts
        .iter()
        .map(|p| match p {
            ScriptPart::Start => "start".to_string(),
            ScriptPart::ReasoningStart => "reasoning".to_string(),
            ScriptPart::ReasoningDelta(s) => format!("r:{s}"),
            ScriptPart::ReasoningEnd => "reasoned".to_string(),
            ScriptPart::TextDelta(s) => format!("t:{s}"),
            ScriptPart::ToolCall(c) => format!("c:{}", c.tool_name),
            ScriptPart::Finish { asks_tools } => format!("end:{asks_tools}"),
        })
        .collect();
    assert_eq!(
        shape,
        vec!["start", "reasoning", "r:why", "reasoned", "t:1234", "t:5", "end:false"]
    );
}

/// The driver of the next life: its session is what the first one wrote.
fn restarted(first: &Host, responses: Vec<LlmResponse>) -> Host {
    let mut h = host(responses, vec![], 16);
    let read = first.driver.persist_session(1);
    let session = Session::restore(Ok(read), &mut SessionIds::new());
    h.driver = AgentDriver::new(session, 16, None);
    h
}

fn system_texts(c: &ScriptedCall) -> String {
    c.prompt.iter().filter(|m| m.role == Role::System).map(message_text).collect()
}

#[test]
fn session_restored_after_driver_restart() {
    let mut h = host(vec![content("first answer"), content("second answer")], vec![], 16);
    let id1 = h.driver.id();
    h.turn("q1").1.unwrap();
    h.turn("q2").1.unwrap();
    assert_eq!(h.messages(), 4);
    assert_eq!(h.persisted, 2);

    let mut h2 = restarted(&h, vec![content("after restart")]);
    assert_eq!(h2.driver.id().as_u64(), id1.as_u64());
    assert_eq!(h2.driver.id().generation(), id1.generation() + 1);
    h2.turn("q3").1.unwrap();
    let texts: Vec<String> = h2.llm.calls[0].prompt[1..].iter().map(message_text).collect();
    assert_eq!(texts, vec!["q1", "first answer", "q2", "second answer", "q3"]);
}

#[test]
fn fresh_session_never_has_memory_pointer() {
    let mut h = host(vec![content("first"), content("second")], vec![], 16);
    h.turn("q1").1.unwrap();
    h.turn("q2").1.unwrap();
    for (i, call) in h.llm.calls.iter().enumerate() {
        let joined = system_texts(call);
        assert!(!joined.contains("记忆指针"), "{}: {joined}", i + 1);
    }
}

#[test]
fn todo_survives_restart_and_injects() {
    let mut h = host(vec![content("a1")], vec![], 16);
    h.turn("q1").1.unwrap();
    h.driver.set_todo("finish the self-todo feature".to_string());

    let mut h2 = restarted(&h, vec![content("resumed")]);
    assert_eq!(h2.driver.session().todo(), Some("finish the self-todo feature"));
    h2.turn("resume").1.unwrap();
    let joined = system_texts(&h2.llm.calls[0]);
    assert!(joined.contains("finish the self-todo feature"), "{joined}");
}

#[test]
fn cross_generation_memory_retention_keeps_facts() {
    let facts = [
        "architecture uses turn_lock mutex to serialize turns",
        "self_rollback needs version ledger with 2 entries",
        "the killer model key is 'deepseek-chat'",
        "deploy target is bare-metal on fast-deliver",
    ];
    let answers = facts.iter().map(|f| content(&format!("ok, recorded: {f}"))).collect();
    let mut h = host(answers, vec![], 16);
    for q in 1..=4 {
        h.turn(&format!("remember fact {q}")).1.unwrap();
    }

    let mut h2 = restarted(&h, vec![content("ok")]);
    assert_eq!(h2.driver.id().generation(), 2);
    h2.turn("continue").1.unwrap();
    let all: Vec<String> = h2.llm.calls[0].prompt.iter().map(message_text).collect();
    let all = all.join("\n");
    let kept = facts.iter().filter(|f| all.contains(**f)).count();
    let rate = kept as f64 / facts.len() as f64;
    assert!(rate >= 0.75, "{rate}: {all}");
    assert_eq!(kept, 4);
}

#[test]
fn events_have_names() {
    let mut h = host(
        vec![LlmResponse::tool_calls(vec![call("1", "t", "{}")]).with_reasoning("r".into()), content("x")],
        vec![tool("t")],
        16,
    );
    let (events, _) = h.turn("go");
    let names: Vec<&str> = events.iter().map(|e| e.name()).collect();
    assert_eq!(
        names,
        vec![
            "agent/reasoning",
            "agent/step",
            "agent/tool-call",
            "agent/tool-result",
            "agent/text-delta",
            "agent/step",
            "agent/turn-end",
        ]
    );
}

#[test]
fn a_whole_failed_turn_leaves_no_trace() {
    // Two calls were run and their outputs kept before the script runs out.
    let mut h = host(
        vec![
            content("before"),
            LlmResponse::tool_calls(vec![call("1", "t", "{}"), call("2", "t", "{}")]),
        ],
        vec![tool("t")],
        16,
    );
    h.turn("q1").1.unwrap();
    assert_eq!(h.messages(), 2);
    let (_, end) = h.turn("q2");
    assert!(matches!(end, Err(AgentError::Llm(_))));
    assert_eq!(h.messages(), 2);
}
