use rutis_agent::history::{sanitize_history, tool_call_ids, tool_result_ids};
use rutis_agent::message::{ContentPart, MessageContent, ModelMessage, Role};
use serde_json::Value;

fn empty() -> Value {
    serde_json::from_str("{}").unwrap()
}

fn call(id: &str, name: &str) -> ContentPart {
    ContentPart::tool_call(id.to_string(), name.to_string(), empty())
}

fn result(id: &str, text: &str) -> ContentPart {
    ContentPart::tool_result(id.to_string(), Value::String(text.to_string()))
}

fn text(s: &str) -> ContentPart {
    ContentPart::text(s.to_string())
}

fn message(role: Role, parts: Vec<ContentPart>) -> ModelMessage {
    ModelMessage { role, content: MessageContent::Parts(parts) }
}

fn user(s: &str) -> ModelMessage {
    ModelMessage::user(s.to_string())
}

fn roles(msgs: &[ModelMessage]) -> Vec<Role> {
    msgs.iter().map(|m| m.role).collect()
}

#[test]
fn sanitize_drops_orphan_tool_result_and_unpaired_call() {
    let msgs = vec![
        message(Role::Assistant, vec![text("t1"), call("A", "bash")]),
        message(Role::Assistant, vec![text("t2"), call("B", "bash")]),
        message(Role::Tool, vec![result("B", "ok")]),
        user("继续"),
        user("自主续跑"),
        // The result of A comes behind two messages of the user.
        message(Role::Tool, vec![result("A", "late")]),
    ];
    let out = sanitize_history(&msgs);
    assert_eq!(
        roles(&out),
        vec![Role::Assistant, Role::Assistant, Role::Tool, Role::User, Role::User]
    );
    let tool_ids: Vec<String> =
        out.iter().filter(|m| m.role == Role::Tool).flat_map(tool_result_ids).collect();
    assert_eq!(tool_ids, vec!["B".to_string()]);
    // The first answer has lost its call and keeps its text.
    assert!(matches!(&out[0].content, MessageContent::Parts(p) if p.len() == 1));
}

#[test]
fn sanitize_keeps_valid_tool_roundtrip() {
    let msgs = vec![
        user("hi"),
        message(Role::Assistant, vec![call("X", "bash")]),
        message(Role::Tool, vec![result("X", "done")]),
    ];
    let out = sanitize_history(&msgs);
    assert_eq!(out.len(), 3);
}

#[test]
fn sanitize_keeps_multi_call_multi_result() {
    let msgs = vec![
        message(Role::Assistant, vec![call("A", "bash"), call("B", "read")]),
        message(Role::Tool, vec![result("A", "ra")]),
        message(Role::Tool, vec![result("B", "rb")]),
    ];
    let out = sanitize_history(&msgs);
    assert_eq!(out.len(), 3);
    let calls = tool_call_ids(&out[0]);
    assert!(calls.contains(&"A".to_string()) && calls.contains(&"B".to_string()));
}

#[test]
fn sanitized_history_is_left_alone() {
    let msgs = vec![
        message(Role::Tool, vec![result("Z", "nobody asked")]),
        user("hi"),
        message(Role::Assistant, vec![text("thinking"), call("A", "bash"), call("B", "bash")]),
        message(Role::Tool, vec![result("A", "ra")]),
        user("go on"),
    ];
    let once = sanitize_history(&msgs);
    let twice = sanitize_history(&once);
    assert_eq!(format!("{once:?}"), format!("{twice:?}"));
    assert_eq!(roles(&once), vec![Role::User, Role::Assistant, Role::Tool, Role::User]);
    assert_eq!(tool_call_ids(&once[1]), vec!["A".to_string()]);
}

#[test]
fn an_answer_that_was_only_a_dangling_call_goes() {
    let msgs = vec![user("hi"), message(Role::Assistant, vec![call("A", "bash")]), user("again")];
    assert_eq!(roles(&sanitize_history(&msgs)), vec![Role::User, Role::User]);
}

#[test]
fn plain_answers_stay_and_empty_ones_go() {
    let msgs = vec![
        ModelMessage::assistant("words".to_string()),
        ModelMessage::assistant(String::new()),
        ModelMessage { role: Role::System, content: MessageContent::Text("rules".to_string()) },
    ];
    assert_eq!(roles(&sanitize_history(&msgs)), vec![Role::Assistant, Role::System]);
}

#[test]
fn stray_results_leave_the_messages_that_stay() {
    let msgs = vec![
        message(Role::Assistant, vec![call("A", "bash")]),
        message(Role::Tool, vec![result("A", "ok"), text("note"), result("Z", "stray")]),
        message(Role::Tool, vec![result("Z", "stray")]),
        message(Role::Tool, vec![text("no result at all")]),
    ];
    let out = sanitize_history(&msgs);
    assert_eq!(roles(&out), vec![Role::Assistant, Role::Tool]);
    assert_eq!(tool_call_ids(&out[0]), vec!["A".to_string()]);
    assert_eq!(tool_result_ids(&out[1]), vec!["A".to_string()]);
    let expected = message(Role::Tool, vec![result("A", "ok"), text("note")]);
    assert_eq!(format!("{:?}", out[1]), format!("{expected:?}"));
    assert_eq!(format!("{:?}", sanitize_history(&out)), format!("{out:?}"));
}

#[test]
fn a_result_of_a_call_without_an_answer_is_a_stray() {
    let msgs = vec![
        message(Role::Assistant, vec![text("t"), call("A", "bash"), call("B", "bash")]),
        message(Role::Tool, vec![result("C", "stray"), result("B", "ok")]),
    ];
    let out = sanitize_history(&msgs);
    assert_eq!(tool_call_ids(&out[0]), vec!["B".to_string()]);
    assert_eq!(tool_result_ids(&out[1]), vec!["B".to_string()]);
}
