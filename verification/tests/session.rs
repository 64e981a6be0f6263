use rutis_agent::agent::{AgentError, AgentStatus, SessionSnapshot};
use rutis_agent::message::{ContentPart, MessageContent, ModelMessage, Role};
use rutis_agent::plugin::{default_session_path, AgentDriverPlugin, TuiPlugin};
use rutis_agent::session::{tmp_path, Session, SessionFile, SessionId, SessionIds};
use serde_json::Value;

fn user(s: &str) -> ModelMessage {
    ModelMessage::user(s.to_string())
}

fn texts(s: &Session) -> Vec<String> {
    s.messages()
        .iter()
        .map(|m| match &m.content {
            MessageContent::Text(t) => t.clone(),
            _ => String::new(),
        })
        .collect()
}

#[test]
fn session_id_generation_starts_at_one() {
    let mut ids = SessionIds::new();
    let id = SessionId::next(&mut ids);
    assert_eq!(id.generation(), 1);
    assert!(id.as_u64() > 0);
}

#[test]
fn session_id_fields_accessible() {
    let mut ids = SessionIds::new();
    let id = SessionId::next(&mut ids);
    let _ = (id.identity(), id.generation(), id.as_u64());
}

#[test]
fn identities_differ_from_session_to_session() {
    let mut ids = SessionIds::new();
    let a = SessionId::next(&mut ids);
    let b = SessionId::next(&mut ids);
    assert_ne!(a.as_u64(), b.as_u64());
    assert_eq!(a.identity(), a.as_u64());
}

#[test]
fn session_truncate_to_rolls_back() {
    let mut s = Session::new(&mut SessionIds::new());
    for i in 0..10 {
        s.push(user(&format!("m{i}")));
    }
    s.truncate_to(4);
    assert_eq!(s.messages().len(), 4);
    s.truncate_to(8); // more than there is: nothing changes
    assert_eq!(s.messages().len(), 4);
}

#[test]
fn session_sanitize_repair() {
    let mut s = Session::new(&mut SessionIds::new());
    s.push(user("hi"));
    s.push(ModelMessage {
        role: Role::Assistant,
        content: MessageContent::Parts(vec![ContentPart::tool_call(
            "A".to_string(),
            "bash".to_string(),
            serde_json::from_str("{}").unwrap(),
        )]),
    });
    s.push(ModelMessage {
        role: Role::Tool,
        content: MessageContent::Parts(vec![ContentPart::tool_result(
            "A".to_string(),
            Value::String("ok".into()),
        )]),
    });
    // Nobody asked for B.
    s.push(ModelMessage {
        role: Role::Tool,
        content: MessageContent::Parts(vec![ContentPart::tool_result(
            "B".to_string(),
            Value::String("late".into()),
        )]),
    });
    // Messages at the end that were never answered.
    s.push(user("续跑1"));
    s.push(user("续跑2"));

    let (before, after) = s.sanitize();
    assert_eq!(before, 6);
    assert_eq!(after, 3);
    let roles: Vec<Role> = s.messages().iter().map(|m| m.role).collect();
    assert_eq!(roles, vec![Role::User, Role::Assistant, Role::Tool]);
}

#[test]
fn session_persist_roundtrip() {
    let mut ids = SessionIds::new();
    let mut s = Session::new(&mut ids);
    let id = s.id();
    assert_eq!(id.generation(), 1);
    s.push(user("hello"));
    s.push(ModelMessage {
        role: Role::Assistant,
        content: MessageContent::Text("hi".to_string()),
    });
    let file = s.persist(77);
    assert_eq!(file.version, 1);
    assert_eq!(file.saved_at_ms, 77);

    let r = Session::restore(Ok(file), &mut ids);
    assert_eq!(r.id().as_u64(), id.as_u64());
    assert_eq!(r.id().generation(), id.generation() + 1);
    assert_eq!(r.messages().len(), 2);
    assert_eq!(r.messages()[0].role, Role::User);
    assert_eq!(r.messages()[1].role, Role::Assistant);
}

#[test]
fn corrupt_file_starts_fresh() {
    let mut ids = SessionIds::new();
    let s = Session::restore(Err("expected ident at line 1 column 2".to_string()), &mut ids);
    assert_eq!(s.messages().len(), 0);
    assert!(s.id().as_u64() > 0);
}

#[test]
fn missing_file_starts_fresh() {
    let mut ids = SessionIds::new();
    let s = Session::restore(Err("absent.json: no such file".to_string()), &mut ids);
    assert_eq!(s.messages().len(), 0);
}

fn file(version: u32) -> SessionFile {
    SessionFile {
        version,
        id: 1,
        generation: 1,
        messages: Vec::new(),
        summary: None,
        todo: None,
        tokens_used: 0,
        saved_at_ms: 0,
    }
}

#[test]
fn unsupported_version_starts_fresh() {
    let s = Session::restore(Ok(file(99)), &mut SessionIds::new());
    assert_eq!(s.messages().len(), 0);
    assert_eq!(s.id().generation(), 1);
    assert_eq!(
        Session::try_restore(file(99)).err().as_deref(),
        Some("unsupported session file version 99 (expected 1)")
    );
}

#[test]
fn generation_stops_at_its_largest_value() {
    let mut f = file(1);
    f.generation = u32::MAX;
    let s = Session::try_restore(f).unwrap();
    assert_eq!(s.id().generation(), u32::MAX);
}

#[test]
fn session_compact_trims_and_keeps_summary() {
    let mut ids = SessionIds::new();
    let mut s = Session::new(&mut ids);
    for i in 0..10 {
        s.push(user(&format!("q{i}")));
        s.push(ModelMessage {
            role: Role::Assistant,
            content: MessageContent::Text(format!("a{i}")),
        });
    }
    assert_eq!(s.messages().len(), 20);

    let (before, after) = s.compact("early chat summary".to_string(), 4);
    assert_eq!(before, 20);
    assert_eq!(after, 4);
    assert_eq!(s.summary(), Some("early chat summary"));
    assert_eq!(texts(&s), vec!["q8", "a8", "q9", "a9"]);

    let r = Session::restore(Ok(s.persist(0)), &mut ids);
    assert_eq!(r.summary(), Some("early chat summary"));
    assert_eq!(r.messages().len(), 4);
}

#[test]
fn session_todo_roundtrip() {
    let mut ids = SessionIds::new();
    let mut s = Session::new(&mut ids);
    s.push(user("q1"));
    s.set_todo("finish the hotplug integration".to_string());

    let r = Session::restore(Ok(s.persist(0)), &mut ids);
    assert_eq!(r.todo(), Some("finish the hotplug integration"));
    assert_eq!(r.messages().len(), 1);
}

#[test]
fn an_empty_todo_clears_it() {
    let mut s = Session::new(&mut SessionIds::new());
    s.set_todo("x".to_string());
    assert_eq!(s.todo(), Some("x"));
    s.set_todo(String::new());
    assert_eq!(s.todo(), None);
}

#[test]
fn compact_information_fidelity_keeps_key_facts_via_summary() {
    let mut s = Session::new(&mut SessionIds::new());
    let facts = [
        "secret_api_key = sk-proj-alpha-2026",
        "deploy_script_at = /opt/rutis/deploy.sh",
        "consensus on port 8443 for the new service",
        "turn_lock serializes concurrent followup turns",
        "auth uses JWT with 8h expiry, refresh token 30d",
    ];
    for (i, f) in facts.iter().enumerate() {
        s.push(user(&format!("fact {i}: {f}")));
        s.push(ModelMessage::assistant(format!("noted fact {i}")));
    }
    s.push(user("recent q"));
    s.push(ModelMessage::assistant("recent a".to_string()));

    let high_quality_summary = format!(
        "早前关键信息: {} | {} | {} | {} | {}",
        facts[0], facts[1], facts[2], facts[3], facts[4]
    );
    let (before, after) = s.compact(high_quality_summary, 2);
    assert!(after < before, "{before} -> {after}");
    assert_eq!(s.messages().len(), 2);

    let summarized = s.summary().unwrap_or_default();
    let kept = facts.iter().filter(|f| summarized.contains(**f)).count();
    let fidelity = kept as f64 / facts.len() as f64;
    assert_eq!(fidelity, 1.0, "{summarized}");

    let (_, _) =
        s.compact("（早期对话因超出模型上下文窗口被自动裁剪,细节不可恢复）".to_string(), 2);
    let tmpl = s.summary().unwrap_or_default();
    let kept_t = facts.iter().filter(|f| tmpl.contains(**f)).count();
    assert_eq!(kept_t, 0);
}

#[test]
fn tokens_used_accumulates_and_survives_restart() {
    let mut ids = SessionIds::new();
    let mut s = Session::new(&mut ids);
    assert_eq!(s.tokens_used(), 0);
    s.add_tokens(100);
    s.add_tokens(250);
    assert_eq!(s.tokens_used(), 350);
    s.add_tokens(u64::MAX - 340);
    assert_eq!(s.tokens_used(), u64::MAX);

    let r = Session::restore(Ok(s.persist(0)), &mut ids);
    assert_eq!(r.tokens_used(), u64::MAX);
}

#[test]
fn snapshots_hold_what_the_session_holds() {
    let mut s = Session::new(&mut SessionIds::new());
    s.push(user("q"));
    s.set_todo("t".to_string());
    s.add_tokens(9);
    let snap = SessionSnapshot::new(&s);
    assert_eq!(snap.id().as_u64(), s.id().as_u64());
    assert_eq!(snap.messages().len(), 1);
    assert_eq!(snap.todo(), Some("t"));
    assert_eq!(snap.summary(), None);
    assert_eq!(snap.tokens_used(), 9);
    assert_eq!(format!("{:?}", snap.persist(5)), format!("{:?}", s.persist(5)));
}

#[test]
fn statuses_and_errors_have_names() {
    assert_eq!(AgentStatus::from_usize(AgentStatus::Running.as_usize()), AgentStatus::Running);
    assert_eq!(AgentStatus::from_usize(AgentStatus::Idle.as_usize()), AgentStatus::Idle);
    assert_eq!(AgentStatus::Idle.name(), "Idle");
    assert!(AgentError::MaxSteps(3).message().contains('3'));
    assert!(AgentError::Llm("boom".to_string()).message().contains("boom"));
    assert!(AgentError::Pipeline("no".to_string()).message().contains("no"));
    assert!(!AgentError::Stopped.message().is_empty());
}

#[test]
fn a_file_is_written_beside_its_place() {
    let tmp = tmp_path("/x/session.json");
    assert_ne!(tmp, "/x/session.json");
    assert!(tmp.starts_with("/x/session"), "{tmp}");
}

#[test]
fn the_session_of_a_person_lies_below_the_working_directory() {
    assert_eq!(default_session_path(Some("/home/a")), "/home/a/.rutis/session.json");
    assert_eq!(default_session_path(None), "./.rutis/session.json");
    assert_eq!(default_session_path(Some("/")), "/.rutis/session.json");
}

#[test]
fn a_driver_is_put_together_step_by_step() {
    let plain = AgentDriverPlugin::default();
    assert_eq!(plain.max_steps, 16);
    assert!(plain.system_prompt.is_none() && plain.session_path.is_none());

    let mut ids = SessionIds::new();
    let mut old = Session::new(&mut ids);
    old.push(user("before"));
    let kept = AgentDriverPlugin::new(8)
        .with_system_prompt("be brief".to_string())
        .with_default_session_path(Some("/w"));
    assert_eq!(kept.session_path.as_deref(), Some("/w/.rutis/session.json"));
    let driver = kept.driver(Ok(old.persist(1)), &mut ids);
    assert_eq!(driver.session().messages().len(), 1);
    assert_eq!(driver.id().generation(), 2);

    // Without a path nothing is taken up again.
    let driver = AgentDriverPlugin::new(8).driver(Ok(old.persist(1)), &mut ids);
    assert_eq!(driver.session().messages().len(), 0);
    assert_eq!(driver.status(), AgentStatus::Idle);

    let tui = TuiPlugin::new().with_intro(vec!["hello".to_string()]);
    assert_eq!(tui.intro, vec!["hello".to_string()]);
}
