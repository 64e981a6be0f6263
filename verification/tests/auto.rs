use rutis_agent::auto::{SelfDriven, WorkspaceSnapshot};
use rutis_agent::events::AgentTurnEnd;
use rutis_agent::session::{SessionId, SessionIds};

fn ws(dirty_count: usize, head_count: usize) -> WorkspaceSnapshot {
    WorkspaceSnapshot { dirty_count, head_count }
}

fn end(ok: bool, error: &str) -> AgentTurnEnd {
    let session = SessionId::next(&mut SessionIds::new());
    AgentTurnEnd { session, ok, error: error.to_string() }
}

#[test]
fn the_workspace_is_read_from_what_git_prints() {
    let w = WorkspaceSnapshot::read(Some(" M a.rs\n?? b.rs\n\n"), Some("42\n"));
    assert_eq!(w, ws(2, 42));
    assert_eq!(WorkspaceSnapshot::read(None, Some("what")), ws(0, 0));
    let printed = b" M \xff.rs\n?? b.rs\n".to_vec();
    assert_eq!(WorkspaceSnapshot::read_output(Some(&printed), Some(&b"7\n".to_vec())), ws(2, 7));
    assert_eq!(WorkspaceSnapshot::read_output(None, None), ws(0, 0));
    assert!(w.progress(&ws(2, 41)));
    assert!(!w.progress(&ws(2, 42)));
}

#[test]
fn self_activates_without_todo() {
    let mut d = SelfDriven::new(ws(0, 1));
    assert!(d.has_room());
    let a = d.call(&end(true, ""), 2, ws(1, 1));
    assert_eq!(a.n, 1);
    assert_eq!(a.wait_ms, 200);
    let said = a.input(None);
    assert!(said.contains("自主激活 #1"), "{said}");
    assert!(said.contains("最近观察: (no prior observations)。"), "{said}");
    assert_eq!(a.input(Some("write docs")), "(自主续跑 #1) 继续待办: write docs");
    // What a turn brought is told with the turn after the next.
    let a = d.call(&end(true, ""), 4, ws(1, 1));
    assert_eq!(a.n, 2);
    assert_eq!(a.wait_ms, 200);
    assert!(a.input(None).contains("最近观察: ok+progress(msgs=2)。"));
    let a = d.call(&end(false, "boom"), 4, ws(1, 1));
    assert_eq!(a.wait_ms, 400);
    assert_eq!(a.summary, "ok+progress(msgs=2) | ok(msgs=4)");
    assert_eq!(d.observation_summary(), "ok+progress(msgs=2) | ok(msgs=4) | fail(boom)");
}

#[test]
fn waits_grow_with_failures_and_shrink_with_progress() {
    let mut d = SelfDriven::new(ws(0, 0));
    let base = d.activate().wait_ms;
    for _ in 0..2 {
        d.turn_ended(&end(false, "boom"), 0, ws(0, 0));
        assert_eq!(d.activate().wait_ms, base);
    }
    d.turn_ended(&end(false, "boom"), 0, ws(0, 0));
    assert_eq!(d.activate().wait_ms, base * 2);
    for _ in 0..40 {
        d.turn_ended(&end(false, "boom"), 0, ws(0, 0));
    }
    let longest = d.activate().wait_ms;
    d.turn_ended(&end(false, "boom"), 0, ws(0, 0));
    assert_eq!(d.activate().wait_ms, longest);
    d.turn_ended(&end(true, ""), 3, ws(1, 0));
    assert_eq!(d.activate().wait_ms, longest / 2);
    for i in 0..40 {
        d.turn_ended(&end(true, ""), 3, ws(1, i + 1));
    }
    assert_eq!(d.activate().wait_ms, base);
    // Nothing changed: a step longer.
    d.turn_ended(&end(true, ""), 3, ws(1, 40));
    assert_eq!(d.activate().wait_ms, base * 2);
}

#[test]
fn only_the_latest_turns_are_remembered() {
    let mut d = SelfDriven::new(ws(0, 0));
    assert_eq!(d.observation_summary(), "(no prior observations)");
    d.observe(&end(false, &"x".repeat(100)), 0, false);
    assert_eq!(d.observation_summary(), format!("fail({})", "x".repeat(40)));
    for i in 0..50 {
        d.observe(&end(true, ""), i, false);
    }
    let s = d.observation_summary();
    assert!(!s.contains("fail"), "{s}");
    assert!(s.ends_with("ok(msgs=49)"), "{s}");
}

#[test]
fn a_longer_wait_is_noted() {
    let mut d = SelfDriven::new(ws(0, 0));
    assert_eq!(
        d.call(&end(true, ""), 1, ws(0, 0)).note.as_deref(),
        Some("[self-driven] no workspace progress, backoff → 400ms (still alive)")
    );
    assert_eq!(d.turn_ended(&end(true, ""), 1, ws(1, 0)), None);
    assert_eq!(d.turn_ended(&end(false, "e"), 1, ws(1, 0)), None);
    assert_eq!(d.turn_ended(&end(false, "e"), 1, ws(1, 0)), None);
    assert_eq!(
        d.turn_ended(&end(false, "e"), 1, ws(1, 0)).as_deref(),
        Some("[self-driven] fail streak 3, backoff → 400ms (still alive)")
    );
}
