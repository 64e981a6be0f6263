use ratatui::buffer::Buffer;
use ratatui::style::Style;
use rutis_agent::events::{AgentEvent, AgentStepEvent, AgentToolCall, AgentToolResult};
use rutis_agent::session::{SessionId, SessionIds};
use rutis_agent::tui::app::{
    ui_cmd, App, Key, KeyCode, Mouse, ThreadMsg, Todo, UiCmd, CONTROL, SHIFT,
};
use rutis_agent::tui::selection::{
    base64_encode, clipboard_sequence, conv_point, gather, next_column, selection_rows,
    selection_text, Rect, Selection,
};
use rutui_core::scrollback::block::RenderBlock;
use rutui_core::scrollback::blocks::ToolCallBlock;
use rutui_core::scrollback::EntryId;

/// What a block shows, in short.
fn label(block: &RenderBlock) -> String {
    match block {
        RenderBlock::AgentMessage(m) => format!("agent({})", m.text()),
        RenderBlock::ToolCall(ToolCallBlock::Other(t)) => {
            let out = t.output.as_deref().map(|o| format!(",out={o}")).unwrap_or_default();
            let err = t.error.as_deref().map(|e| format!(",err={e}")).unwrap_or_default();
            format!("tool({},{}{out}{err})", t.name, t.summary)
        }
        RenderBlock::UserPrompt(u) => format!("user({})", u.text),
        RenderBlock::System(_) => "system".to_string(),
        other => format!("{other:?}"),
    }
}

fn app() -> App {
    App::new(&Vec::new())
}

fn labels(app: &App) -> Vec<String> {
    (0..app.scrollback.len())
        .filter_map(|i| app.scrollback.get(i).map(|e| label(&e.block)))
        .collect()
}

fn blocks(app: &App) -> Vec<RenderBlock> {
    (0..app.scrollback.len())
        .filter_map(|i| app.scrollback.get(i).map(|e| e.block.clone()))
        .collect()
}

fn text(s: &str) -> UiCmd {
    UiCmd::TextDelta(s.into())
}

fn thought(s: &str) -> UiCmd {
    UiCmd::ReasoningDelta(s.into())
}

fn tool_call(name: &str, args: &str) -> UiCmd {
    UiCmd::ToolCall { name: name.into(), args: args.into() }
}

fn tool_result(name: &str, ok: bool, output: &str) -> UiCmd {
    UiCmd::ToolResult { name: name.into(), ok, output: output.into() }
}

fn turn_end() -> UiCmd {
    UiCmd::TurnEnd { ok: true, error: String::new() }
}

#[test]
fn text_and_tool_calls_interleave_in_order() {
    let mut app = app();
    app.submit("hello");
    app.on_ui_cmd(text("I'll check "));
    app.on_ui_cmd(text("the weather"));
    app.on_ui_cmd(tool_call("get_weather", "city=Oslo"));
    app.on_ui_cmd(tool_result("get_weather", true, "18°"));
    app.on_ui_cmd(tool_call("get_weather", "city=Bergen"));
    app.on_ui_cmd(tool_result("get_weather", false, "timeout"));
    app.on_ui_cmd(text("Final answer."));
    app.on_ui_cmd(turn_end());
    assert_eq!(
        labels(&app),
        vec![
            "user(hello)".to_string(),
            "agent(I'll check the weather)".to_string(),
            "tool(get_weather,city=Oslo,out=18°)".to_string(),
            "tool(get_weather,city=Bergen,err=timeout)".to_string(),
            "agent(Final answer.)".to_string(),
        ]
    );
}

#[test]
fn plain_text_turn_is_single_block() {
    let mut app = app();
    app.submit("hi");
    app.on_ui_cmd(text("Hello "));
    app.on_ui_cmd(text("world"));
    app.on_ui_cmd(turn_end());
    assert_eq!(labels(&app), vec!["user(hi)".to_string(), "agent(Hello world)".to_string()]);
}

#[test]
fn failed_turn_emits_session_event() {
    let mut app = app();
    app.submit("hi");
    app.on_ui_cmd(text("partial"));
    app.on_ui_cmd(UiCmd::TurnEnd { ok: false, error: "boom".into() });
    let shown = labels(&app);
    assert_eq!(shown.len(), 3);
    assert_eq!(shown[0], "user(hi)");
    assert_eq!(shown[1], "agent(partial)");
    let last = app.scrollback.last().expect("session event pushed").block.clone();
    assert!(matches!(last, RenderBlock::SessionEvent(_)));
    assert!(!app.running);
}

#[test]
fn tool_result_merged_into_block() {
    let mut app = app();
    app.submit("hi");
    app.on_ui_cmd(tool_call("get_weather", "city=Oslo"));
    let id = app.active.tool.expect("active.tool should be set after ToolCall");
    app.on_ui_cmd(tool_result("get_weather", true, "18° clear"));
    app.on_ui_cmd(turn_end());
    let entry = app.scrollback.get_by_id(EntryId::new(id)).expect("tool entry should exist");
    let merged = match &entry.block {
        RenderBlock::ToolCall(ToolCallBlock::Other(t)) => {
            t.output.as_deref() == Some("18° clear") && t.name == "get_weather"
        }
        _ => false,
    };
    assert!(merged, "tool result not merged into the original block");
    assert!(!entry.is_running);
}

#[test]
fn a_tool_keeps_the_time_at_which_it_began() {
    let mut app = app();
    app.on_ui_cmd(tool_call("slow", "x"));
    let id = app.active.tool.unwrap();
    let began = |app: &App| match &app.scrollback.get_by_id(EntryId::new(id)).unwrap().block {
        RenderBlock::ToolCall(ToolCallBlock::Other(t)) => t.started_at,
        other => panic!("{other:?}"),
    };
    let before = began(&app);
    assert!(before.is_some());
    app.on_ui_cmd(tool_result("slow", true, "done"));
    assert_eq!(began(&app), before);
    assert_eq!(app.active.tool, None);
    // A result that nobody waits for changes nothing.
    app.on_ui_cmd(tool_result("slow", true, "again"));
    assert_eq!(labels(&app), vec!["tool(slow,x,out=done)".to_string()]);
}

#[test]
fn reasoning_rendered_before_text() {
    let mut app = app();
    app.submit("hi");
    app.on_ui_cmd(thought("让我"));
    app.on_ui_cmd(thought("想想"));
    app.on_ui_cmd(text("答案是42"));
    app.on_ui_cmd(turn_end());
    let blocks = blocks(&app);
    assert_eq!(blocks.len(), 3, "expected user/thinking/agent blocks");
    assert!(matches!(blocks[0], RenderBlock::UserPrompt(_)));
    assert!(matches!(blocks[1], RenderBlock::Thinking(_)));
    assert!(matches!(blocks[2], RenderBlock::AgentMessage(_)));
    let thinking = match &blocks[1] {
        RenderBlock::Thinking(t) => t,
        other => panic!("expected thinking block, got {other:?}"),
    };
    assert_eq!(thinking.text(), "让我想想");
}

#[test]
fn second_turn_text_is_separate_block() {
    let mut app = app();
    app.submit("q1");
    app.on_ui_cmd(thought("思考1"));
    app.on_ui_cmd(text("答案1"));
    app.on_ui_cmd(turn_end());
    app.submit("q2");
    app.on_ui_cmd(thought("思考2"));
    app.on_ui_cmd(text("答案2"));
    app.on_ui_cmd(turn_end());
    let blocks = blocks(&app);
    assert_eq!(blocks.len(), 6, "expected 2 turns each with user/thinking/agent");
    let last = match &blocks[5] {
        RenderBlock::AgentMessage(a) => a,
        other => panic!("expected agent block for turn 2, got {other:?}"),
    };
    assert_eq!(last.text(), "答案2");
    let first_agent = match &blocks[2] {
        RenderBlock::AgentMessage(a) => a,
        other => panic!("expected agent block for turn 1, got {other:?}"),
    };
    assert_eq!(first_agent.text(), "答案1");
}

#[test]
fn full_reasoning_tool_text_sequence() {
    let mut app = app();
    app.submit("q");
    app.on_ui_cmd(thought("思考1"));
    app.on_ui_cmd(tool_call("get_weather", "city=Oslo"));
    app.on_ui_cmd(tool_result("get_weather", true, "18° clear"));
    app.on_ui_cmd(thought("思考2"));
    app.on_ui_cmd(text("最终答案"));
    app.on_ui_cmd(turn_end());
    let blocks = blocks(&app);
    assert_eq!(blocks.len(), 5, "expected 5 blocks, got {}", blocks.len());
    assert!(matches!(blocks[0], RenderBlock::UserPrompt(_)));
    assert!(matches!(blocks[1], RenderBlock::Thinking(_)));
    assert!(matches!(blocks[2], RenderBlock::ToolCall(_)));
    assert!(matches!(blocks[3], RenderBlock::Thinking(_)));
    assert!(matches!(blocks[4], RenderBlock::AgentMessage(_)));
}

#[test]
fn interleaved_reasoning_does_not_fragment_agent() {
    let mut app = app();
    app.submit("奥斯陆今天天气怎么样请详细描述一下");
    let chunks = |s: &str| {
        let cs: Vec<char> = s.chars().collect();
        cs.chunks(4).map(|c| c.iter().collect::<String>()).collect::<Vec<_>>()
    };
    let reason1 = "用户想知道天气。我需要先查一下奥斯陆的天气,调用 get_weather 工具。";
    let reason2 = "工具已返回,现在直接回答用户。";
    let content =
        "奥斯陆今天 18 度,晴。较长的中文文本——用来验证 TUI 的 流式渲染与按显示宽度折行。";
    for d in chunks(reason1) {
        app.on_ui_cmd(UiCmd::ReasoningDelta(d));
    }
    app.on_ui_cmd(tool_call("get_weather", "{\"city\":\"Oslo\"}"));
    app.on_ui_cmd(tool_result("get_weather", true, "18°C sunny"));
    for d in chunks(reason2) {
        app.on_ui_cmd(UiCmd::ReasoningDelta(d));
    }
    let cc = chunks(content);
    let n = cc.len();
    for (i, d) in cc.iter().enumerate() {
        if i == n / 2 {
            app.on_ui_cmd(thought("补充思考"));
        }
        app.on_ui_cmd(UiCmd::TextDelta(d.clone()));
    }
    app.on_ui_cmd(turn_end());
    let blocks = blocks(&app);
    let agents: Vec<&RenderBlock> =
        blocks.iter().filter(|b| matches!(b, RenderBlock::AgentMessage(_))).collect();
    assert_eq!(agents.len(), 1);
    let agent_text = match agents[0] {
        RenderBlock::AgentMessage(a) => a.text(),
        _ => unreachable!(),
    };
    assert_eq!(agent_text, content);
}

#[test]
fn code_comes_word_for_word_however_it_is_cut() {
    let code = "Use `ls -l` or:\n```sh\nls ~/src | head\n```\nand ``x`y`` ~~old~~ done.";
    for width in [1, 2, 3, 5, 100] {
        let mut app = app();
        let cs: Vec<char> = code.chars().collect();
        for piece in cs.chunks(width) {
            app.on_ui_cmd(UiCmd::TextDelta(piece.iter().collect()));
            app.on_ui_cmd(UiCmd::ReasoningDelta(piece.iter().collect()));
        }
        app.on_ui_cmd(turn_end());
        let shown: Vec<String> = blocks(&app)
            .iter()
            .map(|b| match b {
                RenderBlock::AgentMessage(a) => format!("agent:{}", a.text()),
                RenderBlock::Thinking(t) => format!("thinking:{}", t.text()),
                other => format!("{other:?}"),
            })
            .collect();
        assert_eq!(shown, vec![format!("agent:{code}"), format!("thinking:{code}")]);
    }
}

#[test]
fn tabs_are_widened_and_what_follows_is_kept() {
    let mut app = app();
    app.on_ui_cmd(text("a\tb"));
    app.on_ui_cmd(text(" c"));
    app.on_ui_cmd(turn_end());
    assert_eq!(labels(&app), vec!["agent(a    b c)".to_string()]);
}

#[test]
fn a_result_between_pieces_opens_nothing() {
    let mut app = app();
    app.on_ui_cmd(tool_call("bash", "ls"));
    app.selection = Some(Selection { start: (1, 1), end: (2, 2) });
    app.on_ui_cmd(text("one "));
    assert!(app.selection.is_none());
    app.on_ui_cmd(thought("why "));
    app.on_ui_cmd(tool_result("bash", true, "files"));
    app.on_ui_cmd(text("two"));
    app.on_ui_cmd(thought("not"));
    // A result that nobody waits for is nothing.
    app.on_ui_cmd(tool_result("bash", true, "late"));
    assert_eq!(app.scrollback.len(), 3);
    app.on_ui_cmd(turn_end());
    let all = blocks(&app);
    assert_eq!(label(&all[0]), "tool(bash,ls,out=files)");
    assert_eq!(label(&all[1]), "agent(one two)");
    assert!(matches!(&all[2], RenderBlock::Thinking(t) if t.text() == "why not"));
    // Behind the end of the turn text and reasoning begin anew.
    app.on_ui_cmd(text("next"));
    app.on_ui_cmd(thought("more"));
    assert_eq!(app.scrollback.len(), 5);
}

#[test]
fn text_is_whole_wherever_lines_and_blanks_are_cut() {
    let mut app = app();
    for piece in ["a\n", "  ", "b", "", "\n\n   ", "- c\n", "    d "] {
        app.on_ui_cmd(text(piece));
    }
    app.on_ui_cmd(turn_end());
    assert_eq!(labels(&app), vec!["agent(a\n  b\n\n   - c\n    d )".to_string()]);
}

#[test]
fn the_intro_stands_above_the_conversation() {
    let mut app = App::new(&vec!["one".to_string(), "two".to_string()]);
    assert!(app.has_room());
    app.submit("hi");
    assert_eq!(labels(&app), vec!["system", "system", "user(hi)"]);
    assert_eq!(app.blocks, 3);
    assert!(app.running);
}

#[test]
fn events_become_commands() {
    let session = SessionId::next(&mut SessionIds::new());
    let e = AgentEvent::ToolCall(AgentToolCall {
        session,
        name: "bash".into(),
        args: serde_json::from_str("{\"command\": \"ls\"}").unwrap(),
    });
    assert!(matches!(ui_cmd(&e), Some(UiCmd::ToolCall { name, args })
        if name == "bash" && args == "{\"command\":\"ls\"}"));
    let e = AgentEvent::ToolResult(AgentToolResult {
        session,
        name: "bash".into(),
        ok: false,
        output: "no".into(),
    });
    assert!(matches!(ui_cmd(&e), Some(UiCmd::ToolResult { ok: false, output, .. })
        if output == "no"));
    let e = AgentEvent::Step(AgentStepEvent { session, step: 1, content: None, tool_calls: 0 });
    assert!(ui_cmd(&e).is_none());
}

fn key(code: KeyCode, modifiers: u8) -> Key {
    Key { code, modifiers }
}

#[test]
fn keys_do_what_they_are_for() {
    let mut app = app();
    app.selection = Some(Selection { start: (0, 0), end: (1, 0) });
    assert!(matches!(app.handle_key(key(KeyCode::Char('q'), CONTROL), ""), Todo::Quit));
    assert_eq!(app.selection, None);
    assert!(matches!(app.handle_key(key(KeyCode::Char('c'), CONTROL), ""), Todo::Quit));
    assert!(matches!(app.handle_key(key(KeyCode::Char('c'), 0), ""), Todo::Edit));
    assert!(matches!(app.handle_key(key(KeyCode::Esc, SHIFT), ""), Todo::Cancel));
    assert!(matches!(app.handle_key(key(KeyCode::Enter, 0), "  \n "), Todo::Nothing));
    assert!(matches!(app.handle_key(key(KeyCode::Enter, SHIFT), "x"), Todo::Edit));
    assert!(matches!(app.handle_key(key(KeyCode::PageUp, 0), ""), Todo::PageUp));
    assert!(matches!(app.handle_key(key(KeyCode::PageDown, CONTROL), ""), Todo::PageDown));
    assert!(matches!(app.handle_key(key(KeyCode::Up, SHIFT), ""), Todo::ScrollUp(3)));
    assert!(matches!(app.handle_key(key(KeyCode::Down, SHIFT), ""), Todo::ScrollDown(3)));
    assert!(matches!(app.handle_key(key(KeyCode::Up, 0), ""), Todo::Edit));
    assert!(app.status_line().contains("idle"));
    match app.handle_key(key(KeyCode::Enter, 0), "  hi there \n") {
        Todo::Submit(t) => assert_eq!(t, "hi there"),
        other => panic!("{other:?}"),
    }
    assert_eq!(labels(&app), vec!["user(hi there)"]);
    // While a turn goes on, nothing is sent, and control-c cancels.
    assert!(app.status_line().contains("running"));
    assert!(matches!(app.handle_key(key(KeyCode::Enter, 0), "more"), Todo::Nothing));
    assert!(matches!(app.handle_key(key(KeyCode::Char('c'), CONTROL), ""), Todo::Cancel));
    assert_eq!(labels(&app).len(), 1);
}

#[test]
fn messages_reach_the_screen() {
    let mut app = app();
    let k = key(KeyCode::Char('q'), CONTROL);
    let released = ThreadMsg::Key { key: k, press: false, prompt: String::new() };
    assert!(matches!(app.on_msg(released), Todo::Nothing));
    let pressed = ThreadMsg::Key { key: k, press: true, prompt: String::new() };
    assert!(matches!(app.on_msg(pressed), Todo::Quit));
    assert!(matches!(app.on_msg(ThreadMsg::Timeout), Todo::Nothing));
    assert!(matches!(app.on_msg(ThreadMsg::Disconnected), Todo::Quit));
    assert!(matches!(app.on_msg(ThreadMsg::Cancel), Todo::Quit));
    assert!(matches!(app.on_msg(ThreadMsg::Ui(text("x"))), Todo::Nothing));
    assert_eq!(labels(&app), vec!["agent(x)"]);
}

#[test]
fn the_mouse_marks_and_drops() {
    let mut app = app();
    app.conv_area = Rect { x: 0, y: 0, width: 10, height: 5 };
    assert!(matches!(app.handle_mouse(Mouse::Down, 20, 1), Todo::Nothing));
    assert_eq!(app.selection, None);
    app.handle_mouse(Mouse::Down, 2, 1);
    assert_eq!(app.selection, Some(Selection { start: (2, 1), end: (2, 1) }));
    // Released where it was pressed.
    assert!(matches!(app.handle_mouse(Mouse::Up, 2, 1), Todo::Nothing));
    assert_eq!(app.selection, None);
    app.handle_mouse(Mouse::Down, 2, 1);
    app.handle_mouse(Mouse::Drag, 4, 2);
    app.handle_mouse(Mouse::Drag, 40, 2);
    assert_eq!(app.selection, Some(Selection { start: (2, 1), end: (4, 2) }));
    assert!(matches!(app.handle_mouse(Mouse::Up, 0, 0), Todo::Copy));
    assert!(app.selection.is_some());
    assert!(matches!(app.handle_mouse(Mouse::ScrollUp, 0, 0), Todo::ScrollUp(3)));
    assert_eq!(app.selection, None);
    assert!(matches!(app.handle_mouse(Mouse::Other, 0, 0), Todo::Nothing));
    assert!(matches!(app.handle_mouse(Mouse::ScrollDown, 0, 0), Todo::ScrollDown(3)));
}

fn area(x: u16, y: u16, width: u16, height: u16) -> Rect {
    Rect { x, y, width, height }
}

#[test]
fn selection_rows_single_and_multi_line() {
    let area = area(0, 0, 10, 5);
    assert_eq!(
        selection_rows(&Selection { start: (2, 3), end: (6, 3) }, area),
        vec![(3, 2, 6)]
    );
    let top_down = selection_rows(&Selection { start: (3, 1), end: (4, 3) }, area);
    assert_eq!(top_down, vec![(1, 3, 9), (2, 0, 9), (3, 0, 4)]);
    let bottom_up = selection_rows(&Selection { start: (4, 3), end: (3, 1) }, area);
    assert_eq!(bottom_up, top_down);
}

#[test]
fn every_row_of_a_tall_selection_is_marked() {
    let rows = selection_rows(&Selection { start: (1, 0), end: (2, 19) }, area(0, 0, 4, 20));
    assert_eq!(rows.len(), 20);
    assert_eq!(rows[0], (0, 1, 3));
    assert_eq!(rows[10], (10, 0, 3));
    assert_eq!(rows[19], (19, 0, 2));
}

#[test]
fn points_outside_the_conversation_are_no_points() {
    let a = area(2, 3, 4, 5);
    assert_eq!(conv_point((2, 3), a), Some((2, 3)));
    assert_eq!(conv_point((5, 7), a), Some((5, 7)));
    assert_eq!(conv_point((6, 7), a), None);
    assert_eq!(conv_point((5, 8), a), None);
    assert_eq!(area(u16::MAX, 0, 9, 0).right(), u16::MAX);
}

#[test]
fn selection_text_extracts_cjk_without_extra_spaces() {
    let area = area(0, 0, 24, 4);
    let mut buf = Buffer::empty(ratatui::layout::Rect::new(0, 0, 24, 4));
    buf.set_stringn(0, 0, "奥斯陆天气晴朗", 24, Style::default());
    buf.set_stringn(0, 1, "hello world", 24, Style::default());

    let sel = Selection { start: (0, 0), end: (13, 0) };
    assert_eq!(selection_text(&buf, &sel, area).as_deref(), Some("奥斯陆天气晴朗"));

    let sel = Selection { start: (4, 0), end: (7, 1) };
    assert_eq!(selection_text(&buf, &sel, area).as_deref(), Some("陆天气晴朗\nhello wo"));

    // Nothing but blanks.
    let sel = Selection { start: (0, 2), end: (5, 3) };
    assert_eq!(selection_text(&buf, &sel, area), None);
}

#[test]
fn rows_are_stacked_without_blanks_at_their_ends() {
    let rows = |v: &[&str]| v.iter().map(|s| s.to_string()).collect::<Vec<_>>();
    assert_eq!(gather(&rows(&["", "a  ", "", "b"])).as_deref(), Some("a\n\nb"));
    assert_eq!(gather(&rows(&["a", "  "])).as_deref(), Some("a"));
    assert_eq!(gather(&rows(&["  ", ""])), None);
    assert_eq!(next_column(4, 2), 6);
    assert_eq!(next_column(4, 0), 5);
    assert_eq!(next_column(4, usize::MAX), usize::MAX);
}

#[test]
fn the_clipboard_gets_base64() {
    assert_eq!(base64_encode(b""), "");
    assert_eq!(base64_encode(b"f"), "Zg==");
    assert_eq!(base64_encode(b"fo"), "Zm8=");
    assert_eq!(base64_encode(b"foo"), "Zm9v");
    assert_eq!(base64_encode(b"foobar"), "Zm9vYmFy");
    assert_eq!(base64_encode(&[0xfb, 0xff, 0xfe]), "+//+");
    assert_eq!(clipboard_sequence("hi"), "\u{1b}]52;c;aGk=\u{7}");
    assert_eq!(clipboard_sequence("陆"), "\u{1b}]52;c;6ZmG\u{7}");
}

#[test]
fn what_is_marked_is_copied() {
    let mut screen = Buffer::empty(ratatui::layout::Rect::new(0, 0, 20, 3));
    screen.set_string(0, 0, "hello world", Style::default());
    let mut app = app();
    app.conv_area = area(0, 0, 20, 3);
    assert_eq!(app.copied(&screen), None);
    app.handle_mouse(Mouse::Down, 0, 0);
    app.handle_mouse(Mouse::Drag, 4, 0);
    assert!(matches!(app.handle_mouse(Mouse::Up, 4, 0), Todo::Copy));
    assert_eq!(app.copied(&screen), Some(clipboard_sequence("hello")));
    // An area that has lost its columns has nothing to copy.
    app.conv_area = area(3, 0, 0, 3);
    assert_eq!(app.copied(&screen), None);
}
