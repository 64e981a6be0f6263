use rutis_agent::agent::AgentStatus;
use rutis_agent::driver::{AgentDriver, Chunk, Next, Signal};
use rutis_agent::message::ToolCall;
use rutis_agent::minimal::{minimal_persona, minimal_tools};
use rutis_agent::order::{sort, sort_marked};
use rutis_agent::session::{Session, SessionId, SessionIds};
use rutis_agent::tools::bash::{
    plan_bash, render, run_bash, status_markers, truncate_tail, BashEnd, Killer,
};
use rutis_agent::tools::hotplug::{
    answer_from, hotplug_report, load_plugin_tools, plan_hotplug, plugin_result, register_tools,
    tool_from,
};
use rutis_agent::tools::release_notes::{
    rutis_plugin_name, rutis_plugin_tool_count, rutis_plugin_tool_invoke, rutis_plugin_tool_schema,
    rutis_plugin_tool_schema_len,
};
use rutis_agent::tools::replace_text::{
    create_file, format_file_view, join_path, line_numbers_at, list_directory, match_offsets,
    parse_view_range, plan_edit, replace_in_file, required_for_command, resolve_target, shows,
    stat_existing, view_path, DirEntry, EditorCommand, PathKind,
};
use rutis_agent::tools::self_tools::{
    build_command, check_command, check_report, commit_from, compact_report, default_handoff_path,
    default_ledger_path, find_skill, handoff_with_intent, head_commit, line_matches, path_argument,
    persist_report, plan_compact, plan_hotload, plan_persona, plan_rollback, plan_todo,
    record_build, recorded_build, reload_request, rollback_report, self_tools, skill,
    skills_index_path, status_report, LedgerEntry, Rollback, VersionLedger,
};
use rutis_agent::tools::{panic_message, show, ToolDef, ToolOutcome, ToolRegistry};
use serde_json::Value;

fn json(s: &str) -> Value {
    serde_json::from_str(s).unwrap()
}

fn exited(stdout: &str, stderr: &str, code: i32) -> BashEnd {
    BashEnd::Exited {
        stdout: stdout.as_bytes().to_vec(),
        stderr: stderr.as_bytes().to_vec(),
        code: Some(code),
        killer: Killer::UnknownSignal,
    }
}

// ── bash ────────────────────────────────────────────────────────────

#[test]
fn bash_runs_command_returns_stdout() {
    let run = plan_bash(&json("{\"command\":\"echo hello\",\"description\":\"Print hello\"}"));
    let run = run.unwrap();
    assert_eq!(run.command, "echo hello");
    assert_eq!(run.workdir, None);
    assert_eq!(run_bash(run.timeout_ms, exited("hello\n", "", 0)).unwrap(), "hello\n");
}

#[test]
fn bash_nonzero_exit_is_result_not_error() {
    let out = run_bash(1000, exited("out\n", "err\n", 3)).unwrap();
    assert_eq!(out, "out\n[stderr]\nerr\n[exit code: 3]");
}

#[test]
fn bash_workdir_overrides_cwd() {
    let run = plan_bash(&json("{\"command\":\"pwd\",\"workdir\":\"/tmp/w\"}")).unwrap();
    assert_eq!(run.workdir.as_deref(), Some("/tmp/w"));
}

#[test]
fn bash_timeout_kills_and_marks() {
    let run = plan_bash(&json("{\"command\":\"sleep 30\",\"timeout_ms\":200}")).unwrap();
    assert_eq!(run.timeout_ms, 200);
    let out = run_bash(run.timeout_ms, BashEnd::TimedOut).unwrap();
    assert_eq!(out, "(no output)\n[timed out after 200ms]");
}

#[test]
fn bash_long_output_truncated_to_tail() {
    let long: String = (1..=3000).map(|i| format!("{i}\n")).collect();
    let out = run_bash(1000, exited(&long, "", 0)).unwrap();
    assert!(out.starts_with("[output truncated]\n"), "head: {}", &out[..40]);
    assert!(out.ends_with("3000\n"), "tail must be kept");
    assert!(out.chars().count() < 12_000, "must be truncated");
    assert_eq!(truncate_tail("short"), "short");
}

#[test]
fn bash_silent_success_reports_no_output() {
    assert_eq!(run_bash(1000, exited("", "", 0)).unwrap(), "(no output)");
}

#[test]
fn bash_missing_command_rejected() {
    let err = plan_bash(&json("{\"description\":\"No command\"}")).unwrap_err();
    assert!(err.contains("command"), "{err}");
}

#[test]
fn bash_ends_in_other_ways() {
    let killed = BashEnd::Exited {
        stdout: vec![b'o', b'k', 0xff],
        stderr: Vec::new(),
        code: None,
        killer: Killer::Signal(9),
    };
    assert_eq!(run_bash(1, killed).unwrap(), "ok\u{fffd}\n[killed by signal: 9]");
    assert_eq!(status_markers(None, Killer::UnknownSignal), vec!["[killed by signal: ?]"]);
    assert_eq!(status_markers(None, Killer::NoSignal), vec!["[killed]"]);
    assert_eq!(status_markers(Some(-1), Killer::UnknownSignal), vec!["[exit code: -1]"]);
    assert!(run_bash(1, BashEnd::NotStarted("no bash".into())).unwrap_err().contains("no bash"));
    assert!(run_bash(1, BashEnd::Lost("gone".into())).unwrap_err().contains("gone"));
    assert_eq!(render("", "e", &Vec::new()), "[stderr]\ne");
}

// ── the editor ──────────────────────────────────────────────────────

fn range(s: &str) -> Option<Vec<Value>> {
    json(s).as_array().cloned()
}

#[test]
fn view_file_with_line_numbers() {
    let out = format_file_view("/t/a.txt", "alpha\nbeta\ngamma\n", &None).unwrap();
    assert!(out.contains("with line numbers (which has a total of 4 lines)"), "{out}");
    assert!(out.contains("     1  alpha"), "6-wide line numbers: {out}");
    assert!(out.contains("     2  beta"));
}

#[test]
fn view_range_selects_lines() {
    let content = "one\ntwo\nthree\nfour\n";
    let out = format_file_view("/t/a.txt", content, &range("[2, 3]")).unwrap();
    assert!(out.contains("with view_range=[2, 3]"), "{out}");
    assert!(out.contains("     2  two"));
    assert!(out.contains("     3  three"));
    assert!(!out.contains("one"));
    assert!(!out.contains("four"));

    let out = format_file_view("/t/a.txt", content, &range("[3, -1]")).unwrap();
    assert!(out.contains("     3  three"));
    assert!(out.contains("     4  four"));
    assert!(!out.contains("one\n"));
}

#[test]
fn ranges_lie_within_the_file() {
    assert_eq!(parse_view_range(&range("[2, 3]").unwrap(), 4), Ok((2, 3)));
    assert!(parse_view_range(&range("[2]").unwrap(), 4).is_err());
    assert!(parse_view_range(&range("[0, 3]").unwrap(), 4).is_err());
    assert!(parse_view_range(&range("[5, 6]").unwrap(), 4).is_err());
    assert!(parse_view_range(&range("[3, 2]").unwrap(), 4).is_err());
    assert!(parse_view_range(&range("[\"a\", 2]").unwrap(), 4).is_err());
}

fn file(name: &str) -> DirEntry {
    DirEntry { name: name.to_string(), is_dir: false, children: Vec::new() }
}

fn dir(name: &str, children: Vec<DirEntry>) -> DirEntry {
    DirEntry { name: name.to_string(), is_dir: true, children }
}

#[test]
fn view_directory_lists_two_levels_non_hidden() {
    let root = "/tmp/d";
    let out = list_directory(
        root,
        &vec![
            file("top.txt"),
            dir("sub", vec![file("inner.txt"), dir("deep", vec![file("leaf.txt")])]),
            file(".hidden"),
            dir(".git", vec![file("config")]),
        ],
    );
    let row = |name: &str| format!("f\t{root}/{name}");
    let dir_row = |name: &str| format!("d\t{root}/{name}");
    assert!(out.contains("up to 2 levels deep"), "{out}");
    assert!(out.contains(&format!("d\t{root}")));
    assert!(out.contains(&row("top.txt")));
    assert!(out.contains(&dir_row("sub")));
    assert!(out.contains(&row("sub/inner.txt")));
    assert!(out.contains(&dir_row("sub/deep")));
    assert!(!out.contains("leaf.txt"));
    assert!(!out.contains(".hidden"));
    assert!(!out.contains(".git"));
    assert!(!shows("node_modules"));
    assert!(shows("src"));
    assert_eq!(join_path("/", "a"), "/a");
}

#[test]
fn view_range_on_directory_rejected() {
    let err = view_path("/tmp/d", PathKind::Directory, &range("[1, 2]")).unwrap_err();
    assert!(err.contains("not allowed"), "{err}");
    assert!(view_path("/tmp/d", PathKind::Directory, &None).is_ok());
    assert!(view_path("/dev/null", PathKind::Other, &None).unwrap_err().contains("cannot view"));
}

#[test]
fn view_long_file_clipped_with_hint() {
    let out = format_file_view("/t/big.txt", &"line\n".repeat(4000), &None).unwrap();
    assert!(out.contains("<response clipped>"), "{out}");
    assert!(out.contains("grep -n"), "self-rescue hint: {out}");
}

#[test]
fn relative_path_rejected() {
    let err =
        plan_edit(&json("{\"command\":\"view\",\"path\":\"relative/x.txt\"}")).unwrap_err();
    assert!(err.contains("not an absolute path"), "{err}");
    assert!(resolve_target("  ").is_err());
    assert!(resolve_target("/x").is_ok());
}

#[test]
fn missing_path_rejected() {
    let err = view_path("/nonexistent/rutis-minimal-x.txt", PathKind::Missing, &None).unwrap_err();
    assert!(err.contains("does not exist"), "{err}");
}

#[test]
fn create_writes_new_file() {
    let plan = plan_edit(&json(
        "{\"command\":\"create\",\"path\":\"/t/new.txt\",\"file_text\":\"hello\\n\"}",
    ));
    match plan.unwrap() {
        EditorCommand::Create { path, text } => {
            assert_eq!(text, "hello\n");
            assert_eq!(
                create_file(&path, false).unwrap(),
                format!("New file created successfully at: {path}")
            );
        }
        other => panic!("{other:?}"),
    }
}

#[test]
fn create_existing_file_rejected() {
    let err = create_file("/t/exists.txt", true).unwrap_err();
    assert!(err.contains("Cannot overwrite"), "{err}");
}

#[test]
fn create_missing_file_text_rejected() {
    let err = plan_edit(&json("{\"command\":\"create\",\"path\":\"/t/x.txt\"}")).unwrap_err();
    assert!(err.contains("`file_text` is required"), "{err}");
}

#[test]
fn str_replace_edits_unique_match() {
    let plan = plan_edit(&json(
        "{\"command\":\"str_replace\",\"path\":\"/t/c\",\"old_str\":\"timeout = 10\",\"new_str\":\"timeout = 30\"}",
    ));
    match plan.unwrap() {
        EditorCommand::Replace { path, old_str, new_str } => {
            let (after, said) =
                replace_in_file(&path, "timeout = 10\nretries = 3\n", &old_str, &new_str).unwrap();
            assert_eq!(said, format!("The file {path} has been edited successfully."));
            assert_eq!(after, "timeout = 30\nretries = 3\n");
        }
        other => panic!("{other:?}"),
    }
}

#[test]
fn str_replace_omitted_new_str_deletes() {
    let plan = plan_edit(&json(
        "{\"command\":\"str_replace\",\"path\":\"/t/a\",\"old_str\":\"remove me\\n\"}",
    ));
    match plan.unwrap() {
        EditorCommand::Replace { path, old_str, new_str } => {
            let (after, _) =
                replace_in_file(&path, "keep\nremove me\nkeep\n", &old_str, &new_str).unwrap();
            assert_eq!(after, "keep\nkeep\n");
        }
        other => panic!("{other:?}"),
    }
}

#[test]
fn str_replace_not_found_reports_verbatim_miss() {
    let err = replace_in_file("/t/a", "content\n", "absent", "x").unwrap_err();
    assert!(err.contains("did not appear verbatim"), "{err}");
}

#[test]
fn str_replace_ambiguous_reports_line_numbers() {
    let err = replace_in_file("/t/a", "dup\ndup\ndup\n", "dup", "x").unwrap_err();
    assert!(err.contains("Multiple occurrences"), "{err}");
    assert!(err.contains("lines [1, 2, 3]"), "{err}");
}

#[test]
fn matches_do_not_overlap() {
    assert_eq!(match_offsets("aaaa", "aa"), vec![0, 2]);
    assert_eq!(match_offsets("陆陆", "陆"), vec![0, 3]);
    assert_eq!(match_offsets("é😀x", "x"), vec![6]);
    assert_eq!(line_numbers_at("a\nb\nc", &vec![0, 4]), vec!["1", "3"]);
}

#[test]
fn lines_are_counted_in_bytes_up_to_the_end() {
    // The bytes of the first line are seven, its end with them.
    assert_eq!(line_numbers_at("陆陆\nb\n", &vec![1, 6, 7, 9]), vec!["1", "1", "2", "3"]);
    // An offset before an earlier one has the line of that one.
    assert_eq!(line_numbers_at("a\nb\nc", &vec![4, 0]), vec!["3", "3"]);
    assert_eq!(line_numbers_at("", &vec![0]), vec!["1"]);
    let e = replace_in_file("/f", "陆\n陆\n陆", "陆", "x").unwrap_err();
    assert!(e.contains("in lines [1, 2, 3]"), "{e}");
}

#[test]
fn str_replace_on_directory_rejected() {
    let err = stat_existing("/tmp/d", PathKind::Directory, "str_replace").unwrap_err();
    assert!(err.contains("only the `view` command"), "{err}");
}

#[test]
fn str_replace_empty_old_str_rejected() {
    let err = plan_edit(&json(
        "{\"command\":\"str_replace\",\"path\":\"/t/a\",\"old_str\":\"\",\"new_str\":\"y\"}",
    ))
    .unwrap_err();
    assert!(err.contains("`old_str` is empty"), "{err}");
    assert_eq!(required_for_command(Some(""), "p", "c", true), Ok(String::new()));
}

#[test]
fn unknown_editor_commands_are_refused() {
    assert!(plan_edit(&json("{\"command\":\"undo\",\"path\":\"/t/a\"}")).is_err());
    assert!(plan_edit(&json("{}")).is_err());
}

// ── the registry and the persona ────────────────────────────────────

#[test]
fn persona_carries_essential_self_evolution_clauses() {
    let persona = minimal_persona("scripted-model", "/tmp/work");
    assert!(persona.contains("工程上最好的 agent"), "{persona}");
    assert!(persona.contains("环境适应性最佳的 agent"), "{persona}");
    assert!(persona.contains("迭代能力最强的 agent"), "{persona}");
    assert!(persona.contains("执行可能中断"), "{persona}");
    assert!(persona.contains("工作文档"), "{persona}");
    assert!(persona.contains("docs/work/handoff.md"), "{persona}");
    assert!(persona.contains("交接文档"), "{persona}");
    assert!(persona.contains("及时 commit"), "{persona}");
    assert!(persona.contains("未提交"), "{persona}");
    assert!(persona.contains("推送到远程"), "{persona}");
    assert!(persona.contains("git push"), "{persona}");
    assert!(persona.contains("plugin"), "{persona}");
    assert!(persona.contains("热更新"), "{persona}");
    assert!(persona.contains("必须经用户同意"), "{persona}");
    assert!(persona.contains("恒定命题"), "{persona}");
    assert!(persona.contains("失败是观察素材"), "{persona}");
    assert!(persona.contains("持续运行"), "{persona}");
    assert!(persona.contains("自我激活检查"), "{persona}");
    assert!(persona.contains("每轮必做"), "{persona}");
    assert!(persona.contains("git status"), "{persona}");
    assert!(persona.contains("scripted-model"), "{persona}");
    assert!(persona.contains("/tmp/work"), "{persona}");
}

fn plain_tool(name: &str, description: &str) -> ToolDef {
    ToolDef::new(name, description, json("{\"type\":\"object\"}"))
}

#[test]
fn a_tool_registered_again_takes_the_place_of_the_first() {
    let mut r = ToolRegistry::new(vec![plain_tool("a", "1"), plain_tool("b", "2")]);
    r.register(plain_tool("a", "3"));
    r.register(plain_tool("c", "4"));
    let all: Vec<String> =
        r.schemas().iter().map(|t| format!("{}{}", t.name, t.description)).collect();
    assert_eq!(all, vec!["a3", "b2", "c4"]);
    assert_eq!(r.len(), 3);
    assert_eq!(r.get("b").unwrap().description, "2");
    assert!(r.get("d").is_none());
    assert!(ToolRegistry::empty().is_empty());
    assert_eq!(minimal_tools().iter().map(|t| t.name().to_string()).collect::<Vec<_>>(),
        vec!["bash", "replace_text"]);
}

#[test]
fn runs_of_tools_are_shown() {
    let r = ToolRegistry::new(vec![plain_tool("a", "1")]);
    let call =
        ToolCall { tool_call_id: "1".into(), tool_name: "a".into(), input: json("{}") };
    let shown = |o: ToolOutcome| {
        let out = r.execute(&call, o);
        (out.ok, out.output)
    };
    assert_eq!(shown(ToolOutcome::Done(json("\"text\""))), (true, "text".to_string()));
    assert_eq!(shown(ToolOutcome::Done(json("[1, 2]"))), (true, "[1,2]".to_string()));
    assert!(!shown(ToolOutcome::Cancelled).0);
    assert!(!shown(ToolOutcome::TaskCancelled).0);
    assert_eq!(shown(ToolOutcome::Panicked(None)), (false, "error: tool panicked".to_string()));
    assert_eq!(panic_message(Some("p".into())), "p");
    assert_eq!(show(&json("null")), "null");
}

#[test]
fn names_are_sorted_by_their_characters() {
    let names = |v: &[&str]| v.iter().map(|s| s.to_string()).collect::<Vec<_>>();
    assert_eq!(sort(&names(&["b", "a", "ab", "B"])), names(&["B", "a", "ab", "b"]));
    let marked = sort_marked(&vec![("b".to_string(), true), ("a".to_string(), false)]);
    assert_eq!(marked, vec![("a".to_string(), false), ("b".to_string(), true)]);
}

// ── the tools of the agent on itself ────────────────────────────────

#[test]
fn default_paths_are_cwd_independent_and_repo_rooted() {
    let crate_dir = "/repo/crates/rutis-agent";
    let ledger = default_ledger_path(crate_dir);
    let handoff = default_handoff_path(crate_dir);
    let ledger = std::path::Path::new(&ledger);
    let handoff = std::path::Path::new(&handoff);
    let work_dir = ledger.parent().expect("ledger has parent");
    assert!(work_dir.ends_with("docs/work"), "{work_dir:?}");
    assert_eq!(work_dir.join("handoff.md"), handoff);
    assert!(ledger.is_absolute() || !ledger.starts_with("docs"), "{ledger:?}");
    assert_eq!(ledger.parent(), handoff.parent());
    assert_eq!(ledger, std::path::Path::new("/repo/crates/rutis-agent/../../docs/work/version-ledger.json"));
    assert_eq!(skills_index_path(crate_dir, false), "docs/skills/index.md");
    assert!(skills_index_path(crate_dir, true).ends_with("/../../docs/skills/index.md"));
}

#[test]
fn self_status_reports_identity_generation_and_history() {
    let id = SessionId::next(&mut SessionIds::new());
    let out = status_report(id, AgentStatus::Idle, 2, Some("/x/session.json"));
    assert!(out.contains(&format!("identity: {}", id.identity())), "{out}");
    assert!(out.contains(&format!("generation: {}", id.generation())), "{out}");
    assert!(out.contains("status: Idle"), "{out}");
    assert!(out.contains("session messages: 2"), "{out}");
    assert!(out.contains("/x/session.json"), "{out}");
    assert!(status_report(id, AgentStatus::Running, 0, None).ends_with("not configured"));
}

#[test]
fn self_persist_without_path_errors() {
    let id = SessionId::next(&mut SessionIds::new());
    let err = persist_report(id, 0, None).unwrap_err();
    assert!(err.contains("no session persist path"), "{err}");
    let out = persist_report(id, 3, Some("/x")).unwrap();
    assert!(out.contains("persisted session"), "{out}");
    assert!(out.ends_with("messages=3 -> /x"), "{out}");
}

#[test]
fn self_reload_writes_intent_and_emits_event() {
    let text = handoff_with_intent("# prior\n", 12);
    assert!(text.contains("# prior"), "{text}");
    assert!(text.contains("## reload intent @ 12"), "{text}");
    assert!(text.contains("Next instance"), "{text}");
    assert!(handoff_with_intent("x", 1).starts_with("x\n\n---\n"));
    assert!(handoff_with_intent("", 1).starts_with("\n\n---\n"));
    let id = SessionId::next(&mut SessionIds::new());
    let (event, said) = reload_request(id, "/h.md");
    assert!(event.reason.contains("self_reload"));
    assert_eq!(event.name(), "self/reload-requested");
    assert_eq!(event.intent_path, "/h.md");
    assert!(said.contains("/h.md"));
}

#[test]
fn self_check_runs_command_via_bash() {
    let args = json("{\"command\":\"echo self-check-ok\"}");
    assert_eq!(check_command(&args), "echo self-check-ok 2>&1");
    assert_eq!(check_command(&json("{}")), "cargo test -p rutis-agent 2>&1");
    assert_eq!(check_report("self-check-ok\n"), "self-check-ok\n");
}

#[test]
fn self_check_appends_health_summary_parsing_test_result() {
    let out = "test result: ok. 25 passed; 0 failed; 0 ignored; 0 measured; 0 filtered out; finished in 0.00s
test result: ok. 5 passed; 0 failed; 0 ignored; 0 measured; 0 filtered out; finished in 0.00s";
    let res = check_report(out);
    assert!(res.contains("25 passed"), "{res}");
    assert!(res.contains("[health] GREEN: 30 passed / 0 failed"), "{res}");
    let red = check_report("test result: FAILED. 4 passed; 2 failed; 0 ignored\n");
    assert!(red.ends_with("[health] RED: 4 passed / 2 failed"), "{red}");
}

#[test]
fn self_build_runs_command_and_records_ledger() {
    let args = json("{\"command\":\"echo Finished ok\",\"ledger\":\"/t/l.json\"}");
    assert_eq!(build_command(&args), "echo Finished ok 2>&1");
    assert_eq!(build_command(&json("{}")), "cargo build -p rutis-agent 2>&1");
    assert_eq!(path_argument(&args, "ledger", "d"), "/t/l.json");
    assert_eq!(path_argument(&args, "handoff", "d"), "d");

    let mut ledger = VersionLedger::default();
    let (out, changed) = record_build(&mut ledger, "Finished ok\n", "abc", 7);
    assert!(out.contains("Finished"), "{out}");
    assert!(out.contains("[ledger] recorded abc"), "{out}");
    assert!(changed);
    assert_eq!(ledger.entries[0].note, "self_build");
    assert_eq!(ledger.entries[0].at_ms, 7);
    // The same commit is not put on record again.
    let (out2, changed) = record_build(&mut ledger, "Finished ok\n", "abc", 8);
    assert!(!out2.contains("[ledger] recorded"), "{out2}");
    assert!(!changed);
    assert_eq!(ledger.entries.len(), 1);
    // A build with an error is not put on record.
    assert!(!record_build(&mut ledger, "error: x\nFinished", "def", 9).1);
    assert_eq!(recorded_build(out, Ok(())).unwrap(), "Finished ok\n\n[ledger] recorded abc");
    assert!(recorded_build(out2, Err("disk full".into())).unwrap_err().contains("disk full"));
    assert_eq!(commit_from(Some(" 1a2b \n")), "1a2b");
    assert_eq!(commit_from(Some("\n")), "(no git)");
    assert_eq!(head_commit(Some(&b"1a2b\n".to_vec())), "1a2b");
    assert_eq!(head_commit(None), "(no git)");
}

fn ledger(commits: &[&str]) -> VersionLedger {
    let mut l = VersionLedger::default();
    for (i, c) in commits.iter().enumerate() {
        l.push(LedgerEntry { commit: c.to_string(), at_ms: i as u64 + 1, note: "n".into() });
    }
    l
}

#[test]
fn self_rollback_dry_run_reports_previous_generation() {
    let v = ledger(&["abc123", "def456"]);
    assert_eq!(v.previous().unwrap().commit, "abc123");
    match plan_rollback(&v, &json("{}")) {
        Rollback::Say(out) => {
            assert!(out.contains("abc123"), "{out}");
            assert!(out.contains("dry-run"), "{out}");
            assert!(!out.contains("rolled back"), "{out}");
        }
        other => panic!("{other:?}"),
    }
    match plan_rollback(&v, &json("{\"apply\":true}")) {
        Rollback::Checkout { commit, command } => {
            assert_eq!(commit, "abc123");
            assert_eq!(command, "git checkout abc123 2>&1");
        }
        other => panic!("{other:?}"),
    }
    assert_eq!(
        rollback_report("abc123", &Value::String("HEAD is now".into())),
        "rolled back to abc123 (previous generation)\n\"HEAD is now\""
    );
}

#[test]
fn self_rollback_too_few_entries_errors() {
    let v = ledger(&["abc"]);
    assert!(v.previous().is_none());
    match plan_rollback(&v, &json("{\"apply\":true}")) {
        Rollback::Say(out) => assert!(out.contains("fewer than 2 entries"), "{out}"),
        other => panic!("{other:?}"),
    }
}

#[test]
fn self_tools_registered_and_driven_in_turn() {
    let mut names: Vec<String> = self_tools().iter().map(|t| t.name().to_string()).collect();
    names.sort_unstable();
    assert_eq!(
        names,
        vec![
            "hotplug_load",
            "self_build",
            "self_check",
            "self_compact",
            "self_hotload",
            "self_persist",
            "self_persona",
            "self_reload",
            "self_rollback",
            "self_status",
            "self_todo",
            "skill",
        ]
    );
    for t in self_tools() {
        assert_eq!(t.parameters["type"], "object", "{}", t.name());
    }
}

#[test]
fn self_hotload_adds_tool_visible_to_model() {
    let args = json(
        "{\"name\":\"my_fresh_tool\",\"description\":\"a tool I hot-loaded into myself\",\"reply\":\"hot-loaded reply\"}",
    );
    let hot = plan_hotload(&args).unwrap();
    assert_eq!(hot.reply, "hot-loaded reply");
    assert!(hot.said.contains("my_fresh_tool"));
    let mut registry = ToolRegistry::new(self_tools());
    registry.register(hot.def);
    assert!(registry.get("my_fresh_tool").is_some());
    assert!(registry.schemas().iter().any(|t| t.name() == "my_fresh_tool"));
    let plain = plan_hotload(&json("{\"name\":\"n\",\"reply\":\"r\"}")).unwrap();
    assert_eq!(plain.def.description, "hot-loaded tool");
    assert!(plan_hotload(&json("{\"reply\":\"r\"}")).unwrap_err().contains("name"));
    assert!(plan_hotload(&json("{\"name\":\"n\"}")).unwrap_err().contains("reply"));
}

/// A driver after a turn for each of these answers.
fn driver_after(turns: &[(&str, &str)]) -> AgentDriver {
    let mut d = AgentDriver::new(Session::new(&mut SessionIds::new()), 16, None);
    for (input, answer) in turns {
        d.followup(input, false);
        d.advance(Signal::Connected);
        d.advance(Signal::Chunk(Chunk::TextDelta(answer.to_string())));
        let next = d.advance(Signal::Chunk(Chunk::End)).next;
        assert!(matches!(next, Next::End(Ok(_))), "{next:?}");
    }
    d
}

#[test]
fn self_todo_sets_todo_on_session() {
    let mut d = driver_after(&[("start", "ok")]);
    assert!(d.session().todo().is_none());
    let (todo, said) = plan_todo(&json("{\"todo\":\"continue the task next\"}")).unwrap();
    assert!(said.contains("todo updated"), "{said}");
    d.set_todo(todo);
    assert_eq!(d.session().todo(), Some("continue the task next"));
    let (todo, _) = plan_todo(&json("{\"todo\":\"\"}")).unwrap();
    d.set_todo(todo);
    assert!(d.session().todo().is_none());
}

#[test]
fn self_compact_trims_and_sets_summary() {
    let mut d = driver_after(&[("start", "a"), ("mid", "b"), ("end", "c")]);
    let before = d.session().messages().len();
    let (summary, keep) =
        plan_compact(&json("{\"summary\":\"early done\",\"keep\":3}")).unwrap();
    let (was, is) = d.compact(summary, keep);
    let said = compact_report(was, is, keep);
    assert!(said.contains("compacted session"), "{said}");
    assert!(said.contains("kept last 3"), "{said}");
    assert_eq!(d.session().messages().len(), 3);
    assert!(d.session().messages().len() <= before);
    assert_eq!(d.session().summary().unwrap_or_default(), "early done");
}

#[test]
fn plans_need_their_arguments() {
    assert_eq!(plan_todo(&json("{}")).unwrap_err(), "error: todo is required");
    let (persona, said) = plan_persona(&json("{\"persona\":\"诗人\"}")).unwrap();
    assert_eq!(persona, "诗人");
    assert!(said.contains("(2 chars)"), "{said}");
    assert!(plan_persona(&json("{}")).is_err());
    assert_eq!(plan_compact(&json("{\"summary\":\"s\"}")).unwrap().1, 20);
    assert!(plan_compact(&json("{\"keep\":4}")).is_err());
    assert_eq!(compact_report(9, 4, 4), "compacted session: messages 9 -> 4 (kept last 4)");
}

const INDEX: &str = "# Skills\n\nintro\n\n## Use\n- **SKILL-U1** Read first\n  - **SKILL-U2** Write docs\nplain 行\n";

fn skills(key: &str) -> String {
    find_skill(INDEX, &json(&format!("{{\"key\":\"{key}\"}}")))
}

#[test]
fn skill_is_registered_self_tool() {
    assert_eq!(skill().name(), "skill");
    let list = find_skill(INDEX, &json("{}"));
    assert!(list.contains("SKILL-U1"), "{list}");
    assert!(!list.contains("intro"), "{list}");
    assert_eq!(skills("list"), list);
    assert_eq!(skills("  "), list);
    assert_eq!(skills("SKILL-U2"), "- **SKILL-U2** Write docs\n");
    assert_eq!(skills("skill-u2"), "- **SKILL-U2** Write docs\n");
    assert_eq!(skills("READ"), "- **SKILL-U1** Read first\n");
    assert_eq!(skills("行"), "plain 行\n");
    assert!(skills("SKILL-DOESNOTEXIST").contains("not found"));
    assert!(find_skill("no heading", &json("{}")).contains("no heading"));
    assert!(line_matches("ABC", "B", "abc", "z"));
    assert!(!line_matches("ABC", "Z", "abc", "z"));
}

// ── plugins ─────────────────────────────────────────────────────────

#[test]
fn plugins_bring_their_tools() {
    let mut registry = ToolRegistry::empty();
    let declared = vec![
        "{\"name\":\"release_notes\",\"description\":\"d\",\"parameters\":{\"type\":\"object\"}}"
            .to_string(),
        "{\"name\":\"bare\"}".to_string(),
    ];
    let names = load_plugin_tools(&declared, &mut registry).unwrap();
    assert_eq!(names, vec!["release_notes", "bare"]);
    assert_eq!(registry.get("release_notes").unwrap().parameters["type"], "object");
    assert_eq!(registry.get("bare").unwrap().parameters, Value::Null);
    assert_eq!(
        hotplug_report(&names, "/p.so"),
        "hot-loaded 2 tool(s) from /p.so: release_notes, bare"
    );
    // What came before a bad declaration stays registered.
    let bad = vec!["{\"name\":\"first\"}".to_string(), "{\"x\":1}".to_string()];
    assert_eq!(load_plugin_tools(&bad, &mut registry).unwrap_err(), "tool[1] missing name");
    assert!(registry.get("first").is_some());
    let garbage = vec!["not json".to_string()];
    assert!(load_plugin_tools(&garbage, &mut registry).unwrap_err().starts_with("bad schema[0]: "));
    assert!(tool_from(4, Err("why".into())).unwrap_err().ends_with("why"));
    assert_eq!(plan_hotplug(&json("{\"path\":\"/p.so\"}")).unwrap(), "/p.so");
    assert_eq!(plan_hotplug(&json("{}")).unwrap_err(), "error: path is required");
}

#[test]
fn plugins_answer_in_json() {
    assert_eq!(plugin_result("{\"ok\":true,\"notes\":\"v0.2.0\"}").unwrap(), "v0.2.0");
    assert_eq!(plugin_result("{\"ok\":true}").unwrap(), "ok");
    assert_eq!(
        plugin_result("{\"error\":\"unknown tool index\"}").unwrap_err(),
        "{\"error\":\"unknown tool index\"}"
    );
    assert_eq!(plugin_result("plain").unwrap_err(), "\"plain\"");
    assert_eq!(answer_from(Ok(json("{\"ok\":false}")), "").unwrap_err(), "{\"ok\":false}");
}

#[test]
fn the_release_notes_plugin_can_be_loaded() {
    assert_eq!(rutis_plugin_name(), "hotplug-release-notes");
    assert_eq!(rutis_plugin_tool_count(), 1);
    let mut registry = ToolRegistry::empty();
    let declared = vec![rutis_plugin_tool_schema(0).to_string()];
    assert_eq!(load_plugin_tools(&declared, &mut registry).unwrap(), vec!["release_notes"]);
    let tool = registry.get("release_notes").unwrap();
    assert_eq!(tool.description, "Return the rutis release notes summary");
    assert_eq!(tool.parameters["properties"]["version"]["type"], "string");
    assert_eq!(rutis_plugin_tool_schema(1), "");
    assert_eq!(rutis_plugin_tool_schema_len(0) as usize, declared[0].len());
    assert_eq!(rutis_plugin_tool_schema_len(1), 0);
    let told = plugin_result(rutis_plugin_tool_invoke(0, "{}")).unwrap();
    assert!(told.as_str().unwrap().starts_with("v0.2.0:"), "{told}");
    assert_eq!(
        plugin_result(rutis_plugin_tool_invoke(1, "{}")).unwrap_err(),
        "{\"error\":\"unknown tool index\"}"
    );
}

#[test]
fn tools_before_a_bad_declaration_are_registered_and_named() {
    let good = |name: &str| format!("{{\"name\":\"{name}\"}}");
    let mut registry = ToolRegistry::new(Vec::new());
    // The second declaration takes the place of the first.
    let declared = vec![good("a"), good("a"), good("b"), "{}".to_string(), good("c")];
    let (names, refusal) = register_tools(&declared, &mut registry);
    assert_eq!(names, vec!["a", "a", "b"]);
    assert_eq!(refusal.as_deref(), Some("tool[3] missing name"));
    let known: Vec<String> = registry.schemas().iter().map(|t| t.name.clone()).collect();
    assert_eq!(known, vec!["a", "b"]);
}
