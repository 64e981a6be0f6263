use rutis_agent::cli::{intro, parse_args, scripted_responses, setup_failure, unquote, Cli};
use rutis_agent::face::{models_reply, remote, FaceCall, LlmFace, LlmSeam};
use rutis_agent::llm::{
    asked_line, done_line, encode_error, list_error, stream_error, stream_part_error,
    to_call_options, AimuxLlm, ListChoice, LlmServiceError, MessageSpec, ModelBrief, ModelChoice,
    ModelKey, PromptSpec, StreamLog, StreamRequest, ToolSpec,
};
use rutis_agent::message::Role;
use rutis_agent::runner::{
    bridged_line, event_line, host_command, shell_split, truncate_chars, Convergence, Ending,
};
use serde_json::Value;

fn json(s: &str) -> Value {
    serde_json::from_str(s).unwrap()
}

fn some(s: &str) -> Option<String> {
    Some(s.to_string())
}

fn empty_prompt() -> PromptSpec {
    PromptSpec { system: None, messages: Vec::new(), tools: Vec::new() }
}

fn request(provider: Option<&str>, model: Option<&str>, key: Option<&str>) -> StreamRequest {
    StreamRequest {
        provider: provider.map(str::to_string),
        model: model.map(str::to_string),
        api_key: key.map(str::to_string),
        options: empty_prompt(),
    }
}

// ── which model ─────────────────────────────────────────────────────

fn to_build(svc: &AimuxLlm, req: &StreamRequest) -> ModelKey {
    match svc.model_for(req) {
        ModelChoice::Build(key) => key,
        other => panic!("{other:?}"),
    }
}

#[test]
fn requests_whose_texts_run_together_get_models_of_their_own() {
    let mut svc = AimuxLlm::new("p", "m");
    let first = request(Some("b"), Some("c"), Some("a\0a"));
    let second = request(Some("a\0b"), Some("c"), Some("a"));
    let key = to_build(&svc, &first);
    assert_eq!(svc.built(key, Ok(())).unwrap(), 0);
    let key = to_build(&svc, &second);
    assert_eq!((key.api_key.as_str(), key.provider.as_str()), ("a", "a\0b"));
    assert_eq!(svc.built(key, Ok(())).unwrap(), 1);
    assert!(matches!(svc.model_for(&first), ModelChoice::Known(0)));
    assert!(matches!(svc.model_for(&second), ModelChoice::Known(1)));

    let key = match svc.list_models("x\0y", &some("z")) {
        ListChoice::Ask { key, .. } => key,
        other => panic!("{other:?}"),
    };
    svc.models_found(key, vec![brief("a")]);
    assert!(matches!(svc.list_models("x", &some("y\0z")), ListChoice::Ask { .. }));
}

#[test]
fn keyed_request_routes_through_factory_fallback_untouched() {
    let mut svc = AimuxLlm::new("deepseek", "env-model");
    let req = request(Some("deepseek"), Some("deepseek-v4-flash"), Some("sk-from-page"));
    let key = match svc.model_for(&req) {
        ModelChoice::Build(key) => {
            assert_eq!(
                (key.provider.as_str(), key.api_key.as_str(), key.model.as_str()),
                ("deepseek", "sk-from-page", "deepseek-v4-flash")
            );
            key
        }
        other => panic!("{other:?}"),
    };
    let n = svc.built(key, Ok(())).unwrap();
    assert_eq!(n, 0);
    assert!(matches!(svc.model_for(&req), ModelChoice::Known(0)));
    let other = request(Some("deepseek"), Some("x"), Some("sk-from-page"));
    let key = to_build(&svc, &other);
    let e = svc.built(key, Err("no such model".to_string())).unwrap_err();
    assert_eq!((e.code.as_str(), e.message.as_str()), ("llmProvider", "no such model"));
    let key = to_build(&svc, &other);
    assert_eq!(svc.built(key, Ok(())).unwrap(), 1);
    assert!(matches!(svc.model_for(&other), ModelChoice::Known(1)));
}

#[test]
fn keyless_request_falls_back_and_request_without_provider_uses_env_default() {
    let svc = AimuxLlm::new("deepseek", "env-model");
    assert!(matches!(svc.model_for(&request(None, None, None)), ModelChoice::Fallback));
    match svc.model_for(&request(Some(""), None, Some("k"))) {
        ModelChoice::Build(key) => {
            assert_eq!((key.provider.as_str(), key.model.as_str()), ("deepseek", "env-model"));
        }
        other => panic!("{other:?}"),
    }
}

#[test]
fn dto_maps_to_call_options_field_by_field() {
    let message = |role: Option<&str>, text: &str| MessageSpec {
        role: role.map(str::to_string),
        text: text.to_string(),
    };
    let spec = PromptSpec {
        system: some("be terse"),
        messages: vec![
            message(Some("user"), "one"),
            message(Some("assistant"), "two"),
            message(None, "three"),
        ],
        tools: vec![
            ToolSpec {
                name: "bash".into(),
                description: some("run a shell"),
                parameters: Some(json("{\"type\":\"object\"}")),
            },
            ToolSpec {
                name: String::new(),
                description: some("nameless must be dropped"),
                parameters: None,
            },
            ToolSpec { name: "bare".into(), description: None, parameters: None },
        ],
    };
    let options = to_call_options(&spec);
    let prompt: Vec<(Role, &str)> =
        options.prompt.iter().map(|m| (m.role, m.text.as_str())).collect();
    assert_eq!(
        prompt,
        vec![
            (Role::System, "be terse"),
            (Role::User, "one"),
            (Role::Assistant, "two"),
            (Role::User, "three"),
        ]
    );
    let tools = options.tools.as_ref().expect("tools present");
    assert_eq!(tools.len(), 2);
    assert_eq!(tools[0].name, "bash");
    assert_eq!(tools[0].description.as_deref(), Some("run a shell"));
    assert_eq!(tools[0].input_schema["type"], "object");
    assert_eq!(tools[1].input_schema, json("{}"));
    assert!(to_call_options(&empty_prompt()).tools.is_none());
}

fn brief(id: &str) -> ModelBrief {
    ModelBrief { id: id.into(), owned_by: some("rutis"), created: Some(1) }
}

#[test]
fn what_a_provider_has_is_asked_once() {
    let mut svc = AimuxLlm::new("deepseek", "m");
    let key = match svc.list_models("ollama", &some("")) {
        ListChoice::Ask { api_key: None, key } => key,
        other => panic!("{other:?}"),
    };
    assert_eq!(svc.models_found(key, vec![brief("a"), brief("b")]).len(), 2);
    match svc.list_models("ollama", &None) {
        ListChoice::Known(models) => assert_eq!(models[1].id, "b"),
        other => panic!("{other:?}"),
    }
    assert!(matches!(svc.list_models("ollama", &some("k")),
        ListChoice::Ask { api_key: Some(k), .. } if k == "k"));
    assert!(matches!(svc.list_models("other", &None), ListChoice::Ask { .. }));
}

#[test]
fn answers_are_logged_without_the_key() {
    let mut req = request(Some("p"), None, Some("sk-secret"));
    req.options.system = some("s");
    let line = asked_line(&req);
    assert_eq!(
        line,
        "[aimux-llm] stream provider=p model=- msgs=0 tools=0 system=yes key=request"
    );
    let mut log = StreamLog::new();
    log.part(&json("{\"TextDelta\":{\"delta\":\"x\"}}"));
    assert_eq!(log.finish_kind(), "-");
    log.part(&json("{\"Finish\":{\"finish_reason\":{\"unified\":\"stop\"}}}"));
    assert_eq!(log.chunks, 2);
    assert_eq!(
        done_line(&req, &log),
        "[aimux-llm] stream done provider=p model=- chunks=2 finish=stop"
    );
}

#[test]
fn service_errors_have_codes() {
    assert_eq!(LlmServiceError::new("c", "m".into()).text(), "c: m");
    assert_eq!(stream_error("x".into()).code, "llmStream");
    assert_eq!(stream_part_error("x".into()).code, "llmStreamPart");
    assert_eq!(encode_error("x".into()).code, "encode");
    assert_eq!(list_error("x".into()).code, "llmListModels");
    assert_eq!(remote(stream_error("x".into())).message, "x");
}

// ── the face and the seam ───────────────────────────────────────────

#[test]
fn llm_face_list_models_and_illegal_stream_params_are_handled() {
    let face = LlmFace::new();
    assert_eq!(face.name(), "llm");
    match face.call("listModels", &json("{}")).unwrap() {
        FaceCall::ListModels { provider, api_key } => {
            assert_eq!((provider.as_str(), api_key), ("llm", None));
        }
        other => panic!("{other:?}"),
    }
    match face.call("listModels", &json("{\"provider\":\"local\",\"apiKey\":\"k\"}")).unwrap() {
        FaceCall::ListModels { provider, api_key } => {
            assert_eq!((provider.as_str(), api_key.as_deref()), ("local", Some("k")));
        }
        other => panic!("{other:?}"),
    }
    let v = models_reply(&vec![
        ModelBrief { id: "mock-1".into(), owned_by: some("rutis"), created: Some(-1) },
        ModelBrief { id: "mock-2".into(), owned_by: None, created: None },
    ]);
    let models = v["models"].as_array().expect("models key present");
    assert_eq!(models.len(), 2);
    assert_eq!(models[0], json("{\"id\":\"mock-1\",\"owned_by\":\"rutis\",\"created\":-1}"));
    assert_eq!(models[1], json("{\"id\":\"mock-2\",\"owned_by\":null,\"created\":null}"));
    assert!(matches!(face.call("stream", &json("{}")), Ok(FaceCall::Stream)));
    let err = face.call("nope", &json("{}")).unwrap_err();
    assert_eq!(err.code, "unhandled");
    assert_eq!(err.message, "llm face only serves stream/listModels, got \"nope\"");
}

#[test]
fn the_seam_tells_pieces_and_ends_with_the_last() {
    let mut seam = LlmSeam::new();
    let params = json("{\"service\":\"llm\",\"method\":\"stream\"}");
    assert_eq!(seam.handle(7, "svc/call", &params).unwrap_err().code, "notAttached");
    seam.attach();
    assert!(seam.handle(7, "evt/on", &params).unwrap_err().message.ends_with("evt/on"));
    let e = seam.handle(7, "svc/call", &json("{\"service\":\"x\"}")).unwrap_err();
    assert_eq!(e.message, "llm seam only serves llm/stream, got Some(\"x\")/None");
    let mut stream = seam.handle(7, "svc/call", &params).unwrap();
    let notice = stream.part(json("{\"TextDelta\":1}"));
    assert_eq!(notice.method, "llm/chunk");
    assert_eq!(notice.params, json("{\"dispatchId\":7,\"part\":{\"TextDelta\":1}}"));
    stream.part(json("{\"Finish\":{\"a\":2}}"));
    assert_eq!(stream.end(), json("{\"finish\":{\"Finish\":{\"a\":2}}}"));
    let silent = seam.handle(8, "svc/call", &params).unwrap();
    assert_eq!(silent.end()["finish"], Value::Null);
}

// ── the runner ──────────────────────────────────────────────────────

#[test]
fn commands_are_split_at_blanks() {
    assert_eq!(shell_split("  node --import\ttsx  bin.js "), vec!["node", "--import", "tsx", "bin.js"]);
    assert!(shell_split("   ").is_empty());
    let extra = vec!["a".to_string(), "b".to_string()];
    let c = host_command(None, &extra);
    assert_eq!(c.program, "dsh");
    assert_eq!(c.args, extra);
    let c = host_command(Some("node bin.js"), &extra);
    assert_eq!(c.program, "node");
    assert_eq!(c.args, vec!["bin.js", "a", "b"]);
    let c = host_command(Some(" "), &extra);
    assert_eq!(c.program, " ");
    assert_eq!(c.args, vec!["b"]);
}

#[test]
fn notes_are_cut_between_characters() {
    assert_eq!(truncate_chars("hello", 5), "hello");
    assert_eq!(truncate_chars("hello", 4), "hell…");
    assert_eq!(truncate_chars("陆陆陆", 9), "陆陆陆");
    assert_eq!(truncate_chars("陆陆陆", 8), "陆陆…");
    assert_eq!(truncate_chars("é", 1), "…");
    assert_eq!(truncate_chars("a😀", 4), "a…");
    let params = json("{\"event\":\"agent/x\",\"params\":{\"a\":1}}");
    assert_eq!(
        event_line("evt/emit", &params).as_deref(),
        Some("[rutis-dsh] evt \"agent/x\" {\"a\":1}")
    );
    assert_eq!(event_line("evt/on", &params), None);
    assert_eq!(
        event_line("evt/emit", &json("{}")).as_deref(),
        Some("[rutis-dsh] evt null null")
    );
    assert_eq!(bridged_line(&json("{\"base\":\"min-cordis\"}")),
        "[rutis-dsh] handshake ok: min-cordis — bridged");
    assert_eq!(bridged_line(&json("{}")), "[rutis-dsh] handshake ok: ? — bridged");
}

#[test]
fn both_the_process_and_the_bridge_are_waited_for() {
    let mut c = Convergence::new();
    assert!(!c.on(Ending::DshExited));
    assert!(!c.on(Ending::DshExited));
    assert!(c.on(Ending::BridgeClosed));
    let mut c = Convergence::new();
    assert!(!c.on(Ending::BridgeClosed));
    assert!(c.on(Ending::DshExited));
}

// ── the command line ────────────────────────────────────────────────

fn args(v: &[&str]) -> Vec<String> {
    v.iter().map(|s| s.to_string()).collect()
}

#[test]
fn the_command_line_is_read_in_order() {
    match parse_args(&args(&[]), None, None) {
        Cli::Run { provider, model, scripted } => {
            assert_eq!((provider.as_str(), model.as_str(), scripted), ("deepseek", "deepseek-chat", false));
        }
        other => panic!("{other:?}"),
    }
    let line = args(&["-p", "\"ollama\"", "--scripted", "--model", "qwen3:8b"]);
    match parse_args(&line, some("x"), some("y")) {
        Cli::Run { provider, model, scripted } => {
            assert_eq!((provider.as_str(), model.as_str(), scripted), ("ollama", "qwen3:8b", true));
        }
        other => panic!("{other:?}"),
    }
    assert!(matches!(parse_args(&args(&["--scripted"]), some("x"), None),
        Cli::Run { provider, .. } if provider == "x"));
    assert!(matches!(parse_args(&args(&["-h", "--bad"]), None, None), Cli::Help));
    assert!(matches!(parse_args(&args(&["--version"]), None, None), Cli::Version));
    let unknown = parse_args(&args(&["--bad"]), None, None);
    assert!(unknown.complaint().unwrap().starts_with("unknown argument: --bad\n\nrutis-cli"));
    let missing = parse_args(&args(&["-m"]), None, None);
    assert!(missing.complaint().unwrap().starts_with("missing value for -m\n\n"));
    assert!(Cli::Help.complaint().is_none());
    assert_eq!(unquote("\"\"a\"b\""), "a\"b");
    assert_eq!(unquote("\"\"\""), "");
}

#[test]
fn the_program_introduces_itself() {
    assert_eq!(intro("p", "m", "/w")[..2], ["backend: p/m".to_string(), "cwd: /w".to_string()]);
    assert_eq!(setup_failure("deepseek", "m", "no key", false).len(), 2);
    assert_eq!(setup_failure("deepseek", "m", "e", true), vec!["failed to build deepseek/m: e"]);
    assert_eq!(setup_failure("ollama", "m", "e", false).len(), 1);
    let script = scripted_responses();
    assert_eq!(script.len(), 2);
    assert_eq!(script[0].tool_calls[0].input["file_text"], "hello from the scripted backend\n");
    assert_eq!(script[0].tool_calls[1].tool_name, "bash");
    assert!(script[1].content.as_deref().unwrap().starts_with("demo done"));
}
