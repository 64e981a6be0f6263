use rutis_agent::bridge::{unhandled, Bridge, BridgeConfig, CallSettled, Inbound};
use rutis_agent::proto::{
    EvtDeclaration, EvtMode, ExpectedHost, HelloCaps, PeerCaps, PluginLedger, WfDeclaration, WfKind,
};
use rutis_agent::rpc::{CancelPrefix, CancelTarget, Frame, Outcome, ProtoError, RemoteError};
use rutis_agent::services::{host_gone_error, PartSender, ServiceDispatch};
use rutis_agent::wire::{frame_line, line_text, LineReader, Piece};
use serde_json::Value;

fn json(s: &str) -> Value {
    serde_json::from_str(s).unwrap()
}

fn strings(v: &[&str]) -> Vec<String> {
    v.iter().map(|s| s.to_string()).collect()
}

fn caps(services: &[&str]) -> PeerCaps {
    PeerCaps { services: strings(services), wf_kinds: Vec::new(), scopes: Vec::new() }
}

fn hello(protocol: u32, base: &str) -> HelloCaps {
    HelloCaps {
        protocol,
        base: base.to_string(),
        base_semver: "0.1.0".to_string(),
        stack: strings(&["node"]),
        caps: caps(&["tools", "shell", "systemPrompt"]),
    }
}

fn req(id: u64, method: &str, params: &str) -> Frame {
    Frame::Req {
        id,
        method: method.to_string(),
        params: json(params),
        scope_id: None,
        session_id: None,
        turn_id: None,
    }
}

fn ntf(method: &str) -> Frame {
    Frame::Ntf {
        method: method.to_string(),
        params: json("{}"),
        scope_id: None,
        session_id: None,
        turn_id: None,
    }
}

fn res(id: u64, ok: bool, result: Option<Value>, error: Option<RemoteError>) -> Frame {
    Frame::Res { id, ok, result, error, scope_id: None, session_id: None, turn_id: None }
}

fn remote_error(code: &str, message: &str) -> RemoteError {
    RemoteError { code: code.to_string(), message: message.to_string() }
}

const OWN_CAPS: &str = "{\"services\":[\"observe\"],\"wfKinds\":[],\"scopes\":[]}";

fn new_bridge(config: BridgeConfig, expected: ExpectedHost, own: &str) -> Bridge {
    Bridge::start(config, expected, "0.1.0".to_string(), json(own))
}

fn nobody() -> Vec<u64> {
    Vec::new()
}

/// A bridge whose host has said hello.
fn ready_with(config: BridgeConfig) -> Bridge {
    let mut b = new_bridge(config, ExpectedHost::protocol(1), OWN_CAPS);
    let params = match b.receive(req(1, "hello", "{\"base\":\"min-cordis\"}"), &nobody()) {
        Inbound::Hello { id, params } => {
            assert_eq!(id, 1);
            params
        }
        other => panic!("{other:?}"),
    };
    b.handle_hello(1, Ok(hello(1, "min-cordis")), Ok(())).expect("greeting is accepted");
    b.hello_sent(params, true).expect("the session is open");
    b
}

fn ready() -> Bridge {
    ready_with(BridgeConfig::default())
}

#[test]
fn m1_plugin_ledger_arbitration() {
    let mut ledger = PluginLedger::default();
    ledger.load("tool-bash", "npm:@deepseek-ai/dsh-tool-bash").expect("first load");
    // The same id with the same entry loads again.
    ledger.load("tool-bash", "npm:@deepseek-ai/dsh-tool-bash").expect("idempotent reload");
    // The same id with another entry is refused, and the holder is named.
    match ledger.load("tool-bash", "file:/local/tool-bash") {
        Err(ProtoError::DuplicatePlugin { plugin_id, existing_entry, attempted_entry }) => {
            assert_eq!(plugin_id, "tool-bash");
            assert_eq!(existing_entry, "npm:@deepseek-ai/dsh-tool-bash");
            assert_eq!(attempted_entry, "file:/local/tool-bash");
        }
        e => panic!("expected DuplicatePlugin, got {e:?}"),
    }
    // Once unloaded the entry may change.
    assert!(ledger.unload("tool-bash"));
    ledger.load("tool-bash", "file:/local/tool-bash").expect("load after unload");
    assert_eq!(ledger.entry("tool-bash"), Some("file:/local/tool-bash"));
    assert!(!ledger.unload("absent"));
}

#[test]
fn plugin_ledger_arbitration() {
    let mut ledger = PluginLedger::default();
    ledger.load("tool-bash", "npm:@deepseek-ai/dsh-tool-bash").expect("first load");
    // The same id with the same entry loads again.
    ledger.load("tool-bash", "npm:@deepseek-ai/dsh-tool-bash").expect("idempotent reload");
    // The same id with another entry is refused, and the holder is named.
    match ledger.load("tool-bash", "file:/local/tool-bash") {
        Err(ProtoError::DuplicatePlugin { plugin_id, existing_entry, attempted_entry }) => {
            assert_eq!(plugin_id, "tool-bash");
            assert_eq!(existing_entry, "npm:@deepseek-ai/dsh-tool-bash");
            assert_eq!(attempted_entry, "file:/local/tool-bash");
        }
        e => panic!("expected DuplicatePlugin, got {e:?}"),
    }
    // Once unloaded the entry may change.
    assert!(ledger.unload("tool-bash"));
    ledger.load("tool-bash", "file:/local/tool-bash").expect("load after unload");
    assert_eq!(ledger.entry("tool-bash"), Some("file:/local/tool-bash"));
    assert!(!ledger.unload("absent"));
}

#[test]
fn the_ledger_counts_its_plugins() {
    let mut ledger = PluginLedger::default();
    assert!(ledger.is_empty());
    ledger.load("a", "x").unwrap();
    ledger.load("b", "x").unwrap();
    assert_eq!(ledger.len(), 2);
    assert_eq!(ledger.entry("c"), None);
    assert!(ledger.unload("a"));
    assert_eq!(ledger.len(), 1);
    assert_eq!(ledger.entry("b"), Some("x"));
}

fn evt(name: &str, mode: &str) -> Option<EvtDeclaration> {
    EvtMode::from_name(mode).map(|mode| EvtDeclaration { name: name.to_string(), mode })
}

#[test]
fn m1_evt_mode_accepts_three_dispatch_semantics_and_rejects_others() {
    let emit = evt("agent/tool-call", "emit").expect("emit");
    assert_eq!(emit.mode, EvtMode::Emit);
    let parallel = evt("session/flush", "parallel").expect("parallel");
    assert_eq!(parallel.mode, EvtMode::Parallel);
    let serial = evt("agent/turn-stopping", "serial").expect("serial");
    assert_eq!(serial.mode, EvtMode::Serial);
    assert!(evt("x", "waterfall").is_none());
}

#[test]
fn wf_kind_three_shapes_frozen() {
    let wf = |name: &str, kind: &str| {
        WfKind::from_name(kind).map(|kind| WfDeclaration { name: name.to_string(), kind })
    };
    assert_eq!(wf("tools/pre-execute", "decide").expect("decide").kind, WfKind::Decide);
    assert_eq!(wf("tools/execute", "around").expect("around").kind, WfKind::Around);
    assert_eq!(wf("agent/text-delta", "stream").expect("stream").kind, WfKind::Stream);
    assert!(wf("x", "waterfall").is_none());
    assert!(wf("x", "emit").is_none());
}

#[test]
fn wire_names_lead_back() {
    for m in [EvtMode::Emit, EvtMode::Parallel, EvtMode::Serial] {
        assert_eq!(EvtMode::from_name(m.name()), Some(m));
    }
    for k in [WfKind::Decide, WfKind::Around, WfKind::Stream] {
        assert_eq!(WfKind::from_name(k.name()), Some(k));
    }
}

#[test]
fn m1_capability_diff_rejects_load_with_missing_services() {
    let peer = caps(&["tools", "shell", "systemPrompt"]);
    let missing = peer.missing_services(&strings(&["tools", "approval", "jobs"]));
    assert_eq!(missing, vec!["approval".to_string(), "jobs".to_string()]);
    assert!(peer.missing_services(&strings(&["tools", "shell"])).is_empty());
}

#[test]
fn m1_roundtrip_ok_and_remote_error() {
    let mut b = ready();
    let call = b.request("svc/call".to_string(), json("{\"a\":1}"), None).unwrap();
    match &call.frame {
        Frame::Req { id, method, params, .. } => {
            assert_eq!(*id, call.id);
            assert_eq!(method, "svc/call");
            assert_eq!(params["a"], 1);
        }
        other => panic!("{other:?}"),
    }
    match b.receive(res(call.id, true, Some(json("{\"answer\":42}")), None), &nobody()) {
        Inbound::Deliver { id, outcome: Outcome::Success(v) } => {
            assert_eq!(id, call.id);
            let got = Bridge::settle(id, "svc/call".to_string(), CallSettled::Res(Ok(v))).unwrap();
            assert_eq!(got["answer"], 42);
        }
        other => panic!("{other:?}"),
    }

    let call = b.request("svc/call".to_string(), json("{}"), None).unwrap();
    let error = remote_error("notFound", "service missing");
    match b.receive(res(call.id, false, None, Some(error)), &nobody()) {
        Inbound::Deliver { id, outcome: Outcome::Failure(e) } => {
            match Bridge::settle(id, "svc/call".to_string(), CallSettled::Res(Err(e))) {
                Err(ProtoError::Remote { code, message }) => {
                    assert_eq!(code, "notFound");
                    assert_eq!(message, "service missing");
                }
                e => panic!("expected Remote, got {e:?}"),
            }
        }
        other => panic!("{other:?}"),
    }
}

#[test]
fn m1_concurrent_calls_complete_out_of_order() {
    let mut b = ready();
    let ids: Vec<u64> = (0..3)
        .map(|_| b.request("svc/call".to_string(), json("{}"), None).unwrap().id)
        .collect();
    for i in [2, 0, 1] {
        match b.receive(res(ids[i], true, Some(json(&format!("{i}"))), None), &nobody()) {
            Inbound::Deliver { id, outcome: Outcome::Success(v) } => {
                assert_eq!(id, ids[i]);
                assert_eq!(v, i);
            }
            other => panic!("{other:?}"),
        }
    }
    assert_eq!(b.stats().orphan_responses, 0);
}

#[test]
fn cancel_settles_as_cancelled_and_late_res_counts_orphan() {
    let mut b = ready();
    let id = b.request("svc/call".to_string(), json("{}"), None).unwrap().id;
    let (told, frame) = b.cancel(CancelTarget::call(id), &nobody()).expect("cancel notify");
    assert!(told);
    match Bridge::settle(id, "svc/call".to_string(), CallSettled::Cancelled) {
        Err(ProtoError::Cancelled { id: cid, method }) => {
            assert_eq!(cid, id);
            assert_eq!(method, "svc/call");
        }
        e => panic!("expected Cancelled, got {e:?}"),
    }
    match frame {
        Frame::Ntf { method, params, .. } => {
            assert_eq!(method, "cancel");
            assert_eq!(params["target"], format!("call:{id}"));
        }
        other => panic!("{other:?}"),
    }
    assert!(matches!(b.receive(res(id, true, Some(json("{}")), None), &nobody()), Inbound::Ignore));
    assert_eq!(b.stats().orphan_responses, 1);
}

#[test]
fn targets_are_written_with_their_kind() {
    let t = |prefix| CancelTarget { prefix, id: 7 }.text();
    assert_eq!(t(CancelPrefix::Call), "call:7");
    assert_eq!(t(CancelPrefix::Invocation), "inv:7");
    assert_eq!(t(CancelPrefix::Dispatch), "disp:7");
}

#[test]
fn m1_caller_declared_timeout_fails_without_waiting() {
    let mut b = ready_with(BridgeConfig { default_timeout_ms: 25, max_timeout_ms: 500 });
    let call = b.request("svc/call".to_string(), json("{}"), Some(40)).unwrap();
    assert_eq!(call.timeout_ms, 40);
    match b.timed_out(call.id, "svc/call".to_string(), 40) {
        ProtoError::Timeout { id, method, timeout_ms } => {
            assert_eq!(id, call.id);
            assert_eq!(method, "svc/call");
            assert_eq!(timeout_ms, 40);
        }
        e => panic!("expected Timeout, got {e:?}"),
    }
    assert!(matches!(
        b.receive(res(call.id, true, Some(json("{}")), None), &nobody()),
        Inbound::Ignore
    ));
    assert_eq!(b.stats().orphan_responses, 1);
    match b.request("svc/call".to_string(), json("{}"), Some(10_000)) {
        Err(ProtoError::TimeoutTooLarge { requested, max }) => {
            assert_eq!((requested, max), (10_000, 500));
        }
        e => panic!("expected TimeoutTooLarge, got {e:?}"),
    }
    assert_eq!(b.request("svc/call".to_string(), json("{}"), None).unwrap().timeout_ms, 25);
}

fn handshake_reason(b: &Bridge) -> String {
    match b.ready() {
        Some(Err(ProtoError::Handshake(reason))) => reason,
        e => panic!("expected Handshake, got {e:?}"),
    }
}

/// What a host is told whose greeting is refused.
fn greet(
    b: &mut Bridge,
    parsed: Result<HelloCaps, String>,
    verified: Result<(), String>,
) -> Frame {
    let reason = b.handle_hello(1, parsed, verified).expect_err("greeting is refused");
    // The refusal alone changes nothing.
    assert!(b.ready().is_none());
    b.refuse(1, reason)
}

#[test]
fn m1_handshake_protocol_mismatch_fails_at_handshake() {
    let mut b = new_bridge(BridgeConfig::default(), ExpectedHost::protocol(1), "{}");
    b.receive(req(1, "hello", "{}"), &nobody());
    match greet(&mut b, Ok(hello(2, "min-cordis")), Ok(())) {
        Frame::Res { ok, error, .. } => {
            assert!(!ok);
            let error = error.expect("error payload");
            assert_eq!(error.code, "handshake");
            assert!(error.message.contains("protocol version mismatch"), "{}", error.message);
        }
        other => panic!("{other:?}"),
    }
    assert!(handshake_reason(&b).contains("protocol version mismatch"));
}

#[test]
fn handshake_base_pin_rejects_wrong_base() {
    let expected = ExpectedHost { protocol: 1, base: Some("min-cordis".into()) };
    let mut b = new_bridge(BridgeConfig::default(), expected, "{}");
    b.receive(req(1, "hello", "{}"), &nobody());
    match greet(&mut b, Ok(hello(1, "cordis")), Ok(())) {
        Frame::Res { error, .. } => {
            assert!(error.expect("error payload").message.contains("base mismatch"));
        }
        other => panic!("{other:?}"),
    }
    assert!(handshake_reason(&b).contains("base mismatch"));
}

#[test]
fn a_greeting_that_cannot_be_read_or_is_not_wanted_fails() {
    let start = || {
        let mut b = new_bridge(BridgeConfig::default(), ExpectedHost::protocol(1), "{}");
        b.receive(req(1, "hello", "{}"), &nobody());
        b
    };
    let mut b = start();
    greet(&mut b, Err("missing field".to_string()), Ok(()));
    assert!(handshake_reason(&b).contains("missing field"));
    let mut b = start();
    greet(&mut b, Ok(hello(1, "x")), Err("no dsh node".to_string()));
    assert!(handshake_reason(&b).contains("no dsh node"));
    let mut b = start();
    b.handle_hello(1, Ok(hello(1, "x")), Ok(())).unwrap();
    let reason = b.hello_sent(json("{}"), false).unwrap_err();
    assert!(b.ready().is_none());
    b.refuse(1, reason);
    assert!(handshake_reason(&b).contains("host closed during handshake"));
}

#[test]
fn first_frame_ntf_rejected() {
    let mut b = new_bridge(BridgeConfig::default(), ExpectedHost::protocol(1), "{}");
    assert!(matches!(b.receive(ntf("evt/emit"), &nobody()), Inbound::Close { .. }));
    assert!(handshake_reason(&b).contains("first frame must be hello"));
}

#[test]
fn first_frame_res_rejected() {
    let mut b = new_bridge(BridgeConfig::default(), ExpectedHost::protocol(1), "{}");
    let frame = res(9, true, Some(json("{}")), None);
    assert!(matches!(b.receive(frame, &nobody()), Inbound::Close { .. }));
    assert!(handshake_reason(&b).contains("first frame must be hello"));
}

#[test]
fn first_frame_req_must_be_hello() {
    let mut b = new_bridge(BridgeConfig::default(), ExpectedHost::protocol(1), "{}");
    match b.receive(req(1, "evt/on", "{}"), &nobody()) {
        Inbound::Close { reply: Some(Frame::Res { ok, error, .. }) } => {
            assert!(!ok);
            assert!(error.expect("error payload").message.contains("first frame must be hello"));
        }
        other => panic!("{other:?}"),
    }
    assert!(handshake_reason(&b).contains("first frame must be hello"));
}

#[test]
fn m1_handshake_replies_symmetric_capability_set() {
    let own = "{\"services\":[\"llm\"],\"wfKinds\":[\"decide\"],\"scopes\":[\"session\"]}";
    let mut b = new_bridge(BridgeConfig::default(), ExpectedHost::protocol(1), own);
    assert!(b.ready().is_none());
    b.receive(req(1, "hello", "{}"), &nobody());
    let reply = match b.handle_hello(1, Ok(hello(1, "min-cordis")), Ok(())) {
        Ok(Frame::Res { ok: true, result: Some(v), .. }) => v,
        other => panic!("{other:?}"),
    };
    assert_eq!(reply["protocol"], 1);
    assert_eq!(reply["base"], "rutis");
    assert_eq!(reply["caps"]["services"], json("[\"llm\"]"));
    assert_eq!(reply["caps"]["wfKinds"], json("[\"decide\"]"));
    b.hello_sent(json("{\"base\":\"min-cordis\"}"), true).unwrap();
    assert_eq!(b.ready().unwrap().unwrap()["base"], "min-cordis");
}

#[test]
fn reentrant_events_processed_before_call_settles() {
    let mut b = ready();
    let id = b.request("svc/call".to_string(), json("{}"), None).unwrap().id;
    assert!(matches!(b.receive(ntf("evt/emit"), &nobody()), Inbound::Note { method, .. }
        if method == "evt/emit"));
    assert!(matches!(
        b.receive(res(id, true, None, None), &nobody()),
        Inbound::Deliver { outcome: Outcome::Success(Value::Null), .. }
    ));
}

#[test]
fn m1_host_death_fails_pending_calls_and_records_continuity() {
    let mut b = ready();
    let one = b.request("svc/call".to_string(), json("{}"), None).unwrap().id;
    let two = b.request("svc/other".to_string(), json("{}"), None).unwrap().id;
    assert!(b.wait_disconnect().is_none());
    let mut told = b.host_gone(&nobody());
    told.sort_unstable();
    assert_eq!(told, vec![one, two]);
    assert!(matches!(
        Bridge::settle(one, "svc/call".to_string(), CallSettled::HostGone),
        Err(ProtoError::HostGone)
    ));
    let record = b.wait_disconnect().expect("on record");
    let mut pending = record.pending.clone();
    pending.sort_unstable();
    assert_eq!(
        pending,
        vec![(one, "svc/call".to_string()), (two, "svc/other".to_string())]
    );
    assert_eq!(record.frames_received, 1);
    assert!(matches!(b.ready(), Some(Err(ProtoError::HostGone))));
    assert!(b.request("svc/call".to_string(), json("{}"), None).is_err());
    // Going down once more tells nobody and changes nothing.
    assert!(b.host_gone(&nobody()).is_empty());
    assert_eq!(b.gone_record().pending.len(), 2);
}

#[test]
fn callers_that_gave_up_count_as_orphans() {
    let mut b = ready();
    let id = b.request("svc/call".to_string(), json("{}"), None).unwrap().id;
    assert!(matches!(b.receive(res(id, true, None, None), &vec![id]), Inbound::Ignore));
    assert_eq!(b.stats().orphan_responses, 1);
}

#[test]
fn calls_wait_for_the_greeting() {
    let mut b = new_bridge(BridgeConfig::default(), ExpectedHost::protocol(1), "{}");
    assert!(matches!(
        b.request("svc/call".to_string(), json("{}"), None),
        Err(ProtoError::NotReady(_))
    ));
    assert!(b.notify("evt/emit", json("{}")).is_err());
    assert!(ready().notify("evt/emit", json("{}")).is_ok());
    assert!(ready().check_open().is_ok());
}

#[test]
fn calls_of_the_host_are_served() {
    let mut b = ready();
    match b.receive(req(7, "svc/call", "{\"x\":1}"), &nobody()) {
        Inbound::Serve { id, method, params } => {
            assert_eq!((id, method.as_str()), (7, "svc/call"));
            assert_eq!(params["x"], 1);
        }
        other => panic!("{other:?}"),
    }
    let e = unhandled("svc/call");
    assert_eq!(e.code, "unhandled");
    assert_eq!(e.message, "no request handler for svc/call");
    b.frame_sent();
    assert_eq!(b.stats().frames_sent, 2);
    let id = b.request("svc/call".to_string(), json("{}"), None).unwrap().id;
    b.send_failed(id);
    assert!(matches!(b.receive(res(id, true, None, None), &nobody()), Inbound::Ignore));
}

#[test]
fn answers_say_what_their_flag_says() {
    let ok = res(1, true, Some(json("5")), None);
    assert!(matches!(ok.outcome(), Some(Ok(Outcome::Success(v))) if v == 5));
    let empty = res(1, true, None, None);
    assert!(matches!(empty.outcome(), Some(Ok(Outcome::Success(Value::Null)))));
    let both = res(1, true, Some(json("5")), Some(remote_error("a", "b")));
    assert!(matches!(both.outcome(), Some(Err(ProtoError::Wire(_)))));
    let none = res(1, false, None, None);
    assert!(matches!(none.outcome(), Some(Err(ProtoError::Wire(_)))));
    assert!(ntf("x").outcome().is_none());
    let back = Frame::response(3, Err(remote_error("a", "b")));
    assert!(matches!(back.outcome(), Some(Ok(Outcome::Failure(e))) if e.code == "a"));
}

#[test]
fn errors_are_told_in_words() {
    let words = |e: ProtoError| e.message();
    assert!(words(ProtoError::Wire("w".into())).contains('w'));
    assert!(words(ProtoError::Handshake("h".into())).contains('h'));
    assert!(words(ProtoError::Timeout { id: 3, method: "m".into(), timeout_ms: 40 })
        .contains("40"));
    assert!(words(ProtoError::TimeoutTooLarge { requested: 9, max: 5 }).contains('9'));
    assert!(words(ProtoError::Cancelled { id: 3, method: "m".into() }).contains('m'));
    assert!(words(ProtoError::Remote { code: "c".into(), message: "why".into() })
        .contains("why"));
    assert!(!words(ProtoError::HostGone).is_empty());
    assert!(words(ProtoError::NotReady("n".into())).contains('n'));
    assert!(words(ProtoError::DuplicatePlugin {
        plugin_id: "p".into(),
        existing_entry: "one".into(),
        attempted_entry: "two".into(),
    })
    .contains("one"));
}

#[test]
fn hello_caps_derive_from_the_registry() {
    let dispatch = ServiceDispatch::new(&strings(&["llm", "echo", "llm"]));
    assert_eq!(dispatch.names(), vec!["echo".to_string(), "llm".to_string()]);
}

#[test]
fn unknown_service_and_method_are_classified_remote_errors() {
    let mut dispatch = ServiceDispatch::new(&strings(&["llm"]));
    let code = |d: &ServiceDispatch, method: &str, params: &str| {
        d.dispatch(method, &json(params)).unwrap_err().code
    };
    let good = "{\"service\":\"llm\",\"method\":\"stream\",\"params\":{\"a\":1}}";
    assert_eq!(code(&dispatch, "svc/call", good), "notAttached");
    dispatch.attach();
    assert_eq!(code(&dispatch, "svc/call", "{\"service\":\"nope\",\"method\":\"stream\"}"), "noService");
    assert_eq!(code(&dispatch, "evt/on", good), "unhandled");
    assert_eq!(code(&dispatch, "svc/call", "{}"), "badRequest");
    assert_eq!(code(&dispatch, "svc/call", "{\"service\":\"llm\"}"), "badRequest");
    let message = dispatch
        .dispatch("svc/call", &json("{\"service\":\"a\\\"b\",\"method\":\"m\"}"))
        .unwrap_err()
        .message;
    assert_eq!(message, "no service named \"a\\\"b\" registered");
    let call = dispatch.dispatch("svc/call", &json(good)).unwrap();
    assert_eq!((call.service.as_str(), call.method.as_str()), ("llm", "stream"));
    assert_eq!(call.params["a"], 1);
    let bare = json("{\"service\":\"llm\",\"method\":\"stream\"}");
    assert_eq!(dispatch.dispatch("svc/call", &bare).unwrap().params, json("{}"));
}

#[test]
fn stream_parts_flow_as_svc_part_ntfs_in_order_with_res_tail() {
    let mut dispatch = ServiceDispatch::new(&strings(&["llm"]));
    dispatch.attach();
    let asked = json(
        "{\"service\":\"llm\",\"method\":\"stream\",\"params\":\
         {\"provider\":\"scripted\",\"model\":\"chunked\",\"options\":{}}}",
    );
    let call = dispatch.dispatch("svc/call", &asked).unwrap();
    assert_eq!(call.params["model"], "chunked");
    let delta = |s: &str| json(&format!("{{\"TextDelta\":{{\"id\":\"text-0\",\"delta\":\"{s}\"}}}}"));
    let parts = vec![
        json("{\"StreamStart\":{\"warnings\":[]}}"),
        delta("hel"),
        delta("lo "),
        delta("m2"),
        json("{\"Finish\":{}}"),
    ];
    let dispatch_id: u64 = 7;
    let mut sender = PartSender::new(dispatch_id);
    let mut kinds = Vec::new();
    let mut texts = String::new();
    for part in parts {
        let params = sender.part(Ok(part)).unwrap();
        assert_eq!(params["dispatchId"], dispatch_id);
        let part = &params["part"];
        if let Some(delta) = part["TextDelta"]["delta"].as_str() {
            texts.push_str(delta);
        }
        kinds.extend(part.as_object().and_then(|m| m.keys().next()).cloned());
    }
    assert_eq!(kinds, vec!["StreamStart", "TextDelta", "TextDelta", "TextDelta", "Finish"]);
    assert_eq!(texts, "hello m2");
    assert_eq!(sender.finish()["parts"], 5);
}

#[test]
fn a_part_that_fails_ends_the_stream() {
    let mut sender = PartSender::new(7);
    assert_eq!(sender.part(Err(remote_error("x", "y"))).unwrap_err().code, "x");
    assert_eq!(sender.finish()["parts"], 0);
    assert_eq!(host_gone_error("gone".to_string()).code, "hostGone");
}

#[test]
fn lines_are_cut_from_pieces() {
    let mut reader = LineReader::new();
    assert!(matches!(reader.take(&b"{\"a\"".to_vec()), (Piece::More, 4)));
    match reader.take(&b":1}\nrest".to_vec()) {
        (Piece::Line(line), used) => {
            assert_eq!(used, 4);
            assert_eq!(line_text(line).as_deref(), Some("{\"a\":1}"));
        }
        other => panic!("{other:?}"),
    }
    assert_eq!(line_text(vec![0xff, 0xfe]), None);
    assert_eq!(frame_line("{}"), "{}\n");
}
