//! Calls between two ends of a bridge: frames, calls in flight, time limits,
//! cancellation, and the life of a session.

use serde_json::Value;
use vstd::prelude::*;

use crate::json;
use crate::json::{json_of, json_opt, Json};
use crate::message::text_opt;
use crate::text::{
    decimal, law_decimal_can_be_read, lemma_found_behind, lemma_occurs_in_front, lemma_regrouped,
    lemma_stands_in, number, occurs, stands_at,
};

verus! {

// ── errors ──────────────────────────────────────────────────────────

/// An error that the other end reports.
#[derive(Debug)]
pub struct RemoteError {
    pub code: String,
    pub message: String,
}

#[verifier::ext_equal]
pub struct RemoteView {
    pub code: Seq<char>,
    pub message: Seq<char>,
}

impl View for RemoteError {
    type V = RemoteView;

    open spec fn view(&self) -> RemoteView {
        RemoteView { code: self.code@, message: self.message@ }
    }
}

impl Clone for RemoteError {
    fn clone(&self) -> (r: Self)
        ensures
            r@ == self@,
    {
        RemoteError { code: self.code.clone(), message: self.message.clone() }
    }
}

/// Why something on a bridge failed.
#[derive(Debug)]
pub enum ProtoError {
    Wire(String),
    Handshake(String),
    Timeout { id: u64, method: String, timeout_ms: u64 },
    TimeoutTooLarge { requested: u64, max: u64 },
    Cancelled { id: u64, method: String },
    Remote { code: String, message: String },
    HostGone,
    DuplicatePlugin { plugin_id: String, existing_entry: String, attempted_entry: String },
    NotReady(String),
}

#[verifier::ext_equal]
pub enum ProtoErrorView {
    Wire(Seq<char>),
    Handshake(Seq<char>),
    Timeout { id: u64, method: Seq<char>, timeout_ms: u64 },
    TimeoutTooLarge { requested: u64, max: u64 },
    Cancelled { id: u64, method: Seq<char> },
    Remote { code: Seq<char>, message: Seq<char> },
    HostGone,
    DuplicatePlugin {
        plugin_id: Seq<char>,
        existing_entry: Seq<char>,
        attempted_entry: Seq<char>,
    },
    NotReady(Seq<char>),
}

impl View for ProtoError {
    type V = ProtoErrorView;

    open spec fn view(&self) -> ProtoErrorView {
        match *self {
            ProtoError::Wire(s) => ProtoErrorView::Wire(s@),
            ProtoError::Handshake(s) => ProtoErrorView::Handshake(s@),
            ProtoError::Timeout { id, method, timeout_ms } => ProtoErrorView::Timeout {
                id,
                method: method@,
                timeout_ms,
            },
            ProtoError::TimeoutTooLarge { requested, max } => ProtoErrorView::TimeoutTooLarge {
                requested,
                max,
            },
            ProtoError::Cancelled { id, method } => ProtoErrorView::Cancelled {
                id,
                method: method@,
            },
            ProtoError::Remote { code, message } => ProtoErrorView::Remote {
                code: code@,
                message: message@,
            },
            ProtoError::HostGone => ProtoErrorView::HostGone,
            ProtoError::DuplicatePlugin { plugin_id, existing_entry, attempted_entry } => ProtoErrorView::DuplicatePlugin {
                plugin_id: plugin_id@,
                existing_entry: existing_entry@,
                attempted_entry: attempted_entry@,
            },
            ProtoError::NotReady(s) => ProtoErrorView::NotReady(s@),
        }
    }
}

/// What an error says.
pub open spec fn proto_error_text(e: ProtoErrorView) -> Seq<char> {
    match e {
        ProtoErrorView::Wire(s) => "wire failure: "@ + s,
        ProtoErrorView::Handshake(s) => "handshake failed: "@ + s,
        ProtoErrorView::Timeout { id, method, timeout_ms } => "call "@ + method + " (id "@
            + decimal(id as nat) + ") timed out after "@ + decimal(timeout_ms as nat) + "ms"@,
        ProtoErrorView::TimeoutTooLarge { requested, max } => "timeout "@ + decimal(
            requested as nat,
        ) + "ms exceeds bridge cap "@ + decimal(max as nat) + "ms"@,
        ProtoErrorView::Cancelled { id, method } => "call "@ + method + " (id "@ + decimal(
            id as nat,
        ) + ") cancelled"@,
        ProtoErrorView::Remote { code, message } => "remote error "@ + code + ": "@ + message,
        ProtoErrorView::HostGone => "host is gone"@,
        ProtoErrorView::DuplicatePlugin { plugin_id, existing_entry, attempted_entry } => "duplicate plugin "@
            + plugin_id + ": existing entry "@ + existing_entry + ", attempted "@
            + attempted_entry,
        ProtoErrorView::NotReady(s) => "bridge not ready: "@ + s,
    }
}

impl ProtoError {
    /// What the error says.
    pub fn message(&self) -> (r: String)
        ensures
            r@ == proto_error_text(self@),
    {
        let mut out = String::new();
        match self {
            ProtoError::Wire(s) => {
                out.push_str("wire failure: ");
                out.push_str(s.as_str());
            },
            ProtoError::Handshake(s) => {
                out.push_str("handshake failed: ");
                out.push_str(s.as_str());
            },
            ProtoError::Timeout { id, method, timeout_ms } => {
                out.push_str("call ");
                out.push_str(method.as_str());
                out.push_str(" (id ");
                out.push_str(number(*id).as_str());
                out.push_str(") timed out after ");
                out.push_str(number(*timeout_ms).as_str());
                out.push_str("ms");
            },
            ProtoError::TimeoutTooLarge { requested, max } => {
                out.push_str("timeout ");
                out.push_str(number(*requested).as_str());
                out.push_str("ms exceeds bridge cap ");
                out.push_str(number(*max).as_str());
                out.push_str("ms");
            },
            ProtoError::Cancelled { id, method } => {
                out.push_str("call ");
                out.push_str(method.as_str());
                out.push_str(" (id ");
                out.push_str(number(*id).as_str());
                out.push_str(") cancelled");
            },
            ProtoError::Remote { code, message } => {
                out.push_str("remote error ");
                out.push_str(code.as_str());
                out.push_str(": ");
                out.push_str(message.as_str());
            },
            ProtoError::HostGone => {
                out.push_str("host is gone");
            },
            ProtoError::DuplicatePlugin { plugin_id, existing_entry, attempted_entry } => {
                out.push_str("duplicate plugin ");
                out.push_str(plugin_id.as_str());
                out.push_str(": existing entry ");
                out.push_str(existing_entry.as_str());
                out.push_str(", attempted ");
                out.push_str(attempted_entry.as_str());
            },
            ProtoError::NotReady(s) => {
                out.push_str("bridge not ready: ");
                out.push_str(s.as_str());
            },
        }
        assert(out@ =~= proto_error_text(self@));
        out
    }
}

// ── frames ──────────────────────────────────────────────────────────

/// One message on the wire. The scope, the session and the turn are carried
/// along for those who know what they mean.
#[derive(Debug)]
pub enum Frame {
    /// A call.
    Req {
        id: u64,
        method: String,
        params: Value,
        scope_id: Option<String>,
        session_id: Option<String>,
        turn_id: Option<String>,
    },
    /// The answer to a call.
    Res {
        id: u64,
        ok: bool,
        result: Option<Value>,
        error: Option<RemoteError>,
        scope_id: Option<String>,
        session_id: Option<String>,
        turn_id: Option<String>,
    },
    /// A message without an answer.
    Ntf {
        method: String,
        params: Value,
        scope_id: Option<String>,
        session_id: Option<String>,
        turn_id: Option<String>,
    },
}

#[verifier::ext_equal]
pub enum FrameView {
    Req {
        id: u64,
        method: Seq<char>,
        params: Json,
        scope_id: Option<Seq<char>>,
        session_id: Option<Seq<char>>,
        turn_id: Option<Seq<char>>,
    },
    Res {
        id: u64,
        ok: bool,
        result: Option<Json>,
        error: Option<RemoteView>,
        scope_id: Option<Seq<char>>,
        session_id: Option<Seq<char>>,
        turn_id: Option<Seq<char>>,
    },
    Ntf {
        method: Seq<char>,
        params: Json,
        scope_id: Option<Seq<char>>,
        session_id: Option<Seq<char>>,
        turn_id: Option<Seq<char>>,
    },
}

pub open spec fn remote_opt(e: Option<RemoteError>) -> Option<RemoteView> {
    match e {
        Some(x) => Some(x@),
        None => None,
    }
}

impl View for Frame {
    type V = FrameView;

    open spec fn view(&self) -> FrameView {
        match *self {
            Frame::Req { id, method, params, scope_id, session_id, turn_id } => FrameView::Req {
                id,
                method: method@,
                params: json_of(params),
                scope_id: text_opt(scope_id),
                session_id: text_opt(session_id),
                turn_id: text_opt(turn_id),
            },
            Frame::Res { id, ok, result, error, scope_id, session_id, turn_id } => FrameView::Res {
                id,
                ok,
                result: json_opt(result),
                error: remote_opt(error),
                scope_id: text_opt(scope_id),
                session_id: text_opt(session_id),
                turn_id: text_opt(turn_id),
            },
            Frame::Ntf { method, params, scope_id, session_id, turn_id } => FrameView::Ntf {
                method: method@,
                params: json_of(params),
                scope_id: text_opt(scope_id),
                session_id: text_opt(session_id),
                turn_id: text_opt(turn_id),
            },
        }
    }
}

/// What an answer says.
#[derive(Debug)]
pub enum Outcome {
    Success(Value),
    Failure(RemoteError),
}

#[verifier::ext_equal]
pub enum OutcomeView {
    Success(Json),
    Failure(RemoteView),
}

impl View for Outcome {
    type V = OutcomeView;

    open spec fn view(&self) -> OutcomeView {
        match *self {
            Outcome::Success(v) => OutcomeView::Success(json_of(v)),
            Outcome::Failure(e) => OutcomeView::Failure(e@),
        }
    }
}

/// What an answer says: a result, which may be left out, or an error. `None`
/// where it contradicts itself.
pub open spec fn answer_outcome(
    ok: bool,
    result: Option<Json>,
    error: Option<RemoteView>,
) -> Option<OutcomeView> {
    match (ok, result, error) {
        (true, Some(r), None) => Some(OutcomeView::Success(r)),
        (true, None, None) => Some(OutcomeView::Success(Json::Null)),
        (false, None, Some(e)) => Some(OutcomeView::Failure(e)),
        _ => None,
    }
}

/// What is said of an answer that contradicts itself.
pub open spec fn malformed_answer(id: u64) -> Seq<char> {
    "malformed res frame for id "@ + decimal(id as nat) + ": ok/载荷不一致"@
}

/// What a frame says as an answer; `None` where it is none.
pub open spec fn frame_outcome(f: FrameView) -> Option<Result<OutcomeView, ProtoErrorView>> {
    match f {
        FrameView::Res { id, ok, result, error, .. } => Some(
            match answer_outcome(ok, result, error) {
                Some(o) => Ok(o),
                None => Err(ProtoErrorView::Wire(malformed_answer(id))),
            },
        ),
        _ => None,
    }
}

pub open spec fn outcome_view(r: Option<Result<Outcome, ProtoError>>) -> Option<
    Result<OutcomeView, ProtoErrorView>,
> {
    match r {
        Some(Ok(o)) => Some(Ok(o@)),
        Some(Err(e)) => Some(Err(e@)),
        None => None,
    }
}

impl Frame {
    /// What the frame says as an answer; `None` where it is none.
    pub fn outcome(&self) -> (r: Option<Result<Outcome, ProtoError>>)
        ensures
            outcome_view(r) == frame_outcome(self@),
    {
        match self {
            Frame::Res { id, ok, result, error, .. } => Some(
                match (*ok, result, error) {
                    (true, Some(v), None) => Ok(Outcome::Success(v.clone())),
                    (true, None, None) => Ok(Outcome::Success(json::null())),
                    (false, None, Some(e)) => Ok(Outcome::Failure(e.clone())),
                    _ => {
                        let mut s = "malformed res frame for id ".to_owned();
                        s.push_str(number(*id).as_str());
                        s.push_str(": ok/载荷不一致");
                        assert(s@ =~= malformed_answer(*id));
                        Err(ProtoError::Wire(s))
                    },
                },
            ),
            _ => None,
        }
    }

    /// The answer to a call.
    pub fn response(id: u64, outcome: Result<Value, RemoteError>) -> (r: Frame)
        ensures
            r@ == answer_frame(id, outcome_of(outcome)),
    {
        match outcome {
            Ok(v) => Frame::Res {
                id,
                ok: true,
                result: Some(v),
                error: None,
                scope_id: None,
                session_id: None,
                turn_id: None,
            },
            Err(e) => Frame::Res {
                id,
                ok: false,
                result: None,
                error: Some(e),
                scope_id: None,
                session_id: None,
                turn_id: None,
            },
        }
    }
}

pub open spec fn outcome_of(r: Result<Value, RemoteError>) -> OutcomeView {
    match r {
        Ok(v) => OutcomeView::Success(json_of(v)),
        Err(e) => OutcomeView::Failure(e@),
    }
}

/// The frame that carries an answer.
pub open spec fn answer_frame(id: u64, o: OutcomeView) -> FrameView {
    FrameView::Res {
        id,
        ok: o is Success,
        result: match o {
            OutcomeView::Success(v) => Some(v),
            OutcomeView::Failure(_) => None,
        },
        error: match o {
            OutcomeView::Success(_) => None,
            OutcomeView::Failure(e) => Some(e),
        },
        scope_id: None,
        session_id: None,
        turn_id: None,
    }
}

/// The frame of a call.
pub open spec fn call_frame(id: u64, method: Seq<char>, params: Json) -> FrameView {
    FrameView::Req { id, method, params, scope_id: None, session_id: None, turn_id: None }
}

/// The frame of a message without an answer.
pub open spec fn note_frame(method: Seq<char>, params: Json) -> FrameView {
    FrameView::Ntf { method, params, scope_id: None, session_id: None, turn_id: None }
}

/// An answer is read back as it was given.
pub proof fn law_answer_roundtrip(id: u64, o: OutcomeView)
    ensures
        frame_outcome(answer_frame(id, o)) == Some(Ok::<OutcomeView, ProtoErrorView>(o)),
{
}

// ── cancellation ────────────────────────────────────────────────────

/// What kind of thing is cancelled.
#[derive(Debug, Clone, Copy, PartialEq, Eq, Structural)]
pub enum CancelPrefix {
    Call,
    Invocation,
    Dispatch,
}

/// What is cancelled.
#[derive(Debug, Clone, Copy, PartialEq, Eq, Structural)]
pub struct CancelTarget {
    pub prefix: CancelPrefix,
    pub id: u64,
}

/// A target as it is written on the wire.
pub open spec fn target_text(t: CancelTarget) -> Seq<char> {
    (match t.prefix {
        CancelPrefix::Call => "call:"@,
        CancelPrefix::Invocation => "inv:"@,
        CancelPrefix::Dispatch => "disp:"@,
    }) + decimal(t.id as nat)
}

impl CancelTarget {
    /// The call of this identifier.
    pub fn call(id: u64) -> (r: CancelTarget)
        ensures
            r.prefix == CancelPrefix::Call,
            r.id == id,
    {
        CancelTarget { prefix: CancelPrefix::Call, id }
    }

    /// The target as it is written on the wire.
    pub fn text(&self) -> (r: String)
        ensures
            r@ == target_text(*self),
    {
        let mut out = match self.prefix {
            CancelPrefix::Call => "call:".to_owned(),
            CancelPrefix::Invocation => "inv:".to_owned(),
            CancelPrefix::Dispatch => "disp:".to_owned(),
        };
        out.push_str(number(self.id).as_str());
        out
    }
}

// ── laws ────────────────────────────────────────────────────────────

/// An answer is a success where it says so and holds no error, a failure where
/// it denies it and holds an error and no result; any other contradicts itself
/// and is refused by the identifier of its call. What is no answer says nothing
/// as one.
pub proof fn law_answers_do_not_contradict_themselves(f: FrameView)
    ensures
        frame_outcome(f) is Some <==> f is Res,
        f is Res && f->ok && f->error is None ==> frame_outcome(f) == Some(
            Ok::<OutcomeView, ProtoErrorView>(
                OutcomeView::Success(
                    match f->result {
                        Some(v) => v,
                        None => Json::Null,
                    },
                ),
            ),
        ),
        f is Res && !f->ok && f->result is None && f->error is Some ==> frame_outcome(f) == Some(
            Ok::<OutcomeView, ProtoErrorView>(OutcomeView::Failure(f->error->0)),
        ),
        f is Res && (f->ok && f->error is Some || !f->ok && f->result is Some || !f->ok && f->error
            is None) ==> frame_outcome(f)->0 is Err && frame_outcome(f)->0->Err_0 is Wire && occurs(
            frame_outcome(f)->0->Err_0->Wire_0,
            " id "@ + decimal(f->Res_id as nat) + ":"@,
        ),
{
    if f is Res {
        let id = f->Res_id;
        let t = " id "@ + decimal(id as nat) + ":"@;
        reveal_strlit("malformed res frame for");
        reveal_strlit(" id ");
        reveal_strlit("malformed res frame for id ");
        assert("malformed res frame for id "@ =~= "malformed res frame for"@ + " id "@);
        reveal_strlit(":");
        reveal_strlit(" ok/载荷不一致");
        reveal_strlit(": ok/载荷不一致");
        assert(": ok/载荷不一致"@ =~= ":"@ + " ok/载荷不一致"@);
        lemma_stands_in("malformed res frame for"@, t, " ok/载荷不一致"@);
        assert("malformed res frame for"@ + t + " ok/载荷不一致"@ =~= malformed_answer(id));
    }
}

/// A call carries its identifier, its method and its arguments, a message its
/// method and its arguments, an answer the identifier of its call; nothing
/// else is carried along.
pub proof fn law_frames_carry_what_they_are_given(
    id: u64,
    method: Seq<char>,
    params: Json,
    o: OutcomeView,
)
    ensures
        call_frame(id, method, params) is Req,
        call_frame(id, method, params)->Req_id == id,
        call_frame(id, method, params)->Req_method == method,
        call_frame(id, method, params)->Req_params == params,
        call_frame(id, method, params)->Req_scope_id is None,
        call_frame(id, method, params)->Req_session_id is None,
        call_frame(id, method, params)->Req_turn_id is None,
        note_frame(method, params) is Ntf,
        note_frame(method, params)->Ntf_method == method,
        note_frame(method, params)->Ntf_params == params,
        answer_frame(id, o) is Res,
        answer_frame(id, o)->Res_id == id,
        answer_frame(id, o)->ok == (o is Success),
        answer_frame(id, o)->result is Some != answer_frame(id, o)->error is Some,
{
}

/// What is cancelled is written so that it can be told from anything else that
/// could be: by what it is and by its number.
pub proof fn law_targets_are_distinct(s: CancelTarget, t: CancelTarget)
    ensures
        target_text(s) == target_text(t) ==> s == t,
        s.prefix is Call ==> target_text(s) == "call:"@ + decimal(s.id as nat),
        s.prefix is Invocation ==> target_text(s) == "inv:"@ + decimal(s.id as nat),
        s.prefix is Dispatch ==> target_text(s) == "disp:"@ + decimal(s.id as nat),
{
    reveal_strlit("call:");
    reveal_strlit("inv:");
    reveal_strlit("disp:");
    law_decimal_can_be_read(s.id as nat);
    law_decimal_can_be_read(t.id as nat);
    if target_text(s) == target_text(t) {
        assert(target_text(s)[0] == target_text(t)[0]);
        assert(s.prefix == t.prefix);
        let n = target_text(s).len() - decimal(s.id as nat).len();
        assert(target_text(s).skip(n) =~= decimal(s.id as nat));
        assert(target_text(t).skip(n) =~= decimal(t.id as nat));
    }
}

/// What an error says names what it is about: a call that took too long with
/// its method, its number and its time; a cancelled call with its method and
/// number; an error of the other end with its code and its words.
pub proof fn law_errors_are_told_by_name(id: u64, method: Seq<char>, n: u64, code: Seq<char>)
    ensures
        ({
            let slow = proto_error_text(ProtoErrorView::Timeout { id, method, timeout_ms: n });
            &&& stands_at(slow, "call "@ + method + " (id "@ + decimal(id as nat), 0)
            &&& occurs(slow, "timed out after "@ + decimal(n as nat))
        }),
        proto_error_text(ProtoErrorView::Cancelled { id, method }) == "call "@ + method + " (id "@
            + decimal(id as nat) + ") cancelled"@,
        proto_error_text(ProtoErrorView::Remote { code, message: method }) == "remote error "@ + code
            + ": "@ + method,
{
    let d = decimal(n as nat);
    let front = "call "@ + method + " (id "@ + decimal(id as nat);
    lemma_slow_call_told(front, d);
}

proof fn lemma_slow_call_told(front: Seq<char>, d: Seq<char>)
    ensures
        ({
            let t = front + ") timed out after "@ + d + "ms"@;
            &&& stands_at(t, front, 0)
            &&& occurs(t, "timed out after "@ + d)
        }),
{
    let t = front + ") timed out after "@ + d + "ms"@;
    assert(stands_at(t, front, 0)) by {
        assert(t.subrange(0, front.len() as int) =~= front);
    }
    assert(") timed out after "@ == ") "@ + "timed out after "@) by {
        reveal_strlit(") ");
        reveal_strlit("timed out after ");
        reveal_strlit(") timed out after ");
        assert(") timed out after "@ =~= ") "@ + "timed out after "@);
    }
    lemma_regrouped(front, ") "@, "timed out after "@);
    lemma_found_behind(front + ") "@, "timed out after "@, d);
    lemma_occurs_in_front(
        front + ") "@ + "timed out after "@ + d,
        "ms"@,
        "timed out after "@ + d,
    );
}

/// A time that is too long is told back, with the longest that is granted.
pub proof fn law_longest_time_is_told(n: u64, max: u64)
    ensures
        ({
            let long = proto_error_text(ProtoErrorView::TimeoutTooLarge { requested: n, max });
            &&& stands_at(long, "timeout "@ + decimal(n as nat), 0)
            &&& occurs(long, "cap "@ + decimal(max as nat))
        }),
{
    let long = proto_error_text(ProtoErrorView::TimeoutTooLarge { requested: n, max });
    let begin = "timeout "@ + decimal(n as nat);
    let bound = decimal(max as nat);
    let front = "ms exceeds bridge "@;
    assert("ms exceeds bridge cap "@ == front + "cap "@) by {
        reveal_strlit("ms exceeds bridge ");
        reveal_strlit("cap ");
        reveal_strlit("ms exceeds bridge cap ");
        assert("ms exceeds bridge cap "@ =~= front + "cap "@);
    }
    assert(stands_at(long, begin, 0)) by {
        assert(long.subrange(0, begin.len() as int) =~= begin);
    }
    lemma_regrouped(begin, front, "cap "@);
    lemma_found_behind(begin + front, "cap "@, bound);
    lemma_occurs_in_front(begin + front + "cap "@ + bound, "ms"@, "cap "@ + bound);
}

} // verus!
