//! One end of a bridge: the handshake, the calls in flight and the end of the
//! session.
//!
//! The bridge decides; its host owns the wire, the clock and the tasks that
//! wait for answers. Where a decision depends on whether the caller of a call
//! still waits, the host says which callers gave up.

use serde_json::Value;
use vstd::prelude::*;

use crate::json;
use crate::json::{distinct_fields, fields_in, fields_map, json_of, json_seq, Json};
use crate::message::text_opt;
use crate::proto::{ExpectedHost, HelloCaps};
use crate::rpc::{
    answer_frame, call_frame, frame_outcome, note_frame, target_text, CancelPrefix, CancelTarget,
    Frame, FrameView, Outcome, OutcomeView, ProtoError, ProtoErrorView, RemoteError, RemoteView,
};
use crate::text::{decimal, lemma_regrouped, lemma_stands_in, number, occurs, same, stands_at};

verus! {

// ── configuration and observation ───────────────────────────────────

/// The time that calls may take: what they get by default, and what they may
/// ask for at most.
#[derive(Debug, Clone, Copy)]
pub struct BridgeConfig {
    pub default_timeout_ms: u64,
    pub max_timeout_ms: u64,
}

impl Default for BridgeConfig {
    fn default() -> (r: Self)
        ensures
            r.default_timeout_ms == 30_000,
            r.max_timeout_ms == 120_000,
    {
        BridgeConfig { default_timeout_ms: 30_000, max_timeout_ms: 120_000 }
    }
}

/// What a bridge has counted. An orphan is an answer that nobody waited for.
#[derive(Debug, Clone, Copy)]
pub struct BridgeStats {
    pub frames_sent: u64,
    pub frames_received: u64,
    pub orphan_responses: u64,
}

/// What there was when the host went away: the calls in flight, and what had
/// been counted.
#[derive(Debug)]
pub struct HostGoneRecord {
    pub pending: Vec<(u64, String)>,
    pub orphan_responses: u64,
    pub frames_received: u64,
}

#[verifier::ext_equal]
pub struct RecordView {
    pub pending: Seq<(u64, Seq<char>)>,
    pub orphans: u64,
    pub received: u64,
}

/// The calls of a list.
pub open spec fn call_list(v: Seq<(u64, String)>) -> Seq<(u64, Seq<char>)> {
    Seq::new(v.len(), |i: int| (v[i].0, v[i].1@))
}

impl View for HostGoneRecord {
    type V = RecordView;

    open spec fn view(&self) -> RecordView {
        RecordView {
            pending: call_list(self.pending@),
            orphans: self.orphan_responses,
            received: self.frames_received,
        }
    }
}

fn copy_calls(v: &Vec<(u64, String)>) -> (r: Vec<(u64, String)>)
    ensures
        call_list(r@) == call_list(v@),
{
    let mut out: Vec<(u64, String)> = Vec::new();
    let mut i: usize = 0;
    while i < v.len()
        invariant
            i <= v@.len(),
            call_list(out@) == call_list(v@).take(i as int),
        decreases v@.len() - i,
    {
        let ghost before = call_list(out@);
        out.push((v[i].0, v[i].1.clone()));
        assert(call_list(out@) =~= before.push(call_list(v@)[i as int]));
        assert(call_list(v@).take(i + 1) =~= call_list(v@).take(i as int).push(
            call_list(v@)[i as int],
        ));
        i = i + 1;
    }
    assert(call_list(v@).take(i as int) =~= call_list(v@));
    out
}

impl Clone for HostGoneRecord {
    fn clone(&self) -> (r: Self)
        ensures
            r@ == self@,
    {
        HostGoneRecord {
            pending: copy_calls(&self.pending),
            orphan_responses: self.orphan_responses,
            frames_received: self.frames_received,
        }
    }
}

/// Where a session stands. It begins connecting; it becomes ready or fails;
/// and it may be cut off at any time.
#[derive(Debug)]
pub enum SessionState {
    Connecting,
    /// The handshake is done; this is what the host sent in it.
    Ready(Value),
    /// The handshake failed.
    Failed(String),
    /// The host is gone.
    Disconnected(HostGoneRecord),
}

#[verifier::ext_equal]
pub enum StateView {
    Connecting,
    Ready(Json),
    Failed(Seq<char>),
    Disconnected(RecordView),
}

impl View for SessionState {
    type V = StateView;

    open spec fn view(&self) -> StateView {
        match *self {
            SessionState::Connecting => StateView::Connecting,
            SessionState::Ready(v) => StateView::Ready(json_of(v)),
            SessionState::Failed(s) => StateView::Failed(s@),
            SessionState::Disconnected(r) => StateView::Disconnected(r@),
        }
    }
}

// ── the bridge ──────────────────────────────────────────────────────

/// One end of a bridge.
#[derive(Debug)]
pub struct Bridge {
    config: BridgeConfig,
    expected: ExpectedHost,
    base_semver: String,
    own_caps: Value,
    state: SessionState,
    pending: Vec<(u64, String)>,
    next_id: u64,
    stats: BridgeStats,
    gone: Option<HostGoneRecord>,
}

#[verifier::ext_equal]
pub struct BridgeView {
    pub default_timeout_ms: u64,
    pub max_timeout_ms: u64,
    pub protocol: u32,
    pub base: Option<Seq<char>>,
    pub base_semver: Seq<char>,
    pub own_caps: Json,
    pub state: StateView,
    pub pending: Seq<(u64, Seq<char>)>,
    pub next_id: u64,
    pub sent: u64,
    pub received: u64,
    pub orphans: u64,
    pub gone: Option<RecordView>,
}

pub open spec fn record_opt(r: Option<HostGoneRecord>) -> Option<RecordView> {
    match r {
        Some(x) => Some(x@),
        None => None,
    }
}

impl View for Bridge {
    type V = BridgeView;

    closed spec fn view(&self) -> BridgeView {
        BridgeView {
            default_timeout_ms: self.config.default_timeout_ms,
            max_timeout_ms: self.config.max_timeout_ms,
            protocol: self.expected.protocol,
            base: text_opt(self.expected.base),
            base_semver: self.base_semver@,
            own_caps: json_of(self.own_caps),
            state: self.state@,
            pending: call_list(self.pending@),
            next_id: self.next_id,
            sent: self.stats.frames_sent,
            received: self.stats.frames_received,
            orphans: self.stats.orphan_responses,
            gone: record_opt(self.gone),
        }
    }
}

/// The count after `n`; it begins anew behind the largest.
pub open spec fn counted(n: u64) -> u64 {
    if n == u64::MAX {
        0
    } else {
        (n + 1) as u64
    }
}

/// The count after `n`, `k` times over.
pub open spec fn counted_times(n: u64, k: nat) -> u64
    decreases k,
{
    if k == 0 {
        n
    } else {
        counted(counted_times(n, (k - 1) as nat))
    }
}

/// The session is over.
pub open spec fn is_over(s: StateView) -> bool {
    s is Failed || s is Disconnected
}

/// A call of this identifier is in flight.
pub open spec fn in_flight(pending: Seq<(u64, Seq<char>)>, id: u64) -> bool {
    exists|i: int| 0 <= i < pending.len() && (#[trigger] pending[i]).0 == id
}

/// Holds of every call but the one of this identifier.
pub open spec fn other_than(id: u64) -> spec_fn((u64, Seq<char>)) -> bool {
    |c: (u64, Seq<char>)| c.0 != id
}

/// The calls in flight but the one of this identifier.
pub open spec fn without_call(pending: Seq<(u64, Seq<char>)>, id: u64) -> Seq<(u64, Seq<char>)> {
    pending.filter(other_than(id))
}

/// The calls among `pending` whose callers gave up.
pub open spec fn abandoned(pending: Seq<(u64, Seq<char>)>, gave_up: Seq<u64>) -> Seq<
    (u64, Seq<char>),
> {
    pending.filter(|c: (u64, Seq<char>)| gave_up.contains(c.0))
}

/// What holds of every bridge: each call in flight has an identifier of its
/// own, given out before; only a session that is ready has any; and when the
/// session is over its end is on record.
pub open spec fn orderly(b: BridgeView) -> bool {
    &&& forall|i: int, j: int|
        0 <= i < j < b.pending.len() ==> (#[trigger] b.pending[i]).0 != (#[trigger] b.pending[j]).0
    &&& forall|i: int| 0 <= i < b.pending.len() ==> (#[trigger] b.pending[i]).0 < b.next_id
    &&& b.pending.len() > 0 ==> b.state is Ready
    &&& b.gone is Some <==> is_over(b.state)
}

/// Why a session takes no calls.
pub open spec fn closed_error(s: StateView) -> Option<ProtoErrorView> {
    match s {
        StateView::Ready(_) => None,
        StateView::Connecting => Some(ProtoErrorView::NotReady("handshake not completed"@)),
        StateView::Failed(reason) => Some(
            ProtoErrorView::NotReady("handshake failed: "@ + reason),
        ),
        StateView::Disconnected(_) => Some(ProtoErrorView::HostGone),
    }
}

/// A call that is to be sent, and the time it may take.
#[derive(Debug)]
pub struct OutgoingCall {
    pub id: u64,
    pub timeout_ms: u64,
    pub frame: Frame,
}

/// How a call came to its end.
#[derive(Debug)]
pub enum CallSettled {
    /// The other end answered.
    Res(Result<Value, RemoteError>),
    /// The host went away.
    HostGone,
    /// The call was cancelled.
    Cancelled,
}

/// What the host is to do with a frame that came in.
#[derive(Debug)]
pub enum Inbound {
    /// Read the greeting and have it answered.
    Hello { id: u64, params: Value },
    /// Serve the call and answer it.
    Serve { id: u64, method: String, params: Value },
    /// Hand the message on.
    Note { method: String, params: Value },
    /// Give the caller of this call its answer.
    Deliver { id: u64, outcome: Outcome },
    /// Nothing.
    Ignore,
    /// The session has failed: send this answer, where there is one, and close.
    Close { reply: Option<Frame> },
}

#[verifier::ext_equal]
pub enum InboundView {
    Hello { id: u64, params: Json },
    Serve { id: u64, method: Seq<char>, params: Json },
    Note { method: Seq<char>, params: Json },
    Deliver { id: u64, outcome: OutcomeView },
    Ignore,
    Close { reply: Option<FrameView> },
}

pub open spec fn frame_opt(f: Option<Frame>) -> Option<FrameView> {
    match f {
        Some(x) => Some(x@),
        None => None,
    }
}

impl View for Inbound {
    type V = InboundView;

    open spec fn view(&self) -> InboundView {
        match *self {
            Inbound::Hello { id, params } => InboundView::Hello { id, params: json_of(params) },
            Inbound::Serve { id, method, params } => InboundView::Serve {
                id,
                method: method@,
                params: json_of(params),
            },
            Inbound::Note { method, params } => InboundView::Note {
                method: method@,
                params: json_of(params),
            },
            Inbound::Deliver { id, outcome } => InboundView::Deliver { id, outcome: outcome@ },
            Inbound::Ignore => InboundView::Ignore,
            Inbound::Close { reply } => InboundView::Close { reply: frame_opt(reply) },
        }
    }
}

// ── the rules of the session ────────────────────────────────────────

/// The session is over: the calls in flight are on record, and those whose
/// callers gave up are counted as orphans. A session that is over stays as it
/// is.
pub open spec fn laid_down(b: BridgeView, gave_up: Seq<u64>) -> BridgeView {
    if b.gone is Some {
        b
    } else {
        let orphans = counted_times(b.orphans, abandoned(b.pending, gave_up).len());
        let record = RecordView { pending: b.pending, orphans, received: b.received };
        BridgeView { pending: Seq::empty(), orphans, gone: Some(record), ..b }
    }
}

/// The host is gone.
pub open spec fn cut_off(b: BridgeView, gave_up: Seq<u64>) -> BridgeView {
    if b.gone is Some {
        b
    } else {
        let down = laid_down(b, gave_up);
        BridgeView { state: StateView::Disconnected(down.gone->0), ..down }
    }
}

/// The handshake failed.
pub open spec fn refused(b: BridgeView, reason: Seq<char>) -> BridgeView {
    BridgeView { state: StateView::Failed(reason), ..laid_down(b, Seq::empty()) }
}

/// The answer that tells the host why the handshake failed.
pub open spec fn refusal_frame(id: u64, reason: Seq<char>) -> FrameView {
    answer_frame(id, OutcomeView::Failure(RemoteView { code: "handshake"@, message: reason }))
}

/// An answer to the call `id` came in: it settles the call where one is in
/// flight, and is an orphan where there is none or its caller gave up.
pub open spec fn completed(
    b: BridgeView,
    id: u64,
    outcome: OutcomeView,
    gave_up: Seq<u64>,
) -> (BridgeView, InboundView) {
    if in_flight(b.pending, id) && !gave_up.contains(id) {
        (
            BridgeView { pending: without_call(b.pending, id), ..b },
            InboundView::Deliver { id, outcome },
        )
    } else {
        (
            BridgeView {
                pending: without_call(b.pending, id),
                orphans: counted(b.orphans),
                ..b
            },
            InboundView::Ignore,
        )
    }
}

/// What is said of a first frame that is no greeting.
pub open spec fn not_a_greeting(f: FrameView) -> Seq<char> {
    match f {
        FrameView::Req { method, .. } => "first frame must be hello, got req "@ + method,
        FrameView::Res { id, .. } => "first frame must be hello, got res id "@ + decimal(id as nat),
        FrameView::Ntf { method, .. } => "first frame must be hello, got ntf "@ + method,
    }
}

/// What a frame does. Before the handshake only a greeting is in order.
pub open spec fn received(b: BridgeView, f: FrameView, gave_up: Seq<u64>) -> (
    BridgeView,
    InboundView,
) {
    let b = BridgeView { received: counted(b.received), ..b };
    if b.state is Connecting {
        match f {
            FrameView::Req { id, method, params, .. } => if method == "hello"@ {
                (b, InboundView::Hello { id, params })
            } else {
                (
                    refused(b, not_a_greeting(f)),
                    InboundView::Close { reply: Some(refusal_frame(id, not_a_greeting(f))) },
                )
            },
            _ => (refused(b, not_a_greeting(f)), InboundView::Close { reply: None }),
        }
    } else {
        match f {
            FrameView::Res { id, .. } => match frame_outcome(f) {
                Some(Ok(outcome)) => completed(b, id, outcome, gave_up),
                _ => (BridgeView { orphans: counted(b.orphans), ..b }, InboundView::Ignore),
            },
            FrameView::Req { id, method, params, .. } => (
                b,
                InboundView::Serve { id, method, params },
            ),
            FrameView::Ntf { method, params, .. } => (b, InboundView::Note { method, params }),
        }
    }
}

/// Why a greeting is refused: it could not be read, it speaks another version,
/// it has another base, or what was checked beyond that failed.
pub open spec fn greeting_refusal(
    b: BridgeView,
    parsed: Result<HelloCaps, String>,
    verified: Result<(), String>,
) -> Option<Seq<char>> {
    match parsed {
        Err(e) => Some("hello params malformed: "@ + e@),
        Ok(caps) => if caps.protocol != b.protocol {
            Some(
                "protocol version mismatch: host declared "@ + decimal(caps.protocol as nat)
                    + ", bridge expects "@ + decimal(b.protocol as nat),
            )
        } else if b.base is Some && caps.base@ != b.base->0 {
            Some(
                "base mismatch: host declared "@ + caps.base@ + ", bridge expects "@ + b.base->0,
            )
        } else {
            match verified {
                Err(e) => Some("extension validation failed: "@ + e@),
                Ok(_) => None,
            }
        },
    }
}

/// The fields of the answer to a greeting.
pub open spec fn greeting_fields(b: BridgeView) -> Map<Seq<char>, Json> {
    Map::<Seq<char>, Json>::empty().insert("protocol"@, Json::Int(b.protocol as int)).insert(
        "base"@,
        Json::Text("rutis"@),
    ).insert("baseSemver"@, Json::Text(b.base_semver)).insert(
        "stack"@,
        Json::Array(seq![Json::Text("rutis"@)]),
    ).insert("caps"@, b.own_caps)
}

proof fn lemma_without_absent(pending: Seq<(u64, Seq<char>)>, id: u64)
    requires
        !in_flight(pending, id),
    ensures
        without_call(pending, id) == pending,
    decreases pending.len(),
{
    reveal(Seq::filter);
    if pending.len() > 0 {
        let front = pending.drop_last();
        assert(!in_flight(front, id)) by {
            if in_flight(front, id) {
                let i = choose|i: int| 0 <= i < front.len() && (#[trigger] front[i]).0 == id;
                assert(pending[i].0 == id);
            }
        }
        lemma_without_absent(front, id);
        assert(pending[pending.len() - 1].0 != id);
        assert(front.push(pending.last()) =~= pending);
    }
}

proof fn lemma_without_present(pending: Seq<(u64, Seq<char>)>, k: int)
    requires
        0 <= k < pending.len(),
        forall|i: int, j: int|
            0 <= i < j < pending.len() ==> (#[trigger] pending[i]).0 != (#[trigger] pending[j]).0,
    ensures
        without_call(pending, pending[k].0) == pending.remove(k),
    decreases pending.len(),
{
    reveal(Seq::filter);
    let id = pending[k].0;
    let front = pending.drop_last();
    assert forall|i: int, j: int| 0 <= i < j < front.len() implies (#[trigger] front[i]).0 != (
    #[trigger] front[j]).0 by {
        assert(pending[i].0 != pending[j].0);
    }
    if k == pending.len() - 1 {
        assert(!in_flight(front, id)) by {
            if in_flight(front, id) {
                let i = choose|i: int| 0 <= i < front.len() && (#[trigger] front[i]).0 == id;
                assert(pending[i].0 != pending[k].0);
            }
        }
        lemma_without_absent(front, id);
        assert(pending.remove(k) =~= front);
    } else {
        assert(front[k] == pending[k]);
        lemma_without_present(front, k);
        assert(pending[k].0 != pending[pending.len() - 1].0);
        assert(front.remove(k).push(pending.last()) =~= pending.remove(k));
    }
}

/// Whether the caller of `id` gave up.
fn listed(ids: &Vec<u64>, id: u64) -> (r: bool)
    ensures
        r == ids@.contains(id),
{
    let mut i: usize = 0;
    while i < ids.len()
        invariant
            i <= ids@.len(),
            forall|k: int| 0 <= k < i ==> ids@[k] != id,
        decreases ids@.len() - i,
    {
        if ids[i] == id {
            assert(ids@[i as int] == id);
            return true;
        }
        i = i + 1;
    }
    false
}

fn refusal(id: u64, reason: String) -> (r: Frame)
    ensures
        r@ == refusal_frame(id, reason@),
{
    Frame::response(id, Err(RemoteError { code: "handshake".to_owned(), message: reason }))
}

impl Bridge {
    /// The bridge keeps to the rules of the session.
    pub closed spec fn wf(&self) -> bool {
        orderly(self@)
    }

    /// A bridge that waits for its host's greeting. `own_caps` is what it tells
    /// the host of itself.
    pub fn start(
        config: BridgeConfig,
        expected: ExpectedHost,
        base_semver: String,
        own_caps: Value,
    ) -> (r: Self)
        ensures
            r.wf(),
            r@ == (BridgeView {
                default_timeout_ms: config.default_timeout_ms,
                max_timeout_ms: config.max_timeout_ms,
                protocol: expected.protocol,
                base: text_opt(expected.base),
                base_semver: base_semver@,
                own_caps: json_of(own_caps),
                state: StateView::Connecting,
                pending: Seq::empty(),
                next_id: 1,
                sent: 0,
                received: 0,
                orphans: 0,
                gone: None,
            }),
    {
        let r = Bridge {
            config,
            expected,
            base_semver,
            own_caps,
            state: SessionState::Connecting,
            pending: Vec::new(),
            next_id: 1,
            stats: BridgeStats { frames_sent: 0, frames_received: 0, orphan_responses: 0 },
            gone: None,
        };
        assert(r@.pending =~= Seq::empty());
        r
    }

    /// Whether the session takes calls, and why not.
    pub fn check_open(&self) -> (r: Result<(), ProtoError>)
        ensures
            match r {
                Ok(_) => closed_error(self@.state) is None,
                Err(e) => closed_error(self@.state) == Some(e@),
            },
    {
        match &self.state {
            SessionState::Ready(_) => Ok(()),
            SessionState::Connecting => Err(
                ProtoError::NotReady("handshake not completed".to_owned()),
            ),
            SessionState::Failed(reason) => {
                let mut s = "handshake failed: ".to_owned();
                s.push_str(reason.as_str());
                Err(ProtoError::NotReady(s))
            },
            SessionState::Disconnected(_) => Err(ProtoError::HostGone),
        }
    }

    /// The result of the handshake, once there is one: what the host sent, or
    /// why there is no session.
    pub fn ready(&self) -> (r: Option<Result<Value, ProtoError>>)
        ensures
            match self@.state {
                StateView::Connecting => r is None,
                StateView::Ready(hello) => r matches Some(Ok(v)) && json_of(v) == hello,
                StateView::Failed(reason) => r matches Some(Err(e)) && e@
                    == ProtoErrorView::Handshake(reason),
                StateView::Disconnected(_) => r matches Some(Err(e)) && e@
                    == ProtoErrorView::HostGone,
            },
    {
        match &self.state {
            SessionState::Connecting => None,
            SessionState::Ready(hello) => Some(Ok(hello.clone())),
            SessionState::Failed(reason) => Some(Err(ProtoError::Handshake(reason.clone()))),
            SessionState::Disconnected(_) => Some(Err(ProtoError::HostGone)),
        }
    }

    /// What is on record of the end of the session; before it, what has been
    /// counted so far.
    pub fn gone_record(&self) -> (r: HostGoneRecord)
        ensures
            r@ == match self@.gone {
                Some(record) => record,
                None => RecordView {
                    pending: Seq::empty(),
                    orphans: self@.orphans,
                    received: self@.received,
                },
            },
    {
        match &self.gone {
            Some(record) => record.clone(),
            None => {
                let r = HostGoneRecord {
                    pending: Vec::new(),
                    orphan_responses: self.stats.orphan_responses,
                    frames_received: self.stats.frames_received,
                };
                assert(r@.pending =~= Seq::empty());
                r
            },
        }
    }

    /// The record of the end of the session, once it is over.
    pub fn wait_disconnect(&self) -> (r: Option<HostGoneRecord>)
        requires
            self.wf(),
        ensures
            r is Some <==> is_over(self@.state),
            match r {
                Some(record) => match self@.state {
                    StateView::Disconnected(x) => record@ == x,
                    _ => self@.gone == Some(record@),
                },
                None => true,
            },
    {
        match &self.state {
            SessionState::Disconnected(record) => Some(record.clone()),
            SessionState::Failed(_) => Some(self.gone_record()),
            _ => None,
        }
    }

    /// What the bridge has counted.
    pub fn stats(&self) -> (r: BridgeStats)
        ensures
            r.frames_sent == self@.sent,
            r.frames_received == self@.received,
            r.orphan_responses == self@.orphans,
    {
        self.stats
    }

    /// Counts a frame that was sent.
    pub fn frame_sent(&mut self)
        requires
            old(self).wf(),
        ensures
            final(self).wf(),
            final(self)@ == (BridgeView { sent: counted(old(self)@.sent), ..old(self)@ }),
    {
        self.stats.frames_sent = self.stats.frames_sent.wrapping_add(1);
    }

    /// Counts an answer that nobody waited for.
    fn count_orphan(&mut self)
        requires
            old(self).wf(),
        ensures
            final(self).wf(),
            final(self)@ == (BridgeView { orphans: counted(old(self)@.orphans), ..old(self)@ }),
    {
        self.stats.orphan_responses = self.stats.orphan_responses.wrapping_add(1);
    }

    /// Counts a frame that came in.
    fn count_received(&mut self)
        requires
            old(self).wf(),
        ensures
            final(self).wf(),
            final(self)@ == (BridgeView { received: counted(old(self)@.received), ..old(self)@ }),
    {
        self.stats.frames_received = self.stats.frames_received.wrapping_add(1);
    }

    /// There is an identifier left for one more call.
    pub open spec fn spec_has_ids(&self) -> bool {
        self@.next_id < u64::MAX
    }

    /// There is an identifier left for one more call.
    #[verifier::when_used_as_spec(spec_has_ids)]
    pub fn has_ids(&self) -> (r: bool)
        ensures
            r == self.spec_has_ids(),
    {
        self.next_id < u64::MAX
    }

    /// Begins a call. Without a time limit it gets the default; one that asks
    /// for more than the most is refused.
    pub fn request(&mut self, method: String, params: Value, timeout_ms: Option<u64>) -> (r: Result<
        OutgoingCall,
        ProtoError,
    >)
        requires
            old(self).wf(),
            old(self).has_ids(),
        ensures
            final(self).wf(),
            match r {
                Ok(call) => {
                    &&& closed_error(old(self)@.state) is None
                    &&& timeout_ms is Some ==> timeout_ms->0 <= old(self)@.max_timeout_ms
                    &&& call.id == old(self)@.next_id
                    &&& call.timeout_ms == match timeout_ms {
                        Some(t) => t,
                        None => old(self)@.default_timeout_ms,
                    }
                    &&& call.frame@ == call_frame(call.id, method@, json_of(params))
                    &&& final(self)@ == (BridgeView {
                        pending: old(self)@.pending.push((call.id, method@)),
                        next_id: (old(self)@.next_id + 1) as u64,
                        ..old(self)@
                    })
                },
                Err(e) => {
                    &&& final(self)@ == old(self)@
                    &&& match closed_error(old(self)@.state) {
                        Some(x) => e@ == x,
                        None => {
                            &&& timeout_ms is Some
                            &&& timeout_ms->0 > old(self)@.max_timeout_ms
                            &&& e@ == (ProtoErrorView::TimeoutTooLarge {
                                requested: timeout_ms->0,
                                max: old(self)@.max_timeout_ms,
                            })
                        },
                    }
                },
            },
    {
        if let Err(e) = self.check_open() {
            return Err(e);
        }
        let limit: u64 = match timeout_ms {
            Some(t) => {
                if t > self.config.max_timeout_ms {
                    return Err(
                        ProtoError::TimeoutTooLarge {
                            requested: t,
                            max: self.config.max_timeout_ms,
                        },
                    );
                }
                t
            },
            None => self.config.default_timeout_ms,
        };
        let id: u64 = self.next_id;
        self.next_id = id + 1;
        let ghost before = self.pending@;
        self.pending.push((id, method.clone()));
        proof {
            assert(call_list(self.pending@) =~= call_list(before).push((id, method@)));
            assert forall|i: int, j: int| 0 <= i < j < self@.pending.len() implies (
            #[trigger] self@.pending[i]).0 != (#[trigger] self@.pending[j]).0 by {
                assert(call_list(before)[i].0 < id);
                if j < before.len() {
                    assert(call_list(before)[i].0 != call_list(before)[j].0);
                }
            }
            assert forall|i: int| 0 <= i < self@.pending.len() implies (
            #[trigger] self@.pending[i]).0 < self@.next_id by {
                if i < before.len() {
                    assert(call_list(before)[i].0 < id);
                }
            }
        }
        Ok(
            OutgoingCall {
                id,
                timeout_ms: limit,
                frame: Frame::Req {
                    id,
                    method,
                    params,
                    scope_id: None,
                    session_id: None,
                    turn_id: None,
                },
            },
        )
    }

    /// The place of a call in flight, or the number of them where it is none.
    fn find(&self, id: u64) -> (r: usize)
        ensures
            r <= self.pending@.len(),
            r < self.pending@.len() ==> self.pending@[r as int].0 == id,
            in_flight(self@.pending, id) <==> r < self.pending@.len(),
    {
        let mut i: usize = 0;
        while i < self.pending.len()
            invariant
                i <= self.pending@.len(),
                self@.pending == call_list(self.pending@),
                forall|k: int| 0 <= k < i ==> (#[trigger] self.pending@[k]).0 != id,
            decreases self.pending@.len() - i,
        {
            if self.pending[i].0 == id {
                assert(self@.pending[i as int].0 == id);
                return i;
            }
            i = i + 1;
        }
        proof {
            if in_flight(self@.pending, id) {
                let k = choose|k: int|
                    0 <= k < self@.pending.len() && (#[trigger] self@.pending[k]).0 == id;
                assert(self.pending@[k].0 == id);
            }
        }
        i
    }

    /// Takes a call out of flight; says whether it was in flight.
    fn take_call(&mut self, id: u64) -> (r: bool)
        requires
            old(self).wf(),
        ensures
            final(self).wf(),
            r == in_flight(old(self)@.pending, id),
            final(self)@ == (BridgeView {
                pending: without_call(old(self)@.pending, id),
                ..old(self)@
            }),
    {
        let i: usize = self.find(id);
        let ghost before = self.pending@;
        let ghost old_pending = self@.pending;
        if i == self.pending.len() {
            proof {
                lemma_without_absent(self@.pending, id);
            }
            return false;
        }
        let _ = self.pending.remove(i);
        proof {
            assert(old_pending[i as int].0 == id);
            lemma_without_present(old_pending, i as int);
            assert(call_list(self.pending@) =~= old_pending.remove(i as int));
            let now = self@.pending;
            assert forall|a: int, b: int| 0 <= a < b < now.len() implies (#[trigger] now[a]).0 != (
            #[trigger] now[b]).0 by {
                let x = if a < i {
                    a
                } else {
                    a + 1
                };
                let y = if b < i {
                    b
                } else {
                    b + 1
                };
                assert(old_pending[x].0 != old_pending[y].0);
            }
            assert forall|a: int| 0 <= a < now.len() implies (#[trigger] now[a]).0
                < self@.next_id by {
                let x = if a < i {
                    a
                } else {
                    a + 1
                };
                assert(old_pending[x].0 < self@.next_id);
            }
        }
        true
    }

    /// The frame of a call could not be sent: the call is given up.
    pub fn send_failed(&mut self, id: u64)
        requires
            old(self).wf(),
        ensures
            final(self).wf(),
            final(self)@ == (BridgeView {
                pending: without_call(old(self)@.pending, id),
                ..old(self)@
            }),
    {
        let _ = self.take_call(id);
    }

    /// A call took longer than it may: it is given up, and an answer that
    /// comes later is an orphan.
    pub fn timed_out(&mut self, id: u64, method: String, timeout_ms: u64) -> (r: ProtoError)
        requires
            old(self).wf(),
        ensures
            final(self).wf(),
            final(self)@ == (BridgeView {
                pending: without_call(old(self)@.pending, id),
                ..old(self)@
            }),
            r@ == (ProtoErrorView::Timeout { id, method: method@, timeout_ms }),
    {
        let _ = self.take_call(id);
        ProtoError::Timeout { id, method, timeout_ms }
    }

    /// What the caller of a call gets of it.
    pub fn settle(id: u64, method: String, settled: CallSettled) -> (r: Result<Value, ProtoError>)
        ensures
            match settled {
                CallSettled::Res(Ok(v)) => r matches Ok(x) && json_of(x) == json_of(v),
                CallSettled::Res(Err(e)) => r matches Err(x) && x@ == (ProtoErrorView::Remote {
                    code: e.code@,
                    message: e.message@,
                }),
                CallSettled::HostGone => r matches Err(x) && x@ == ProtoErrorView::HostGone,
                CallSettled::Cancelled => r matches Err(x) && x@ == (ProtoErrorView::Cancelled {
                    id,
                    method: method@,
                }),
            },
    {
        match settled {
            CallSettled::Res(Ok(v)) => Ok(v),
            CallSettled::Res(Err(e)) => Err(
                ProtoError::Remote { code: e.code, message: e.message },
            ),
            CallSettled::HostGone => Err(ProtoError::HostGone),
            CallSettled::Cancelled => Err(ProtoError::Cancelled { id, method }),
        }
    }

    /// A message without an answer; a session that takes no calls sends none.
    pub fn notify(&self, method: &str, params: Value) -> (r: Result<Frame, ProtoError>)
        ensures
            match r {
                Ok(f) => closed_error(self@.state) is None && f@ == note_frame(
                    method@,
                    json_of(params),
                ),
                Err(e) => closed_error(self@.state) == Some(e@),
            },
    {
        if let Err(e) = self.check_open() {
            return Err(e);
        }
        Ok(
            Frame::Ntf {
                method: method.to_owned(),
                params,
                scope_id: None,
                session_id: None,
                turn_id: None,
            },
        )
    }

    /// Cancels something at the other end. A call of this end is given up at
    /// once. Says whether its caller is to be told, and what to send.
    pub fn cancel(&mut self, target: CancelTarget, gave_up: &Vec<u64>) -> (r: Result<
        (bool, Frame),
        ProtoError,
    >)
        requires
            old(self).wf(),
        ensures
            final(self).wf(),
            match r {
                Ok((told, f)) => {
                    let mine = target.prefix == CancelPrefix::Call && in_flight(
                        old(self)@.pending,
                        target.id,
                    );
                    &&& closed_error(old(self)@.state) is None
                    &&& told == (mine && !gave_up@.contains(target.id))
                    &&& f@ matches FrameView::Ntf { method, params, scope_id, session_id, turn_id }
                    &&& method == "cancel"@
                    &&& fields_in(params) == Some(
                        Map::<Seq<char>, Json>::empty().insert(
                            "target"@,
                            Json::Text(target_text(target)),
                        ),
                    )
                    &&& scope_id is None && session_id is None && turn_id is None
                    &&& final(self)@ == (BridgeView {
                        pending: if target.prefix == CancelPrefix::Call {
                            without_call(old(self)@.pending, target.id)
                        } else {
                            old(self)@.pending
                        },
                        orphans: if mine && gave_up@.contains(target.id) {
                            counted(old(self)@.orphans)
                        } else {
                            old(self)@.orphans
                        },
                        ..old(self)@
                    })
                },
                Err(e) => {
                    &&& closed_error(old(self)@.state) == Some(e@)
                    &&& final(self)@ == old(self)@
                },
            },
    {
        if let Err(e) = self.check_open() {
            return Err(e);
        }
        let mut told = false;
        if target.prefix == CancelPrefix::Call && self.take_call(target.id) {
            if listed(gave_up, target.id) {
                self.count_orphan();
            } else {
                told = true;
            }
        }
        let params = json::object1("target", json::string(target.text()));
        Ok(
            (
                told,
                Frame::Ntf {
                    method: "cancel".to_owned(),
                    params,
                    scope_id: None,
                    session_id: None,
                    turn_id: None,
                },
            ),
        )
    }

    /// Puts the end of the session on record. Gives the calls in flight whose
    /// callers still wait.
    fn lay_down(&mut self, gave_up: &Vec<u64>) -> (r: Vec<u64>)
        requires
            old(self)@.gone is None,
        ensures
            final(self)@ == laid_down(old(self)@, gave_up@),
            r@ == waiting(old(self)@.pending, gave_up@),
    {
        let mut told: Vec<u64> = Vec::new();
        let ghost start = self.stats.orphan_responses;
        let ghost calls = self@.pending;
        let ghost lost = |c: (u64, Seq<char>)| gave_up@.contains(c.0);
        let mut orphans: u64 = self.stats.orphan_responses;
        let mut i: usize = 0;
        proof {
            reveal(Seq::filter);
            assert(abandoned(calls.take(0), gave_up@).len() == 0);
            assert(told@ =~= waiting(calls.take(0), gave_up@));
        }
        while i < self.pending.len()
            invariant
                i <= self.pending@.len(),
                calls == call_list(self.pending@),
                orphans == counted_times(start, abandoned(calls.take(i as int), gave_up@).len()),
                told@ == waiting(calls.take(i as int), gave_up@),
                self@ == old(self)@,
            decreases self.pending@.len() - i,
        {
            proof {
                reveal(Seq::filter);
                assert(calls.take(i + 1).drop_last() =~= calls.take(i as int));
                assert(calls.take(i + 1).last() == calls[i as int]);
            }
            if listed(gave_up, self.pending[i].0) {
                orphans = orphans.wrapping_add(1);
            } else {
                told.push(self.pending[i].0);
            }
            i = i + 1;
        }
        assert(calls.take(i as int) =~= calls);
        let mut pending: Vec<(u64, String)> = Vec::new();
        assert(call_list(pending@) =~= Seq::empty());
        std::mem::swap(&mut self.pending, &mut pending);
        self.stats.orphan_responses = orphans;
        self.gone = Some(
            HostGoneRecord {
                pending,
                orphan_responses: orphans,
                frames_received: self.stats.frames_received,
            },
        );
        told
    }

    /// The host is gone. Gives the calls in flight whose callers are to be
    /// told. Once the session is over this changes nothing.
    pub fn host_gone(&mut self, gave_up: &Vec<u64>) -> (r: Vec<u64>)
        requires
            old(self).wf(),
        ensures
            final(self).wf(),
            final(self)@ == cut_off(old(self)@, gave_up@),
            r@ == if old(self)@.gone is Some {
                Seq::empty()
            } else {
                waiting(old(self)@.pending, gave_up@)
            },
    {
        if self.gone.is_some() {
            return Vec::new();
        }
        let told = self.lay_down(gave_up);
        let record = self.gone_record();
        self.state = SessionState::Disconnected(record);
        told
    }

    /// The handshake failed.
    fn fail(&mut self, reason: String)
        requires
            old(self).wf(),
            old(self)@.state is Connecting,
        ensures
            final(self).wf(),
            final(self)@ == refused(old(self)@, reason@),
    {
        let nobody: Vec<u64> = Vec::new();
        assert(nobody@ =~= Seq::empty());
        let _ = self.lay_down(&nobody);
        self.state = SessionState::Failed(reason);
    }

    /// Takes a frame that came in.
    pub fn receive(&mut self, frame: Frame, gave_up: &Vec<u64>) -> (r: Inbound)
        requires
            old(self).wf(),
            !is_over(old(self)@.state),
        ensures
            final(self).wf(),
            (final(self)@, r@) == received(old(self)@, frame@, gave_up@),
    {
        self.count_received();
        let connecting = match &self.state {
            SessionState::Connecting => true,
            _ => false,
        };
        if connecting {
            match frame {
                Frame::Req { id, method, params, .. } => {
                    if same(method.as_str(), "hello") {
                        return Inbound::Hello { id, params };
                    }
                    let mut reason = "first frame must be hello, got req ".to_owned();
                    reason.push_str(method.as_str());
                    let reply = refusal(id, reason.clone());
                    self.fail(reason);
                    return Inbound::Close { reply: Some(reply) };
                },
                Frame::Res { id, .. } => {
                    let mut reason = "first frame must be hello, got res id ".to_owned();
                    reason.push_str(number(id).as_str());
                    self.fail(reason);
                    return Inbound::Close { reply: None };
                },
                Frame::Ntf { method, .. } => {
                    let mut reason = "first frame must be hello, got ntf ".to_owned();
                    reason.push_str(method.as_str());
                    self.fail(reason);
                    return Inbound::Close { reply: None };
                },
            }
        }
        let outcome = frame.outcome();
        match frame {
            Frame::Res { id, .. } => match outcome {
                Some(Ok(outcome)) => {
                    if self.take_call(id) && !listed(gave_up, id) {
                        return Inbound::Deliver { id, outcome };
                    }
                    self.count_orphan();
                    Inbound::Ignore
                },
                _ => {
                    self.count_orphan();
                    Inbound::Ignore
                },
            },
            Frame::Req { id, method, params, .. } => Inbound::Serve { id, method, params },
            Frame::Ntf { method, params, .. } => Inbound::Note { method, params },
        }
    }

    /// The answer to a greeting that is in order.
    fn greeting(&self) -> (r: Value)
        ensures
            fields_in(json_of(r)) == Some(greeting_fields(self@)),
    {
        let mut stack: Vec<Value> = Vec::new();
        stack.push(json::string("rutis".to_owned()));
        assert(json_seq(stack@) =~= seq![Json::Text("rutis"@)]);
        let mut fields: Vec<(String, Value)> = Vec::new();
        let ghost f0 = fields@;
        fields.push(("protocol".to_owned(), json::integer(self.expected.protocol as u64)));
        let ghost f1 = fields@;
        fields.push(("base".to_owned(), json::string("rutis".to_owned())));
        let ghost f2 = fields@;
        fields.push(("baseSemver".to_owned(), json::string(self.base_semver.clone())));
        let ghost f3 = fields@;
        fields.push(("stack".to_owned(), json::array(stack)));
        let ghost f4 = fields@;
        fields.push(("caps".to_owned(), self.own_caps.clone()));
        let ghost f5 = fields@;
        proof {
            reveal_strlit("protocol");
            reveal_strlit("base");
            reveal_strlit("baseSemver");
            reveal_strlit("stack");
            reveal_strlit("caps");
            assert("base"@[0] != "caps"@[0]);
            assert("protocol"@.len() == 8 && "baseSemver"@.len() == 10 && "stack"@.len() == 5);
            assert(distinct_fields(f5));
            assert(f1.drop_last() =~= f0);
            assert(f2.drop_last() =~= f1);
            assert(f3.drop_last() =~= f2);
            assert(f4.drop_last() =~= f3);
            assert(f5.drop_last() =~= f4);
            assert(fields_map(f0) == Map::<Seq<char>, Json>::empty());
            assert(fields_map(f1) == fields_map(f0).insert(
                "protocol"@,
                Json::Int(self@.protocol as int),
            ));
            assert(fields_map(f2) == fields_map(f1).insert("base"@, Json::Text("rutis"@)));
            assert(fields_map(f3) == fields_map(f2).insert(
                "baseSemver"@,
                Json::Text(self@.base_semver),
            ));
            assert(fields_map(f4) == fields_map(f3).insert(
                "stack"@,
                Json::Array(seq![Json::Text("rutis"@)]),
            ));
            assert(fields_map(f5) == fields_map(f4).insert("caps"@, self@.own_caps));
        }
        json::object(fields)
    }

    /// Why a greeting is refused.
    fn refuse_greeting(
        &self,
        parsed: &Result<HelloCaps, String>,
        verified: &Result<(), String>,
    ) -> (r: Option<String>)
        ensures
            text_opt(r) == greeting_refusal(self@, *parsed, *verified),
    {
        match parsed {
            Err(e) => {
                let mut s = "hello params malformed: ".to_owned();
                s.push_str(e.as_str());
                Some(s)
            },
            Ok(caps) => {
                if caps.protocol != self.expected.protocol {
                    let mut s = "protocol version mismatch: host declared ".to_owned();
                    s.push_str(number(caps.protocol as u64).as_str());
                    s.push_str(", bridge expects ");
                    s.push_str(number(self.expected.protocol as u64).as_str());
                    return Some(s);
                }
                if let Some(base) = &self.expected.base {
                    if !same(caps.base.as_str(), base.as_str()) {
                        let mut s = "base mismatch: host declared ".to_owned();
                        s.push_str(caps.base.as_str());
                        s.push_str(", bridge expects ");
                        s.push_str(base.as_str());
                        return Some(s);
                    }
                }
                match verified {
                    Err(e) => {
                        let mut s = "extension validation failed: ".to_owned();
                        s.push_str(e.as_str());
                        Some(s)
                    },
                    Ok(_) => None,
                }
            },
        }
    }

    /// Answers a greeting. `parsed` is what could be read of it, `verified`
    /// what a check beyond the base made of it. `Ok` is the answer that
    /// completes the handshake once it is sent; `Err` is why the greeting is
    /// refused.
    pub fn handle_hello(
        &self,
        id: u64,
        parsed: Result<HelloCaps, String>,
        verified: Result<(), String>,
    ) -> (r: Result<Frame, String>)
        requires
            self.wf(),
            self@.state is Connecting,
        ensures
            match greeting_refusal(self@, parsed, verified) {
                Some(reason) => r matches Err(e) && e@ == reason,
                None => r matches Ok(f) && f@ matches FrameView::Res { result: Some(v), .. } && f@
                    == answer_frame(id, OutcomeView::Success(v)) && fields_in(v) == Some(
                    greeting_fields(self@),
                ),
            },
    {
        match self.refuse_greeting(&parsed, &verified) {
            Some(reason) => Err(reason),
            None => Ok(Frame::response(id, Ok(self.greeting()))),
        }
    }

    /// The answer to the greeting was sent, or could not be sent. With it the
    /// session is ready; `Err` is why it is not.
    pub fn hello_sent(&mut self, params: Value, sent: bool) -> (r: Result<(), String>)
        requires
            old(self).wf(),
            old(self)@.state is Connecting,
        ensures
            final(self).wf(),
            if sent {
                &&& r is Ok
                &&& final(self)@ == (BridgeView {
                    state: StateView::Ready(json_of(params)),
                    sent: counted(old(self)@.sent),
                    ..old(self)@
                })
            } else {
                &&& r matches Err(e) && e@ == "host closed during handshake"@
                &&& final(self)@ == old(self)@
            },
    {
        if sent {
            self.frame_sent();
            self.state = SessionState::Ready(params);
            Ok(())
        } else {
            Err("host closed during handshake".to_owned())
        }
    }

    /// Refuses a greeting: the session has failed, and this is what the host is
    /// told.
    pub fn refuse(&mut self, id: u64, reason: String) -> (r: Frame)
        requires
            old(self).wf(),
            old(self)@.state is Connecting,
        ensures
            final(self).wf(),
            r@ == refusal_frame(id, reason@),
            final(self)@ == refused(old(self)@, reason@),
    {
        let reply = refusal(id, reason.clone());
        self.fail(reason);
        reply
    }
}

/// The identifiers of the calls whose callers still wait.
pub open spec fn waiting(pending: Seq<(u64, Seq<char>)>, gave_up: Seq<u64>) -> Seq<u64>
    decreases pending.len(),
{
    if pending.len() == 0 {
        Seq::empty()
    } else if gave_up.contains(pending.last().0) {
        waiting(pending.drop_last(), gave_up)
    } else {
        waiting(pending.drop_last(), gave_up).push(pending.last().0)
    }
}

/// What is said of a call that nobody serves.
pub open spec fn unhandled_view(method: Seq<char>) -> RemoteView {
    RemoteView { code: "unhandled"@, message: "no request handler for "@ + method }
}

/// What is said of a call that nobody serves.
pub fn unhandled(method: &str) -> (r: RemoteError)
    ensures
        r@ == unhandled_view(method@),
{
    let mut message = "no request handler for ".to_owned();
    message.push_str(method);
    RemoteError { code: "unhandled".to_owned(), message }
}

// ── laws ────────────────────────────────────────────────────────────

/// A session that is over takes no calls, and going down once more changes
/// nothing.
pub proof fn law_over_is_over(b: BridgeView, gave_up: Seq<u64>)
    requires
        orderly(b),
        is_over(b.state),
    ensures
        closed_error(b.state) is Some,
        cut_off(b, gave_up) == b,
        b.pending.len() == 0,
{
}

/// When the host goes away every call in flight is on record and none is left.
pub proof fn law_end_is_on_record(b: BridgeView, gave_up: Seq<u64>)
    requires
        orderly(b),
        !is_over(b.state),
    ensures
        cut_off(b, gave_up).pending.len() == 0,
        cut_off(b, gave_up).gone matches Some(r) && r.pending == b.pending && r.received
            == b.received && cut_off(b, gave_up).state == StateView::Disconnected(r),
{
}

/// An answer settles the call it belongs to, or is counted as an orphan: never
/// both, never neither. A call is settled at most once: after an answer it is
/// in flight no more, and a second answer is an orphan.
pub proof fn law_answers_are_accounted_for(
    b: BridgeView,
    id: u64,
    outcome: OutcomeView,
    gave_up: Seq<u64>,
)
    ensures
        ({
            let (after, told) = completed(b, id, outcome, gave_up);
            &&& told is Deliver <==> after.orphans == b.orphans
            &&& told is Deliver <==> in_flight(b.pending, id) && !gave_up.contains(id)
            &&& !in_flight(after.pending, id)
            &&& completed(after, id, outcome, gave_up).0.orphans == counted(after.orphans)
            &&& completed(after, id, outcome, gave_up).1 is Ignore
        }),
{
    lemma_not_in_flight(b.pending, id);
}

proof fn lemma_not_in_flight(pending: Seq<(u64, Seq<char>)>, id: u64)
    ensures
        !in_flight(without_call(pending, id), id),
{
    broadcast use vstd::seq_lib::group_filter_ensures;

    let other = other_than(id);
    let rest = without_call(pending, id);
    if in_flight(rest, id) {
        let i = choose|i: int| 0 <= i < rest.len() && (#[trigger] rest[i]).0 == id;
        assert(other(pending.filter(other)[i]));
    }
}

/// An answer that comes after its call was given up, because it took too long
/// or was cancelled, is an orphan.
pub proof fn law_late_answer_is_an_orphan(
    b: BridgeView,
    id: u64,
    outcome: OutcomeView,
    gave_up: Seq<u64>,
)
    ensures
        ({
            let given_up = BridgeView { pending: without_call(b.pending, id), ..b };
            &&& completed(given_up, id, outcome, gave_up).1 is Ignore
            &&& completed(given_up, id, outcome, gave_up).0.orphans == counted(b.orphans)
        }),
{
    lemma_not_in_flight(b.pending, id);
}

/// Other calls are left alone by an answer.
pub proof fn law_other_calls_stay(b: BridgeView, id: u64, other: u64, outcome: OutcomeView, gave_up: Seq<u64>)
    requires
        id != other,
    ensures
        in_flight(completed(b, id, outcome, gave_up).0.pending, other) == in_flight(
            b.pending,
            other,
        ),
{
    broadcast use vstd::seq_lib::group_filter_ensures;

    let kept = other_than(id);
    let rest = without_call(b.pending, id);
    if in_flight(b.pending, other) {
        let i = choose|i: int| 0 <= i < b.pending.len() && (#[trigger] b.pending[i]).0 == other;
        assert(rest.contains(b.pending[i]));
        let j = choose|j: int| 0 <= j < rest.len() && rest[j] == b.pending[i];
        assert(rest[j].0 == other);
    }
    if in_flight(rest, other) {
        let j = choose|j: int| 0 <= j < rest.len() && (#[trigger] rest[j]).0 == other;
        assert(rest.contains(rest[j]));
        b.pending.lemma_filter_contains_rev(kept, rest[j]);
        let i = choose|i: int| 0 <= i < b.pending.len() && b.pending[i] == rest[j];
        assert(b.pending[i].0 == other);
    }
}

/// Before the handshake any frame but a greeting ends the session.
pub proof fn law_first_frame_is_a_greeting(b: BridgeView, f: FrameView, gave_up: Seq<u64>)
    requires
        orderly(b),
        b.state is Connecting,
    ensures
        received(b, f, gave_up).1 is Hello || received(b, f, gave_up).0.state is Failed,
        received(b, f, gave_up).1 is Hello <==> f is Req && f->Req_method == "hello"@,
{
}

/// A greeting completes the handshake just where it could be read, speaks the
/// version that the bridge speaks, has the base that the bridge expects, where
/// it expects one, and passes what was checked beyond that.
pub proof fn law_greeting_is_checked(
    b: BridgeView,
    parsed: Result<HelloCaps, String>,
    verified: Result<(), String>,
)
    ensures
        greeting_refusal(b, parsed, verified) is None <==> {
            &&& parsed is Ok
            &&& parsed->Ok_0.protocol == b.protocol
            &&& b.base is None || b.base == Some(parsed->Ok_0.base@)
            &&& verified is Ok
        },
{
}

/// What is wrong with a greeting is told by name: first that it could not be
/// read, then its version, then its base, and last what the check beyond that
/// made of it.
#[verifier::rlimit(40)]
pub proof fn law_refusal_names_the_fault(
    b: BridgeView,
    parsed: Result<HelloCaps, String>,
    verified: Result<(), String>,
)
    requires
        greeting_refusal(b, parsed, verified) is Some,
    ensures
        ({
            let reason = greeting_refusal(b, parsed, verified)->Some_0;
            match parsed {
                Err(e) => reason == "hello params malformed: "@ + e@,
                Ok(caps) => {
                    &&& caps.protocol != b.protocol ==> stands_at(reason, "protocol version"@, 0)
                        && occurs(reason, "declared "@ + decimal(caps.protocol as nat)) && occurs(
                        reason,
                        "expects "@ + decimal(b.protocol as nat),
                    )
                    &&& caps.protocol == b.protocol && b.base is Some && b.base->0 != caps.base@
                        ==> stands_at(reason, "base mismatch"@, 0) && occurs(
                        reason,
                        "declared "@ + caps.base@,
                    ) && occurs(reason, "expects "@ + b.base->0)
                    &&& caps.protocol == b.protocol && (b.base is None || b.base->0 == caps.base@)
                        ==> verified is Err && reason == "extension validation failed: "@
                        + verified->Err_0@
                },
            }
        }),
{
    if let Ok(caps) = parsed {
        if caps.protocol != b.protocol {
            let reason = greeting_refusal(b, parsed, verified)->Some_0;
            lemma_mismatch_told(
                "protocol version"@,
                " mismatch: host "@,
                decimal(caps.protocol as nat),
                decimal(b.protocol as nat),
            );
            reveal_strlit("protocol version");
            reveal_strlit(" mismatch: host ");
            reveal_strlit("declared ");
            reveal_strlit("protocol version mismatch: host declared ");
            assert("protocol version mismatch: host declared "@ =~= "protocol version"@
                + " mismatch: host "@ + "declared "@);
        } else if b.base is Some && b.base->0 != caps.base@ {
            lemma_mismatch_told("base mismatch"@, ": host "@, caps.base@, b.base->0);
            reveal_strlit("base mismatch");
            reveal_strlit(": host ");
            reveal_strlit("declared ");
            reveal_strlit("base mismatch: host declared ");
            assert("base mismatch: host declared "@ =~= "base mismatch"@ + ": host "@
                + "declared "@);
        }
    }
}

#[verifier::rlimit(40)]
proof fn lemma_mismatch_told(front: Seq<char>, who: Seq<char>, x: Seq<char>, y: Seq<char>)
    ensures
        ({
            let t = front + who + "declared "@ + x + ", bridge expects "@ + y;
            &&& stands_at(t, front, 0)
            &&& occurs(t, "declared "@ + x)
            &&& occurs(t, "expects "@ + y)
        }),
{
    let told = "declared "@;
    let wants = ", bridge expects "@;
    let t = front + who + told + x + wants + y;
    assert(wants == ", bridge "@ + "expects "@) by {
        reveal_strlit(", bridge ");
        reveal_strlit("expects ");
        reveal_strlit(", bridge expects ");
        assert(wants =~= ", bridge "@ + "expects "@);
    }
    assert(stands_at(t, front, 0)) by {
        assert(t.subrange(0, front.len() as int) =~= front);
    }
    let a = front + who;
    let b = a + told + x;
    lemma_regrouped(a, told, x);
    lemma_stands_in(a, told + x, wants + y);
    lemma_regrouped(b, wants, y);
    lemma_regrouped(b, ", bridge "@, "expects "@);
    lemma_regrouped(b + ", bridge "@, "expects "@, y);
    lemma_stands_in(b + ", bridge "@, "expects "@ + y, Seq::empty());
    assert(t + Seq::<char>::empty() =~= t);
}

/// Once the handshake is done, a call that comes in is handed on to be served
/// and a message to be heard, each as it came, and nothing changes but the
/// count; an answer is handed to the caller of its own call, as it came.
pub proof fn law_frames_are_handed_on(b: BridgeView, f: FrameView, gave_up: Seq<u64>)
    requires
        !(b.state is Connecting),
    ensures
        ({
            let (after, told) = received(b, f, gave_up);
            &&& after.received == counted(b.received)
            &&& after.state == b.state
            &&& after.sent == b.sent
            &&& after.next_id == b.next_id
            &&& f is Req ==> told == (InboundView::Serve {
                id: f->Req_id,
                method: f->Req_method,
                params: f->Req_params,
            }) && after.pending == b.pending && after.orphans == b.orphans
            &&& f is Ntf ==> told == (InboundView::Note {
                method: f->Ntf_method,
                params: f->Ntf_params,
            }) && after.pending == b.pending && after.orphans == b.orphans
            &&& f is Res && frame_outcome(f) is Some && frame_outcome(f)->0 is Ok && in_flight(
                b.pending,
                f->Res_id,
            ) && !gave_up.contains(f->Res_id) ==> told == (InboundView::Deliver {
                id: f->Res_id,
                outcome: frame_outcome(f)->0->Ok_0,
            }) && after.orphans == b.orphans && !in_flight(after.pending, f->Res_id)
            &&& f is Res && !(frame_outcome(f) is Some && frame_outcome(f)->0 is Ok && in_flight(
                b.pending,
                f->Res_id,
            ) && !gave_up.contains(f->Res_id)) ==> told is Ignore && after.orphans == counted(
                b.orphans,
            )
        }),
{
    if f is Res {
        lemma_not_in_flight(b.pending, f->Res_id);
    }
}

/// A greeting is handed on as it came and leaves the session as it was; any
/// other first frame is refused by name, and a call among them is answered
/// with the reason.
pub proof fn law_first_frame_is_answered(b: BridgeView, f: FrameView, gave_up: Seq<u64>)
    requires
        orderly(b),
        b.state is Connecting,
    ensures
        ({
            let (after, told) = received(b, f, gave_up);
            &&& f is Req && f->Req_method == "hello"@ ==> told == (InboundView::Hello {
                id: f->Req_id,
                params: f->Req_params,
            }) && after == (BridgeView { received: counted(b.received), ..b })
            &&& f is Req && f->Req_method != "hello"@ ==> after.state == StateView::Failed(
                "first frame must be hello, got req "@ + f->Req_method,
            ) && told == (InboundView::Close {
                reply: Some(
                    answer_frame(
                        f->Req_id,
                        OutcomeView::Failure(
                            RemoteView {
                                code: "handshake"@,
                                message: "first frame must be hello, got req "@ + f->Req_method,
                            },
                        ),
                    ),
                ),
            })
            &&& f is Ntf ==> after.state == StateView::Failed(
                "first frame must be hello, got ntf "@ + f->Ntf_method,
            ) && told == (InboundView::Close { reply: None })
            &&& f is Res ==> after.state == StateView::Failed(
                "first frame must be hello, got res id "@ + decimal(f->Res_id as nat),
            ) && told == (InboundView::Close { reply: None })
        }),
{
}

/// When the host goes away just those callers are told who still wait, each in
/// the order of the calls; those who gave up are counted.
pub proof fn law_waiting_callers_are_told(b: BridgeView, gave_up: Seq<u64>, id: u64)
    ensures
        waiting(b.pending, gave_up).contains(id) <==> in_flight(b.pending, id) && !gave_up.contains(
            id,
        ),
        waiting(b.pending, gave_up).len() + abandoned(b.pending, gave_up).len() == b.pending.len(),
{
    lemma_waiting(b.pending, gave_up, id);
}

proof fn lemma_waiting(pending: Seq<(u64, Seq<char>)>, gave_up: Seq<u64>, id: u64)
    ensures
        waiting(pending, gave_up).contains(id) <==> in_flight(pending, id) && !gave_up.contains(id),
        waiting(pending, gave_up).len() + abandoned(pending, gave_up).len() == pending.len(),
    decreases pending.len(),
{
    reveal(Seq::filter);
    if pending.len() > 0 {
        let front = pending.drop_last();
        let last = pending.last();
        let w = waiting(front, gave_up);
        lemma_waiting(front, gave_up, id);
        if in_flight(front, id) {
            let i = choose|i: int| 0 <= i < front.len() && (#[trigger] front[i]).0 == id;
            assert(pending[i].0 == id);
        }
        if in_flight(pending, id) && last.0 != id {
            let i = choose|i: int| 0 <= i < pending.len() && (#[trigger] pending[i]).0 == id;
            assert(front[i].0 == id);
        }
        if last.0 == id {
            assert(pending[pending.len() - 1].0 == id);
        }
        if !gave_up.contains(last.0) {
            let all = w.push(last.0);
            assert(all[w.len() as int] == last.0);
            if w.contains(id) {
                let i = choose|i: int| 0 <= i < w.len() && w[i] == id;
                assert(all[i] == id);
            }
            if all.contains(id) && last.0 != id {
                let i = choose|i: int| 0 <= i < all.len() && all[i] == id;
                assert(w[i] == id);
            }
        }
    }
}

/// At the end of a session what was counted is on record with the callers who
/// gave up counted in; it is the state of a session that was cut off, and the
/// reason that of one whose handshake failed.
pub proof fn law_end_is_counted(b: BridgeView, gave_up: Seq<u64>, reason: Seq<char>)
    requires
        orderly(b),
        !is_over(b.state),
    ensures
        cut_off(b, gave_up).orphans == counted_times(b.orphans, abandoned(b.pending, gave_up).len()),
        cut_off(b, gave_up).gone == Some(
            RecordView {
                pending: b.pending,
                orphans: cut_off(b, gave_up).orphans,
                received: b.received,
            },
        ),
        cut_off(b, gave_up).next_id == b.next_id,
        refused(b, reason).state == StateView::Failed(reason),
        refused(b, reason).gone is Some,
        refused(b, reason).pending.len() == 0,
        b.orphans + abandoned(b.pending, gave_up).len() <= u64::MAX ==> cut_off(b, gave_up).orphans
            == b.orphans + abandoned(b.pending, gave_up).len(),
{
    lemma_counted_times(b.orphans, abandoned(b.pending, gave_up).len());
}

proof fn lemma_counted_times(n: u64, k: nat)
    ensures
        n + k <= u64::MAX ==> counted_times(n, k) == n + k,
    decreases k,
{
    if k > 0 {
        lemma_counted_times(n, (k - 1) as nat);
    }
}

/// Only a session whose handshake is done takes calls; another says why not.
pub proof fn law_only_a_ready_session_is_open(s: StateView)
    ensures
        is_over(s) <==> !(s is Connecting) && !(s is Ready),
        closed_error(s) is None <==> s is Ready,
        s is Disconnected ==> closed_error(s) == Some(ProtoErrorView::HostGone),
        s is Failed ==> closed_error(s) == Some(
            ProtoErrorView::NotReady("handshake failed: "@ + s->Failed_0),
        ),
        s is Connecting ==> closed_error(s) == Some(
            ProtoErrorView::NotReady("handshake not completed"@),
        ),
{
}

/// A count grows by one, and begins anew behind the largest.
pub proof fn law_counts_grow(n: u64)
    ensures
        n < u64::MAX ==> counted(n) == n + 1,
        counted(u64::MAX) == 0,
{
}

/// The bridge tells its host what it speaks, what it is and what it can do.
pub proof fn law_greeting_is_answered(b: BridgeView)
    ensures
        greeting_fields(b)["protocol"@] == Json::Int(b.protocol as int),
        greeting_fields(b)["base"@] == Json::Text("rutis"@),
        greeting_fields(b)["baseSemver"@] == Json::Text(b.base_semver),
        greeting_fields(b)["stack"@] == Json::Array(seq![Json::Text("rutis"@)]),
        greeting_fields(b)["caps"@] == b.own_caps,
{
    reveal_strlit("protocol");
    reveal_strlit("base");
    reveal_strlit("baseSemver");
    reveal_strlit("stack");
    reveal_strlit("caps");
    assert("base"@[0] != "caps"@[0]);
    assert("protocol"@.len() == 8 && "baseSemver"@.len() == 10 && "stack"@.len() == 5);
}

} // verus!
