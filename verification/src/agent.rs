//! What is seen of an agent from outside: its state, its errors and a snapshot
//! of its session.

use vstd::prelude::*;

use crate::message::{copy_messages, copy_text, message_views, text_opt, ModelMessage};
use crate::session::{
    written, Session, SessionFile, SessionId, SessionView, SESSION_FILE_VERSION,
};
use crate::text::{decimal, number};

verus! {

/// Whether a turn is running.
#[derive(Debug, Clone, Copy, PartialEq, Eq, Structural)]
pub enum AgentStatus {
    Idle,
    Running,
}

impl AgentStatus {
    /// The status as a number: zero for idle, one for running.
    pub fn as_usize(self) -> (r: usize)
        ensures
            r == self.spec_as_usize(),
    {
        match self {
            AgentStatus::Idle => 0,
            AgentStatus::Running => 1,
        }
    }

    pub open spec fn spec_as_usize(self) -> usize {
        match self {
            AgentStatus::Idle => 0,
            AgentStatus::Running => 1,
        }
    }

    /// The status of a number: running for one, idle for any other.
    pub fn from_usize(v: usize) -> (r: Self)
        ensures
            r == Self::spec_from_usize(v),
    {
        match v {
            1 => AgentStatus::Running,
            _ => AgentStatus::Idle,
        }
    }

    pub open spec fn spec_from_usize(v: usize) -> Self {
        if v == 1 {
            AgentStatus::Running
        } else {
            AgentStatus::Idle
        }
    }

    /// The name of the status.
    pub fn name(self) -> (r: &'static str)
        ensures
            r@ == match self {
                AgentStatus::Idle => "Idle"@,
                AgentStatus::Running => "Running"@,
            },
    {
        match self {
            AgentStatus::Idle => "Idle",
            AgentStatus::Running => "Running",
        }
    }
}

/// A status is found again in its number.
pub proof fn law_status_roundtrip(s: AgentStatus)
    ensures
        AgentStatus::spec_from_usize(s.spec_as_usize()) == s,
{
}

/// Holds the status of an agent as a number.
#[derive(Debug)]
pub struct StatusCell {
    value: usize,
}

impl StatusCell {
    pub closed spec fn status(self) -> AgentStatus {
        AgentStatus::spec_from_usize(self.value)
    }

    pub fn idle() -> (r: Self)
        ensures
            r.status() == AgentStatus::Idle,
    {
        StatusCell { value: AgentStatus::Idle.as_usize() }
    }

    pub fn set(&mut self, s: AgentStatus)
        ensures
            final(self).status() == s,
    {
        self.value = s.as_usize();
    }

    pub fn get(&self) -> (r: AgentStatus)
        ensures
            r == self.status(),
    {
        AgentStatus::from_usize(self.value)
    }
}

/// Why a turn failed.
#[derive(Debug)]
pub enum AgentError {
    /// The turn was cancelled.
    Stopped,
    /// The turn took more steps than the agent may take.
    MaxSteps(usize),
    /// The model failed.
    Llm(String),
    /// A step was refused before it reached the model.
    Pipeline(String),
}

#[verifier::ext_equal]
pub enum ErrorView {
    Stopped,
    MaxSteps(nat),
    Llm(Seq<char>),
    Pipeline(Seq<char>),
}

impl View for AgentError {
    type V = ErrorView;

    open spec fn view(&self) -> ErrorView {
        match *self {
            AgentError::Stopped => ErrorView::Stopped,
            AgentError::MaxSteps(n) => ErrorView::MaxSteps(n as nat),
            AgentError::Llm(s) => ErrorView::Llm(s@),
            AgentError::Pipeline(s) => ErrorView::Pipeline(s@),
        }
    }
}

/// What an error says.
pub open spec fn error_text(e: ErrorView) -> Seq<char> {
    match e {
        ErrorView::Stopped => "agent turn stopped (cancelled)"@,
        ErrorView::MaxSteps(n) => "agent turn exceeded max_steps="@ + decimal(n),
        ErrorView::Llm(s) => "llm failed: "@ + s,
        ErrorView::Pipeline(s) => "tool pipeline failed: "@ + s,
    }
}

impl AgentError {
    /// What the error says.
    pub fn message(&self) -> (r: String)
        ensures
            r@ == error_text(self@),
    {
        let mut out = String::new();
        match self {
            AgentError::Stopped => {
                out.push_str("agent turn stopped (cancelled)");
            },
            AgentError::MaxSteps(n) => {
                out.push_str("agent turn exceeded max_steps=");
                out.push_str(number(*n as u64).as_str());
            },
            AgentError::Llm(s) => {
                out.push_str("llm failed: ");
                out.push_str(s.as_str());
            },
            AgentError::Pipeline(s) => {
                out.push_str("tool pipeline failed: ");
                out.push_str(s.as_str());
            },
        }
        assert(out@ =~= error_text(self@));
        out
    }
}

/// A copy of a session at one moment.
#[derive(Debug)]
pub struct SessionSnapshot {
    id: SessionId,
    messages: Vec<ModelMessage>,
    summary: Option<String>,
    todo: Option<String>,
    tokens_used: u64,
}

impl View for SessionSnapshot {
    type V = SessionView;

    closed spec fn view(&self) -> SessionView {
        SessionView {
            id: self.id,
            messages: message_views(self.messages@),
            summary: text_opt(self.summary),
            todo: text_opt(self.todo),
            tokens_used: self.tokens_used,
        }
    }
}

/// A copy of an optional text.
fn own(s: Option<&str>) -> (r: Option<String>)
    ensures
        match s {
            Some(x) => text_opt(r) == Some(x@),
            None => r is None,
        },
{
    match s {
        Some(x) => Some(x.to_owned()),
        None => None,
    }
}

impl SessionSnapshot {
    /// The session as it is now.
    pub fn new(session: &Session) -> (r: Self)
        ensures
            r@ == session@,
    {
        SessionSnapshot {
            id: session.id(),
            messages: copy_messages(session.messages()),
            summary: own(session.summary()),
            todo: own(session.todo()),
            tokens_used: session.tokens_used(),
        }
    }

    pub fn id(&self) -> (r: SessionId)
        ensures
            r == self@.id,
    {
        self.id
    }

    pub fn messages(&self) -> (r: &Vec<ModelMessage>)
        ensures
            message_views(r@) == self@.messages,
    {
        &self.messages
    }

    /// The summary of what was cut off before the messages.
    pub fn summary(&self) -> (r: Option<&str>)
        ensures
            match r {
                Some(s) => self@.summary == Some(s@),
                None => self@.summary is None,
            },
    {
        match &self.summary {
            Some(s) => Some(s.as_str()),
            None => None,
        }
    }

    /// The work left open.
    pub fn todo(&self) -> (r: Option<&str>)
        ensures
            match r {
                Some(s) => self@.todo == Some(s@),
                None => self@.todo is None,
            },
    {
        match &self.todo {
            Some(s) => Some(s.as_str()),
            None => None,
        }
    }

    /// The tokens spent so far.
    pub fn tokens_used(&self) -> (r: u64)
        ensures
            r == self@.tokens_used,
    {
        self.tokens_used
    }

    /// What is to be written of the snapshot: the same as of the session.
    pub fn persist(&self, saved_at_ms: u64) -> (r: SessionFile)
        ensures
            r@ == written(self@, saved_at_ms),
    {
        SessionFile {
            version: SESSION_FILE_VERSION,
            id: self.id.identity(),
            generation: self.id.generation(),
            messages: copy_messages(&self.messages),
            summary: copy_text(&self.summary),
            todo: copy_text(&self.todo),
            tokens_used: self.tokens_used,
            saved_at_ms,
        }
    }
}

/// An idle agent is zero and a running one is one; no other number runs.
pub proof fn law_status_numbers(s: AgentStatus, v: usize)
    ensures
        s is Idle ==> s.spec_as_usize() == 0,
        s is Running ==> s.spec_as_usize() == 1,
        AgentStatus::spec_from_usize(v) is Running <==> v == 1,
{
}

/// What an error says begins with what failed and ends with why.
pub proof fn law_error_says_what_failed(n: nat, why: Seq<char>)
    ensures
        error_text(ErrorView::Llm(why)) == "llm failed: "@ + why,
        error_text(ErrorView::Pipeline(why)) == "tool pipeline failed: "@ + why,
        error_text(ErrorView::MaxSteps(n)) == "agent turn exceeded max_steps="@ + decimal(n),
        error_text(ErrorView::Stopped) == "agent turn stopped (cancelled)"@,
{
}

} // verus!
