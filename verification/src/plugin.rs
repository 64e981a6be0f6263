//! How an agent and its front end are put together.

use vstd::prelude::*;

use crate::agent::AgentStatus;
use crate::driver::{AgentDriver, DriverView, TurnView};
use crate::message::text_opt;
use crate::session::{
    fresh, identity_behind, read_back, Session, SessionFile, SessionIds, SESSION_FILE_VERSION,
};
use crate::text::texts;
use crate::tools::replace_text::{join_path, law_path_in, path_in};

verus! {

/// Where the session of an agent that runs in this directory is kept, unless
/// its host says otherwise.
pub open spec fn session_path_in(cwd: Option<Seq<char>>) -> Seq<char> {
    let dir = match cwd {
        Some(d) => d,
        None => "."@,
    };
    path_in(path_in(dir, ".rutis"@), "session.json"@)
}

/// Where the session of an agent that runs in this directory is kept.
pub fn default_session_path(cwd: Option<&str>) -> (r: String)
    ensures
        r@ == session_path_in(
            match cwd {
                Some(d) => Some(d@),
                None => None,
            },
        ),
{
    let dir = match cwd {
        Some(d) => join_path(d, ".rutis"),
        None => join_path(".", ".rutis"),
    };
    join_path(dir.as_str(), "session.json")
}

/// How a driver is set up.
#[derive(Debug)]
pub struct AgentDriverPlugin {
    pub max_steps: usize,
    pub system_prompt: Option<String>,
    pub session_path: Option<String>,
}

#[verifier::ext_equal]
pub struct SetupView {
    pub max_steps: nat,
    pub system_prompt: Option<Seq<char>>,
    pub session_path: Option<Seq<char>>,
}

impl View for AgentDriverPlugin {
    type V = SetupView;

    open spec fn view(&self) -> SetupView {
        SetupView {
            max_steps: self.max_steps as nat,
            system_prompt: text_opt(self.system_prompt),
            session_path: text_opt(self.session_path),
        }
    }
}

/// A setup without a system prompt, whose session is not kept.
pub open spec fn plain_setup(max_steps: nat) -> SetupView {
    SetupView { max_steps, system_prompt: None, session_path: None }
}

impl Default for AgentDriverPlugin {
    fn default() -> (r: Self)
        ensures
            r@ == plain_setup(16),
    {
        Self::new(16)
    }
}

impl AgentDriverPlugin {
    pub fn new(max_steps: usize) -> (r: Self)
        ensures
            r@ == plain_setup(max_steps as nat),
    {
        AgentDriverPlugin { max_steps, system_prompt: None, session_path: None }
    }

    /// The same with this system prompt.
    pub fn with_system_prompt(self, prompt: String) -> (r: Self)
        ensures
            r@ == (SetupView { system_prompt: Some(prompt@), ..self@ }),
    {
        AgentDriverPlugin {
            max_steps: self.max_steps,
            system_prompt: Some(prompt),
            session_path: self.session_path,
        }
    }

    /// The same with the session kept at this path.
    pub fn with_session_path(self, path: String) -> (r: Self)
        ensures
            r@ == (SetupView { session_path: Some(path@), ..self@ }),
    {
        AgentDriverPlugin {
            max_steps: self.max_steps,
            system_prompt: self.system_prompt,
            session_path: Some(path),
        }
    }

    /// The same with the session kept below the working directory.
    pub fn with_default_session_path(self, cwd: Option<&str>) -> (r: Self)
        ensures
            r@ == (SetupView {
                session_path: Some(
                    session_path_in(
                        match cwd {
                            Some(d) => Some(d@),
                            None => None,
                        },
                    ),
                ),
                ..self@
            }),
    {
        self.with_session_path(default_session_path(cwd))
    }

    /// The driver of this setup. `read` is what was read of the session, where
    /// it is kept: a session that was kept is taken up again, any other is new.
    pub fn driver(&self, read: Result<SessionFile, String>, ids: &mut SessionIds) -> (r: AgentDriver)
        ensures
            r.wf(),
            r@ == (DriverView {
                session: r@.session,
                status: AgentStatus::Idle,
                max_steps: self@.max_steps,
                system_prompt: self@.system_prompt,
                turn: TurnView::Idle,
            }),
            if self@.session_path is Some && read is Ok && read->Ok_0.version
                == SESSION_FILE_VERSION {
                &&& read_back(read->Ok_0@, r@.session)
                &&& final(ids).upcoming() == old(ids).upcoming()
            } else {
                &&& r@.session == fresh(r@.session.id)
                &&& r@.session.id.spec_identity() == old(ids).upcoming()
                &&& r@.session.id.spec_generation() == 1
                &&& final(ids).upcoming() == identity_behind(old(ids).upcoming())
            },
    {
        let session = match &self.session_path {
            Some(_) => Session::restore(read, ids),
            None => Session::new(ids),
        };
        AgentDriver::new(session, self.max_steps, self.system_prompt.clone())
    }
}

/// How the terminal front end is set up: with these lines above the
/// conversation.
#[derive(Debug)]
pub struct TuiPlugin {
    pub intro: Vec<String>,
}

impl TuiPlugin {
    pub fn new() -> (r: Self)
        ensures
            texts(r.intro@) == Seq::<Seq<char>>::empty(),
    {
        TuiPlugin { intro: Vec::new() }
    }

    /// The same with these lines above the conversation.
    pub fn with_intro(self, intro: Vec<String>) -> (r: Self)
        ensures
            r.intro@ == intro@,
    {
        TuiPlugin { intro }
    }
}

// ── laws ────────────────────────────────────────────────────────────

/// The session is kept below the directory that the agent runs in, and below
/// the current one where that is not known.
pub proof fn law_session_is_kept_below(dir: Seq<char>)
    requires
        dir.len() > 0,
        dir.last() != '/',
    ensures
        session_path_in(Some(dir)) == dir + "/.rutis/session.json"@,
        session_path_in(None) == "./.rutis/session.json"@,
{
    reveal_strlit("/");
    reveal_strlit(".");
    reveal_strlit(".rutis");
    reveal_strlit("session.json");
    reveal_strlit("/.rutis/session.json");
    reveal_strlit("./.rutis/session.json");
    let inner = path_in(dir, ".rutis"@);
    law_path_in(dir, ".rutis"@);
    law_path_in(inner, "session.json"@);
    law_path_in("."@, ".rutis"@);
    law_path_in(path_in("."@, ".rutis"@), "session.json"@);
    assert(session_path_in(Some(dir)) =~= dir + "/.rutis/session.json"@);
    assert(session_path_in(None) =~= "./.rutis/session.json"@);
}

/// A setup without more has neither a persona nor a place for its session.
pub proof fn law_plain_setup(max_steps: nat)
    ensures
        plain_setup(max_steps).max_steps == max_steps,
        plain_setup(max_steps).system_prompt is None,
        plain_setup(max_steps).session_path is None,
{
}

} // verus!
