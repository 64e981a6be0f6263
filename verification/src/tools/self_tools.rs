//! The tools by which an agent acts on itself: it reads and writes its own
//! state, changes its persona and its tools, builds and checks its own code,
//! and goes on to the next generation or back to the last.
//!
//! What these tools touch outside is read and written by the host; here it is
//! decided what they do and what the model is told.

use serde_json::Value;
use vstd::prelude::*;

use crate::agent::AgentStatus;
use crate::events::SelfReloadRequested;
use crate::json;
use crate::json::{bool_in, field, json_of, json_text, parsed_or_null, text_field, u64_in, Json};
use crate::session::SessionId;
use crate::text::{
    after_first, behind_first, contains, count, decimal, ends_with_char, first_place,
    law_first_place, law_number_is_read_back, lemma_found_behind, lemma_regrouped, lemma_stands_in,
    lemma_still_found, lines, lossy, lossy_text,
    lower_case, number, number_in, occurs, parse_number, pieces, same, split_on, stands_at, starts_with, text_lines,
    texts, to_lower, to_upper, trim, trim_start, trimmed, trimmed_start, upper_case,
};
use crate::tools::hotplug::{hotplug_load, HOTPLUG_DESCRIPTION, HOTPLUG_SCHEMA};
use crate::tools::{tool_views, ToolDef, ToolView};

verus! {

// ── the version ledger ──────────────────────────────────────────────

/// Where the ledger stands within the repository.
pub const VERSION_LEDGER_PATH: &'static str = "docs/work/version-ledger.json";

/// Where the handoff document stands within the repository.
pub const HANDOFF_PATH: &'static str = "docs/work/handoff.md";

/// Where the skill library stands within the repository.
pub const SKILLS_INDEX_PATH: &'static str = "docs/skills/index.md";

/// A version that was built.
#[derive(Debug)]
pub struct LedgerEntry {
    pub commit: String,
    pub at_ms: u64,
    pub note: String,
}

#[verifier::ext_equal]
pub struct EntryView {
    pub commit: Seq<char>,
    pub at_ms: u64,
    pub note: Seq<char>,
}

impl View for LedgerEntry {
    type V = EntryView;

    open spec fn view(&self) -> EntryView {
        EntryView { commit: self.commit@, at_ms: self.at_ms, note: self.note@ }
    }
}

/// The versions that were built, the latest last.
#[derive(Debug)]
pub struct VersionLedger {
    pub entries: Vec<LedgerEntry>,
}

impl View for VersionLedger {
    type V = Seq<EntryView>;

    open spec fn view(&self) -> Seq<EntryView> {
        Seq::new(self.entries@.len(), |i: int| self.entries@[i]@)
    }
}

impl Default for VersionLedger {
    fn default() -> (r: Self)
        ensures
            r@ == Seq::<EntryView>::empty(),
    {
        let r = VersionLedger { entries: Vec::new() };
        assert(r@ =~= Seq::empty());
        r
    }
}

/// The version before the latest.
pub open spec fn previous_version(entries: Seq<EntryView>) -> Option<EntryView> {
    if entries.len() < 2 {
        None
    } else {
        Some(entries[entries.len() - 2])
    }
}

impl VersionLedger {
    /// Adds a version at the end.
    pub fn push(&mut self, entry: LedgerEntry)
        ensures
            final(self)@ == old(self)@.push(entry@),
    {
        self.entries.push(entry);
        assert(self@ =~= old(self)@.push(entry@));
    }

    /// The version before the latest.
    pub fn previous(&self) -> (r: Option<&LedgerEntry>)
        ensures
            match r {
                Some(e) => previous_version(self@) == Some(e@),
                None => previous_version(self@) is None,
            },
    {
        if self.entries.len() < 2 {
            return None;
        }
        Some(&self.entries[self.entries.len() - 2])
    }
}

/// After two versions the one before the latest is the first of the two.
pub proof fn law_previous_is_the_one_before(entries: Seq<EntryView>, a: EntryView, b: EntryView)
    ensures
        previous_version(entries.push(a).push(b)) == Some(a),
{
}

/// A file of the repository, seen from the directory of a crate two levels
/// below its root.
pub open spec fn repo_path(crate_dir: Seq<char>, file: Seq<char>) -> Seq<char> {
    crate_dir + "/../../"@ + file
}

fn in_repo(crate_dir: &str, file: &str) -> (r: String)
    ensures
        r@ == repo_path(crate_dir@, file@),
{
    let mut out = crate_dir.to_owned();
    out.push_str("/../../");
    out.push_str(file);
    out
}

/// The ledger of the repository, wherever the process was started.
pub fn default_ledger_path(crate_dir: &str) -> (r: String)
    ensures
        r@ == repo_path(crate_dir@, VERSION_LEDGER_PATH@),
{
    in_repo(crate_dir, VERSION_LEDGER_PATH)
}

/// The handoff document of the repository, wherever the process was started.
pub fn default_handoff_path(crate_dir: &str) -> (r: String)
    ensures
        r@ == repo_path(crate_dir@, HANDOFF_PATH@),
{
    in_repo(crate_dir, HANDOFF_PATH)
}

/// The skill library of the repository where it is there, else the one below
/// the working directory.
pub fn skills_index_path(crate_dir: &str, is_in_repo: bool) -> (r: String)
    ensures
        r@ == if is_in_repo {
            repo_path(crate_dir@, SKILLS_INDEX_PATH@)
        } else {
            SKILLS_INDEX_PATH@
        },
{
    if is_in_repo {
        in_repo(crate_dir, SKILLS_INDEX_PATH)
    } else {
        SKILLS_INDEX_PATH.to_owned()
    }
}

// ── self_status and self_persist ────────────────────────────────────

/// What the agent is told of itself.
pub open spec fn status_text(
    id: SessionId,
    status: AgentStatus,
    msgs: nat,
    path: Option<Seq<char>>,
) -> Seq<char> {
    "self_status:\n  identity: "@ + decimal(id.spec_identity() as nat) + "\n  generation: "@
        + decimal(id.spec_generation() as nat) + "\n  status: "@ + (match status {
        AgentStatus::Idle => "Idle"@,
        AgentStatus::Running => "Running"@,
    }) + "\n  session messages: "@ + decimal(msgs) + "\n  persist path: "@ + (match path {
        Some(p) => p,
        None => "not configured"@,
    })
}

/// What the agent is told of itself.
pub fn status_report(id: SessionId, status: AgentStatus, msgs: usize, path: Option<&str>) -> (r:
    String)
    ensures
        r@ == status_text(
            id,
            status,
            msgs as nat,
            match path {
                Some(p) => Some(p@),
                None => None,
            },
        ),
{
    let mut out = "self_status:\n  identity: ".to_owned();
    out.push_str(number(id.identity()).as_str());
    out.push_str("\n  generation: ");
    out.push_str(number(id.generation() as u64).as_str());
    out.push_str("\n  status: ");
    out.push_str(status.name());
    out.push_str("\n  session messages: ");
    out.push_str(number(msgs as u64).as_str());
    out.push_str("\n  persist path: ");
    match path {
        Some(p) => out.push_str(p),
        None => out.push_str("not configured"),
    }
    out
}

/// What the agent is told of a session that was written, or why it was not:
/// there is no path for it.
pub open spec fn persist_text(id: SessionId, msgs: nat, path: Option<Seq<char>>) -> Result<
    Seq<char>,
    Seq<char>,
> {
    match path {
        None => Err(
            "error: no session persist path configured (use AgentDriverPlugin::with_session_path)"@,
        ),
        Some(p) => Ok(
            "persisted session identity="@ + decimal(id.spec_identity() as nat) + " generation="@
                + decimal(id.spec_generation() as nat) + " messages="@ + decimal(msgs) + " -> "@
                + p,
        ),
    }
}

/// What the agent is told of a session that was written.
pub fn persist_report(id: SessionId, msgs: usize, path: Option<&str>) -> (r: Result<String, String>)
    ensures
        match path {
            None => r matches Err(e) && persist_text(id, msgs as nat, None) == Err::<
                Seq<char>,
                Seq<char>,
            >(e@),
            Some(p) => r matches Ok(s) && persist_text(id, msgs as nat, Some(p@)) == Ok::<
                Seq<char>,
                Seq<char>,
            >(s@),
        },
{
    match path {
        None => Err(
            "error: no session persist path configured (use AgentDriverPlugin::with_session_path)".to_owned(),
        ),
        Some(p) => {
            let mut out = "persisted session identity=".to_owned();
            out.push_str(number(id.identity()).as_str());
            out.push_str(" generation=");
            out.push_str(number(id.generation() as u64).as_str());
            out.push_str(" messages=");
            out.push_str(number(msgs as u64).as_str());
            out.push_str(" -> ");
            out.push_str(p);
            Ok(out)
        },
    }
}

// ── self_todo, self_persona and self_compact ────────────────────────

/// The text that a tool needs, with what the model is told where it is
/// missing.
fn needed(args: &Value, key: &str, missing: &str) -> (r: Result<String, String>)
    ensures
        match r {
            Ok(s) => text_field(json_of(*args), key@) == Some(s@),
            Err(e) => text_field(json_of(*args), key@) is None && e@ == missing@,
        },
{
    match json::str_field(args, key) {
        Some(s) => Ok(s.to_owned()),
        None => Err(missing.to_owned()),
    }
}

/// The work to be noted, and what the model is told.
pub fn plan_todo(args: &Value) -> (r: Result<(String, String), String>)
    ensures
        match r {
            Ok((todo, said)) => {
                &&& text_field(json_of(*args), "todo"@) == Some(todo@)
                &&& said@ == "todo updated (will auto-resume after restart): "@ + todo@
            },
            Err(e) => {
                &&& text_field(json_of(*args), "todo"@) is None
                &&& e@ == "error: todo is required"@
            },
        },
{
    match needed(args, "todo", "error: todo is required") {
        Ok(todo) => {
            let mut said = "todo updated (will auto-resume after restart): ".to_owned();
            said.push_str(todo.as_str());
            Ok((todo, said))
        },
        Err(e) => Err(e),
    }
}

/// The new persona, and what the model is told.
pub fn plan_persona(args: &Value) -> (r: Result<(String, String), String>)
    ensures
        match r {
            Ok((persona, said)) => {
                &&& text_field(json_of(*args), "persona"@) == Some(persona@)
                &&& said@ == "persona updated at runtime ("@ + decimal(persona@.len())
                    + " chars). Next turn uses the new cognition."@
            },
            Err(e) => {
                &&& text_field(json_of(*args), "persona"@) is None
                &&& e@ == "error: persona is required"@
            },
        },
{
    match needed(args, "persona", "error: persona is required") {
        Ok(persona) => {
            let mut said = "persona updated at runtime (".to_owned();
            said.push_str(number(count(persona.as_str()) as u64).as_str());
            said.push_str(" chars). Next turn uses the new cognition.");
            Ok((persona, said))
        },
        Err(e) => Err(e),
    }
}

/// How many messages a compaction keeps: what the arguments say, or twenty.
pub open spec fn kept_messages(args: Json) -> nat {
    let n = match field(args, "keep"@) {
        Some(v) => match u64_in(v) {
            Some(n) => n,
            None => 20,
        },
        None => 20,
    };
    if n > usize::MAX {
        usize::MAX as nat
    } else {
        n as nat
    }
}

/// The summary, and how many messages are to be kept.
pub fn plan_compact(args: &Value) -> (r: Result<(String, usize), String>)
    ensures
        match r {
            Ok((summary, keep)) => {
                &&& text_field(json_of(*args), "summary"@) == Some(summary@)
                &&& keep == kept_messages(json_of(*args))
            },
            Err(e) => {
                &&& text_field(json_of(*args), "summary"@) is None
                &&& e@ == "error: summary is required"@
            },
        },
{
    match needed(args, "summary", "error: summary is required") {
        Ok(summary) => {
            let n: u64 = match json::get(args, "keep") {
                Some(v) => match v.as_u64() {
                    Some(n) => n,
                    None => 20,
                },
                None => 20,
            };
            let keep: usize = if n > usize::MAX as u64 {
                usize::MAX
            } else {
                n as usize
            };
            Ok((summary, keep))
        },
        Err(e) => Err(e),
    }
}

/// What the model is told of a compaction.
pub fn compact_report(before: usize, after: usize, keep: usize) -> (r: String)
    ensures
        r@ == "compacted session: messages "@ + decimal(before as nat) + " -> "@ + decimal(
            after as nat,
        ) + " (kept last "@ + decimal(keep as nat) + ")"@,
{
    let mut out = "compacted session: messages ".to_owned();
    out.push_str(number(before as u64).as_str());
    out.push_str(" -> ");
    out.push_str(number(after as u64).as_str());
    out.push_str(" (kept last ");
    out.push_str(number(keep as u64).as_str());
    out.push_str(")");
    out
}

// ── self_hotload ────────────────────────────────────────────────────

/// The schema of a tool without arguments.
pub const EMPTY_SCHEMA: &'static str = "{\"type\":\"object\",\"properties\":{}}";

/// A tool that gives the same answer to every call.
#[derive(Debug)]
pub struct HotTool {
    pub def: ToolDef,
    pub reply: String,
    pub said: String,
}

/// The tool to be registered, its answer, and what the model is told.
pub fn plan_hotload(args: &Value) -> (r: Result<HotTool, String>)
    ensures
        match r {
            Ok(t) => {
                &&& text_field(json_of(*args), "name"@) == Some(t.def@.name)
                &&& text_field(json_of(*args), "reply"@) == Some(t.reply@)
                &&& t.def@.description == match text_field(json_of(*args), "description"@) {
                    Some(d) => d,
                    None => "hot-loaded tool"@,
                }
                &&& t.def@.parameters == parsed_or_null(EMPTY_SCHEMA@)
                &&& t.said@ == "hot-loaded tool '"@ + t.def@.name
                    + "' — now available in the model's tool set"@
            },
            Err(e) => if text_field(json_of(*args), "name"@) is None {
                e@ == "error: name is required"@
            } else {
                text_field(json_of(*args), "reply"@) is None && e@ == "error: reply is required"@
            },
        },
{
    let name = match needed(args, "name", "error: name is required") {
        Ok(s) => s,
        Err(e) => {
            return Err(e);
        },
    };
    let reply = match needed(args, "reply", "error: reply is required") {
        Ok(s) => s,
        Err(e) => {
            return Err(e);
        },
    };
    let description = match json::str_field(args, "description") {
        Some(s) => s.to_owned(),
        None => "hot-loaded tool".to_owned(),
    };
    let mut said = "hot-loaded tool '".to_owned();
    said.push_str(name.as_str());
    said.push_str("' — now available in the model's tool set");
    let def = ToolDef::new(
        name.as_str(),
        description.as_str(),
        json::parse_or_null(EMPTY_SCHEMA),
    );
    Ok(HotTool { def, reply, said })
}

// ── self_build and self_check ───────────────────────────────────────

/// A command of the agent on its own code, with its errors among its output.
pub open spec fn self_command(args: Json, default: Seq<char>) -> Seq<char> {
    (match text_field(args, "command"@) {
        Some(c) => c,
        None => default,
    }) + " 2>&1"@
}

fn own_command(args: &Value, default: &str) -> (r: String)
    ensures
        r@ == self_command(json_of(*args), default@),
{
    let mut out = match json::str_field(args, "command") {
        Some(c) => c.to_owned(),
        None => default.to_owned(),
    };
    out.push_str(" 2>&1");
    out
}

/// The command that builds the agent.
pub fn build_command(args: &Value) -> (r: String)
    ensures
        r@ == self_command(json_of(*args), "cargo build -p rutis-agent"@),
{
    own_command(args, "cargo build -p rutis-agent")
}

/// The command that checks the agent.
pub fn check_command(args: &Value) -> (r: String)
    ensures
        r@ == self_command(json_of(*args), "cargo test -p rutis-agent"@),
{
    own_command(args, "cargo test -p rutis-agent")
}

/// The path that the arguments give under `key`, or the default.
pub fn path_argument(args: &Value, key: &str, default: &str) -> (r: String)
    ensures
        r@ == match text_field(json_of(*args), key@) {
            Some(p) => p,
            None => default@,
        },
{
    match json::str_field(args, key) {
        Some(p) => p.to_owned(),
        None => default.to_owned(),
    }
}

/// The output of a build that succeeded.
pub open spec fn is_built(output: Seq<char>) -> bool {
    !occurs(output, "error"@) && occurs(output, "Finished"@)
}

/// The build is put on record: it succeeded, and its commit is not the latest
/// on record.
pub open spec fn is_recorded(entries: Seq<EntryView>, output: Seq<char>, commit: Seq<char>) -> bool {
    is_built(output) && !(entries.len() > 0 && entries.last().commit == commit)
}

/// Takes the output of a build. Gives what the model is told, and puts a build
/// that succeeded on record, once for each commit. `true` where the ledger is
/// to be written.
pub fn record_build(ledger: &mut VersionLedger, output: &str, commit: &str, at_ms: u64) -> (r: (
    String,
    bool,
))
    ensures
        r.1 == is_recorded(old(ledger)@, output@, commit@),
        if is_recorded(old(ledger)@, output@, commit@) {
            &&& final(ledger)@ == old(ledger)@.push(
                EntryView { commit: commit@, at_ms, note: "self_build"@ },
            )
            &&& r.0@ == output@ + "\n[ledger] recorded "@ + commit@
        } else {
            final(ledger)@ == old(ledger)@ && r.0@ == output@
        },
{
    if !contains(output, "error") && contains(output, "Finished") {
        let n: usize = ledger.entries.len();
        let known = n > 0 && same(ledger.entries[n - 1].commit.as_str(), commit);
        proof {
            if n > 0 {
                assert(ledger@.last() == ledger.entries@[n - 1]@);
            }
        }
        if !known {
            ledger.push(
                LedgerEntry { commit: commit.to_owned(), at_ms, note: "self_build".to_owned() },
            );
            let mut out = output.to_owned();
            out.push_str("\n[ledger] recorded ");
            out.push_str(commit);
            return (out, true);
        }
    }
    (output.to_owned(), false)
}

/// To take the same build once more puts nothing on record.
pub proof fn law_build_is_recorded_once(
    entries: Seq<EntryView>,
    output: Seq<char>,
    commit: Seq<char>,
    at_ms: u64,
)
    ensures
        !is_recorded(
            entries.push(EntryView { commit, at_ms, note: "self_build"@ }),
            output,
            commit,
        ),
{
}

/// A build that was put on record, or why that failed.
pub fn recorded_build(said: String, saved: Result<(), String>) -> (r: Result<String, String>)
    ensures
        match saved {
            Ok(_) => r == Ok::<String, String>(said),
            Err(e) => r matches Err(s) && s@ == "build ok but ledger write failed: "@ + e@,
        },
{
    match saved {
        Ok(_) => Ok(said),
        Err(e) => {
            let mut s = "build ok but ledger write failed: ".to_owned();
            s.push_str(e.as_str());
            Err(s)
        },
    }
}

/// The commit in what git printed, or a stand-in where it printed none.
pub open spec fn commit_in(printed: Option<Seq<char>>) -> Seq<char> {
    match printed {
        Some(p) if trimmed(p).len() > 0 => trimmed(p),
        _ => "(no git)"@,
    }
}

/// The commit in what git printed.
pub fn commit_from(printed: Option<&str>) -> (r: String)
    ensures
        r@ == commit_in(
            match printed {
                Some(p) => Some(p@),
                None => None,
            },
        ),
{
    if let Some(p) = printed {
        let t = trim(p);
        if !t.as_str().is_empty() {
            return t;
        }
    }
    "(no git)".to_owned()
}

/// The current commit, from what `git rev-parse` printed. `None` where it
/// failed.
pub fn head_commit(stdout: Option<&Vec<u8>>) -> (r: String)
    ensures
        r@ == commit_in(
            match stdout {
                Some(b) => Some(lossy_text(b@)),
                None => None,
            },
        ),
{
    match stdout {
        Some(b) => {
            let s = lossy(b);
            commit_from(Some(s.as_str()))
        },
        None => commit_from(None),
    }
}

/// The sum of the numbers in `words` that stand before `unit`.
pub open spec fn tally(words: Seq<Seq<char>>, unit: Seq<char>) -> nat
    decreases words.len(),
{
    if words.len() < 2 {
        0
    } else {
        tally(words.drop_last(), unit) + (if words.last() == unit {
            match number_in(words[words.len() - 2]) {
                Some(n) => n as nat,
                None => 0,
            }
        } else {
            0
        })
    }
}

/// The sum over the lines that report a test result.
pub open spec fn tally_lines(ls: Seq<Seq<char>>, unit: Seq<char>) -> nat
    decreases ls.len(),
{
    if ls.len() == 0 {
        0
    } else {
        tally_lines(ls.drop_last(), unit) + (if occurs(ls.last(), "test result:"@) {
            tally(pieces(ls.last(), ' '), unit)
        } else {
            0
        })
    }
}

/// Some line reports a test result.
pub open spec fn reports_tests(ls: Seq<Seq<char>>) -> bool {
    exists|i: int| 0 <= i < ls.len() && occurs(#[trigger] ls[i], "test result:"@)
}

/// A count as it is kept: it stops at the largest number.
pub open spec fn kept_count(n: nat) -> u64 {
    if n > u64::MAX {
        u64::MAX
    } else {
        n as u64
    }
}

/// What the model is told of a check: the output, and behind it how many tests
/// passed and failed, where it reports any.
pub open spec fn check_text(output: Seq<char>) -> Seq<char> {
    let ls = text_lines(output);
    if reports_tests(ls) {
        let passed = kept_count(tally_lines(ls, "passed;"@));
        let failed = kept_count(tally_lines(ls, "failed;"@));
        output + "\n[health] "@ + (if failed == 0 {
            "GREEN"@
        } else {
            "RED"@
        }) + ": "@ + decimal(passed as nat) + " passed / "@ + decimal(failed as nat) + " failed"@
    } else {
        output
    }
}

fn count_unit(line: &str, unit: &str) -> (r: u64)
    ensures
        r == kept_count(tally(pieces(line@, ' '), unit@)),
{
    let words = split_on(line, ' ');
    let ghost all = texts(words@);
    let mut sum: u64 = 0;
    let mut i: usize = 1;
    assert(all.take(1).len() < 2);
    while i < words.len()
        invariant
            1 <= i <= words@.len(),
            all == texts(words@),
            sum == kept_count(tally(all.take(i as int), unit@)),
        decreases words@.len() - i,
    {
        proof {
            let now = all.take(i + 1);
            assert(now.drop_last() =~= all.take(i as int));
            assert(now.last() == words@[i as int]@);
            assert(now[now.len() - 2] == words@[i - 1]@);
        }
        if same(words[i].as_str(), unit) {
            if let Some(n) = parse_number(words[i - 1].as_str()) {
                sum = sum.saturating_add(n);
            }
        }
        i = i + 1;
    }
    assert(all.take(i as int) =~= all);
    sum
}

/// What the model is told of a check.
pub fn check_report(output: &str) -> (r: String)
    ensures
        r@ == check_text(output@),
{
    let ls = lines(output);
    let ghost all = texts(ls@);
    let mut passed: u64 = 0;
    let mut failed: u64 = 0;
    let mut any = false;
    let mut i: usize = 0;
    assert(all.take(0) =~= Seq::empty());
    while i < ls.len()
        invariant
            i <= ls@.len(),
            all == texts(ls@),
            passed == kept_count(tally_lines(all.take(i as int), "passed;"@)),
            failed == kept_count(tally_lines(all.take(i as int), "failed;"@)),
            any == reports_tests(all.take(i as int)),
        decreases ls@.len() - i,
    {
        let ghost before = all.take(i as int);
        let ghost now = all.take(i + 1);
        proof {
            assert(now.drop_last() =~= before);
            assert(now.last() == ls@[i as int]@);
            if reports_tests(before) {
                let k = choose|k: int|
                    0 <= k < before.len() && occurs(#[trigger] before[k], "test result:"@);
                assert(occurs(now[k], "test result:"@));
            }
            if reports_tests(now) && !occurs(now.last(), "test result:"@) {
                let k = choose|k: int|
                    0 <= k < now.len() && occurs(#[trigger] now[k], "test result:"@);
                assert(occurs(before[k], "test result:"@));
            }
        }
        if contains(ls[i].as_str(), "test result:") {
            assert(occurs(now[i as int], "test result:"@));
            any = true;
            passed = passed.saturating_add(count_unit(ls[i].as_str(), "passed;"));
            failed = failed.saturating_add(count_unit(ls[i].as_str(), "failed;"));
        }
        i = i + 1;
    }
    assert(all.take(i as int) =~= all);
    let mut out = output.to_owned();
    if any {
        out.push_str("\n[health] ");
        out.push_str(
            if failed == 0 {
                "GREEN"
            } else {
                "RED"
            },
        );
        out.push_str(": ");
        out.push_str(number(passed).as_str());
        out.push_str(" passed / ");
        out.push_str(number(failed).as_str());
        out.push_str(" failed");
    }
    out
}

// ── self_reload ─────────────────────────────────────────────────────

/// What the agent leaves for its next life.
pub open spec fn intent_text(at_ms: u64) -> Seq<char> {
    "\n---\n## reload intent @ "@ + decimal(at_ms as nat)
        + "\nSelf reload requested via self_reload tool.\nNext instance: read docs/work/handoff.md, resume from the latest task.\n"@
}

/// The handoff document with the intent behind what it held.
pub fn handoff_with_intent(existing: &str, at_ms: u64) -> (r: String)
    ensures
        r@ == (if existing@.len() > 0 && existing@.last() == '\n' {
            existing@
        } else {
            existing@.push('\n')
        }) + intent_text(at_ms),
{
    let mut out = existing.to_owned();
    if !ends_with_char(existing, '\n') {
        out.push('\n');
    }
    let ghost start = out@;
    out.push_str("\n---\n## reload intent @ ");
    out.push_str(number(at_ms).as_str());
    out.push_str(
        "\nSelf reload requested via self_reload tool.\nNext instance: read docs/work/handoff.md, resume from the latest task.\n",
    );
    assert(out@ =~= start + intent_text(at_ms));
    out
}

/// What is told to the host, and what the model is told, once the intent is
/// written.
pub fn reload_request(session: SessionId, handoff: &str) -> (r: (SelfReloadRequested, String))
    ensures
        r.0.session == session,
        r.0.reason@ == "self_reload tool invoked"@,
        r.0.intent_path@ == handoff@,
        r.1@ == "reload intent written to "@ + handoff@
            + "; SelfReloadRequested emitted. Host should now exit and restart the process."@,
{
    let mut said = "reload intent written to ".to_owned();
    said.push_str(handoff);
    said.push_str("; SelfReloadRequested emitted. Host should now exit and restart the process.");
    (
        SelfReloadRequested {
            session,
            reason: "self_reload tool invoked".to_owned(),
            intent_path: handoff.to_owned(),
        },
        said,
    )
}

// ── self_rollback ───────────────────────────────────────────────────

/// What a rollback does.
#[derive(Debug)]
pub enum Rollback {
    /// Only this is said.
    Say(String),
    /// This commit is checked out, by this command.
    Checkout { commit: String, command: String },
}

/// A rollback asks that it be done, not only shown.
pub open spec fn asks_to_apply(args: Json) -> bool {
    match field(args, "apply"@) {
        Some(v) => bool_in(v) == Some(true),
        None => false,
    }
}

/// What the model is told where there is no version to go back to.
pub const NO_PREVIOUS: &'static str = "error: version ledger has fewer than 2 entries — no previous generation to roll back to. Run self_build successfully at least twice first.";

/// What a rollback does. Without being asked to it changes nothing and shows
/// what it would do.
pub fn plan_rollback(ledger: &VersionLedger, args: &Value) -> (r: Rollback)
    ensures
        match previous_version(ledger@) {
            None => r matches Rollback::Say(s) && s@ == NO_PREVIOUS@,
            Some(prev) => if asks_to_apply(json_of(*args)) {
                r matches Rollback::Checkout { commit, command } && commit@ == prev.commit
                    && command@ == "git checkout "@ + prev.commit + " 2>&1"@
            } else {
                r matches Rollback::Say(s) && s@ == "previous generation: "@ + prev.commit
                    + " (at "@ + decimal(prev.at_ms as nat) + ")\ndry-run: `git checkout "@
                    + prev.commit + "`\npass apply=true to execute"@
            },
        },
{
    match ledger.previous() {
        None => Rollback::Say(NO_PREVIOUS.to_owned()),
        Some(prev) => {
            let apply = match json::get(args, "apply") {
                Some(v) => match v.as_bool() {
                    Some(b) => b,
                    None => false,
                },
                None => false,
            };
            if apply {
                let mut command = "git checkout ".to_owned();
                command.push_str(prev.commit.as_str());
                command.push_str(" 2>&1");
                Rollback::Checkout { commit: prev.commit.clone(), command }
            } else {
                let mut s = "previous generation: ".to_owned();
                s.push_str(prev.commit.as_str());
                s.push_str(" (at ");
                s.push_str(number(prev.at_ms).as_str());
                s.push_str(")\ndry-run: `git checkout ");
                s.push_str(prev.commit.as_str());
                s.push_str("`\npass apply=true to execute");
                Rollback::Say(s)
            }
        },
    }
}

/// What the model is told of a rollback that was done, with what it printed
/// as JSON text.
pub fn rollback_report(commit: &str, output: &Value) -> (r: String)
    ensures
        r@ == "rolled back to "@ + commit@ + " (previous generation)\n"@ + json_text(
            json_of(*output),
        ),
{
    let mut s = "rolled back to ".to_owned();
    s.push_str(commit);
    s.push_str(" (previous generation)\n");
    s.push_str(json::text_of(output).as_str());
    s
}

// ── skill ───────────────────────────────────────────────────────────

/// What is asked of the skill library: a key, or all of it.
pub open spec fn skill_key(args: Json) -> Seq<char> {
    trimmed(
        match text_field(args, "key"@) {
            Some(k) => k,
            None => "list"@,
        },
    )
}

/// The library without what stands above its first heading.
pub open spec fn library_body(index: Seq<char>) -> Seq<char> {
    match after_first(index, "## "@) {
        Some(b) => b,
        None => index,
    }
}

/// What is looked for in the lines in upper case: a code in upper case, any
/// other key as it is.
pub open spec fn skill_needle(key: Seq<char>) -> Seq<char> {
    if stands_at(upper_case(key), "SKILL-"@, 0) {
        upper_case(key)
    } else {
        key
    }
}

/// The line is one of those asked for.
pub open spec fn is_skill_line(line: Seq<char>, key: Seq<char>) -> bool {
    occurs(upper_case(line), skill_needle(key)) || occurs(lower_case(line), lower_case(key))
}

/// The lines that are asked for, each without what stands before it and with
/// its end.
pub open spec fn skill_lines(ls: Seq<Seq<char>>, key: Seq<char>) -> Seq<char>
    decreases ls.len(),
{
    if ls.len() == 0 {
        Seq::empty()
    } else if is_skill_line(ls.last(), key) {
        skill_lines(ls.drop_last(), key) + trimmed_start(ls.last()).push('\n')
    } else {
        skill_lines(ls.drop_last(), key)
    }
}

/// What the model is told of a skill.
pub open spec fn skill_text(index: Seq<char>, key: Seq<char>) -> Seq<char> {
    let body = library_body(index);
    if key == "list"@ || key.len() == 0 {
        trimmed_start(body)
    } else {
        let found = skill_lines(text_lines(body), key);
        if found.len() == 0 {
            "skill '"@ + key + "' not found. List all with `skill list`."@
        } else {
            found
        }
    }
}

/// Whether a line, given in upper and in lower case, holds what is looked for.
pub fn line_matches(upper: &str, needle: &str, lower: &str, lower_key: &str) -> (r: bool)
    ensures
        r == (occurs(upper@, needle@) || occurs(lower@, lower_key@)),
{
    contains(upper, needle) || contains(lower, lower_key)
}

/// What the model is told of a skill.
pub fn find_skill(index: &str, args: &Value) -> (r: String)
    ensures
        r@ == skill_text(index@, skill_key(json_of(*args))),
{
    let key = match json::str_field(args, "key") {
        Some(k) => trim(k),
        None => trim("list"),
    };
    let body = match behind_first(index, "## ") {
        Some(b) => b,
        None => index.to_owned(),
    };
    if same(key.as_str(), "list") || key.as_str().is_empty() {
        return trim_start(body.as_str());
    }
    let upper_key = to_upper(key.as_str());
    let needle = if starts_with(upper_key.as_str(), "SKILL-") {
        upper_key
    } else {
        key.clone()
    };
    let lower_key = to_lower(key.as_str());
    let ls = lines(body.as_str());
    let ghost all = texts(ls@);
    let mut found = String::new();
    let mut i: usize = 0;
    assert(all.take(0) =~= Seq::empty());
    while i < ls.len()
        invariant
            i <= ls@.len(),
            all == texts(ls@),
            needle@ == skill_needle(key@),
            lower_key@ == lower_case(key@),
            found@ == skill_lines(all.take(i as int), key@),
        decreases ls@.len() - i,
    {
        let line = ls[i].as_str();
        proof {
            assert(all.take(i + 1).drop_last() =~= all.take(i as int));
            assert(all.take(i + 1).last() == line@);
        }
        let upper = to_upper(line);
        let lower = to_lower(line);
        if line_matches(upper.as_str(), needle.as_str(), lower.as_str(), lower_key.as_str()) {
            let ghost before = found@;
            let shown = trim_start(line);
            found.push_str(shown.as_str());
            found.push('\n');
            assert(found@ =~= before + trimmed_start(line@).push('\n'));
        }
        i = i + 1;
    }
    assert(all.take(i as int) =~= all);
    if found.as_str().is_empty() {
        let mut s = "skill '".to_owned();
        s.push_str(key.as_str());
        s.push_str("' not found. List all with `skill list`.");
        return s;
    }
    found
}

// ── what the model is told of these tools ───────────────────────────

pub const SELF_STATUS_DESCRIPTION: &'static str = "Read the agent's own status snapshot: session identity, generation, status, history length, and (if configured) persistence path. No side effects.";

pub const SELF_STATUS_SCHEMA: &'static str = "{\"type\":\"object\",\"properties\":{},\"required\":[]}";

pub const SELF_PERSIST_DESCRIPTION: &'static str = "Persist the current session to disk now (atomic write). Requires a configured session path (AgentDriverPlugin::with_session_path).";

pub const SELF_PERSIST_SCHEMA: &'static str = "{\"type\":\"object\",\"properties\":{},\"required\":[]}";

pub const SELF_COMPACT_DESCRIPTION: &'static str = "Compact the session memory: summarize early messages and trim the history to the most recent N. Pass a concise summary of what happened before the kept messages. Keeps long sessions from degrading.";

pub const SELF_COMPACT_SCHEMA: &'static str = "{\"type\":\"object\",\"properties\":{\"summary\":{\"type\":\"string\",\"description\":\"Concise summary of the early conversation being trimmed\"},\"keep\":{\"type\":\"integer\",\"description\":\"Number of most recent messages to keep (default 20)\"}},\"required\":[\"summary\"]}";

pub const SELF_TODO_DESCRIPTION: &'static str = "Record or update your todo / next-step: the task to continue after an interruption (restart/crash). It is injected into the system prompt on recovery, so the next instance automatically resumes work instead of asking what to do. Pass an empty string to clear.";

pub const SELF_TODO_SCHEMA: &'static str = "{\"type\":\"object\",\"properties\":{\"todo\":{\"type\":\"string\",\"description\":\"Concise next-step instruction for the next instance\"}},\"required\":[\"todo\"]}";

pub const SELF_PERSONA_DESCRIPTION: &'static str = "Update your own system prompt (persona) at runtime. Pass the full new persona text. Takes effect on the next turn — no restart, no host intervention. Use it when you realize your cognition should evolve (e.g. new discipline, new self-understanding).";

pub const SELF_PERSONA_SCHEMA: &'static str = "{\"type\":\"object\",\"properties\":{\"persona\":{\"type\":\"string\",\"description\":\"The full new system prompt / persona text\"}},\"required\":[\"persona\"]}";

pub const SELF_HOTLOAD_DESCRIPTION: &'static str = "Hot-load a new tool into the running agent. Pass a name, description, and a fixed reply. The tool becomes available to the model in subsequent turns — no rebuild or restart needed. Use it to add small utility tools on the fly.";

pub const SELF_HOTLOAD_SCHEMA: &'static str = "{\"type\":\"object\",\"properties\":{\"name\":{\"type\":\"string\",\"description\":\"New tool name (e.g. my_tool)\"},\"description\":{\"type\":\"string\",\"description\":\"What the tool does\"},\"reply\":{\"type\":\"string\",\"description\":\"Fixed reply the tool returns when called\"}},\"required\":[\"name\",\"reply\"]}";

pub const SELF_BUILD_DESCRIPTION: &'static str = "Build the agent crate (`cargo build -p rutis-agent`) via bash. On success, records the current commit in the version ledger (docs/work/version-ledger.json). Optional `command` overrides the build command (tests use this).";

pub const SELF_BUILD_SCHEMA: &'static str = "{\"type\":\"object\",\"properties\":{\"command\":{\"type\":\"string\",\"description\":\"Optional override command; default `cargo build -p rutis-agent`.\"}},\"required\":[]}";

pub const SELF_CHECK_DESCRIPTION: &'static str = "Run the agent crate tests (`cargo test -p rutis-agent`) via bash. Optional `command` overrides the test command (tests use this).";

pub const SELF_CHECK_SCHEMA: &'static str = "{\"type\":\"object\",\"properties\":{\"command\":{\"type\":\"string\",\"description\":\"Optional override command; default `cargo test -p rutis-agent`.\"}},\"required\":[]}";

pub const SELF_RELOAD_DESCRIPTION: &'static str = "Request a cold restart: append a reload intent to docs/work/handoff.md (so the next instance can resume), then broadcast SelfReloadRequested so the host can exit and restart the process. Returns after the intent is written and the event is emitted.";

pub const SELF_RELOAD_SCHEMA: &'static str = "{\"type\":\"object\",\"properties\":{\"handoff\":{\"type\":\"string\",\"description\":\"Optional handoff file path (default docs/work/handoff.md).\"}},\"required\":[]}";

pub const SELF_ROLLBACK_DESCRIPTION: &'static str = "Roll back to the previous generation using the version ledger (docs/work/version-ledger.json). Default: dry-run, reports the target commit and the git command. Pass apply=true to actually run `git checkout <prev-commit>` (destructive: uncommitted changes are kept). Optional `ledger` overrides the ledger path (tests use this).";

pub const SELF_ROLLBACK_SCHEMA: &'static str = "{\"type\":\"object\",\"properties\":{\"apply\":{\"type\":\"boolean\",\"description\":\"If true, actually run git checkout. If false/absent, dry-run report only.\"},\"ledger\":{\"type\":\"string\",\"description\":\"Optional ledger path; default docs/work/version-ledger.json.\"}},\"required\":[]}";

pub const SKILL_DESCRIPTION: &'static str = "Retrieve a skill from the agent skill library (docs/skills/index.md). Pass a SKILL code (e.g. SKILL-U1) or a name keyword to get the matching skill's doc path + usage; 'list' (or no arg) to list all skills. Lets you reuse known methodologies instead of reinventing them.";

pub const SKILL_SCHEMA: &'static str = "{\"type\":\"object\",\"properties\":{\"key\":{\"type\":\"string\",\"description\":\"SKILL code (e.g. SKILL-U1), a name keyword to grep, or 'list' for all.\"}},\"required\":[]}";

/// A tool whose schema is given as JSON text.
pub open spec fn declared(name: Seq<char>, description: Seq<char>, schema: Seq<char>) -> ToolView {
    ToolView { name, description, parameters: parsed_or_null(schema) }
}

fn declare(name: &str, description: &str, schema: &str) -> (r: ToolDef)
    ensures
        r@ == declared(name@, description@, schema@),
{
    ToolDef::new(name, description, json::parse_or_null(schema))
}

/// The tool that shows the agent what it is.
pub fn self_status() -> (r: ToolDef)
    ensures
        r@ == declared("self_status"@, SELF_STATUS_DESCRIPTION@, SELF_STATUS_SCHEMA@),
{
    declare("self_status", SELF_STATUS_DESCRIPTION, SELF_STATUS_SCHEMA)
}

/// The tool that writes the session down now.
pub fn self_persist() -> (r: ToolDef)
    ensures
        r@ == declared("self_persist"@, SELF_PERSIST_DESCRIPTION@, SELF_PERSIST_SCHEMA@),
{
    declare("self_persist", SELF_PERSIST_DESCRIPTION, SELF_PERSIST_SCHEMA)
}

/// The tool that shortens the session.
pub fn self_compact() -> (r: ToolDef)
    ensures
        r@ == declared("self_compact"@, SELF_COMPACT_DESCRIPTION@, SELF_COMPACT_SCHEMA@),
{
    declare("self_compact", SELF_COMPACT_DESCRIPTION, SELF_COMPACT_SCHEMA)
}

/// The tool that notes what is to be done next.
pub fn self_todo() -> (r: ToolDef)
    ensures
        r@ == declared("self_todo"@, SELF_TODO_DESCRIPTION@, SELF_TODO_SCHEMA@),
{
    declare("self_todo", SELF_TODO_DESCRIPTION, SELF_TODO_SCHEMA)
}

/// The tool that changes the persona.
pub fn self_persona() -> (r: ToolDef)
    ensures
        r@ == declared("self_persona"@, SELF_PERSONA_DESCRIPTION@, SELF_PERSONA_SCHEMA@),
{
    declare("self_persona", SELF_PERSONA_DESCRIPTION, SELF_PERSONA_SCHEMA)
}

/// The tool that registers a tool with a fixed answer.
pub fn self_hotload() -> (r: ToolDef)
    ensures
        r@ == declared("self_hotload"@, SELF_HOTLOAD_DESCRIPTION@, SELF_HOTLOAD_SCHEMA@),
{
    declare("self_hotload", SELF_HOTLOAD_DESCRIPTION, SELF_HOTLOAD_SCHEMA)
}

/// The tool that builds the agent.
pub fn self_build() -> (r: ToolDef)
    ensures
        r@ == declared("self_build"@, SELF_BUILD_DESCRIPTION@, SELF_BUILD_SCHEMA@),
{
    declare("self_build", SELF_BUILD_DESCRIPTION, SELF_BUILD_SCHEMA)
}

/// The tool that runs the tests of the agent.
pub fn self_check() -> (r: ToolDef)
    ensures
        r@ == declared("self_check"@, SELF_CHECK_DESCRIPTION@, SELF_CHECK_SCHEMA@),
{
    declare("self_check", SELF_CHECK_DESCRIPTION, SELF_CHECK_SCHEMA)
}

/// The tool that asks the host for a restart.
pub fn self_reload() -> (r: ToolDef)
    ensures
        r@ == declared("self_reload"@, SELF_RELOAD_DESCRIPTION@, SELF_RELOAD_SCHEMA@),
{
    declare("self_reload", SELF_RELOAD_DESCRIPTION, SELF_RELOAD_SCHEMA)
}

/// The tool that goes back to the version before the latest.
pub fn self_rollback_tool() -> (r: ToolDef)
    ensures
        r@ == declared("self_rollback"@, SELF_ROLLBACK_DESCRIPTION@, SELF_ROLLBACK_SCHEMA@),
{
    declare("self_rollback", SELF_ROLLBACK_DESCRIPTION, SELF_ROLLBACK_SCHEMA)
}

/// The tool that looks into the skill library.
pub fn skill() -> (r: ToolDef)
    ensures
        r@ == declared("skill"@, SKILL_DESCRIPTION@, SKILL_SCHEMA@),
{
    declare("skill", SKILL_DESCRIPTION, SKILL_SCHEMA)
}

/// All tools by which an agent acts on itself.
pub fn self_tools() -> (r: Vec<ToolDef>)
    ensures
        tool_views(r@) == seq![
            declared("self_status"@, SELF_STATUS_DESCRIPTION@, SELF_STATUS_SCHEMA@),
            declared("self_persist"@, SELF_PERSIST_DESCRIPTION@, SELF_PERSIST_SCHEMA@),
            declared("self_compact"@, SELF_COMPACT_DESCRIPTION@, SELF_COMPACT_SCHEMA@),
            declared("self_todo"@, SELF_TODO_DESCRIPTION@, SELF_TODO_SCHEMA@),
            declared("self_persona"@, SELF_PERSONA_DESCRIPTION@, SELF_PERSONA_SCHEMA@),
            declared("self_hotload"@, SELF_HOTLOAD_DESCRIPTION@, SELF_HOTLOAD_SCHEMA@),
            declared("hotplug_load"@, HOTPLUG_DESCRIPTION@, HOTPLUG_SCHEMA@),
            declared("self_build"@, SELF_BUILD_DESCRIPTION@, SELF_BUILD_SCHEMA@),
            declared("self_check"@, SELF_CHECK_DESCRIPTION@, SELF_CHECK_SCHEMA@),
            declared("self_reload"@, SELF_RELOAD_DESCRIPTION@, SELF_RELOAD_SCHEMA@),
            declared("self_rollback"@, SELF_ROLLBACK_DESCRIPTION@, SELF_ROLLBACK_SCHEMA@),
            declared("skill"@, SKILL_DESCRIPTION@, SKILL_SCHEMA@),
        ],
{
    let mut v: Vec<ToolDef> = Vec::new();
    v.push(self_status());
    v.push(self_persist());
    v.push(self_compact());
    v.push(self_todo());
    v.push(self_persona());
    v.push(self_hotload());
    v.push(hotplug_load());
    v.push(self_build());
    v.push(self_check());
    v.push(self_reload());
    v.push(self_rollback_tool());
    v.push(skill());
    assert(tool_views(v@) =~= seq![
        v@[0]@, v@[1]@, v@[2]@, v@[3]@, v@[4]@, v@[5]@,
        v@[6]@, v@[7]@, v@[8]@, v@[9]@, v@[10]@, v@[11]@,
    ]);
    v
}

// ── laws ────────────────────────────────────────────────────────────

/// With fewer than two versions there is none to go back to; with more, it is
/// never the latest that a rollback goes to, but the one recorded before it.
pub proof fn law_rollback_needs_two_versions(entries: Seq<EntryView>)
    ensures
        entries.len() < 2 ==> previous_version(entries) is None,
        entries.len() >= 2 ==> previous_version(entries) == Some(entries.drop_last().last()),
{
}

/// A build is put on record just where its output tells of an end and of no
/// error, and its commit is not the latest on record.
pub proof fn law_build_is_recorded(
    entries: Seq<EntryView>,
    output: Seq<char>,
    commit: Seq<char>,
)
    ensures
        occurs(output, "error"@) ==> !is_recorded(entries, output, commit),
        !occurs(output, "Finished"@) ==> !is_recorded(entries, output, commit),
        !occurs(output, "error"@) && occurs(output, "Finished"@) && (entries.len() == 0
            || entries.last().commit != commit) ==> is_recorded(entries, output, commit),
{
}

/// The commit is what git printed without the white space around it, and there
/// is always something to call it.
pub proof fn law_commit_is_what_was_printed(printed: Seq<char>)
    ensures
        trimmed(printed).len() > 0 ==> commit_in(Some(printed)) == trimmed(printed),
        trimmed(printed).len() == 0 ==> commit_in(Some(printed)) == "(no git)"@,
        commit_in(None) == "(no git)"@,
        commit_in(Some(printed)).len() > 0,
{
    reveal_strlit("(no git)");
}

/// Each number that stands before the unit is counted, and nothing else.
pub proof fn law_tally_counts_numbers(words: Seq<Seq<char>>, n: u64, word: Seq<char>, unit: Seq<char>)
    ensures
        tally(words.push(decimal(n as nat)).push(unit), unit) == tally(
            words.push(decimal(n as nat)),
            unit,
        ) + n,
        word != unit ==> tally(words.push(word), unit) == tally(words, unit),
        number_in(word) is None ==> tally(words.push(word).push(unit), unit) == tally(
            words.push(word),
            unit,
        ),
        tally(seq![word], unit) == 0,
{
    law_number_is_read_back(n, Seq::empty(), 0);
    let counted = words.push(decimal(n as nat)).push(unit);
    assert(counted.drop_last() =~= words.push(decimal(n as nat)));
    assert(words.push(word).drop_last() =~= words);
    assert(words.push(word).push(unit).drop_last() =~= words.push(word));
    if words.len() == 0 {
        assert(words.push(word).len() < 2);
    }
}

/// The tests of two parts of an output add up, and a line that reports no test
/// result counts nothing.
pub proof fn law_tally_adds_up(a: Seq<Seq<char>>, b: Seq<Seq<char>>, unit: Seq<char>)
    ensures
        tally_lines(a + b, unit) == tally_lines(a, unit) + tally_lines(b, unit),
        reports_tests(a + b) == (reports_tests(a) || reports_tests(b)),
        !reports_tests(a) ==> tally_lines(a, unit) == 0,
        a.len() == 1 && occurs(a[0], "test result:"@) ==> reports_tests(a) && tally_lines(a, unit)
            == tally(pieces(a[0], ' '), unit),
    decreases a.len() + b.len(),
{
    if b.len() > 0 {
        assert((a + b).drop_last() =~= a + b.drop_last());
        assert((a + b).last() == b.last());
        law_tally_adds_up(a, b.drop_last(), unit);
    } else {
        assert(a + b =~= a);
        if a.len() > 0 {
            law_tally_adds_up(a.drop_last(), b, unit);
            assert(a.drop_last() + b =~= a.drop_last());
            if !reports_tests(a) {
                assert(!occurs(a[a.len() - 1], "test result:"@));
                assert forall|i: int| 0 <= i < a.len() - 1 implies !occurs(
                    #[trigger] a.drop_last()[i],
                    "test result:"@,
                ) by {
                    assert(!occurs(a[i], "test result:"@));
                }
            }
        }
    }
    if a.len() == 1 && occurs(a[0], "test result:"@) {
        assert(a.drop_last() =~= Seq::empty());
        assert(tally_lines(Seq::empty(), unit) == 0);
    }
    assert(reports_tests(a + b) == (reports_tests(a) || reports_tests(b))) by {
        if reports_tests(a) {
            let i = choose|i: int| 0 <= i < a.len() && occurs(#[trigger] a[i], "test result:"@);
            assert((a + b)[i] == a[i]);
        }
        if reports_tests(b) {
            let i = choose|i: int| 0 <= i < b.len() && occurs(#[trigger] b[i], "test result:"@);
            assert((a + b)[a.len() + i] == b[i]);
        }
        if reports_tests(a + b) {
            let i = choose|i: int|
                0 <= i < (a + b).len() && occurs(#[trigger] (a + b)[i], "test result:"@);
            if i < a.len() {
                assert((a + b)[i] == a[i]);
            } else {
                assert((a + b)[i] == b[i - a.len()]);
            }
        }
    }
}

/// A check shows its whole output first. Where the output reports tests, it is
/// green behind it if none failed and red if one did; where it reports none,
/// nothing is added.
pub proof fn law_check_is_green_or_red(output: Seq<char>)
    ensures
        stands_at(check_text(output), output, 0),
        !reports_tests(text_lines(output)) ==> check_text(output) == output,
        reports_tests(text_lines(output)) && tally_lines(text_lines(output), "failed;"@) == 0
            ==> stands_at(check_text(output), "\n[health] GREEN: "@, output.len() as int),
        reports_tests(text_lines(output)) && tally_lines(text_lines(output), "failed;"@) > 0
            ==> stands_at(check_text(output), "\n[health] RED: "@, output.len() as int),
        reports_tests(text_lines(output)) && tally_lines(text_lines(output), "passed;"@) <= u64::MAX
            ==> occurs(
            check_text(output),
            ": "@ + decimal(tally_lines(text_lines(output), "passed;"@)) + " passed / "@,
        ),
        reports_tests(text_lines(output)) && tally_lines(text_lines(output), "failed;"@) <= u64::MAX
            ==> occurs(
            check_text(output),
            " passed / "@ + decimal(tally_lines(text_lines(output), "failed;"@)) + " failed"@,
        ),
{
    let ls = text_lines(output);
    let p = tally_lines(ls, "passed;"@);
    let f = tally_lines(ls, "failed;"@);
    assert(output.subrange(0, output.len() as int) =~= output);
    if reports_tests(ls) {
        let dp = decimal(kept_count(p) as nat);
        let df = decimal(kept_count(f) as nat);
        if f == 0 {
            reveal_strlit("\n[health] ");
            reveal_strlit("GREEN");
            reveal_strlit(": ");
            reveal_strlit("\n[health] GREEN: ");
            assert("\n[health] "@ + "GREEN"@ + ": "@ =~= "\n[health] GREEN: "@);
            lemma_check_shown(output, "GREEN"@, dp, df);
        } else {
            reveal_strlit("\n[health] ");
            reveal_strlit("RED");
            reveal_strlit(": ");
            reveal_strlit("\n[health] RED: ");
            assert("\n[health] "@ + "RED"@ + ": "@ =~= "\n[health] RED: "@);
            lemma_check_shown(output, "RED"@, dp, df);
        }
    }
}

#[verifier::rlimit(40)]
proof fn lemma_check_shown(output: Seq<char>, word: Seq<char>, dp: Seq<char>, df: Seq<char>)
    ensures
        ({
            let all = output + "\n[health] "@ + word + ": "@ + dp + " passed / "@ + df
                + " failed"@;
            &&& stands_at(all, output, 0)
            &&& stands_at(all, "\n[health] "@ + word + ": "@, output.len() as int)
            &&& occurs(all, ": "@ + dp + " passed / "@)
            &&& occurs(all, " passed / "@ + df + " failed"@)
        }),
{
    let mark = "\n[health] "@;
    let colon = ": "@;
    let mid = " passed / "@;
    let end = " failed"@;
    let o1 = output + mark + word;
    let o2 = o1 + colon + dp;
    let all = o2 + mid + df + end;
    assert(stands_at(all, output, 0) && stands_at(all, mark + word + colon, output.len() as int)) by {
        let rest = dp + mid + df + end;
        lemma_regrouped(output, mark, word);
        lemma_regrouped(output, mark + word, colon);
        let front = output + (mark + word + colon);
        lemma_regrouped(front, dp + mid + df, end);
        lemma_regrouped(front, dp + mid, df);
        lemma_regrouped(front, dp, mid);
        lemma_stands_in(output, mark + word + colon, rest);
        lemma_stands_in(Seq::empty(), output, (mark + word + colon) + rest);
        lemma_regrouped(output, mark + word + colon, rest);
        assert(Seq::<char>::empty() + output =~= output);
    }
    assert(occurs(all, colon + dp + mid)) by {
        lemma_regrouped(o1, colon + dp, mid);
        lemma_regrouped(o1, colon, dp);
        lemma_regrouped(o1 + (colon + dp + mid), df, end);
        lemma_stands_in(o1, colon + dp + mid, df + end);
    }
    assert(occurs(all, mid + df + end)) by {
        lemma_regrouped(o2, mid + df, end);
        lemma_regrouped(o2, mid, df);
        lemma_stands_in(o2, mid + df + end, Seq::empty());
        assert(all + Seq::<char>::empty() =~= all);
    }
}

/// A count is exact as long as it can be held.
pub proof fn law_count_is_kept(n: nat)
    ensures
        n <= u64::MAX ==> kept_count(n) == n,
        n > u64::MAX ==> kept_count(n) == u64::MAX,
{
}

/// A command of the agent is the one asked for, or the default where none is,
/// with its errors led into its output.
pub proof fn law_own_command(args: Json, default: Seq<char>)
    ensures
        match text_field(args, "command"@) {
            Some(c) => self_command(args, default) == c + " 2>&1"@,
            None => self_command(args, default) == default + " 2>&1"@,
        },
{
}

/// A compaction that is not told how many messages to keep keeps twenty; one
/// that is keeps that many.
pub proof fn law_twenty_messages_are_kept(args: Json, v: Json, n: u64)
    ensures
        field(args, "keep"@) is None ==> kept_messages(args) == 20,
        field(args, "keep"@) == Some(v) && u64_in(v) is None ==> kept_messages(args) == 20,
        field(args, "keep"@) == Some(v) && u64_in(v) == Some(n) && n <= usize::MAX
            ==> kept_messages(args) == n,
{
}

/// Only an outright yes has a rollback done.
pub proof fn law_rollback_is_shown_first(args: Json, v: Json)
    ensures
        field(args, "apply"@) is None ==> !asks_to_apply(args),
        field(args, "apply"@) == Some(v) && bool_in(v) is None ==> !asks_to_apply(args),
        field(args, "apply"@) == Some(v) && bool_in(v) == Some(false) ==> !asks_to_apply(args),
        field(args, "apply"@) == Some(v) && bool_in(v) == Some(true) ==> asks_to_apply(args),
{
}

/// What the agent is told of itself names its identity, its generation, its
/// status, how many messages it holds and where they are written.
pub proof fn law_status_tells_all(id: SessionId, status: AgentStatus, msgs: nat, path: Seq<char>)
    ensures
        ({
            let t = status_text(id, status, msgs, Some(path));
            &&& occurs(t, "\n  identity: "@ + decimal(id.spec_identity() as nat))
            &&& occurs(t, "\n  generation: "@ + decimal(id.spec_generation() as nat))
            &&& status is Idle ==> occurs(t, "\n  status: Idle"@)
            &&& status is Running ==> occurs(t, "\n  status: Running"@)
            &&& occurs(t, "\n  session messages: "@ + decimal(msgs))
            &&& occurs(t, "\n  persist path: "@ + path)
            &&& occurs(
                status_text(id, status, msgs, None),
                "\n  persist path: not configured"@,
            )
        }),
{
    let d1 = decimal(id.spec_identity() as nat);
    let d2 = decimal(id.spec_generation() as nat);
    let d3 = decimal(msgs);
    let word = match status {
        AgentStatus::Idle => "Idle"@,
        AgentStatus::Running => "Running"@,
    };
    let (l1, l2, l3, l4, l5) = (
        "\n  identity: "@,
        "\n  generation: "@,
        "\n  status: "@,
        "\n  session messages: "@,
        "\n  persist path: "@,
    );
    assert("self_status:\n  identity: "@ == "self_status:"@ + l1) by {
        reveal_strlit("self_status:");
        reveal_strlit("\n  identity: ");
        reveal_strlit("self_status:\n  identity: ");
        assert("self_status:\n  identity: "@ =~= "self_status:"@ + l1);
    }
    assert(status is Idle ==> l3 + word == "\n  status: Idle"@) by {
        reveal_strlit("\n  status: ");
        reveal_strlit("Idle");
        reveal_strlit("\n  status: Idle");
        assert(l3 + "Idle"@ =~= "\n  status: Idle"@);
    }
    assert(status is Running ==> l3 + word == "\n  status: Running"@) by {
        reveal_strlit("\n  status: ");
        reveal_strlit("Running");
        reveal_strlit("\n  status: Running");
        assert(l3 + "Running"@ =~= "\n  status: Running"@);
    }
    assert(l5 + "not configured"@ == "\n  persist path: not configured"@) by {
        reveal_strlit("\n  persist path: ");
        reveal_strlit("not configured");
        reveal_strlit("\n  persist path: not configured");
        assert(l5 + "not configured"@ =~= "\n  persist path: not configured"@);
    }
    let s0 = "self_status:"@;
    let s1 = s0 + l1 + d1;
    let s2 = s1 + l2 + d2;
    let s3 = s2 + l3 + word;
    let s4 = s3 + l4 + d3;
    lemma_found_behind(s0, l1, d1);
    lemma_still_found(s1, l2, d2, l3, word, l1 + d1);
    lemma_still_found(s3, l4, d3, l5, path, l1 + d1);
    lemma_found_behind(s1, l2, d2);
    lemma_still_found(s2, l3, word, l4, d3, l2 + d2);
    lemma_still_found(s4, l5, path, l5, path, l2 + d2);
    lemma_found_behind(s2, l3, word);
    lemma_still_found(s3, l4, d3, l5, path, l3 + word);
    lemma_found_behind(s3, l4, d3);
    lemma_still_found(s4, l5, path, l5, path, l4 + d3);
    lemma_found_behind(s4, l5, path);
    lemma_found_behind(s4, l5, "not configured"@);
}

/// A session is written only where there is a path for it, and what is told of
/// it names the session and the path.
pub proof fn law_persist_names_the_session(id: SessionId, msgs: nat, path: Seq<char>)
    ensures
        persist_text(id, msgs, None) is Err,
        persist_text(id, msgs, Some(path)) is Ok,
        occurs(
            persist_text(id, msgs, Some(path))->Ok_0,
            "identity="@ + decimal(id.spec_identity() as nat),
        ),
        occurs(
            persist_text(id, msgs, Some(path))->Ok_0,
            " generation="@ + decimal(id.spec_generation() as nat),
        ),
        occurs(persist_text(id, msgs, Some(path))->Ok_0, " messages="@ + decimal(msgs)),
        occurs(persist_text(id, msgs, Some(path))->Ok_0, " -> "@ + path),
{
    let d1 = decimal(id.spec_identity() as nat);
    let d2 = decimal(id.spec_generation() as nat);
    let d3 = decimal(msgs);
    let (l1, l2, l3, l4) = ("identity="@, " generation="@, " messages="@, " -> "@);
    assert("persisted session identity="@ == "persisted session "@ + l1) by {
        reveal_strlit("persisted session ");
        reveal_strlit("identity=");
        reveal_strlit("persisted session identity=");
        assert("persisted session identity="@ =~= "persisted session "@ + l1);
    }
    let s0 = "persisted session "@;
    let s1 = s0 + l1 + d1;
    let s2 = s1 + l2 + d2;
    let s3 = s2 + l3 + d3;
    lemma_found_behind(s0, l1, d1);
    lemma_still_found(s1, l2, d2, l3, d3, l1 + d1);
    lemma_still_found(s3, l4, path, l4, path, l1 + d1);
    lemma_found_behind(s1, l2, d2);
    lemma_still_found(s2, l3, d3, l4, path, l2 + d2);
    lemma_found_behind(s2, l3, d3);
    lemma_still_found(s3, l4, path, l4, path, l3 + d3);
    lemma_found_behind(s3, l4, path);
}

/// What is left for the next life names the moment it was written.
#[verifier::rlimit(40)]
pub proof fn law_intent_names_its_moment(at_ms: u64)
    ensures
        occurs(intent_text(at_ms), "## reload intent @ "@ + decimal(at_ms as nat) + "\n"@),
{
    let t = "## reload intent @ "@ + decimal(at_ms as nat) + "\n"@;
    let rest = "Self reload requested via self_reload tool.\nNext instance: read docs/work/handoff.md, resume from the latest task.\n"@;
    reveal_strlit("\n---\n");
    reveal_strlit("## reload intent @ ");
    reveal_strlit("\n---\n## reload intent @ ");
    assert("\n---\n## reload intent @ "@ =~= "\n---\n"@ + "## reload intent @ "@);
    reveal_strlit("\n");
    reveal_strlit(
        "Self reload requested via self_reload tool.\nNext instance: read docs/work/handoff.md, resume from the latest task.\n",
    );
    reveal_strlit(
        "\nSelf reload requested via self_reload tool.\nNext instance: read docs/work/handoff.md, resume from the latest task.\n",
    );
    assert("\nSelf reload requested via self_reload tool.\nNext instance: read docs/work/handoff.md, resume from the latest task.\n"@
        =~= "\n"@ + rest);
    lemma_stands_in("\n---\n"@, t, rest);
    assert("\n---\n"@ + t + rest =~= intent_text(at_ms));
}

/// Of two parts of the library the lines asked for are shown one after the
/// other; a line that holds the key in any case is shown whole but for what
/// stands before it, and one that holds it in none is not.
pub proof fn law_skill_lines_are_found(
    a: Seq<Seq<char>>,
    b: Seq<Seq<char>>,
    line: Seq<char>,
    key: Seq<char>,
)
    ensures
        skill_lines(a + b, key) == skill_lines(a, key) + skill_lines(b, key),
        occurs(lower_case(line), lower_case(key)) ==> skill_lines(seq![line], key)
            == trimmed_start(line) + seq!['\n'],
        occurs(upper_case(line), key) && !stands_at(upper_case(key), "SKILL-"@, 0) ==> skill_lines(
            seq![line],
            key,
        ) == trimmed_start(line) + seq!['\n'],
        occurs(upper_case(line), upper_case(key)) && stands_at(upper_case(key), "SKILL-"@, 0)
            ==> skill_lines(seq![line], key) == trimmed_start(line) + seq!['\n'],
        !occurs(lower_case(line), lower_case(key)) && !occurs(upper_case(line), key) && !occurs(
            upper_case(line),
            upper_case(key),
        ) ==> skill_lines(seq![line], key) == Seq::<char>::empty(),
    decreases b.len(),
{
    if b.len() > 0 {
        assert((a + b).drop_last() =~= a + b.drop_last());
        law_skill_lines_are_found(a, b.drop_last(), line, key);
        assert(skill_lines(a + b, key) =~= skill_lines(a, key) + skill_lines(b, key));
    } else {
        assert(a + b =~= a);
        assert(skill_lines(a + b, key) =~= skill_lines(a, key) + skill_lines(b, key));
    }
    assert(seq![line].drop_last() =~= Seq::empty());
    assert(skill_lines(seq![line].drop_last(), key) =~= Seq::empty());
    assert(Seq::<char>::empty() + trimmed_start(line).push('\n') =~= trimmed_start(line) + seq!['\n']);
}

/// The whole library is given for no key, without what stands above its first
/// heading; a key that is nowhere is answered by a text that names it.
#[verifier::rlimit(40)]
pub proof fn law_skill_is_answered(index: Seq<char>, key: Seq<char>)
    ensures
        skill_text(index, Seq::empty()) == trimmed_start(library_body(index)),
        skill_text(index, "list"@) == trimmed_start(library_body(index)),
        !occurs(index, "## "@) ==> library_body(index) == index,
        occurs(index, "## "@) ==> library_body(index).len() + 3 <= index.len() && index.skip(
            index.len() - library_body(index).len(),
        ) == library_body(index) && stands_at(
            index,
            "## "@,
            index.len() - library_body(index).len() - 3,
        ),
        key.len() > 0 && key != "list"@ ==> {
            let found = skill_lines(text_lines(library_body(index)), key);
            if found.len() > 0 {
                skill_text(index, key) == found
            } else {
                occurs(skill_text(index, key), "'"@ + key + "' not found"@)
            }
        },
{
    law_first_place(index, "## "@, 0);
    reveal_strlit("## ");
    if occurs(index, "## "@) {
        let at = choose|at: int| stands_at(index, "## "@, at);
        assert(first_place(index, "## "@, 0) is Some);
        let b = library_body(index);
        assert(index.skip(index.len() - b.len()) =~= b);
    }
    reveal_strlit("skill '");
    reveal_strlit("skill ");
    reveal_strlit("'");
    assert("skill '"@ =~= "skill "@ + "'"@);
    reveal_strlit("' not found");
    reveal_strlit(". List all with `skill list`.");
    reveal_strlit("' not found. List all with `skill list`.");
    assert("' not found. List all with `skill list`."@ =~= "' not found"@
        + ". List all with `skill list`."@);
    let t = "'"@ + key + "' not found"@;
    lemma_stands_in("skill "@, t, ". List all with `skill list`."@);
    assert("skill "@ + t + ". List all with `skill list`."@ =~= "skill '"@ + key
        + "' not found. List all with `skill list`."@);
}

/// What is asked of the library is the key without the white space around it,
/// and the list where there is none.
pub proof fn law_skill_key(args: Json, key: Seq<char>)
    ensures
        text_field(args, "key"@) == Some(key) ==> skill_key(args) == trimmed(key),
        text_field(args, "key"@) is None ==> skill_key(args) == trimmed("list"@),
{
}

/// A file of the repository is named from the directory of the crate.
pub proof fn law_repo_path(crate_dir: Seq<char>, file: Seq<char>)
    ensures
        repo_path(crate_dir, file) == crate_dir + "/../../"@ + file,
{
}

} // verus!
