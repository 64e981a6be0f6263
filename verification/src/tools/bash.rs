//! The `bash` tool: a command in a fresh shell.

use serde_json::Value;
use vstd::prelude::*;

use crate::json;
use crate::json::{field, json_of, parsed_or_null, text_field, u64_in, Json};
use crate::message::text_opt;
use crate::text::{
    count, decimal, ends_with_char, join, joined, lemma_stands_in, lossy, lossy_text, number, occurs,
    signed, signed_number, stands_at,
    tail, take_tail, texts,
};
use crate::tools::{ToolDef, ToolView};

verus! {

/// How many characters of an output stay.
pub const MAX_OUTPUT_CHARS: usize = 10_000;

/// The time that a command gets by default.
pub const DEFAULT_TIMEOUT_MS: u64 = 120_000;

/// The time that a command gets at most.
pub const MAX_TIMEOUT_MS: u64 = 600_000;

/// What the model is told of the tool.
pub const BASH_DESCRIPTION: &'static str = "Execute a bash command (`bash -c`) and return its stdout/stderr. Each call runs in a fresh shell: no state (cwd, variables, functions) persists between calls — pass `workdir` instead of using `cd`. Non-zero exits are reported as `[exit code: N]`. Long output is truncated to its tail.";

/// The schema of the tool's arguments, as JSON text.
pub const BASH_SCHEMA: &'static str = "{\"type\":\"object\",\"properties\":{\"command\":{\"type\":\"string\",\"description\":\"The bash command to execute.\"},\"description\":{\"type\":\"string\",\"description\":\"Clear, concise description of what this command does in active voice, 5-10 words (shown in the UI).\"},\"workdir\":{\"type\":\"string\",\"description\":\"Working directory for this command. Defaults to the process working directory; state does not persist between calls, so pass `workdir` instead of using `cd`.\"},\"timeout_ms\":{\"type\":\"number\",\"description\":\"Timeout in milliseconds. The executor applies its configured default and cap, and kills the command on expiry.\"}},\"required\":[\"command\",\"description\"]}";

/// The `bash` tool.
pub fn bash_tool() -> (r: ToolDef)
    ensures
        r@ == (ToolView {
            name: "bash"@,
            description: BASH_DESCRIPTION@,
            parameters: parsed_or_null(BASH_SCHEMA@),
        }),
{
    ToolDef::new("bash", BASH_DESCRIPTION, json::parse_or_null(BASH_SCHEMA))
}

/// A command that is to be run.
#[derive(Debug)]
pub struct BashRun {
    pub command: String,
    pub timeout_ms: u64,
    pub workdir: Option<String>,
}

/// The time that a command gets: what it asks for, or the default, and never
/// more than the most.
pub open spec fn granted_ms(args: Json) -> u64 {
    let asked = match field(args, "timeout_ms"@) {
        Some(v) => match u64_in(v) {
            Some(t) => t,
            None => DEFAULT_TIMEOUT_MS,
        },
        None => DEFAULT_TIMEOUT_MS,
    };
    if asked > MAX_TIMEOUT_MS {
        MAX_TIMEOUT_MS
    } else {
        asked
    }
}

/// What is to be run for these arguments.
pub fn plan_bash(args: &Value) -> (r: Result<BashRun, String>)
    ensures
        match r {
            Ok(run) => {
                &&& text_field(json_of(*args), "command"@) == Some(run.command@)
                &&& run.timeout_ms == granted_ms(json_of(*args))
                &&& text_opt(run.workdir) == text_field(json_of(*args), "workdir"@)
            },
            Err(e) => {
                &&& text_field(json_of(*args), "command"@) is None
                &&& e@ == "missing required parameter `command`"@
            },
        },
{
    let command = match json::str_field(args, "command") {
        Some(s) => s.to_owned(),
        None => {
            return Err("missing required parameter `command`".to_owned());
        },
    };
    let asked: u64 = match json::get(args, "timeout_ms") {
        Some(v) => match v.as_u64() {
            Some(t) => t,
            None => DEFAULT_TIMEOUT_MS,
        },
        None => DEFAULT_TIMEOUT_MS,
    };
    let timeout_ms: u64 = if asked > MAX_TIMEOUT_MS {
        MAX_TIMEOUT_MS
    } else {
        asked
    };
    let workdir = match json::str_field(args, "workdir") {
        Some(s) => Some(s.to_owned()),
        None => None,
    };
    Ok(BashRun { command, timeout_ms, workdir })
}

/// What killed a command that has no code.
#[derive(Debug, Clone, Copy, PartialEq, Eq, Structural)]
pub enum Killer {
    /// This signal.
    Signal(i32),
    /// A signal that is not known.
    UnknownSignal,
    /// Something on a system that has no signals.
    NoSignal,
}

/// How a command came to its end.
#[derive(Debug)]
pub enum BashEnd {
    /// It could not be started.
    NotStarted(String),
    /// It took longer than it may and was killed.
    TimedOut,
    /// It could not be waited for.
    Lost(String),
    /// It ended: with this code, or, where it has no code, killed by this.
    Exited { stdout: Vec<u8>, stderr: Vec<u8>, code: Option<i32>, killer: Killer },
}

/// What is marked of an end: a code that is not zero, or that it was killed.
pub open spec fn end_marks(code: Option<i32>, killer: Killer) -> Seq<Seq<char>> {
    match code {
        Some(c) => if c != 0 {
            seq!["[exit code: "@ + signed(c as int) + "]"@]
        } else {
            Seq::empty()
        },
        None => seq![
            match killer {
                Killer::Signal(n) => "[killed by signal: "@ + signed(n as int) + "]"@,
                Killer::UnknownSignal => "[killed by signal: ?]"@,
                Killer::NoSignal => "[killed]"@,
            },
        ],
    }
}

/// What is marked of an end.
pub fn status_markers(code: Option<i32>, killer: Killer) -> (r: Vec<String>)
    ensures
        texts(r@) == end_marks(code, killer),
{
    let mut out: Vec<String> = Vec::new();
    match code {
        Some(c) => {
            if c != 0 {
                let mut s = "[exit code: ".to_owned();
                s.push_str(signed_number(c as i64).as_str());
                s.push_str("]");
                out.push(s);
            }
        },
        None => {
            out.push(
                match killer {
                    Killer::Signal(n) => {
                        let mut s = "[killed by signal: ".to_owned();
                        s.push_str(signed_number(n as i64).as_str());
                        s.push_str("]");
                        s
                    },
                    Killer::UnknownSignal => "[killed by signal: ?]".to_owned(),
                    Killer::NoSignal => "[killed]".to_owned(),
                },
            );
        },
    }
    assert(texts(out@) =~= end_marks(code, killer));
    out
}

/// An output as it is shown: a long one is cut to its tail.
pub open spec fn shown_tail(s: Seq<char>) -> Seq<char> {
    if s.len() <= MAX_OUTPUT_CHARS {
        s
    } else {
        "[output truncated]\n"@ + tail(s, MAX_OUTPUT_CHARS as int)
    }
}

/// An output as it is shown: a long one is cut to its tail.
pub fn truncate_tail(s: &str) -> (r: String)
    ensures
        r@ == shown_tail(s@),
{
    if count(s) <= MAX_OUTPUT_CHARS {
        return s.to_owned();
    }
    let mut out = "[output truncated]\n".to_owned();
    out.push_str(take_tail(s, MAX_OUTPUT_CHARS).as_str());
    out
}

/// A text that what follows begins a line behind.
pub open spec fn with_line_end(s: Seq<char>) -> Seq<char> {
    if s.len() > 0 && s.last() == '\n' {
        s
    } else {
        s.push('\n')
    }
}

/// The two outputs as one text: the second, where there is one, under a
/// heading of its own; a note where there is none at all.
pub open spec fn body_text(stdout: Seq<char>, stderr: Seq<char>) -> Seq<char> {
    let out = shown_tail(stdout);
    let err = shown_tail(stderr);
    let body = if err.len() == 0 {
        out
    } else if out.len() == 0 {
        "[stderr]\n"@ + err
    } else {
        with_line_end(out) + "[stderr]\n"@ + err
    };
    if body.len() == 0 {
        "(no output)"@
    } else {
        body
    }
}

/// What the model is shown of a run: the outputs, then the marks, each on a
/// line of its own.
pub open spec fn run_text(stdout: Seq<char>, stderr: Seq<char>, marks: Seq<Seq<char>>) -> Seq<
    char,
> {
    if marks.len() == 0 {
        body_text(stdout, stderr)
    } else {
        with_line_end(body_text(stdout, stderr)) + joined(marks, "\n"@)
    }
}

/// What the model is shown of a run.
pub fn render(stdout: &str, stderr: &str, markers: &Vec<String>) -> (r: String)
    ensures
        r@ == run_text(stdout@, stderr@, texts(markers@)),
{
    let mut body = truncate_tail(stdout);
    let err = truncate_tail(stderr);
    if !err.as_str().is_empty() {
        if !body.as_str().is_empty() && !ends_with_char(body.as_str(), '\n') {
            body.push('\n');
        }
        let ghost start = body@;
        body.push_str("[stderr]\n");
        body.push_str(err.as_str());
        proof {
            reveal_strlit("[stderr]\n");
            assert(body@.len() > 0);
            if start.len() == 0 {
                assert(body@ =~= "[stderr]\n"@ + err@);
            }
        }
    }
    if body.as_str().is_empty() {
        body = "(no output)".to_owned();
    }
    assert(body@ =~= body_text(stdout@, stderr@));
    if markers.len() == 0 {
        return body;
    }
    if !ends_with_char(body.as_str(), '\n') {
        body.push('\n');
    }
    body.push_str(join(markers, "\n").as_str());
    body
}

/// What a run gives the model: the text of it, or an error where the command
/// could not be run.
pub open spec fn run_result(timeout_ms: u64, end: BashEnd) -> Result<Seq<char>, Seq<char>> {
    match end {
        BashEnd::NotStarted(e) => Err("failed to spawn bash: "@ + e@),
        BashEnd::Lost(e) => Err("failed to run command: "@ + e@),
        BashEnd::TimedOut => Ok(
            run_text(
                Seq::empty(),
                Seq::empty(),
                seq!["[timed out after "@ + decimal(timeout_ms as nat) + "ms]"@],
            ),
        ),
        BashEnd::Exited { stdout, stderr, code, killer } => Ok(
            run_text(lossy_text(stdout@), lossy_text(stderr@), end_marks(code, killer)),
        ),
    }
}

/// What a run gives the model.
pub fn run_bash(timeout_ms: u64, end: BashEnd) -> (r: Result<String, String>)
    ensures
        match r {
            Ok(s) => run_result(timeout_ms, end) == Ok::<Seq<char>, Seq<char>>(s@),
            Err(e) => run_result(timeout_ms, end) == Err::<Seq<char>, Seq<char>>(e@),
        },
{
    match end {
        BashEnd::NotStarted(e) => {
            let mut s = "failed to spawn bash: ".to_owned();
            s.push_str(e.as_str());
            Err(s)
        },
        BashEnd::Lost(e) => {
            let mut s = "failed to run command: ".to_owned();
            s.push_str(e.as_str());
            Err(s)
        },
        BashEnd::TimedOut => {
            let mut mark = "[timed out after ".to_owned();
            mark.push_str(number(timeout_ms).as_str());
            mark.push_str("ms]");
            let mut marks: Vec<String> = Vec::new();
            marks.push(mark);
            let nothing = String::new();
            assert(texts(marks@) =~= seq![mark@]);
            Ok(render(nothing.as_str(), nothing.as_str(), &marks))
        },
        BashEnd::Exited { stdout, stderr, code, killer } => {
            let out = lossy(&stdout);
            let err = lossy(&stderr);
            let marks = status_markers(code, killer);
            Ok(render(out.as_str(), err.as_str(), &marks))
        },
    }
}

// ── laws ────────────────────────────────────────────────────────────

/// What is shown of a run holds at most so many characters of each output: all of
/// a short one, and of a long one the end, behind a note.
pub proof fn law_output_is_bounded(s: Seq<char>)
    ensures
        shown_tail(s).len() <= MAX_OUTPUT_CHARS + 19,
        s.len() <= 10_000 ==> shown_tail(s) == s,
        s.len() > 10_000 ==> {
            &&& shown_tail(s).skip(shown_tail(s).len() - 10_000) == s.skip(s.len() - 10_000)
            &&& stands_at(shown_tail(s), "[output truncated]\n"@, 0)
        },
{
    reveal_strlit("[output truncated]\n");
    if s.len() > 10_000 {
        let note = "[output truncated]\n"@;
        assert(shown_tail(s).skip(shown_tail(s).len() - 10_000) =~= s.skip(s.len() - 10_000));
        assert(shown_tail(s).subrange(0, note.len() as int) =~= note);
    }
}

/// Whatever a command wrote is shown, whatever its end: the text of a run begins
/// with its first output, and its second output stands behind that under a heading
/// of its own. Where it wrote nothing, that is said.
#[verifier::rlimit(40)]
pub proof fn law_both_outputs_are_shown(
    stdout: Seq<char>,
    stderr: Seq<char>,
    marks: Seq<Seq<char>>,
)
    ensures
        ({
            let t = run_text(stdout, stderr, marks);
            let out = shown_tail(stdout);
            let err = shown_tail(stderr);
            &&& stands_at(t, out, 0)
            &&& stderr.len() > 0 ==> exists|at: int|
                at >= out.len() && #[trigger] stands_at(t, "[stderr]\n"@ + err, at)
            &&& stdout.len() == 0 && stderr.len() == 0 ==> stands_at(t, "(no output)"@, 0)
            &&& stdout.len() > 0 && stderr.len() == 0 && marks.len() == 0 ==> t == out
            &&& stdout.len() > 0 && stderr.len() > 0 && marks.len() == 0 ==> t.len() <= out.len()
                + 10 + err.len()
        }),
{
    reveal_strlit("[stderr]\n");
    reveal_strlit("(no output)");
    reveal_strlit("[output truncated]\n");
    let t = run_text(stdout, stderr, marks);
    let out = shown_tail(stdout);
    let err = shown_tail(stderr);
    let body = body_text(stdout, stderr);
    assert(t.subrange(0, body.len() as int) =~= body);
    assert(t.subrange(0, out.len() as int) =~= out);
    if stderr.len() > 0 {
        let under = "[stderr]\n"@ + err;
        let at = body.len() - under.len();
        assert(body.subrange(at, body.len() as int) =~= under);
        assert(t.subrange(at, at + under.len()) =~= under);
        assert(stands_at(t, under, at));
    }
}

/// Every mark of a run stands at the end of its text, each on a line of its own;
/// without a mark the text is that of the outputs alone.
pub proof fn law_marks_come_last(stdout: Seq<char>, stderr: Seq<char>, mark: Seq<char>)
    ensures
        ({
            let t = run_text(stdout, stderr, seq![mark]);
            let plain = run_text(stdout, stderr, Seq::empty());
            &&& t.len() > mark.len()
            &&& t.skip(t.len() - mark.len()) == mark
            &&& t[t.len() - mark.len() - 1] == '\n'
            &&& t.take(plain.len() as int) == plain
            &&& t.len() <= plain.len() + 1 + mark.len()
        }),
{
    let t = run_text(stdout, stderr, seq![mark]);
    let plain = run_text(stdout, stderr, Seq::empty());
    reveal_strlit("(no output)");
    assert(t =~= with_line_end(plain) + mark);
    assert(t.skip(t.len() - mark.len()) =~= mark);
    assert(t.take(plain.len() as int) =~= plain);
}

/// How a command ended is marked exactly where it did not end well: with its code
/// where that is not zero, with what killed it where it has none. A time that ran
/// out is marked with the time, and a command that could not be run is an error
/// that says why.
#[verifier::rlimit(40)]
pub proof fn law_end_is_marked(timeout_ms: u64, end: BashEnd)
    ensures
        match end {
            BashEnd::Exited { stdout, stderr, code, killer } => {
                let out = lossy_text(stdout@);
                let err = lossy_text(stderr@);
                let mark: Option<Seq<char>> = match (code, killer) {
                    (Some(c), _) => if c == 0 {
                        None
                    } else {
                        Some("[exit code: "@ + signed(c as int) + "]"@)
                    },
                    (None, Killer::Signal(n)) => Some(
                        "[killed by signal: "@ + signed(n as int) + "]"@,
                    ),
                    (None, Killer::UnknownSignal) => Some("[killed by signal: ?]"@),
                    (None, Killer::NoSignal) => Some("[killed]"@),
                };
                run_result(timeout_ms, end) == Ok::<Seq<char>, Seq<char>>(
                    run_text(
                        out,
                        err,
                        match mark {
                            Some(m) => seq![m],
                            None => Seq::empty(),
                        },
                    ),
                )
            },
            BashEnd::TimedOut => run_result(timeout_ms, end) matches Ok(t) && occurs(
                t,
                "[timed out after "@ + decimal(timeout_ms as nat) + "ms]"@,
            ),
            BashEnd::NotStarted(e) => run_result(timeout_ms, end) matches Err(t) && occurs(t, e@),
            BashEnd::Lost(e) => run_result(timeout_ms, end) matches Err(t) && occurs(t, e@),
        },
{
    match end {
        BashEnd::Exited { .. } => {},
        BashEnd::TimedOut => {
            let mark = "[timed out after "@ + decimal(timeout_ms as nat) + "ms]"@;
            law_marks_come_last(Seq::empty(), Seq::empty(), mark);
            let t = run_text(Seq::empty(), Seq::empty(), seq![mark]);
            lemma_stands_in(t.take(t.len() - mark.len()), mark, Seq::empty());
            assert(t =~= t.take(t.len() - mark.len()) + mark + Seq::<char>::empty());
        },
        BashEnd::NotStarted(e) => {
            lemma_stands_in("failed to spawn bash: "@, e@, Seq::empty());
            assert("failed to spawn bash: "@ + e@ =~= "failed to spawn bash: "@ + e@
                + Seq::<char>::empty());
        },
        BashEnd::Lost(e) => {
            lemma_stands_in("failed to run command: "@, e@, Seq::empty());
            assert("failed to run command: "@ + e@ =~= "failed to run command: "@ + e@
                + Seq::<char>::empty());
        },
    }
}

/// A command gets the time it asks for, ten minutes at most, and two minutes where
/// it does not ask.
pub proof fn law_time_is_granted(args: Json)
    ensures
        granted_ms(args) <= 600_000,
        field(args, "timeout_ms"@) is None ==> granted_ms(args) == 120_000,
        field(args, "timeout_ms"@) matches Some(v) ==> (u64_in(v) is None ==> granted_ms(args)
            == 120_000),
        field(args, "timeout_ms"@) matches Some(v) ==> (u64_in(v) matches Some(t) ==> (t <= 600_000
            ==> granted_ms(args) == t) && (t > 600_000 ==> granted_ms(args) == 600_000)),
{
}

} // verus!
