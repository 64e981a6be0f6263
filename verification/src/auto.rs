//! Self-drive: an agent that goes on by itself when a turn is over.
//!
//! It never stops. A failure or a turn that changed nothing makes it wait
//! longer, a turn that changed something makes it wait less; and what the last
//! turns brought is told to the next.

use vstd::prelude::*;

use crate::events::AgentTurnEnd;
use crate::message::text_opt;
use crate::text::{
    decimal, head, join, joined, law_joined_holds_all, law_number_is_read_back, law_trimmed,
    lemma_stands_in, lossy, lossy_text, number, number_in, occurs, parse_number, pieces, split_on,
    stands_at, take_head, texts, trim, trimmed, white_space,
};

verus! {

/// The shortest wait between turns.
pub const BASE_BACKOFF_MS: u64 = 200;

/// The longest wait between turns.
pub const MAX_BACKOFF_MS: u64 = 30_000;

/// From this many failures in a row on, each doubles the wait.
pub const FAIL_DECAY: usize = 3;

/// How many turns are remembered.
pub const OBSERVATION_WINDOW: usize = 5;

/// The state of the workspace: how many files differ from the last commit, and
/// how many commits there are.
#[derive(Debug, Clone, Copy, PartialEq, Eq, Structural)]
pub struct WorkspaceSnapshot {
    pub dirty_count: usize,
    pub head_count: usize,
}

/// How many of the texts are not blank.
pub open spec fn not_blank(lines: Seq<Seq<char>>) -> nat
    decreases lines.len(),
{
    if lines.len() == 0 {
        0
    } else {
        not_blank(lines.drop_last()) + (if trimmed(lines.last()).len() > 0 {
            1nat
        } else {
            0nat
        })
    }
}

/// The number that an output holds, or zero.
pub open spec fn counted_in(output: Seq<char>) -> u64 {
    match number_in(trimmed(output)) {
        Some(n) => n,
        None => 0,
    }
}

impl WorkspaceSnapshot {
    /// Reads a snapshot from the list of changed files and the number of
    /// commits, as the version control prints them. What could not be had
    /// counts as nothing.
    pub fn read(status: Option<&str>, commits: Option<&str>) -> (r: Self)
        ensures
            r.dirty_count == match status {
                Some(s) => not_blank(pieces(s@, '\n')),
                None => 0,
            },
            r.head_count == match commits {
                Some(s) => if counted_in(s@) <= usize::MAX {
                    counted_in(s@) as nat
                } else {
                    0
                },
                None => 0,
            },
    {
        let dirty_count: usize = match status {
            Some(s) => {
                let lines = split_on(s, '\n');
                let mut n: usize = 0;
                let mut i: usize = 0;
                let ghost all = texts(lines@);
                assert(all.take(0) =~= Seq::empty());
                while i < lines.len()
                    invariant
                        i <= lines@.len(),
                        all == texts(lines@),
                        n == not_blank(all.take(i as int)),
                        n <= i,
                    decreases lines@.len() - i,
                {
                    assert(all.take(i + 1).drop_last() =~= all.take(i as int));
                    assert(all.take(i + 1).last() == lines@[i as int]@);
                    if !trim(lines[i].as_str()).as_str().is_empty() {
                        n = n + 1;
                    }
                    i = i + 1;
                }
                assert(all.take(i as int) =~= all);
                n
            },
            None => 0,
        };
        let head_count: usize = match commits {
            Some(s) => match parse_number(trim(s).as_str()) {
                Some(n) => if n <= usize::MAX as u64 {
                    n as usize
                } else {
                    0
                },
                None => 0,
            },
            None => 0,
        };
        WorkspaceSnapshot { dirty_count, head_count }
    }

    /// Reads a snapshot from what the version control printed, as bytes.
    pub fn read_output(status: Option<&Vec<u8>>, commits: Option<&Vec<u8>>) -> (r: Self)
        ensures
            r.dirty_count == match status {
                Some(b) => not_blank(pieces(lossy_text(b@), '\n')),
                None => 0,
            },
            r.head_count == match commits {
                Some(b) => if counted_in(lossy_text(b@)) <= usize::MAX {
                    counted_in(lossy_text(b@)) as nat
                } else {
                    0
                },
                None => 0,
            },
    {
        let status = match status {
            Some(b) => Some(lossy(b)),
            None => None,
        };
        let commits = match commits {
            Some(b) => Some(lossy(b)),
            None => None,
        };
        WorkspaceSnapshot::read(
            match &status {
                Some(s) => Some(s.as_str()),
                None => None,
            },
            match &commits {
                Some(s) => Some(s.as_str()),
                None => None,
            },
        )
    }

    /// Whether the workspace differs from what it was.
    pub fn progress(&self, earlier: &Self) -> (r: bool)
        ensures
            r == (*self != *earlier),
    {
        self.dirty_count != earlier.dirty_count || self.head_count != earlier.head_count
    }
}

/// The state of self-drive.
#[derive(Debug)]
pub struct SelfDriven {
    fail_streak: usize,
    backoff_ms: u64,
    auto_turns: usize,
    observations: Vec<String>,
    last_ws: WorkspaceSnapshot,
}

#[verifier::ext_equal]
pub struct DriveView {
    pub fail_streak: nat,
    pub backoff_ms: u64,
    pub auto_turns: nat,
    pub observations: Seq<Seq<char>>,
    pub last_ws: WorkspaceSnapshot,
}

impl View for SelfDriven {
    type V = DriveView;

    closed spec fn view(&self) -> DriveView {
        DriveView {
            fail_streak: self.fail_streak as nat,
            backoff_ms: self.backoff_ms,
            auto_turns: self.auto_turns as nat,
            observations: texts(self.observations@),
            last_ws: self.last_ws,
        }
    }
}

/// What is remembered of a turn: a failure with the beginning of its error, or
/// a success with the number of messages and whether the workspace changed.
pub open spec fn observation(ok: bool, error: Seq<char>, msgs: nat, progress: bool) -> Seq<char> {
    if !ok {
        "fail("@ + head(error, 40) + ")"@
    } else if progress {
        "ok+progress(msgs="@ + decimal(msgs) + ")"@
    } else {
        "ok(msgs="@ + decimal(msgs) + ")"@
    }
}

/// The remembered turns with one more, the oldest dropped where they are too
/// many.
pub open spec fn remembered(observations: Seq<Seq<char>>, entry: Seq<char>) -> Seq<Seq<char>> {
    let all = observations.push(entry);
    if all.len() > OBSERVATION_WINDOW {
        all.drop_first()
    } else {
        all
    }
}

/// The remembered turns as one text.
pub open spec fn summary_of(observations: Seq<Seq<char>>) -> Seq<char> {
    if observations.len() == 0 {
        "(no prior observations)"@
    } else {
        joined(observations, " | "@)
    }
}

/// The wait after a turn: doubled by a failure from the third in a row on,
/// halved by progress, a step longer where nothing changed; within the
/// shortest and the longest.
pub open spec fn next_backoff(backoff_ms: u64, ok: bool, streak: nat, progress: bool) -> u64 {
    if !ok {
        if streak >= FAIL_DECAY {
            if backoff_ms * 2 > MAX_BACKOFF_MS {
                MAX_BACKOFF_MS
            } else {
                (backoff_ms * 2) as u64
            }
        } else {
            backoff_ms
        }
    } else if progress {
        if backoff_ms / 2 < BASE_BACKOFF_MS {
            BASE_BACKOFF_MS
        } else {
            backoff_ms / 2
        }
    } else {
        if backoff_ms + BASE_BACKOFF_MS > MAX_BACKOFF_MS {
            MAX_BACKOFF_MS
        } else {
            (backoff_ms + BASE_BACKOFF_MS) as u64
        }
    }
}

/// Self-drive after a turn.
pub open spec fn observed(
    d: DriveView,
    ok: bool,
    error: Seq<char>,
    msgs: nat,
    ws: WorkspaceSnapshot,
) -> DriveView {
    let progress = ws != d.last_ws;
    let streak = if ok {
        0
    } else {
        d.fail_streak + 1
    };
    DriveView {
        fail_streak: streak,
        backoff_ms: next_backoff(d.backoff_ms, ok, streak, progress),
        observations: remembered(d.observations, observation(ok, error, msgs, progress)),
        last_ws: ws,
        ..d
    }
}

/// What is noted of a turn that makes the wait longer: so many failures in a
/// row, or that nothing changed.
pub open spec fn wait_note(d: DriveView, ok: bool, ws: WorkspaceSnapshot) -> Option<Seq<char>> {
    let streak = d.fail_streak + 1;
    if !ok && streak >= FAIL_DECAY {
        Some(
            "[self-driven] fail streak "@ + decimal(streak) + ", backoff → "@ + decimal(
                next_backoff(d.backoff_ms, ok, streak, ws != d.last_ws) as nat,
            ) + "ms (still alive)"@,
        )
    } else if ok && ws == d.last_ws {
        Some(
            "[self-driven] no workspace progress, backoff → "@ + decimal(
                next_backoff(d.backoff_ms, ok, 0, false) as nat,
            ) + "ms (still alive)"@,
        )
    } else {
        None
    }
}

/// What holds of every self-drive.
pub open spec fn alive(d: DriveView) -> bool {
    &&& BASE_BACKOFF_MS <= d.backoff_ms <= MAX_BACKOFF_MS
    &&& d.observations.len() <= OBSERVATION_WINDOW
}

/// What the agent tells itself.
pub open spec fn self_input(n: nat, summary: Seq<char>, todo: Option<Seq<char>>) -> Seq<char> {
    match todo {
        Some(t) => "(自主续跑 #"@ + decimal(n) + ") 继续待办: "@ + t,
        None => "(自主激活 #"@ + decimal(n)
            + ",无需用户输入) 你的使命是恒定命题:工程上最好、环境适应最强、迭代最强的 agent。持续自我进化。最近观察: "@
            + summary
            + "。审视当前工作区,自主决定并执行一件最有价值的事:检查未提交工作、跑测试、改进代码、写文档、学习新东西、观察上次结果修正方向。无论对错,持续运行,做完汇报并说明观察到了什么。"@,
    }
}

/// What a turn's end leads to: the number of the next turn, how long to wait
/// before it, what was remembered until then, and what is to be noted.
#[derive(Debug)]
pub struct Activation {
    pub n: usize,
    pub wait_ms: u64,
    pub summary: String,
    pub note: Option<String>,
}

impl SelfDriven {
    /// Self-drive keeps within its bounds.
    pub closed spec fn wf(&self) -> bool {
        alive(self@)
    }

    /// Self-drive that begins with this workspace.
    pub fn new(ws: WorkspaceSnapshot) -> (r: Self)
        ensures
            r.wf(),
            r@ == (DriveView {
                fail_streak: 0,
                backoff_ms: BASE_BACKOFF_MS,
                auto_turns: 0,
                observations: Seq::empty(),
                last_ws: ws,
            }),
    {
        let r = SelfDriven {
            fail_streak: 0,
            backoff_ms: BASE_BACKOFF_MS,
            auto_turns: 0,
            observations: Vec::new(),
            last_ws: ws,
        };
        assert(r@.observations =~= Seq::empty());
        r
    }

    /// Remembers a turn.
    pub fn observe(&mut self, e: &AgentTurnEnd, msgs: usize, progress: bool)
        requires
            old(self).wf(),
        ensures
            final(self).wf(),
            final(self)@ == (DriveView {
                observations: remembered(
                    old(self)@.observations,
                    observation(e.ok, e.error@, msgs as nat, progress),
                ),
                ..old(self)@
            }),
    {
        let mut entry = String::new();
        if !e.ok {
            entry.push_str("fail(");
            entry.push_str(take_head(e.error.as_str(), 40).as_str());
        } else if progress {
            entry.push_str("ok+progress(msgs=");
            entry.push_str(number(msgs as u64).as_str());
        } else {
            entry.push_str("ok(msgs=");
            entry.push_str(number(msgs as u64).as_str());
        }
        entry.push_str(")");
        assert(entry@ =~= observation(e.ok, e.error@, msgs as nat, progress));
        let ghost before = self.observations@;
        self.observations.push(entry);
        assert(texts(self.observations@) =~= texts(before).push(entry@));
        if self.observations.len() > OBSERVATION_WINDOW {
            let ghost longer = self.observations@;
            let _ = self.observations.remove(0);
            assert(texts(self.observations@) =~= texts(longer).drop_first());
        }
    }

    /// The remembered turns as one text.
    pub fn observation_summary(&self) -> (r: String)
        ensures
            r@ == summary_of(self@.observations),
    {
        if self.observations.len() == 0 {
            "(no prior observations)".to_owned()
        } else {
            join(&self.observations, " | ")
        }
    }

    /// Counts the turn that comes next.
    pub fn activate(&mut self) -> (r: Activation)
        requires
            old(self).wf(),
            old(self)@.auto_turns < usize::MAX,
        ensures
            final(self).wf(),
            final(self)@ == (DriveView { auto_turns: old(self)@.auto_turns + 1, ..old(self)@ }),
            r.n == old(self)@.auto_turns + 1,
            r.wait_ms == old(self)@.backoff_ms,
            r.summary@ == summary_of(old(self)@.observations),
            r.note is None,
    {
        let summary = self.observation_summary();
        let n: usize = self.auto_turns + 1;
        self.auto_turns = n;
        Activation { n, wait_ms: self.backoff_ms, summary, note: None }
    }

    /// Takes the end of a turn, the number of messages and the workspace as it
    /// is now. Gives what is to be noted of a longer wait.
    pub fn turn_ended(&mut self, e: &AgentTurnEnd, msgs: usize, ws: WorkspaceSnapshot) -> (r:
        Option<String>)
        requires
            old(self).wf(),
            old(self)@.fail_streak < usize::MAX,
        ensures
            final(self).wf(),
            final(self)@ == observed(old(self)@, e.ok, e.error@, msgs as nat, ws),
            text_opt(r) == wait_note(old(self)@, e.ok, ws),
    {
        let mut note: Option<String> = None;
        let progress = ws.progress(&self.last_ws);
        self.last_ws = ws;
        let backoff: u64 = self.backoff_ms;
        if !e.ok {
            self.fail_streak = self.fail_streak + 1;
            if self.fail_streak >= FAIL_DECAY {
                self.backoff_ms = if backoff * 2 > MAX_BACKOFF_MS {
                    MAX_BACKOFF_MS
                } else {
                    backoff * 2
                };
                let mut s = "[self-driven] fail streak ".to_owned();
                s.push_str(number(self.fail_streak as u64).as_str());
                s.push_str(", backoff → ");
                s.push_str(number(self.backoff_ms).as_str());
                s.push_str("ms (still alive)");
                note = Some(s);
            }
        } else {
            self.fail_streak = 0;
            if progress {
                self.backoff_ms = if backoff / 2 < BASE_BACKOFF_MS {
                    BASE_BACKOFF_MS
                } else {
                    backoff / 2
                };
            } else {
                self.backoff_ms = if backoff + BASE_BACKOFF_MS > MAX_BACKOFF_MS {
                    MAX_BACKOFF_MS
                } else {
                    backoff + BASE_BACKOFF_MS
                };
                let mut s = "[self-driven] no workspace progress, backoff → ".to_owned();
                s.push_str(number(self.backoff_ms).as_str());
                s.push_str("ms (still alive)");
                note = Some(s);
            }
        }
        self.observe(e, msgs, progress);
        note
    }
}

impl SelfDriven {
    /// One more turn can be counted.
    pub open spec fn spec_has_room(&self) -> bool {
        self@.auto_turns < usize::MAX && self@.fail_streak < usize::MAX
    }

    /// One more turn can be counted.
    #[verifier::when_used_as_spec(spec_has_room)]
    pub fn has_room(&self) -> (r: bool)
        ensures
            r == self.spec_has_room(),
    {
        self.auto_turns < usize::MAX && self.fail_streak < usize::MAX
    }

    /// Answers the end of a turn with the next one. How long to wait and what
    /// the agent is told of earlier turns is as it was before this one ended;
    /// what this one brought counts from then on.
    pub fn call(&mut self, e: &AgentTurnEnd, msgs: usize, ws: WorkspaceSnapshot) -> (r: Activation)
        requires
            old(self).wf(),
            old(self).has_room(),
        ensures
            final(self).wf(),
            r.n == old(self)@.auto_turns + 1,
            r.wait_ms == old(self)@.backoff_ms,
            r.summary@ == summary_of(old(self)@.observations),
            text_opt(r.note) == wait_note(old(self)@, e.ok, ws),
            final(self)@ == observed(
                DriveView { auto_turns: r.n as nat, ..old(self)@ },
                e.ok,
                e.error@,
                msgs as nat,
                ws,
            ),
    {
        let mut next = self.activate();
        next.note = self.turn_ended(e, msgs, ws);
        next
    }
}

impl Activation {
    /// What the agent tells itself: to go on with the work left open, or to
    /// find something to do.
    pub fn input(&self, todo: Option<&str>) -> (r: String)
        ensures
            r@ == self_input(
                self.n as nat,
                self.summary@,
                match todo {
                    Some(t) => Some(t@),
                    None => None,
                },
            ),
    {
        match todo {
            Some(t) => {
                let mut s = "(自主续跑 #".to_owned();
                s.push_str(number(self.n as u64).as_str());
                s.push_str(") 继续待办: ");
                s.push_str(t);
                s
            },
            None => {
                let mut s = "(自主激活 #".to_owned();
                s.push_str(number(self.n as u64).as_str());
                s.push_str(
                    ",无需用户输入) 你的使命是恒定命题:工程上最好、环境适应最强、迭代最强的 agent。持续自我进化。最近观察: ",
                );
                s.push_str(self.summary.as_str());
                s.push_str(
                    "。审视当前工作区,自主决定并执行一件最有价值的事:检查未提交工作、跑测试、改进代码、写文档、学习新东西、观察上次结果修正方向。无论对错,持续运行,做完汇报并说明观察到了什么。",
                );
                s
            },
        }
    }
}

// ── laws ────────────────────────────────────────────────────────────

/// Whatever the turns bring, self-drive stays alive: the wait stays within its
/// bounds, so that there is always a next turn, and the memory stays small.
pub proof fn law_self_drive_stays_alive(
    d: DriveView,
    ok: bool,
    error: Seq<char>,
    msgs: nat,
    ws: WorkspaceSnapshot,
)
    requires
        alive(d),
    ensures
        alive(observed(d, ok, error, msgs, ws)),
{
}

/// A failure never shortens the wait, progress never lengthens it, and a
/// success ends a row of failures.
pub proof fn law_wait_follows_the_turns(
    d: DriveView,
    error: Seq<char>,
    msgs: nat,
    ws: WorkspaceSnapshot,
)
    requires
        alive(d),
    ensures
        observed(d, false, error, msgs, ws).backoff_ms >= d.backoff_ms,
        observed(d, true, error, msgs, ws).fail_streak == 0,
        ws != d.last_ws ==> observed(d, true, error, msgs, ws).backoff_ms <= d.backoff_ms,
        ws == d.last_ws ==> observed(d, true, error, msgs, ws).backoff_ms >= d.backoff_ms,
{
}

/// The latest turn is always remembered, as the last.
pub proof fn law_latest_turn_is_remembered(observations: Seq<Seq<char>>, entry: Seq<char>)
    requires
        observations.len() <= OBSERVATION_WINDOW,
    ensures
        remembered(observations, entry).len() > 0,
        remembered(observations, entry).last() == entry,
        remembered(observations, entry).len() <= OBSERVATION_WINDOW,
{
}

/// Of the turns remembered before, the latest stay in their order before the
/// new one: all of them, as long as there are five at most.
pub proof fn law_memory_keeps_the_latest(observations: Seq<Seq<char>>, entry: Seq<char>)
    requires
        observations.len() <= 5,
    ensures
        observations.len() < 5 ==> remembered(observations, entry) == observations + seq![entry],
        observations.len() == 5 ==> remembered(observations, entry) == observations.subrange(1, 5)
            + seq![entry],
{
    if observations.len() < 5 {
        assert(remembered(observations, entry) =~= observations + seq![entry]);
    } else {
        assert(remembered(observations, entry) =~= observations.subrange(1, 5) + seq![entry]);
    }
}

/// How long the wait gets: two failures in a row leave it as it is, each
/// further one doubles it up to half a minute; progress halves it down to a
/// fifth of a second; a turn that changed nothing makes it a fifth of a second
/// longer.
pub proof fn law_wait_after_a_turn(d: DriveView, error: Seq<char>, msgs: nat, ws: WorkspaceSnapshot)
    requires
        200 <= d.backoff_ms <= 30_000,
    ensures
        ({
            let failed = observed(d, false, error, msgs, ws);
            let done = observed(d, true, error, msgs, ws);
            &&& failed.fail_streak == d.fail_streak + 1
            &&& d.fail_streak < 2 ==> failed.backoff_ms == d.backoff_ms
            &&& d.fail_streak >= 2 && d.backoff_ms <= 15_000 ==> failed.backoff_ms == d.backoff_ms
                + d.backoff_ms
            &&& d.fail_streak >= 2 && d.backoff_ms > 15_000 ==> failed.backoff_ms == 30_000
            &&& ws != d.last_ws && d.backoff_ms >= 400 ==> 0 <= d.backoff_ms - 2 * done.backoff_ms
                <= 1
            &&& ws != d.last_ws && d.backoff_ms < 400 ==> done.backoff_ms == 200
            &&& ws == d.last_ws && d.backoff_ms <= 29_800 ==> done.backoff_ms == d.backoff_ms + 200
            &&& ws == d.last_ws && d.backoff_ms > 29_800 ==> done.backoff_ms == 30_000
            &&& failed.last_ws == ws && done.last_ws == ws
            &&& failed.auto_turns == d.auto_turns && done.auto_turns == d.auto_turns
        }),
{
}

/// What is remembered of a turn tells a failure from a success, and progress
/// from none: a failure by the first forty characters of its error, a success
/// by the number of messages.
pub proof fn law_turn_is_told(
    d: DriveView,
    error: Seq<char>,
    msgs: nat,
    ws: WorkspaceSnapshot,
)
    requires
        d.observations.len() <= 5,
    ensures
        ({
            let failed = observed(d, false, error, msgs, ws).observations.last();
            let done = observed(d, true, error, msgs, ws).observations.last();
            &&& error.len() <= 40 ==> failed == "fail("@ + error + ")"@
            &&& error.len() > 40 ==> failed == "fail("@ + error.take(40) + ")"@
            &&& ws != d.last_ws ==> done == "ok+progress(msgs="@ + decimal(msgs) + ")"@
            &&& ws == d.last_ws ==> done == "ok(msgs="@ + decimal(msgs) + ")"@
        }),
{
}

/// A longer wait is noted with how long it is, from the third failure in a row
/// on and wherever a turn changed nothing; a shorter one is not.
#[verifier::rlimit(40)]
pub proof fn law_longer_wait_is_noted(d: DriveView, error: Seq<char>, msgs: nat, ws: WorkspaceSnapshot)
    ensures
        (wait_note(d, false, ws) is Some) == (d.fail_streak >= 2),
        (wait_note(d, true, ws) is Some) == (ws == d.last_ws),
        d.fail_streak >= 2 ==> occurs(
            wait_note(d, false, ws)->Some_0,
            " "@ + decimal(d.fail_streak + 1) + ", backoff → "@ + decimal(
                observed(d, false, error, msgs, ws).backoff_ms as nat,
            ) + "ms"@,
        ),
        ws == d.last_ws ==> occurs(
            wait_note(d, true, ws)->Some_0,
            ", backoff → "@ + decimal(observed(d, true, error, msgs, ws).backoff_ms as nat) + "ms"@,
        ),
{
    let end = " (still alive)"@;
    reveal_strlit("ms");
    reveal_strlit(" (still alive)");
    reveal_strlit("ms (still alive)");
    assert("ms (still alive)"@ =~= "ms"@ + end);
    if d.fail_streak >= 2 {
        let wait = decimal(observed(d, false, error, msgs, ws).backoff_ms as nat);
        let t = " "@ + decimal(d.fail_streak + 1) + ", backoff → "@ + wait + "ms"@;
        reveal_strlit("[self-driven] fail streak");
        reveal_strlit(" ");
        reveal_strlit("[self-driven] fail streak ");
        assert("[self-driven] fail streak "@ =~= "[self-driven] fail streak"@ + " "@);
        lemma_stands_in("[self-driven] fail streak"@, t, end);
        assert("[self-driven] fail streak"@ + t + end =~= wait_note(d, false, ws)->Some_0);
    }
    if ws == d.last_ws {
        let wait = decimal(observed(d, true, error, msgs, ws).backoff_ms as nat);
        let t = ", backoff → "@ + wait + "ms"@;
        reveal_strlit("[self-driven] no workspace progress");
        reveal_strlit(", backoff → ");
        reveal_strlit("[self-driven] no workspace progress, backoff → ");
        assert("[self-driven] no workspace progress, backoff → "@
            =~= "[self-driven] no workspace progress"@ + ", backoff → "@);
        lemma_stands_in("[self-driven] no workspace progress"@, t, end);
        assert("[self-driven] no workspace progress"@ + t + end =~= wait_note(d, true, ws)->Some_0);
    }
}

/// Blank texts count nothing, all others one each.
pub proof fn law_blank_texts_count_nothing(a: Seq<Seq<char>>, b: Seq<Seq<char>>, line: Seq<char>)
    ensures
        not_blank(a + b) == not_blank(a) + not_blank(b),
        (forall|i: int| 0 <= i < line.len() ==> white_space(#[trigger] line[i])) ==> not_blank(
            seq![line],
        ) == 0,
        (exists|i: int| 0 <= i < line.len() && !white_space(#[trigger] line[i])) ==> not_blank(
            seq![line],
        ) == 1,
    decreases b.len(),
{
    if b.len() > 0 {
        assert((a + b).drop_last() =~= a + b.drop_last());
        law_blank_texts_count_nothing(a, b.drop_last(), line);
    } else {
        assert(a + b =~= a);
    }
    assert(seq![line].drop_last() =~= Seq::empty());
    assert(not_blank(seq![line].drop_last()) == 0);
    law_trimmed(line);
}

/// The number of commits is the number that was printed, whatever white space
/// stands around it; what is no number counts as none.
pub proof fn law_commits_are_counted(n: u64, output: Seq<char>)
    ensures
        trimmed(output) == decimal(n as nat) ==> counted_in(output) == n,
        number_in(trimmed(output)) is None ==> counted_in(output) == 0,
{
    law_number_is_read_back(n, Seq::empty(), 0);
}

/// What the agent tells itself holds the number of the turn and the work left
/// open, or else what the last turns brought.
#[verifier::rlimit(40)]
pub proof fn law_agent_tells_itself(n: nat, summary: Seq<char>, todo: Seq<char>)
    ensures
        occurs(self_input(n, summary, Some(todo)), "#"@ + decimal(n) + ")"@),
        self_input(n, summary, Some(todo)).skip(
            self_input(n, summary, Some(todo)).len() - todo.len(),
        ) == todo,
        occurs(self_input(n, summary, None), "#"@ + decimal(n) + ","@),
        occurs(self_input(n, summary, None), summary),
{
    let open = self_input(n, summary, Some(todo));
    let t = "#"@ + decimal(n) + ")"@;
    reveal_strlit("#");
    reveal_strlit(")");
    reveal_strlit(",");
    reveal_strlit("(自主续跑 ");
    reveal_strlit("(自主续跑 #");
    assert("(自主续跑 #"@ =~= "(自主续跑 "@ + "#"@);
    reveal_strlit(" 继续待办: ");
    reveal_strlit(") 继续待办: ");
    assert(") 继续待办: "@ =~= ")"@ + " 继续待办: "@);
    lemma_stands_in("(自主续跑 "@, t, " 继续待办: "@ + todo);
    assert("(自主续跑 "@ + t + (" 继续待办: "@ + todo) =~= open);
    assert(open.skip(open.len() - todo.len()) =~= todo);
    let told = self_input(n, summary, None);
    let u = "#"@ + decimal(n) + ","@;
    reveal_strlit("(自主激活 ");
    reveal_strlit("(自主激活 #");
    assert("(自主激活 #"@ =~= "(自主激活 "@ + "#"@);
    let mission = ",无需用户输入) 你的使命是恒定命题:工程上最好、环境适应最强、迭代最强的 agent。持续自我进化。最近观察: "@;
    let duty = "。审视当前工作区,自主决定并执行一件最有价值的事:检查未提交工作、跑测试、改进代码、写文档、学习新东西、观察上次结果修正方向。无论对错,持续运行,做完汇报并说明观察到了什么。"@;
    reveal_strlit(
        ",无需用户输入) 你的使命是恒定命题:工程上最好、环境适应最强、迭代最强的 agent。持续自我进化。最近观察: ",
    );
    assert(mission[0] == ',');
    assert(mission =~= ","@ + mission.skip(1));
    lemma_stands_in("(自主激活 "@, u, mission.skip(1) + summary + duty);
    assert("(自主激活 "@ + u + (mission.skip(1) + summary + duty) =~= told);
    lemma_stands_in("(自主激活 #"@ + decimal(n) + mission, summary, duty);
}

/// The remembered turns are told one after another, none left out.
pub proof fn law_all_turns_are_told(observations: Seq<Seq<char>>, i: int)
    requires
        0 <= i < observations.len(),
    ensures
        occurs(summary_of(observations), observations[i]),
        observations.len() == 1 ==> summary_of(observations) == observations[0],
{
    let all = joined(observations, " | "@);
    law_joined_holds_all(observations, " | "@, i);
    if i == 0 {
        assert(stands_at(all, observations[i], 0));
    } else {
        let t = " | "@ + observations[i];
        let at = choose|at: int| stands_at(all, t, at);
        let there = at + " | "@.len();
        assert(all.subrange(there, there + observations[i].len()) =~= t.skip(
            " | "@.len() as int,
        )) by {
            assert(all.subrange(at, at + t.len()).skip(" | "@.len() as int) =~= all.subrange(
                there,
                there + observations[i].len(),
            ));
        }
        assert(t.skip(" | "@.len() as int) =~= observations[i]);
        assert(stands_at(all, observations[i], there));
    }
    if observations.len() == 1 {
        assert(all =~= observations[0]);
    }
}

} // verus!
