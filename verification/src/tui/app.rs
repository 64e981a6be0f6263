//! What the screen shows of a conversation, and what the user asks of it.

use ratatui::buffer::Buffer;
use rutui_core::scrollback::ScrollbackState;
use vstd::prelude::*;

use crate::events::{AgentEvent, EventView};
use crate::json;
use crate::json::json_text;
use crate::message::text_opt;
use crate::text::{texts, trim, trimmed};
use crate::tui::scrollback;
use crate::tui::scrollback::{
    changed, done_shown, entries, finish_running, flows, new_scrollback, next_id, no_flow, only,
    place_of, push_block, push_chunk_to_agent, push_chunk_to_thinking, replace_tool_block,
    set_entry_running, shown_at, tool_at, Block, Change, DoneTool, Entry, Flow, Shown,
};
use crate::tui::selection::{
    cells, clipboard_sequence, clipboard_text, conv_point, fits, gathered, has_columns, is_in,
    marked_rows, row_texts, selection_text, Rect, Selection,
};

verus! {

/// What is to be shown.
#[derive(Debug)]
pub enum UiCmd {
    ReasoningDelta(String),
    TextDelta(String),
    ToolCall { name: String, args: String },
    ToolResult { name: String, ok: bool, output: String },
    TurnEnd { ok: bool, error: String },
}

#[verifier::ext_equal]
pub enum CmdView {
    ReasoningDelta(Seq<char>),
    TextDelta(Seq<char>),
    ToolCall { name: Seq<char>, args: Seq<char> },
    ToolResult { name: Seq<char>, ok: bool, output: Seq<char> },
    TurnEnd { ok: bool, error: Seq<char> },
}

impl View for UiCmd {
    type V = CmdView;

    open spec fn view(&self) -> CmdView {
        match *self {
            UiCmd::ReasoningDelta(d) => CmdView::ReasoningDelta(d@),
            UiCmd::TextDelta(d) => CmdView::TextDelta(d@),
            UiCmd::ToolCall { name, args } => CmdView::ToolCall { name: name@, args: args@ },
            UiCmd::ToolResult { name, ok, output } => CmdView::ToolResult {
                name: name@,
                ok,
                output: output@,
            },
            UiCmd::TurnEnd { ok, error } => CmdView::TurnEnd { ok, error: error@ },
        }
    }
}

/// What an event of a turn asks to be shown.
pub open spec fn event_cmd(e: EventView) -> Option<CmdView> {
    match e {
        EventView::TextDelta { delta, .. } => Some(CmdView::TextDelta(delta)),
        EventView::Reasoning { delta, .. } => Some(CmdView::ReasoningDelta(delta)),
        EventView::ToolCall { name, args, .. } => Some(
            CmdView::ToolCall { name, args: json_text(args) },
        ),
        EventView::ToolResult { name, ok, output, .. } => Some(
            CmdView::ToolResult { name, ok, output },
        ),
        EventView::TurnEnd { ok, error, .. } => Some(CmdView::TurnEnd { ok, error }),
        EventView::Step { .. } => None,
    }
}

/// What an event of a turn asks to be shown.
pub fn ui_cmd(e: &AgentEvent) -> (r: Option<UiCmd>)
    ensures
        match r {
            Some(c) => event_cmd(e@) == Some(c@),
            None => event_cmd(e@) is None,
        },
{
    match e {
        AgentEvent::TextDelta(d) => Some(UiCmd::TextDelta(d.delta.clone())),
        AgentEvent::Reasoning(d) => Some(UiCmd::ReasoningDelta(d.delta.clone())),
        AgentEvent::ToolCall(c) => Some(
            UiCmd::ToolCall { name: c.name.clone(), args: json::text_of(&c.args) },
        ),
        AgentEvent::ToolResult(t) => Some(
            UiCmd::ToolResult { name: t.name.clone(), ok: t.ok, output: t.output.clone() },
        ),
        AgentEvent::TurnEnd(t) => Some(UiCmd::TurnEnd { ok: t.ok, error: t.error.clone() }),
        AgentEvent::Step(_) => None,
    }
}

/// The entries that a turn is still writing to, one of each kind. Text and
/// reasoning may come interleaved; each has an entry of its own, so that
/// neither breaks the other into pieces.
#[derive(Debug, Clone, Copy, PartialEq, Eq, Structural)]
pub struct Active {
    pub agent: Option<u64>,
    pub thinking: Option<u64>,
    pub tool: Option<u64>,
}

/// No entry is being written to.
pub open spec fn none_active() -> Active {
    Active { agent: None, thinking: None, tool: None }
}

/// The entry of this id is being written to.
pub open spec fn is_active(a: Active, id: u64) -> bool {
    a.agent == Some(id) || a.thinking == Some(id) || a.tool == Some(id)
}

impl Default for Active {
    fn default() -> (r: Self)
        ensures
            r == none_active(),
    {
        Active { agent: None, thinking: None, tool: None }
    }
}

/// `after` may come of `before` by the end of all entries in `a`.
pub open spec fn closed(before: Seq<Entry>, after: Seq<Entry>, a: Active) -> bool {
    &&& after.len() == before.len()
    &&& forall|i: int|
        #![trigger before[i]]
        #![trigger after[i]]
        0 <= i < before.len() ==> if is_active(a, before[i].id) {
            changed(Change::Finished, before[i], after[i])
        } else {
            after[i] == before[i]
        }
}

impl Active {
    /// Ends all entries that are being written to.
    pub fn close_all(&mut self, s: &mut ScrollbackState)
        ensures
            *final(self) == none_active(),
            next_id(*final(s)) == next_id(*old(s)),
            closed(entries(*old(s)), entries(*final(s)), *old(self)),
    {
        let ghost e0 = entries(*s);
        if let Some(id) = self.agent {
            finish_running(s, id);
        }
        let ghost e1 = entries(*s);
        if let Some(id) = self.thinking {
            finish_running(s, id);
        }
        let ghost e2 = entries(*s);
        if let Some(id) = self.tool {
            finish_running(s, id);
        }
        let ghost e3 = entries(*s);
        proof {
            assert forall|i: int|
                #![trigger e0[i]]
                #![trigger e3[i]]
                0 <= i < e0.len() implies if is_active(*old(self), e0[i].id) {
                changed(Change::Finished, e0[i], e3[i])
            } else {
                e3[i] == e0[i]
            } by {
                assert(e1[i].id == e0[i].id);
                assert(e2[i].id == e0[i].id);
            }
        }
        *self = Active::default();
    }
}

/// The ids of the entries grow, and none is above `last`.
pub open spec fn ordered(es: Seq<Entry>, last: u64) -> bool {
    &&& forall|i: int| 0 <= i < es.len() ==> (#[trigger] es[i]).id <= last
    &&& forall|i: int, j: int|
        0 <= i < j < es.len() ==> (#[trigger] es[i]).id < (#[trigger] es[j]).id
}

/// Entries whose ids stay the same stay in order.
proof fn lemma_same_ids(before: Seq<Entry>, after: Seq<Entry>, last: u64)
    requires
        ordered(before, last),
        after.len() == before.len(),
        forall|i: int| 0 <= i < before.len() ==> (#[trigger] after[i]).id == before[i].id,
    ensures
        ordered(after, last),
{
    assert forall|i: int, j: int| 0 <= i < j < after.len() implies (#[trigger] after[i]).id < (
    #[trigger] after[j]).id by {
        assert(before[i].id < before[j].id);
    }
}

proof fn lemma_place(es: Seq<Entry>, last: u64, i: int)
    requires
        ordered(es, last),
        0 <= i < es.len(),
    ensures
        place_of(es, es[i].id) == i,
    decreases es.len(),
{
    if i > 0 {
        let rest = es.drop_first();
        assert forall|a: int, b: int| 0 <= a < b < rest.len() implies (#[trigger] rest[a]).id < (
        #[trigger] rest[b]).id by {
            assert(es[a + 1].id < es[b + 1].id);
        }
        assert forall|a: int| 0 <= a < rest.len() implies (#[trigger] rest[a]).id <= last by {
            assert(es[a + 1].id <= last);
        }
        assert(es[0].id < es[i].id);
        lemma_place(rest, last, i - 1);
    }
}

/// The entry was counted among the blocks.
pub open spec fn is_counted(id: Option<u64>, blocks: u64) -> bool {
    match id {
        Some(id) => id <= blocks,
        None => true,
    }
}

/// What holds of every screen: the ids of the entries grow, and what is being
/// written to was counted.
pub open spec fn valid(v: AppView) -> bool {
    &&& ordered(v.entries, v.blocks)
    &&& is_counted(v.active.agent, v.blocks)
    &&& is_counted(v.active.thinking, v.blocks)
    &&& is_counted(v.active.tool, v.blocks)
}

/// The state of the screen.
pub struct App {
    pub scrollback: ScrollbackState,
    pub active: Active,
    /// A turn is going on.
    pub running: bool,
    /// What the mouse has marked.
    pub selection: Option<Selection>,
    /// Where the conversation is drawn.
    pub conv_area: Rect,
    /// How many blocks were shown.
    pub blocks: u64,
}

pub ghost struct AppView {
    pub entries: Seq<Entry>,
    /// How many blocks were shown; the next one has the id behind that.
    pub blocks: u64,
    pub active: Active,
    pub running: bool,
    pub selection: Option<Selection>,
    pub conv_area: Rect,
}

/// What may be shown of a piece of text or reasoning: it goes to the entry
/// that is being written to, or to a new one that runs.
pub open spec fn written(
    before: Seq<Entry>,
    after: Seq<Entry>,
    to: Option<u64>,
    new_id: u64,
    chunk: Seq<char>,
    is_text: bool,
) -> bool {
    match to {
        Some(id) => only(
            before,
            after,
            id,
            if is_text {
                Change::Text(chunk)
            } else {
                Change::Thought(chunk)
            },
        ),
        None => {
            &&& after.len() == before.len() + 1
            &&& after.drop_last() == before
            &&& after.last().id == new_id
            &&& after.last().running
            &&& match after.last().shown {
                Shown::Agent(f) => is_text && flows(no_flow(), chunk, f),
                Shown::Thinking(f) => !is_text && flows(no_flow(), chunk, f),
                _ => false,
            }
        },
    }
}

/// The blocks that were shown, with or without one more.
pub open spec fn block_count(v: AppView, to: Option<u64>) -> int {
    match to {
        Some(_) => v.blocks as int,
        None => v.blocks + 1,
    }
}

/// What is shown of the result of a tool: the entry of its call shows it,
/// beside what it showed of the call, and no longer runs.
pub open spec fn with_result(
    before: Seq<Entry>,
    after: Seq<Entry>,
    id: u64,
    name: Seq<char>,
    ok: bool,
    output: Seq<char>,
) -> bool {
    &&& after.len() == before.len()
    &&& forall|i: int|
        #![trigger before[i]]
        #![trigger after[i]]
        0 <= i < before.len() ==> if before[i].id == id {
            after[i] == (Entry {
                id,
                running: false,
                shown: Shown::Tool {
                    name,
                    summary: match before[i].shown {
                        Shown::Tool { summary, .. } => summary,
                        _ => Seq::empty(),
                    },
                    output: if ok {
                        Some(output)
                    } else {
                        None
                    },
                    error: if ok {
                        None
                    } else {
                        Some(output)
                    },
                    started: match before[i].shown {
                        Shown::Tool { started, .. } => started,
                        _ => None,
                    },
                },
            })
        } else {
            after[i] == before[i]
        }
}

/// `b` may come of `a` by that command.
pub open spec fn follows(a: AppView, cmd: CmdView, b: AppView) -> bool {
    &&& b.selection is None
    &&& b.conv_area == a.conv_area
    &&& match cmd {
        CmdView::ReasoningDelta(delta) => {
            &&& written(a.entries, b.entries, a.active.thinking, (a.blocks + 1) as u64, delta, false)
            &&& b.blocks == block_count(a, a.active.thinking)
            &&& b.running == a.running
            &&& b.active == (Active {
                thinking: match a.active.thinking {
                    Some(id) => Some(id),
                    None => Some((a.blocks + 1) as u64),
                },
                ..a.active
            })
        },
        CmdView::TextDelta(delta) => {
            &&& written(a.entries, b.entries, a.active.agent, (a.blocks + 1) as u64, delta, true)
            &&& b.blocks == block_count(a, a.active.agent)
            &&& b.running == a.running
            &&& b.active == (Active {
                agent: match a.active.agent {
                    Some(id) => Some(id),
                    None => Some((a.blocks + 1) as u64),
                },
                ..a.active
            })
        },
        CmdView::ToolCall { name, args } => {
            let id = (a.blocks + 1) as u64;
            &&& b.entries.len() == a.entries.len() + 1
            &&& closed(a.entries, b.entries.drop_last(), a.active)
            &&& b.entries.last().shown is Tool
            &&& b.entries.last().shown->started is Some
            &&& b.entries.last() == (Entry {
                id,
                running: true,
                shown: Shown::Tool {
                    name,
                    summary: args,
                    output: None,
                    error: None,
                    started: b.entries.last().shown->started,
                },
            })
            &&& b.blocks == a.blocks + 1
            &&& b.running == a.running
            &&& b.active == (Active { agent: None, thinking: None, tool: Some(id) })
        },
        CmdView::ToolResult { name, ok, output } => {
            &&& b.blocks == a.blocks
            &&& b.running == a.running
            &&& b.active == (Active { tool: None, ..a.active })
            &&& match a.active.tool {
                Some(id) => with_result(a.entries, b.entries, id, name, ok, output),
                None => b.entries == a.entries,
            }
        },
        CmdView::TurnEnd { ok, error } => {
            &&& !b.running
            &&& b.active == none_active()
            &&& if ok {
                closed(a.entries, b.entries, a.active) && b.blocks == a.blocks
            } else {
                &&& b.blocks == a.blocks + 1
                &&& b.entries.len() == a.entries.len() + 1
                &&& closed(a.entries, b.entries.drop_last(), a.active)
                &&& b.entries.last() == (Entry {
                    id: (a.blocks + 1) as u64,
                    shown: Shown::TurnFailed(error),
                    running: false,
                })
            }
        },
    }
}

/// The messages that stand above a conversation.
pub open spec fn introduced(lines: Seq<Seq<char>>) -> Seq<Entry> {
    Seq::new(
        lines.len(),
        |i: int| Entry { id: (i + 1) as u64, shown: Shown::System(lines[i]), running: false },
    )
}

/// The bit of the shift key among the modifiers of a key.
pub const SHIFT: u8 = 1;

/// The bit of the control key among the modifiers of a key.
pub const CONTROL: u8 = 2;

/// How many lines one notch of the wheel moves.
pub const MOUSE_SCROLL_LINES: u16 = 3;

/// The line below the conversation while a turn goes on.
pub const RUNNING_LINE: &'static str = " status: running | PgUp/滚轮 scroll | Esc cancel | Ctrl+Q quit";

/// The line below the conversation between turns.
pub const IDLE_LINE: &'static str = " status: idle | PgUp/滚轮 scroll | Ctrl+Q quit";

/// A key.
#[derive(Debug, Clone, Copy, PartialEq, Eq, Structural)]
pub enum KeyCode {
    Char(char),
    Enter,
    Esc,
    PageUp,
    PageDown,
    Up,
    Down,
    Other,
}

/// A key that was pressed, with the keys that were held down with it.
#[derive(Debug, Clone, Copy, PartialEq, Eq, Structural)]
pub struct Key {
    pub code: KeyCode,
    pub modifiers: u8,
}

/// What the mouse did, as far as it matters.
#[derive(Debug, Clone, Copy, PartialEq, Eq, Structural)]
pub enum Mouse {
    ScrollUp,
    ScrollDown,
    /// The left button went down.
    Down,
    /// The mouse moved with the left button down.
    Drag,
    /// The left button went up.
    Up,
    Other,
}

/// What the screen thread is told.
#[derive(Debug)]
pub enum ThreadMsg {
    /// A key, with whether it went down and the text that stands in the prompt.
    Key { key: Key, press: bool, prompt: String },
    Mouse { mouse: Mouse, column: u16, row: u16 },
    Ui(UiCmd),
    /// The front end is being taken down.
    Cancel,
    /// Nothing came for a while.
    Timeout,
    /// Nobody is left to tell anything.
    Disconnected,
}

/// What is to be done next.
#[derive(Debug)]
pub enum Todo {
    Nothing,
    /// Leave.
    Quit,
    /// Cancel the turn.
    Cancel,
    /// Clear the prompt and begin a turn with this text.
    Submit(String),
    PageUp,
    PageDown,
    ScrollUp(u16),
    ScrollDown(u16),
    /// Hand the key to the prompt.
    Edit,
    /// Put what is marked into the clipboard.
    Copy,
}

#[verifier::ext_equal]
pub enum TodoView {
    Nothing,
    Quit,
    Cancel,
    Submit(Seq<char>),
    PageUp,
    PageDown,
    ScrollUp(u16),
    ScrollDown(u16),
    Edit,
    Copy,
}

impl View for Todo {
    type V = TodoView;

    open spec fn view(&self) -> TodoView {
        match *self {
            Todo::Nothing => TodoView::Nothing,
            Todo::Quit => TodoView::Quit,
            Todo::Cancel => TodoView::Cancel,
            Todo::Submit(t) => TodoView::Submit(t@),
            Todo::PageUp => TodoView::PageUp,
            Todo::PageDown => TodoView::PageDown,
            Todo::ScrollUp(n) => TodoView::ScrollUp(n),
            Todo::ScrollDown(n) => TodoView::ScrollDown(n),
            Todo::Edit => TodoView::Edit,
            Todo::Copy => TodoView::Copy,
        }
    }
}

/// What a key asks for.
pub open spec fn key_todo(running: bool, key: Key, prompt: Seq<char>) -> TodoView {
    let control = key.modifiers == CONTROL;
    match key.code {
        KeyCode::Char('q') if control => TodoView::Quit,
        KeyCode::Char('c') if control => if running {
            TodoView::Cancel
        } else {
            TodoView::Quit
        },
        KeyCode::Esc => TodoView::Cancel,
        KeyCode::Enter if key.modifiers == 0 => if !running && trimmed(prompt).len() > 0 {
            TodoView::Submit(trimmed(prompt))
        } else {
            TodoView::Nothing
        },
        KeyCode::PageUp => TodoView::PageUp,
        KeyCode::PageDown => TodoView::PageDown,
        KeyCode::Up if key.modifiers == SHIFT => TodoView::ScrollUp(3),
        KeyCode::Down if key.modifiers == SHIFT => TodoView::ScrollDown(3),
        _ => TodoView::Edit,
    }
}

/// What is shown once the user has sent a text.
pub open spec fn submitted(a: AppView, text: Seq<char>) -> AppView {
    AppView {
        entries: a.entries.push(
            Entry { id: (a.blocks + 1) as u64, shown: Shown::User(text), running: false },
        ),
        blocks: (a.blocks + 1) as u64,
        running: true,
        ..a
    }
}

/// What a key makes of the screen.
pub open spec fn keyed(a: AppView, key: Key, prompt: Seq<char>) -> AppView {
    let b = AppView { selection: None, ..a };
    match key_todo(a.running, key, prompt) {
        TodoView::Submit(text) => submitted(b, text),
        _ => b,
    }
}

/// What the mouse asks for.
pub open spec fn mouse_todo(a: AppView, m: Mouse) -> TodoView {
    match m {
        Mouse::ScrollUp => TodoView::ScrollUp(MOUSE_SCROLL_LINES),
        Mouse::ScrollDown => TodoView::ScrollDown(MOUSE_SCROLL_LINES),
        Mouse::Up => match a.selection {
            Some(sel) if sel.start != sel.end => TodoView::Copy,
            _ => TodoView::Nothing,
        },
        _ => TodoView::Nothing,
    }
}

/// What the mouse makes of the selection: pressed within the conversation it
/// begins one, dragged it moves its end, released where it was pressed it
/// drops it.
pub open spec fn moused(a: AppView, m: Mouse, p: (u16, u16)) -> Option<Selection> {
    match m {
        Mouse::ScrollUp | Mouse::ScrollDown => None,
        Mouse::Down => if is_in(a.conv_area, p) {
            Some(Selection { start: p, end: p })
        } else {
            None
        },
        Mouse::Drag => match a.selection {
            Some(sel) if is_in(a.conv_area, p) => Some(Selection { end: p, ..sel }),
            _ => a.selection,
        },
        Mouse::Up => match a.selection {
            Some(sel) if sel.start != sel.end => a.selection,
            _ => None,
        },
        Mouse::Other => a.selection,
    }
}

impl App {
    pub open spec fn view(&self) -> AppView {
        AppView {
            entries: entries(self.scrollback),
            blocks: self.blocks,
            active: self.active,
            running: self.running,
            selection: self.selection,
            conv_area: self.conv_area,
        }
    }

    /// The blocks are counted, and their ids grow.
    pub open spec fn wf(&self) -> bool {
        next_id(self.scrollback) == self.blocks + 1 && valid(self@)
    }

    /// One more block can be counted.
    pub open spec fn spec_has_room(&self) -> bool {
        self.blocks < u64::MAX - 1
    }

    /// One more block can be counted.
    #[verifier::when_used_as_spec(spec_has_room)]
    pub fn has_room(&self) -> (r: bool)
        ensures
            r == self.spec_has_room(),
    {
        self.blocks < u64::MAX - 1
    }

    /// The screen at the beginning, with these lines above the conversation.
    pub fn new(intro: &Vec<String>) -> (r: Self)
        requires
            intro@.len() < u64::MAX - 1,
        ensures
            r.wf(),
            r@ == (AppView {
                entries: introduced(texts(intro@)),
                blocks: intro@.len() as u64,
                active: none_active(),
                running: false,
                selection: None,
                conv_area: (Rect { x: 0, y: 0, width: 0, height: 0 }),
            }),
    {
        let mut s = new_scrollback();
        let ghost all = introduced(texts(intro@));
        let mut i: usize = 0;
        assert(all.take(0) =~= Seq::empty());
        while i < intro.len()
            invariant
                i <= intro@.len() < u64::MAX - 1,
                all == introduced(texts(intro@)),
                next_id(s) == i + 1,
                entries(s) == all.take(i as int),
            decreases intro@.len() - i,
        {
            push_block(&mut s, Block::System(intro[i].clone()));
            assert(all.take(i + 1) =~= all.take(i as int).push(all[i as int]));
            i = i + 1;
        }
        assert(all.take(i as int) =~= all);
        assert(ordered(all, i as u64));
        App {
            scrollback: s,
            active: Active::default(),
            running: false,
            selection: None,
            conv_area: Rect { x: 0, y: 0, width: 0, height: 0 },
            blocks: i as u64,
        }
    }

    fn push(&mut self, block: Block) -> (id: u64)
        requires
            old(self).wf(),
            old(self).spec_has_room(),
        ensures
            final(self).wf(),
            id == old(self).blocks + 1,
            final(self)@ == (AppView {
                entries: old(self)@.entries.push(
                    Entry { id, shown: scrollback::block_shown(block), running: false },
                ),
                blocks: id,
                ..old(self)@
            }),
    {
        let ghost before = entries(self.scrollback);
        let id = push_block(&mut self.scrollback, block);
        self.blocks = id;
        proof {
            let after = entries(self.scrollback);
            assert forall|i: int, j: int| 0 <= i < j < after.len() implies (#[trigger] after[i]).id
                < (#[trigger] after[j]).id by {
                assert(after[i] == before[i]);
                if j < before.len() {
                    assert(after[j] == before[j]);
                }
            }
        }
        id
    }

    /// Shows the text that the user has sent; a turn begins.
    pub fn submit(&mut self, text: &str)
        requires
            old(self).wf(),
            old(self).has_room(),
        ensures
            final(self).wf(),
            final(self)@ == submitted(old(self)@, text@),
    {
        self.push(Block::User(text.to_owned()));
        self.running = true;
    }

    /// Opens a block that runs.
    fn open(&mut self, block: Block) -> (id: u64)
        requires
            old(self).wf(),
            old(self).spec_has_room(),
        ensures
            final(self).wf(),
            id == old(self).blocks + 1,
            final(self)@.blocks == id,
            final(self)@ == (AppView {
                entries: final(self)@.entries,
                blocks: id,
                ..old(self)@
            }),
            final(self)@.entries.len() == old(self)@.entries.len() + 1,
            final(self)@.entries.drop_last() == old(self)@.entries,
            changed(
                Change::Running(true),
                Entry { id, shown: scrollback::block_shown(block), running: false },
                final(self)@.entries.last(),
            ),
    {
        let ghost before = entries(self.scrollback);
        let id = self.push(block);
        let ghost mid = entries(self.scrollback);
        set_entry_running(&mut self.scrollback, id, true);
        proof {
            let after = entries(self.scrollback);
            assert forall|i: int| 0 <= i < before.len() implies #[trigger] after[i] == before[i] by {
                assert(mid[i] == before[i]);
            }
            assert(after.drop_last() =~= before);
            assert(mid[before.len() as int].id == id);
            lemma_same_ids(mid, after, self.blocks);
        }
        id
    }

    fn write(&mut self, delta: &str, is_text: bool)
        requires
            old(self).wf(),
            old(self).spec_has_room(),
        ensures
            final(self).wf(),
            final(self)@.conv_area == old(self)@.conv_area,
            final(self)@.selection == old(self)@.selection,
            follows(
                old(self)@,
                if is_text {
                    CmdView::TextDelta(delta@)
                } else {
                    CmdView::ReasoningDelta(delta@)
                },
                (AppView { selection: None, ..final(self)@ }),
            ),
    {
        let ghost before = entries(self.scrollback);
        let to = if is_text {
            self.active.agent
        } else {
            self.active.thinking
        };
        let id = match to {
            Some(id) => id,
            None => {
                let id = self.open(
                    if is_text {
                        Block::Agent
                    } else {
                        Block::Thinking
                    },
                );
                if is_text {
                    self.active.agent = Some(id);
                } else {
                    self.active.thinking = Some(id);
                }
                id
            },
        };
        let ghost mid = entries(self.scrollback);
        if is_text {
            push_chunk_to_agent(&mut self.scrollback, id, delta);
        } else {
            push_chunk_to_thinking(&mut self.scrollback, id, delta);
        }
        proof {
            let after = entries(self.scrollback);
            lemma_same_ids(mid, after, self.blocks);
            if to is None {
                assert forall|i: int| 0 <= i < before.len() implies #[trigger] after[i]
                    == before[i] by {
                    assert(mid.drop_last()[i] == before[i]);
                    assert(mid[i] == before[i]);
                }
                assert(after.drop_last() =~= before);
                assert(mid.last() == mid[before.len() as int]);
                assert(after.last() == after[before.len() as int]);
            }
        }
    }

    /// Ends all entries that are being written to.
    fn close(&mut self)
        requires
            old(self).wf(),
        ensures
            final(self).wf(),
            final(self)@ == (AppView {
                entries: final(self)@.entries,
                active: none_active(),
                ..old(self)@
            }),
            closed(old(self)@.entries, final(self)@.entries, old(self)@.active),
    {
        let ghost before = entries(self.scrollback);
        self.active.close_all(&mut self.scrollback);
        proof {
            lemma_same_ids(before, entries(self.scrollback), self.blocks);
        }
    }

    /// Shows what a command asks for.
    pub fn on_ui_cmd(&mut self, cmd: UiCmd)
        requires
            old(self).wf(),
            old(self).has_room(),
        ensures
            final(self).wf(),
            follows(old(self)@, cmd@, final(self)@),
    {
        // What is marked does not stand where it stood.
        self.selection = None;
        match cmd {
            UiCmd::ReasoningDelta(delta) => {
                self.write(delta.as_str(), false);
            },
            UiCmd::TextDelta(delta) => {
                self.write(delta.as_str(), true);
            },
            UiCmd::ToolCall { name, args } => {
                self.close();
                let id = self.open(Block::Tool { name, summary: args });
                self.active.tool = Some(id);
            },
            UiCmd::ToolResult { name, ok, output } => {
                if let Some(id) = self.active.tool {
                    self.finish_tool(id, name, ok, output);
                    self.active.tool = None;
                }
            },
            UiCmd::TurnEnd { ok, error } => {
                self.close();
                if !ok {
                    self.push(Block::TurnFailed(error));
                }
                self.running = false;
            },
        }
    }

    /// Shows the result of a tool in the entry of its call.
    fn finish_tool(&mut self, id: u64, name: String, ok: bool, output: String)
        requires
            old(self).wf(),
        ensures
            final(self).wf(),
            final(self)@ == (AppView { entries: final(self)@.entries, ..old(self)@ }),
            with_result(old(self)@.entries, final(self)@.entries, id, name@, ok, output@),
    {
        let ghost before = entries(self.scrollback);
        let (summary, started) = match tool_at(&self.scrollback, id) {
            Some((summary, started)) => (summary, started),
            None => (String::new(), None),
        };
        let result = if ok {
            Ok(output)
        } else {
            Err(output)
        };
        let tool = DoneTool { name, summary, result, started };
        let ghost shown = done_shown(tool);
        replace_tool_block(&mut self.scrollback, id, tool);
        let ghost mid = entries(self.scrollback);
        finish_running(&mut self.scrollback, id);
        proof {
            let after = entries(self.scrollback);
            lemma_same_ids(before, mid, self.blocks);
            lemma_same_ids(mid, after, self.blocks);
            assert forall|i: int|
                #![trigger before[i]]
                #![trigger after[i]]
                0 <= i < before.len() && before[i].id == id implies after[i] == (Entry {
                id,
                shown,
                running: false,
            }) && shown_at(before, id) == Some(before[i].shown) by {
                lemma_place(before, self.blocks, i);
                assert(mid[i].id == id);
            }
        }
    }

    /// The line below the conversation.
    pub fn status_line(&self) -> (r: String)
        ensures
            r@ == if self.running {
                RUNNING_LINE@
            } else {
                IDLE_LINE@
            },
    {
        if self.running {
            RUNNING_LINE.to_owned()
        } else {
            IDLE_LINE.to_owned()
        }
    }

    /// Takes a key, while this text stands in the prompt.
    pub fn handle_key(&mut self, key: Key, prompt: &str) -> (r: Todo)
        requires
            old(self).wf(),
            old(self).has_room(),
        ensures
            final(self).wf(),
            final(self)@ == keyed(old(self)@, key, prompt@),
            r@ == key_todo(old(self)@.running, key, prompt@),
    {
        self.selection = None;
        match key.code {
            KeyCode::Char(c) => {
                if key.modifiers != CONTROL || (c != 'q' && c != 'c') {
                    return Todo::Edit;
                }
                if c == 'c' && self.running {
                    return Todo::Cancel;
                }
                Todo::Quit
            },
            KeyCode::Esc => Todo::Cancel,
            KeyCode::Enter => {
                if key.modifiers != 0 {
                    return Todo::Edit;
                }
                if !self.running {
                    let text = trim(prompt);
                    if !text.as_str().is_empty() {
                        self.submit(text.as_str());
                        return Todo::Submit(text);
                    }
                }
                Todo::Nothing
            },
            KeyCode::PageUp => Todo::PageUp,
            KeyCode::PageDown => Todo::PageDown,
            KeyCode::Up => if key.modifiers == SHIFT {
                Todo::ScrollUp(3)
            } else {
                Todo::Edit
            },
            KeyCode::Down => if key.modifiers == SHIFT {
                Todo::ScrollDown(3)
            } else {
                Todo::Edit
            },
            KeyCode::Other => Todo::Edit,
        }
    }

    /// Takes what the mouse did at this point.
    pub fn handle_mouse(&mut self, mouse: Mouse, column: u16, row: u16) -> (r: Todo)
        ensures
            old(self).wf() ==> final(self).wf(),
            final(self)@ == (AppView {
                selection: moused(old(self)@, mouse, (column, row)),
                ..old(self)@
            }),
            r@ == mouse_todo(old(self)@, mouse),
    {
        match mouse {
            Mouse::ScrollUp => {
                self.selection = None;
                Todo::ScrollUp(MOUSE_SCROLL_LINES)
            },
            Mouse::ScrollDown => {
                self.selection = None;
                Todo::ScrollDown(MOUSE_SCROLL_LINES)
            },
            Mouse::Down => {
                self.selection = match conv_point((column, row), self.conv_area) {
                    Some(p) => Some(Selection { start: p, end: p }),
                    None => None,
                };
                Todo::Nothing
            },
            Mouse::Drag => {
                if let Some(sel) = self.selection {
                    if let Some(p) = conv_point((column, row), self.conv_area) {
                        self.selection = Some(Selection { start: sel.start, end: p });
                    }
                }
                Todo::Nothing
            },
            Mouse::Up => {
                if let Some(sel) = self.selection {
                    if sel.start.0 != sel.end.0 || sel.start.1 != sel.end.1 {
                        return Todo::Copy;
                    }
                }
                self.selection = None;
                Todo::Nothing
            },
            Mouse::Other => Todo::Nothing,
        }
    }

    /// What a terminal is sent to put what is marked on this picture of the
    /// screen into the clipboard, where there is any text in it.
    pub fn copied(&self, screen: &Buffer) -> (r: Option<String>)
        ensures
            text_opt(r) == match self@.selection {
                Some(sel) if has_columns(sel, self@.conv_area) => match gathered(
                    row_texts(cells(*screen), marked_rows(sel, self@.conv_area)),
                ) {
                    Some(text) => Some(clipboard_text(text)),
                    None => None,
                },
                _ => None,
            },
    {
        if let Some(sel) = self.selection {
            if fits(&sel, self.conv_area) {
                if let Some(text) = selection_text(screen, &sel, self.conv_area) {
                    return Some(clipboard_sequence(text.as_str()));
                }
            }
        }
        None
    }

    /// Takes whatever the screen thread is told.
    pub fn on_msg(&mut self, msg: ThreadMsg) -> (r: Todo)
        requires
            old(self).wf(),
            old(self).has_room(),
        ensures
            final(self).wf(),
            match msg {
                ThreadMsg::Key { key, press, prompt } => if press {
                    &&& final(self)@ == keyed(old(self)@, key, prompt@)
                    &&& r@ == key_todo(old(self)@.running, key, prompt@)
                } else {
                    final(self)@ == old(self)@ && r@ == TodoView::Nothing
                },
                ThreadMsg::Mouse { mouse, column, row } => {
                    &&& final(self)@ == (AppView {
                        selection: moused(old(self)@, mouse, (column, row)),
                        ..old(self)@
                    })
                    &&& r@ == mouse_todo(old(self)@, mouse)
                },
                ThreadMsg::Ui(cmd) => {
                    &&& follows(old(self)@, cmd@, final(self)@)
                    &&& r@ == TodoView::Nothing
                },
                ThreadMsg::Cancel | ThreadMsg::Disconnected => {
                    final(self)@ == old(self)@ && r@ == TodoView::Quit
                },
                ThreadMsg::Timeout => final(self)@ == old(self)@ && r@ == TodoView::Nothing,
            },
    {
        match msg {
            ThreadMsg::Key { key, press, prompt } => if press {
                self.handle_key(key, prompt.as_str())
            } else {
                Todo::Nothing
            },
            ThreadMsg::Mouse { mouse, column, row } => self.handle_mouse(mouse, column, row),
            ThreadMsg::Ui(cmd) => {
                self.on_ui_cmd(cmd);
                Todo::Nothing
            },
            ThreadMsg::Cancel | ThreadMsg::Disconnected => Todo::Quit,
            ThreadMsg::Timeout => Todo::Nothing,
        }
    }
}

// ── laws ────────────────────────────────────────────────────────────

/// `states` may come one after another by these commands.
pub open spec fn runs(states: Seq<AppView>, cmds: Seq<CmdView>) -> bool {
    &&& states.len() == cmds.len() + 1
    &&& forall|i: int|
        0 <= i < cmds.len() ==> follows(states[i], #[trigger] cmds[i], states[i + 1])
}

/// The pieces of text in these commands, or those of reasoning, in order.
pub open spec fn pieces(cmds: Seq<CmdView>, is_text: bool) -> Seq<Seq<char>>
    decreases cmds.len(),
{
    if cmds.len() == 0 {
        Seq::empty()
    } else {
        let before = pieces(cmds.drop_last(), is_text);
        match cmds.last() {
            CmdView::TextDelta(d) if is_text => before.push(d),
            CmdView::ReasoningDelta(d) if !is_text => before.push(d),
            _ => before,
        }
    }
}

/// The pieces put together.
pub open spec fn joined(v: Seq<Seq<char>>) -> Seq<char>
    decreases v.len(),
{
    if v.len() == 0 {
        Seq::empty()
    } else {
        joined(v.drop_last()) + v.last()
    }
}

/// The flow may be what became of these pieces, one after another.
pub open spec fn poured(v: Seq<Seq<char>>, f: Flow) -> bool
    decreases v.len(),
{
    if v.len() == 0 {
        f == no_flow()
    } else {
        exists|g: Flow| poured(v.drop_last(), g) && #[trigger] flows(g, v.last(), f)
    }
}

/// The command goes on with what is being shown: a piece of text or reasoning,
/// or the result of a tool.
pub open spec fn goes_on(c: CmdView) -> bool {
    match c {
        CmdView::TextDelta(_) | CmdView::ReasoningDelta(_) => true,
        CmdView::ToolResult { .. } => true,
        _ => false,
    }
}

/// The entry that text goes to, or the one that reasoning goes to.
pub open spec fn cursor(a: Active, is_text: bool) -> Option<u64> {
    if is_text {
        a.agent
    } else {
        a.thinking
    }
}

/// The text that is shown, or the reasoning.
pub open spec fn flow_in(shown: Shown, is_text: bool) -> Option<Flow> {
    match shown {
        Shown::Agent(f) if is_text => Some(f),
        Shown::Thinking(f) if !is_text => Some(f),
        _ => None,
    }
}

/// Of the entries from place `from` on, the one at `p` alone shows text, or
/// reasoning, and what it shows became of these pieces.
pub open spec fn is_whole(
    es: Seq<Entry>,
    from: int,
    p: int,
    v: Seq<Seq<char>>,
    is_text: bool,
) -> bool {
    &&& from <= p < es.len()
    &&& flow_in(es[p].shown, is_text) is Some
    &&& poured(v, flow_in(es[p].shown, is_text)->0)
    &&& forall|q: int|
        from <= q < es.len() && q != p ==> flow_in((#[trigger] es[q]).shown, is_text) is None
}

/// From place `from` on, exactly one entry shows text, or reasoning, and it
/// shows what became of all these pieces; none does where there are no pieces.
pub open spec fn one_whole(es: Seq<Entry>, from: int, v: Seq<Seq<char>>, is_text: bool) -> bool {
    if v.len() == 0 {
        forall|q: int| from <= q < es.len() ==> flow_in((#[trigger] es[q]).shown, is_text) is None
    } else {
        exists|p: int| #[trigger] is_whole(es, from, p, v, is_text)
    }
}

/// What `a` showed stands where it stood in `b`, but for the entries that were
/// being written to.
pub open spec fn stays(a: AppView, b: AppView) -> bool {
    forall|i: int|
        0 <= i < a.entries.len() && !is_active(a.active, (#[trigger] a.entries[i]).id)
            ==> b.entries[i] == a.entries[i]
}

/// Whether an entry was opened where there was none to write to.
pub open spec fn opened(a: Option<u64>, b: Option<u64>) -> int {
    if a is None && b is Some {
        1
    } else {
        0
    }
}

/// The entry is one that `a` wrote to, or none of those that it had.
pub open spec fn is_later(blocks: u64, a: Option<u64>, b: Option<u64>) -> bool {
    match b {
        Some(id) => id > blocks || a == b,
        None => a is None,
    }
}

/// What holds of the screen behind `a` while it only goes on: the entries of
/// `a` stand first, and no entry came but those that text and reasoning go to.
pub open spec fn goes_on_from(a: AppView, b: AppView) -> bool {
    &&& valid(b)
    &&& b.blocks == a.blocks + opened(a.active.agent, b.active.agent) + opened(
        a.active.thinking,
        b.active.thinking,
    )
    &&& b.entries.len() == a.entries.len() + opened(a.active.agent, b.active.agent) + opened(
        a.active.thinking,
        b.active.thinking,
    )
    &&& is_later(a.blocks, a.active.agent, b.active.agent)
    &&& is_later(a.blocks, a.active.thinking, b.active.thinking)
    &&& b.active.tool is None || b.active.tool == a.active.tool
    &&& forall|i: int|
        a.entries.len() <= i < b.entries.len() ==> (#[trigger] b.entries[i]).id > a.blocks
    &&& stays(a, b)
}

/// One command more.
proof fn lemma_goes_on(first: AppView, a: AppView, cmd: CmdView, b: AppView)
    requires
        valid(first),
        goes_on_from(first, a),
        a.blocks < u64::MAX,
        goes_on(cmd),
        follows(a, cmd, b),
    ensures
        goes_on_from(first, b),
        b.entries.len() >= a.entries.len(),
        forall|i: int| 0 <= i < a.entries.len() ==> (#[trigger] b.entries[i]).id == a.entries[i].id,
{
    let n = a.entries.len() as int;
    let from = first.entries.len() as int;
    let grown = match cmd {
        CmdView::TextDelta(_) => a.active.agent is None,
        CmdView::ReasoningDelta(_) => a.active.thinking is None,
        _ => false,
    };
    assert forall|i: int| 0 <= i < n implies (#[trigger] b.entries[i]).id == a.entries[i].id by {
        if grown {
            assert(b.entries.drop_last()[i] == a.entries[i]);
        }
    }
    if grown {
        assert(b.entries[n] == b.entries.last());
        assert forall|i: int, j: int| 0 <= i < j < b.entries.len() implies (
        #[trigger] b.entries[i]).id < (#[trigger] b.entries[j]).id by {
            assert(a.entries[i].id <= a.blocks);
            if j < n {
                assert(a.entries[i].id < a.entries[j].id);
            }
        }
    } else {
        lemma_same_ids(a.entries, b.entries, a.blocks);
    }
    assert forall|i: int|
        0 <= i < from && !is_active(first.active, (#[trigger] first.entries[i]).id) implies
        b.entries[i] == first.entries[i] by {
        assert(a.entries[i] == first.entries[i]);
        assert(first.entries[i].id <= first.blocks);
        if grown {
            assert(b.entries.drop_last()[i] == a.entries[i]);
        }
    }
}

proof fn lemma_poured(v: Seq<Seq<char>>, f: Flow, piece: Seq<char>, g: Flow)
    requires
        poured(v, f),
        flows(f, piece, g),
    ensures
        poured(v.push(piece), g),
{
    let longer = v.push(piece);
    assert(longer.drop_last() =~= v);
    assert(longer.last() == piece);
    assert(poured(longer.drop_last(), f) && flows(f, longer.last(), g));
}

/// From place `from` on the pieces are shown whole, by the entry that further
/// ones go to.
pub open spec fn is_at_work(v: AppView, from: int, p: Seq<Seq<char>>, is_text: bool) -> bool {
    &&& one_whole(v.entries, from, p, is_text)
    &&& match cursor(v.active, is_text) {
        None => p.len() == 0,
        Some(id) => p.len() > 0 && exists|i: int| #[trigger]
            is_whole(v.entries, from, i, p, is_text) && v.entries[i].id == id,
    }
}

/// One piece more.
proof fn lemma_piece(
    a: AppView,
    piece: Seq<char>,
    b: AppView,
    from: int,
    v: Seq<Seq<char>>,
    is_text: bool,
)
    requires
        valid(a),
        0 <= from <= a.entries.len(),
        a.blocks < u64::MAX,
        is_at_work(a, from, v, is_text),
        follows(
            a,
            if is_text {
                CmdView::TextDelta(piece)
            } else {
                CmdView::ReasoningDelta(piece)
            },
            b,
        ),
    ensures
        is_at_work(b, from, v.push(piece), is_text),
{
    let n = a.entries.len() as int;
    let after = v.push(piece);
    match cursor(a.active, is_text) {
        None => {
            assert(b.entries[n] == b.entries.last());
            assert forall|q: int| from <= q < n implies flow_in(
                (#[trigger] b.entries[q]).shown,
                is_text,
            ) is None by {
                assert(b.entries.drop_last()[q] == a.entries[q]);
            }
            let f = flow_in(b.entries[n].shown, is_text)->0;
            assert(v =~= Seq::empty());
            lemma_poured(v, no_flow(), piece, f);
            assert(is_whole(b.entries, from, n, after, is_text));
        },
        Some(id) => {
            let p = choose|p: int| #[trigger]
                is_whole(a.entries, from, p, v, is_text) && a.entries[p].id == id;
            let f = flow_in(a.entries[p].shown, is_text)->0;
            let g = flow_in(b.entries[p].shown, is_text)->0;
            lemma_poured(v, f, piece, g);
            assert forall|q: int| from <= q < b.entries.len() && q != p implies flow_in(
                (#[trigger] b.entries[q]).shown,
                is_text,
            ) is None by {
                assert(a.entries[q].id != id);
            }
            assert(is_whole(b.entries, from, p, after, is_text));
        },
    }
}

/// A command that brings no piece of this kind.
proof fn lemma_no_piece(
    first: AppView,
    a: AppView,
    cmd: CmdView,
    b: AppView,
    v: Seq<Seq<char>>,
    is_text: bool,
)
    requires
        valid(first),
        goes_on_from(first, a),
        a.blocks < u64::MAX,
        is_at_work(a, first.entries.len() as int, v, is_text),
        goes_on(cmd),
        is_text ==> !(cmd is TextDelta),
        !is_text ==> !(cmd is ReasoningDelta),
        follows(a, cmd, b),
    ensures
        is_at_work(b, first.entries.len() as int, v, is_text),
{
    let n = a.entries.len() as int;
    let from = first.entries.len() as int;
    lemma_goes_on(first, a, cmd, b);
    assert forall|q: int| from <= q < n implies flow_in((#[trigger] b.entries[q]).shown, is_text)
        == flow_in(a.entries[q].shown, is_text) by {
        assert(a.entries[q].id > first.blocks);
        if b.entries.len() > n {
            assert(b.entries.drop_last()[q] == a.entries[q]);
        }
    }
    if b.entries.len() > n {
        assert(b.entries[n] == b.entries.last());
    }
    if let Some(id) = cursor(a.active, is_text) {
        let p = choose|p: int| #[trigger]
            is_whole(a.entries, from, p, v, is_text) && a.entries[p].id == id;
        assert forall|q: int| from <= q < b.entries.len() && q != p implies flow_in(
            (#[trigger] b.entries[q]).shown,
            is_text,
        ) is None by {
            if q < n {
                assert(flow_in(a.entries[q].shown, is_text) is None);
            }
        }
        assert(is_whole(b.entries, from, p, v, is_text));
    } else {
        assert forall|q: int| from <= q < b.entries.len() implies flow_in(
            (#[trigger] b.entries[q]).shown,
            is_text,
        ) is None by {
            if q < n {
                assert(flow_in(a.entries[q].shown, is_text) is None);
            }
        }
    }
}

proof fn lemma_interleaved(states: Seq<AppView>, cmds: Seq<CmdView>, is_text: bool)
    requires
        runs(states, cmds),
        valid(states[0]),
        cursor(states[0].active, is_text) is None,
        states[0].blocks + cmds.len() < u64::MAX,
        forall|i: int| 0 <= i < cmds.len() ==> goes_on(#[trigger] cmds[i]),
    ensures
        goes_on_from(states[0], states.last()),
        states.last().blocks <= states[0].blocks + cmds.len(),
        is_at_work(
            states.last(),
            states[0].entries.len() as int,
            pieces(cmds, is_text),
            is_text,
        ),
    decreases cmds.len(),
{
    let first = states[0];
    if cmds.len() > 0 {
        let ss = states.drop_last();
        let cs = cmds.drop_last();
        assert forall|i: int| 0 <= i < cs.len() implies follows(
            ss[i],
            #[trigger] cs[i],
            ss[i + 1],
        ) by {
            assert(cmds[i] == cs[i]);
        }
        assert forall|i: int| 0 <= i < cs.len() implies goes_on(#[trigger] cs[i]) by {
            assert(cmds[i] == cs[i]);
        }
        lemma_interleaved(ss, cs, is_text);
        let a = ss.last();
        let cmd = cmds[cs.len() as int];
        let b = states.last();
        let from = first.entries.len() as int;
        let before = pieces(cs, is_text);
        assert(goes_on(cmd));
        assert(follows(a, cmd, b));
        lemma_goes_on(first, a, cmd, b);
        match cmd {
            CmdView::TextDelta(d) if is_text => lemma_piece(a, d, b, from, before, is_text),
            CmdView::ReasoningDelta(d) if !is_text => lemma_piece(a, d, b, from, before, is_text),
            _ => lemma_no_piece(first, a, cmd, b, before, is_text),
        }
    }
}

/// However text, reasoning and results of tools are interleaved, text stays
/// whole, and so does reasoning: what was shown before and was not being
/// written to stands where it stood; behind it exactly one entry shows all
/// pieces of the text in order, where any came, and exactly one all pieces of
/// the reasoning. No other entry comes, for a result of a tool none, and
/// nothing stays marked.
pub proof fn law_interleaved_text_stays_whole(
    states: Seq<AppView>,
    cmds: Seq<CmdView>,
    is_text: bool,
)
    requires
        runs(states, cmds),
        valid(states[0]),
        cursor(states[0].active, is_text) is None,
        states[0].blocks + cmds.len() < u64::MAX,
        forall|i: int| 0 <= i < cmds.len() ==> goes_on(#[trigger] cmds[i]),
    ensures
        stays(states[0], states.last()),
        one_whole(
            states.last().entries,
            states[0].entries.len() as int,
            pieces(cmds, is_text),
            is_text,
        ),
        states.last().entries.len() == states[0].entries.len() + opened(
            states[0].active.agent,
            states.last().active.agent,
        ) + opened(states[0].active.thinking, states.last().active.thinking),
        cursor(states.last().active, is_text) is Some <==> pieces(cmds, is_text).len() > 0,
        forall|i: int| 0 < i < states.len() ==> (#[trigger] states[i]).selection is None,
{
    lemma_interleaved(states, cmds, is_text);
    assert forall|i: int| 0 < i < states.len() implies (#[trigger] states[i]).selection is None by {
        assert(follows(states[i - 1], cmds[i - 1], states[i - 1 + 1]));
    }
}

/// Pieces without tabs and marks of formulas are shown word for word, as one
/// text, in code or outside.
pub proof fn law_plain_pieces_are_shown_word_for_word(v: Seq<Seq<char>>, f: Flow)
    requires
        poured(v, f),
        forall|i: int| 0 <= i < v.len() ==> scrollback::is_plain(#[trigger] v[i]),
    ensures
        f.text == joined(v),
        scrollback::is_calm(f.text),
    decreases v.len(),
{
    if v.len() > 0 {
        let front = v.drop_last();
        let g = choose|g: Flow| poured(front, g) && #[trigger] flows(g, v.last(), f);
        assert forall|i: int| 0 <= i < front.len() implies scrollback::is_plain(
            #[trigger] front[i],
        ) by {
            assert(scrollback::is_plain(v[i]));
        }
        law_plain_pieces_are_shown_word_for_word(front, g);
        let piece = v[v.len() - 1];
        assert(scrollback::is_plain(piece));
        let width = choose|width: u8| scrollback::pours(
            g,
            #[trigger] scrollback::widened(piece, width),
            f,
        );
        scrollback::lemma_widened(piece, width);
    }
}

/// The result of a tool is shown in the entry of its call, which goes on to
/// show the call, and no entry comes to it.
pub proof fn law_result_joins_its_call(
    a: AppView,
    b: AppView,
    c: AppView,
    name: Seq<char>,
    args: Seq<char>,
    output: Seq<char>,
    ok: bool,
)
    requires
        ordered(a.entries, a.blocks),
        a.blocks < u64::MAX,
        follows(a, CmdView::ToolCall { name, args }, b),
        follows(b, CmdView::ToolResult { name, ok, output }, c),
    ensures
        c.entries.len() == a.entries.len() + 1,
        !c.entries.last().running,
        c.entries.last().shown == (Shown::Tool {
            name,
            summary: args,
            output: if ok {
                Some(output)
            } else {
                None
            },
            error: if ok {
                None
            } else {
                Some(output)
            },
            started: b.entries.last().shown->started,
        }),
{
    let n = a.entries.len() as int;
    assert(b.entries[n] == b.entries.last());
    assert(c.entries[n] == c.entries.last());
}

/// Text, or reasoning, that comes behind a tool call or behind the end of a turn
/// goes to a new entry.
pub proof fn law_text_behind_a_boundary_is_new(
    a: AppView,
    boundary: CmdView,
    b: AppView,
    delta: Seq<char>,
    is_text: bool,
    c: AppView,
)
    requires
        boundary is ToolCall || boundary is TurnEnd,
        follows(a, boundary, b),
        follows(
            b,
            if is_text {
                CmdView::TextDelta(delta)
            } else {
                CmdView::ReasoningDelta(delta)
            },
            c,
        ),
    ensures
        c.entries.len() == b.entries.len() + 1,
        c.entries.drop_last() == b.entries,
        flow_in(c.entries.last().shown, is_text) matches Some(f) && flows(no_flow(), delta, f),
{
}

/// Once a turn has ended, none of the entries that it wrote to runs.
pub proof fn law_ended_turn_is_at_rest(a: AppView, ok: bool, error: Seq<char>, b: AppView)
    requires
        follows(a, CmdView::TurnEnd { ok, error }, b),
    ensures
        !b.running,
        b.active == none_active(),
        forall|i: int|
            0 <= i < a.entries.len() && is_active(a.active, (#[trigger] a.entries[i]).id)
                ==> b.entries[i].id == a.entries[i].id && !b.entries[i].running,
{
    assert forall|i: int|
        0 <= i < a.entries.len() && is_active(a.active, (#[trigger] a.entries[i]).id) implies
        b.entries[i].id == a.entries[i].id && !b.entries[i].running by {
        if !ok {
            assert(b.entries.drop_last()[i] == b.entries[i]);
        }
    }
}

// ── laws of keys and mouse ──────────────────────────────────────────

/// What a key asks for: to leave, to cancel the turn, to send what stands in
/// the prompt, or to move; any other key is for the prompt. A turn that goes on
/// is not disturbed by sending, and a blank prompt sends nothing.
pub proof fn law_keys(running: bool, key: Key, prompt: Seq<char>)
    ensures
        ({
            let todo = key_todo(running, key, prompt);
            let control = key.modifiers == 2;
            &&& key.code == KeyCode::Char('q') && control ==> todo is Quit
            &&& key.code == KeyCode::Char('c') && control && running ==> todo is Cancel
            &&& key.code == KeyCode::Char('c') && control && !running ==> todo is Quit
            &&& key.code is Esc ==> todo is Cancel
            &&& key.code is PageUp ==> todo is PageUp
            &&& key.code is PageDown ==> todo is PageDown
            &&& key.code is Up && key.modifiers == 1 ==> todo == TodoView::ScrollUp(3)
            &&& key.code is Down && key.modifiers == 1 ==> todo == TodoView::ScrollDown(3)
            &&& key.code is Enter && key.modifiers == 0 && running ==> todo is Nothing
            &&& key.code is Enter && key.modifiers == 0 && trimmed(prompt).len() == 0 ==> todo
                is Nothing
            &&& key.code is Enter && key.modifiers == 0 && !running && trimmed(prompt).len() > 0
                ==> todo == TodoView::Submit(trimmed(prompt))
            &&& key.code is Enter && key.modifiers != 0 ==> todo is Edit
            &&& key.code is Char && !control ==> todo is Edit
            &&& (key.code is Up || key.code is Down) && key.modifiers != 1 ==> todo is Edit
            &&& key.code is Other ==> todo is Edit
        }),
{
}

/// A text that was sent is shown last, as the user's, and a turn goes on from
/// then; all that was shown before stays.
pub proof fn law_sent_text_is_shown(a: AppView, text: Seq<char>)
    requires
        a.blocks < u64::MAX,
    ensures
        ({
            let b = submitted(a, text);
            &&& b.running
            &&& b.entries.len() == a.entries.len() + 1
            &&& b.entries.drop_last() == a.entries
            &&& b.entries.last().shown == Shown::User(text)
            &&& !b.entries.last().running
            &&& b.entries.last().id == a.blocks + 1
            &&& b.blocks == a.blocks + 1
            &&& b.active == a.active
        }),
{
    assert(submitted(a, text).entries.drop_last() =~= a.entries);
}

/// A key drops what is marked, and shows nothing new but a text that it sends.
pub proof fn law_key_drops_the_selection(a: AppView, key: Key, prompt: Seq<char>)
    ensures
        keyed(a, key, prompt).selection is None,
        key_todo(a.running, key, prompt) is Submit <==> keyed(a, key, prompt).entries.len()
            == a.entries.len() + 1,
        !(key_todo(a.running, key, prompt) is Submit) ==> keyed(a, key, prompt) == (AppView {
            selection: None,
            ..a
        }),
        key_todo(a.running, key, prompt) is Submit ==> keyed(a, key, prompt).entries.last().shown
            == Shown::User(trimmed(prompt)) && keyed(a, key, prompt).running,
{
}

/// The mouse marks within the conversation only: pressed there it begins anew,
/// dragged there it moves the end and never the start, released where it was
/// pressed it marks nothing. What is marked when the button goes up is copied;
/// the wheel moves three lines and drops what is marked.
pub proof fn law_mouse_marks(a: AppView, p: (u16, u16), sel: Selection)
    ensures
        moused(a, Mouse::Down, p) == if is_in(a.conv_area, p) {
            Some(Selection { start: p, end: p })
        } else {
            None::<Selection>
        },
        a.selection == Some(sel) && is_in(a.conv_area, p) ==> moused(a, Mouse::Drag, p) == Some(
            Selection { start: sel.start, end: p },
        ),
        !is_in(a.conv_area, p) ==> moused(a, Mouse::Drag, p) == a.selection,
        a.selection is None ==> moused(a, Mouse::Drag, p) is None,
        a.selection == Some(sel) && sel.start == sel.end ==> moused(a, Mouse::Up, p) is None
            && mouse_todo(a, Mouse::Up) is Nothing,
        a.selection == Some(sel) && sel.start != sel.end ==> moused(a, Mouse::Up, p) == Some(sel)
            && mouse_todo(a, Mouse::Up) is Copy,
        a.selection is None ==> mouse_todo(a, Mouse::Up) is Nothing,
        mouse_todo(a, Mouse::ScrollUp) == TodoView::ScrollUp(3),
        mouse_todo(a, Mouse::ScrollDown) == TodoView::ScrollDown(3),
        moused(a, Mouse::ScrollUp, p) is None,
        moused(a, Mouse::ScrollDown, p) is None,
        mouse_todo(a, Mouse::Down) is Nothing,
        mouse_todo(a, Mouse::Drag) is Nothing,
        moused(a, Mouse::Other, p) == a.selection,
{
}

/// Every event of a turn but the count of a step is shown, as what it is and
/// with what it carries.
pub proof fn law_events_are_shown(e: EventView)
    ensures
        event_cmd(e) is None <==> e is Step,
        e is TextDelta ==> event_cmd(e) == Some(CmdView::TextDelta(e->TextDelta_delta)),
        e is Reasoning ==> event_cmd(e) == Some(CmdView::ReasoningDelta(e->Reasoning_delta)),
        e is ToolCall ==> event_cmd(e) == Some(
            CmdView::ToolCall { name: e->ToolCall_name, args: json_text(e->args) },
        ),
        e is ToolResult ==> event_cmd(e) == Some(
            CmdView::ToolResult {
                name: e->ToolResult_name,
                ok: e->ToolResult_ok,
                output: e->output,
            },
        ),
        e is TurnEnd ==> event_cmd(e) == Some(
            CmdView::TurnEnd { ok: e->TurnEnd_ok, error: e->error },
        ),
{
}

/// The lines above a conversation are shown one by one, in their order.
pub proof fn law_intro_is_shown(lines: Seq<Seq<char>>, i: int)
    requires
        0 <= i < lines.len() < u64::MAX,
    ensures
        introduced(lines).len() == lines.len(),
        introduced(lines)[i].shown == Shown::System(lines[i]),
        introduced(lines)[i].id == i + 1,
        !introduced(lines)[i].running,
{
}

/// A turn that failed is shown with its error below everything else; one that
/// went well adds nothing. Either way what was shown before keeps its place.
pub proof fn law_failed_turn_is_shown(a: AppView, ok: bool, error: Seq<char>, b: AppView, i: int)
    requires
        follows(a, CmdView::TurnEnd { ok, error }, b),
        a.blocks < u64::MAX,
        0 <= i < a.entries.len(),
    ensures
        ok ==> b.entries.len() == a.entries.len(),
        !ok ==> b.entries.len() == a.entries.len() + 1 && b.entries.last().shown
            == Shown::TurnFailed(error) && b.entries.last().id == a.blocks + 1,
        !is_active(a.active, a.entries[i].id) ==> b.entries[i] == a.entries[i],
{
    if !ok {
        assert(b.entries[i] == b.entries.drop_last()[i]);
    }
}

/// A call of a tool ends what was being written and is shown last, with its
/// arguments; its result changes its own entry alone.
pub proof fn law_tool_call_is_shown(
    a: AppView,
    name: Seq<char>,
    args: Seq<char>,
    b: AppView,
    i: int,
)
    requires
        follows(a, CmdView::ToolCall { name, args }, b),
        a.blocks < u64::MAX,
        0 <= i < a.entries.len(),
    ensures
        b.entries.len() == a.entries.len() + 1,
        b.entries.last().shown is Tool,
        b.entries.last().shown->name == name,
        b.entries.last().shown->summary == args,
        b.entries.last().running,
        b.active.tool == Some(b.entries.last().id),
        b.active.agent is None,
        b.active.thinking is None,
        !is_active(a.active, a.entries[i].id) ==> b.entries[i] == a.entries[i],
        is_active(a.active, a.entries[i].id) ==> !b.entries[i].running,
{
    assert(b.entries[i] == b.entries.drop_last()[i]);
}

/// A result without a call that runs shows nothing; with one it is shown there
/// and nowhere else.
pub proof fn law_result_changes_one_entry(
    a: AppView,
    name: Seq<char>,
    ok: bool,
    output: Seq<char>,
    b: AppView,
    i: int,
)
    requires
        follows(a, CmdView::ToolResult { name, ok, output }, b),
        0 <= i < a.entries.len(),
    ensures
        a.active.tool is None ==> b.entries == a.entries,
        b.active.tool is None,
        b.entries.len() == a.entries.len(),
        a.active.tool != Some(a.entries[i].id) ==> b.entries[i] == a.entries[i],
        a.active.tool == Some(a.entries[i].id) ==> b.entries[i].shown is Tool
            && !b.entries[i].running && b.entries[i].shown->name == name && (ok
            ==> b.entries[i].shown->output == Some(output) && b.entries[i].shown->error is None) && (
        !ok ==> b.entries[i].shown->error == Some(output) && b.entries[i].shown->output is None),
{
}

} // verus!
