//! The conversation on the screen, held by rutui's scrollback.

use rutui_core::scrollback::block::RenderBlock;
use rutui_core::scrollback::blocks::{
    AgentMessageBlock, OtherToolCallBlock, SessionEvent, SessionEventBlock, SystemMessageBlock,
    ThinkingBlock, ToolCallBlock, UserPromptBlock,
};
use rutui_core::scrollback::{EntryId, ScrollbackState};
use vstd::prelude::*;

verus! {

// ── what the scrollback holds ───────────────────────────────────────

/// rutui's scrollback: the blocks of a conversation in order, each under an
/// id of its own.
#[verifier::external_type_specification]
#[verifier::external_body]
pub struct ExScrollbackState(ScrollbackState);

/// A moment of the machine's clock.
#[verifier::external_type_specification]
#[verifier::external_body]
pub struct ExInstant(std::time::Instant);

/// The code that a text is in.
pub ghost enum Code {
    Outside,
    /// A span within a line, begun by so many marks.
    Span(nat),
    /// A block between fences, begun by so many of this mark.
    Fence(char, nat),
}

/// Text that comes in pieces, and where rutui stands in it.
pub ghost struct Flow {
    /// All that came, as rutui keeps it.
    pub text: Seq<char>,
    /// How much of its end rutui holds back, until it is clear what it begins.
    pub held: nat,
    /// What the part that is not held back ends in.
    pub code: Code,
    /// That part ends with a line.
    pub at_line_start: bool,
}

/// What a block shows.
pub ghost enum Shown {
    System(Seq<char>),
    User(Seq<char>),
    Agent(Flow),
    Thinking(Flow),
    Tool {
        name: Seq<char>,
        summary: Seq<char>,
        output: Option<Seq<char>>,
        error: Option<Seq<char>>,
        started: Option<std::time::Instant>,
    },
    TurnFailed(Seq<char>),
    /// A block of a kind that the agent does not show.
    Other,
}

/// A block, its id, and whether what it shows is still going on.
pub ghost struct Entry {
    pub id: u64,
    pub shown: Shown,
    pub running: bool,
}

/// The entries of a scrollback, in order.
pub uninterp spec fn entries(s: ScrollbackState) -> Seq<Entry>;

/// The id that the next entry gets.
pub uninterp spec fn next_id(s: ScrollbackState) -> u64;

/// There is nothing in it that begins or ends a formula.
pub open spec fn is_calm(text: Seq<char>) -> bool {
    forall|i: int| 0 <= i < text.len() ==> (#[trigger] text[i]) != '\\' && text[i] != '$'
}

/// A piece that rutui keeps as it is where no formula came before: it holds no
/// tab either.
pub open spec fn is_plain(chunk: Seq<char>) -> bool {
    is_calm(chunk) && !chunk.contains('\t')
}

/// The piece with `width` blanks for every tab; with none, tabs stay.
pub open spec fn widened(chunk: Seq<char>, width: u8) -> Seq<char>
    decreases chunk.len(),
{
    if chunk.len() == 0 {
        Seq::empty()
    } else if chunk.last() == '\t' && width > 0 {
        widened(chunk.drop_last(), width) + Seq::new(width as nat, |i: int| ' ')
    } else {
        widened(chunk.drop_last(), width).push(chunk.last())
    }
}

pub proof fn lemma_widened(chunk: Seq<char>, width: u8)
    requires
        !chunk.contains('\t'),
    ensures
        widened(chunk, width) == chunk,
    decreases chunk.len(),
{
    if chunk.len() > 0 {
        let front = chunk.drop_last();
        assert(chunk.contains(chunk[chunk.len() - 1]));
        assert forall|i: int| 0 <= i < front.len() implies front[i] != '\t' by {
            assert(chunk.contains(chunk[i]));
        }
        lemma_widened(front, width);
        assert(front.push(chunk.last()) =~= chunk);
    } else {
        assert(chunk =~= Seq::empty());
    }
}

/// A text that has not begun.
pub open spec fn no_flow() -> Flow {
    Flow { text: Seq::empty(), held: 0, code: Code::Outside, at_line_start: true }
}

/// What rutui makes of a text by one more piece without tabs to widen: the
/// marks of formulas outside of code are rewritten.
pub uninterp spec fn pushed(flow: Flow, piece: Seq<char>) -> Flow;

/// What rutui makes of a text where no further piece comes.
pub uninterp spec fn flushed(flow: Flow) -> Flow;

/// `b` comes of `a` by one more piece without tabs to widen.
pub open spec fn pours(a: Flow, piece: Seq<char>, b: Flow) -> bool {
    &&& b == pushed(a, piece)
    &&& is_calm(a.text) && is_calm(piece) ==> b.text == a.text + piece
}

/// `b` may come of `a` by one more piece. How wide tabs are is a setting of the
/// process.
pub open spec fn flows(a: Flow, chunk: Seq<char>, b: Flow) -> bool {
    exists|width: u8| pours(a, #[trigger] widened(chunk, width), b)
}

/// `b` comes of `a` where no further piece comes.
pub open spec fn settles(a: Flow, b: Flow) -> bool {
    &&& b == flushed(a)
    &&& b.held == 0
    &&& a.held == 0 ==> b == a
    &&& is_calm(a.text) ==> b.text == a.text
}

/// What may happen to an entry.
pub ghost enum Change {
    Running(bool),
    Text(Seq<char>),
    Thought(Seq<char>),
    Finished,
    Replaced(Shown),
}

/// `b` may come of `a` by that change.
pub open spec fn changed(c: Change, a: Entry, b: Entry) -> bool {
    b.id == a.id && match c {
        Change::Running(running) => b.running == running && match a.shown {
            Shown::Tool { name, summary, output, error, started } => {
                let starts = running && !a.running && started is None;
                &&& b.shown is Tool
                &&& b.shown == (Shown::Tool {
                    name,
                    summary,
                    output,
                    error,
                    started: b.shown->started,
                })
                &&& if starts {
                    b.shown->started is Some
                } else {
                    b.shown->started == started
                }
            },
            _ => b.shown == a.shown,
        },
        Change::Text(chunk) => b.running == a.running && match (a.shown, b.shown) {
            (Shown::Agent(x), Shown::Agent(y)) => flows(x, chunk, y),
            (Shown::Agent(_), _) => false,
            _ => b.shown == a.shown,
        },
        Change::Thought(chunk) => b.running == a.running && match (a.shown, b.shown) {
            (Shown::Thinking(x), Shown::Thinking(y)) => flows(x, chunk, y),
            (Shown::Thinking(_), _) => false,
            _ => b.shown == a.shown,
        },
        Change::Finished => !b.running && match (a.shown, b.shown) {
            (Shown::Agent(x), Shown::Agent(y)) => settles(x, y),
            (Shown::Agent(_), _) => false,
            (Shown::Thinking(x), Shown::Thinking(y)) => settles(x, y),
            (Shown::Thinking(_), _) => false,
            _ => b.shown == a.shown,
        },
        Change::Replaced(shown) => b.running == a.running && b.shown == shown,
    }
}

/// `after` may come of `before` by that change of the entry of that id.
pub open spec fn only(before: Seq<Entry>, after: Seq<Entry>, id: u64, c: Change) -> bool {
    &&& after.len() == before.len()
    &&& forall|i: int|
        #![trigger before[i]]
        #![trigger after[i]]
        0 <= i < before.len() ==> if before[i].id == id {
            changed(c, before[i], after[i])
        } else {
            after[i] == before[i]
        }
}

/// The place of the entry of this id, or the number of entries where there is
/// none.
pub open spec fn place_of(es: Seq<Entry>, id: u64) -> int
    decreases es.len(),
{
    if es.len() == 0 || es[0].id == id {
        0
    } else {
        1 + place_of(es.drop_first(), id)
    }
}

/// What the block of this id shows.
pub open spec fn shown_at(es: Seq<Entry>, id: u64) -> Option<Shown> {
    if place_of(es, id) < es.len() {
        Some(es[place_of(es, id)].shown)
    } else {
        None
    }
}

// ── calls into rutui ────────────────────────────────────────────────

/// A block to be shown.
#[derive(Debug)]
pub enum Block {
    System(String),
    User(String),
    Agent,
    Thinking,
    Tool { name: String, summary: String },
    TurnFailed(String),
}

/// What a new block shows.
pub open spec fn block_shown(b: Block) -> Shown {
    match b {
        Block::System(t) => Shown::System(t@),
        Block::User(t) => Shown::User(t@),
        Block::Agent => Shown::Agent(no_flow()),
        Block::Thinking => Shown::Thinking(no_flow()),
        Block::Tool { name, summary } => Shown::Tool {
            name: name@,
            summary: summary@,
            output: None,
            error: None,
            started: None,
        },
        Block::TurnFailed(e) => Shown::TurnFailed(e@),
    }
}

/// Calls `ScrollbackState::new`: there are no entries, and ids begin at one.
#[verifier::external_body]
pub(crate) fn new_scrollback() -> (s: ScrollbackState)
    ensures
        entries(s) == Seq::<Entry>::empty(),
        next_id(s) == 1,
{
    ScrollbackState::new()
}

/// Calls `ScrollbackState::push_block`: the block stands behind the others,
/// under the next id, and is not running.
#[verifier::external_body]
pub(crate) fn push_block(s: &mut ScrollbackState, block: Block) -> (id: u64)
    requires
        next_id(*old(s)) < u64::MAX,
    ensures
        id == next_id(*old(s)),
        next_id(*final(s)) == id + 1,
        entries(*final(s)) == entries(*old(s)).push(
            Entry { id, shown: block_shown(block), running: false },
        ),
{
    let b = match block {
        Block::System(t) => RenderBlock::System(SystemMessageBlock::new(t)),
        Block::User(t) => RenderBlock::UserPrompt(UserPromptBlock::new(t)),
        Block::Agent => RenderBlock::AgentMessage(AgentMessageBlock::streaming()),
        Block::Thinking => RenderBlock::Thinking(ThinkingBlock::streaming()),
        Block::Tool { name, summary } => RenderBlock::ToolCall(ToolCallBlock::Other(OtherToolCallBlock::new(name, summary))),
        Block::TurnFailed(error) => RenderBlock::SessionEvent(SessionEventBlock::new(SessionEvent::TurnFailed { error, elapsed: None })),
    };
    s.push_block(b).value()
}

/// Calls `ScrollbackState::set_entry_running`: the entry runs or not. The
/// clock of a tool that begins to run is started, unless it was before.
#[verifier::external_body]
pub(crate) fn set_entry_running(s: &mut ScrollbackState, id: u64, running: bool)
    ensures
        next_id(*final(s)) == next_id(*old(s)),
        only(entries(*old(s)), entries(*final(s)), id, Change::Running(running)),
{
    s.set_entry_running(EntryId::new(id), running);
}

/// Calls `ScrollbackState::push_chunk_to_agent`: the piece goes to the end of
/// an agent's text; an entry of another kind stays as it is. Tabs are widened
/// first, all to one width. As long as nothing of a formula came, the piece is
/// kept as it is, in code and outside; what else becomes of the text depends on
/// the text, on where rutui stands in it and on the piece alone, and has a name.
#[verifier::external_body]
pub(crate) fn push_chunk_to_agent(s: &mut ScrollbackState, id: u64, chunk: &str)
    ensures
        next_id(*final(s)) == next_id(*old(s)),
        only(entries(*old(s)), entries(*final(s)), id, Change::Text(chunk@)),
        shown_at(entries(*old(s)), id) matches Some(Shown::Agent(f)) ==> exists|width: u8|
            shown_at(entries(*final(s)), id) == Some(
                Shown::Agent(pushed(f, #[trigger] widened(chunk@, width))),
            ),
{
    s.push_chunk_to_agent(EntryId::new(id), chunk);
}

/// Calls `ScrollbackState::push_chunk_to_thinking`: as for an agent's text,
/// with the reasoning of a model.
#[verifier::external_body]
pub(crate) fn push_chunk_to_thinking(s: &mut ScrollbackState, id: u64, chunk: &str)
    ensures
        next_id(*final(s)) == next_id(*old(s)),
        only(entries(*old(s)), entries(*final(s)), id, Change::Thought(chunk@)),
        shown_at(entries(*old(s)), id) matches Some(Shown::Thinking(f)) ==> exists|width: u8|
            shown_at(entries(*final(s)), id) == Some(
                Shown::Thinking(pushed(f, #[trigger] widened(chunk@, width))),
            ),
{
    s.push_chunk_to_thinking(EntryId::new(id), chunk);
}

/// Calls `ScrollbackState::finish_running`: the entry no longer runs, and
/// nothing of its text is held back any more. A text of which nothing was held
/// back is left alone, one without anything of a formula keeps its words; what
/// else becomes of it depends on the text and on where rutui stands in it alone,
/// and has a name.
#[verifier::external_body]
pub(crate) fn finish_running(s: &mut ScrollbackState, id: u64)
    ensures
        next_id(*final(s)) == next_id(*old(s)),
        only(entries(*old(s)), entries(*final(s)), id, Change::Finished),
        shown_at(entries(*old(s)), id) matches Some(Shown::Agent(f)) ==> shown_at(
            entries(*final(s)),
            id,
        ) == Some(Shown::Agent(flushed(f))),
        shown_at(entries(*old(s)), id) matches Some(Shown::Thinking(f)) ==> shown_at(
            entries(*final(s)),
            id,
        ) == Some(Shown::Thinking(flushed(f))),
{
    s.finish_running(EntryId::new(id));
}

/// The summary of a shown tool call, and when it began.
pub open spec fn tool_summary(shown: Option<Shown>) -> Option<
    (Seq<char>, Option<std::time::Instant>),
> {
    match shown {
        Some(Shown::Tool { summary, started, .. }) => Some((summary, started)),
        _ => None,
    }
}

pub open spec fn summary_view(r: Option<(String, Option<std::time::Instant>)>) -> Option<
    (Seq<char>, Option<std::time::Instant>),
> {
    match r {
        Some((summary, started)) => Some((summary@, started)),
        None => None,
    }
}

/// Calls `ScrollbackState::get_by_id`: the summary of the tool call that the
/// entry of this id shows, and when it began.
#[verifier::external_body]
pub(crate) fn tool_at(s: &ScrollbackState, id: u64) -> (r: Option<
    (String, Option<std::time::Instant>),
>)
    ensures
        summary_view(r) == tool_summary(shown_at(entries(*s), id)),
{
    match s.get_by_id(EntryId::new(id)).map(|e| &e.block) {
        Some(RenderBlock::ToolCall(ToolCallBlock::Other(t))) => Some((t.summary.clone(), t.started_at)),
        _ => None,
    }
}

/// A tool call with its result: an output, or an error.
#[derive(Debug)]
pub struct DoneTool {
    pub name: String,
    pub summary: String,
    pub result: Result<String, String>,
    pub started: Option<std::time::Instant>,
}

/// What a tool call with its result shows.
pub open spec fn done_shown(t: DoneTool) -> Shown {
    Shown::Tool {
        name: t.name@,
        summary: t.summary@,
        output: match t.result {
            Ok(o) => Some(o@),
            Err(_) => None,
        },
        error: match t.result {
            Ok(_) => None,
            Err(e) => Some(e@),
        },
        started: t.started,
    }
}

/// Calls `ScrollbackState::replace_tool_block`: the entry shows this tool call
/// in place of what it showed.
#[verifier::external_body]
pub(crate) fn replace_tool_block(s: &mut ScrollbackState, id: u64, tool: DoneTool)
    ensures
        next_id(*final(s)) == next_id(*old(s)),
        only(entries(*old(s)), entries(*final(s)), id, Change::Replaced(done_shown(tool))),
{
    let call = OtherToolCallBlock::new(tool.name, tool.summary);
    let call = match tool.result {
        Ok(output) => call.with_output(output),
        Err(error) => call.with_error(error),
    };
    let block = RenderBlock::ToolCall(ToolCallBlock::Other(call));
    s.replace_tool_block(EntryId::new(id), block, tool.started);
}

} // verus!
