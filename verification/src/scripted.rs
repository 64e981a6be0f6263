//! A model that answers from a script: what it is to say is given beforehand,
//! and what it was asked is kept.

use serde_json::Value;
use vstd::prelude::*;

use crate::json::json_of;
use crate::message::{
    call_views, message_views, text_opt, CallView, MessageView, ModelMessage, ToolCall,
};
use crate::text::{slice_text, texts, to_chars};
use crate::tools::{tool_views, ToolDef, ToolView};

verus! {

/// A call with these parts.
pub fn tool_call(id: String, name: String, input: Value) -> (r: ToolCall)
    ensures
        r@ == (CallView { id: id@, name: name@, input: json_of(input) }),
{
    ToolCall { tool_call_id: id, tool_name: name, input }
}

/// One answer: a text, calls, or both; and the reasoning before them.
#[derive(Debug)]
pub struct LlmResponse {
    pub content: Option<String>,
    pub tool_calls: Vec<ToolCall>,
    pub reasoning: Option<String>,
}

#[verifier::ext_equal]
pub struct ResponseView {
    pub content: Option<Seq<char>>,
    pub tool_calls: Seq<CallView>,
    pub reasoning: Option<Seq<char>>,
}

impl View for LlmResponse {
    type V = ResponseView;

    open spec fn view(&self) -> ResponseView {
        ResponseView {
            content: text_opt(self.content),
            tool_calls: call_views(self.tool_calls@),
            reasoning: text_opt(self.reasoning),
        }
    }
}

impl LlmResponse {
    /// An answer of text.
    pub fn content(s: String) -> (r: Self)
        ensures
            r@ == (ResponseView {
                content: Some(s@),
                tool_calls: Seq::empty(),
                reasoning: None,
            }),
    {
        let r = LlmResponse { content: Some(s), tool_calls: Vec::new(), reasoning: None };
        assert(r@.tool_calls =~= Seq::empty());
        r
    }

    /// An answer of calls.
    pub fn tool_calls(calls: Vec<ToolCall>) -> (r: Self)
        ensures
            r@ == (ResponseView {
                content: None,
                tool_calls: call_views(calls@),
                reasoning: None,
            }),
    {
        LlmResponse { content: None, tool_calls: calls, reasoning: None }
    }

    /// The answer with this reasoning before it.
    pub fn with_reasoning(self, reasoning: String) -> (r: Self)
        ensures
            r@ == (ResponseView { reasoning: Some(reasoning@), ..self@ }),
    {
        LlmResponse {
            content: self.content,
            tool_calls: self.tool_calls,
            reasoning: Some(reasoning),
        }
    }
}

/// What the model was asked.
#[derive(Debug)]
pub struct ScriptedCall {
    pub prompt: Vec<ModelMessage>,
    pub tools: Vec<ToolDef>,
}

#[verifier::ext_equal]
pub struct AskedView {
    pub prompt: Seq<MessageView>,
    pub tools: Seq<ToolView>,
}

impl View for ScriptedCall {
    type V = AskedView;

    open spec fn view(&self) -> AskedView {
        AskedView { prompt: message_views(self.prompt@), tools: tool_views(self.tools@) }
    }
}

/// A piece of an answer that comes as a stream.
#[derive(Debug)]
pub enum ScriptPart {
    Start,
    ReasoningStart,
    ReasoningDelta(String),
    ReasoningEnd,
    TextDelta(String),
    ToolCall(ToolCall),
    /// The end; whether the answer asks for tools.
    Finish { asks_tools: bool },
}

#[verifier::ext_equal]
pub enum ScriptPartView {
    Start,
    ReasoningStart,
    ReasoningDelta(Seq<char>),
    ReasoningEnd,
    TextDelta(Seq<char>),
    ToolCall(CallView),
    Finish { asks_tools: bool },
}

impl View for ScriptPart {
    type V = ScriptPartView;

    open spec fn view(&self) -> ScriptPartView {
        match *self {
            ScriptPart::Start => ScriptPartView::Start,
            ScriptPart::ReasoningStart => ScriptPartView::ReasoningStart,
            ScriptPart::ReasoningDelta(s) => ScriptPartView::ReasoningDelta(s@),
            ScriptPart::ReasoningEnd => ScriptPartView::ReasoningEnd,
            ScriptPart::TextDelta(s) => ScriptPartView::TextDelta(s@),
            ScriptPart::ToolCall(c) => ScriptPartView::ToolCall(c@),
            ScriptPart::Finish { asks_tools } => ScriptPartView::Finish { asks_tools },
        }
    }
}

pub open spec fn script_views(v: Seq<ScriptPart>) -> Seq<ScriptPartView> {
    Seq::new(v.len(), |i: int| v[i]@)
}

/// The text in pieces of four characters, the last of what is left.
pub open spec fn chunks(s: Seq<char>) -> Seq<Seq<char>>
    decreases s.len(),
{
    if s.len() == 0 {
        Seq::empty()
    } else if s.len() <= 4 {
        seq![s]
    } else {
        seq![s.take(4)] + chunks(s.skip(4))
    }
}

/// The text in pieces of four characters.
pub fn text_chunks(s: &str) -> (r: Vec<String>)
    ensures
        texts(r@) == chunks(s@),
{
    let v = to_chars(s);
    let mut out: Vec<String> = Vec::new();
    let mut i: usize = 0;
    proof {
        assert(v@.skip(0) =~= s@);
        assert(texts(out@) + chunks(v@.skip(0)) =~= chunks(s@));
    }
    while i < v.len()
        invariant
            v@ == s@,
            i <= v@.len(),
            texts(out@) + chunks(v@.skip(i as int)) == chunks(s@),
        decreases v@.len() - i,
    {
        let end: usize = if v.len() - i <= 4 {
            v.len()
        } else {
            i + 4
        };
        let ghost before = texts(out@);
        let ghost rest = v@.skip(i as int);
        let piece = slice_text(&v, i, end);
        let ghost text = piece@;
        out.push(piece);
        proof {
            assert(texts(out@) =~= before.push(text));
            assert(rest.skip(end - i) =~= v@.skip(end as int));
            assert(text =~= rest.take(end - i));
            if rest.len() <= 4 {
                assert(text =~= rest);
                assert(v@.skip(end as int) =~= Seq::empty());
                assert(before.push(text) + chunks(v@.skip(end as int)) =~= before + chunks(rest));
            } else {
                assert(before.push(text) + chunks(v@.skip(end as int)) =~= before + (seq![text]
                    + chunks(v@.skip(end as int))));
            }
        }
        i = end;
    }
    assert(v@.skip(i as int) =~= Seq::empty());
    assert(texts(out@) + chunks(v@.skip(i as int)) =~= texts(out@));
    out
}

/// The pieces of a text put together.
pub open spec fn assembled(parts: Seq<Seq<char>>) -> Seq<char>
    decreases parts.len(),
{
    if parts.len() == 0 {
        Seq::empty()
    } else {
        parts[0] + assembled(parts.drop_first())
    }
}

/// The pieces of a text put together are the text, and none is empty or longer
/// than four characters.
pub proof fn law_chunks_make_the_text(s: Seq<char>)
    ensures
        assembled(chunks(s)) == s,
        forall|i: int| 0 <= i < chunks(s).len() ==> 1 <= (#[trigger] chunks(s)[i]).len() <= 4,
    decreases s.len(),
{
    if s.len() == 0 {
        assert(assembled(chunks(s)) =~= s);
    } else if s.len() <= 4 {
        let c = chunks(s);
        assert(c.drop_first() =~= Seq::empty());
        assert(assembled(c.drop_first()) =~= Seq::empty());
        assert(assembled(c) =~= s);
    } else {
        let rest = chunks(s.skip(4));
        let c = chunks(s);
        law_chunks_make_the_text(s.skip(4));
        assert(c.drop_first() =~= rest);
        assert(s.take(4) + s.skip(4) =~= s);
        assert forall|i: int| 0 <= i < c.len() implies 1 <= (#[trigger] c[i]).len() <= 4 by {
            if i > 0 {
                assert(c[i] == rest[i - 1]);
            }
        }
    }
}

/// Pieces of reasoning.
pub open spec fn reasoning_deltas(s: Seq<char>) -> Seq<ScriptPartView> {
    Seq::new(chunks(s).len(), |i: int| ScriptPartView::ReasoningDelta(chunks(s)[i]))
}

/// Pieces of text.
pub open spec fn text_deltas(s: Seq<char>) -> Seq<ScriptPartView> {
    Seq::new(chunks(s).len(), |i: int| ScriptPartView::TextDelta(chunks(s)[i]))
}

/// Calls.
pub open spec fn call_items(calls: Seq<CallView>) -> Seq<ScriptPartView> {
    Seq::new(calls.len(), |i: int| ScriptPartView::ToolCall(calls[i]))
}

/// An answer as a stream: the reasoning, where there is any, in pieces between
/// its marks; the text in pieces; the calls; and the end.
pub open spec fn streamed_answer(a: ResponseView) -> Seq<ScriptPartView> {
    seq![ScriptPartView::Start] + (match a.reasoning {
        Some(s) => seq![ScriptPartView::ReasoningStart] + reasoning_deltas(s)
            + seq![ScriptPartView::ReasoningEnd],
        None => Seq::empty(),
    }) + (match a.content {
        Some(s) => text_deltas(s),
        None => Seq::empty(),
    }) + call_items(a.tool_calls) + seq![ScriptPartView::Finish { asks_tools: a.tool_calls.len() > 0 }]
}

/// The script and what was asked so far.
#[derive(Debug)]
pub struct ScriptedLlm {
    responses: Vec<LlmResponse>,
    pub calls: Vec<ScriptedCall>,
}

/// The answers of a script.
pub open spec fn response_views(v: Seq<LlmResponse>) -> Seq<ResponseView> {
    Seq::new(v.len(), |i: int| v[i]@)
}

/// What was asked of a script.
pub open spec fn asked_views(v: Seq<ScriptedCall>) -> Seq<AskedView> {
    Seq::new(v.len(), |i: int| v[i]@)
}

fn push_part(out: &mut Vec<ScriptPart>, p: ScriptPart)
    ensures
        script_views(final(out)@) == script_views(old(out)@).push(p@),
{
    out.push(p);
    assert(script_views(out@) =~= script_views(old(out)@).push(p@));
}

fn push_deltas(out: &mut Vec<ScriptPart>, s: &str, reasoning: bool)
    ensures
        script_views(final(out)@) == script_views(old(out)@) + if reasoning {
            reasoning_deltas(s@)
        } else {
            text_deltas(s@)
        },
{
    let pieces = text_chunks(s);
    let ghost start = script_views(out@);
    let ghost all = if reasoning {
        reasoning_deltas(s@)
    } else {
        text_deltas(s@)
    };
    let mut i: usize = 0;
    assert(start =~= start + all.take(0));
    while i < pieces.len()
        invariant
            i <= pieces@.len(),
            texts(pieces@) == chunks(s@),
            all == if reasoning {
                reasoning_deltas(s@)
            } else {
                text_deltas(s@)
            },
            script_views(out@) == start + all.take(i as int),
        decreases pieces@.len() - i,
    {
        let piece = pieces[i].clone();
        assert(chunks(s@)[i as int] == pieces@[i as int]@);
        if reasoning {
            push_part(out, ScriptPart::ReasoningDelta(piece));
        } else {
            push_part(out, ScriptPart::TextDelta(piece));
        }
        assert(start + all.take(i + 1) =~= (start + all.take(i as int)).push(all[i as int]));
        i = i + 1;
    }
    assert(all.take(i as int) =~= all);
}

/// An answer as a stream.
pub fn stream_answer(response: &LlmResponse) -> (r: Vec<ScriptPart>)
    ensures
        script_views(r@) == streamed_answer(response@),
{
    let mut out: Vec<ScriptPart> = Vec::new();
    assert(script_views(out@) =~= Seq::empty());
    push_part(&mut out, ScriptPart::Start);
    if let Some(s) = &response.reasoning {
        push_part(&mut out, ScriptPart::ReasoningStart);
        push_deltas(&mut out, s.as_str(), true);
        push_part(&mut out, ScriptPart::ReasoningEnd);
    }
    let ghost one = script_views(out@);
    if let Some(s) = &response.content {
        push_deltas(&mut out, s.as_str(), false);
    }
    let ghost two = script_views(out@);
    let ghost items = call_items(response@.tool_calls);
    let mut i: usize = 0;
    assert(two =~= two + items.take(0));
    while i < response.tool_calls.len()
        invariant
            i <= response.tool_calls@.len(),
            items == call_items(response@.tool_calls),
            script_views(out@) == two + items.take(i as int),
        decreases response.tool_calls@.len() - i,
    {
        push_part(&mut out, ScriptPart::ToolCall(response.tool_calls[i].clone()));
        assert(two + items.take(i + 1) =~= (two + items.take(i as int)).push(items[i as int]));
        i = i + 1;
    }
    assert(items.take(i as int) =~= items);
    push_part(&mut out, ScriptPart::Finish { asks_tools: response.tool_calls.len() > 0 });
    assert(script_views(out@) =~= streamed_answer(response@));
    out
}

/// A piece of an answer that comes at once.
#[derive(Debug)]
pub enum GenerateContent {
    Text(String),
    ToolCall(ToolCall),
}

#[verifier::ext_equal]
pub enum ContentPieceView {
    Text(Seq<char>),
    ToolCall(CallView),
}

impl View for GenerateContent {
    type V = ContentPieceView;

    open spec fn view(&self) -> ContentPieceView {
        match *self {
            GenerateContent::Text(s) => ContentPieceView::Text(s@),
            GenerateContent::ToolCall(c) => ContentPieceView::ToolCall(c@),
        }
    }
}

pub open spec fn piece_views(v: Seq<GenerateContent>) -> Seq<ContentPieceView> {
    Seq::new(v.len(), |i: int| v[i]@)
}

/// An answer that comes at once, and whether it asks for tools.
#[derive(Debug)]
pub struct GenerateResult {
    pub content: Vec<GenerateContent>,
    pub asks_tools: bool,
}

/// An answer at once: its text, then its tool calls.
pub open spec fn answer_pieces(r: ResponseView) -> Seq<ContentPieceView> {
    (match r.content {
        Some(s) => seq![ContentPieceView::Text(s)],
        None => Seq::empty(),
    }) + Seq::new(r.tool_calls.len(), |i: int| ContentPieceView::ToolCall(r.tool_calls[i]))
}

/// An answer at once.
pub fn whole_answer(response: &LlmResponse) -> (r: GenerateResult)
    ensures
        piece_views(r.content@) == answer_pieces(response@),
        r.asks_tools == (response@.tool_calls.len() > 0),
{
    let mut content: Vec<GenerateContent> = Vec::new();
    if let Some(s) = &response.content {
        content.push(GenerateContent::Text(s.clone()));
    }
    let ghost all = answer_pieces(response@);
    let ghost first = content@.len();
    let mut i: usize = 0;
    assert(piece_views(content@) =~= all.take(first as int));
    while i < response.tool_calls.len()
        invariant
            i <= response.tool_calls@.len(),
            all == answer_pieces(response@),
            all.len() == first + response.tool_calls@.len(),
            first == if response.content is Some {
                1nat
            } else {
                0
            },
            piece_views(content@) == all.take(first + i),
        decreases response.tool_calls@.len() - i,
    {
        let ghost before = piece_views(content@);
        content.push(GenerateContent::ToolCall(response.tool_calls[i].clone()));
        assert(piece_views(content@) =~= before.push(all[first + i]));
        assert(all.take(first + i + 1) =~= all.take(first + i).push(all[first + i]));
        i = i + 1;
    }
    assert(all.take(first + i) =~= all);
    GenerateResult { content, asks_tools: response.tool_calls.len() > 0 }
}

impl ScriptedLlm {
    /// What is left of the script.
    pub closed spec fn left(self) -> Seq<ResponseView> {
        response_views(self.responses@)
    }

    /// What was asked so far.
    pub closed spec fn asked(self) -> Seq<AskedView> {
        asked_views(self.calls@)
    }

    pub fn new(responses: Vec<LlmResponse>) -> (r: Self)
        ensures
            r.left() == response_views(responses@),
            r.asked() == Seq::<AskedView>::empty(),
    {
        let r = ScriptedLlm { responses, calls: Vec::new() };
        assert(r.asked() =~= Seq::empty());
        r
    }

    /// Keeps what was asked and takes the next answer of the script.
    pub fn record_and_pop(&mut self, call: ScriptedCall) -> (r: Result<LlmResponse, String>)
        ensures
            final(self).asked() == old(self).asked().push(call@),
            match r {
                Ok(a) => {
                    &&& old(self).left().len() > 0
                    &&& a@ == old(self).left()[0]
                    &&& final(self).left() == old(self).left().drop_first()
                },
                Err(e) => {
                    &&& old(self).left().len() == 0
                    &&& final(self).left() == old(self).left()
                    &&& e@ == "ScriptedLLM has no responses left"@
                },
            },
    {
        self.calls.push(call);
        assert(self.asked() =~= old(self).asked().push(call@));
        if self.responses.len() == 0 {
            return Err("ScriptedLLM has no responses left".to_owned());
        }
        let ghost before = self.responses@;
        let first = self.responses.remove(0);
        assert(response_views(self.responses@) =~= response_views(before).drop_first());
        Ok(first)
    }

    /// The next answer of the script, at once.
    pub fn do_generate(&mut self, call: ScriptedCall) -> (r: Result<GenerateResult, String>)
        ensures
            final(self).asked() == old(self).asked().push(call@),
            match r {
                Ok(a) => {
                    &&& old(self).left().len() > 0
                    &&& piece_views(a.content@) == answer_pieces(old(self).left()[0])
                    &&& a.asks_tools == (old(self).left()[0].tool_calls.len() > 0)
                    &&& final(self).left() == old(self).left().drop_first()
                },
                Err(e) => {
                    &&& old(self).left().len() == 0
                    &&& final(self).left() == old(self).left()
                    &&& e@ == "ScriptedLLM has no responses left"@
                },
            },
    {
        match self.record_and_pop(call) {
            Ok(response) => Ok(whole_answer(&response)),
            Err(e) => Err(e),
        }
    }

    /// The next answer of the script, as a stream.
    pub fn do_stream(&mut self, call: ScriptedCall) -> (r: Result<Vec<ScriptPart>, String>)
        ensures
            final(self).asked() == old(self).asked().push(call@),
            match r {
                Ok(parts) => {
                    &&& old(self).left().len() > 0
                    &&& script_views(parts@) == streamed_answer(old(self).left()[0])
                    &&& final(self).left() == old(self).left().drop_first()
                },
                Err(e) => {
                    &&& old(self).left().len() == 0
                    &&& final(self).left() == old(self).left()
                    &&& e@ == "ScriptedLLM has no responses left"@
                },
            },
    {
        match self.record_and_pop(call) {
            Ok(response) => Ok(stream_answer(&response)),
            Err(e) => Err(e),
        }
    }
}

// ── laws ────────────────────────────────────────────────────────────

/// The text that the pieces of a stream hold, put together.
pub open spec fn said_in(parts: Seq<ScriptPartView>) -> Seq<char>
    decreases parts.len(),
{
    if parts.len() == 0 {
        Seq::empty()
    } else {
        said_in(parts.drop_last()) + (match parts.last() {
            ScriptPartView::TextDelta(s) => s,
            _ => Seq::empty(),
        })
    }
}

/// The reasoning that the pieces of a stream hold, put together.
pub open spec fn reasoned_in(parts: Seq<ScriptPartView>) -> Seq<char>
    decreases parts.len(),
{
    if parts.len() == 0 {
        Seq::empty()
    } else {
        reasoned_in(parts.drop_last()) + (match parts.last() {
            ScriptPartView::ReasoningDelta(s) => s,
            _ => Seq::empty(),
        })
    }
}

/// The calls that the pieces of a stream hold, in their order.
pub open spec fn called_in(parts: Seq<ScriptPartView>) -> Seq<CallView>
    decreases parts.len(),
{
    if parts.len() == 0 {
        Seq::empty()
    } else {
        called_in(parts.drop_last()) + (match parts.last() {
            ScriptPartView::ToolCall(c) => seq![c],
            _ => Seq::empty(),
        })
    }
}

proof fn lemma_held_in_both(a: Seq<ScriptPartView>, b: Seq<ScriptPartView>)
    ensures
        said_in(a + b) == said_in(a) + said_in(b),
        reasoned_in(a + b) == reasoned_in(a) + reasoned_in(b),
        called_in(a + b) == called_in(a) + called_in(b),
    decreases b.len(),
{
    if b.len() > 0 {
        assert((a + b).drop_last() =~= a + b.drop_last());
        lemma_held_in_both(a, b.drop_last());
        assert(said_in(a + b) =~= said_in(a) + said_in(b));
        assert(reasoned_in(a + b) =~= reasoned_in(a) + reasoned_in(b));
        assert(called_in(a + b) =~= called_in(a) + called_in(b));
    } else {
        assert(a + b =~= a);
        assert(said_in(a + b) =~= said_in(a) + said_in(b));
        assert(reasoned_in(a + b) =~= reasoned_in(a) + reasoned_in(b));
        assert(called_in(a + b) =~= called_in(a) + called_in(b));
    }
}

proof fn lemma_last_assembled(parts: Seq<Seq<char>>)
    requires
        parts.len() > 0,
    ensures
        assembled(parts) == assembled(parts.drop_last()) + parts.last(),
    decreases parts.len(),
{
    if parts.len() == 1 {
        assert(parts.drop_first() =~= Seq::empty());
        assert(parts.drop_last() =~= Seq::empty());
        assert(assembled(parts.drop_first()) =~= Seq::empty());
        assert(assembled(parts.drop_last()) =~= Seq::empty());
        assert(assembled(parts) =~= parts.last());
        assert(assembled(parts.drop_last()) + parts.last() =~= parts.last());
    } else {
        let rest = parts.drop_first();
        lemma_last_assembled(rest);
        assert(rest.drop_last() =~= parts.drop_last().drop_first());
        assert(parts.drop_last()[0] == parts[0]);
        assert(assembled(parts) =~= assembled(parts.drop_last()) + parts.last());
    }
}

proof fn lemma_held_in_deltas(c: Seq<Seq<char>>, calls: Seq<CallView>)
    ensures
        ({
            let t = Seq::new(c.len(), |i: int| ScriptPartView::TextDelta(c[i]));
            let r = Seq::new(c.len(), |i: int| ScriptPartView::ReasoningDelta(c[i]));
            let k = call_items(calls);
            &&& said_in(t) == assembled(c)
            &&& reasoned_in(t).len() == 0
            &&& called_in(t).len() == 0
            &&& said_in(r).len() == 0
            &&& reasoned_in(r) == assembled(c)
            &&& called_in(r).len() == 0
            &&& said_in(k).len() == 0
            &&& reasoned_in(k).len() == 0
            &&& called_in(k) == calls
        }),
    decreases c.len() + calls.len(),
{
    let t = Seq::new(c.len(), |i: int| ScriptPartView::TextDelta(c[i]));
    let r = Seq::new(c.len(), |i: int| ScriptPartView::ReasoningDelta(c[i]));
    let k = call_items(calls);
    if c.len() > 0 {
        let d = c.drop_last();
        lemma_held_in_deltas(d, calls);
        lemma_last_assembled(c);
        assert(t.drop_last() =~= Seq::new(d.len(), |i: int| ScriptPartView::TextDelta(d[i])));
        assert(r.drop_last() =~= Seq::new(d.len(), |i: int| ScriptPartView::ReasoningDelta(d[i])));
    } else {
        assert(assembled(c) =~= Seq::empty());
        assert(said_in(t) =~= Seq::empty());
        assert(reasoned_in(r) =~= Seq::empty());
        if calls.len() > 0 {
            lemma_held_in_deltas(c, calls.drop_last());
            assert(k.drop_last() =~= call_items(calls.drop_last()));
            assert(called_in(k) =~= calls);
        } else {
            assert(called_in(k) =~= calls);
        }
    }
}

/// A stream begins with its start and ends with its end, and what it holds
/// between them, put together, is the answer: all of its reasoning, all of its
/// text and all of its calls. Its end says whether there were calls.
pub proof fn law_stream_holds_the_answer(a: ResponseView)
    ensures
        ({
            let s = streamed_answer(a);
            &&& s.len() >= 2
            &&& s[0] == ScriptPartView::Start
            &&& s.last() == (ScriptPartView::Finish { asks_tools: a.tool_calls.len() > 0 })
            &&& said_in(s) == match a.content {
                Some(t) => t,
                None => Seq::empty(),
            }
            &&& reasoned_in(s) == match a.reasoning {
                Some(t) => t,
                None => Seq::empty(),
            }
            &&& called_in(s) == a.tool_calls
        }),
{
    let start = seq![ScriptPartView::Start];
    let thought = match a.reasoning {
        Some(s) => seq![ScriptPartView::ReasoningStart] + reasoning_deltas(s)
            + seq![ScriptPartView::ReasoningEnd],
        None => Seq::empty(),
    };
    let said = match a.content {
        Some(s) => text_deltas(s),
        None => Seq::empty(),
    };
    let calls = call_items(a.tool_calls);
    let end = seq![ScriptPartView::Finish { asks_tools: a.tool_calls.len() > 0 }];
    lemma_held_in_both(start + thought + said + calls, end);
    lemma_held_in_both(start + thought + said, calls);
    lemma_held_in_both(start + thought, said);
    lemma_held_in_both(start, thought);
    lemma_held_alone(ScriptPartView::Start);
    lemma_held_alone(end[0]);
    lemma_held_in_deltas(Seq::empty(), a.tool_calls);
    match a.reasoning {
        Some(s) => {
            law_chunks_make_the_text(s);
            lemma_held_in_deltas(chunks(s), a.tool_calls);
            let marks = seq![ScriptPartView::ReasoningStart];
            lemma_held_in_both(marks + reasoning_deltas(s), seq![ScriptPartView::ReasoningEnd]);
            lemma_held_in_both(marks, reasoning_deltas(s));
            lemma_held_alone(ScriptPartView::ReasoningStart);
            lemma_held_alone(ScriptPartView::ReasoningEnd);
        },
        None => {},
    }
    match a.content {
        Some(s) => {
            law_chunks_make_the_text(s);
            lemma_held_in_deltas(chunks(s), a.tool_calls);
        },
        None => {},
    }
    let s = streamed_answer(a);
    assert(said_in(s) =~= match a.content {
        Some(t) => t,
        None => Seq::empty(),
    });
    assert(reasoned_in(s) =~= match a.reasoning {
        Some(t) => t,
        None => Seq::empty(),
    });
    assert(called_in(s) =~= a.tool_calls);
}

proof fn lemma_held_alone(p: ScriptPartView)
    requires
        !(p is TextDelta) && !(p is ReasoningDelta) && !(p is ToolCall),
    ensures
        said_in(seq![p]).len() == 0,
        reasoned_in(seq![p]).len() == 0,
        called_in(seq![p]).len() == 0,
{
    assert(seq![p].drop_last() =~= Seq::empty());
    assert(said_in(seq![p].drop_last()).len() == 0);
    assert(reasoned_in(seq![p].drop_last()).len() == 0);
    assert(called_in(seq![p].drop_last()).len() == 0);
}

/// The reasoning of a stream stands before its text, between its marks.
pub proof fn law_reasoning_comes_first(a: ResponseView, thought: Seq<char>)
    requires
        a.reasoning == Some(thought),
    ensures
        ({
            let s = streamed_answer(a);
            let n = reasoning_deltas(thought).len() as int;
            &&& s.len() > n + 2
            &&& s[1] == ScriptPartView::ReasoningStart
            &&& s[n + 2] == ScriptPartView::ReasoningEnd
            &&& reasoned_in(s.subrange(2, n + 2)) == thought
            &&& said_in(s.take(n + 3)).len() == 0
        }),
{
    let s = streamed_answer(a);
    let d = reasoning_deltas(thought);
    let n = d.len() as int;
    assert(s.subrange(2, n + 2) =~= d);
    lemma_held_in_deltas(chunks(thought), a.tool_calls);
    law_chunks_make_the_text(thought);
    let front = seq![ScriptPartView::Start] + seq![ScriptPartView::ReasoningStart];
    assert(s.take(n + 3) =~= front + d + seq![ScriptPartView::ReasoningEnd]);
    lemma_held_in_both(front + d, seq![ScriptPartView::ReasoningEnd]);
    lemma_held_in_both(front, d);
    lemma_held_in_both(seq![ScriptPartView::Start], seq![ScriptPartView::ReasoningStart]);
    lemma_held_alone(ScriptPartView::Start);
    lemma_held_alone(ScriptPartView::ReasoningStart);
    lemma_held_alone(ScriptPartView::ReasoningEnd);
}

/// An answer that comes at once holds its text first, where it has one, and
/// then each of its calls in their order, and nothing else.
pub proof fn law_answer_at_once(r: ResponseView, i: int)
    requires
        0 <= i < r.tool_calls.len(),
    ensures
        match r.content {
            Some(s) => answer_pieces(r).len() == r.tool_calls.len() + 1 && answer_pieces(r)[0]
                == ContentPieceView::Text(s) && answer_pieces(r)[i + 1]
                == ContentPieceView::ToolCall(r.tool_calls[i]),
            None => answer_pieces(r).len() == r.tool_calls.len() && answer_pieces(r)[i]
                == ContentPieceView::ToolCall(r.tool_calls[i]),
        },
{
}

/// All pieces of a text but the last have four characters.
pub proof fn law_pieces_of_four(s: Seq<char>, i: int)
    requires
        0 <= i < chunks(s).len() - 1,
    ensures
        chunks(s)[i].len() == 4,
        chunks(s)[i] == s.subrange(4 * i, 4 * i + 4),
    decreases s.len(),
{
    law_chunks_make_the_text(s);
    if s.len() > 4 {
        let rest = s.skip(4);
        law_chunks_make_the_text(rest);
        lemma_chunks_len(rest);
        if i > 0 {
            law_pieces_of_four(rest, i - 1);
            assert(chunks(s)[i] == chunks(rest)[i - 1]);
            lemma_room_for_chunks(rest, i - 1);
            assert(rest.subrange(4 * (i - 1), 4 * (i - 1) + 4) =~= s.subrange(4 * i, 4 * i + 4));
        } else {
            assert(chunks(s)[0] == s.take(4));
            assert(s.take(4) =~= s.subrange(0, 4));
        }
    }
}

proof fn lemma_chunks_len(s: Seq<char>)
    ensures
        4 * chunks(s).len() < s.len() + 4,
    decreases s.len(),
{
    if s.len() > 4 {
        lemma_chunks_len(s.skip(4));
    }
}

proof fn lemma_room_for_chunks(s: Seq<char>, i: int)
    requires
        0 <= i < chunks(s).len() - 1,
    ensures
        4 * i + 4 < s.len(),
{
    lemma_chunks_len(s);
}

} // verus!
