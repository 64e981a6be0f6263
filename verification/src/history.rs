//! Repair of a conversation history: what is handed to a model pairs every
//! tool call with its result.

use vstd::prelude::*;

use crate::message::{
    message_views, part_views, ContentPart, ContentView, MessageContent, MessageView, ModelMessage,
    PartView, Role,
};
use crate::text::{same, texts};

verus! {

// ── models ──────────────────────────────────────────────────────────

/// The identifier of a call part.
pub open spec fn call_id(p: PartView) -> Option<Seq<char>> {
    match p {
        PartView::ToolCall { id, .. } => Some(id),
        _ => None,
    }
}

/// The identifier of a result part.
pub open spec fn result_id(p: PartView) -> Option<Seq<char>> {
    match p {
        PartView::ToolResult { id, .. } => Some(id),
        _ => None,
    }
}

/// The parts of a message; a message of one text has none.
pub open spec fn parts_of(m: MessageView) -> Seq<PartView> {
    match m.content {
        ContentView::Parts(parts) => parts,
        ContentView::Text(_) => Seq::empty(),
    }
}

/// The identifiers of the call parts among `parts`, in order.
pub open spec fn call_ids(parts: Seq<PartView>) -> Seq<Seq<char>>
    decreases parts.len(),
{
    if parts.len() == 0 {
        Seq::empty()
    } else {
        match call_id(parts.last()) {
            Some(id) => call_ids(parts.drop_last()).push(id),
            None => call_ids(parts.drop_last()),
        }
    }
}

/// The identifiers of the result parts among `parts`, in order.
pub open spec fn result_ids(parts: Seq<PartView>) -> Seq<Seq<char>>
    decreases parts.len(),
{
    if parts.len() == 0 {
        Seq::empty()
    } else {
        match result_id(parts.last()) {
            Some(id) => result_ids(parts.drop_last()).push(id),
            None => result_ids(parts.drop_last()),
        }
    }
}

/// The message asks for the call `id`.
pub open spec fn asks(m: MessageView, id: Seq<char>) -> bool {
    call_ids(parts_of(m)).contains(id)
}

/// The message brings a result of the call `id`.
pub open spec fn brings(m: MessageView, id: Seq<char>) -> bool {
    result_ids(parts_of(m)).contains(id)
}

/// Some message of `block` brings a result of the call `id`.
pub open spec fn answered(block: Seq<MessageView>, id: Seq<char>) -> bool {
    exists|j: int| 0 <= j < block.len() && #[trigger] brings(block[j], id)
}

/// The tool message `t` of `block` answers a call of `m`.
pub open spec fn answers(m: MessageView, t: MessageView) -> bool {
    exists|id: Seq<char>| #[trigger] asks(m, id) && brings(t, id)
}

/// The part is no call, or `block` answers it.
pub open spec fn part_stays(p: PartView, block: Seq<MessageView>) -> bool {
    match call_id(p) {
        Some(id) => answered(block, id),
        None => true,
    }
}

/// What becomes of an assistant message before the tool messages `block`: a
/// text stays unless it is empty; of the parts stay those that are no call and
/// the answered calls, and where none stays the message goes.
pub open spec fn repaired_assistant(m: MessageView, block: Seq<MessageView>) -> Seq<MessageView> {
    match m.content {
        ContentView::Text(t) => if t.len() > 0 {
            seq![m]
        } else {
            Seq::empty()
        },
        ContentView::Parts(parts) => {
            let stay = parts.filter(|p: PartView| part_stays(p, block));
            if stay.len() > 0 {
                seq![MessageView { role: Role::Assistant, content: ContentView::Parts(stay) }]
            } else {
                Seq::empty()
            }
        },
    }
}

/// The part is no result, or `m` asks for the call it answers.
pub open spec fn result_stays(p: PartView, m: MessageView) -> bool {
    match result_id(p) {
        Some(id) => asks(m, id),
        None => true,
    }
}

/// The tool message `t` without the results that `m` does not ask for.
pub open spec fn without_strays(m: MessageView, t: MessageView) -> MessageView {
    match t.content {
        ContentView::Text(_) => t,
        ContentView::Parts(parts) => MessageView {
            content: ContentView::Parts(parts.filter(|p: PartView| result_stays(p, m))),
            ..t
        },
    }
}

/// What becomes of the tool messages behind `m`: those that answer a call of it
/// stay, without the results that it does not ask for.
pub open spec fn repaired_block(m: MessageView, block: Seq<MessageView>) -> Seq<MessageView> {
    block.filter(|t: MessageView| answers(m, t)).map_values(|t: MessageView| without_strays(m, t))
}

/// How many tool messages stand at the head of `ms`.
pub open spec fn tool_run(ms: Seq<MessageView>) -> nat
    decreases ms.len(),
{
    if ms.len() > 0 && ms[0].role == Role::Tool {
        1 + tool_run(ms.drop_first())
    } else {
        0
    }
}

/// The tool messages that follow the first message directly.
pub open spec fn block_of(ms: Seq<MessageView>) -> Seq<MessageView> {
    ms.subrange(1, 1 + tool_run(ms.drop_first()) as int)
}

/// The messages behind the first one and its block.
pub open spec fn after_block(ms: Seq<MessageView>) -> Seq<MessageView> {
    ms.skip(1 + tool_run(ms.drop_first()) as int)
}

/// The repaired history. An assistant message is read together with the tool
/// messages that follow it directly; a tool message anywhere else is dropped;
/// every other message stays.
pub open spec fn sanitized(ms: Seq<MessageView>) -> Seq<MessageView>
    decreases ms.len(),
{
    proof {
        if ms.len() > 0 {
            lemma_tool_run(ms.drop_first());
        }
    }
    if ms.len() == 0 {
        Seq::empty()
    } else if ms[0].role == Role::Assistant {
        repaired_assistant(ms[0], block_of(ms)) + repaired_block(ms[0], block_of(ms)) + sanitized(
            after_block(ms),
        )
    } else if ms[0].role == Role::Tool {
        sanitized(ms.drop_first())
    } else {
        seq![ms[0]] + sanitized(ms.drop_first())
    }
}

pub proof fn lemma_tool_run(ms: Seq<MessageView>)
    ensures
        tool_run(ms) <= ms.len(),
        forall|k: int| 0 <= k < tool_run(ms) ==> (#[trigger] ms[k]).role == Role::Tool,
        tool_run(ms) < ms.len() ==> ms[tool_run(ms) as int].role != Role::Tool,
    decreases ms.len(),
{
    if ms.len() > 0 && ms[0].role == Role::Tool {
        let rest = ms.drop_first();
        lemma_tool_run(rest);
        assert forall|k: int| 0 <= k < tool_run(ms) implies (#[trigger] ms[k]).role
            == Role::Tool by {
            if k > 0 {
                assert(ms[k] == rest[k - 1]);
            }
        }
        if tool_run(ms) < ms.len() {
            assert(ms[tool_run(ms) as int] == rest[tool_run(rest) as int]);
        }
    }
}

proof fn lemma_contains_push(s: Seq<Seq<char>>, x: Seq<char>, y: Seq<char>)
    ensures
        s.push(x).contains(y) <==> s.contains(y) || x == y,
{
    if s.contains(y) {
        let k = choose|k: int| 0 <= k < s.len() && s[k] == y;
        assert(s.push(x)[k] == y);
    }
    if x == y {
        assert(s.push(x)[s.len() as int] == y);
    }
    if s.push(x).contains(y) {
        let k = choose|k: int| 0 <= k < s.push(x).len() && s.push(x)[k] == y;
        if k < s.len() {
            assert(s[k] == y);
        }
    }
}

/// The tool run of `ms` has length `n` when its first `n` messages are tool
/// messages and no further one follows.
proof fn lemma_tool_run_is(ms: Seq<MessageView>, n: nat)
    requires
        n <= ms.len(),
        forall|k: int| 0 <= k < n ==> (#[trigger] ms[k]).role == Role::Tool,
        n < ms.len() ==> ms[n as int].role != Role::Tool,
    ensures
        tool_run(ms) == n,
{
    lemma_tool_run(ms);
    if tool_run(ms) < n {
        assert(ms[tool_run(ms) as int].role == Role::Tool);
    }
    if tool_run(ms) > n {
        assert(ms[n as int].role == Role::Tool);
    }
}

// ── operations ──────────────────────────────────────────────────────

/// The identifiers of the tool calls in a message, in order.
pub fn tool_call_ids(m: &ModelMessage) -> (r: Vec<String>)
    ensures
        texts(r@) == call_ids(parts_of(m@)),
{
    let mut out: Vec<String> = Vec::new();
    match &m.content {
        MessageContent::Parts(parts) => {
            let ghost views = part_views(parts@);
            let mut i: usize = 0;
            assert(texts(out@) =~= call_ids(views.take(0)));
            while i < parts.len()
                invariant
                    i <= parts@.len(),
                    views == part_views(parts@),
                    texts(out@) == call_ids(views.take(i as int)),
                decreases parts@.len() - i,
            {
                let ghost before = out@;
                proof {
                    assert(views.take(i + 1).drop_last() =~= views.take(i as int));
                    assert(views.take(i + 1).last() == parts@[i as int]@);
                }
                if let ContentPart::ToolCall { tool_call_id, .. } = &parts[i] {
                    out.push(tool_call_id.clone());
                    assert(texts(out@) =~= texts(before).push(tool_call_id@));
                }
                i = i + 1;
            }
            assert(views.take(i as int) =~= views);
        },
        MessageContent::Text(_) => {
            assert(texts(out@) =~= Seq::empty());
        },
    }
    out
}

/// The identifiers of the tool results in a message, in order.
pub fn tool_result_ids(m: &ModelMessage) -> (r: Vec<String>)
    ensures
        texts(r@) == result_ids(parts_of(m@)),
{
    let mut out: Vec<String> = Vec::new();
    match &m.content {
        MessageContent::Parts(parts) => {
            let ghost views = part_views(parts@);
            let mut i: usize = 0;
            assert(texts(out@) =~= result_ids(views.take(0)));
            while i < parts.len()
                invariant
                    i <= parts@.len(),
                    views == part_views(parts@),
                    texts(out@) == result_ids(views.take(i as int)),
                decreases parts@.len() - i,
            {
                let ghost before = out@;
                proof {
                    assert(views.take(i + 1).drop_last() =~= views.take(i as int));
                    assert(views.take(i + 1).last() == parts@[i as int]@);
                }
                if let ContentPart::ToolResult { tool_call_id, .. } = &parts[i] {
                    out.push(tool_call_id.clone());
                    assert(texts(out@) =~= texts(before).push(tool_call_id@));
                }
                i = i + 1;
            }
            assert(views.take(i as int) =~= views);
        },
        MessageContent::Text(_) => {
            assert(texts(out@) =~= Seq::empty());
        },
    }
    out
}

/// Whether `ids` holds `id`.
fn holds(ids: &Vec<String>, id: &String) -> (r: bool)
    ensures
        r == texts(ids@).contains(id@),
{
    let mut i: usize = 0;
    while i < ids.len()
        invariant
            i <= ids@.len(),
            forall|k: int| 0 <= k < i ==> texts(ids@)[k] != id@,
        decreases ids@.len() - i,
    {
        if same(ids[i].as_str(), id.as_str()) {
            assert(texts(ids@)[i as int] == id@);
            return true;
        }
        i = i + 1;
    }
    false
}

/// Whether `a` and `b` share an identifier.
fn share(a: &Vec<String>, b: &Vec<String>) -> (r: bool)
    ensures
        r == exists|id: Seq<char>| #[trigger] texts(a@).contains(id) && texts(b@).contains(id),
{
    let mut i: usize = 0;
    while i < a.len()
        invariant
            i <= a@.len(),
            forall|k: int| 0 <= k < i ==> !texts(b@).contains(#[trigger] texts(a@)[k]),
        decreases a@.len() - i,
    {
        if holds(b, &a[i]) {
            assert(texts(a@)[i as int] == a@[i as int]@);
            assert(texts(a@).contains(a@[i as int]@));
            return true;
        }
        assert(texts(a@)[i as int] == a@[i as int]@);
        i = i + 1;
    }
    false
}

/// The identifiers of the results that the messages `msgs[from..to]` bring.
fn results_between(msgs: &Vec<ModelMessage>, from: usize, to: usize) -> (r: Vec<String>)
    requires
        from <= to <= msgs@.len(),
    ensures
        forall|id: Seq<char>| #[trigger]
            texts(r@).contains(id) <==> answered(
                message_views(msgs@).subrange(from as int, to as int),
                id,
            ),
{
    let mut out: Vec<String> = Vec::new();
    let ghost views = message_views(msgs@);
    let mut i: usize = from;
    while i < to
        invariant
            from <= i <= to <= msgs@.len(),
            views == message_views(msgs@),
            forall|id: Seq<char>| #[trigger]
                texts(out@).contains(id) <==> answered(views.subrange(from as int, i as int), id),
        decreases to - i,
    {
        let mut ids = tool_result_ids(&msgs[i]);
        let ghost before = texts(out@);
        let ghost new = texts(ids@);
        out.append(&mut ids);
        proof {
            let shorter = views.subrange(from as int, i as int);
            let longer = views.subrange(from as int, i + 1);
            assert(texts(out@) =~= before + new);
            assert(longer =~= shorter.push(views[i as int]));
            assert(views[i as int] == msgs@[i as int]@);
            assert forall|id: Seq<char>| #[trigger] texts(out@).contains(id) <==> answered(
                longer,
                id,
            ) by {
                lemma_contains_concat(before, new, id);
                assert(brings(views[i as int], id) <==> new.contains(id));
                if answered(shorter, id) {
                    let j = choose|j: int| 0 <= j < shorter.len() && #[trigger] brings(shorter[j], id);
                    assert(brings(longer[j], id));
                }
                if brings(views[i as int], id) {
                    assert(brings(longer[longer.len() - 1], id));
                }
                if answered(longer, id) {
                    let j = choose|j: int| 0 <= j < longer.len() && #[trigger] brings(longer[j], id);
                    if j < shorter.len() {
                        assert(brings(shorter[j], id));
                    }
                }
            }
        }
        i = i + 1;
    }
    out
}

proof fn lemma_contains_concat(a: Seq<Seq<char>>, b: Seq<Seq<char>>, x: Seq<char>)
    ensures
        (a + b).contains(x) <==> a.contains(x) || b.contains(x),
{
    if a.contains(x) {
        let k = choose|k: int| 0 <= k < a.len() && a[k] == x;
        assert((a + b)[k] == x);
    }
    if b.contains(x) {
        let k = choose|k: int| 0 <= k < b.len() && b[k] == x;
        assert((a + b)[a.len() + k] == x);
    }
    if (a + b).contains(x) {
        let k = choose|k: int| 0 <= k < (a + b).len() && (a + b)[k] == x;
        if k < a.len() {
            assert(a[k] == x);
        } else {
            assert(b[k - a.len()] == x);
        }
    }
}

/// The identifiers of `ids` that `results` holds.
fn held_of(ids: &Vec<String>, results: &Vec<String>) -> (r: Vec<String>)
    ensures
        forall|id: Seq<char>| #[trigger]
            texts(r@).contains(id) <==> texts(ids@).contains(id) && texts(results@).contains(id),
{
    let mut out: Vec<String> = Vec::new();
    let mut i: usize = 0;
    while i < ids.len()
        invariant
            i <= ids@.len(),
            forall|id: Seq<char>| #[trigger]
                texts(out@).contains(id) <==> texts(ids@).take(i as int).contains(id) && texts(
                    results@,
                ).contains(id),
        decreases ids@.len() - i,
    {
        let ghost before = texts(out@);
        let ghost x = ids@[i as int]@;
        if holds(results, &ids[i]) {
            out.push(ids[i].clone());
            assert(texts(out@) =~= before.push(x));
        }
        proof {
            assert(texts(ids@).take(i + 1) =~= texts(ids@).take(i as int).push(x));
            assert forall|id: Seq<char>| #[trigger] texts(out@).contains(id) <==> texts(ids@).take(
                i + 1,
            ).contains(id) && texts(results@).contains(id) by {
                lemma_contains_push(texts(ids@).take(i as int), x, id);
                lemma_contains_push(before, x, id);
                assert(before.contains(id) <==> texts(ids@).take(i as int).contains(id) && texts(
                    results@,
                ).contains(id));
            }
        }
        i = i + 1;
    }
    assert(texts(ids@).take(i as int) =~= texts(ids@));
    out
}

/// The parts that are no call, and the calls whose identifier `kept` holds.
fn keep_parts(parts: &Vec<ContentPart>, kept: &Vec<String>, Ghost(block): Ghost<Seq<MessageView>>) -> (r:
    Vec<ContentPart>)
    requires
        forall|id: Seq<char>|
            call_ids(part_views(parts@)).contains(id) ==> (#[trigger] texts(kept@).contains(id)
                <==> answered(block, id)),
    ensures
        part_views(r@) == part_views(parts@).filter(|p: PartView| part_stays(p, block)),
{
    let mut out: Vec<ContentPart> = Vec::new();
    let ghost views = part_views(parts@);
    let ghost stays = |p: PartView| part_stays(p, block);
    let mut i: usize = 0;
    proof {
        reveal(Seq::filter);
        assert(part_views(out@) =~= views.take(0).filter(stays));
    }
    while i < parts.len()
        invariant
            i <= parts@.len(),
            views == part_views(parts@),
            stays == |p: PartView| part_stays(p, block),
            part_views(out@) == views.take(i as int).filter(stays),
            forall|id: Seq<char>|
                call_ids(views).contains(id) ==> (#[trigger] texts(kept@).contains(id)
                    <==> answered(block, id)),
        decreases parts@.len() - i,
    {
        let ghost before = part_views(out@);
        let ghost p = views[i as int];
        let stay = match &parts[i] {
            ContentPart::ToolCall { tool_call_id, .. } => holds(kept, tool_call_id),
            _ => true,
        };
        proof {
            assert(p == parts@[i as int]@);
            if call_id(p) is Some {
                lemma_call_ids(views, i as int);
            }
            assert(stay == stays(p));
            assert(views.take(i + 1).drop_last() =~= views.take(i as int));
            assert(views.take(i + 1).last() == p);
            reveal(Seq::filter);
        }
        if stay {
            out.push(parts[i].clone());
            assert(part_views(out@) =~= before.push(p));
        }
        i = i + 1;
    }
    assert(views.take(i as int) =~= views);
    out
}

/// A call part's identifier is among the identifiers.
pub proof fn lemma_call_ids(parts: Seq<PartView>, k: int)
    requires
        0 <= k < parts.len(),
        call_id(parts[k]) is Some,
    ensures
        call_ids(parts).contains(call_id(parts[k])->0),
    decreases parts.len(),
{
    let front = call_ids(parts.drop_last());
    let id = call_id(parts[k])->0;
    if k == parts.len() - 1 {
        assert(call_ids(parts) == front.push(id));
        lemma_contains_push(front, id, id);
    } else {
        lemma_call_ids(parts.drop_last(), k);
        match call_id(parts.last()) {
            Some(x) => {
                lemma_contains_push(front, x, id);
            },
            None => {},
        }
    }
}

/// A result part's identifier is among the identifiers.
pub proof fn lemma_result_ids(parts: Seq<PartView>, k: int)
    requires
        0 <= k < parts.len(),
        result_id(parts[k]) is Some,
    ensures
        result_ids(parts).contains(result_id(parts[k])->0),
    decreases parts.len(),
{
    let front = result_ids(parts.drop_last());
    let id = result_id(parts[k])->0;
    if k == parts.len() - 1 {
        assert(result_ids(parts) == front.push(id));
        lemma_contains_push(front, id, id);
    } else {
        lemma_result_ids(parts.drop_last(), k);
        match result_id(parts.last()) {
            Some(x) => {
                lemma_contains_push(front, x, id);
            },
            None => {},
        }
    }
}

/// The parts that are no result, and the results whose identifier `kept` holds.
fn keep_results(parts: &Vec<ContentPart>, kept: &Vec<String>, Ghost(m): Ghost<MessageView>) -> (r:
    Vec<ContentPart>)
    requires
        forall|id: Seq<char>|
            result_ids(part_views(parts@)).contains(id) ==> (#[trigger] texts(kept@).contains(id)
                <==> asks(m, id)),
    ensures
        part_views(r@) == part_views(parts@).filter(|p: PartView| result_stays(p, m)),
{
    let mut out: Vec<ContentPart> = Vec::new();
    let ghost views = part_views(parts@);
    let ghost stays = |p: PartView| result_stays(p, m);
    let mut i: usize = 0;
    proof {
        reveal(Seq::filter);
        assert(part_views(out@) =~= views.take(0).filter(stays));
    }
    while i < parts.len()
        invariant
            i <= parts@.len(),
            views == part_views(parts@),
            stays == |p: PartView| result_stays(p, m),
            part_views(out@) == views.take(i as int).filter(stays),
            forall|id: Seq<char>|
                result_ids(views).contains(id) ==> (#[trigger] texts(kept@).contains(id)
                    <==> asks(m, id)),
        decreases parts@.len() - i,
    {
        let ghost before = part_views(out@);
        let ghost p = views[i as int];
        let stay = match &parts[i] {
            ContentPart::ToolResult { tool_call_id, .. } => holds(kept, tool_call_id),
            _ => true,
        };
        proof {
            assert(p == parts@[i as int]@);
            if result_id(p) is Some {
                lemma_result_ids(views, i as int);
            }
            assert(stay == stays(p));
            assert(views.take(i + 1).drop_last() =~= views.take(i as int));
            assert(views.take(i + 1).last() == p);
            reveal(Seq::filter);
        }
        if stay {
            out.push(parts[i].clone());
            assert(part_views(out@) =~= before.push(p));
        }
        i = i + 1;
    }
    assert(views.take(i as int) =~= views);
    out
}

/// The tool message without the results whose identifier `kept` does not hold.
fn drop_strays(t: &ModelMessage, kept: &Vec<String>, Ghost(m): Ghost<MessageView>) -> (r:
    ModelMessage)
    requires
        forall|id: Seq<char>|
            brings(t@, id) ==> (#[trigger] texts(kept@).contains(id) <==> asks(m, id)),
    ensures
        r@ == without_strays(m, t@),
{
    match &t.content {
        MessageContent::Text(_) => t.clone(),
        MessageContent::Parts(parts) => {
            assert forall|id: Seq<char>|
                result_ids(part_views(parts@)).contains(id) implies (#[trigger] texts(
                kept@,
            ).contains(id) <==> asks(m, id)) by {
                assert(brings(t@, id));
            }
            let stay = keep_results(parts, kept, Ghost(m));
            ModelMessage { role: t.role, content: MessageContent::Parts(stay) }
        },
    }
}

/// The tool messages of `msgs[from..to]` that bring a result `kept` holds,
/// without their other results, added to `out`.
fn push_answers(
    msgs: &Vec<ModelMessage>,
    from: usize,
    to: usize,
    kept: &Vec<String>,
    out: &mut Vec<ModelMessage>,
    Ghost(m): Ghost<MessageView>,
)
    requires
        from <= to <= msgs@.len(),
        forall|id: Seq<char>|
            answered(message_views(msgs@).subrange(from as int, to as int), id) ==> (
            #[trigger] texts(kept@).contains(id) <==> asks(m, id)),
        forall|id: Seq<char>| #[trigger]
            texts(kept@).contains(id) ==> answered(
                message_views(msgs@).subrange(from as int, to as int),
                id,
            ),
    ensures
        message_views(final(out)@) == message_views(old(out)@) + repaired_block(
            m,
            message_views(msgs@).subrange(from as int, to as int),
        ),
{
    let ghost start = message_views(out@);
    let ghost block = message_views(msgs@).subrange(from as int, to as int);
    let ghost chosen = |t: MessageView| answers(m, t);
    let ghost strip = |t: MessageView| without_strays(m, t);
    let mut i: usize = from;
    proof {
        reveal(Seq::filter);
        assert(start + block.take(0).filter(chosen).map_values(strip) =~= start);
    }
    while i < to
        invariant
            from <= i <= to <= msgs@.len(),
            block == message_views(msgs@).subrange(from as int, to as int),
            chosen == |t: MessageView| answers(m, t),
            strip == |t: MessageView| without_strays(m, t),
            message_views(out@) == start + block.take(i - from).filter(chosen).map_values(strip),
            forall|id: Seq<char>|
                answered(block, id) ==> (#[trigger] texts(kept@).contains(id) <==> asks(m, id)),
            forall|id: Seq<char>| #[trigger] texts(kept@).contains(id) ==> answered(block, id),
        decreases to - i,
    {
        let ids = tool_result_ids(&msgs[i]);
        let ghost before = message_views(out@);
        let ghost t = block[i - from];
        let hit = share(&ids, kept);
        proof {
            assert(t == msgs@[i as int]@);
            assert(hit == answers(m, t)) by {
                if hit {
                    let id = choose|id: Seq<char>| #[trigger]
                        texts(ids@).contains(id) && texts(kept@).contains(id);
                    assert(brings(t, id));
                    assert(answered(block, id));
                    assert(asks(m, id));
                }
                if answers(m, t) {
                    let id = choose|id: Seq<char>| #[trigger] asks(m, id) && brings(t, id);
                    assert(brings(block[i - from], id));
                    assert(answered(block, id));
                    assert(texts(ids@).contains(id) && texts(kept@).contains(id));
                }
            }
            assert(block.take(i + 1 - from).drop_last() =~= block.take(i - from));
            assert(block.take(i + 1 - from).last() == t);
            reveal(Seq::filter);
        }
        if hit {
            assert forall|id: Seq<char>| brings(t, id) implies (#[trigger] texts(kept@).contains(id)
                <==> asks(m, id)) by {
                assert(brings(block[i - from], id));
                assert(answered(block, id));
            }
            out.push(drop_strays(&msgs[i], kept, Ghost(m)));
            assert(message_views(out@) =~= before.push(strip(t)));
            assert(block.take(i - from).filter(chosen).push(t).map_values(strip)
                =~= block.take(i - from).filter(chosen).map_values(strip).push(strip(t)));
        }
        assert(message_views(out@) =~= start + block.take(i + 1 - from).filter(chosen).map_values(
            strip,
        ));
        i = i + 1;
    }
    assert(block.take(to - from) =~= block);
}

/// The repaired history: every tool call that stays has its result behind it,
/// every tool message that stays answers a call, and every result in it is one
/// that was asked for.
///
/// The history itself is left as it is.
pub fn sanitize_history(msgs: &Vec<ModelMessage>) -> (r: Vec<ModelMessage>)
    ensures
        message_views(r@) == sanitized(message_views(msgs@)),
{
    let ghost views = message_views(msgs@);
    let mut out: Vec<ModelMessage> = Vec::new();
    let mut i: usize = 0;
    proof {
        assert(views.skip(0) =~= views);
        assert(message_views(out@) + sanitized(views.skip(0)) =~= sanitized(views));
    }
    while i < msgs.len()
        invariant
            i <= msgs@.len(),
            views == message_views(msgs@),
            message_views(out@) + sanitized(views.skip(i as int)) == sanitized(views),
        decreases msgs@.len() - i,
    {
        let m = &msgs[i];
        let ghost rest = views.skip(i as int);
        let ghost before = message_views(out@);
        assert(rest[0] == m@);
        assert(rest.drop_first() =~= views.skip(i + 1));
        if m.role != Role::Assistant {
            if m.role != Role::Tool {
                out.push(m.clone());
                assert(message_views(out@) =~= before.push(m@));
                assert(before.push(m@) + sanitized(views.skip(i + 1)) =~= before + (seq![m@]
                    + sanitized(views.skip(i + 1))));
            }
            i = i + 1;
            continue;
        }
        let mut j: usize = i + 1;
        while j < msgs.len() && msgs[j].role == Role::Tool
            invariant
                i < j <= msgs@.len(),
                views == message_views(msgs@),
                forall|k: int| i < k < j ==> (#[trigger] views[k]).role == Role::Tool,
            decreases msgs@.len() - j,
        {
            assert(views[j as int] == msgs@[j as int]@);
            j = j + 1;
        }
        let ghost block = views.subrange(i + 1, j as int);
        proof {
            let behind = rest.drop_first();
            assert forall|k: int| 0 <= k < j - i - 1 implies (#[trigger] behind[k]).role
                == Role::Tool by {
                assert(behind[k] == views[i + 1 + k]);
            }
            if j < msgs@.len() {
                assert(behind[j - i - 1] == msgs@[j as int]@);
            }
            lemma_tool_run_is(behind, (j - i - 1) as nat);
            assert(block_of(rest) =~= block);
            assert(after_block(rest) =~= views.skip(j as int));
        }
        let results = results_between(msgs, i + 1, j);
        let ids = tool_call_ids(m);
        let kept = held_of(&ids, &results);
        match &m.content {
            MessageContent::Text(t) => {
                if t.as_str().unicode_len() > 0 {
                    out.push(m.clone());
                    assert(message_views(out@) =~= before.push(m@));
                }
            },
            MessageContent::Parts(parts) => {
                let stay = keep_parts(parts, &kept, Ghost(block));
                if stay.len() > 0 {
                    let ghost view = MessageView {
                        role: Role::Assistant,
                        content: ContentView::Parts(part_views(stay@)),
                    };
                    out.push(
                        ModelMessage {
                            role: Role::Assistant,
                            content: MessageContent::Parts(stay),
                        },
                    );
                    assert(message_views(out@) =~= before.push(view));
                }
            },
        }
        let ghost middle = message_views(out@);
        assert(middle =~= before + repaired_assistant(m@, block));
        push_answers(msgs, i + 1, j, &kept, &mut out, Ghost(m@));
        assert(message_views(out@) + sanitized(views.skip(j as int)) =~= before + (
        repaired_assistant(m@, block) + repaired_block(m@, block) + sanitized(
            views.skip(j as int),
        )));
        i = j;
    }
    assert(views.skip(i as int) =~= Seq::empty());
    assert(message_views(out@) + sanitized(views.skip(i as int)) =~= message_views(out@));
    out
}

// ── laws ────────────────────────────────────────────────────────────

/// A message of the assistant without any content.
pub open spec fn is_bare(m: MessageView) -> bool {
    match m.content {
        ContentView::Text(t) => t.len() == 0,
        ContentView::Parts(parts) => parts.len() == 0,
    }
}

/// The message at `j` is one of the tool messages that directly follow the
/// assistant message at `a`.
pub open spec fn in_block(ms: Seq<MessageView>, a: int, j: int) -> bool {
    &&& 0 <= a < j < ms.len()
    &&& ms[a].role == Role::Assistant
    &&& forall|k: int| a < k <= j ==> (#[trigger] ms[k]).role == Role::Tool
}

/// The call `id` of the assistant message at `a` has its result behind it.
pub open spec fn has_result(ms: Seq<MessageView>, a: int, id: Seq<char>) -> bool {
    exists|j: int| #[trigger] in_block(ms, a, j) && brings(ms[j], id)
}

/// The tool message `t` answers a call of `m`, and `m` asks for every result in
/// it.
pub open spec fn serves(m: MessageView, t: MessageView) -> bool {
    &&& answers(m, t)
    &&& forall|id: Seq<char>| #[trigger] brings(t, id) ==> asks(m, id)
}

/// The tool message at `j` serves the assistant message before it.
pub open spec fn has_call(ms: Seq<MessageView>, j: int) -> bool {
    exists|a: int| #[trigger] in_block(ms, a, j) && serves(ms[a], ms[j])
}

/// The message at `i` is in order: an assistant message has content and every
/// call of it has its result behind it; a tool message answers a call, and every
/// result in it belongs to a call of the assistant message before it.
pub open spec fn in_order(ms: Seq<MessageView>, i: int) -> bool {
    &&& ms[i].role == Role::Assistant ==> !is_bare(ms[i]) && forall|id: Seq<char>|
        asks(ms[i], id) ==> #[trigger] has_result(ms, i, id)
    &&& ms[i].role == Role::Tool ==> has_call(ms, i)
}

/// A history that a model accepts: calls and results are paired throughout.
pub open spec fn legal(ms: Seq<MessageView>) -> bool {
    forall|i: int| 0 <= i < ms.len() ==> #[trigger] in_order(ms, i)
}

/// What the user or the system said.
pub open spec fn is_voice(m: MessageView) -> bool {
    m.role == Role::User || m.role == Role::System
}

pub proof fn lemma_call_ids_found(parts: Seq<PartView>, id: Seq<char>)
    requires
        call_ids(parts).contains(id),
    ensures
        exists|k: int| 0 <= k < parts.len() && #[trigger] call_id(parts[k]) == Some(id),
    decreases parts.len(),
{
    if parts.len() > 0 {
        let front = parts.drop_last();
        if call_id(parts.last()) == Some(id) {
            assert(call_id(parts[parts.len() - 1]) == Some(id));
        } else {
            if call_id(parts.last()) is Some {
                lemma_contains_push(call_ids(front), call_id(parts.last())->0, id);
            }
            lemma_call_ids_found(front, id);
            let k = choose|k: int| 0 <= k < front.len() && #[trigger] call_id(front[k]) == Some(id);
            assert(call_id(parts[k]) == Some(id));
        }
    }
}

/// Of the calls among `parts`, exactly the answered ones are among the parts
/// that stay.
proof fn lemma_kept_calls(parts: Seq<PartView>, block: Seq<MessageView>, id: Seq<char>)
    ensures
        call_ids(parts.filter(|p: PartView| part_stays(p, block))).contains(id) <==> call_ids(
            parts,
        ).contains(id) && answered(block, id),
{
    let stays = |p: PartView| part_stays(p, block);
    let stay = parts.filter(stays);
    broadcast use vstd::seq_lib::group_filter_ensures;

    if call_ids(stay).contains(id) {
        lemma_call_ids_found(stay, id);
        let k = choose|k: int| 0 <= k < stay.len() && #[trigger] call_id(stay[k]) == Some(id);
        assert(stays(stay[k]));
        assert(stay.contains(stay[k]));
        parts.lemma_filter_contains_rev(stays, stay[k]);
        let i = choose|i: int| 0 <= i < parts.len() && parts[i] == stay[k];
        lemma_call_ids(parts, i);
    }
    if call_ids(parts).contains(id) && answered(block, id) {
        lemma_call_ids_found(parts, id);
        let k = choose|k: int| 0 <= k < parts.len() && #[trigger] call_id(parts[k]) == Some(id);
        assert(stays(parts[k]));
        assert(stay.contains(parts[k]));
        let i = choose|i: int| 0 <= i < stay.len() && stay[i] == parts[k];
        lemma_call_ids(stay, i);
    }
}

proof fn lemma_result_ids_found(parts: Seq<PartView>, id: Seq<char>)
    requires
        result_ids(parts).contains(id),
    ensures
        exists|k: int| 0 <= k < parts.len() && #[trigger] result_id(parts[k]) == Some(id),
    decreases parts.len(),
{
    if parts.len() > 0 {
        let front = parts.drop_last();
        if result_id(parts.last()) == Some(id) {
            assert(result_id(parts[parts.len() - 1]) == Some(id));
        } else {
            if result_id(parts.last()) is Some {
                lemma_contains_push(result_ids(front), result_id(parts.last())->0, id);
            }
            lemma_result_ids_found(front, id);
            let k = choose|k: int|
                0 <= k < front.len() && #[trigger] result_id(front[k]) == Some(id);
            assert(result_id(parts[k]) == Some(id));
        }
    }
}

/// Of the results in `t`, exactly those that `m` asks for stay.
proof fn lemma_kept_results(m: MessageView, t: MessageView, id: Seq<char>)
    ensures
        brings(without_strays(m, t), id) <==> brings(t, id) && asks(m, id),
{
    broadcast use vstd::seq_lib::group_filter_ensures;

    let parts = parts_of(t);
    let stays = |p: PartView| result_stays(p, m);
    let stay = parts.filter(stays);
    if parts.len() == 0 {
        reveal(Seq::filter);
        assert(stay =~= parts);
    }
    assert(parts_of(without_strays(m, t)) =~= stay);
    if brings(without_strays(m, t), id) {
        lemma_result_ids_found(stay, id);
        let k = choose|k: int| 0 <= k < stay.len() && #[trigger] result_id(stay[k]) == Some(id);
        assert(stays(stay[k]));
        assert(stay.contains(stay[k]));
        parts.lemma_filter_contains_rev(stays, stay[k]);
        let i = choose|i: int| 0 <= i < parts.len() && parts[i] == stay[k];
        lemma_result_ids(parts, i);
    }
    if brings(t, id) && asks(m, id) {
        lemma_result_ids_found(parts, id);
        let k = choose|k: int| 0 <= k < parts.len() && #[trigger] result_id(parts[k]) == Some(id);
        assert(stays(parts[k]));
        assert(stay.contains(parts[k]));
        let i = choose|i: int| 0 <= i < stay.len() && stay[i] == parts[k];
        lemma_result_ids(stay, i);
    }
}

/// An assistant message that goes takes its block with it.
proof fn lemma_dropped_together(m: MessageView, block: Seq<MessageView>)
    requires
        repaired_assistant(m, block).len() == 0,
    ensures
        repaired_block(m, block).len() == 0,
{
    assert forall|t: MessageView| block.contains(t) implies !answers(m, t) by {
        if answers(m, t) {
            let id = choose|id: Seq<char>| #[trigger] asks(m, id) && brings(t, id);
            let j = choose|j: int| 0 <= j < block.len() && block[j] == t;
            assert(brings(block[j], id));
            lemma_kept_calls(parts_of(m), block, id);
            let stay = parts_of(m).filter(|p: PartView| part_stays(p, block));
            lemma_call_ids_found(stay, id);
        }
    }
    let chosen = |t: MessageView| answers(m, t);
    assert forall|j: int| 0 <= j < block.len() implies !chosen(#[trigger] block[j]) by {
        assert(block.contains(block[j]));
    }
    block.lemma_all_neg_filter_empty(chosen);
}

/// What an assistant message and its block become is legal in itself.
proof fn lemma_unit_legal(m: MessageView, block: Seq<MessageView>)
    requires
        m.role == Role::Assistant,
        forall|k: int| 0 <= k < block.len() ==> (#[trigger] block[k]).role == Role::Tool,
    ensures
        legal(repaired_assistant(m, block) + repaired_block(m, block)),
        repaired_assistant(m, block).len() <= 1,
{
    broadcast use vstd::seq_lib::group_filter_ensures;

    let first = repaired_assistant(m, block);
    let chosen = |t: MessageView| answers(m, t);
    let whole = block.filter(chosen);
    let tools = repaired_block(m, block);
    let unit = first + tools;
    if first.len() == 0 {
        lemma_dropped_together(m, block);
    } else {
        let kept = unit[0];
        assert forall|k: int| 0 <= k < tools.len() implies (#[trigger] tools[k]).role == Role::Tool
            && block.contains(whole[k]) && answers(m, whole[k]) && tools[k] == without_strays(
            m,
            whole[k],
        ) by {
            assert(chosen(whole[k]));
            assert(whole.contains(whole[k]));
            block.lemma_filter_contains_rev(chosen, whole[k]);
        }
        assert forall|k: int| 0 < k < unit.len() implies (#[trigger] unit[k]).role == Role::Tool by {
            assert(unit[k] == tools[k - 1]);
        }
        assert forall|id: Seq<char>| asks(kept, id) <==> asks(m, id) && answered(block, id) by {
            match m.content {
                ContentView::Text(_) => {},
                ContentView::Parts(parts) => {
                    lemma_kept_calls(parts, block, id);
                },
            }
        }
        assert forall|i: int| 0 <= i < unit.len() implies #[trigger] in_order(unit, i) by {
            if i == 0 {
                assert forall|id: Seq<char>| asks(kept, id) implies #[trigger] has_result(
                    unit,
                    0,
                    id,
                ) by {
                    assert(answered(block, id));
                    let j = choose|j: int| 0 <= j < block.len() && #[trigger] brings(block[j], id);
                    assert(asks(m, id));
                    assert(chosen(block[j]));
                    assert(whole.contains(block[j]));
                    let k = choose|k: int| 0 <= k < whole.len() && whole[k] == block[j];
                    assert(unit[k + 1] == tools[k]);
                    lemma_kept_results(m, block[j], id);
                    assert(in_block(unit, 0, k + 1));
                }
            } else {
                let t = whole[i - 1];
                assert(unit[i] == tools[i - 1]);
                let j = choose|j: int| 0 <= j < block.len() && block[j] == t;
                assert forall|id: Seq<char>| #[trigger] brings(unit[i], id) implies asks(
                    kept,
                    id,
                ) by {
                    lemma_kept_results(m, t, id);
                    assert(brings(block[j], id));
                }
                let id = choose|id: Seq<char>| #[trigger] asks(m, id) && brings(t, id);
                lemma_kept_results(m, t, id);
                assert(brings(unit[i], id));
                assert(answers(kept, unit[i]));
                assert(serves(kept, unit[i]));
                assert(in_block(unit, 0, i));
            }
        }
    }
}

/// Two legal histories make a legal one, when the second does not begin with a
/// tool message.
pub proof fn lemma_legal_concat(x: Seq<MessageView>, y: Seq<MessageView>)
    requires
        legal(x),
        legal(y),
        y.len() > 0 ==> y[0].role != Role::Tool,
    ensures
        legal(x + y),
{
    let z = x + y;
    assert forall|i: int| 0 <= i < z.len() implies #[trigger] in_order(z, i) by {
        if i < x.len() {
            assert(in_order(x, i));
            assert(z[i] == x[i]);
            assert forall|id: Seq<char>| z[i].role == Role::Assistant && asks(z[i], id) implies #[trigger] has_result(z, i, id) by {
                assert(has_result(x, i, id));
                let j = choose|j: int| #[trigger] in_block(x, i, j) && brings(x[j], id);
                assert forall|k: int| i < k <= j implies (#[trigger] z[k]).role == Role::Tool by {
                    assert(x[k].role == Role::Tool);
                }
                assert(in_block(z, i, j));
            }
            if x[i].role == Role::Tool {
                let a = choose|a: int| #[trigger] in_block(x, a, i) && serves(x[a], x[i]);
                assert forall|k: int| a < k <= i implies (#[trigger] z[k]).role == Role::Tool by {
                    assert(x[k].role == Role::Tool);
                }
                assert(in_block(z, a, i));
            }
        } else {
            let n = x.len() as int;
            assert(in_order(y, i - n));
            assert(z[i] == y[i - n]);
            assert forall|id: Seq<char>| z[i].role == Role::Assistant && asks(z[i], id) implies #[trigger] has_result(z, i, id) by {
                assert(has_result(y, i - n, id));
                let j = choose|j: int| #[trigger] in_block(y, i - n, j) && brings(y[j], id);
                assert forall|k: int| i < k <= j + n implies (#[trigger] z[k]).role
                    == Role::Tool by {
                    assert(y[k - n].role == Role::Tool);
                }
                assert(in_block(z, i, j + n));
            }
            if y[i - n].role == Role::Tool {
                let a = choose|a: int| #[trigger] in_block(y, a, i - n) && serves(y[a], y[i - n]);
                assert forall|k: int| a + n < k <= i implies (#[trigger] z[k]).role
                    == Role::Tool by {
                    assert(y[k - n].role == Role::Tool);
                }
                assert(in_block(z, a + n, i));
            }
        }
    }
}

proof fn lemma_head_no_tool(ms: Seq<MessageView>)
    ensures
        sanitized(ms).len() > 0 ==> sanitized(ms)[0].role != Role::Tool,
    decreases ms.len(),
{
    if ms.len() > 0 {
        lemma_tool_run(ms.drop_first());
        if ms[0].role == Role::Assistant {
            lemma_head_no_tool(after_block(ms));
            let first = repaired_assistant(ms[0], block_of(ms));
            if first.len() == 0 {
                lemma_dropped_together(ms[0], block_of(ms));
                assert(sanitized(ms) =~= sanitized(after_block(ms)));
            }
        } else {
            lemma_head_no_tool(ms.drop_first());
        }
    }
}

/// The repaired history is legal.
pub proof fn law_sanitized_is_legal(ms: Seq<MessageView>)
    ensures
        legal(sanitized(ms)),
    decreases ms.len(),
{
    if ms.len() > 0 {
        lemma_tool_run(ms.drop_first());
        if ms[0].role == Role::Assistant {
            let block = block_of(ms);
            let rest = after_block(ms);
            assert forall|k: int| 0 <= k < block.len() implies (#[trigger] block[k]).role
                == Role::Tool by {
                assert(block[k] == ms.drop_first()[k]);
            }
            lemma_unit_legal(ms[0], block);
            law_sanitized_is_legal(rest);
            lemma_head_no_tool(rest);
            lemma_legal_concat(
                repaired_assistant(ms[0], block) + repaired_block(ms[0], block),
                sanitized(rest),
            );
        } else if ms[0].role == Role::Tool {
            law_sanitized_is_legal(ms.drop_first());
        } else {
            law_sanitized_is_legal(ms.drop_first());
            lemma_head_no_tool(ms.drop_first());
            let one = seq![ms[0]];
            assert forall|i: int| 0 <= i < one.len() implies #[trigger] in_order(one, i) by {}
            lemma_legal_concat(one, sanitized(ms.drop_first()));
        }
    }
}

proof fn lemma_filter_all<A>(s: Seq<A>, pred: spec_fn(A) -> bool)
    requires
        forall|i: int| 0 <= i < s.len() ==> pred(#[trigger] s[i]),
    ensures
        s.filter(pred) == s,
    decreases s.len(),
{
    reveal(Seq::filter);
    if s.len() > 0 {
        assert forall|i: int| 0 <= i < s.drop_last().len() implies pred(
            #[trigger] s.drop_last()[i],
        ) by {
            assert(pred(s[i]));
        }
        lemma_filter_all(s.drop_last(), pred);
        assert(pred(s[s.len() - 1]));
        assert(s.drop_last().push(s.last()) =~= s);
    }
}

/// The messages behind the first `n` are legal in themselves when `n` does not
/// cut through a block.
proof fn lemma_legal_suffix(ms: Seq<MessageView>, n: int)
    requires
        legal(ms),
        0 <= n <= ms.len(),
        n < ms.len() ==> ms[n].role != Role::Tool,
    ensures
        legal(ms.skip(n)),
{
    let z = ms.skip(n);
    assert forall|i: int| 0 <= i < z.len() implies #[trigger] in_order(z, i) by {
        assert(in_order(ms, i + n));
        assert(z[i] == ms[i + n]);
        assert forall|id: Seq<char>| z[i].role == Role::Assistant && asks(z[i], id) implies #[trigger] has_result(z, i, id) by {
            assert(has_result(ms, i + n, id));
            let j = choose|j: int| #[trigger] in_block(ms, i + n, j) && brings(ms[j], id);
            assert forall|k: int| i < k <= j - n implies (#[trigger] z[k]).role == Role::Tool by {
                assert(ms[k + n].role == Role::Tool);
            }
            assert(in_block(z, i, j - n));
        }
        if z[i].role == Role::Tool {
            let a = choose|a: int| #[trigger] in_block(ms, a, i + n) && serves(ms[a], ms[i + n]);
            if a < n {
                assert(ms[n].role == Role::Tool);
            }
            assert forall|k: int| a - n < k <= i implies (#[trigger] z[k]).role == Role::Tool by {
                assert(ms[k + n].role == Role::Tool);
            }
            assert(in_block(z, a - n, i));
        }
    }
}

/// A legal history is left as it is.
pub proof fn law_legal_is_unchanged(ms: Seq<MessageView>)
    requires
        legal(ms),
    ensures
        sanitized(ms) == ms,
    decreases ms.len(),
{
    if ms.len() > 0 {
        assert(in_order(ms, 0));
        lemma_tool_run(ms.drop_first());
        if ms[0].role == Role::Assistant {
            let block = block_of(ms);
            let rest = after_block(ms);
            let n = 1 + tool_run(ms.drop_first());
            assert(rest.len() > 0 ==> ms[n as int] == ms.drop_first()[n - 1]);
            lemma_legal_suffix(ms, n as int);
            law_legal_is_unchanged(rest);
            let m = ms[0];
            assert forall|k: int| 1 <= k < n implies (#[trigger] ms[k]).role == Role::Tool by {
                assert(ms[k] == ms.drop_first()[k - 1]);
            }
            assert forall|id: Seq<char>| asks(m, id) implies answered(block, id) by {
                assert(has_result(ms, 0, id));
                let j = choose|j: int| #[trigger] in_block(ms, 0, j) && brings(ms[j], id);
                if j >= n {
                    assert(ms[n as int].role == Role::Tool);
                }
                assert(block[j - 1] == ms[j]);
                assert(brings(block[j - 1], id));
            }
            let parts = parts_of(m);
            let stays = |p: PartView| part_stays(p, block);
            assert forall|i: int| 0 <= i < parts.len() implies stays(#[trigger] parts[i]) by {
                if call_id(parts[i]) is Some {
                    lemma_call_ids(parts, i);
                    assert(asks(m, call_id(parts[i])->0));
                }
            }
            lemma_filter_all(parts, stays);
            let chosen = |t: MessageView| answers(m, t);
            assert forall|i: int| 0 <= i < block.len() implies chosen(#[trigger] block[i]) && serves(
                m,
                block[i],
            ) by {
                assert(block[i] == ms[i + 1]);
                assert(in_order(ms, i + 1));
                assert(ms[i + 1].role == Role::Tool);
                let a = choose|a: int| #[trigger] in_block(ms, a, i + 1) && serves(ms[a], ms[i + 1]);
                if a > 0 {
                    assert(ms[a].role == Role::Tool);
                }
            }
            lemma_filter_all(block, chosen);
            assert forall|i: int| 0 <= i < block.len() implies without_strays(
                m,
                #[trigger] block[i],
            ) == block[i] by {
                let t = block[i];
                assert(serves(m, t));
                let parts = parts_of(t);
                let stays = |p: PartView| result_stays(p, m);
                assert forall|k: int| 0 <= k < parts.len() implies stays(#[trigger] parts[k]) by {
                    if result_id(parts[k]) is Some {
                        lemma_result_ids(parts, k);
                        assert(brings(t, result_id(parts[k])->0));
                    }
                }
                lemma_filter_all(parts, stays);
            }
            assert(repaired_block(m, block) =~= block);
            assert(repaired_assistant(m, block) =~= seq![m]);
            assert(seq![m] + block + rest =~= ms);
        } else if ms[0].role == Role::Tool {
            // The result of a call cannot come first.
            let a = choose|a: int| #[trigger] in_block(ms, a, 0) && serves(ms[a], ms[0]);
            assert(false);
        } else {
            if ms.len() > 1 && ms[1].role == Role::Tool {
                assert(in_order(ms, 1));
                let a = choose|a: int| #[trigger] in_block(ms, a, 1) && serves(ms[a], ms[1]);
                assert(a == 0);
            }
            assert(ms.skip(1) =~= ms.drop_first());
            lemma_legal_suffix(ms, 1);
            law_legal_is_unchanged(ms.drop_first());
            assert(seq![ms[0]] + ms.drop_first() =~= ms);
        }
    }
}

/// Repairing a repaired history changes nothing.
pub proof fn law_sanitized_twice(ms: Seq<MessageView>)
    ensures
        sanitized(sanitized(ms)) == sanitized(ms),
{
    law_sanitized_is_legal(ms);
    law_legal_is_unchanged(sanitized(ms));
}

/// What the user and the system said stays, word for word and in order.
pub proof fn law_voices_stay(ms: Seq<MessageView>)
    ensures
        sanitized(ms).filter(|m: MessageView| is_voice(m)) == ms.filter(
            |m: MessageView| is_voice(m),
        ),
    decreases ms.len(),
{
    broadcast use vstd::seq_lib::group_filter_ensures;

    let voice = |m: MessageView| is_voice(m);
    if ms.len() > 0 {
        lemma_tool_run(ms.drop_first());
        if ms[0].role == Role::Assistant {
            let block = block_of(ms);
            let rest = after_block(ms);
            law_voices_stay(rest);
            let first = repaired_assistant(ms[0], block);
            let tools = repaired_block(ms[0], block);
            let chosen = |t: MessageView| answers(ms[0], t);
            assert forall|i: int| 0 <= i < block.len() implies !voice(#[trigger] block[i]) by {
                assert(block[i] == ms.drop_first()[i]);
            }
            let whole = block.filter(chosen);
            assert forall|i: int| 0 <= i < tools.len() implies !voice(#[trigger] tools[i]) by {
                assert(whole.contains(whole[i]));
                block.lemma_filter_contains_rev(chosen, whole[i]);
            }
            first.lemma_all_neg_filter_empty(voice);
            tools.lemma_all_neg_filter_empty(voice);
            block.lemma_all_neg_filter_empty(voice);
            let one = seq![ms[0]];
            one.lemma_all_neg_filter_empty(voice);
            assert(one + block + rest =~= ms);
            Seq::filter_distributes_over_add(first + tools, sanitized(rest), voice);
            Seq::filter_distributes_over_add(first, tools, voice);
            Seq::filter_distributes_over_add(one + block, rest, voice);
            Seq::filter_distributes_over_add(one, block, voice);
            assert(sanitized(ms).filter(voice) =~= ms.filter(voice));
        } else {
            let one = seq![ms[0]];
            let rest = ms.drop_first();
            law_voices_stay(rest);
            assert(one + rest =~= ms);
            Seq::filter_distributes_over_add(one, rest, voice);
            Seq::filter_distributes_over_add(one, sanitized(rest), voice);
            if ms[0].role == Role::Tool {
                one.lemma_all_neg_filter_empty(voice);
                assert(ms.filter(voice) =~= rest.filter(voice));
            }
        }
    }
}

/// A history is repaired piece by piece: what stands before a message that is
/// no tool's does not depend on what follows, nor the other way round.
pub proof fn law_repaired_piece_by_piece(a: Seq<MessageView>, b: Seq<MessageView>)
    requires
        b.len() == 0 || b[0].role != Role::Tool,
    ensures
        sanitized(a + b) == sanitized(a) + sanitized(b),
    decreases a.len(),
{
    let all = a + b;
    if a.len() == 0 {
        assert(all =~= b);
        assert(sanitized(a) + sanitized(b) =~= sanitized(b));
    } else {
        let rest = a.drop_first();
        assert(all.drop_first() =~= rest + b);
        assert(all[0] == a[0]);
        if a[0].role == Role::Assistant {
            let n = tool_run(rest);
            lemma_tool_run(rest);
            assert forall|k: int| 0 <= k < n implies (#[trigger] (rest + b)[k]).role == Role::Tool by {
                assert(rest[k].role == Role::Tool);
            }
            lemma_tool_run_is(rest + b, n);
            assert(block_of(all) =~= block_of(a));
            assert(after_block(all) =~= after_block(a) + b);
            law_repaired_piece_by_piece(after_block(a), b);
            let front = repaired_assistant(a[0], block_of(a)) + repaired_block(a[0], block_of(a));
            assert(front + (sanitized(after_block(a)) + sanitized(b)) =~= front + sanitized(
                after_block(a),
            ) + sanitized(b));
        } else if a[0].role == Role::Tool {
            law_repaired_piece_by_piece(rest, b);
        } else {
            law_repaired_piece_by_piece(rest, b);
            assert(seq![a[0]] + (sanitized(rest) + sanitized(b)) =~= seq![a[0]] + sanitized(rest)
                + sanitized(b));
        }
    }
}

proof fn lemma_one_exchange(m: MessageView, block: Seq<MessageView>)
    requires
        m.role == Role::Assistant,
        forall|k: int| 0 <= k < block.len() ==> (#[trigger] block[k]).role == Role::Tool,
    ensures
        sanitized(seq![m] + block) == repaired_assistant(m, block) + repaired_block(m, block),
{
    let all = seq![m] + block;
    assert(all.drop_first() =~= block);
    lemma_tool_run_is(block, block.len());
    assert(block_of(all) =~= block);
    assert(after_block(all) =~= Seq::empty());
    let front = repaired_assistant(m, block) + repaired_block(m, block);
    assert(front + sanitized(Seq::empty()) =~= front);
}

/// Of a message of the assistant and the tool messages behind it, a part of the
/// message stays where it is no call or has a result there, and goes where it
/// is a call without one.
pub proof fn law_answered_parts_stay(m: MessageView, block: Seq<MessageView>, i: int)
    requires
        m.role == Role::Assistant,
        m.content is Parts,
        forall|k: int| 0 <= k < block.len() ==> (#[trigger] block[k]).role == Role::Tool,
        0 <= i < m.content->Parts_0.len(),
    ensures
        ({
            let r = sanitized(seq![m] + block);
            let p = m.content->Parts_0[i];
            let lost = p is ToolCall && forall|j: int|
                0 <= j < block.len() ==> !#[trigger] brings(block[j], p->ToolCall_id);
            &&& !lost ==> r.len() > 0 && r[0].role == Role::Assistant && r[0].content is Parts
                && r[0].content->Parts_0.contains(p)
            &&& lost && r.len() > 0 && r[0].role == Role::Assistant && r[0].content is Parts
                ==> !r[0].content->Parts_0.contains(p)
        }),
{
    broadcast use vstd::seq_lib::group_filter_ensures;

    let parts = m.content->Parts_0;
    let stays = |p: PartView| part_stays(p, block);
    let stay = parts.filter(stays);
    let p = parts[i];
    lemma_one_exchange(m, block);
    let r = sanitized(seq![m] + block);
    let lost = p is ToolCall && forall|j: int|
        0 <= j < block.len() ==> !#[trigger] brings(block[j], p->ToolCall_id);
    if !lost {
        assert(stays(p));
        assert(stay.contains(p));
        assert(stay.len() > 0);
    } else {
        assert(!stays(p));
        if stay.contains(p) {
            let k = choose|k: int| 0 <= k < stay.len() && stay[k] == p;
            assert(stays(parts.filter(stays)[k]));
        }
        if stay.len() == 0 && r.len() > 0 {
            lemma_block_is_tools(m, block);
            assert(r =~= repaired_block(m, block));
        }
    }
}

proof fn lemma_block_is_tools(m: MessageView, block: Seq<MessageView>)
    requires
        forall|k: int| 0 <= k < block.len() ==> (#[trigger] block[k]).role == Role::Tool,
    ensures
        forall|k: int|
            0 <= k < repaired_block(m, block).len() ==> (#[trigger] repaired_block(m, block)[k]).role
                == Role::Tool,
{
    broadcast use vstd::seq_lib::group_filter_ensures;

    let kept = |t: MessageView| answers(m, t);
    let some = block.filter(kept);
    assert forall|k: int| 0 <= k < repaired_block(m, block).len() implies (#[trigger] repaired_block(
        m,
        block,
    )[k]).role == Role::Tool by {
        assert(some.contains(some[k]));
        block.lemma_filter_contains_rev(kept, some[k]);
        let j = choose|j: int| 0 <= j < block.len() && block[j] == some[k];
        assert(block[j].role == Role::Tool);
    }
}

/// A result stays where the message of the assistant before it asks for it, and
/// goes where it does not.
pub proof fn law_wanted_results_stay(m: MessageView, block: Seq<MessageView>, j: int, k: int)
    requires
        m.role == Role::Assistant,
        forall|k: int| 0 <= k < block.len() ==> (#[trigger] block[k]).role == Role::Tool,
        0 <= j < block.len(),
        block[j].content is Parts,
        0 <= k < block[j].content->Parts_0.len(),
        block[j].content->Parts_0[k] is ToolResult,
    ensures
        ({
            let r = sanitized(seq![m] + block);
            let q = block[j].content->Parts_0[k];
            &&& asks(m, q->ToolResult_id) ==> exists|t: int|
                0 <= t < r.len() && (#[trigger] r[t]).role == Role::Tool && r[t].content is Parts
                    && r[t].content->Parts_0.contains(q)
            &&& !asks(m, q->ToolResult_id) ==> forall|t: int|
                0 <= t < r.len() && (#[trigger] r[t]).role == Role::Tool && r[t].content is Parts
                    ==> !r[t].content->Parts_0.contains(q)
        }),
{
    broadcast use vstd::seq_lib::group_filter_ensures;

    let parts = block[j].content->Parts_0;
    let q = parts[k];
    let id = q->ToolResult_id;
    let kept = |t: MessageView| answers(m, t);
    let some = block.filter(kept);
    let stays = |p: PartView| result_stays(p, m);
    lemma_one_exchange(m, block);
    let first = repaired_assistant(m, block);
    let rest = repaired_block(m, block);
    let r = sanitized(seq![m] + block);
    if asks(m, id) {
        lemma_result_ids(parts, k);
        assert(brings(block[j], id));
        assert(answers(m, block[j]));
        assert(kept(block[j]));
        assert(some.contains(block[j]));
        let n = choose|n: int| 0 <= n < some.len() && some[n] == block[j];
        assert(rest[n] == without_strays(m, block[j]));
        assert(stays(q));
        assert(parts.filter(stays).contains(q));
        lemma_block_is_tools(m, block);
        assert(r[first.len() + n] == rest[n]);
    } else {
        assert forall|t: int|
            0 <= t < r.len() && (#[trigger] r[t]).role == Role::Tool && r[t].content
                is Parts implies !r[t].content->Parts_0.contains(q) by {
            if t >= first.len() {
                let n = t - first.len();
                assert(r[t] == rest[n]);
                assert(rest[n] == without_strays(m, some[n]));
                let all = some[n].content->Parts_0;
                assert(r[t].content->Parts_0 == all.filter(stays));
                if r[t].content->Parts_0.contains(q) {
                    let z = choose|z: int|
                        0 <= z < r[t].content->Parts_0.len() && r[t].content->Parts_0[z] == q;
                    assert(stays(all.filter(stays)[z]));
                }
            }
        }
    }
}

/// What the assistant said in one text stays as it is, unless it is empty.
pub proof fn law_said_text_stays(m: MessageView)
    requires
        m.role == Role::Assistant,
        m.content is Text,
    ensures
        m.content->Text_0.len() > 0 ==> sanitized(seq![m]) == seq![m],
        m.content->Text_0.len() == 0 ==> sanitized(seq![m]) == Seq::<MessageView>::empty(),
{
    let none = Seq::<MessageView>::empty();
    lemma_one_exchange(m, none);
    assert(seq![m] + none =~= seq![m]);
    reveal(Seq::filter);
    assert(repaired_block(m, none) =~= none);
    assert(repaired_assistant(m, none) + none =~= repaired_assistant(m, none));
}

} // verus!
