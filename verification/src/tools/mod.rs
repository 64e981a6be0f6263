//! The tools that a model may call.


use serde_json::Value;
use vstd::prelude::*;

use crate::json;
use crate::json::{json_of, json_text, text_in, Json};
use crate::message::ToolCall;
use crate::text::{lemma_regrouped, lemma_stands_in, occurs, same, stands_at};

pub mod bash;
pub mod hotplug;
pub mod release_notes;
pub mod replace_text;
pub mod self_tools;

verus! {

/// What a tool call gave; where it failed, `output` is the error text that the
/// model is shown.
#[derive(Debug)]
pub struct ToolOutput {
    pub ok: bool,
    pub output: String,
}

#[verifier::ext_equal]
pub struct OutputView {
    pub ok: bool,
    pub output: Seq<char>,
}

impl View for ToolOutput {
    type V = OutputView;

    open spec fn view(&self) -> OutputView {
        OutputView { ok: self.ok, output: self.output@ }
    }
}

/// The output of a failed call.
pub open spec fn failed(output: Seq<char>) -> OutputView {
    OutputView { ok: false, output }
}

impl ToolOutput {
    /// The output of a failed call.
    pub fn err(output: String) -> (r: Self)
        ensures
            r@ == failed(output@),
    {
        ToolOutput { ok: false, output }
    }
}

/// What a tool is to the model: its name, what it does, and the JSON schema of
/// its arguments.
#[derive(Debug)]
pub struct ToolDef {
    pub name: String,
    pub description: String,
    pub parameters: Value,
}

#[verifier::ext_equal]
pub struct ToolView {
    pub name: Seq<char>,
    pub description: Seq<char>,
    pub parameters: Json,
}

impl View for ToolDef {
    type V = ToolView;

    open spec fn view(&self) -> ToolView {
        ToolView {
            name: self.name@,
            description: self.description@,
            parameters: json_of(self.parameters),
        }
    }
}

impl Clone for ToolDef {
    fn clone(&self) -> (r: Self)
        ensures
            r@ == self@,
    {
        ToolDef {
            name: self.name.clone(),
            description: self.description.clone(),
            parameters: self.parameters.clone(),
        }
    }
}

impl ToolDef {
    pub fn new(name: &str, description: &str, parameters: Value) -> (r: Self)
        ensures
            r@ == (ToolView {
                name: name@,
                description: description@,
                parameters: json_of(parameters),
            }),
    {
        ToolDef { name: name.to_owned(), description: description.to_owned(), parameters }
    }

    pub fn name(&self) -> (r: &str)
        ensures
            r@ == self@.name,
    {
        self.name.as_str()
    }
}

/// How the run of a tool came to an end.
#[derive(Debug)]
pub enum ToolOutcome {
    /// The turn was cancelled while the tool ran.
    Cancelled,
    /// The tool gave a value.
    Done(Value),
    /// The tool reported an error.
    Failed(String),
    /// The tool panicked, with this message where it had one.
    Panicked(Option<String>),
    /// The task that ran the tool was taken down.
    TaskCancelled,
}

/// What the model is shown of a run that came to this end.
pub open spec fn outcome_output(o: ToolOutcome) -> OutputView {
    match o {
        ToolOutcome::Cancelled => failed("error: tool execution cancelled"@),
        ToolOutcome::Done(v) => OutputView { ok: true, output: shown(json_of(v)) },
        ToolOutcome::Failed(e) => failed("error: "@ + e@),
        ToolOutcome::Panicked(p) => failed(
            "error: "@ + match p {
                Some(s) => s@,
                None => "tool panicked"@,
            },
        ),
        ToolOutcome::TaskCancelled => failed("error: tool task cancelled"@),
    }
}

/// A value as the model is shown it: a string as it is, any other value as
/// JSON text.
pub open spec fn shown(j: Json) -> Seq<char> {
    match text_in(j) {
        Some(s) => s,
        None => json_text(j),
    }
}

/// A value as the model is shown it.
pub fn show(v: &Value) -> (r: String)
    ensures
        r@ == shown(json_of(*v)),
{
    match v.as_str() {
        Some(s) => s.to_owned(),
        None => json::text_of(v),
    }
}

/// What the model is shown of the panic of a tool.
pub fn panic_message(p: Option<String>) -> (r: String)
    ensures
        r@ == match p {
            Some(s) => s@,
            None => "tool panicked"@,
        },
{
    match p {
        Some(s) => s,
        None => "tool panicked".to_owned(),
    }
}

/// The views of a sequence of tools.
pub open spec fn tool_views(v: Seq<ToolDef>) -> Seq<ToolView> {
    Seq::new(v.len(), |i: int| v[i]@)
}

/// No two tools have the same name.
pub open spec fn distinct_names(v: Seq<ToolView>) -> bool {
    forall|i: int, j: int| 0 <= i < j < v.len() ==> (#[trigger] v[i]).name != (#[trigger] v[j]).name
}

/// The place of the first tool of this name, or the number of tools where
/// there is none.
pub open spec fn place(v: Seq<ToolView>, name: Seq<char>) -> int
    decreases v.len(),
{
    if v.len() == 0 || v[0].name == name {
        0
    } else {
        1 + place(v.drop_first(), name)
    }
}

/// A tool of this name is among them.
pub open spec fn has_tool(v: Seq<ToolView>, name: Seq<char>) -> bool {
    place(v, name) < v.len()
}

/// The tools with `t` among them: in the place of the tool of its name, or at
/// the end.
pub open spec fn with_tool(v: Seq<ToolView>, t: ToolView) -> Seq<ToolView> {
    if has_tool(v, t.name) {
        v.update(place(v, t.name), t)
    } else {
        v.push(t)
    }
}

/// The tools that come of registering `defs` one after another.
pub open spec fn all_tools(defs: Seq<ToolView>) -> Seq<ToolView>
    decreases defs.len(),
{
    if defs.len() == 0 {
        Seq::empty()
    } else {
        with_tool(all_tools(defs.drop_last()), defs.last())
    }
}

proof fn lemma_place(v: Seq<ToolView>, name: Seq<char>)
    ensures
        0 <= place(v, name) <= v.len(),
        place(v, name) < v.len() ==> v[place(v, name)].name == name,
        forall|i: int| 0 <= i < place(v, name) ==> (#[trigger] v[i]).name != name,
    decreases v.len(),
{
    if v.len() > 0 && v[0].name != name {
        let rest = v.drop_first();
        lemma_place(rest, name);
        assert forall|i: int| 0 <= i < place(v, name) implies (#[trigger] v[i]).name != name by {
            if i > 0 {
                assert(v[i] == rest[i - 1]);
            }
        }
        if place(v, name) < v.len() {
            assert(v[place(v, name)] == rest[place(rest, name)]);
        }
    }
}

proof fn lemma_with_tool_distinct(v: Seq<ToolView>, t: ToolView)
    requires
        distinct_names(v),
    ensures
        distinct_names(with_tool(v, t)),
{
    lemma_place(v, t.name);
    let w = with_tool(v, t);
    assert forall|i: int, j: int| 0 <= i < j < w.len() implies (#[trigger] w[i]).name != (
    #[trigger] w[j]).name by {
        let k = place(v, t.name);
        if k < v.len() {
            assert(v[i].name != v[j].name);
            assert(v[k].name == t.name);
        } else if j < v.len() {
            assert(v[i].name != v[j].name);
        } else {
            assert(v[i].name != t.name);
        }
    }
}

/// Registering a tool makes it the one of its name and leaves the others.
pub proof fn law_registered_tool_is_found(v: Seq<ToolView>, t: ToolView, other: Seq<char>)
    requires
        distinct_names(v),
        other != t.name,
    ensures
        has_tool(with_tool(v, t), t.name),
        with_tool(v, t)[place(with_tool(v, t), t.name)] == t,
        has_tool(with_tool(v, t), other) == has_tool(v, other),
        has_tool(v, other) ==> with_tool(v, t)[place(with_tool(v, t), other)] == v[place(v, other)],
{
    let w = with_tool(v, t);
    lemma_place(v, t.name);
    lemma_place(w, t.name);
    lemma_place(v, other);
    lemma_place(w, other);
    lemma_with_tool_distinct(v, t);
    let k = place(v, t.name);
    assert(w[k] == t);
    if place(w, t.name) > k {
        assert(w[k].name != t.name);
    } else if place(w, t.name) < k {
        assert(w[place(w, t.name)] == v[place(w, t.name)]);
    }
    if has_tool(v, other) {
        let o = place(v, other);
        assert(w[o] == v[o]);
        if place(w, other) > o {
            assert(w[o].name != other);
        } else if place(w, other) < o {
            assert(w[place(w, other)].name == other);
            assert(w[place(w, other)] == v[place(w, other)]);
        }
    } else if has_tool(w, other) {
        let o = place(w, other);
        assert(o != k);
        assert(w[o] == v[o]);
    }
}

/// The registered tools, one for each name.
#[derive(Debug)]
pub struct ToolRegistry {
    tools: Vec<ToolDef>,
}

impl View for ToolRegistry {
    type V = Seq<ToolView>;

    closed spec fn view(&self) -> Seq<ToolView> {
        tool_views(self.tools@)
    }
}

impl ToolRegistry {
    #[verifier::type_invariant]
    spec fn one_for_each_name(&self) -> bool {
        distinct_names(tool_views(self.tools@))
    }

    /// A registry without tools.
    pub fn empty() -> (r: Self)
        ensures
            r@ == Seq::<ToolView>::empty(),
    {
        let r = ToolRegistry { tools: Vec::new() };
        assert(r@ =~= Seq::empty());
        r
    }

    /// The tools given; of two with one name the later stays.
    pub fn new(defs: Vec<ToolDef>) -> (r: Self)
        ensures
            r@ == all_tools(tool_views(defs@)),
    {
        let mut out = ToolRegistry::empty();
        let mut i: usize = 0;
        assert(tool_views(defs@).take(0) =~= Seq::empty());
        while i < defs.len()
            invariant
                i <= defs@.len(),
                out@ == all_tools(tool_views(defs@).take(i as int)),
            decreases defs@.len() - i,
        {
            assert(tool_views(defs@).take(i + 1).drop_last() =~= tool_views(defs@).take(i as int));
            out.register(defs[i].clone());
            i = i + 1;
        }
        assert(tool_views(defs@).take(i as int) =~= tool_views(defs@));
        out
    }

    /// The place of the tool of this name.
    fn find(&self, name: &str) -> (r: usize)
        ensures
            r == place(self@, name@),
            r <= self.tools@.len(),
    {
        let mut i: usize = 0;
        proof {
            lemma_place(self@, name@);
        }
        while i < self.tools.len()
            invariant
                i <= self.tools@.len(),
                place(self@, name@) >= i,
                place(self@, name@) <= self@.len(),
                self@ == tool_views(self.tools@),
                forall|k: int| 0 <= k < place(self@, name@) ==> (#[trigger] self@[k]).name != name@,
            decreases self.tools@.len() - i,
        {
            if same(self.tools[i].name.as_str(), name) {
                assert(self@[i as int].name == name@);
                return i;
            }
            proof {
                lemma_place(self@, name@);
                assert(self@[i as int].name != name@);
            }
            i = i + 1;
        }
        i
    }

    /// Registers a tool; one of its name gives way to it.
    pub fn register(&mut self, def: ToolDef)
        ensures
            final(self)@ == with_tool(old(self)@, def@),
    {
        proof {
            use_type_invariant(&*self);
            lemma_with_tool_distinct(self@, def@);
        }
        let i: usize = self.find(def.name.as_str());
        let ghost before = self.tools@;
        let ghost view = def@;
        proof {
            assert(tool_views(before.push(def)) =~= tool_views(before).push(view));
            if i < before.len() {
                assert(tool_views(before.update(i as int, def)) =~= tool_views(before).update(
                    i as int,
                    view,
                ));
            }
        }
        let mut tools: Vec<ToolDef> = Vec::new();
        std::mem::swap(&mut self.tools, &mut tools);
        if i < tools.len() {
            tools.set(i, def);
        } else {
            tools.push(def);
        }
        self.tools = tools;
    }

    /// The tool of this name.
    pub fn get(&self, name: &str) -> (r: Option<&ToolDef>)
        ensures
            match r {
                Some(d) => has_tool(self@, name@) && d@ == self@[place(self@, name@)],
                None => !has_tool(self@, name@),
            },
    {
        let i: usize = self.find(name);
        if i < self.tools.len() {
            Some(&self.tools[i])
        } else {
            None
        }
    }

    pub fn len(&self) -> (r: usize)
        ensures
            r == self@.len(),
    {
        self.tools.len()
    }

    pub fn is_empty(&self) -> (r: bool)
        ensures
            r == (self@.len() == 0),
    {
        self.tools.len() == 0
    }

    /// What the model is told of the tools.
    pub fn schemas(&self) -> (r: Vec<ToolDef>)
        ensures
            tool_views(r@) == self@,
    {
        let mut out: Vec<ToolDef> = Vec::new();
        let mut i: usize = 0;
        while i < self.tools.len()
            invariant
                i <= self.tools@.len(),
                self@ == tool_views(self.tools@),
                tool_views(out@) == self@.take(i as int),
            decreases self.tools@.len() - i,
        {
            let ghost before = tool_views(out@);
            out.push(self.tools[i].clone());
            assert(tool_views(out@) =~= before.push(self@[i as int]));
            assert(self@.take(i + 1) =~= self@.take(i as int).push(self@[i as int]));
            i = i + 1;
        }
        assert(self@.take(i as int) =~= self@);
        out
    }

    /// The output of a call whose run came to the end `outcome`. A call of a
    /// tool that is not registered is not run, and fails.
    pub fn execute(&self, call: &ToolCall, outcome: ToolOutcome) -> (r: ToolOutput)
        ensures
            r@ == if has_tool(self@, call@.name) {
                outcome_output(outcome)
            } else {
                failed(unknown_tool(call@.name))
            },
    {
        if self.get(call.tool_name.as_str()).is_none() {
            let mut out = "error: unknown tool '".to_owned();
            out.push_str(call.tool_name.as_str());
            out.push_str("'");
            assert(out@ =~= unknown_tool(call@.name));
            return ToolOutput::err(out);
        }
        match outcome {
            ToolOutcome::Cancelled => ToolOutput::err("error: tool execution cancelled".to_owned()),
            ToolOutcome::Done(v) => ToolOutput { ok: true, output: show(&v) },
            ToolOutcome::Failed(e) => {
                let mut out = "error: ".to_owned();
                out.push_str(e.as_str());
                ToolOutput::err(out)
            },
            ToolOutcome::Panicked(p) => {
                let mut out = "error: ".to_owned();
                out.push_str(panic_message(p).as_str());
                ToolOutput::err(out)
            },
            ToolOutcome::TaskCancelled => ToolOutput::err("error: tool task cancelled".to_owned()),
        }
    }
}

/// What is said of a call of a tool that is not registered.
pub open spec fn unknown_tool(name: Seq<char>) -> Seq<char> {
    "error: unknown tool '"@ + name + "'"@
}

// ── laws ────────────────────────────────────────────────────────────

/// A call went well just where its tool gave a value; whatever else came of it
/// is told as an error, with the tool's own words where it had any.
pub proof fn law_only_a_value_is_ok(o: ToolOutcome, e: String, said: Seq<char>)
    ensures
        outcome_output(o).ok <==> o is Done,
        !(o is Done) ==> stands_at(outcome_output(o).output, "error: "@, 0),
        o is Done ==> outcome_output(o).output == shown(json_of(o->Done_0)),
        outcome_output(ToolOutcome::Failed(e)).output == "error: "@ + e@,
        outcome_output(ToolOutcome::Panicked(Some(e))).output == "error: "@ + e@,
        !failed(said).ok && failed(said).output == said,
{
    let out = outcome_output(o).output;
    match o {
        ToolOutcome::Cancelled => {
            reveal_strlit("error: ");
            reveal_strlit("error: tool execution cancelled");
            assert(out.subrange(0, 7) =~= "error: "@);
        },
        ToolOutcome::TaskCancelled => {
            reveal_strlit("error: ");
            reveal_strlit("error: tool task cancelled");
            assert(out.subrange(0, 7) =~= "error: "@);
        },
        ToolOutcome::Done(_) => {},
        _ => {
            assert(out.subrange(0, "error: "@.len() as int) =~= "error: "@);
        },
    }
}

/// A call of a tool that is not registered is told as an error that names it.
pub proof fn law_unknown_tool_is_named(name: Seq<char>)
    ensures
        stands_at(unknown_tool(name), "error: "@, 0),
        occurs(unknown_tool(name), "'"@ + name + "'"@),
{
    reveal_strlit("error: ");
    reveal_strlit("'");
    reveal_strlit("unknown tool ");
    reveal_strlit("error: unknown tool '");
    let front = "error: "@ + "unknown tool "@;
    assert("error: unknown tool '"@ =~= front + "'"@);
    let t = "'"@ + name + "'"@;
    lemma_regrouped(front, "'"@, name);
    lemma_regrouped(front, "'"@ + name, "'"@);
    lemma_stands_in(front, t, Seq::empty());
    assert(front + t + Seq::<char>::empty() =~= front + t);
    assert(unknown_tool(name).subrange(0, 7) =~= "error: "@);
}

/// A string is shown as it is; only another value as JSON text.
pub proof fn law_strings_are_shown_as_they_are(j: Json, s: Seq<char>)
    ensures
        text_in(j) == Some(s) ==> shown(j) == s,
        text_in(j) is None ==> shown(j) == json_text(j),
{
}

/// Registered tools keep their places: one of a new name comes last, one of a
/// known name takes the place of the one before it, and no other moves.
pub proof fn law_tools_keep_their_places(v: Seq<ToolView>, t: ToolView, i: int)
    requires
        distinct_names(v),
        0 <= i < v.len(),
    ensures
        distinct_names(with_tool(v, t)),
        v[i].name != t.name ==> with_tool(v, t)[i] == v[i],
        v[i].name == t.name ==> with_tool(v, t)[i] == t && with_tool(v, t).len() == v.len(),
        (forall|k: int| 0 <= k < v.len() ==> (#[trigger] v[k]).name != t.name) ==> with_tool(v, t)
            == v + seq![t],
{
    lemma_with_tool_distinct(v, t);
    lemma_place(v, t.name);
    let k = place(v, t.name);
    if v[i].name == t.name && k != i {
        assert(v[k].name != v[i].name);
    }
    if forall|k: int| 0 <= k < v.len() ==> (#[trigger] v[k]).name != t.name {
        assert(with_tool(v, t) =~= v + seq![t]);
    }
}

/// Of tools with one name the one given last stays, and no two that stay have
/// the same name.
pub proof fn law_later_tool_stays(defs: Seq<ToolView>, t: ToolView, other: Seq<char>)
    ensures
        distinct_names(all_tools(defs)),
        has_tool(all_tools(defs.push(t)), t.name),
        all_tools(defs.push(t))[place(all_tools(defs.push(t)), t.name)] == t,
        other != t.name ==> has_tool(all_tools(defs.push(t)), other) == has_tool(
            all_tools(defs),
            other,
        ),
    decreases defs.len(),
{
    assert(defs.push(t).drop_last() =~= defs);
    lemma_all_tools_distinct(defs);
    lemma_place(with_tool(all_tools(defs), t), t.name);
    if other != t.name {
        law_registered_tool_is_found(all_tools(defs), t, other);
    } else {
        let another = t.name.push('x');
        assert(another.len() != t.name.len());
        law_registered_tool_is_found(all_tools(defs), t, another);
    }
}

proof fn lemma_all_tools_distinct(defs: Seq<ToolView>)
    ensures
        distinct_names(all_tools(defs)),
    decreases defs.len(),
{
    if defs.len() > 0 {
        lemma_all_tools_distinct(defs.drop_last());
        lemma_with_tool_distinct(all_tools(defs.drop_last()), defs.last());
    }
}

} // verus!
