//! Tools that come from plugins loaded while the agent runs.

use serde_json::Value;
use vstd::prelude::*;

use crate::json;
use crate::json::{
    bool_in, field, json_of, json_parsed, json_text, parsed_or_null, text_field, Json,
};
use crate::message::text_opt;
use crate::text::{decimal, join, joined, lemma_stands_in, number, occurs, texts};
use crate::tools::{with_tool, ToolDef, ToolRegistry, ToolView};

verus! {

/// What the model is told of the tool that loads plugins.
pub const HOTPLUG_DESCRIPTION: &'static str = "Hot-load a cdylib plugin at runtime: load the .so, read its C ABI tools, and register them into the running ToolRegistry. Pass the path to the shared library. New tools are immediately available to the model — no rebuild of the main program, no restart.";

/// The schema of the tool that loads plugins, as JSON text.
pub const HOTPLUG_SCHEMA: &'static str = "{\"type\":\"object\",\"properties\":{\"path\":{\"type\":\"string\",\"description\":\"Path to the shared library (.so/.dylib/.dll), e.g. target/debug/librutis_myplugin.so\"}},\"required\":[\"path\"]}";

/// The tool that loads plugins.
pub fn hotplug_load() -> (r: ToolDef)
    ensures
        r@ == (ToolView {
            name: "hotplug_load"@,
            description: HOTPLUG_DESCRIPTION@,
            parameters: parsed_or_null(HOTPLUG_SCHEMA@),
        }),
{
    ToolDef::new("hotplug_load", HOTPLUG_DESCRIPTION, json::parse_or_null(HOTPLUG_SCHEMA))
}

/// The tool that a plugin declares at place `i` by a JSON text, or why it is
/// refused: the text cannot be read, or it gives no name.
pub open spec fn declared_tool(i: nat, parsed: Result<Json, Seq<char>>) -> Result<
    ToolView,
    Seq<char>,
> {
    match parsed {
        Err(e) => Err("bad schema["@ + decimal(i) + "]: "@ + e),
        Ok(j) => match text_field(j, "name"@) {
            None => Err("tool["@ + decimal(i) + "] missing name"@),
            Some(name) => Ok(
                ToolView {
                    name,
                    description: match text_field(j, "description"@) {
                        Some(d) => d,
                        None => Seq::empty(),
                    },
                    parameters: match field(j, "parameters"@) {
                        Some(p) => p,
                        None => Json::Null,
                    },
                },
            ),
        },
    }
}

pub open spec fn parse_view(r: Result<Value, String>) -> Result<Json, Seq<char>> {
    match r {
        Ok(v) => Ok(json_of(v)),
        Err(e) => Err(e@),
    }
}

/// The tool that a plugin declares, from what was read of its declaration.
pub fn tool_from(i: u32, parsed: Result<Value, String>) -> (r: Result<ToolDef, String>)
    ensures
        match r {
            Ok(t) => declared_tool(i as nat, parse_view(parsed)) == Ok::<ToolView, Seq<char>>(t@),
            Err(e) => declared_tool(i as nat, parse_view(parsed)) == Err::<ToolView, Seq<char>>(
                e@,
            ),
        },
{
    match parsed {
        Err(e) => {
            let mut s = "bad schema[".to_owned();
            s.push_str(number(i as u64).as_str());
            s.push_str("]: ");
            s.push_str(e.as_str());
            Err(s)
        },
        Ok(v) => match json::str_field(&v, "name") {
            None => {
                let mut s = "tool[".to_owned();
                s.push_str(number(i as u64).as_str());
                s.push_str("] missing name");
                Err(s)
            },
            Some(name) => {
                let description = match json::str_field(&v, "description") {
                    Some(d) => d.to_owned(),
                    None => String::new(),
                };
                let parameters = match json::get(&v, "parameters") {
                    Some(p) => p.clone(),
                    None => json::null(),
                };
                Ok(ToolDef { name: name.to_owned(), description, parameters })
            },
        },
    }
}

/// What becomes of a plugin's declarations: the tools that are registered then,
/// the names of those that were declared, and why it came to an end early, where
/// it did.
#[verifier::ext_equal]
pub ghost struct Registered {
    pub tools: Seq<ToolView>,
    pub names: Seq<Seq<char>>,
    pub refusal: Option<Seq<char>>,
}

/// What becomes of a plugin's declarations: they are taken one after another, up
/// to the first that is refused.
pub open spec fn registered(tools: Seq<ToolView>, declarations: Seq<Seq<char>>) -> Registered
    decreases declarations.len(),
{
    if declarations.len() == 0 {
        Registered { tools, names: Seq::empty(), refusal: None }
    } else {
        let i = (declarations.len() - 1) as nat;
        let before = registered(tools, declarations.drop_last());
        if before.refusal is Some {
            before
        } else {
            match declared_tool(i, json_parsed(declarations.last())) {
                Err(e) => Registered { refusal: Some(e), ..before },
                Ok(t) => Registered {
                    tools: with_tool(before.tools, t),
                    names: before.names.push(t.name),
                    refusal: None,
                },
            }
        }
    }
}

proof fn lemma_refused_stays_refused(tools: Seq<ToolView>, declarations: Seq<Seq<char>>, n: int)
    requires
        0 <= n <= declarations.len(),
        registered(tools, declarations.take(n)).refusal is Some,
    ensures
        registered(tools, declarations) == registered(tools, declarations.take(n)),
    decreases declarations.len(),
{
    if n == declarations.len() {
        assert(declarations.take(n) =~= declarations);
    } else {
        assert(declarations.drop_last().take(n) =~= declarations.take(n));
        lemma_refused_stays_refused(tools, declarations.drop_last(), n);
    }
}

/// Registers the tools that a plugin declares. Gives the names of those that
/// were registered, and why the next one was not, where it came to that.
pub fn register_tools(declarations: &Vec<String>, registry: &mut ToolRegistry) -> (r: (
    Vec<String>,
    Option<String>,
))
    requires
        declarations@.len() <= u32::MAX,
    ensures
        registered(old(registry)@, texts(declarations@)) == (Registered {
            tools: final(registry)@,
            names: texts(r.0@),
            refusal: text_opt(r.1),
        }),
{
    let ghost start = registry@;
    let ghost all = texts(declarations@);
    let mut names: Vec<String> = Vec::new();
    let mut i: usize = 0;
    assert(all.take(0) =~= Seq::empty());
    assert(texts(names@) =~= Seq::empty());
    while i < declarations.len()
        invariant
            i <= declarations@.len() <= u32::MAX,
            all == texts(declarations@),
            start == old(registry)@,
            registered(start, all.take(i as int)) == (Registered {
                tools: registry@,
                names: texts(names@),
                refusal: None,
            }),
        decreases declarations@.len() - i,
    {
        proof {
            assert(all.take(i + 1).drop_last() =~= all.take(i as int));
            assert(all.take(i + 1).last() == declarations@[i as int]@);
        }
        let parsed = json::parse(declarations[i].as_str());
        assert(parse_view(parsed) == json_parsed(declarations@[i as int]@));
        match tool_from(i as u32, parsed) {
            Err(e) => {
                proof {
                    lemma_refused_stays_refused(start, all, i + 1);
                }
                return (names, Some(e));
            },
            Ok(def) => {
                let ghost before = texts(names@);
                names.push(def.name.clone());
                assert(texts(names@) =~= before.push(def@.name));
                registry.register(def);
            },
        }
        i = i + 1;
    }
    assert(all.take(i as int) =~= all);
    (names, None)
}

/// Registers the tools that a plugin declares. Gives their names, or why one of
/// them was refused; those before it stay registered.
pub fn load_plugin_tools(declarations: &Vec<String>, registry: &mut ToolRegistry) -> (r: Result<
    Vec<String>,
    String,
>)
    requires
        declarations@.len() <= u32::MAX,
    ensures
        final(registry)@ == registered(old(registry)@, texts(declarations@)).tools,
        match r {
            Ok(names) => {
                &&& registered(old(registry)@, texts(declarations@)).refusal is None
                &&& registered(old(registry)@, texts(declarations@)).names == texts(names@)
            },
            Err(e) => registered(old(registry)@, texts(declarations@)).refusal == Some(e@),
        },
{
    match register_tools(declarations, registry) {
        (names, None) => Ok(names),
        (_, Some(e)) => Err(e),
    }
}

/// What a call of a plugin's tool gives: where it says that it went well, its
/// notes or that it did; else what it says as an error. An answer that is no
/// JSON is its own text.
pub open spec fn plugin_answer(parsed: Result<Json, Seq<char>>, out: Seq<char>) -> Result<
    Json,
    Seq<char>,
> {
    let j = match parsed {
        Ok(j) => j,
        Err(_) => Json::Text(out),
    };
    if field(j, "ok"@) is Some && bool_in(field(j, "ok"@)->0) == Some(true) {
        match field(j, "notes"@) {
            Some(n) => Ok(n),
            None => Ok(Json::Text("ok"@)),
        }
    } else {
        Err(json_text(j))
    }
}

/// What a call of a plugin's tool gives, from what was read of its answer.
pub fn answer_from(parsed: Result<Value, String>, out: &str) -> (r: Result<Value, String>)
    ensures
        match r {
            Ok(v) => plugin_answer(parse_view(parsed), out@) == Ok::<Json, Seq<char>>(json_of(v)),
            Err(e) => plugin_answer(parse_view(parsed), out@) == Err::<Json, Seq<char>>(e@),
        },
{
    let v = match parsed {
        Ok(v) => v,
        Err(_) => json::string(out.to_owned()),
    };
    let ok = match json::get(&v, "ok") {
        Some(x) => match x.as_bool() {
            Some(b) => b,
            None => false,
        },
        None => false,
    };
    if ok {
        match json::get(&v, "notes") {
            Some(n) => Ok(n.clone()),
            None => Ok(json::string("ok".to_owned())),
        }
    } else {
        Err(json::text_of(&v))
    }
}

/// What a call of a plugin's tool gives.
pub fn plugin_result(out: &str) -> (r: Result<Value, String>)
    ensures
        match r {
            Ok(v) => plugin_answer(json_parsed(out@), out@) == Ok::<Json, Seq<char>>(json_of(v)),
            Err(e) => plugin_answer(json_parsed(out@), out@) == Err::<Json, Seq<char>>(e@),
        },
{
    let parsed = json::parse(out);
    assert(parse_view(parsed) == json_parsed(out@));
    answer_from(parsed, out)
}

/// The library to be loaded.
pub fn plan_hotplug(args: &Value) -> (r: Result<String, String>)
    ensures
        match r {
            Ok(p) => text_field(json_of(*args), "path"@) == Some(p@),
            Err(e) => {
                &&& text_field(json_of(*args), "path"@) is None
                &&& e@ == "error: path is required"@
            },
        },
{
    match json::str_field(args, "path") {
        Some(p) => Ok(p.to_owned()),
        None => Err("error: path is required".to_owned()),
    }
}

/// What the model is told of a loaded plugin.
pub fn hotplug_report(names: &Vec<String>, path: &str) -> (r: String)
    ensures
        r@ == "hot-loaded "@ + decimal(names@.len()) + " tool(s) from "@ + path@ + ": "@ + joined(
            texts(names@),
            ", "@,
        ),
{
    let mut s = "hot-loaded ".to_owned();
    s.push_str(number(names.len() as u64).as_str());
    s.push_str(" tool(s) from ");
    s.push_str(path);
    s.push_str(": ");
    s.push_str(join(names, ", ").as_str());
    s
}

// ── laws ────────────────────────────────────────────────────────────

/// A declaration makes a tool just where it can be read and gives a name; what
/// it leaves out is empty. One that does not is refused by its place.
pub proof fn law_declaration_makes_a_tool(i: nat, parsed: Result<Json, Seq<char>>)
    ensures
        declared_tool(i, parsed) is Ok <==> parsed is Ok && text_field(parsed->Ok_0, "name"@)
            is Some,
        declared_tool(i, parsed) is Ok ==> {
            let t = declared_tool(i, parsed)->Ok_0;
            &&& Some(t.name) == text_field(parsed->Ok_0, "name"@)
            &&& t.description == match text_field(parsed->Ok_0, "description"@) {
                Some(d) => d,
                None => Seq::empty(),
            }
            &&& t.parameters == match field(parsed->Ok_0, "parameters"@) {
                Some(p) => p,
                None => Json::Null,
            }
        },
        declared_tool(i, parsed) is Err ==> occurs(
            declared_tool(i, parsed)->Err_0,
            "["@ + decimal(i) + "]"@,
        ),
{
    let t = "["@ + decimal(i) + "]"@;
    reveal_strlit("[");
    reveal_strlit("]");
    if parsed is Err {
        reveal_strlit("bad schema");
        reveal_strlit("bad schema[");
        reveal_strlit("]: ");
        reveal_strlit(": ");
        assert("bad schema["@ =~= "bad schema"@ + "["@);
        assert("]: "@ =~= "]"@ + ": "@);
        lemma_stands_in("bad schema"@, t, ": "@ + parsed->Err_0);
        assert("bad schema"@ + t + (": "@ + parsed->Err_0) =~= declared_tool(i, parsed)->Err_0);
    } else if text_field(parsed->Ok_0, "name"@) is None {
        reveal_strlit("tool");
        reveal_strlit("tool[");
        reveal_strlit(" missing name");
        reveal_strlit("] missing name");
        assert("tool["@ =~= "tool"@ + "["@);
        assert("] missing name"@ =~= "]"@ + " missing name"@);
        lemma_stands_in("tool"@, t, " missing name"@);
        assert("tool"@ + t + " missing name"@ =~= declared_tool(i, parsed)->Err_0);
    }
}

/// The declarations of a plugin are taken in their order, each under its own
/// place. Where none is refused, all are registered; else those before the
/// first that is refused are, and no other.
pub proof fn law_declarations_are_taken_in_order(
    tools: Seq<ToolView>,
    declarations: Seq<Seq<char>>,
    i: int,
)
    requires
        0 <= i < declarations.len(),
    ensures
        ({
            let r = registered(tools, declarations);
            let n = r.names.len();
            &&& n <= declarations.len()
            &&& r.refusal is None <==> n == declarations.len()
            &&& i < n ==> declared_tool(i as nat, json_parsed(declarations[i])) is Ok && r.names[i]
                == declared_tool(i as nat, json_parsed(declarations[i]))->Ok_0.name
            &&& i == n ==> r.refusal is Some && declared_tool(
                i as nat,
                json_parsed(declarations[i]),
            ) == Err::<ToolView, Seq<char>>(r.refusal->0)
        }),
    decreases declarations.len(),
{
    let front = declarations.drop_last();
    lemma_taken(tools, front);
    if i < front.len() {
        law_declarations_are_taken_in_order(tools, front, i);
        assert(front[i] == declarations[i]);
    } else {
        lemma_taken(tools, declarations);
    }
}

proof fn lemma_taken(tools: Seq<ToolView>, declarations: Seq<Seq<char>>)
    ensures
        registered(tools, declarations).names.len() <= declarations.len(),
        registered(tools, declarations).refusal is None <==> registered(
            tools,
            declarations,
        ).names.len() == declarations.len(),
    decreases declarations.len(),
{
    if declarations.len() > 0 {
        lemma_taken(tools, declarations.drop_last());
    }
}

/// A tool that a plugin declared is registered as it was declared, and a
/// refused one registers nothing.
pub proof fn law_declared_tool_is_registered(
    tools: Seq<ToolView>,
    declarations: Seq<Seq<char>>,
    text: Seq<char>,
)
    requires
        registered(tools, declarations).refusal is None,
    ensures
        ({
            let before = registered(tools, declarations).tools;
            let after = registered(tools, declarations.push(text)).tools;
            match declared_tool(declarations.len(), json_parsed(text)) {
                Ok(t) => after == with_tool(before, t),
                Err(_) => after == before,
            }
        }),
        registered(tools, Seq::empty()).tools == tools,
{
    assert(declarations.push(text).drop_last() =~= declarations);
}

/// A call of a plugin's tool went well just where its answer says so by an
/// outright yes; it then gives the notes of the answer, or that it went well.
/// Anything else is an error that holds the whole answer.
pub proof fn law_plugin_must_say_ok(j: Json, out: Seq<char>, e: Seq<char>)
    ensures
        ({
            let r = plugin_answer(Ok(j), out);
            let ok = field(j, "ok"@) is Some && bool_in(field(j, "ok"@)->0) == Some(true);
            &&& r is Ok <==> ok
            &&& ok && field(j, "notes"@) is Some ==> r->Ok_0 == field(j, "notes"@)->0
            &&& ok && field(j, "notes"@) is None ==> r->Ok_0 == Json::Text("ok"@)
            &&& !ok ==> r->Err_0 == json_text(j)
        }),
        plugin_answer(Err(e), out) == plugin_answer(Ok(Json::Text(out)), out),
{
}

} // verus!
