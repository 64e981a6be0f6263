//! The command line of the agent.

use vstd::prelude::*;

use crate::json;
use crate::json::parsed_or_null;
use crate::message::{call_views, text_opt, CallView, ToolCall};
use crate::scripted::{response_views, tool_call, LlmResponse, ResponseView};
use crate::text::{same, slice_text, stands_at, texts, to_chars};

verus! {

/// What the program says of itself.
pub const USAGE: &'static str = "rutis-cli — minimal coding agent (bash + replace_text) on the rutis framework

USAGE:
    rutis-cli [OPTIONS]

OPTIONS:
    -p, --provider <ID>   aimux provider id [env: AIMUX_PROVIDER] [default: deepseek]
    -m, --model <ID>      model id [env: AIMUX_MODEL] [default: deepseek-chat]
        --scripted        offline demo backend (no API key needed)
    -h, --help            print this help
    -V, --version         print the version
";

/// What the command line asks for.
#[derive(Debug)]
pub enum Cli {
    Run { provider: String, model: String, scripted: bool },
    Help,
    Version,
    /// An argument is not known.
    Unknown(String),
    /// An option stands without its value.
    Missing(String),
}

#[verifier::ext_equal]
pub enum CliView {
    Run { provider: Seq<char>, model: Seq<char>, scripted: bool },
    Help,
    Version,
    Unknown(Seq<char>),
    Missing(Seq<char>),
}

impl View for Cli {
    type V = CliView;

    open spec fn view(&self) -> CliView {
        match *self {
            Cli::Run { provider, model, scripted } => CliView::Run {
                provider: provider@,
                model: model@,
                scripted,
            },
            Cli::Help => CliView::Help,
            Cli::Version => CliView::Version,
            Cli::Unknown(a) => CliView::Unknown(a@),
            Cli::Missing(f) => CliView::Missing(f@),
        }
    }
}

/// A text without the quotation marks at its ends.
pub open spec fn unquoted(s: Seq<char>) -> Seq<char>
    decreases s.len(),
{
    if s.len() == 0 {
        s
    } else if s[0] == '"' {
        unquoted(s.drop_first())
    } else if s.last() == '"' {
        unquoted(s.drop_last())
    } else {
        s
    }
}

/// A text without the quotation marks at its ends.
pub fn unquote(s: &str) -> (r: String)
    ensures
        r@ == unquoted(s@),
{
    let chars = to_chars(s);
    let mut from: usize = 0;
    let mut to: usize = chars.len();
    assert(chars@.subrange(0, to as int) =~= chars@);
    while from < to && chars[from] == '"'
        invariant
            from <= to <= chars@.len(),
            unquoted(chars@.subrange(from as int, to as int)) == unquoted(chars@),
        decreases to - from,
    {
        let ghost now = chars@.subrange(from as int, to as int);
        assert(now[0] == chars@[from as int]);
        assert(now.drop_first() =~= chars@.subrange(from + 1, to as int));
        from = from + 1;
    }
    while from < to && chars[to - 1] == '"'
        invariant
            from <= to <= chars@.len(),
            from < to ==> chars@[from as int] != '"',
            unquoted(chars@.subrange(from as int, to as int)) == unquoted(chars@),
        decreases to - from,
    {
        let ghost now = chars@.subrange(from as int, to as int);
        assert(now[0] == chars@[from as int]);
        assert(now.last() == chars@[to - 1]);
        assert(now.drop_last() =~= chars@.subrange(from as int, to - 1));
        to = to - 1;
    }
    proof {
        let now = chars@.subrange(from as int, to as int);
        if from < to {
            assert(now[0] == chars@[from as int]);
            assert(now.last() == chars@[to - 1]);
        }
        assert(unquoted(now) =~= now);
    }
    slice_text(&chars, from, to)
}

/// What the arguments ask for, given what is known so far. They are taken in
/// order, and the first that asks for help or is wrong decides.
pub open spec fn asked_for(
    args: Seq<Seq<char>>,
    provider: Seq<char>,
    model: Seq<char>,
    scripted: bool,
) -> CliView
    decreases args.len(),
{
    if args.len() == 0 {
        CliView::Run { provider, model, scripted }
    } else {
        let arg = args[0];
        let rest = args.drop_first();
        if arg == "-p"@ || arg == "--provider"@ {
            if rest.len() == 0 {
                CliView::Missing(arg)
            } else {
                asked_for(rest.drop_first(), unquoted(rest[0]), model, scripted)
            }
        } else if arg == "-m"@ || arg == "--model"@ {
            if rest.len() == 0 {
                CliView::Missing(arg)
            } else {
                asked_for(rest.drop_first(), provider, unquoted(rest[0]), scripted)
            }
        } else if arg == "--scripted"@ {
            asked_for(rest, provider, model, true)
        } else if arg == "-h"@ || arg == "--help"@ {
            CliView::Help
        } else if arg == "-V"@ || arg == "--version"@ {
            CliView::Version
        } else {
            CliView::Unknown(arg)
        }
    }
}

/// The text, or the default.
pub open spec fn given(s: Option<Seq<char>>, default: Seq<char>) -> Seq<char> {
    match s {
        Some(s) => s,
        None => default,
    }
}

/// What the command line asks for. `provider` and `model` are what the
/// environment says.
pub fn parse_args(args: &Vec<String>, provider: Option<String>, model: Option<String>) -> (r: Cli)
    ensures
        r@ == asked_for(
            texts(args@),
            given(text_opt(provider), "deepseek"@),
            given(text_opt(model), "deepseek-chat"@),
            false,
        ),
{
    let provider = match provider {
        Some(s) => s,
        None => "deepseek".to_owned(),
    };
    let model = match model {
        Some(s) => s,
        None => "deepseek-chat".to_owned(),
    };
    read_args(args, provider.as_str(), model.as_str())
}

fn read_args(args: &Vec<String>, default_provider: &str, default_model: &str) -> (r: Cli)
    ensures
        r@ == asked_for(texts(args@), default_provider@, default_model@, false),
{
    let mut provider = default_provider.to_owned();
    let mut model = default_model.to_owned();
    let mut scripted = false;
    let ghost all = texts(args@);
    let mut i: usize = 0;
    let total: usize = args.len();
    assert(all.skip(0) =~= all);
    while i < total
        invariant
            i <= total,
            total == args@.len(),
            all == texts(args@),
            asked_for(all.skip(i as int), provider@, model@, scripted) == asked_for(
                all,
                default_provider@,
                default_model@,
                false,
            ),
        decreases total - i,
    {
        let arg = args[i].as_str();
        let ghost now = all.skip(i as int);
        proof {
            assert(now[0] == arg@);
            assert(now.drop_first() =~= all.skip(i + 1));
        }
        let is_provider = same(arg, "-p") || same(arg, "--provider");
        let is_model = same(arg, "-m") || same(arg, "--model");
        if is_provider || is_model {
            if i + 1 == total {
                return Cli::Missing(arg.to_owned());
            }
            let value = unquote(args[i + 1].as_str());
            proof {
                assert(all.skip(i + 1)[0] == args@[i + 1]@);
                assert(all.skip(i + 1).drop_first() =~= all.skip(i + 2));
            }
            if is_provider {
                provider = value;
            } else {
                model = value;
            }
            i = i + 2;
        } else if same(arg, "--scripted") {
            scripted = true;
            i = i + 1;
        } else if same(arg, "-h") || same(arg, "--help") {
            return Cli::Help;
        } else if same(arg, "-V") || same(arg, "--version") {
            return Cli::Version;
        } else {
            return Cli::Unknown(arg.to_owned());
        }
    }
    assert(all.skip(i as int) =~= Seq::empty());
    Cli::Run { provider, model, scripted }
}

/// What is said of a command line that is wrong.
pub open spec fn complaint_of(c: CliView) -> Option<Seq<char>> {
    match c {
        CliView::Unknown(a) => Some("unknown argument: "@ + a + "\n\n"@ + USAGE@),
        CliView::Missing(f) => Some("missing value for "@ + f + "\n\n"@ + USAGE@),
        _ => None,
    }
}

impl Cli {
    /// What is said of a command line that is wrong.
    pub fn complaint(&self) -> (r: Option<String>)
        ensures
            match r {
                Some(s) => complaint_of(self@) == Some(s@),
                None => complaint_of(self@) is None,
            },
    {
        let (mut out, word) = match self {
            Cli::Unknown(a) => ("unknown argument: ".to_owned(), a),
            Cli::Missing(f) => ("missing value for ".to_owned(), f),
            _ => {
                return None;
            },
        };
        out.push_str(word.as_str());
        out.push_str("\n\n");
        out.push_str(USAGE);
        Some(out)
    }
}

/// What is said of a model that could not be set up: why, and for the default
/// provider without a key how to go on.
pub fn setup_failure(provider: &str, model: &str, error: &str, has_key: bool) -> (r: Vec<String>)
    ensures
        texts(r@) == ({
            let first = "failed to build "@ + provider@ + "/"@ + model@ + ": "@ + error@;
            if provider@ == "deepseek"@ && !has_key {
                seq![
                    first,
                    "hint: export DEEPSEEK_API_KEY=... ; or offline demo: rutis-cli --scripted"@,
                ]
            } else {
                seq![first]
            }
        }),
{
    let mut first = "failed to build ".to_owned();
    first.push_str(provider);
    first.push_str("/");
    first.push_str(model);
    first.push_str(": ");
    first.push_str(error);
    let mut out: Vec<String> = Vec::new();
    let ghost line = first@;
    out.push(first);
    if same(provider, "deepseek") && !has_key {
        out.push(
            "hint: export DEEPSEEK_API_KEY=... ; or offline demo: rutis-cli --scripted".to_owned(),
        );
        assert(texts(out@) =~= seq![
            line,
            "hint: export DEEPSEEK_API_KEY=... ; or offline demo: rutis-cli --scripted"@,
        ]);
    } else {
        assert(texts(out@) =~= seq![line]);
    }
    out
}

/// The lines above the conversation.
pub fn intro(provider: &str, model: &str, cwd: &str) -> (r: Vec<String>)
    ensures
        texts(r@) == seq![
            "backend: "@ + provider@ + "/"@ + model@,
            "cwd: "@ + cwd@,
            "tools: bash + replace_text | Enter 发送 | Esc 取消 | Ctrl+Q 退出"@,
        ],
{
    let mut backend = "backend: ".to_owned();
    backend.push_str(provider);
    backend.push_str("/");
    backend.push_str(model);
    let mut dir = "cwd: ".to_owned();
    dir.push_str(cwd);
    let mut out: Vec<String> = Vec::new();
    let ghost a = backend@;
    let ghost b = dir@;
    out.push(backend);
    out.push(dir);
    out.push("tools: bash + replace_text | Enter 发送 | Esc 取消 | Ctrl+Q 退出".to_owned());
    assert(texts(out@) =~= seq![
        a,
        b,
        "tools: bash + replace_text | Enter 发送 | Esc 取消 | Ctrl+Q 退出"@,
    ]);
    out
}

/// What the offline demo writes.
pub const DEMO_CREATE: &'static str = "{\"command\":\"create\",\"path\":\"rutis-cli-demo.txt\",\"file_text\":\"hello from the scripted backend\\n\"}";

/// How the offline demo reads it back.
pub const DEMO_SHOW: &'static str = "{\"command\":\"cat rutis-cli-demo.txt\",\"description\":\"Show the file just created\"}";

/// What the offline demo says in the end.
pub const DEMO_ANSWER: &'static str = "demo done: created rutis-cli-demo.txt and read it back. Ask me to edit real files with a real backend key.";

/// The answers of the offline demo: two tool calls, then a text.
pub fn scripted_responses() -> (r: Vec<LlmResponse>)
    ensures
        response_views(r@) == seq![
            ResponseView {
                content: None,
                tool_calls: seq![
                    CallView {
                        id: "c1"@,
                        name: "replace_text"@,
                        input: parsed_or_null(DEMO_CREATE@),
                    },
                    CallView {
                        id: "c2"@,
                        name: "bash"@,
                        input: parsed_or_null(DEMO_SHOW@),
                    },
                ],
                reasoning: None,
            },
            ResponseView {
                content: Some(DEMO_ANSWER@),
                tool_calls: Seq::empty(),
                reasoning: None,
            },
        ],
{
    let mut calls: Vec<ToolCall> = Vec::new();
    calls.push(
        tool_call(
            "c1".to_owned(),
            "replace_text".to_owned(),
            json::parse_or_null(DEMO_CREATE),
        ),
    );
    calls.push(
        tool_call("c2".to_owned(), "bash".to_owned(), json::parse_or_null(DEMO_SHOW)),
    );
    assert(call_views(calls@) =~= seq![calls@[0]@, calls@[1]@]);
    let mut out: Vec<LlmResponse> = Vec::new();
    out.push(LlmResponse::tool_calls(calls));
    out.push(LlmResponse::content(DEMO_ANSWER.to_owned()));
    assert(response_views(out@) =~= seq![out@[0]@, out@[1]@]);
    out
}

// ── laws ────────────────────────────────────────────────────────────

/// Quotation marks at the ends of a text are dropped, however many, and
/// nothing else is.
pub proof fn law_quotation_marks_are_dropped(s: Seq<char>)
    ensures
        unquoted(seq!['"'] + s) == unquoted(s),
        unquoted(s + seq!['"']) == unquoted(s),
        unquoted(s).len() > 0 ==> unquoted(s)[0] != '"' && unquoted(s).last() != '"',
        s.len() > 0 && s[0] != '"' && s.last() != '"' ==> unquoted(s) == s,
    decreases s.len(),
{
    assert((seq!['"'] + s).drop_first() =~= s);
    let behind = s + seq!['"'];
    assert(behind.last() == '"');
    assert(behind.drop_last() =~= s);
    if s.len() == 0 {
        assert(behind.drop_first() =~= s);
        assert(unquoted(s) == s);
    } else if s[0] == '"' {
        law_quotation_marks_are_dropped(s.drop_first());
        assert(behind.drop_first() =~= s.drop_first() + seq!['"']);
    } else if s.last() == '"' {
        law_quotation_marks_are_dropped(s.drop_last());
    }
}

/// Arguments are taken from the front: an option takes the text behind it, the
/// later of two counts, and what comes before is what was known before.
pub proof fn law_options_take_their_values(
    rest: Seq<Seq<char>>,
    value: Seq<char>,
    provider: Seq<char>,
    model: Seq<char>,
    scripted: bool,
)
    ensures
        asked_for(seq!["-p"@, value] + rest, provider, model, scripted) == asked_for(
            rest,
            unquoted(value),
            model,
            scripted,
        ),
        asked_for(seq!["--provider"@, value] + rest, provider, model, scripted) == asked_for(
            rest,
            unquoted(value),
            model,
            scripted,
        ),
        asked_for(seq!["-m"@, value] + rest, provider, model, scripted) == asked_for(
            rest,
            provider,
            unquoted(value),
            scripted,
        ),
        asked_for(seq!["--model"@, value] + rest, provider, model, scripted) == asked_for(
            rest,
            provider,
            unquoted(value),
            scripted,
        ),
        asked_for(seq!["--scripted"@] + rest, provider, model, scripted) == asked_for(
            rest,
            provider,
            model,
            true,
        ),
        asked_for(Seq::empty(), provider, model, scripted) == (CliView::Run {
            provider,
            model,
            scripted,
        }),
{
    lemma_options_differ();
    lemma_first_two("-p"@, value, rest);
    lemma_first_two("--provider"@, value, rest);
    lemma_first_two("-m"@, value, rest);
    lemma_first_two("--model"@, value, rest);
    if is_one_of_four("--scripted"@) {
        assert(false);
    }
    assert((seq!["--scripted"@] + rest)[0] == "--scripted"@);
    assert((seq!["--scripted"@] + rest).drop_first() =~= rest);
}

proof fn lemma_first_two(option: Seq<char>, value: Seq<char>, rest: Seq<Seq<char>>)
    ensures
        ({
            let all = seq![option, value] + rest;
            &&& all.len() == rest.len() + 2
            &&& all[0] == option
            &&& all.drop_first()[0] == value
            &&& all.drop_first().drop_first() == rest
        }),
{
    let all = seq![option, value] + rest;
    assert(all.drop_first().drop_first() =~= rest);
}

proof fn lemma_options_differ()
    ensures
        "-m"@ != "-p"@,
        "-m"@ != "--provider"@,
        "--model"@ != "-p"@,
        "--model"@ != "--provider"@,
        forall|a: Seq<char>|
            (#[trigger] is_one_of_four(a)) ==> a != "--scripted"@ && a != "-h"@ && a != "--help"@
                && a != "-V"@ && a != "--version"@,
        "-h"@ != "--scripted"@,
        "--help"@ != "--scripted"@,
        "-V"@ != "--scripted"@,
        "--version"@ != "--scripted"@,
        "-V"@ != "-h"@,
        "-V"@ != "--help"@,
        "--version"@ != "-h"@,
        "--version"@ != "--help"@,
{
    reveal_strlit("-p");
    reveal_strlit("-m");
    reveal_strlit("-h");
    reveal_strlit("-V");
    reveal_strlit("--provider");
    reveal_strlit("--model");
    reveal_strlit("--scripted");
    reveal_strlit("--help");
    reveal_strlit("--version");
    assert("-p"@[1] == 'p' && "-m"@[1] == 'm' && "-h"@[1] == 'h' && "-V"@[1] == 'V');
    assert("-p"@.len() == 2 && "-m"@.len() == 2 && "-h"@.len() == 2 && "-V"@.len() == 2);
    assert("--provider"@.len() == 10 && "--scripted"@.len() == 10);
    assert("--provider"@[2] == 'p' && "--scripted"@[2] == 's');
    assert("--model"@.len() == 7 && "--help"@.len() == 6 && "--version"@.len() == 9);
}

/// One of the options that take a value.
pub open spec fn is_one_of_four(a: Seq<char>) -> bool {
    a == "-p"@ || a == "--provider"@ || a == "-m"@ || a == "--model"@
}

/// Help and version decide at once; an option without its value and an
/// argument that is not known are told by name.
pub proof fn law_first_fault_decides(
    arg: Seq<char>,
    rest: Seq<Seq<char>>,
    provider: Seq<char>,
    model: Seq<char>,
    scripted: bool,
)
    ensures
        asked_for(seq!["-h"@] + rest, provider, model, scripted) is Help,
        asked_for(seq!["--help"@] + rest, provider, model, scripted) is Help,
        asked_for(seq!["-V"@] + rest, provider, model, scripted) is Version,
        asked_for(seq!["--version"@] + rest, provider, model, scripted) is Version,
        is_one_of_four(arg) ==> asked_for(seq![arg], provider, model, scripted) == CliView::Missing(
            arg,
        ),
        !is_one_of_four(arg) && arg != "--scripted"@ && arg != "-h"@ && arg != "--help"@ && arg
            != "-V"@ && arg != "--version"@ ==> asked_for(
            seq![arg] + rest,
            provider,
            model,
            scripted,
        ) == CliView::Unknown(arg),
{
    lemma_options_differ();
    if is_one_of_four("-h"@) || is_one_of_four("--help"@) || is_one_of_four("-V"@)
        || is_one_of_four("--version"@) {
        assert(false);
    }
    assert((seq!["-h"@] + rest)[0] == "-h"@);
    assert((seq!["--help"@] + rest)[0] == "--help"@);
    assert((seq!["-V"@] + rest)[0] == "-V"@);
    assert((seq!["--version"@] + rest)[0] == "--version"@);
    assert((seq![arg] + rest)[0] == arg);
    assert(seq![arg].drop_first() =~= Seq::empty());
}

/// A wrong command line is told what is wrong with it and how the program is
/// used; a right one is not.
pub proof fn law_wrong_command_line_is_told(c: CliView)
    ensures
        complaint_of(c) is Some <==> c is Unknown || c is Missing,
        c is Unknown ==> stands_at(complaint_of(c)->0, "unknown argument: "@ + c->Unknown_0, 0),
        c is Missing ==> stands_at(complaint_of(c)->0, "missing value for "@ + c->Missing_0, 0),
        complaint_of(c) is Some ==> complaint_of(c)->0.skip(
            complaint_of(c)->0.len() - USAGE@.len(),
        ) == USAGE@,
{
    if complaint_of(c) is Some {
        let all = complaint_of(c)->0;
        let front = if c is Unknown {
            "unknown argument: "@ + c->Unknown_0
        } else {
            "missing value for "@ + c->Missing_0
        };
        assert(all =~= front + "\n\n"@ + USAGE@);
        assert(all.subrange(0, front.len() as int) =~= front);
        assert(all.skip(all.len() - USAGE@.len()) =~= USAGE@);
    }
}

/// What is given counts before the default.
pub proof fn law_given_before_default(s: Seq<char>, default: Seq<char>)
    ensures
        given(Some(s), default) == s,
        given(None, default) == default,
{
}

} // verus!
