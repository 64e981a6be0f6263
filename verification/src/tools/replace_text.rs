//! The `replace_text` tool: files are viewed, created, and edited by replacing
//! a piece of text that occurs once.
//!
//! What is on disk is read and written by the host; here it is decided what
//! becomes of it and what the model is told.

use serde_json::Value;
use vstd::prelude::*;
use vstd::string::*;
use vstd::utf8::*;

use crate::json;
use crate::json::{field, i64_in, json_of, json_seq, parsed_or_null, text_field, u64_in, Json};
use crate::order::{
    is_sorted, law_sorted, law_sorted_marked, marked, sort_marked, sorted_marked, unmarked,
};
use crate::text::{
    byte_len, char_width, count, decimal, ends_with_char, head, join, joined,
    law_decimal_can_be_read, law_joined_comes_apart, law_joined_holds_all,
    law_pieces_make_the_text, law_pieces_of_both_sides, law_pieces_of_the_front, law_trimmed,
    lemma_bytes_concat, lemma_last_bytes, lemma_occurs_behind, lemma_occurs_in_front,
    lemma_stands_in, number, occurs, pieces, same, signed, signed_number, slice_text, split_on,
    stands, stands_at, starts_with, take_head, texts, to_chars, trim, trimmed, white_space,
};
use crate::tools::{ToolDef, ToolView};

verus! {

/// How many characters of a view are shown.
pub const MAX_OUTPUT_CHARS: usize = 10_000;

/// What stands behind a view that is cut.
pub const TRUNCATED_MESSAGE: &'static str = "<response clipped><NOTE>To save on context only part of this file has been shown to you. You should retry this tool after you have searched inside the file with `grep -n` in order to find the line numbers of what you are looking for.</NOTE>";

/// What the model is told of the tool.
pub const EDITOR_DESCRIPTION: &'static str = "Custom editing tool for viewing, creating and editing files\n* State is persistent across command calls and discussions with the user\n* If `path` is a file, `view` displays the result of applying `cat -n`. If `path` is a directory, `view` lists non-hidden files and directories up to 2 levels deep\n* The `create` command cannot be used if the specified `path` already exists as a file\n* If a `command` generates a long output, it will be truncated and marked with `<response clipped>`\n\nNotes for using the `str_replace` command:\n* The `old_str` parameter should match EXACTLY one or more consecutive lines from the original file. Be mindful of whitespaces!\n* If the `old_str` parameter is not unique in the file, the replacement will not be performed. Make sure to include enough context in `old_str` to make it unique\n* The `new_str` parameter should contain the edited lines that should replace the `old_str`";

/// The schema of the tool's arguments, as JSON text.
pub const EDITOR_SCHEMA: &'static str = "{\"type\":\"object\",\"properties\":{\"command\":{\"type\":\"string\",\"enum\":[\"view\",\"create\",\"str_replace\"]},\"path\":{\"type\":\"string\",\"description\":\"Absolute path to the file or directory.\"},\"file_text\":{\"type\":\"string\",\"description\":\"Required for `create`: the content of the new file.\"},\"old_str\":{\"type\":\"string\",\"description\":\"Required for `str_replace`: the exact text to replace (must be unique in the file).\"},\"new_str\":{\"type\":\"string\",\"description\":\"Required for `str_replace`: the replacement text. Omit to delete `old_str`.\"},\"view_range\":{\"type\":\"array\",\"items\":{\"type\":\"number\"},\"description\":\"Optional for `view`: [start, end] line numbers (1-based); -1 as end means to the last line.\"}},\"required\":[\"command\",\"path\"]}";

/// The `replace_text` tool.
pub fn replace_text_tool() -> (r: ToolDef)
    ensures
        r@ == (ToolView {
            name: "replace_text"@,
            description: EDITOR_DESCRIPTION@,
            parameters: parsed_or_null(EDITOR_SCHEMA@),
        }),
{
    ToolDef::new("replace_text", EDITOR_DESCRIPTION, json::parse_or_null(EDITOR_SCHEMA))
}

// ── arguments ───────────────────────────────────────────────────────

/// What is said of a parameter that a command needs and does not have.
pub open spec fn missing_parameter(parameter: Seq<char>, command: Seq<char>) -> Seq<char> {
    "Parameter `"@ + parameter + "` is required for command: "@ + command
}

/// What is said of a parameter that a command needs and that is empty.
pub open spec fn empty_parameter(parameter: Seq<char>, command: Seq<char>) -> Seq<char> {
    "Parameter `"@ + parameter + "` is empty for command: "@ + command
}

/// A parameter that a command needs; where the command needs a text in it, it
/// may not be empty.
pub fn required_for_command(
    value: Option<&str>,
    parameter: &str,
    command: &str,
    allow_empty: bool,
) -> (r: Result<String, String>)
    ensures
        match value {
            None => r matches Err(e) && e@ == missing_parameter(parameter@, command@),
            Some(v) => if !allow_empty && v@.len() == 0 {
                r matches Err(e) && e@ == empty_parameter(parameter@, command@)
            } else {
                r matches Ok(s) && s@ == v@
            },
        },
{
    match value {
        None => {
            let mut s = "Parameter `".to_owned();
            s.push_str(parameter);
            s.push_str("` is required for command: ");
            s.push_str(command);
            Err(s)
        },
        Some(v) => {
            if !allow_empty && v.is_empty() {
                let mut s = "Parameter `".to_owned();
                s.push_str(parameter);
                s.push_str("` is empty for command: ");
                s.push_str(command);
                return Err(s);
            }
            Ok(v.to_owned())
        },
    }
}

/// Why a path is refused: it is blank, or it does not begin at the root.
pub open spec fn path_refusal(path: Seq<char>) -> Option<Seq<char>> {
    if trimmed(path).len() == 0 {
        Some("path must be a non-empty string"@)
    } else if !stands_at(path, "/"@, 0) {
        Some(
            "The path "@ + path
                + " is not an absolute path, it should start with `/`. Maybe you meant /"@ + path
                + "?"@,
        )
    } else {
        None
    }
}

/// Whether a path can be used.
pub fn resolve_target(path: &str) -> (r: Result<(), String>)
    ensures
        match r {
            Ok(_) => path_refusal(path@) is None,
            Err(e) => path_refusal(path@) == Some(e@),
        },
{
    if trim(path).as_str().is_empty() {
        return Err("path must be a non-empty string".to_owned());
    }
    if !starts_with(path, "/") {
        let mut s = "The path ".to_owned();
        s.push_str(path);
        s.push_str(" is not an absolute path, it should start with `/`. Maybe you meant /");
        s.push_str(path);
        s.push_str("?");
        return Err(s);
    }
    Ok(())
}

/// What a call of the tool asks for.
#[derive(Debug)]
pub enum EditorCommand {
    View { path: String, range: Option<Vec<Value>> },
    Create { path: String, text: String },
    Replace { path: String, old_str: String, new_str: String },
}

#[verifier::ext_equal]
#[allow(inconsistent_fields)]
pub enum CommandView {
    View { path: Seq<char>, range: Option<Seq<Json>> },
    Create { path: Seq<char>, text: Seq<char> },
    Replace { path: Seq<char>, old_str: Seq<char>, new_str: Seq<char> },
}

impl View for EditorCommand {
    type V = CommandView;

    open spec fn view(&self) -> CommandView {
        match *self {
            EditorCommand::View { path, range } => CommandView::View {
                path: path@,
                range: match range {
                    Some(r) => Some(json_seq(r@)),
                    None => None,
                },
            },
            EditorCommand::Create { path, text } => CommandView::Create {
                path: path@,
                text: text@,
            },
            EditorCommand::Replace { path, old_str, new_str } => CommandView::Replace {
                path: path@,
                old_str: old_str@,
                new_str: new_str@,
            },
        }
    }
}

/// The elements of the field `key`, where it is an array.
pub open spec fn array_field(j: Json, key: Seq<char>) -> Option<Seq<Json>> {
    match field(j, key) {
        Some(Json::Array(s)) => Some(s),
        _ => None,
    }
}

/// What the arguments ask for, or why they are refused.
pub open spec fn command_of(args: Json) -> Result<CommandView, Seq<char>> {
    match (text_field(args, "command"@), text_field(args, "path"@)) {
        (None, _) => Err("Parameter `command` is required"@),
        (Some(_), None) => Err("Parameter `path` is required"@),
        (Some(command), Some(path)) => if command == "view"@ {
            match path_refusal(path) {
                Some(e) => Err(e),
                None => Ok(CommandView::View { path, range: array_field(args, "view_range"@) }),
            }
        } else if command == "create"@ {
            match text_field(args, "file_text"@) {
                None => Err(missing_parameter("file_text"@, "create"@)),
                Some(text) => match path_refusal(path) {
                    Some(e) => Err(e),
                    None => Ok(CommandView::Create { path, text }),
                },
            }
        } else if command == "str_replace"@ {
            match text_field(args, "old_str"@) {
                None => Err(missing_parameter("old_str"@, "str_replace"@)),
                Some(old_str) => if old_str.len() == 0 {
                    Err(empty_parameter("old_str"@, "str_replace"@))
                } else {
                    match path_refusal(path) {
                        Some(e) => Err(e),
                        None => Ok(
                            CommandView::Replace {
                                path,
                                old_str,
                                new_str: match text_field(args, "new_str"@) {
                                    Some(s) => s,
                                    None => Seq::empty(),
                                },
                            },
                        ),
                    }
                },
            }
        } else {
            Err(
                "unknown command `"@ + command
                    + "`; expected `view`, `create` or `str_replace`"@,
            )
        },
    }
}

fn copy_values(v: &Vec<Value>) -> (r: Vec<Value>)
    ensures
        json_seq(r@) == json_seq(v@),
{
    let mut out: Vec<Value> = Vec::new();
    let mut i: usize = 0;
    while i < v.len()
        invariant
            i <= v@.len(),
            json_seq(out@) == json_seq(v@).take(i as int),
        decreases v@.len() - i,
    {
        let ghost before = json_seq(out@);
        out.push(v[i].clone());
        assert(json_seq(out@) =~= before.push(json_of(v@[i as int])));
        assert(json_seq(v@).take(i + 1) =~= json_seq(v@).take(i as int).push(
            json_of(v@[i as int]),
        ));
        i = i + 1;
    }
    assert(json_seq(v@).take(i as int) =~= json_seq(v@));
    out
}

/// What the arguments ask for, or why they are refused.
pub fn plan_edit(args: &Value) -> (r: Result<EditorCommand, String>)
    ensures
        match r {
            Ok(c) => command_of(json_of(*args)) == Ok::<CommandView, Seq<char>>(c@),
            Err(e) => command_of(json_of(*args)) == Err::<CommandView, Seq<char>>(e@),
        },
{
    let command = match json::str_field(args, "command") {
        Some(s) => s,
        None => {
            return Err("Parameter `command` is required".to_owned());
        },
    };
    let path = match json::str_field(args, "path") {
        Some(s) => s,
        None => {
            return Err("Parameter `path` is required".to_owned());
        },
    };
    if same(command, "view") {
        if let Err(e) = resolve_target(path) {
            return Err(e);
        }
        let range = match json::get(args, "view_range") {
            Some(v) => match v.as_array() {
                Some(a) => Some(copy_values(a)),
                None => None,
            },
            None => None,
        };
        Ok(EditorCommand::View { path: path.to_owned(), range })
    } else if same(command, "create") {
        let text = match required_for_command(
            json::str_field(args, "file_text"),
            "file_text",
            "create",
            true,
        ) {
            Ok(s) => s,
            Err(e) => {
                return Err(e);
            },
        };
        if let Err(e) = resolve_target(path) {
            return Err(e);
        }
        Ok(EditorCommand::Create { path: path.to_owned(), text })
    } else if same(command, "str_replace") {
        let old_str = match required_for_command(
            json::str_field(args, "old_str"),
            "old_str",
            "str_replace",
            false,
        ) {
            Ok(s) => s,
            Err(e) => {
                return Err(e);
            },
        };
        if let Err(e) = resolve_target(path) {
            return Err(e);
        }
        let new_str = match json::str_field(args, "new_str") {
            Some(s) => s.to_owned(),
            None => String::new(),
        };
        Ok(EditorCommand::Replace { path: path.to_owned(), old_str, new_str })
    } else {
        let mut s = "unknown command `".to_owned();
        s.push_str(command);
        s.push_str("`; expected `view`, `create` or `str_replace`");
        Err(s)
    }
}

// ── what is on disk ─────────────────────────────────────────────────

/// What stands at a path.
#[derive(Debug, Clone, Copy, PartialEq, Eq, Structural)]
pub enum PathKind {
    Missing,
    Directory,
    File,
    Other,
}

/// Why a command cannot be used on what stands at a path.
pub open spec fn kind_refusal(path: Seq<char>, kind: PathKind, command: Seq<char>) -> Option<
    Seq<char>,
> {
    match kind {
        PathKind::Missing => Some(
            "The path "@ + path + " does not exist. Please provide a valid path."@,
        ),
        PathKind::Directory => if command != "view"@ {
            Some(
                "The path "@ + path
                    + " is a directory and only the `view` command can be used on directories"@,
            )
        } else {
            None
        },
        _ => None,
    }
}

/// Whether a command can be used on what stands at a path.
pub fn stat_existing(path: &str, kind: PathKind, command: &str) -> (r: Result<(), String>)
    ensures
        match r {
            Ok(_) => kind_refusal(path@, kind, command@) is None,
            Err(e) => kind_refusal(path@, kind, command@) == Some(e@),
        },
{
    match kind {
        PathKind::Missing => {
            let mut s = "The path ".to_owned();
            s.push_str(path);
            s.push_str(" does not exist. Please provide a valid path.");
            Err(s)
        },
        PathKind::Directory => {
            if same(command, "view") {
                Ok(())
            } else {
                let mut s = "The path ".to_owned();
                s.push_str(path);
                s.push_str(
                    " is a directory and only the `view` command can be used on directories",
                );
                Err(s)
            }
        },
        _ => Ok(()),
    }
}

/// Why a view of what stands at a path is refused.
pub open spec fn view_refusal(path: Seq<char>, kind: PathKind, range: Option<Seq<Json>>) -> Option<
    Seq<char>,
> {
    match kind {
        PathKind::Missing => kind_refusal(path, kind, "view"@),
        PathKind::Directory => if range is Some && range->0.len() > 0 {
            Some("The `view_range` parameter is not allowed when `path` points to a directory."@)
        } else {
            None
        },
        PathKind::File => None,
        PathKind::Other => Some(
            "cannot view \""@ + path + "\": not a regular file or directory"@,
        ),
    }
}

pub open spec fn range_view(range: Option<Vec<Value>>) -> Option<Seq<Json>> {
    match range {
        Some(r) => Some(json_seq(r@)),
        None => None,
    }
}

/// Whether what stands at a path can be viewed.
pub fn view_path(path: &str, kind: PathKind, range: &Option<Vec<Value>>) -> (r: Result<(), String>)
    ensures
        match r {
            Ok(_) => view_refusal(path@, kind, range_view(*range)) is None,
            Err(e) => view_refusal(path@, kind, range_view(*range)) == Some(e@),
        },
{
    if let Err(e) = stat_existing(path, kind, "view") {
        return Err(e);
    }
    match kind {
        PathKind::Directory => {
            if let Some(v) = range {
                if v.len() > 0 {
                    return Err(
                        "The `view_range` parameter is not allowed when `path` points to a directory.".to_owned(),
                    );
                }
            }
            Ok(())
        },
        PathKind::Other => {
            let mut s = "cannot view \"".to_owned();
            s.push_str(path);
            s.push_str("\": not a regular file or directory");
            Err(s)
        },
        _ => Ok(()),
    }
}

// ── view ────────────────────────────────────────────────────────────

/// A view as it is shown: a long one is cut, with a hint how to see the rest.
pub open spec fn clipped(s: Seq<char>) -> Seq<char> {
    if s.len() <= MAX_OUTPUT_CHARS {
        s
    } else {
        head(s, MAX_OUTPUT_CHARS as int) + TRUNCATED_MESSAGE@
    }
}

/// A view as it is shown.
pub fn maybe_truncate(content: &str) -> (r: String)
    ensures
        r@ == clipped(content@),
{
    if count(content) <= MAX_OUTPUT_CHARS {
        return content.to_owned();
    }
    let mut out = take_head(content, MAX_OUTPUT_CHARS);
    out.push_str(TRUNCATED_MESSAGE);
    out
}

/// The number that a JSON integer stands for, where it is one; a number beyond
/// the largest counts as the largest.
pub open spec fn whole(j: Json) -> Option<i64> {
    match (i64_in(j), u64_in(j)) {
        (Some(i), _) => Some(i),
        (None, Some(_)) => Some(i64::MAX),
        (None, None) => None,
    }
}

/// The lines that a range asks for, the first and the last, or why it is
/// refused. A last line of -1 is the last of the file.
pub open spec fn lines_of(range: Seq<Json>, total: nat) -> Result<(int, int), Seq<char>> {
    if range.len() != 2 || whole(range[0]) is None || whole(range[1]) is None {
        Err("Invalid `view_range`. It should be a list of two integers."@)
    } else {
        let start = whole(range[0])->0 as int;
        let end = whole(range[1])->0 as int;
        let asked = "Invalid `view_range`: ["@ + signed(start) + ", "@ + signed(end) + "]. "@;
        if !(1 <= start <= total) {
            Err(
                asked + "Its first element `"@ + signed(start)
                    + "` should be within the range of lines of the file: [1, "@ + decimal(total)
                    + "]"@,
            )
        } else if end != -1 && end > total {
            Err(
                asked + "Its second element `"@ + signed(end)
                    + "` should be smaller than the number of lines in the file: `"@ + decimal(
                    total,
                ) + "`"@,
            )
        } else if end != -1 && end < start {
            Err(
                asked + "Its second element `"@ + signed(end)
                    + "` should be larger or equal than its first `"@ + signed(start) + "`"@,
            )
        } else {
            Ok((start, end))
        }
    }
}

fn whole_number(v: &Value) -> (r: Option<i64>)
    ensures
        r == whole(json_of(*v)),
{
    match v.as_i64() {
        Some(i) => Some(i),
        None => match v.as_u64() {
            Some(_) => Some(i64::MAX),
            None => None,
        },
    }
}

/// The lines that a range asks for.
pub fn parse_view_range(range: &Vec<Value>, total: usize) -> (r: Result<(usize, i64), String>)
    ensures
        match r {
            Ok((start, end)) => lines_of(json_seq(range@), total as nat) == Ok::<
                (int, int),
                Seq<char>,
            >((start as int, end as int)),
            Err(e) => lines_of(json_seq(range@), total as nat) == Err::<(int, int), Seq<char>>(e@),
        },
{
    if range.len() != 2 {
        return Err("Invalid `view_range`. It should be a list of two integers.".to_owned());
    }
    let start: i64 = match whole_number(&range[0]) {
        Some(i) => i,
        None => {
            return Err("Invalid `view_range`. It should be a list of two integers.".to_owned());
        },
    };
    let end: i64 = match whole_number(&range[1]) {
        Some(i) => i,
        None => {
            return Err("Invalid `view_range`. It should be a list of two integers.".to_owned());
        },
    };
    let mut s = "Invalid `view_range`: [".to_owned();
    s.push_str(signed_number(start).as_str());
    s.push_str(", ");
    s.push_str(signed_number(end).as_str());
    s.push_str("]. ");
    if start < 1 || start as i128 > total as i128 {
        s.push_str("Its first element `");
        s.push_str(signed_number(start).as_str());
        s.push_str("` should be within the range of lines of the file: [1, ");
        s.push_str(number(total as u64).as_str());
        s.push_str("]");
        return Err(s);
    }
    if end != -1 && end as i128 > total as i128 {
        s.push_str("Its second element `");
        s.push_str(signed_number(end).as_str());
        s.push_str("` should be smaller than the number of lines in the file: `");
        s.push_str(number(total as u64).as_str());
        s.push_str("`");
        return Err(s);
    }
    if end != -1 && end < start {
        s.push_str("Its second element `");
        s.push_str(signed_number(end).as_str());
        s.push_str("` should be larger or equal than its first `");
        s.push_str(signed_number(start).as_str());
        s.push_str("`");
        return Err(s);
    }
    Ok((start as usize, end))
}

/// A line number, in six places.
pub open spec fn in_six_places(n: nat) -> Seq<char> {
    let digits = decimal(n);
    if digits.len() >= 6 {
        digits
    } else {
        Seq::new((6 - digits.len()) as nat, |i: int| ' ') + digits
    }
}

/// Lines with their numbers, the first with the number `first`.
pub open spec fn numbered(lines: Seq<Seq<char>>, first: nat) -> Seq<Seq<char>> {
    Seq::new(lines.len(), |i: int| in_six_places((first + i) as nat) + "  "@ + lines[i])
}

/// What stands above the lines of a view.
pub open spec fn view_heading(path: Seq<char>, total: nat, range: Option<(int, int)>) -> Seq<char> {
    "Here's the content of "@ + path + " with line numbers (which has a total of "@ + decimal(total)
        + " lines)"@ + (match range {
        Some((start, end)) => " with view_range=["@ + signed(start) + ", "@ + signed(end) + "]"@,
        None => Seq::empty(),
    }) + ":\n"@
}

/// The view of a file: all its lines, or those of the range, numbered.
pub open spec fn file_view(path: Seq<char>, content: Seq<char>, range: Option<Seq<Json>>) -> Result<
    Seq<char>,
    Seq<char>,
> {
    let all = pieces(content, '\n');
    match range {
        None => Ok(
            clipped(
                view_heading(path, all.len(), None) + joined(numbered(all, 1), "\n"@) + "\n"@,
            ),
        ),
        Some(r) => match lines_of(r, all.len()) {
            Err(e) => Err(e),
            Ok((start, end)) => {
                let lines = if end == -1 {
                    all.skip(start - 1)
                } else {
                    all.subrange(start - 1, end)
                };
                Ok(
                    clipped(
                        view_heading(path, all.len(), Some((start, end))) + joined(
                            numbered(lines, start as nat),
                            "\n"@,
                        ) + "\n"@,
                    ),
                )
            },
        },
    }
}

fn six_places(n: u64) -> (r: String)
    ensures
        r@ == in_six_places(n as nat),
{
    let digits = number(n);
    let mut out = String::new();
    let mut width: usize = count(digits.as_str());
    let ghost start = width;
    assert(out@ =~= Seq::new(0, |i: int| ' '));
    while width < 6
        invariant
            start == digits@.len(),
            start <= width,
            width <= 6 || width == start,
            out@ == Seq::new((width - start) as nat, |i: int| ' '),
        decreases 6 - width,
    {
        out.push(' ');
        width = width + 1;
        assert(out@ =~= Seq::new((width - start) as nat, |i: int| ' '));
    }
    out.push_str(digits.as_str());
    assert(out@ =~= in_six_places(n as nat));
    out
}

/// The view of a file.
pub fn format_file_view(path: &str, content: &str, range: &Option<Vec<Value>>) -> (r: Result<
    String,
    String,
>)
    ensures
        match r {
            Ok(s) => file_view(path@, content@, range_view(*range)) == Ok::<Seq<char>, Seq<char>>(
                s@,
            ),
            Err(e) => file_view(path@, content@, range_view(*range)) == Err::<
                Seq<char>,
                Seq<char>,
            >(e@),
        },
{
    let all = split_on(content, '\n');
    let total: usize = all.len();
    let mut first: usize = 1;
    let mut last: usize = total;
    let mut out = "Here's the content of ".to_owned();
    out.push_str(path);
    out.push_str(" with line numbers (which has a total of ");
    out.push_str(number(total as u64).as_str());
    out.push_str(" lines)");
    let ghost mut asked: Option<(int, int)> = None;
    if let Some(v) = range {
        let (start, end) = match parse_view_range(v, total) {
            Ok(x) => x,
            Err(e) => {
                return Err(e);
            },
        };
        proof {
            asked = Some((start as int, end as int));
        }
        first = start;
        if end != -1 {
            last = end as usize;
        }
        out.push_str(" with view_range=[");
        out.push_str(number(start as u64).as_str());
        out.push_str(", ");
        out.push_str(signed_number(end).as_str());
        out.push_str("]");
    }
    out.push_str(":\n");
    assert(out@ =~= view_heading(path@, total as nat, asked));
    let ghost heading = out@;
    let ghost lines = texts(all@).subrange(first - 1, last as int);
    let mut rows: Vec<String> = Vec::new();
    let mut i: usize = first - 1;
    assert(texts(rows@) =~= numbered(lines.take(0), first as nat));
    while i < last
        invariant
            1 <= first,
            first - 1 <= i <= last <= all@.len(),
            all@.len() == total,
            lines == texts(all@).subrange(first - 1, last as int),
            texts(rows@) == numbered(lines.take(i + 1 - first), first as nat),
        decreases last - i,
    {
        let mut row = six_places(i as u64 + 1);
        row.push_str("  ");
        row.push_str(all[i].as_str());
        let ghost before = texts(rows@);
        let ghost k = i + 1 - first;
        rows.push(row);
        proof {
            assert(lines[k] == all@[i as int]@);
            assert(texts(rows@) =~= before.push(row@));
            assert(row@ =~= in_six_places((first + k) as nat) + "  "@ + lines[k]);
            assert(numbered(lines.take(k + 1), first as nat) =~= numbered(
                lines.take(k),
                first as nat,
            ).push(row@));
        }
        i = i + 1;
    }
    assert(lines.take(i + 1 - first) =~= lines);
    out.push_str(join(&rows, "\n").as_str());
    out.push_str("\n");
    proof {
        assert(out@ =~= heading + joined(numbered(lines, first as nat), "\n"@) + "\n"@);
        match asked {
            None => {
                assert(lines =~= texts(all@));
            },
            Some((_, end)) => {
                if end == -1 {
                    assert(lines =~= texts(all@).skip(first - 1));
                }
            },
        }
    }
    Ok(maybe_truncate(out.as_str()))
}

// ── directories ─────────────────────────────────────────────────────

/// What stands in a directory.
#[derive(Debug)]
pub struct DirEntry {
    pub name: String,
    pub is_dir: bool,
    pub children: Vec<DirEntry>,
}

/// The path of `name` in the directory `dir`.
pub open spec fn path_in(dir: Seq<char>, name: Seq<char>) -> Seq<char> {
    if dir.len() == 0 || dir.last() == '/' {
        dir + name
    } else {
        dir + "/"@ + name
    }
}

/// The path of `name` in the directory `dir`.
pub fn join_path(dir: &str, name: &str) -> (r: String)
    ensures
        r@ == path_in(dir@, name@),
{
    let mut out = dir.to_owned();
    if !dir.is_empty() && !ends_with_char(dir, '/') {
        out.push_str("/");
    }
    out.push_str(name);
    out
}

/// What a listing shows: neither hidden entries nor those that hold what was
/// fetched or cached.
pub open spec fn is_shown(name: Seq<char>) -> bool {
    !stands_at(name, "."@, 0) && name != "node_modules"@ && name != "__pycache__"@
}

/// Whether a listing shows an entry of this name.
pub fn shows(name: &str) -> (r: bool)
    ensures
        r == is_shown(name@),
{
    !starts_with(name, ".") && !same(name, "node_modules") && !same(name, "__pycache__")
}

/// The paths that a listing of `dir` shows, each with whether it is a
/// directory: what stands in it, and down to the second level what stands in
/// the directories among that.
pub open spec fn listed(dir: Seq<char>, entries: Seq<DirEntry>, depth: nat) -> Seq<
    (Seq<char>, bool),
>
    decreases
            if depth < 2 {
                2 - depth
            } else {
                0
            },
            entries.len(),
{
    if entries.len() == 0 {
        Seq::empty()
    } else {
        let e = entries.last();
        let path = path_in(dir, e.name@);
        let front = listed(dir, entries.drop_last(), depth);
        if !is_shown(e.name@) {
            front
        } else if e.is_dir && depth < 2 {
            front.push((path, true)) + listed(path, e.children@, depth + 1)
        } else {
            front.push((path, e.is_dir))
        }
    }
}

fn visit(dir: &str, entries: &Vec<DirEntry>, depth: u8, rows: &mut Vec<(String, bool)>)
    requires
        1 <= depth <= 2,
    ensures
        marked(final(rows)@) == marked(old(rows)@) + listed(dir@, entries@, depth as nat),
    decreases 2 - depth,
{
    let ghost start = marked(rows@);
    let mut i: usize = 0;
    assert(start =~= start + listed(dir@, entries@.take(0), depth as nat));
    while i < entries.len()
        invariant
            1 <= depth <= 2,
            i <= entries@.len(),
            marked(rows@) == start + listed(dir@, entries@.take(i as int), depth as nat),
        decreases entries@.len() - i,
    {
        let e = &entries[i];
        let ghost before = marked(rows@);
        let ghost front = listed(dir@, entries@.take(i as int), depth as nat);
        proof {
            assert(entries@.take(i + 1).drop_last() =~= entries@.take(i as int));
            assert(entries@.take(i + 1).last() == e);
        }
        if shows(e.name.as_str()) {
            let path = join_path(dir, e.name.as_str());
            rows.push((path.clone(), e.is_dir));
            assert(marked(rows@) =~= before.push((path@, e.is_dir)));
            if e.is_dir && depth < 2 {
                visit(path.as_str(), &e.children, depth + 1, rows);
                assert(marked(rows@) =~= start + (front.push((path@, true)) + listed(
                    path@,
                    e.children@,
                    depth as nat + 1,
                )));
            } else {
                assert(marked(rows@) =~= start + front.push((path@, e.is_dir)));
            }
        }
        i = i + 1;
    }
    assert(entries@.take(i as int) =~= entries@);
}

/// One row of a listing.
pub open spec fn row_text(row: (Seq<char>, bool)) -> Seq<char> {
    (if row.1 {
        "d\t"@
    } else {
        "f\t"@
    }) + row.0
}

/// The rows of a listing.
pub open spec fn row_texts(rows: Seq<(Seq<char>, bool)>) -> Seq<Seq<char>> {
    Seq::new(rows.len(), |i: int| row_text(rows[i]))
}

/// The listing of a directory: itself and what it shows, in the order of the
/// paths.
pub open spec fn directory_view(root: Seq<char>, entries: Seq<DirEntry>) -> Seq<char> {
    let rows = sorted_marked(seq![(root, true)] + listed(root, entries, 1));
    clipped(
        "Here're the files and directories up to 2 levels deep in "@ + root
            + ", excluding hidden items, node_modules, and Python cache directories:\n"@ + joined(
            row_texts(rows),
            "\n"@,
        ) + "\n"@,
    )
}

/// The listing of a directory.
pub fn list_directory(root: &str, entries: &Vec<DirEntry>) -> (r: String)
    ensures
        r@ == directory_view(root@, entries@),
{
    let mut rows: Vec<(String, bool)> = Vec::new();
    rows.push((root.to_owned(), true));
    assert(marked(rows@) =~= seq![(root@, true)]);
    visit(root, entries, 1, &mut rows);
    let rows = sort_marked(&rows);
    let ghost model = marked(rows@);
    let mut lines: Vec<String> = Vec::new();
    let mut i: usize = 0;
    assert(texts(lines@) =~= row_texts(model.take(0)));
    while i < rows.len()
        invariant
            i <= rows@.len(),
            model == marked(rows@),
            texts(lines@) == row_texts(model.take(i as int)),
        decreases rows@.len() - i,
    {
        let mut line = if rows[i].1 {
            "d\t".to_owned()
        } else {
            "f\t".to_owned()
        };
        line.push_str(rows[i].0.as_str());
        let ghost before = texts(lines@);
        lines.push(line);
        proof {
            assert(texts(lines@) =~= before.push(line@));
            assert(line@ == row_text(model[i as int]));
            assert(row_texts(model.take(i + 1)) =~= row_texts(model.take(i as int)).push(line@));
        }
        i = i + 1;
    }
    assert(model.take(i as int) =~= model);
    let mut out = "Here're the files and directories up to 2 levels deep in ".to_owned();
    out.push_str(root);
    out.push_str(", excluding hidden items, node_modules, and Python cache directories:\n");
    out.push_str(join(&lines, "\n").as_str());
    out.push_str("\n");
    maybe_truncate(out.as_str())
}

// ── create ──────────────────────────────────────────────────────────

/// What the model is told of a file that is to be created: that it was, or
/// that something is there already.
pub open spec fn create_result(path: Seq<char>, exists_already: bool) -> Result<
    Seq<char>,
    Seq<char>,
> {
    if exists_already {
        Err(
            "File already exists at: "@ + path
                + ". Cannot overwrite files using command `create`."@,
        )
    } else {
        Ok("New file created successfully at: "@ + path)
    }
}

/// Whether a file may be created, and what the model is told once it is.
pub fn create_file(path: &str, exists_already: bool) -> (r: Result<String, String>)
    ensures
        match r {
            Ok(s) => create_result(path@, exists_already) == Ok::<Seq<char>, Seq<char>>(s@),
            Err(e) => create_result(path@, exists_already) == Err::<Seq<char>, Seq<char>>(e@),
        },
{
    if exists_already {
        let mut s = "File already exists at: ".to_owned();
        s.push_str(path);
        s.push_str(". Cannot overwrite files using command `create`.");
        return Err(s);
    }
    let mut s = "New file created successfully at: ".to_owned();
    s.push_str(path);
    Ok(s)
}

// ── replace ─────────────────────────────────────────────────────────

/// The places where `search` stands in `content` from `from` on, none of them
/// reaching into the next.
pub open spec fn match_places(content: Seq<char>, search: Seq<char>, from: int) -> Seq<int>
    decreases content.len() - from,
{
    if search.len() == 0 || from < 0 || from + search.len() > content.len() {
        Seq::empty()
    } else if stands_at(content, search, from) {
        seq![from] + match_places(content, search, from + search.len())
    } else {
        match_places(content, search, from + 1)
    }
}

/// How often a character occurs.
pub open spec fn occurrences(s: Seq<char>, c: char) -> nat
    decreases s.len(),
{
    if s.len() == 0 {
        0
    } else {
        occurrences(s.drop_last(), c) + (if s.last() == c {
            1nat
        } else {
            0nat
        })
    }
}

/// The number of the line in which the place `at` stands.
pub open spec fn line_at(content: Seq<char>, at: int) -> nat {
    1 + occurrences(content.take(at), '\n')
}

/// The places as integers.
pub open spec fn places(v: Seq<usize>) -> Seq<int> {
    Seq::new(v.len(), |i: int| v[i] as int)
}

/// The places where `search` stands in `content`.
fn match_positions(content: &str, search: &str) -> (r: Vec<usize>)
    ensures
        places(r@) == match_places(content@, search@, 0),
{
    let c = to_chars(content);
    let s = to_chars(search);
    let mut out: Vec<usize> = Vec::new();
    if s.len() == 0 {
        assert(places(out@) =~= Seq::empty());
        return out;
    }
    let mut at: usize = 0;
    assert(places(out@) + match_places(content@, search@, 0) =~= match_places(
        content@,
        search@,
        0,
    ));
    while at < c.len() && s.len() <= c.len() - at
        invariant
            c@ == content@,
            s@ == search@,
            s@.len() > 0,
            at <= c@.len(),
            places(out@) + match_places(content@, search@, at as int) == match_places(
                content@,
                search@,
                0,
            ),
        decreases c@.len() - at,
    {
        let ghost before = places(out@);
        if stands(&c, &s, at) {
            out.push(at);
            proof {
                assert(places(out@) =~= before.push(at as int));
                assert(before.push(at as int) + match_places(
                    content@,
                    search@,
                    at + search@.len(),
                ) =~= before + (seq![at as int] + match_places(
                    content@,
                    search@,
                    at + search@.len(),
                )));
            }
            at = at + s.len();
        } else {
            at = at + 1;
        }
    }
    assert(places(out@) + match_places(content@, search@, at as int) =~= places(out@));
    out
}

/// Where the places stand in the bytes of the text.
pub open spec fn byte_offsets(content: Seq<char>, at: Seq<int>) -> Seq<int> {
    Seq::new(at.len(), |i: int| byte_len(content.take(at[i])) as int)
}

/// A piece at the front of a text takes no more bytes than the text.
proof fn lemma_front_bytes(content: Seq<char>, at: int)
    requires
        0 <= at <= content.len(),
    ensures
        byte_len(content.take(at)) <= byte_len(content),
        encode_utf8(content).take(byte_len(content.take(at)) as int) == encode_utf8(
            content.take(at),
        ),
{
    lemma_bytes_concat(content.take(at), content.skip(at));
    assert(content.take(at) + content.skip(at) =~= content);
    assert(encode_utf8(content).take(byte_len(content.take(at)) as int) =~= encode_utf8(
        content.take(at),
    ));
}

/// Where the places, which come in order, stand in the bytes of the text.
fn to_byte_offsets(content: &str, at: &Vec<usize>) -> (r: Vec<usize>)
    requires
        forall|i: int, j: int| 0 <= i <= j < at@.len() ==> at@[i] <= at@[j],
        forall|i: int| 0 <= i < at@.len() ==> (#[trigger] at@[i]) <= content@.len(),
    ensures
        places(r@) == byte_offsets(content@, places(at@)),
{
    let c = to_chars(content);
    let bytes: usize = content.as_bytes().len();
    let mut out: Vec<usize> = Vec::new();
    let mut offset: usize = 0;
    let mut cursor: usize = 0;
    let mut i: usize = 0;
    proof {
        assert(c@.take(0) =~= Seq::empty());
        assert(places(out@) =~= byte_offsets(content@, places(at@).take(0)));
    }
    while i < at.len()
        invariant
            c@ == content@,
            bytes == byte_len(content@),
            i <= at@.len(),
            cursor <= c@.len(),
            i < at@.len() ==> cursor <= at@[i as int],
            offset == byte_len(content@.take(cursor as int)),
            forall|i: int, j: int| 0 <= i <= j < at@.len() ==> at@[i] <= at@[j],
            forall|i: int| 0 <= i < at@.len() ==> (#[trigger] at@[i]) <= content@.len(),
            places(out@) == byte_offsets(content@, places(at@).take(i as int)),
        decreases at@.len() - i,
    {
        let place: usize = at[i];
        while cursor < place
            invariant
                c@ == content@,
                bytes == byte_len(content@),
                cursor <= place <= c@.len(),
                offset == byte_len(content@.take(cursor as int)),
            decreases place - cursor,
        {
            let width = char_width(c[cursor]);
            proof {
                let longer = c@.take(cursor + 1);
                lemma_last_bytes(longer);
                lemma_front_bytes(c@, cursor + 1);
                assert(longer.drop_last() =~= c@.take(cursor as int));
                assert(longer.last() == c@[cursor as int]);
            }
            offset = offset + width;
            cursor = cursor + 1;
        }
        let ghost before = places(out@);
        out.push(offset);
        proof {
            assert(places(out@) =~= before.push(offset as int));
            assert(byte_offsets(content@, places(at@).take(i + 1)) =~= byte_offsets(
                content@,
                places(at@).take(i as int),
            ).push(offset as int));
        }
        i = i + 1;
    }
    assert(places(at@).take(i as int) =~= places(at@));
    out
}

/// Where `search` stands in the bytes of `content`.
pub fn match_offsets(content: &str, search: &str) -> (r: Vec<usize>)
    ensures
        places(r@) == byte_offsets(content@, match_places(content@, search@, 0)),
{
    let at = match_positions(content, search);
    proof {
        lemma_positions(content@, search@, at@);
    }
    to_byte_offsets(content, &at)
}

/// The numbers of the lines in which the places stand, as texts.
pub open spec fn line_numbers(content: Seq<char>, at: Seq<int>) -> Seq<Seq<char>> {
    Seq::new(at.len(), |i: int| decimal(line_at(content, at[i])))
}

/// How many bytes end a line.
pub open spec fn line_ends(bytes: Seq<u8>) -> nat
    decreases bytes.len(),
{
    if bytes.len() == 0 {
        0
    } else {
        line_ends(bytes.drop_last()) + (if bytes.last() == 10 {
            1nat
        } else {
            0nat
        })
    }
}

/// The greatest of the first `n` numbers, or zero.
pub open spec fn greatest(v: Seq<usize>, n: int) -> int
    decreases n,
{
    if n <= 0 {
        0
    } else if v[n - 1] > greatest(v, n - 1) {
        v[n - 1] as int
    } else {
        greatest(v, n - 1)
    }
}

/// The numbers of the lines that are reached in these bytes: the line of each
/// offset, where no earlier offset is behind it.
pub open spec fn lines_reached(bytes: Seq<u8>, offsets: Seq<usize>) -> Seq<Seq<char>> {
    Seq::new(
        offsets.len(),
        |i: int| decimal(1 + line_ends(bytes.take(greatest(offsets, i + 1)))),
    )
}

/// The numbers of the lines in which the offsets stand, in bytes. The text is
/// read once, from its beginning on: an offset before one that was given
/// earlier has the line of that one.
pub fn line_numbers_at(content: &str, offsets: &Vec<usize>) -> (r: Vec<String>)
    requires
        forall|i: int| 0 <= i < offsets@.len() ==> (#[trigger] offsets@[i]) <= byte_len(content@),
        // One line more than there are bytes has to be counted.
        forall|i: int| 0 <= i < offsets@.len() ==> (#[trigger] offsets@[i]) < usize::MAX,
    ensures
        texts(r@) == lines_reached(encode_utf8(content@), offsets@),
{
    let bytes = content.as_bytes();
    let mut out: Vec<String> = Vec::new();
    let mut line: usize = 1;
    let mut cursor: usize = 0;
    let mut i: usize = 0;
    let ghost all = lines_reached(bytes@, offsets@);
    proof {
        assert(bytes@ == encode_utf8(content@));
        assert(bytes@.take(0) =~= Seq::empty());
        assert(texts(out@) =~= all.take(0));
    }
    while i < offsets.len()
        invariant
            i <= offsets@.len(),
            all == lines_reached(bytes@, offsets@),
            cursor <= bytes@.len(),
            cursor == greatest(offsets@, i as int),
            line == 1 + line_ends(bytes@.take(cursor as int)),
            line <= cursor + 1,
            forall|i: int| 0 <= i < offsets@.len() ==> (#[trigger] offsets@[i]) <= bytes@.len(),
            forall|i: int| 0 <= i < offsets@.len() ==> (#[trigger] offsets@[i]) < usize::MAX,
            texts(out@) == all.take(i as int),
        decreases offsets@.len() - i,
    {
        let offset: usize = offsets[i];
        let ghost start = cursor;
        while cursor < offset
            invariant
                offset <= bytes@.len(),
                offset < usize::MAX,
                start <= cursor,
                cursor <= offset || cursor == start,
                cursor <= bytes@.len(),
                line == 1 + line_ends(bytes@.take(cursor as int)),
                line <= cursor + 1,
            decreases offset - cursor,
        {
            assert(bytes@.take(cursor + 1).drop_last() =~= bytes@.take(cursor as int));
            assert(bytes@.take(cursor + 1).last() == bytes@[cursor as int]);
            if bytes[cursor] == 10 {
                line = line + 1;
            }
            cursor = cursor + 1;
        }
        let ghost before = texts(out@);
        out.push(number(line as u64));
        proof {
            assert(cursor == greatest(offsets@, i + 1));
            assert(texts(out@) =~= before.push(decimal(line as nat)));
            assert(all.take(i + 1) =~= all.take(i as int).push(all[i as int]));
        }
        i = i + 1;
    }
    assert(all.take(i as int) =~= all);
    out
}

proof fn lemma_line_ends_concat(a: Seq<u8>, b: Seq<u8>)
    ensures
        line_ends(a + b) == line_ends(a) + line_ends(b),
    decreases b.len(),
{
    if b.len() == 0 {
        assert(a + b =~= a);
    } else {
        lemma_line_ends_concat(a, b.drop_last());
        assert((a + b).drop_last() =~= a + b.drop_last());
        assert((a + b).last() == b.last());
    }
}

/// Of the characters, the line feed alone has the byte of a line feed in it.
proof fn lemma_line_feed(c: char)
    ensures
        line_ends(encode_scalar(c as u32)) == if c == '\n' {
            1nat
        } else {
            0nat
        },
{
    reveal_with_fuel(line_ends, 5);
    let n = c as u32;
    assert(n <= 0x7F ==> (n & 0x7F) as u8 == n) by (bit_vector);
    assert(0xC0u8 | ((n >> 6) & 0x1F) as u8 >= 0x80) by (bit_vector);
    assert(0xE0u8 | ((n >> 12) & 0x0F) as u8 >= 0x80) by (bit_vector);
    assert(0xF0u8 | ((n >> 18) & 0x7) as u8 >= 0x80) by (bit_vector);
    assert(0x80u8 | (n & 0x3F) as u8 >= 0x80) by (bit_vector);
    assert(0x80u8 | ((n >> 6) & 0x3F) as u8 >= 0x80) by (bit_vector);
    assert(0x80u8 | ((n >> 12) & 0x3F) as u8 >= 0x80) by (bit_vector);
}

/// The lines of a text end where those of its bytes end.
proof fn lemma_line_ends(s: Seq<char>)
    ensures
        line_ends(encode_utf8(s)) == occurrences(s, '\n'),
    decreases s.len(),
{
    if s.len() == 0 {
        assert(encode_utf8(s) =~= Seq::empty());
    } else {
        let front = s.drop_last();
        let last = seq![s.last()];
        lemma_line_ends(front);
        lemma_line_feed(s.last());
        lemma_bytes_concat(front, last);
        assert(front + last =~= s);
        assert(last.drop_first() =~= Seq::empty());
        assert(encode_utf8(last.drop_first()) =~= Seq::empty());
        assert(encode_utf8(last) =~= encode_scalar(last[0] as u32));
        lemma_line_ends_concat(encode_utf8(front), encode_utf8(last));
    }
}

/// The lines of places in order are those of their offsets.
proof fn lemma_lines(content: Seq<char>, at: Seq<int>, offsets: Seq<usize>)
    requires
        forall|i: int| 0 <= i < at.len() ==> 0 <= #[trigger] at[i] <= content.len(),
        forall|i: int, j: int| 0 <= i <= j < at.len() ==> at[i] <= at[j],
        places(offsets) == byte_offsets(content, at),
    ensures
        lines_reached(encode_utf8(content), offsets) == line_numbers(content, at),
        forall|i: int|
            0 <= i < offsets.len() ==> (#[trigger] offsets[i]) == byte_len(content.take(at[i]))
                && offsets[i] <= byte_len(content),
{
    let bytes = encode_utf8(content);
    assert(offsets.len() == places(offsets).len());
    assert(byte_offsets(content, at).len() == at.len());
    assert forall|i: int| 0 <= i < offsets.len() implies (#[trigger] offsets[i]) <= byte_len(
        content,
    ) && offsets[i] == byte_len(content.take(at[i])) by {
        assert(places(offsets)[i] == offsets[i]);
        assert(byte_offsets(content, at)[i] == byte_len(content.take(at[i])));
        lemma_front_bytes(content, at[i]);
    }
    assert forall|i: int| 0 <= i < offsets.len() implies lines_reached(bytes, offsets)[i]
        == line_numbers(content, at)[i] by {
        lemma_greatest(content, at, offsets, i + 1);
        assert(offsets[i] == byte_len(content.take(at[i])));
        lemma_front_bytes(content, at[i]);
        lemma_line_ends(content.take(at[i]));
    }
    assert(lines_reached(bytes, offsets) =~= line_numbers(content, at));
}

proof fn lemma_greatest(content: Seq<char>, at: Seq<int>, offsets: Seq<usize>, n: int)
    requires
        0 < n <= offsets.len(),
        forall|i: int| 0 <= i < at.len() ==> 0 <= #[trigger] at[i] <= content.len(),
        forall|i: int, j: int| 0 <= i <= j < at.len() ==> at[i] <= at[j],
        places(offsets) == byte_offsets(content, at),
    ensures
        greatest(offsets, n) == offsets[n - 1],
    decreases n,
{
    assert(offsets.len() == places(offsets).len());
    assert(byte_offsets(content, at).len() == at.len());
    assert(places(offsets)[n - 1] == offsets[n - 1]);
    assert(byte_offsets(content, at)[n - 1] == byte_len(content.take(at[n - 1])));
    if n > 1 {
        lemma_greatest(content, at, offsets, n - 1);
        assert(places(offsets)[n - 2] == offsets[n - 2]);
        assert(byte_offsets(content, at)[n - 2] == byte_len(content.take(at[n - 2])));
        let longer = content.take(at[n - 1]);
        lemma_front_bytes(longer, at[n - 2]);
        assert(longer.take(at[n - 2]) =~= content.take(at[n - 2]));
    } else {
        assert(greatest(offsets, 0) == 0);
    }
}

/// The places where a text stands come in order and lie within the other.
proof fn lemma_positions(content: Seq<char>, search: Seq<char>, at: Seq<usize>)
    requires
        places(at) == match_places(content, search, 0),
    ensures
        forall|i: int| 0 <= i < at.len() ==> (#[trigger] at[i]) + search.len() <= content.len(),
        forall|i: int, j: int| 0 <= i <= j < at.len() ==> at[i] <= at[j],
{
    let all = match_places(content, search, 0);
    lemma_match_places(content, search, 0);
    assert(at.len() == all.len());
    assert forall|i: int| 0 <= i < at.len() implies (#[trigger] at[i]) + search.len()
        <= content.len() by {
        assert(all[i] == places(at)[i]);
        assert(stands_at(content, search, all[i]));
    }
    assert forall|i: int, j: int| 0 <= i <= j < at.len() implies at[i] <= at[j] by {
        assert(all[i] == places(at)[i] && all[j] == places(at)[j]);
        if i < j {
            assert(all[i] + search.len() <= all[j]);
        }
    }
}

proof fn lemma_match_places(content: Seq<char>, search: Seq<char>, from: int)
    requires
        from >= 0,
    ensures
        forall|i: int|
            0 <= i < match_places(content, search, from).len() ==> {
                &&& from <= #[trigger] match_places(content, search, from)[i]
                &&& stands_at(content, search, match_places(content, search, from)[i])
                &&& search.len() > 0
            },
        forall|i: int, j: int|
            0 <= i < j < match_places(content, search, from).len() ==> match_places(
                content,
                search,
                from,
            )[i] + search.len() <= match_places(content, search, from)[j],
    decreases content.len() - from,
{
    if search.len() == 0 || from + search.len() > content.len() {
        assert(match_places(content, search, from).len() == 0);
    } else if stands_at(content, search, from) {
        let rest = match_places(content, search, from + search.len());
        let all = match_places(content, search, from);
        lemma_match_places(content, search, from + search.len());
        assert(all == seq![from] + rest);
        assert forall|i: int| 0 <= i < all.len() implies {
            &&& from <= #[trigger] all[i]
            &&& stands_at(content, search, all[i])
            &&& search.len() > 0
        } by {
            if i > 0 {
                assert(all[i] == rest[i - 1]);
            }
        }
        assert forall|i: int, j: int| 0 <= i < j < all.len() implies all[i] + search.len()
            <= all[j] by {
            assert(all[j] == rest[j - 1]);
            if i > 0 {
                assert(all[i] == rest[i - 1]);
            }
        }
    } else {
        lemma_match_places(content, search, from + 1);
        assert(match_places(content, search, from) == match_places(content, search, from + 1));
    }
}

/// What an edit makes of a file: its new content and what the model is told, or
/// why nothing was changed. The old text has to stand in the file once.
pub open spec fn edited(
    path: Seq<char>,
    content: Seq<char>,
    old_str: Seq<char>,
    new_str: Seq<char>,
) -> Result<(Seq<char>, Seq<char>), Seq<char>> {
    let at = match_places(content, old_str, 0);
    if at.len() == 0 {
        Err(
            "No replacement was performed, old_str `"@ + old_str + "` did not appear verbatim in "@
                + path + "."@,
        )
    } else if at.len() > 1 {
        Err(
            "No replacement was performed. Multiple occurrences of old_str `"@ + old_str
                + "` in lines ["@ + joined(line_numbers(content, at), ", "@)
                + "]. Please ensure it is unique"@,
        )
    } else {
        Ok(
            (
                content.take(at[0]) + new_str + content.skip(at[0] + old_str.len()),
                "The file "@ + path + " has been edited successfully."@,
            ),
        )
    }
}

/// What an edit makes of a file.
pub fn replace_in_file(path: &str, content: &str, old_str: &str, new_str: &str) -> (r: Result<
    (String, String),
    String,
>)
    ensures
        match r {
            Ok((after, said)) => edited(path@, content@, old_str@, new_str@) == Ok::<
                (Seq<char>, Seq<char>),
                Seq<char>,
            >((after@, said@)),
            Err(e) => edited(path@, content@, old_str@, new_str@) == Err::<
                (Seq<char>, Seq<char>),
                Seq<char>,
            >(e@),
        },
{
    let found = match_positions(content, old_str);
    let ghost at = match_places(content@, old_str@, 0);
    proof {
        lemma_match_places(content@, old_str@, 0);
        lemma_positions(content@, old_str@, found@);
    }
    if found.len() == 0 {
        let mut s = "No replacement was performed, old_str `".to_owned();
        s.push_str(old_str);
        s.push_str("` did not appear verbatim in ");
        s.push_str(path);
        s.push_str(".");
        return Err(s);
    }
    if found.len() > 1 {
        let offsets = to_byte_offsets(content, &found);
        let bytes: usize = content.as_bytes().len();
        assert(bytes == byte_len(content@));
        proof {
            assert(places(found@) == at);
            assert forall|i: int, j: int| 0 <= i <= j < at.len() implies at[i] <= at[j] by {
                assert(found@[i] <= found@[j]);
            }
            assert forall|i: int| 0 <= i < at.len() implies 0 <= #[trigger] at[i]
                <= content@.len() by {
                assert(places(found@)[i] == found@[i]);
            }
            lemma_lines(content@, at, offsets@);
            assert forall|i: int| 0 <= i < offsets@.len() implies (#[trigger] offsets@[i])
                < usize::MAX by {
                // Behind a place where the text stands there is more.
                let front = content@.take(at[i] + 1);
                lemma_last_bytes(front);
                assert(front.drop_last() =~= content@.take(at[i]));
                lemma_front_bytes(content@, at[i] + 1);
                assert(encode_scalar(front.last() as u32).len() > 0);
                assert(offsets@[i] < byte_len(content@));
            }
        }
        let lines = line_numbers_at(content, &offsets);
        let mut s = "No replacement was performed. Multiple occurrences of old_str `".to_owned();
        s.push_str(old_str);
        s.push_str("` in lines [");
        s.push_str(join(&lines, ", ").as_str());
        s.push_str("]. Please ensure it is unique");
        return Err(s);
    }
    let offset: usize = found[0];
    let chars = to_chars(content);
    let width: usize = count(old_str);
    let total: usize = chars.len();
    assert(at[0] == places(found@)[0]);
    assert(stands_at(content@, old_str@, at[0]));
    let mut after = slice_text(&chars, 0, offset);
    after.push_str(new_str);
    after.push_str(slice_text(&chars, offset + width, total).as_str());
    let mut said = "The file ".to_owned();
    said.push_str(path);
    said.push_str(" has been edited successfully.");
    proof {
        assert(chars@.subrange(0, offset as int) =~= content@.take(offset as int));
        assert(chars@.subrange(offset + width, chars@.len() as int) =~= content@.skip(
            offset + width,
        ));
    }
    Ok((after, said))
}

// ── laws ────────────────────────────────────────────────────────────

/// An edit changes the one place where the old text stood and nothing else:
/// what stood before and behind it stays, and putting the old text back gives
/// the file there was.
pub proof fn law_edit_is_exact(
    path: Seq<char>,
    content: Seq<char>,
    old_str: Seq<char>,
    new_str: Seq<char>,
)
    ensures
        edited(path, content, old_str, new_str) matches Ok((after, _)) ==> {
            let at = match_places(content, old_str, 0)[0];
            &&& stands_at(content, old_str, at)
            &&& stands_at(after, new_str, at)
            &&& after.take(at) == content.take(at)
            &&& after.skip(at + new_str.len()) == content.skip(at + old_str.len())
            &&& after.take(at) + old_str + after.skip(at + new_str.len()) == content
        },
{
    lemma_match_places(content, old_str, 0);
    let places = match_places(content, old_str, 0);
    if places.len() == 1 {
        let at = places[0];
        let after = content.take(at) + new_str + content.skip(at + old_str.len());
        assert(after.subrange(at, at + new_str.len()) =~= new_str);
        assert(after.take(at) =~= content.take(at));
        assert(after.skip(at + new_str.len()) =~= content.skip(at + old_str.len()));
        assert(content.subrange(at, at + old_str.len()) == old_str);
        assert(content.take(at) + content.subrange(at, at + old_str.len()) + content.skip(
            at + old_str.len(),
        ) =~= content);
    }
}

/// A range that is accepted lies within the file.
pub proof fn law_range_lies_in_file(range: Seq<Json>, total: nat)
    ensures
        lines_of(range, total) matches Ok((start, end)) ==> 1 <= start <= total && (end == -1
            || start <= end <= total),
{
}

/// Wherever a text stands in another, one of the places that are counted covers
/// it.
proof fn lemma_match_is_counted(content: Seq<char>, search: Seq<char>, from: int, j: int)
    requires
        0 <= from <= j,
        search.len() > 0,
        stands_at(content, search, j),
    ensures
        exists|k: int|
            0 <= k < match_places(content, search, from).len() && {
                let m = #[trigger] match_places(content, search, from)[k];
                m <= j < m + search.len()
            },
    decreases content.len() - from,
{
    let all = match_places(content, search, from);
    if stands_at(content, search, from) {
        if j < from + search.len() {
            assert(all[0] == from);
        } else {
            let rest = match_places(content, search, from + search.len());
            lemma_match_is_counted(content, search, from + search.len(), j);
            let k = choose|k: int|
                0 <= k < rest.len() && {
                    let m = #[trigger] rest[k];
                    m <= j < m + search.len()
                };
            assert(all[k + 1] == rest[k]);
        }
    } else {
        lemma_match_is_counted(content, search, from + 1, j);
    }
}

/// The places that are counted are places where the text stands, none reaches
/// into another, and together they cover every place where it stands.
pub proof fn law_matches_cover_all(content: Seq<char>, search: Seq<char>)
    requires
        search.len() > 0,
    ensures
        ({
            let all = match_places(content, search, 0);
            &&& forall|k: int| 0 <= k < all.len() ==> stands_at(content, search, #[trigger] all[k])
            &&& forall|i: int, k: int| 0 <= i < k < all.len() ==> all[i] + search.len() <= all[k]
            &&& forall|j: int| #[trigger] stands_at(content, search, j) ==> exists|k: int|
                0 <= k < all.len() && (#[trigger] all[k]) <= j < all[k] + search.len()
        }),
{
    lemma_match_places(content, search, 0);
    let all = match_places(content, search, 0);
    assert forall|j: int| #[trigger] stands_at(content, search, j) implies exists|k: int|
        0 <= k < all.len() && (#[trigger] all[k]) <= j < all[k] + search.len() by {
        lemma_match_is_counted(content, search, 0, j);
    }
}

/// An edit is done only where the old text stands at one place, and at that place:
/// wherever else it stands reaches into it.
#[verifier::rlimit(40)]
pub proof fn law_edit_needs_a_unique_text(
    path: Seq<char>,
    content: Seq<char>,
    old_str: Seq<char>,
    new_str: Seq<char>,
)
    ensures
        edited(path, content, old_str, new_str) matches Ok((after, said)) ==> exists|at: int|
            {
                &&& #[trigger] stands_at(content, old_str, at)
                &&& after == content.take(at) + new_str + content.skip(at + old_str.len())
                &&& forall|j: int| #[trigger]
                    stands_at(content, old_str, j) ==> at - old_str.len() < j < at + old_str.len()
            },
{
    let all = match_places(content, old_str, 0);
    let n = old_str.len();
    if all.len() == 1 {
        let at = all[0];
        assert(stands_at(content, old_str, at)) by {
            lemma_match_places(content, old_str, 0);
        }
        assert forall|j: int| #[trigger] stands_at(content, old_str, j) implies at - n < j < at
            + n by {
            lemma_match_is_counted(content, old_str, 0, j);
        }
    }
}

/// Where the old text stands at one place alone the edit is done.
pub proof fn law_edit_of_a_unique_text_is_done(
    path: Seq<char>,
    content: Seq<char>,
    old_str: Seq<char>,
    new_str: Seq<char>,
    at: int,
)
    requires
        old_str.len() > 0,
        stands_at(content, old_str, at),
        forall|j: int| #[trigger] stands_at(content, old_str, j) ==> j == at,
    ensures
        edited(path, content, old_str, new_str) matches Ok((after, said)) && after == content.take(
            at,
        ) + new_str + content.skip(at + old_str.len()),
{
    law_matches_cover_all(content, old_str);
    let all = match_places(content, old_str, 0);
    let k = choose|k: int|
        0 <= k < all.len() && (#[trigger] all[k]) <= at < all[k] + old_str.len();
    assert(stands_at(content, old_str, all[k]));
    if all.len() > 1 {
        assert(stands_at(content, old_str, all[0]) && stands_at(content, old_str, all[1]));
        assert(all[0] + old_str.len() <= all[1]);
    }
}

/// Where the old text stands nowhere, or at two places apart, nothing is changed.
pub proof fn law_ambiguous_edit_is_refused(
    path: Seq<char>,
    content: Seq<char>,
    old_str: Seq<char>,
    new_str: Seq<char>,
    i: int,
    j: int,
)
    requires
        ({
            ||| !occurs(content, old_str)
            ||| old_str.len() > 0 && stands_at(content, old_str, i) && stands_at(
                content,
                old_str,
                j,
            ) && i + old_str.len() <= j
        }),
    ensures
        edited(path, content, old_str, new_str) is Err,
{
    let all = match_places(content, old_str, 0);
    let n = old_str.len();
    if !occurs(content, old_str) {
        lemma_match_places(content, old_str, 0);
        if all.len() > 0 {
            assert(stands_at(content, old_str, all[0]));
        }
    } else {
        lemma_match_is_counted(content, old_str, 0, i);
        lemma_match_is_counted(content, old_str, 0, j);
        if all.len() == 1 {
            let at = all[0];
            assert(at <= i < at + n && at <= j < at + n);
        }
    }
}

proof fn lemma_lines_counted(s: Seq<char>)
    ensures
        pieces(s, '\n').len() == 1 + occurrences(s, '\n'),
    decreases s.len(),
{
    if s.len() > 0 {
        lemma_lines_counted(s.drop_last());
        law_pieces_make_the_text(s.drop_last(), '\n');
    }
}

/// What the model is told of an edit names the file; where it is refused it names
/// the text that was looked for, and where that stands more than once the line of
/// every place is given, which is the number of lines up to there.
#[verifier::rlimit(40)]
pub proof fn law_edit_is_reported(
    path: Seq<char>,
    content: Seq<char>,
    old_str: Seq<char>,
    new_str: Seq<char>,
)
    ensures
        match edited(path, content, old_str, new_str) {
            Ok((_, said)) => occurs(said, path),
            Err(e) => {
                let at = match_places(content, old_str, 0);
                &&& occurs(e, "`"@ + old_str + "`"@)
                &&& at.len() == 0 ==> occurs(e, path)
                &&& forall|k: int|
                    0 <= k < at.len() ==> occurs(
                        e,
                        decimal(pieces(content.take(#[trigger] at[k]), '\n').len()),
                    )
            },
        },
{
    reveal_strlit("`");
    let at = match_places(content, old_str, 0);
    if at.len() == 0 {
        reveal_strlit("No replacement was performed, old_str `");
        reveal_strlit("` did not appear verbatim in ");
        let e = edited(path, content, old_str, new_str)->Err_0;
        let lead = "No replacement was performed, old_str `"@;
        let mid = "` did not appear verbatim in "@;
        assert(e =~= lead.drop_last() + ("`"@ + old_str + "`"@) + (mid.skip(1) + path + "."@));
        lemma_stands_in(lead.drop_last(), "`"@ + old_str + "`"@, mid.skip(1) + path + "."@);
        assert(e =~= (lead + old_str + mid) + path + "."@);
        lemma_stands_in(lead + old_str + mid, path, "."@);
    } else if at.len() != 1 {
        reveal_strlit("No replacement was performed. Multiple occurrences of old_str `");
        reveal_strlit("` in lines [");
        let e = edited(path, content, old_str, new_str)->Err_0;
        let lead = "No replacement was performed. Multiple occurrences of old_str `"@;
        let mid = "` in lines ["@;
        let end = "]. Please ensure it is unique"@;
        let rows = line_numbers(content, at);
        let list = joined(rows, ", "@);
        let rest = mid.skip(1) + list + end;
        assert(e =~= lead.drop_last() + ("`"@ + old_str + "`"@) + rest);
        lemma_stands_in(lead.drop_last(), "`"@ + old_str + "`"@, rest);
        assert forall|k: int| 0 <= k < at.len() implies occurs(
            e,
            decimal(pieces(content.take(#[trigger] at[k]), '\n').len()),
        ) by {
            let n = decimal(pieces(content.take(at[k]), '\n').len());
            lemma_lines_counted(content.take(at[k]));
            assert(rows[k] == n);
            lemma_joined_holds(rows, ", "@, k);
            lemma_occurs_in_front(list, end, n);
            lemma_occurs_behind(lead + old_str + mid, list + end, n);
            assert(e =~= lead + old_str + mid + (list + end));
        }
    } else {
        let lead = "The file "@;
        let end = " has been edited successfully."@;
        lemma_stands_in(lead, path, end);
    }
}

proof fn lemma_joined_holds(v: Seq<Seq<char>>, sep: Seq<char>, i: int)
    requires
        0 <= i < v.len(),
    ensures
        occurs(joined(v, sep), v[i]),
{
    let all = joined(v, sep);
    law_joined_holds_all(v, sep, i);
    if i == v.len() - 1 {
        let front = all.take(all.len() - v[i].len());
        lemma_stands_in(front, v[i], Seq::empty());
        assert(all =~= front + v[i] + Seq::<char>::empty());
    } else {
        let at = choose|at: int| stands_at(all, v[i] + sep, at);
        let both = v[i] + sep;
        assert(all.subrange(at, at + v[i].len()) =~= all.subrange(at, at + both.len()).take(
            v[i].len() as int,
        ));
        assert(both.take(v[i].len() as int) =~= v[i]);
        assert(stands_at(all, v[i], at));
    }
}

/// A short view is shown as it is; a long one is cut behind its first characters,
/// and says how the rest can be found.
pub proof fn law_long_view_is_cut(s: Seq<char>)
    ensures
        s.len() <= 10_000 ==> clipped(s) == s,
        s.len() > 10_000 ==> {
            &&& clipped(s).len() > 10_000
            &&& clipped(s).take(10_000) == s.take(10_000)
            &&& occurs(clipped(s).skip(10_000), "grep -n"@)
        },
{
    reveal_strlit(
        "<response clipped><NOTE>To save on context only part of this file has been shown to you. You should retry this tool after you have searched inside the file with `grep -n` in order to find the line numbers of what you are looking for.</NOTE>",
    );
    reveal_strlit("grep -n");
    if s.len() > 10_000 {
        assert(clipped(s).take(10_000) =~= s.take(10_000));
        let note = TRUNCATED_MESSAGE@;
        assert(clipped(s).skip(10_000) =~= note);
        let at = 162int;
        assert(note.subrange(at, at + 7) =~= "grep -n"@);
        assert(stands_at(note, "grep -n"@, at));
    }
}

/// A line number stands at the right of six places, or takes as many as it needs.
pub proof fn law_line_number_is_aligned(n: nat)
    ensures
        ({
            let t = in_six_places(n);
            let d = decimal(n);
            &&& t.len() >= d.len()
            &&& t.skip(t.len() - d.len()) == d
            &&& forall|i: int| 0 <= i < t.len() - d.len() ==> t[i] == ' '
            &&& d.len() <= 6 ==> t.len() == 6
            &&& d.len() > 6 ==> t == d
        }),
{
    let t = in_six_places(n);
    assert(t.skip(t.len() - decimal(n).len()) =~= decimal(n));
}

/// The rows are those of the lines from `first` on, each with its number, and the
/// beginning of one more; `whole` says that there are all up to `last` and nothing
/// behind.
pub open spec fn are_rows(
    rows: Seq<Seq<char>>,
    lines: Seq<Seq<char>>,
    first: int,
    last: int,
    whole: bool,
) -> bool {
    &&& rows.len() <= last - first + 2
    &&& forall|i: int|
        0 <= i < rows.len() - 1 ==> (#[trigger] rows[i]) == in_six_places((first + i) as nat) + "  "@
            + lines[first + i - 1]
    &&& whole ==> rows.len() == last - first + 2 && rows.last().len() == 0
}

/// The lines that a view shows are those from `first` to `last`, each with its
/// number, in order: the rows behind the heading are as many as these lines. Where
/// the view was cut, the rows before the cut are.
pub open spec fn shows_lines(
    view: Seq<char>,
    heading: Seq<char>,
    lines: Seq<Seq<char>>,
    first: int,
    last: int,
) -> bool {
    let end = if view.len() <= 10_000 {
        view.len() as int
    } else {
        10_000
    };
    heading.len() <= end ==> {
        &&& view.take(heading.len() as int) == heading
        &&& are_rows(
            pieces(view.subrange(heading.len() as int, end), '\n'),
            lines,
            first,
            last,
            view.len() <= 10_000,
        )
    }
}

#[verifier::rlimit(40)]
proof fn lemma_rows_shown(
    heading: Seq<char>,
    lines: Seq<Seq<char>>,
    first: int,
    last: int,
)
    requires
        1 <= first <= last <= lines.len(),
        forall|i: int| 0 <= i < lines.len() ==> !(#[trigger] lines[i]).contains('\n'),
    ensures
        shows_lines(
            clipped(
                heading + joined(
                    numbered(lines.subrange(first - 1, last), first as nat),
                    "\n"@,
                ) + "\n"@,
            ),
            heading,
            lines,
            first,
            last,
        ),
{
    reveal_strlit("\n");
    reveal_strlit("  ");
    let rows = numbered(lines.subrange(first - 1, last), first as nat);
    assert("\n"@ =~= seq!['\n']);
    assert forall|i: int| 0 <= i < rows.len() implies !(#[trigger] rows[i]).contains('\n') by {
        let n = (first + i) as nat;
        law_line_number_is_aligned(n);
        law_decimal_can_be_read(n);
        let t = in_six_places(n);
        let d = decimal(n);
        let line = lines[first - 1 + i];
        assert(!line.contains('\n'));
        assert forall|k: int| 0 <= k < rows[i].len() implies rows[i][k] != '\n' by {
            if k < t.len() {
                if k >= t.len() - d.len() {
                    assert(t[k] == t.skip(t.len() - d.len())[k - (t.len() - d.len())]);
                    assert(t[k] == d[k - (t.len() - d.len())]);
                }
            } else if k >= t.len() + 2 {
                assert(rows[i][k] == line[k - t.len() - 2]);
                assert(line.contains(line[k - t.len() - 2]));
            }
        }
    }
    law_joined_comes_apart(rows, '\n');
    let body = joined(rows, "\n"@);
    law_pieces_of_both_sides(body, Seq::empty(), '\n');
    let tail = body + "\n"@;
    assert(tail =~= body.push('\n') + Seq::<char>::empty());
    let all = pieces(tail, '\n');
    assert(all =~= rows.push(Seq::empty()));
    let whole = heading + body + "\n"@;
    let view = clipped(whole);
    let end: int = if view.len() <= 10_000 {
        view.len() as int
    } else {
        10_000
    };
    if heading.len() <= end {
        if whole.len() <= 10_000 {
            assert(view.subrange(heading.len() as int, end) =~= tail);
            assert(view.take(heading.len() as int) =~= heading);
        } else {
            law_long_view_is_cut(whole);
            assert(view.take(heading.len() as int) =~= heading);
            let n = end - heading.len();
            assert(view.subrange(heading.len() as int, end) =~= tail.take(n));
            law_pieces_of_the_front(tail, '\n', n);
        }
    }
}

/// A view of a file shows every line of it, each with its number, and says how many
/// there are; a view of a range shows the lines of the range. A view of all lines
/// by a range shows the same rows as one without.
pub proof fn law_view_shows_every_line(path: Seq<char>, content: Seq<char>, range: Seq<Json>)
    ensures
        ({
            let lines = pieces(content, '\n');
            let total = lines.len();
            let plain = view_heading(path, total, None);
            &&& file_view(path, content, None) matches Ok(v) && shows_lines(
                v,
                plain,
                lines,
                1,
                total as int,
            )
            &&& match lines_of(range, total) {
                Ok((start, end)) => file_view(path, content, Some(range)) matches Ok(v)
                    && shows_lines(
                    v,
                    view_heading(path, total, Some((start, end))),
                    lines,
                    start,
                    if end == -1 {
                        total as int
                    } else {
                        end
                    },
                ),
                Err(e) => file_view(path, content, Some(range)) == Err::<Seq<char>, Seq<char>>(e),
            }
            &&& lines_of(range, total) == Ok::<(int, int), Seq<char>>((1, -1)) ==> {
                let one = file_view(path, content, None)->Ok_0;
                let other = file_view(path, content, Some(range))->Ok_0;
                other.len() <= 10_000 ==> one.skip(plain.len() as int) == other.skip(
                    view_heading(path, total, Some((1, -1))).len() as int,
                )
            }
        }),
{
    let lines = pieces(content, '\n');
    let total = lines.len() as int;
    law_pieces_make_the_text(content, '\n');
    lemma_rows_shown(view_heading(path, lines.len(), None), lines, 1, total);
    assert(lines.subrange(0, total) =~= lines);
    if let Ok((start, end)) = lines_of(range, lines.len()) {
        let last = if end == -1 {
            total
        } else {
            end
        };
        lemma_rows_shown(
            view_heading(path, lines.len(), Some((start, end))),
            lines,
            start,
            last,
        );
        if end == -1 {
            assert(lines.subrange(start - 1, total) =~= lines.skip(start - 1));
        }
        if start == 1 && end == -1 {
            let one = view_heading(path, lines.len(), None);
            let other = view_heading(path, lines.len(), Some((1, -1)));
            let body = joined(numbered(lines, 1), "\n"@) + "\n"@;
            let extra = " with view_range=["@ + signed(1) + ", "@ + signed(-1) + "]"@;
            assert(one.len() + extra.len() == other.len());
            law_long_view_is_cut(one + body);
            law_long_view_is_cut(other + body);
            assert(one + joined(numbered(lines, 1), "\n"@) + "\n"@ =~= one + body);
            assert(other + joined(numbered(lines, 1), "\n"@) + "\n"@ =~= other + body);
            assert(lines.skip(0) =~= lines);
            assert((one + body).skip(one.len() as int) =~= body);
            assert((other + body).skip(other.len() as int) =~= body);
        }
    }
}

/// The heading of a view names the file and says how many lines it has, and which
/// were asked for.
#[verifier::rlimit(40)]
pub proof fn law_heading_says_what_is_shown(path: Seq<char>, total: nat, start: int, end: int)
    ensures
        occurs(view_heading(path, total, None), path),
        occurs(view_heading(path, total, None), "total of "@ + decimal(total) + " lines"@),
        occurs(view_heading(path, total, Some((start, end))), path),
        occurs(
            view_heading(path, total, Some((start, end))),
            "total of "@ + decimal(total) + " lines"@,
        ),
        occurs(
            view_heading(path, total, Some((start, end))),
            "["@ + signed(start) + ", "@ + signed(end) + "]"@,
        ),
{
    reveal_strlit("Here's the content of ");
    reveal_strlit(" with line numbers (which has a total of ");
    reveal_strlit(" lines)");
    reveal_strlit(" lines");
    reveal_strlit("total of ");
    reveal_strlit("[");
    reveal_strlit(" with view_range=[");
    let a = "Here's the content of "@;
    let b = " with line numbers (which has a total of "@;
    let c = " lines)"@;
    let d = decimal(total);
    let r = " with view_range=["@ + signed(start) + ", "@ + signed(end) + "]"@;
    let count = "total of "@ + d + " lines"@;
    assert(b.skip(b.len() - 9) =~= "total of "@);
    assert(c.take(6) =~= " lines"@);
    let f = a + path + b.take(b.len() - 9);
    let e1 = view_heading(path, total, None);
    let rest1 = b + d + c + Seq::<char>::empty() + ":\n"@;
    assert(e1 =~= a + path + rest1);
    lemma_stands_in(a, path, rest1);
    assert(e1 =~= f + count + (c.skip(6) + ":\n"@));
    lemma_stands_in(f, count, c.skip(6) + ":\n"@);
    let e2 = view_heading(path, total, Some((start, end)));
    let rest2 = b + d + c + r + ":\n"@;
    assert(e2 =~= a + path + rest2);
    lemma_stands_in(a, path, rest2);
    assert(e2 =~= f + count + (c.skip(6) + r + ":\n"@));
    lemma_stands_in(f, count, c.skip(6) + r + ":\n"@);
    let lead = " with view_range=["@;
    let asked = "["@ + signed(start) + ", "@ + signed(end) + "]"@;
    assert(lead.skip(lead.len() - 1) =~= "["@);
    let g = a + path + b + d + c + lead.take(lead.len() - 1);
    assert(e2 =~= g + asked + ":\n"@);
    lemma_stands_in(g, asked, ":\n"@);
}

/// A range is taken exactly where it is two integers that lie in the file, the
/// second not before the first, or minus one for the last line.
pub proof fn law_range_is_taken(range: Seq<Json>, total: nat)
    ensures
        match lines_of(range, total) {
            Ok((start, end)) => {
                &&& range.len() == 2
                &&& 1 <= start <= total
                &&& end == -1 || start <= end <= total
                &&& i64_in(range[0]) matches Some(i) ==> i == start
                &&& i64_in(range[1]) matches Some(i) ==> i == end
            },
            Err(_) => range.len() == 2 ==> (i64_in(range[0]) matches Some(a) ==> (i64_in(
                range[1],
            ) matches Some(b) ==> !(1 <= a <= total && (b == -1 || a <= b <= total)))),
        },
{
}

/// A path is taken exactly where it begins at the root.
pub proof fn law_path_begins_at_the_root(path: Seq<char>)
    ensures
        path_refusal(path) is None <==> path.len() > 0 && path[0] == '/',
{
    reveal_strlit("/");
    law_trimmed(path);
    if path.len() > 0 && path[0] == '/' {
        assert(path.subrange(0, 1) =~= "/"@);
        let from = choose|from: int|
            {
                &&& 0 <= from <= from + trimmed(path).len() <= path.len()
                &&& trimmed(path) == #[trigger] path.subrange(from, from + trimmed(path).len())
                &&& forall|i: int| 0 <= i < from ==> white_space(#[trigger] path[i])
                &&& forall|i: int|
                    from + trimmed(path).len() <= i < path.len() ==> white_space(#[trigger] path[i])
            };
        if trimmed(path).len() == 0 {
            assert(white_space(path[0]));
        }
    }
    if path_refusal(path) is None {
        assert(path.subrange(0, 1)[0] == '/');
    }
}

/// What a call asks for is what its arguments say: the command by its name, on the
/// path given, with the texts given. A text to look for may not be missing or
/// empty; one to put in its place may be left out, and is empty then.
pub proof fn law_command_is_what_was_asked(args: Json)
    ensures
        match command_of(args) {
            Ok(CommandView::View { path, range }) => {
                &&& text_field(args, "command"@) == Some("view"@)
                &&& text_field(args, "path"@) == Some(path)
                &&& path_refusal(path) is None
                &&& range == array_field(args, "view_range"@)
            },
            Ok(CommandView::Create { path, text }) => {
                &&& text_field(args, "command"@) == Some("create"@)
                &&& text_field(args, "path"@) == Some(path)
                &&& path_refusal(path) is None
                &&& text_field(args, "file_text"@) == Some(text)
            },
            Ok(CommandView::Replace { path, old_str, new_str }) => {
                &&& text_field(args, "command"@) == Some("str_replace"@)
                &&& text_field(args, "path"@) == Some(path)
                &&& path_refusal(path) is None
                &&& text_field(args, "old_str"@) == Some(old_str)
                &&& old_str.len() > 0
                &&& text_field(args, "new_str"@) == Some(new_str) || text_field(args, "new_str"@)
                    is None && new_str.len() == 0
            },
            Err(_) => {
                ||| text_field(args, "command"@) is None
                ||| text_field(args, "path"@) is None
                ||| path_refusal(text_field(args, "path"@)->0) is Some
                ||| text_field(args, "command"@) == Some("create"@) && text_field(
                    args,
                    "file_text"@,
                ) is None
                ||| text_field(args, "command"@) == Some("str_replace"@) && (text_field(
                    args,
                    "old_str"@,
                ) is None || text_field(args, "old_str"@)->0.len() == 0)
                ||| text_field(args, "command"@) != Some("view"@) && text_field(args, "command"@)
                    != Some("create"@) && text_field(args, "command"@) != Some("str_replace"@)
            },
        },
{
    reveal_strlit("view");
    reveal_strlit("create");
    reveal_strlit("str_replace");
}

/// A command works on what it is for: nothing on what is missing, on a directory a
/// view alone and no range of it, and a file that is there is never made anew.
pub proof fn law_files_are_guarded(
    path: Seq<char>,
    kind: PathKind,
    command: Seq<char>,
    range: Option<Seq<Json>>,
)
    ensures
        kind_refusal(path, kind, command) is Some <==> kind == PathKind::Missing || kind
            == PathKind::Directory && command != "view"@,
        view_refusal(path, kind, range) is Some <==> kind == PathKind::Missing || kind
            == PathKind::Other || kind == PathKind::Directory && range is Some && range->0.len()
            > 0,
        create_result(path, true) is Err,
        create_result(path, false) is Ok,
        create_result(path, true) matches Err(e) ==> occurs(e, path),
        create_result(path, false) matches Ok(t) ==> occurs(t, path),
        kind_refusal(path, kind, command) matches Some(e) ==> occurs(e, path),
{
    lemma_stands_in(
        "File already exists at: "@,
        path,
        ". Cannot overwrite files using command `create`."@,
    );
    lemma_stands_in("New file created successfully at: "@, path, Seq::empty());
    assert("New file created successfully at: "@ + path =~= "New file created successfully at: "@
        + path + Seq::<char>::empty());
    lemma_stands_in("The path "@, path, " does not exist. Please provide a valid path."@);
    lemma_stands_in(
        "The path "@,
        path,
        " is a directory and only the `view` command can be used on directories"@,
    );
}

/// A listing shows what a directory holds: every entry that is not hidden, down to
/// what the directories in it hold, with whether it is a directory, and nothing
/// else.
pub proof fn law_listing_shows_two_levels(dir: Seq<char>, entries: Seq<DirEntry>)
    ensures
        forall|i: int|
            0 <= i < entries.len() && is_shown((#[trigger] entries[i]).name@) ==> listed(
                dir,
                entries,
                1,
            ).contains((path_in(dir, entries[i].name@), entries[i].is_dir)),
        forall|i: int, j: int|
            0 <= i < entries.len() && entries[i].is_dir && is_shown(entries[i].name@) && 0 <= j
                < entries[i].children@.len() && is_shown(
                (#[trigger] entries[i].children@[j]).name@,
            ) ==> listed(dir, entries, 1).contains(
                (
                    path_in(path_in(dir, entries[i].name@), entries[i].children@[j].name@),
                    entries[i].children@[j].is_dir,
                ),
            ),
        forall|r: (Seq<char>, bool)| #[trigger]
            listed(dir, entries, 1).contains(r) ==> is_listed(dir, entries, r),
    decreases entries.len(),
{
    let all = listed(dir, entries, 1);
    if entries.len() > 0 {
        let front = entries.drop_last();
        let before = listed(dir, front, 1);
        let e = entries.last();
        let path = path_in(dir, e.name@);
        let below = listed(path, e.children@, 2);
        law_listing_shows_two_levels(dir, front);
        lemma_flat_listing(path, e.children@);
        let added: Seq<(Seq<char>, bool)> = if !is_shown(e.name@) {
            Seq::empty()
        } else if e.is_dir {
            seq![(path, true)] + below
        } else {
            seq![(path, false)]
        };
        assert(all =~= before + added);
        assert forall|r: (Seq<char>, bool)| before.contains(r) implies all.contains(r) by {
            let k = choose|k: int| 0 <= k < before.len() && before[k] == r;
            assert(all[k] == r);
        }
        assert forall|r: (Seq<char>, bool)| added.contains(r) implies all.contains(r) by {
            let k = choose|k: int| 0 <= k < added.len() && added[k] == r;
            assert(all[before.len() + k] == r);
        }
        assert forall|i: int|
            0 <= i < entries.len() && is_shown((#[trigger] entries[i]).name@) implies all.contains(
            (path_in(dir, entries[i].name@), entries[i].is_dir),
        ) by {
            if i < front.len() {
                assert(entries[i] == front[i]);
            } else {
                assert(added[0] == (path, e.is_dir));
                assert(added.contains((path, e.is_dir)));
            }
        }
        assert forall|i: int, j: int|
            0 <= i < entries.len() && entries[i].is_dir && is_shown(entries[i].name@) && 0 <= j
                < entries[i].children@.len() && is_shown(
                (#[trigger] entries[i].children@[j]).name@,
            ) implies all.contains(
            (
                path_in(path_in(dir, entries[i].name@), entries[i].children@[j].name@),
                entries[i].children@[j].is_dir,
            ),
        ) by {
            if i < front.len() {
                assert(entries[i] == front[i]);
                assert(is_shown(front[i].children@[j].name@));
            } else {
                let r = (path_in(path, e.children@[j].name@), e.children@[j].is_dir);
                assert(below.contains(r));
                let k = choose|k: int| 0 <= k < below.len() && below[k] == r;
                assert(added[k + 1] == r);
                assert(added.contains(r));
            }
        }
        assert forall|r: (Seq<char>, bool)| #[trigger] all.contains(r) implies is_listed(
            dir,
            entries,
            r,
        ) by {
            let k = choose|k: int| 0 <= k < all.len() && all[k] == r;
            if k < before.len() {
                assert(before[k] == r);
                assert(before.contains(r));
                assert(is_listed(dir, front, r));
                lemma_listed_longer(dir, entries, r);
            } else {
                let m = k - before.len();
                assert(added[m] == r);
                let last = entries.len() - 1;
                if m == 0 {
                    assert(is_listed_as(dir, entries, last, r));
                } else {
                    assert(below[m - 1] == r);
                    assert(below.contains(r));
                    let j = choose|j: int| is_listed_as(path, e.children@, j, r);
                    assert(is_listed_below(dir, entries, last, j, r));
                }
            }
        }
    }
}

/// The row is that of the entry at `i`.
pub open spec fn is_listed_as(
    dir: Seq<char>,
    entries: Seq<DirEntry>,
    i: int,
    r: (Seq<char>, bool),
) -> bool {
    &&& 0 <= i < entries.len()
    &&& is_shown(entries[i].name@)
    &&& r == (path_in(dir, entries[i].name@), entries[i].is_dir)
}

/// The row is that of what stands at `j` in the directory at `i`.
pub open spec fn is_listed_below(
    dir: Seq<char>,
    entries: Seq<DirEntry>,
    i: int,
    j: int,
    r: (Seq<char>, bool),
) -> bool {
    &&& 0 <= i < entries.len()
    &&& entries[i].is_dir
    &&& is_shown(entries[i].name@)
    &&& is_listed_as(path_in(dir, entries[i].name@), entries[i].children@, j, r)
}

/// The row is that of an entry, or of what stands in one.
pub open spec fn is_listed(
    dir: Seq<char>,
    entries: Seq<DirEntry>,
    r: (Seq<char>, bool),
) -> bool {
    ||| exists|i: int| is_listed_as(dir, entries, i, r)
    ||| exists|i: int, j: int| is_listed_below(dir, entries, i, j, r)
}

proof fn lemma_listed_longer(dir: Seq<char>, entries: Seq<DirEntry>, r: (Seq<char>, bool))
    requires
        entries.len() > 0,
        is_listed(dir, entries.drop_last(), r),
    ensures
        is_listed(dir, entries, r),
{
    let front = entries.drop_last();
    if exists|i: int| is_listed_as(dir, front, i, r) {
        let i = choose|i: int| is_listed_as(dir, front, i, r);
        assert(is_listed_as(dir, entries, i, r));
    } else {
        let (i, j) = choose|i: int, j: int| is_listed_below(dir, front, i, j, r);
        assert(is_listed_below(dir, entries, i, j, r));
    }
}

/// On the second level what stands in a directory is shown and no more.
proof fn lemma_flat_listing(dir: Seq<char>, entries: Seq<DirEntry>)
    ensures
        forall|j: int|
            0 <= j < entries.len() && is_shown((#[trigger] entries[j]).name@) ==> listed(
                dir,
                entries,
                2,
            ).contains((path_in(dir, entries[j].name@), entries[j].is_dir)),
        forall|r: (Seq<char>, bool)| #[trigger]
            listed(dir, entries, 2).contains(r) ==> exists|j: int| is_listed_as(dir, entries, j, r),
    decreases entries.len(),
{
    let all = listed(dir, entries, 2);
    if entries.len() > 0 {
        let front = entries.drop_last();
        let before = listed(dir, front, 2);
        let e = entries.last();
        lemma_flat_listing(dir, front);
        let row = (path_in(dir, e.name@), e.is_dir);
        assert forall|j: int| 0 <= j < entries.len() && is_shown(
            (#[trigger] entries[j]).name@,
        ) implies all.contains((path_in(dir, entries[j].name@), entries[j].is_dir)) by {
            if j < front.len() {
                assert(entries[j] == front[j]);
                let r = (path_in(dir, front[j].name@), front[j].is_dir);
                assert(before.contains(r));
                let k = choose|k: int| 0 <= k < before.len() && before[k] == r;
                assert(all[k] == r);
            } else {
                assert(all.last() == row);
            }
        }
        assert forall|r: (Seq<char>, bool)| #[trigger] all.contains(r) implies exists|j: int|
            is_listed_as(dir, entries, j, r) by {
            let k = choose|k: int| 0 <= k < all.len() && all[k] == r;
            if k < before.len() {
                assert(before[k] == r);
                assert(before.contains(r));
                let j = choose|j: int| is_listed_as(dir, front, j, r);
                assert(is_listed_as(dir, entries, j, r));
            } else {
                assert(is_listed_as(dir, entries, entries.len() - 1, r));
            }
        }
    }
}

/// What is hidden in a listing: names that begin with a dot, and the two of fetched
/// and cached things.
pub proof fn law_hidden_names(name: Seq<char>)
    ensures
        is_shown(name) <==> !(name.len() > 0 && name[0] == '.') && name != "node_modules"@ && name
            != "__pycache__"@,
{
    reveal_strlit(".");
    if name.len() > 0 && name[0] == '.' {
        assert(name.subrange(0, 1) =~= "."@);
    }
    if stands_at(name, "."@, 0) {
        assert(name.subrange(0, 1)[0] == '.');
    }
}

/// A path in a directory is the directory, a slash, and the name.
pub proof fn law_path_in(dir: Seq<char>, name: Seq<char>)
    ensures
        dir.len() > 0 && dir.last() != '/' ==> path_in(dir, name) == dir.push('/') + name,
        dir.len() > 0 && dir.last() == '/' ==> path_in(dir, name) == dir + name,
        dir.len() == 0 ==> path_in(dir, name) == name,
{
    reveal_strlit("/");
    assert(dir + "/"@ =~= dir.push('/'));
    if dir.len() == 0 {
        assert(dir + name =~= name);
    }
}

/// The text of a listing that was not cut holds a row for the directory itself and
/// for everything that is listed, marked by what it is; a cut one begins with what
/// it was.
#[verifier::rlimit(40)]
pub proof fn law_listing_holds_every_row(root: Seq<char>, entries: Seq<DirEntry>)
    ensures
        directory_view(root, entries).len() <= 10_000 ==> {
            let v = directory_view(root, entries);
            &&& occurs(v, "d\t"@ + root + "\n"@)
            &&& forall|r: (Seq<char>, bool)| #[trigger]
                listed(root, entries, 1).contains(r) ==> occurs(
                    v,
                    (if r.1 {
                        "d\t"@
                    } else {
                        "f\t"@
                    }) + r.0 + "\n"@,
                )
        },
{
    reveal_strlit("\n");
    let start = seq![(root, true)] + listed(root, entries, 1);
    let rows = sorted_marked(start);
    law_sorted_marked(start);
    let lines = row_texts(rows);
    let lead = "Here're the files and directories up to 2 levels deep in "@ + root
        + ", excluding hidden items, node_modules, and Python cache directories:\n"@;
    let list = joined(lines, "\n"@);
    let whole = lead + list + "\n"@;
    let v = directory_view(root, entries);
    law_long_view_is_cut(whole);
    if v.len() <= 10_000 {
        assert(v == whole);
        assert forall|r: (Seq<char>, bool)| start.contains(r) implies occurs(
            v,
            row_text(r) + "\n"@,
        ) by {
            assert(start.to_multiset().count(r) > 0) by {
                start.to_multiset_ensures();
            }
            assert(rows.contains(r)) by {
                rows.to_multiset_ensures();
            }
            let k = choose|k: int| 0 <= k < rows.len() && rows[k] == r;
            assert(lines[k] == row_text(r));
            law_joined_holds_all(lines, "\n"@, k);
            if k < lines.len() - 1 {
                lemma_occurs_in_front(list, "\n"@, lines[k] + "\n"@);
            } else {
                let front = list.take(list.len() - lines[k].len());
                assert(list + "\n"@ =~= front + (lines[k] + "\n"@) + Seq::<char>::empty());
                lemma_stands_in(front, lines[k] + "\n"@, Seq::empty());
            }
            lemma_occurs_behind(lead, list + "\n"@, lines[k] + "\n"@);
            assert(whole =~= lead + (list + "\n"@));
        }
        assert(start[0] == (root, true));
        assert(start.contains((root, true)));
        assert forall|r: (Seq<char>, bool)| #[trigger]
            listed(root, entries, 1).contains(r) implies occurs(v, row_text(r) + "\n"@) by {
            let all = listed(root, entries, 1);
            let k = choose|k: int| 0 <= k < all.len() && all[k] == r;
            assert(start[k + 1] == r);
            assert(start.contains(r));
        }
    }
}

/// A listing that shows these rows below its heading.
pub open spec fn listing_of(root: Seq<char>, rows: Seq<(Seq<char>, bool)>) -> Seq<char> {
    clipped(
        "Here're the files and directories up to 2 levels deep in "@ + root
            + ", excluding hidden items, node_modules, and Python cache directories:\n"@ + joined(
            row_texts(rows),
            "\n"@,
        ) + "\n"@,
    )
}

/// A listing shows the directory itself and what is listed of it, all in the
/// order of the paths, each once for each time it is there.
pub proof fn law_listing_is_in_order(root: Seq<char>, entries: Seq<DirEntry>)
    ensures
        exists|rows: Seq<(Seq<char>, bool)>|
            {
                &&& is_sorted(unmarked(rows))
                &&& rows.to_multiset() == (seq![(root, true)] + listed(
                    root,
                    entries,
                    1,
                )).to_multiset()
                &&& directory_view(root, entries) == #[trigger] listing_of(root, rows)
            },
{
    let found = seq![(root, true)] + listed(root, entries, 1);
    let rows = sorted_marked(found);
    law_sorted_marked(found);
    law_sorted(unmarked(found));
    assert(directory_view(root, entries) == listing_of(root, rows));
}

/// A range is of two whole numbers, and one that is refused for its lines is
/// told back.
#[verifier::rlimit(40)]
pub proof fn law_range_is_of_whole_numbers(range: Seq<Json>, total: nat)
    ensures
        lines_of(range, total) is Ok ==> range.len() == 2 && range[0] is Int && range[1] is Int,
        lines_of(range, total) is Err && range.len() == 2 && i64_in(range[0]) is Some && i64_in(
            range[1],
        ) is Some ==> occurs(
            lines_of(range, total)->Err_0,
            "["@ + signed(i64_in(range[0])->0 as int) + ", "@ + signed(i64_in(range[1])->0 as int)
                + "]"@,
        ),
{
    if lines_of(range, total) is Err && range.len() == 2 && i64_in(range[0]) is Some && i64_in(
        range[1],
    ) is Some {
        let a = signed(i64_in(range[0])->0 as int);
        let b = signed(i64_in(range[1])->0 as int);
        let t = "["@ + a + ", "@ + b + "]"@;
        let asked = "Invalid `view_range`: ["@ + a + ", "@ + b + "]. "@;
        assert(occurs(asked, t)) by {
            let front = "Invalid `view_range`: "@;
            reveal_strlit("Invalid `view_range`: ");
            reveal_strlit("[");
            reveal_strlit("Invalid `view_range`: [");
            assert("Invalid `view_range`: ["@ =~= front + "["@);
            reveal_strlit("]");
            reveal_strlit(". ");
            reveal_strlit("]. ");
            assert("]. "@ =~= "]"@ + ". "@);
            lemma_stands_in(front, t, ". "@);
            assert(front + t + ". "@ =~= asked);
        }
        lemma_told_back(asked, t, "Its first element `"@, a, "` should be within the range of lines of the file: [1, "@, decimal(total), "]"@);
        lemma_told_back(asked, t, "Its second element `"@, b, "` should be smaller than the number of lines in the file: `"@, decimal(total), "`"@);
        lemma_told_back(asked, t, "Its second element `"@, b, "` should be larger or equal than its first `"@, a, "`"@);
    }
}

proof fn lemma_told_back(
    asked: Seq<char>,
    t: Seq<char>,
    a: Seq<char>,
    b: Seq<char>,
    c: Seq<char>,
    d: Seq<char>,
    e: Seq<char>,
)
    requires
        occurs(asked, t),
    ensures
        occurs(asked + a + b + c + d + e, t),
{
    lemma_occurs_in_front(asked, a, t);
    lemma_occurs_in_front(asked + a, b, t);
    lemma_occurs_in_front(asked + a + b, c, t);
    lemma_occurs_in_front(asked + a + b + c, d, t);
    lemma_occurs_in_front(asked + a + b + c + d, e, t);
}

/// A place is found again among the bytes: so many bytes stand before it, and
/// they are those of the text before it.
pub proof fn law_offsets_are_in_bytes(content: Seq<char>, search: Seq<char>, k: int)
    requires
        search.len() > 0,
        0 <= k < match_places(content, search, 0).len(),
    ensures
        ({
            let at = match_places(content, search, 0);
            let offsets = byte_offsets(content, at);
            &&& offsets.len() == at.len()
            &&& 0 <= offsets[k] <= encode_utf8(content).len()
            &&& encode_utf8(content).take(offsets[k]) == encode_utf8(content.take(at[k]))
        }),
{
    law_matches_cover_all(content, search);
    let at = match_places(content, search, 0);
    assert(stands_at(content, search, at[k]));
    lemma_front_bytes(content, at[k]);
}

/// Lines are counted by their ends.
pub proof fn law_line_ends_are_counted(a: Seq<u8>, b: Seq<u8>, x: u8)
    ensures
        line_ends(a + b) == line_ends(a) + line_ends(b),
        line_ends(seq![x]) == if x == 10 {
            1nat
        } else {
            0nat
        },
    decreases b.len(),
{
    if b.len() > 0 {
        assert((a + b).drop_last() =~= a + b.drop_last());
        law_line_ends_are_counted(a, b.drop_last(), x);
    } else {
        assert(a + b =~= a);
    }
    assert(seq![x].drop_last() =~= Seq::empty());
    assert(line_ends(seq![x].drop_last()) == 0);
}

/// Of offsets that come in order each is told the line it stands in: one more
/// than there are line ends before it.
pub proof fn law_lines_of_offsets(bytes: Seq<u8>, offsets: Seq<usize>, i: int)
    requires
        forall|a: int, b: int| 0 <= a <= b < offsets.len() ==> offsets[a] <= offsets[b],
        0 <= i < offsets.len(),
    ensures
        lines_reached(bytes, offsets).len() == offsets.len(),
        lines_reached(bytes, offsets)[i] == decimal(
            1 + line_ends(bytes.take(offsets[i] as int)),
        ),
{
    lemma_greatest_is_last(offsets, i);
}

proof fn lemma_greatest_is_last(offsets: Seq<usize>, i: int)
    requires
        forall|a: int, b: int| 0 <= a <= b < offsets.len() ==> offsets[a] <= offsets[b],
        0 <= i < offsets.len(),
    ensures
        greatest(offsets, i + 1) == offsets[i],
    decreases i,
{
    if i > 0 {
        lemma_greatest_is_last(offsets, i - 1);
        assert(offsets[i - 1] <= offsets[i]);
    } else {
        assert(greatest(offsets, 0) == 0);
    }
}

/// An edit that is done says so of its file; one that is not says that nothing
/// was replaced.
pub proof fn law_edit_says_what_it_did(
    path: Seq<char>,
    content: Seq<char>,
    old_str: Seq<char>,
    new_str: Seq<char>,
)
    ensures
        match edited(path, content, old_str, new_str) {
            Ok((_, said)) => said == "The file "@ + path + " has been edited successfully."@,
            Err(e) => stands_at(e, "No replacement was performed"@, 0),
        },
{
    reveal_strlit("No replacement was performed");
    reveal_strlit("No replacement was performed, old_str `");
    reveal_strlit("No replacement was performed. Multiple occurrences of old_str `");
    if let Err(e) = edited(path, content, old_str, new_str) {
        assert(e.subrange(0, 28) =~= "No replacement was performed"@);
    }
}

} // verus!
