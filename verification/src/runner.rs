//! The program that starts a host process and bridges the registered services
//! to it.

use serde_json::Value;
use vstd::prelude::*;
use vstd::string::*;
use vstd::utf8::*;

use crate::json;
use crate::json::{field, json_of, json_text, text_field, Json};
use crate::text::{
    byte_len, char_width, lemma_last_bytes, same, slice_text, stands_at, texts, to_chars,
    white_space,
};

verus! {

// ── the host's command ──────────────────────────────────────────────

/// The words of a text: what stands between white space.
pub open spec fn words(s: Seq<char>) -> Seq<Seq<char>>
    decreases s.len(),
{
    if s.len() == 0 {
        Seq::empty()
    } else {
        let front = words(s.drop_last());
        if white_space(s.last()) {
            front
        } else if s.len() > 1 && !white_space(s[s.len() - 2]) {
            front.drop_last().push(front.last().push(s.last()))
        } else {
            front.push(seq![s.last()])
        }
    }
}

/// The words of a text. Quoted sections are not known.
pub fn shell_split(s: &str) -> (r: Vec<String>)
    ensures
        texts(r@) == words(s@),
{
    let chars = to_chars(s);
    let mut out: Vec<String> = Vec::new();
    let mut word = String::new();
    let mut i: usize = 0;
    let total: usize = chars.len();
    assert(chars@.take(0) =~= Seq::empty());
    assert(texts(out@) =~= Seq::empty());
    while i < total
        invariant
            i <= total,
            total == chars@.len(),
            if i > 0 && !white_space(chars@[i - 1]) {
                &&& words(chars@.take(i as int)) == texts(out@).push(word@)
            } else {
                words(chars@.take(i as int)) == texts(out@) && word@.len() == 0
            },
        decreases total - i,
    {
        let c = chars[i];
        let ghost now = chars@.take(i + 1);
        let ghost done = texts(out@);
        proof {
            assert(now.drop_last() =~= chars@.take(i as int));
            assert(now.last() == c);
            if i > 0 {
                assert(now[now.len() - 2] == chars@[i - 1]);
            }
        }
        if c.is_whitespace() {
            if !word.as_str().is_empty() {
                let ghost last = word@;
                out.push(word);
                assert(texts(out@) =~= done.push(last));
                word = String::new();
            } else {
                proof {
                    if i > 0 && !white_space(chars@[i - 1]) {
                        lemma_last_word(chars@.take(i as int));
                        assert(chars@.take(i as int).last() == chars@[i - 1]);
                    }
                }
            }
        } else {
            let ghost before = word@;
            word.push(c);
            proof {
                if i > 0 && !white_space(chars@[i - 1]) {
                    let front = words(chars@.take(i as int));
                    assert(front.drop_last() =~= done);
                    assert(words(now) =~= done.push(word@));
                } else {
                    assert(word@ =~= seq![c]);
                    assert(words(now) =~= done.push(word@));
                }
            }
        }
        i = i + 1;
    }
    assert(chars@.take(i as int) =~= chars@);
    let ghost done = texts(out@);
    if !word.as_str().is_empty() {
        let ghost last = word@;
        out.push(word);
        assert(texts(out@) =~= done.push(last));
    } else {
        proof {
            if i > 0 && !white_space(chars@[i - 1]) {
                lemma_last_word(chars@);
            }
        }
    }
    out
}

/// The last word of a text that ends with it is not empty.
proof fn lemma_last_word(s: Seq<char>)
    requires
        s.len() > 0,
        !white_space(s.last()),
    ensures
        words(s).len() > 0,
        words(s).last().len() > 0,
{
}

/// A command: what is started, and with what arguments.
#[derive(Debug)]
pub struct HostCommand {
    pub program: String,
    pub args: Vec<String>,
}

/// The words of the configured command and the further arguments.
pub open spec fn whole_command(bin: Seq<char>, extra: Seq<Seq<char>>) -> Seq<Seq<char>> {
    words(bin) + extra
}

/// The command that starts the host: the configured one or `dsh`, which may
/// itself consist of several words, and then the further arguments.
pub fn host_command(bin: Option<&str>, extra: &Vec<String>) -> (r: HostCommand)
    ensures
        ({
            let name = match bin {
                Some(b) => b@,
                None => "dsh"@,
            };
            let all = whole_command(name, texts(extra@));
            &&& r.program@ == if words(name).len() > 0 {
                words(name)[0]
            } else {
                name
            }
            &&& texts(r.args@) == if all.len() > 0 {
                all.drop_first()
            } else {
                all
            }
        }),
{
    let name = match bin {
        Some(b) => b,
        None => "dsh",
    };
    let parts = shell_split(name);
    let program = if parts.len() > 0 {
        parts[0].clone()
    } else {
        name.to_owned()
    };
    let ghost all = whole_command(name@, texts(extra@));
    let mut args: Vec<String> = Vec::new();
    let mut i: usize = 1;
    while i < parts.len()
        invariant
            1 <= i,
            i <= parts@.len() || parts@.len() == 0,
            texts(parts@) == words(name@),
            parts@.len() == 0 ==> args@.len() == 0,
            parts@.len() > 0 ==> texts(args@) =~= texts(parts@).subrange(1, i as int),
        decreases parts@.len() - i,
    {
        let ghost before = texts(args@);
        args.push(parts[i].clone());
        assert(texts(args@) =~= before.push(parts@[i as int]@));
        i = i + 1;
    }
    let ghost own = texts(args@);
    let from: usize = if parts.len() > 0 {
        0
    } else {
        1
    };
    let mut j: usize = from;
    while j < extra.len()
        invariant
            from <= j,
            j <= extra@.len() || extra@.len() == 0,
            extra@.len() == 0 ==> args@.len() == own.len(),
            extra@.len() == 0 ==> texts(args@) == own,
            extra@.len() > 0 ==> texts(args@) =~= own + texts(extra@).subrange(
                from as int,
                j as int,
            ),
            from <= 1,
        decreases extra@.len() - j,
    {
        let ghost before = texts(args@);
        args.push(extra[j].clone());
        assert(texts(args@) =~= before.push(extra@[j as int]@));
        j = j + 1;
    }
    proof {
        if all.len() > 0 {
            assert(texts(args@) =~= all.drop_first());
        } else {
            assert(texts(args@) =~= all);
        }
    }
    HostCommand { program, args }
}

// ── what is noted ───────────────────────────────────────────────────

/// How many characters can stand in so many bytes: characters are left out
/// from the end on until the rest fits.
pub open spec fn fitting(s: Seq<char>, max: nat) -> nat
    decreases s.len(),
{
    if byte_len(s) <= max || s.len() == 0 {
        s.len()
    } else {
        fitting(s.drop_last(), max)
    }
}

/// The text, cut to so many bytes where it is longer, with a mark.
pub open spec fn shortened(s: Seq<char>, max: nat) -> Seq<char> {
    if byte_len(s) <= max {
        s
    } else {
        s.take(fitting(s, max) as int) + "…"@
    }
}

/// The text, cut to so many bytes where it is longer, with a mark. No
/// character is cut through.
pub fn truncate_chars(s: &str, max: usize) -> (r: String)
    ensures
        r@ == shortened(s@, max as nat),
{
    let bytes = s.as_bytes();
    let mut left: usize = bytes.len();
    if left <= max {
        return s.to_owned();
    }
    let chars = to_chars(s);
    let mut n: usize = chars.len();
    assert(chars@.take(n as int) =~= chars@);
    while left > max && n > 0
        invariant
            n <= chars@.len(),
            chars@ == s@,
            left == byte_len(chars@.take(n as int)),
            fitting(chars@.take(n as int), max as nat) == fitting(chars@, max as nat),
        decreases n,
    {
        let ghost now = chars@.take(n as int);
        let width = char_width(chars[n - 1]);
        proof {
            lemma_last_bytes(now);
            assert(now.drop_last() =~= chars@.take(n - 1));
            assert(now.last() == chars@[n - 1]);
        }
        left = left - width;
        n = n - 1;
    }
    let mut out = slice_text(&chars, 0, n);
    assert(out@ =~= s@.take(n as int));
    out.push_str("…");
    out
}

/// A text that was cut takes no more bytes than it may, but for the mark, and
/// one character more would not fit.
pub proof fn law_cut_text_fits(s: Seq<char>, max: nat)
    ensures
        byte_len(s.take(fitting(s, max) as int)) <= max,
        fitting(s, max) <= s.len(),
        fitting(s, max) < s.len() ==> byte_len(s.take(fitting(s, max) as int + 1)) > max,
    decreases s.len(),
{
    if byte_len(s) <= max {
        assert(s.take(s.len() as int) =~= s);
    } else if s.len() == 0 {
        assert(encode_utf8(s).len() == 0);
    } else {
        law_cut_text_fits(s.drop_last(), max);
        let n = fitting(s, max) as int;
        assert(s.drop_last().take(n) =~= s.take(n));
        if n + 1 == s.len() {
            assert(s.take(n + 1) =~= s);
        } else {
            assert(s.drop_last().take(n + 1) =~= s.take(n + 1));
        }
    }
}

/// The field of an object, or null.
pub open spec fn field_or_null(j: Json, key: Seq<char>) -> Json {
    match field(j, key) {
        Some(v) => v,
        None => Json::Null,
    }
}

fn field_text(v: &Value, key: &str) -> (r: String)
    ensures
        r@ == json_text(field_or_null(json_of(*v), key@)),
{
    match json::get(v, key) {
        Some(x) => json::text_of(x),
        None => {
            let null = json::null();
            json::text_of(&null)
        },
    }
}

/// What is noted of a message of the host: its events, with the beginning of
/// what they carry.
pub open spec fn event_note(method: Seq<char>, params: Json) -> Option<Seq<char>> {
    if method == "evt/emit"@ {
        Some(
            "[rutis-dsh] evt "@ + json_text(field_or_null(params, "event"@)) + " "@ + shortened(
                json_text(field_or_null(params, "params"@)),
                160,
            ),
        )
    } else {
        None
    }
}

/// What is noted of a message of the host.
pub fn event_line(method: &str, params: &Value) -> (r: Option<String>)
    ensures
        match r {
            Some(s) => event_note(method@, json_of(*params)) == Some(s@),
            None => event_note(method@, json_of(*params)) is None,
        },
{
    if !same(method, "evt/emit") {
        return None;
    }
    let mut out = "[rutis-dsh] evt ".to_owned();
    out.push_str(field_text(params, "event").as_str());
    out.push_str(" ");
    let carried = field_text(params, "params");
    out.push_str(truncate_chars(carried.as_str(), 160).as_str());
    Some(out)
}

/// What is noted of a greeting that went well.
pub fn bridged_line(hello: &Value) -> (r: String)
    ensures
        r@ == "[rutis-dsh] handshake ok: "@ + (match text_field(json_of(*hello), "base"@) {
            Some(b) => b,
            None => "?"@,
        }) + " — bridged"@,
{
    let mut out = "[rutis-dsh] handshake ok: ".to_owned();
    match json::str_field(hello, "base") {
        Some(b) => out.push_str(b),
        None => out.push_str("?"),
    }
    out.push_str(" — bridged");
    out
}

// ── the end ─────────────────────────────────────────────────────────

/// What the program is waiting for.
#[derive(Debug, Clone, Copy, PartialEq, Eq, Structural)]
pub struct Convergence {
    pub dsh_exited: bool,
    pub bridge_closed: bool,
}

/// What may happen while the program waits.
#[derive(Debug, Clone, Copy, PartialEq, Eq, Structural)]
pub enum Ending {
    DshExited,
    BridgeClosed,
}

/// Both the host process and the bridge are gone.
pub open spec fn is_over(c: Convergence) -> bool {
    c.dsh_exited && c.bridge_closed
}

/// What is waited for once this has happened.
pub open spec fn after_ending(c: Convergence, e: Ending) -> Convergence {
    match e {
        Ending::DshExited => Convergence { dsh_exited: true, ..c },
        Ending::BridgeClosed => Convergence { bridge_closed: true, ..c },
    }
}

impl Convergence {
    pub fn new() -> (r: Self)
        ensures
            r == (Convergence { dsh_exited: false, bridge_closed: false }),
    {
        Convergence { dsh_exited: false, bridge_closed: false }
    }

    /// Takes what has happened. `true` where the program may end.
    pub fn on(&mut self, e: Ending) -> (r: bool)
        ensures
            *final(self) == after_ending(*old(self), e),
            r == is_over(*final(self)),
    {
        match e {
            Ending::DshExited => {
                self.dsh_exited = true;
            },
            Ending::BridgeClosed => {
                self.bridge_closed = true;
            },
        }
        self.dsh_exited && self.bridge_closed
    }
}

/// The program ends with the second of the two, whichever it is: one ending
/// does it only where the other came before.
pub proof fn law_both_ends_are_waited_for(c: Convergence, e: Ending)
    requires
        !is_over(c),
    ensures
        is_over(after_ending(c, e)) <==> match e {
            Ending::DshExited => c.bridge_closed,
            Ending::BridgeClosed => c.dsh_exited,
        },
        after_ending(after_ending(c, e), e) == after_ending(c, e),
{
}

// ── laws of the command ─────────────────────────────────────────────

proof fn lemma_words_joined(a: Seq<char>, gap: char, b: Seq<char>)
    requires
        white_space(gap),
    ensures
        words(a + seq![gap] + b) == words(a) + words(b),
    decreases b.len(),
{
    let all = a + seq![gap] + b;
    if b.len() == 0 {
        assert(all.drop_last() =~= a);
        assert(all.last() == gap);
        assert(words(a) + words(b) =~= words(a));
    } else {
        let c = b.drop_last();
        lemma_words_joined(a, gap, c);
        assert(all.drop_last() =~= a + seq![gap] + c);
        assert(all.last() == b.last());
        let x = b.last();
        if white_space(x) {
        } else if b.len() > 1 && !white_space(b[b.len() - 2]) {
            assert(all[all.len() - 2] == b[b.len() - 2]);
            assert(c.last() == b[b.len() - 2]);
            lemma_last_word(c);
            let front = words(a) + words(c);
            assert(front.last() == words(c).last());
            assert(front.drop_last().push(front.last().push(x)) =~= words(a) + words(c).drop_last().push(
                words(c).last().push(x),
            ));
        } else {
            if b.len() > 1 {
                assert(all[all.len() - 2] == b[b.len() - 2]);
            } else {
                assert(all[all.len() - 2] == gap);
                assert(c =~= Seq::empty());
            }
            assert((words(a) + words(c)).push(seq![x]) =~= words(a) + words(c).push(seq![x]));
        }
    }
}

proof fn lemma_one_word(w: Seq<char>)
    requires
        w.len() > 0,
        forall|i: int| 0 <= i < w.len() ==> !white_space(#[trigger] w[i]),
    ensures
        words(w) == seq![w],
    decreases w.len(),
{
    let front = w.drop_last();
    assert(!white_space(w[w.len() - 1]));
    if w.len() == 1 {
        assert(front =~= Seq::empty());
        assert(words(front) =~= Seq::empty());
        assert(seq![w.last()] =~= w);
        assert(words(w) =~= seq![w]);
    } else {
        assert(!white_space(w[w.len() - 2]));
        assert forall|i: int| 0 <= i < front.len() implies !white_space(#[trigger] front[i]) by {
            assert(!white_space(w[i]));
        }
        lemma_one_word(front);
        assert(front.push(w.last()) =~= w);
        assert(words(w) =~= seq![w]);
    }
}

/// A text is cut where white space stands: a word that is put behind a text,
/// with white space between them, is its last word, whole, and what the text
/// had before stays before it. White space alone makes no word.
pub proof fn law_words_stand_between_white_space(s: Seq<char>, gap: char, w: Seq<char>)
    requires
        white_space(gap),
        w.len() > 0,
        forall|i: int| 0 <= i < w.len() ==> !white_space(#[trigger] w[i]),
    ensures
        words(w) == seq![w],
        words(s + seq![gap] + w) == words(s) + seq![w],
        words(w + seq![gap] + s) == seq![w] + words(s),
        words(s + seq![gap]) == words(s),
        words(Seq::empty()) == Seq::<Seq<char>>::empty(),
{
    lemma_one_word(w);
    lemma_words_joined(s, gap, w);
    lemma_words_joined(w, gap, s);
    lemma_words_joined(s, gap, Seq::empty());
    assert(s + seq![gap] + Seq::<char>::empty() =~= s + seq![gap]);
    assert(words(s) + words(Seq::empty()) =~= words(s));
}

/// The command is the words of the configured one, and behind them the further
/// arguments as they are given.
pub proof fn law_arguments_come_last(bin: Seq<char>, extra: Seq<Seq<char>>, i: int)
    requires
        0 <= i < extra.len(),
    ensures
        whole_command(bin, extra).len() == words(bin).len() + extra.len(),
        whole_command(bin, extra).take(words(bin).len() as int) == words(bin),
        whole_command(bin, extra)[words(bin).len() + i] == extra[i],
{
    assert(whole_command(bin, extra).take(words(bin).len() as int) =~= words(bin));
}

/// A text that fits is left as it is; one that does not is shown by its
/// beginning and a mark.
pub proof fn law_long_text_is_marked(s: Seq<char>, max: nat)
    ensures
        byte_len(s) <= max ==> shortened(s, max) == s,
        byte_len(s) > max ==> {
            let r = shortened(s, max);
            let n = r.len() - 1;
            &&& r.last() == '…'
            &&& 0 <= n < s.len()
            &&& r.take(n) == s.take(n)
            &&& byte_len(s.take(n)) <= max
            &&& byte_len(s.take(n + 1)) > max
        },
{
    law_cut_text_fits(s, max);
    reveal_strlit("…");
    if byte_len(s) > max {
        let n = fitting(s, max) as int;
        assert(s.take(s.len() as int) =~= s);
        assert(shortened(s, max).take(n) =~= s.take(n));
    }
}

/// Only an event is noted: with its name, and with what it carries up to a
/// hundred and sixty bytes.
pub proof fn law_events_are_noted(method: Seq<char>, params: Json, name: Json, carried: Json)
    ensures
        event_note(method, params) is Some <==> method == "evt/emit"@,
        method == "evt/emit"@ && field(params, "event"@) == Some(name) ==> stands_at(
            event_note(method, params)->0,
            "[rutis-dsh] evt "@ + json_text(name) + " "@,
            0,
        ),
        method == "evt/emit"@ && field(params, "params"@) == Some(carried) && byte_len(
            json_text(carried),
        ) <= 160 ==> event_note(method, params)->0.skip(
            event_note(method, params)->0.len() - json_text(carried).len(),
        ) == json_text(carried),
        field(params, "event"@) is None ==> field_or_null(params, "event"@) == Json::Null,
{
    if method == "evt/emit"@ {
        let all = event_note(method, params)->0;
        let front = "[rutis-dsh] evt "@ + json_text(field_or_null(params, "event"@)) + " "@;
        assert(all.subrange(0, front.len() as int) =~= front);
        if field(params, "params"@) == Some(carried) && byte_len(json_text(carried)) <= 160 {
            assert(all.skip(all.len() - json_text(carried).len()) =~= json_text(carried));
        }
    }
}

} // verus!
