//! Text as sequences of characters: the string operations the rest of the
//! library is written with, each tied to a mathematical description.

use vstd::prelude::*;
use vstd::string::*;
use vstd::utf8::*;

verus! {

/// `String::push` appends one character.
pub assume_specification[ String::push ](s: &mut String, c: char)
    ensures
        final(s)@ == old(s)@.push(c),
;

/// `String::push_str` appends the characters of a string slice.
pub assume_specification[ String::push_str ](s: &mut String, other: &str)
    ensures
        final(s)@ == old(s)@ + other@,
;

/// `str` equality holds exactly when both slices hold the same characters.
pub assume_specification[ <str as PartialEq>::eq ](a: &str, b: &str) -> (r: bool)
    ensures
        r == (a@ == b@),
;

/// The characters with the Unicode `White_Space` property.
pub open spec fn white_space(c: char) -> bool {
    let n = c as u32;
    ||| 0x9 <= n <= 0xD
    ||| n == 0x20 || n == 0x85 || n == 0xA0 || n == 0x1680
    ||| 0x2000 <= n <= 0x200A
    ||| n == 0x2028 || n == 0x2029 || n == 0x202F || n == 0x205F || n == 0x3000
}

/// `char::is_whitespace` reports the Unicode `White_Space` property.
pub assume_specification[ char::is_whitespace ](c: char) -> (r: bool)
    ensures
        r == white_space(c),
;

/// The Unicode lower-case form of a text, as `str::to_lowercase` computes it.
pub uninterp spec fn lower_case(s: Seq<char>) -> Seq<char>;

/// The Unicode upper-case form of a text, as `str::to_uppercase` computes it.
pub uninterp spec fn upper_case(s: Seq<char>) -> Seq<char>;

/// Calls `str::to_lowercase`, whose result depends on the text alone.
#[verifier::external_body]
pub(crate) fn to_lower(s: &str) -> (r: String)
    ensures
        r@ == lower_case(s@),
{
    s.to_lowercase()
}

/// Calls `str::to_uppercase`, whose result depends on the text alone.
#[verifier::external_body]
pub(crate) fn to_upper(s: &str) -> (r: String)
    ensures
        r@ == upper_case(s@),
{
    s.to_uppercase()
}

/// A text in double quotes with its special characters escaped, as the `Debug`
/// form of `str` writes it.
pub uninterp spec fn quoted(s: Seq<char>) -> Seq<char>;

/// Writes the `Debug` form of a `str`, which depends on the text alone.
#[verifier::external_body]
pub(crate) fn quote(s: &str) -> (r: String)
    ensures
        r@ == quoted(s@),
{
    format!("{s:?}")
}

/// Calls `String::from_utf8`: bytes that are the UTF-8 form of a text give that
/// text, others none.
#[verifier::external_body]
pub(crate) fn from_utf8(bytes: Vec<u8>) -> (r: Option<String>)
    ensures
        match r {
            Some(s) => encode_utf8(s@) == bytes@,
            None => !valid_utf8(bytes@),
        },
{
    String::from_utf8(bytes).ok()
}

/// The text of bytes with everything that is no UTF-8 replaced, as
/// `String::from_utf8_lossy` computes it.
pub uninterp spec fn lossy_text(bytes: Seq<u8>) -> Seq<char>;

/// Calls `String::from_utf8_lossy`: the text of UTF-8 bytes is that text; of
/// others the result depends on the bytes alone.
#[verifier::external_body]
pub(crate) fn lossy(bytes: &Vec<u8>) -> (r: String)
    ensures
        r@ == lossy_text(bytes@),
        valid_utf8(bytes@) ==> encode_utf8(r@) == bytes@,
{
    String::from_utf8_lossy(bytes).into_owned()
}

// ── models ──────────────────────────────────────────────────────────

/// The texts held by a sequence of strings.
pub open spec fn texts(v: Seq<String>) -> Seq<Seq<char>> {
    Seq::new(v.len(), |i: int| v[i]@)
}

/// `needle` stands in `hay` at position `at`.
pub open spec fn stands_at(hay: Seq<char>, needle: Seq<char>, at: int) -> bool {
    0 <= at && at + needle.len() <= hay.len() && hay.subrange(at, at + needle.len()) == needle
}

/// `needle` occurs somewhere in `hay`.
pub open spec fn occurs(hay: Seq<char>, needle: Seq<char>) -> bool {
    exists|at: int| stands_at(hay, needle, at)
}

/// The first `n` characters, or all of them when there are fewer.
pub open spec fn head(s: Seq<char>, n: int) -> Seq<char> {
    if s.len() <= n {
        s
    } else {
        s.subrange(0, n)
    }
}

/// The last `n` characters, or all of them when there are fewer.
pub open spec fn tail(s: Seq<char>, n: int) -> Seq<char> {
    if s.len() <= n {
        s
    } else {
        s.subrange(s.len() - n, s.len() as int)
    }
}

/// The decimal digit of a number below ten.
pub open spec fn digit(n: nat) -> char {
    (('0' as u32) + n) as char
}

/// A number in decimal notation.
pub open spec fn decimal(n: nat) -> Seq<char>
    decreases n,
{
    if n < 10 {
        seq![digit(n)]
    } else {
        decimal(n / 10).push(digit(n % 10))
    }
}

/// A whole number in decimal notation.
pub open spec fn signed(i: int) -> Seq<char> {
    if i < 0 {
        "-"@ + decimal((-i) as nat)
    } else {
        decimal(i as nat)
    }
}

/// The texts one after another, `sep` between each two.
pub open spec fn joined(parts: Seq<Seq<char>>, sep: Seq<char>) -> Seq<char>
    decreases parts.len(),
{
    if parts.len() == 0 {
        Seq::empty()
    } else if parts.len() == 1 {
        parts[0]
    } else {
        joined(parts.drop_last(), sep) + sep + parts.last()
    }
}

/// The pieces of a text between the occurrences of one character; a text
/// without it is a single piece.
pub open spec fn pieces(s: Seq<char>, c: char) -> Seq<Seq<char>>
    decreases s.len(),
{
    if s.len() == 0 {
        seq![Seq::empty()]
    } else {
        let before = pieces(s.drop_last(), c);
        if s.last() == c {
            before.push(Seq::empty())
        } else {
            before.drop_last().push(before.last().push(s.last()))
        }
    }
}

/// A text without its leading white space.
pub open spec fn trimmed_start(s: Seq<char>) -> Seq<char>
    decreases s.len(),
{
    if s.len() > 0 && white_space(s[0]) {
        trimmed_start(s.drop_first())
    } else {
        s
    }
}

/// A text without its trailing white space.
pub open spec fn trimmed_end(s: Seq<char>) -> Seq<char>
    decreases s.len(),
{
    if s.len() > 0 && white_space(s.last()) {
        trimmed_end(s.drop_last())
    } else {
        s
    }
}

/// A text without its leading and trailing white space.
pub open spec fn trimmed(s: Seq<char>) -> Seq<char> {
    trimmed_end(trimmed_start(s))
}

// ── operations ──────────────────────────────────────────────────────

/// Whether two texts hold the same characters.
pub fn same(a: &str, b: &str) -> (r: bool)
    ensures
        r == (a@ == b@),
{
    a.eq(b)
}

/// The characters of a text.
pub fn to_chars(s: &str) -> (r: Vec<char>)
    ensures
        r@ == s@,
{
    let mut out: Vec<char> = Vec::new();
    for c in it: s.chars()
        invariant
            out@ == s@.subrange(0, it.index()),
            it.seq() == s@,
    {
        out.push(c);
    }
    out
}

/// The text of the characters in `v[from..to]`.
pub fn slice_text(v: &Vec<char>, from: usize, to: usize) -> (r: String)
    requires
        from <= to <= v@.len(),
    ensures
        r@ == v@.subrange(from as int, to as int),
{
    let mut out = String::new();
    let mut i: usize = from;
    while i < to
        invariant
            from <= i <= to <= v@.len(),
            out@ == v@.subrange(from as int, i as int),
        decreases to - i,
    {
        out.push(v[i]);
        i = i + 1;
        assert(v@.subrange(from as int, i as int) == v@.subrange(from as int, i - 1).push(
            v@[i - 1],
        ));
    }
    out
}

/// The first `n` characters of a text.
pub fn take_head(s: &str, n: usize) -> (r: String)
    ensures
        r@ == head(s@, n as int),
{
    let v = to_chars(s);
    if v.len() <= n {
        let r = slice_text(&v, 0, v.len());
        assert(r@ == s@);
        r
    } else {
        slice_text(&v, 0, n)
    }
}

/// The last `n` characters of a text.
pub fn take_tail(s: &str, n: usize) -> (r: String)
    ensures
        r@ == tail(s@, n as int),
{
    let v = to_chars(s);
    if v.len() <= n {
        let r = slice_text(&v, 0, v.len());
        assert(r@ == s@);
        r
    } else {
        slice_text(&v, v.len() - n, v.len())
    }
}

/// How many characters a text has.
pub fn count(s: &str) -> (r: usize)
    ensures
        r == s@.len(),
{
    let v = to_chars(s);
    v.len()
}

/// Whether `needle` stands in `hay` at `at`.
pub fn stands(hay: &Vec<char>, needle: &Vec<char>, at: usize) -> (r: bool)
    requires
        at <= hay@.len(),
    ensures
        r == stands_at(hay@, needle@, at as int),
{
    if needle.len() > hay.len() - at {
        return false;
    }
    let total: usize = hay.len();
    let mut i: usize = 0;
    while i < needle.len()
        invariant
            i <= needle@.len(),
            at + needle@.len() <= hay@.len() == total,
            forall|k: int| 0 <= k < i ==> hay@[at + k] == needle@[k],
        decreases needle@.len() - i,
    {
        if hay[at + i] != needle[i] {
            assert(hay@.subrange(at as int, at + needle@.len())[i as int] != needle@[i as int]);
            return false;
        }
        i = i + 1;
    }
    assert(hay@.subrange(at as int, at + needle@.len()) == needle@);
    true
}

/// Whether `needle` occurs in `hay`.
pub fn contains(hay: &str, needle: &str) -> (r: bool)
    ensures
        r == occurs(hay@, needle@),
{
    let h = to_chars(hay);
    let n = to_chars(needle);
    if n.len() > h.len() {
        return false;
    }
    let last: usize = h.len() - n.len();
    let mut at: usize = 0;
    while at < last
        invariant
            h@ == hay@,
            n@ == needle@,
            last == h@.len() - n@.len(),
            at <= last,
            forall|k: int| 0 <= k < at ==> !stands_at(hay@, needle@, k),
        decreases last - at,
    {
        if stands(&h, &n, at) {
            return true;
        }
        at = at + 1;
    }
    stands(&h, &n, at)
}

/// Whether a text begins with `prefix`.
pub fn starts_with(s: &str, prefix: &str) -> (r: bool)
    ensures
        r == stands_at(s@, prefix@, 0),
{
    let h = to_chars(s);
    let n = to_chars(prefix);
    stands(&h, &n, 0)
}

/// Whether a text ends with the character `c`.
pub fn ends_with_char(s: &str, c: char) -> (r: bool)
    ensures
        r == (s@.len() > 0 && s@.last() == c),
{
    let v = to_chars(s);
    v.len() > 0 && v[v.len() - 1] == c
}

/// A number in decimal notation.
pub fn number(n: u64) -> (r: String)
    ensures
        r@ == decimal(n as nat),
    decreases n,
{
    let last: u8 = (n % 10) as u8;
    let c: char = (48u8 + last) as char;
    assert(c == digit((n % 10) as nat));
    if n < 10 {
        let mut out = String::new();
        out.push(c);
        assert(out@ == seq![digit(n as nat)]);
        out
    } else {
        let mut out = number(n / 10);
        out.push(c);
        out
    }
}

/// A whole number in decimal notation.
pub fn signed_number(i: i64) -> (r: String)
    ensures
        r@ == signed(i as int),
{
    if i < 0 {
        let mut out = "-".to_owned();
        let magnitude: u64 = if i == i64::MIN {
            9_223_372_036_854_775_808
        } else {
            (-i) as u64
        };
        out.push_str(number(magnitude).as_str());
        out
    } else {
        number(i as u64)
    }
}

/// Several texts as one, `sep` between each two.
pub fn join(parts: &Vec<String>, sep: &str) -> (r: String)
    ensures
        r@ == joined(texts(parts@), sep@),
{
    let mut out = String::new();
    let mut i: usize = 0;
    proof {
        assert(texts(parts@).take(0) =~= Seq::empty());
    }
    while i < parts.len()
        invariant
            i <= parts@.len(),
            out@ == joined(texts(parts@).take(i as int), sep@),
        decreases parts@.len() - i,
    {
        let ghost before = texts(parts@).take(i as int);
        let ghost after = texts(parts@).take(i + 1);
        if i > 0 {
            out.push_str(sep);
        }
        out.push_str(parts[i].as_str());
        proof {
            assert(after.drop_last() =~= before);
            assert(after.last() == parts@[i as int]@);
            if i == 0 {
                assert(after.len() == 1);
                assert(out@ =~= after[0]);
            }
        }
        i = i + 1;
    }
    assert(texts(parts@).take(parts@.len() as int) =~= texts(parts@));
    out
}

/// The pieces of a text between the occurrences of `c`.
pub fn split_on(s: &str, c: char) -> (r: Vec<String>)
    ensures
        texts(r@) == pieces(s@, c),
        r@.len() > 0,
{
    let v = to_chars(s);
    let mut out: Vec<String> = Vec::new();
    let mut piece = String::new();
    let mut i: usize = 0;
    proof {
        assert(v@.take(0) =~= Seq::empty());
        assert(texts(out@).push(piece@) =~= pieces(v@.take(0), c));
    }
    while i < v.len()
        invariant
            i <= v@.len(),
            texts(out@).push(piece@) == pieces(v@.take(i as int), c),
        decreases v@.len() - i,
    {
        let ghost so_far = texts(out@).push(piece@);
        proof {
            assert(v@.take(i + 1).drop_last() =~= v@.take(i as int));
            assert(so_far.drop_last() =~= texts(out@));
        }
        if v[i] == c {
            let ghost done = piece@;
            let ghost earlier = out@;
            out.push(piece);
            piece = String::new();
            proof {
                assert(texts(out@) =~= texts(earlier).push(done));
            }
        } else {
            piece.push(v[i]);
        }
        i = i + 1;
        assert(texts(out@).push(piece@) =~= pieces(v@.take(i as int), c));
    }
    assert(v@.take(v@.len() as int) =~= s@);
    let ghost done = piece@;
    let ghost earlier = out@;
    out.push(piece);
    proof {
        assert(texts(out@) =~= texts(earlier).push(done));
    }
    out
}

/// A text without its leading white space.
pub fn trim_start(s: &str) -> (r: String)
    ensures
        r@ == trimmed_start(s@),
{
    let v = to_chars(s);
    let mut i: usize = 0;
    assert(v@.skip(0) =~= v@);
    while i < v.len() && v[i].is_whitespace()
        invariant
            i <= v@.len(),
            trimmed_start(v@.skip(i as int)) == trimmed_start(v@),
        decreases v@.len() - i,
    {
        assert(v@.skip(i as int).drop_first() =~= v@.skip(i + 1));
        i = i + 1;
    }
    assert(v@.subrange(i as int, v@.len() as int) =~= v@.skip(i as int));
    slice_text(&v, i, v.len())
}

/// A text without its trailing white space.
pub fn trim_end(s: &str) -> (r: String)
    ensures
        r@ == trimmed_end(s@),
{
    let v = to_chars(s);
    let mut n: usize = v.len();
    assert(v@.take(v@.len() as int) =~= v@);
    while n > 0 && v[n - 1].is_whitespace()
        invariant
            n <= v@.len(),
            trimmed_end(v@.take(n as int)) == trimmed_end(v@),
        decreases n,
    {
        assert(v@.take(n as int).drop_last() =~= v@.take(n - 1));
        n = n - 1;
    }
    assert(v@.subrange(0, n as int) =~= v@.take(n as int));
    slice_text(&v, 0, n)
}

/// A text without its leading and trailing white space.
pub fn trim(s: &str) -> (r: String)
    ensures
        r@ == trimmed(s@),
{
    let t = trim_start(s);
    trim_end(t.as_str())
}

// ── lines and parts ─────────────────────────────────────────────────

/// A line without the carriage return that may stand before its end.
pub open spec fn without_return(s: Seq<char>) -> Seq<char> {
    if s.len() > 0 && s.last() == '\r' {
        s.drop_last()
    } else {
        s
    }
}

/// The lines of a text. A line ends with a newline or with a carriage return
/// and a newline; what stands behind the last of them is a line where it is
/// not empty.
pub open spec fn text_lines(s: Seq<char>) -> Seq<Seq<char>> {
    let p = pieces(s, '\n');
    Seq::new((p.len() - 1) as nat, |i: int| without_return(p[i])) + (if p.last().len() > 0 {
        seq![p.last()]
    } else {
        Seq::empty()
    })
}

/// The lines of a text.
pub fn lines(s: &str) -> (r: Vec<String>)
    ensures
        texts(r@) == text_lines(s@),
{
    let parts = split_on(s, '\n');
    let ghost p = pieces(s@, '\n');
    let ghost ended = Seq::new((p.len() - 1) as nat, |i: int| without_return(p[i]));
    let last: usize = parts.len() - 1;
    let mut out: Vec<String> = Vec::new();
    let mut i: usize = 0;
    assert(texts(out@) =~= ended.take(0));
    while i < last
        invariant
            i <= last,
            last == parts@.len() - 1,
            texts(parts@) == p,
            ended == Seq::new((p.len() - 1) as nat, |i: int| without_return(p[i])),
            texts(out@) == ended.take(i as int),
        decreases last - i,
    {
        let ghost before = texts(out@);
        let v = to_chars(parts[i].as_str());
        let n: usize = if v.len() > 0 && v[v.len() - 1] == '\r' {
            v.len() - 1
        } else {
            v.len()
        };
        let line = slice_text(&v, 0, n);
        proof {
            assert(p[i as int] == parts@[i as int]@);
            assert(line@ =~= ended[i as int]);
        }
        let ghost text = line@;
        out.push(line);
        assert(texts(out@) =~= before.push(text));
        assert(ended.take(i + 1) =~= ended.take(i as int).push(text));
        i = i + 1;
    }
    assert(ended.take(i as int) =~= ended);
    assert(p[last as int] == parts@[last as int]@);
    if !parts[last].as_str().is_empty() {
        let ghost before = texts(out@);
        out.push(parts[last].clone());
        assert(texts(out@) =~= before.push(p.last()));
        assert(before.push(p.last()) =~= ended + seq![p.last()]);
    } else {
        assert(texts(out@) =~= ended + Seq::<Seq<char>>::empty());
    }
    out
}

/// The first place where `needle` stands in `hay`, from `from` on; `None`
/// where it stands nowhere.
pub open spec fn first_place(hay: Seq<char>, needle: Seq<char>, from: int) -> Option<int>
    decreases hay.len() + 1 - from,
{
    if from < 0 || from + needle.len() > hay.len() {
        None
    } else if stands_at(hay, needle, from) {
        Some(from)
    } else {
        first_place(hay, needle, from + 1)
    }
}

/// What stands behind the first `needle`.
pub open spec fn after_first(hay: Seq<char>, needle: Seq<char>) -> Option<Seq<char>> {
    match first_place(hay, needle, 0) {
        Some(at) => Some(hay.skip(at + needle.len())),
        None => None,
    }
}

/// What stands behind the first `needle`.
pub fn behind_first(hay: &str, needle: &str) -> (r: Option<String>)
    ensures
        match r {
            Some(s) => after_first(hay@, needle@) == Some(s@),
            None => after_first(hay@, needle@) is None,
        },
{
    let h = to_chars(hay);
    let n = to_chars(needle);
    if n.len() > h.len() {
        return None;
    }
    let total: usize = h.len();
    let last: usize = total - n.len();
    let mut at: usize = 0;
    loop
        invariant
            h@ == hay@,
            n@ == needle@,
            total == h@.len(),
            last == total - n@.len(),
            at <= last,
            first_place(hay@, needle@, at as int) == first_place(hay@, needle@, 0),
        decreases last - at,
    {
        if stands(&h, &n, at) {
            let end: usize = at + n.len();
            let rest = slice_text(&h, end, total);
            assert(rest@ =~= hay@.skip(end as int));
            return Some(rest);
        }
        if at == last {
            assert(first_place(hay@, needle@, at + 1) is None);
            return None;
        }
        at = at + 1;
    }
}

// ── numbers in text ─────────────────────────────────────────────────

/// The character is a decimal digit.
pub open spec fn is_digit(c: char) -> bool {
    '0' <= c && c <= '9'
}

/// The digits of a number without its sign.
pub open spec fn unsigned_digits(s: Seq<char>) -> Seq<char> {
    if s.len() > 0 && s[0] == '+' {
        s.drop_first()
    } else {
        s
    }
}

/// The text is a number: decimal digits, with a plus sign before them at most.
pub open spec fn is_numeral(s: Seq<char>) -> bool {
    let digits = unsigned_digits(s);
    digits.len() > 0 && forall|i: int| 0 <= i < digits.len() ==> is_digit(#[trigger] digits[i])
}

/// The number that digits stand for.
pub open spec fn numeral_value(digits: Seq<char>) -> nat
    decreases digits.len(),
{
    if digits.len() == 0 {
        0
    } else {
        numeral_value(digits.drop_last()) * 10 + ((digits.last() as int - '0' as int) as nat)
    }
}

/// The number that a text stands for, where it is one that `u64` can hold.
pub open spec fn number_in(s: Seq<char>) -> Option<u64> {
    if is_numeral(s) && numeral_value(unsigned_digits(s)) <= u64::MAX {
        Some(numeral_value(unsigned_digits(s)) as u64)
    } else {
        None
    }
}

fn digit_value(c: char) -> (r: Option<u64>)
    ensures
        match r {
            Some(d) => is_digit(c) && d == c as int - '0' as int && d <= 9,
            None => !is_digit(c),
        },
{
    let code: u32 = c as u32;
    if 48 <= code && code <= 57 {
        Some((code - 48) as u64)
    } else {
        None
    }
}

proof fn lemma_numeral_grows(digits: Seq<char>, n: int)
    requires
        0 <= n <= digits.len(),
        forall|i: int| 0 <= i < digits.len() ==> is_digit(#[trigger] digits[i]),
    ensures
        numeral_value(digits.take(n)) <= numeral_value(digits),
    decreases digits.len(),
{
    if n == digits.len() {
        assert(digits.take(n) =~= digits);
    } else {
        let front = digits.drop_last();
        assert forall|i: int| 0 <= i < front.len() implies is_digit(#[trigger] front[i]) by {
            assert(is_digit(digits[i]));
        }
        lemma_numeral_grows(front, n);
        assert(front.take(n) =~= digits.take(n));
    }
}

/// The number that a text stands for.
pub fn parse_number(s: &str) -> (r: Option<u64>)
    ensures
        r == number_in(s@),
{
    let v = to_chars(s);
    let start: usize = if v.len() > 0 && v[0] == '+' {
        1
    } else {
        0
    };
    let ghost digits = unsigned_digits(s@);
    proof {
        assert(v@.skip(start as int) =~= digits);
    }
    if start == v.len() {
        return None;
    }
    let mut n: u64 = 0;
    let mut i: usize = start;
    assert(digits.take(0) =~= Seq::empty());
    while i < v.len()
        invariant
            v@ == s@,
            start <= i <= v@.len(),
            digits == unsigned_digits(s@),
            digits == v@.skip(start as int),
            n == numeral_value(digits.take(i - start)),
            forall|k: int| 0 <= k < i - start ==> is_digit(#[trigger] digits[k]),
        decreases v@.len() - i,
    {
        let ghost k = i - start;
        assert(digits[k] == v@[i as int]);
        match digit_value(v[i]) {
            None => {
                return None;
            },
            Some(d) => {
                proof {
                    assert(digits.take(k + 1).drop_last() =~= digits.take(k));
                    assert(digits.take(k + 1).last() == digits[k]);
                    if is_numeral(s@) {
                        lemma_numeral_grows(digits, k + 1);
                    }
                }
                match n.checked_mul(10) {
                    None => {
                        return None;
                    },
                    Some(m) => match m.checked_add(d) {
                        None => {
                            return None;
                        },
                        Some(x) => {
                            n = x;
                        },
                    },
                }
            },
        }
        i = i + 1;
    }
    assert(digits.take(i - start) =~= digits);
    Some(n)
}

// ── bytes ───────────────────────────────────────────────────────────

/// How many bytes a text takes.
pub open spec fn byte_len(s: Seq<char>) -> nat {
    encode_utf8(s).len()
}

/// How many bytes a character takes.
pub(crate) fn char_width(c: char) -> (r: usize)
    ensures
        r == encode_scalar(c as u32).len(),
        1 <= r <= 4,
{
    let n: u32 = c as u32;
    if n <= 0x7F {
        1
    } else if n <= 0x7FF {
        2
    } else if n <= 0xFFFF {
        3
    } else {
        4
    }
}

pub proof fn lemma_last_bytes(s: Seq<char>)
    requires
        s.len() > 0,
    ensures
        byte_len(s) == byte_len(s.drop_last()) + encode_scalar(s.last() as u32).len(),
    decreases s.len(),
{
    if s.len() == 1 {
        assert(s.drop_first() =~= Seq::empty());
        assert(s.drop_last() =~= Seq::empty());
        assert(encode_utf8(s.drop_first()).len() == 0);
    } else {
        lemma_last_bytes(s.drop_first());
        assert(s.drop_first().drop_last() =~= s.drop_last().drop_first());
        assert(s.drop_first().last() == s.last());
        assert(s.drop_last()[0] == s[0]);
    }
}

/// The bytes of a text are those of its pieces, one after another.
pub proof fn lemma_bytes_concat(a: Seq<char>, b: Seq<char>)
    ensures
        encode_utf8(a + b) == encode_utf8(a) + encode_utf8(b),
    decreases a.len(),
{
    if a.len() == 0 {
        assert(a + b =~= b);
        assert(encode_utf8(a) =~= Seq::empty());
        assert(encode_utf8(a) + encode_utf8(b) =~= encode_utf8(b));
    } else {
        lemma_bytes_concat(a.drop_first(), b);
        assert((a + b).drop_first() =~= a.drop_first() + b);
        assert((a + b)[0] == a[0]);
        assert(encode_utf8(a + b) =~= encode_utf8(a) + encode_utf8(b));
    }
}

// ── laws ────────────────────────────────────────────────────────────

/// A text stands in another behind what stands before it.
pub proof fn lemma_stands_in(front: Seq<char>, t: Seq<char>, rest: Seq<char>)
    ensures
        stands_at(front + t + rest, t, front.len() as int),
        occurs(front + t + rest, t),
{
    let end: int = front.len() + t.len() as int;
    assert((front + t + rest).subrange(front.len() as int, end) =~= t);
    assert(stands_at(front + t + rest, t, front.len() as int));
}

/// The head of a text is the text up to a place, its tail the text from a place
/// on; both have so many characters, or are the whole text.
pub proof fn law_head_and_tail(s: Seq<char>, n: nat)
    ensures
        n <= s.len() ==> head(s, n as int) == s.take(n as int) && tail(s, n as int) == s.skip(
            s.len() - n,
        ),
        n >= s.len() ==> head(s, n as int) == s && tail(s, n as int) == s,
        n <= s.len() ==> head(s, n as int) + tail(s, (s.len() - n) as int) == s,
{
    if n <= s.len() {
        assert(head(s, n as int) =~= s.take(n as int));
        assert(tail(s, n as int) =~= s.skip(s.len() - n));
        assert(head(s, n as int) + tail(s, (s.len() - n) as int) =~= s);
    }
}

/// The pieces of a text, put together with the character between them, are the
/// text again, and none of them holds the character.
pub proof fn law_pieces_make_the_text(s: Seq<char>, c: char)
    ensures
        pieces(s, c).len() > 0,
        joined(pieces(s, c), seq![c]) == s,
        forall|i: int| 0 <= i < pieces(s, c).len() ==> !(#[trigger] pieces(s, c)[i]).contains(c),
    decreases s.len(),
{
    let p = pieces(s, c);
    if s.len() == 0 {
        assert(p[0] =~= s);
    } else {
        let q = pieces(s.drop_last(), c);
        law_pieces_make_the_text(s.drop_last(), c);
        assert(s.drop_last().push(s.last()) =~= s);
        if s.last() == c {
            assert(p.drop_last() =~= q);
            assert(joined(p, seq![c]) =~= s);
        } else {
            assert(p.drop_last() =~= q.drop_last());
            assert forall|i: int| 0 <= i < p.len() implies !(#[trigger] p[i]).contains(c) by {
                if i < p.len() - 1 {
                    assert(p[i] == q[i]);
                } else {
                    assert(!q[i].contains(c));
                    assert forall|k: int| 0 <= k < p[i].len() implies p[i][k] != c by {
                        if k < q[i].len() {
                            assert(q[i].contains(q[i][k]));
                        }
                    }
                }
            }
            assert(joined(p, seq![c]) =~= s);
        }
    }
}

proof fn lemma_piece_alone(s: Seq<char>, c: char)
    requires
        !s.contains(c),
    ensures
        pieces(s, c) == seq![s],
    decreases s.len(),
{
    if s.len() > 0 {
        let front = s.drop_last();
        assert forall|k: int| 0 <= k < front.len() implies front[k] != c by {
            assert(s.contains(s[k]));
        }
        lemma_piece_alone(front, c);
        assert(s.contains(s[s.len() - 1]));
        assert(front.push(s.last()) =~= s);
        assert(pieces(s, c) =~= seq![s]);
    } else {
        assert(s =~= Seq::empty());
    }
}

/// What stands behind the character comes in pieces of its own.
pub proof fn law_pieces_of_both_sides(a: Seq<char>, b: Seq<char>, c: char)
    ensures
        pieces(a.push(c) + b, c) == pieces(a, c) + pieces(b, c),
    decreases b.len(),
{
    let whole = a.push(c) + b;
    law_pieces_make_the_text(a, c);
    if b.len() == 0 {
        assert(whole =~= a.push(c));
        assert(whole.drop_last() =~= a);
        assert(pieces(whole, c) =~= pieces(a, c) + pieces(b, c));
    } else {
        law_pieces_of_both_sides(a, b.drop_last(), c);
        law_pieces_make_the_text(b.drop_last(), c);
        assert(whole.drop_last() =~= a.push(c) + b.drop_last());
        assert(pieces(whole, c) =~= pieces(a, c) + pieces(b, c));
    }
}

/// Texts that do not hold the character, put together with it between them, come
/// apart again.
pub proof fn law_joined_comes_apart(v: Seq<Seq<char>>, c: char)
    requires
        v.len() > 0,
        forall|i: int| 0 <= i < v.len() ==> !(#[trigger] v[i]).contains(c),
    ensures
        pieces(joined(v, seq![c]), c) == v,
    decreases v.len(),
{
    if v.len() == 1 {
        assert(!v[0].contains(c));
        lemma_piece_alone(v[0], c);
        assert(seq![v[0]] =~= v);
    } else {
        let front = v.drop_last();
        assert forall|i: int| 0 <= i < front.len() implies !(#[trigger] front[i]).contains(c) by {
            assert(!v[i].contains(c));
        }
        law_joined_comes_apart(front, c);
        assert(!v[v.len() - 1].contains(c));
        lemma_piece_alone(v.last(), c);
        law_pieces_of_both_sides(joined(front, seq![c]), v.last(), c);
        assert(joined(v, seq![c]) =~= joined(front, seq![c]).push(c) + v.last());
        assert(front + seq![v.last()] =~= v);
    }
}

/// A number in decimal notation can be read back; it has digits alone, and none
/// in front that counts for nothing.
pub proof fn law_decimal_can_be_read(n: nat)
    ensures
        numeral_value(decimal(n)) == n,
        decimal(n).len() > 0,
        forall|i: int| 0 <= i < decimal(n).len() ==> '0' <= #[trigger] decimal(n)[i] <= '9',
        n > 0 ==> decimal(n)[0] != '0',
    decreases n,
{
    let d = decimal(n);
    if n < 10 {
        assert(d.drop_last() =~= Seq::empty());
        assert(numeral_value(d.drop_last()) == 0);
        assert(d.last() == digit(n));
    } else {
        law_decimal_can_be_read(n / 10);
        assert(d.drop_last() =~= decimal(n / 10));
        assert(d.last() == digit(n % 10));
        assert(d[0] == decimal(n / 10)[0]);
    }
}

/// A whole number below zero has a minus sign before its digits.
pub proof fn law_signed_can_be_read(i: int)
    ensures
        i >= 0 ==> numeral_value(signed(i)) == i && signed(i)[0] != '-',
        i < 0 ==> signed(i)[0] == '-' && numeral_value(signed(i).skip(1)) == -i,
{
    reveal_strlit("-");
    if i >= 0 {
        law_decimal_can_be_read(i as nat);
    } else {
        law_decimal_can_be_read((-i) as nat);
        assert(signed(i).skip(1) =~= decimal((-i) as nat));
    }
}

/// What stays of a text without the white space at its front.
proof fn lemma_trimmed_start(s: Seq<char>)
    ensures
        ({
            let n = s.len() - trimmed_start(s).len();
            &&& 0 <= n <= s.len()
            &&& trimmed_start(s) == s.skip(n)
            &&& forall|i: int| 0 <= i < n ==> white_space(#[trigger] s[i])
            &&& trimmed_start(s).len() > 0 ==> !white_space(trimmed_start(s)[0])
        }),
    decreases s.len(),
{
    if s.len() > 0 && white_space(s[0]) {
        let rest = s.drop_first();
        lemma_trimmed_start(rest);
        let n = s.len() - trimmed_start(s).len();
        assert(trimmed_start(s) =~= s.skip(n));
        assert forall|i: int| 0 <= i < n implies white_space(#[trigger] s[i]) by {
            if i > 0 {
                assert(white_space(rest[i - 1]));
            }
        }
    } else {
        assert(s.skip(0) =~= s);
    }
}

proof fn lemma_trimmed_end(s: Seq<char>)
    ensures
        ({
            let t = trimmed_end(s);
            &&& t.len() <= s.len()
            &&& t == s.take(t.len() as int)
            &&& forall|i: int| t.len() <= i < s.len() ==> white_space(#[trigger] s[i])
            &&& t.len() > 0 ==> !white_space(t.last())
        }),
    decreases s.len(),
{
    if s.len() > 0 && white_space(s.last()) {
        let front = s.drop_last();
        lemma_trimmed_end(front);
        let t = trimmed_end(s);
        assert(t =~= s.take(t.len() as int));
        assert forall|i: int| t.len() <= i < s.len() implies white_space(#[trigger] s[i]) by {
            if i < s.len() - 1 {
                assert(white_space(front[i]));
            }
        }
    } else {
        assert(s.take(s.len() as int) =~= s);
    }
}

/// A trimmed text is what stands between the white space at both ends of the
/// text, and has none at its own ends.
pub proof fn law_trimmed(s: Seq<char>)
    ensures
        exists|from: int|
            {
                &&& 0 <= from <= from + trimmed(s).len() <= s.len()
                &&& trimmed(s) == #[trigger] s.subrange(from, from + trimmed(s).len())
                &&& forall|i: int| 0 <= i < from ==> white_space(#[trigger] s[i])
                &&& forall|i: int|
                    from + trimmed(s).len() <= i < s.len() ==> white_space(#[trigger] s[i])
            },
        trimmed(s).len() > 0 ==> !white_space(trimmed(s)[0]) && !white_space(trimmed(s).last()),
{
    lemma_trimmed_start(s);
    let t = trimmed_start(s);
    lemma_trimmed_end(t);
    let from = s.len() - t.len();
    let r = trimmed(s);
    assert(r =~= s.subrange(from, from + r.len()));
    assert forall|i: int| from + r.len() <= i < s.len() implies white_space(#[trigger] s[i]) by {
        assert(white_space(t[i - from]));
    }
}

/// The first place where a text stands is one, and there is none before it; where
/// there is none at all, it does not occur.
pub proof fn law_first_place(hay: Seq<char>, needle: Seq<char>, from: int)
    requires
        from >= 0,
    ensures
        match first_place(hay, needle, from) {
            Some(at) => {
                &&& at >= from
                &&& stands_at(hay, needle, at)
                &&& forall|k: int| from <= k < at ==> !stands_at(hay, needle, k)
            },
            None => forall|k: int| from <= k ==> !stands_at(hay, needle, k),
        },
    decreases hay.len() + 1 - from,
{
    if from + needle.len() <= hay.len() && !stands_at(hay, needle, from) {
        law_first_place(hay, needle, from + 1);
    }
}

/// The pieces of the front of a text are pieces of the text, but for the last,
/// which is the front of one.
pub proof fn law_pieces_of_the_front(s: Seq<char>, c: char, n: int)
    requires
        0 <= n <= s.len(),
    ensures
        ({
            let p = pieces(s.take(n), c);
            let q = pieces(s, c);
            &&& 0 < p.len() <= q.len()
            &&& forall|i: int| 0 <= i < p.len() - 1 ==> (#[trigger] p[i]) == q[i]
            &&& p.last().len() <= q[p.len() - 1].len()
            &&& p.last() == q[p.len() - 1].take(p.last().len() as int)
        }),
    decreases s.len(),
{
    law_pieces_make_the_text(s.take(n), c);
    let p = pieces(s.take(n), c);
    let q = pieces(s, c);
    if n == s.len() {
        assert(s.take(n) =~= s);
        assert(p.last().take(p.last().len() as int) =~= p.last());
    } else {
        let r = pieces(s.drop_last(), c);
        law_pieces_of_the_front(s.drop_last(), c, n);
        law_pieces_make_the_text(s.drop_last(), c);
        assert(s.drop_last().take(n) =~= s.take(n));
        let k = p.len() - 1;
        if s.last() == c {
            assert(q[k] == r[k]);
        } else if k == r.len() - 1 {
            assert(q[k] == r[k].push(s.last()));
            assert(q[k].take(p.last().len() as int) =~= r[k].take(p.last().len() as int));
        } else {
            assert(q[k] == r[k]);
        }
    }
}

/// Every one of the texts that are put together stands in what comes of it.
#[verifier::rlimit(40)]
pub proof fn law_joined_holds_all(v: Seq<Seq<char>>, sep: Seq<char>, i: int)
    requires
        0 <= i < v.len(),
    ensures
        i == 0 ==> stands_at(joined(v, sep), v[i], 0),
        i > 0 ==> occurs(joined(v, sep), sep + v[i]),
        i < v.len() - 1 ==> occurs(joined(v, sep), v[i] + sep),
        i == v.len() - 1 ==> joined(v, sep).len() >= v[i].len() && joined(v, sep).skip(
            joined(v, sep).len() - v[i].len(),
        ) == v[i],
    decreases v.len(),
{
    let all = joined(v, sep);
    if v.len() == 1 {
        assert(all.subrange(0, v[0].len() as int) =~= v[0]);
        assert(all.skip(0) =~= all);
    } else {
        let front = joined(v.drop_last(), sep);
        if i == v.len() - 1 {
            lemma_stands_in(front, sep + v[i], Seq::empty());
            assert(all =~= front + (sep + v[i]) + Seq::<char>::empty());
            assert(all.skip(all.len() - v[i].len()) =~= v[i]);
        } else {
            law_joined_holds_all(v.drop_last(), sep, i);
            assert(all =~= front + (sep + v.last()));
            if i == 0 {
                assert(all.subrange(0, v[0].len() as int) =~= front.subrange(
                    0,
                    v[0].len() as int,
                ));
            } else {
                lemma_occurs_in_front(front, sep + v.last(), sep + v[i]);
            }
            if i < v.len() - 2 {
                lemma_occurs_in_front(front, sep + v.last(), v[i] + sep);
            } else {
                let before = front.take(front.len() - v[i].len());
                assert(all =~= before + (v[i] + sep) + v.last());
                lemma_stands_in(before, v[i] + sep, v.last());
            }
        }
    }
}

/// What occurs in the front of a text occurs in the text.
pub proof fn lemma_occurs_in_front(front: Seq<char>, rest: Seq<char>, t: Seq<char>)
    requires
        occurs(front, t),
    ensures
        occurs(front + rest, t),
{
    let at = choose|at: int| stands_at(front, t, at);
    assert((front + rest).subrange(at, at + t.len()) =~= front.subrange(at, at + t.len()));
    assert(stands_at(front + rest, t, at));
}

/// What occurs in the rest of a text occurs in the text.
pub proof fn lemma_occurs_behind(front: Seq<char>, rest: Seq<char>, t: Seq<char>)
    requires
        occurs(rest, t),
    ensures
        occurs(front + rest, t),
{
    let at = choose|at: int| stands_at(rest, t, at);
    let there = front.len() + at;
    assert((front + rest).subrange(there, there + t.len()) =~= rest.subrange(at, at + t.len()));
    assert(stands_at(front + rest, t, there));
}

/// A number that is written down is read back, also with a plus sign before
/// it; a text that holds anything but digits behind the sign is no number.
pub proof fn law_number_is_read_back(n: u64, s: Seq<char>, i: int)
    ensures
        number_in(decimal(n as nat)) == Some(n),
        number_in(seq!['+'] + decimal(n as nat)) == Some(n),
        number_in(Seq::empty()) is None,
        0 < i < s.len() && !('0' <= s[i] <= '9') ==> number_in(s) is None,
{
    let d = decimal(n as nat);
    law_decimal_can_be_read(n as nat);
    assert(d[0] != '+');
    assert(unsigned_digits(d) == d);
    assert((seq!['+'] + d).drop_first() =~= d);
    assert(unsigned_digits(seq!['+'] + d) == d);
    if 0 < i < s.len() && !('0' <= s[i] <= '9') {
        let u = unsigned_digits(s);
        if s[0] == '+' {
            assert(u[i - 1] == s[i]);
        } else {
            assert(u[i] == s[i]);
        }
    }
}

/// A text that ends a line with a newline has that line first and then the
/// lines of what follows; the newline may have a carriage return before it. A
/// text without a newline is one line as it is, and none where it is empty.
pub proof fn law_lines_one_by_one(line: Seq<char>, rest: Seq<char>)
    requires
        !line.contains('\n'),
    ensures
        text_lines(line + seq!['\r', '\n'] + rest) == seq![line] + text_lines(rest),
        line.len() > 0 && line.last() == '\r' || text_lines(line + seq!['\n'] + rest) == seq![line]
            + text_lines(rest),
        line.len() > 0 ==> text_lines(line) == seq![line],
        text_lines(Seq::empty()) == Seq::<Seq<char>>::empty(),
{
    lemma_piece_alone(line, '\n');
    lemma_piece_alone(Seq::empty(), '\n');
    law_pieces_of_both_sides(line, rest, '\n');
    let returned = line.push('\r');
    assert(!returned.contains('\n')) by {
        if returned.contains('\n') {
            let i = choose|i: int| 0 <= i < returned.len() && returned[i] == '\n';
            assert(line[i] == '\n');
        }
    }
    lemma_piece_alone(returned, '\n');
    law_pieces_of_both_sides(returned, rest, '\n');
    assert(line + seq!['\r', '\n'] + rest =~= returned.push('\n') + rest);
    assert(line + seq!['\n'] + rest =~= line.push('\n') + rest);
    assert(returned.drop_last() =~= line);
    law_pieces_make_the_text(rest, '\n');
    let p = pieces(rest, '\n');
    assert(p.len() > 0);
    assert((seq![returned] + p).last() == p.last());
    assert((seq![line] + p).last() == p.last());
    assert(text_lines(line + seq!['\r', '\n'] + rest) =~= seq![line] + text_lines(rest));
    if !(line.len() > 0 && line.last() == '\r') {
        assert(text_lines(line + seq!['\n'] + rest) =~= seq![line] + text_lines(rest));
    }
    if line.len() > 0 {
        assert(text_lines(line) =~= seq![line]);
    }
    assert(text_lines(Seq::empty()) =~= Seq::<Seq<char>>::empty());
}

/// Texts put one behind the other are the same however they are grouped.
pub proof fn lemma_regrouped(a: Seq<char>, b: Seq<char>, c: Seq<char>)
    ensures
        a + (b + c) == a + b + c,
{
    assert(a + (b + c) =~= a + b + c);
}

/// What is put behind a text is found there.
pub proof fn lemma_found_behind(front: Seq<char>, label: Seq<char>, value: Seq<char>)
    ensures
        occurs(front + label + value, label + value),
{
    lemma_regrouped(front, label, value);
    lemma_stands_in(front, label + value, Seq::empty());
    assert(front + (label + value) + Seq::<char>::empty() =~= front + (label + value));
}

/// What occurs in a text still does when more is put behind it.
pub proof fn lemma_still_found(
    front: Seq<char>,
    a: Seq<char>,
    b: Seq<char>,
    c: Seq<char>,
    d: Seq<char>,
    t: Seq<char>,
)
    requires
        occurs(front, t),
    ensures
        occurs(front + a, t),
        occurs(front + a + b, t),
        occurs(front + a + b + c, t),
        occurs(front + a + b + c + d, t),
{
    lemma_occurs_in_front(front, a, t);
    lemma_occurs_in_front(front + a, b, t);
    lemma_occurs_in_front(front + a + b, c, t);
    lemma_occurs_in_front(front + a + b + c, d, t);
}

} // verus!
