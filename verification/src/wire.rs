//! Frames on a byte stream: one line of JSON text each.

use vstd::prelude::*;
use vstd::utf8::*;

use crate::text::from_utf8;

verus! {

/// The longest line that is waited for, in bytes.
pub const MAX_LINE_BYTES: usize = 33_554_432;

/// The byte that ends a line.
pub const NEWLINE: u8 = 10;

/// Cuts a byte stream into lines.
#[derive(Debug)]
pub struct LineReader {
    line: Vec<u8>,
}

impl View for LineReader {
    type V = Seq<u8>;

    /// What has come of the current line.
    closed spec fn view(&self) -> Seq<u8> {
        self.line@
    }
}

/// What a piece of the stream brought.
#[derive(Debug)]
pub enum Piece {
    /// The line goes on.
    More,
    /// A line, without its end.
    Line(Vec<u8>),
    /// The line is longer than any frame: the stream is broken.
    TooLong,
}

/// The place of the first line end, or the length where there is none.
pub open spec fn line_end(s: Seq<u8>) -> int
    decreases s.len(),
{
    if s.len() == 0 || s[0] == NEWLINE {
        0
    } else {
        1 + line_end(s.drop_first())
    }
}

proof fn lemma_line_end(s: Seq<u8>)
    ensures
        0 <= line_end(s) <= s.len(),
        forall|i: int| 0 <= i < line_end(s) ==> #[trigger] s[i] != NEWLINE,
        line_end(s) < s.len() ==> s[line_end(s)] == NEWLINE,
    decreases s.len(),
{
    if s.len() > 0 && s[0] != NEWLINE {
        let rest = s.drop_first();
        lemma_line_end(rest);
        assert forall|i: int| 0 <= i < line_end(s) implies #[trigger] s[i] != NEWLINE by {
            if i > 0 {
                assert(s[i] == rest[i - 1]);
            }
        }
        if line_end(s) < s.len() {
            assert(s[line_end(s)] == rest[line_end(rest)]);
        }
    }
}

/// What a piece of the stream does to a line: the line after it, what it
/// brings, and how many bytes of it are used up.
pub open spec fn taken(line: Seq<u8>, piece: Seq<u8>) -> (Seq<u8>, Option<Seq<u8>>, nat, bool) {
    let end = line_end(piece);
    if end < piece.len() {
        (Seq::empty(), Some(line + piece.take(end)), (end + 1) as nat, false)
    } else {
        (line + piece, None, piece.len(), (line + piece).len() > MAX_LINE_BYTES)
    }
}

impl LineReader {
    pub fn new() -> (r: Self)
        ensures
            r@ == Seq::<u8>::empty(),
    {
        let r = LineReader { line: Vec::new() };
        assert(r@ =~= Seq::empty());
        r
    }

    /// Takes a piece of the stream. Says what it brought and how many bytes of
    /// it were used; the rest is to be given again.
    pub fn take(&mut self, piece: &Vec<u8>) -> (r: (Piece, usize))
        ensures
            final(self)@ == taken(old(self)@, piece@).0,
            r.1 == taken(old(self)@, piece@).2,
            match r.0 {
                Piece::Line(line) => taken(old(self)@, piece@).1 == Some(line@),
                Piece::More => taken(old(self)@, piece@).1 is None && !taken(old(self)@, piece@).3,
                Piece::TooLong => taken(old(self)@, piece@).1 is None && taken(
                    old(self)@,
                    piece@,
                ).3,
            },
    {
        let ghost start = self.line@;
        let mut i: usize = 0;
        proof {
            lemma_line_end(piece@);
            assert(start + piece@.take(0) =~= start);
        }
        while i < piece.len() && piece[i] != NEWLINE
            invariant
                i <= piece@.len(),
                i <= line_end(piece@) <= piece@.len(),
                forall|k: int| 0 <= k < line_end(piece@) ==> #[trigger] piece@[k] != NEWLINE,
                line_end(piece@) < piece@.len() ==> piece@[line_end(piece@)] == NEWLINE,
                self.line@ == start + piece@.take(i as int),
            decreases piece@.len() - i,
        {
            self.line.push(piece[i]);
            assert(start + piece@.take(i + 1) =~= (start + piece@.take(i as int)).push(
                piece@[i as int],
            ));
            i = i + 1;
        }
        if i < piece.len() {
            let mut line: Vec<u8> = Vec::new();
            std::mem::swap(&mut self.line, &mut line);
            assert(self.line@ =~= Seq::empty());
            (Piece::Line(line), i + 1)
        } else {
            assert(piece@.take(i as int) =~= piece@);
            if self.line.len() > MAX_LINE_BYTES {
                (Piece::TooLong, i)
            } else {
                (Piece::More, i)
            }
        }
    }
}

/// The text of a line, where it is one.
pub fn line_text(line: Vec<u8>) -> (r: Option<String>)
    ensures
        match r {
            Some(s) => encode_utf8(s@) == line@,
            None => !valid_utf8(line@),
        },
{
    from_utf8(line)
}

/// A frame's text as a line.
pub fn frame_line(json: &str) -> (r: String)
    ensures
        r@ == json@.push('\n'),
{
    let mut out = json.to_owned();
    out.push('\n');
    out
}

// ── laws ────────────────────────────────────────────────────────────

/// The line after all the pieces were taken, none of which ends it.
pub open spec fn gathered(pieces: Seq<Seq<u8>>) -> Seq<u8>
    decreases pieces.len(),
{
    if pieces.len() == 0 {
        Seq::empty()
    } else {
        gathered(pieces.drop_last()) + pieces.last()
    }
}

proof fn lemma_gathered(pieces: Seq<Seq<u8>>, i: int)
    requires
        0 <= i <= pieces.len(),
    ensures
        gathered(pieces.take(i)).len() <= gathered(pieces).len(),
    decreases pieces.len(),
{
    if i < pieces.len() {
        assert(pieces.drop_last().take(i) =~= pieces.take(i));
        lemma_gathered(pieces.drop_last(), i);
    } else {
        assert(pieces.take(i) =~= pieces);
    }
}

/// However a line is cut into pieces on its way, it is read as it was sent:
/// the pieces before the one that ends it are gathered, and that one completes
/// it. A line whose pieces before the last are longer than any frame is not
/// read.
pub proof fn law_pieces_make_the_line(
    pieces: Seq<Seq<u8>>,
    last: Seq<u8>,
    rest: Seq<u8>,
)
    requires
        forall|i: int| 0 <= i < pieces.len() ==> line_end(#[trigger] pieces[i]) == pieces[i].len(),
        line_end(last) == last.len(),
        gathered(pieces).len() <= MAX_LINE_BYTES,
    ensures
        forall|i: int|
            0 <= i < pieces.len() ==> (#[trigger] taken(gathered(pieces.take(i)), pieces[i])) == (
                gathered(pieces.take(i + 1)),
                None::<Seq<u8>>,
                pieces[i].len(),
                false,
            ),
        taken(gathered(pieces), last.push(NEWLINE) + rest) == (
            Seq::<u8>::empty(),
            Some(gathered(pieces) + last),
            last.len() + 1,
            false,
        ),
{
    assert forall|i: int| 0 <= i < pieces.len() implies (#[trigger] taken(
        gathered(pieces.take(i)),
        pieces[i],
    )) == (gathered(pieces.take(i + 1)), None::<Seq<u8>>, pieces[i].len(), false) by {
        assert(pieces.take(i + 1).drop_last() =~= pieces.take(i));
        assert(pieces.take(i + 1).last() == pieces[i]);
        lemma_gathered(pieces, i + 1);
    }
    let whole = last.push(NEWLINE) + rest;
    lemma_line_end(last);
    lemma_line_end(whole);
    assert(whole[last.len() as int] == NEWLINE);
    if line_end(whole) < last.len() {
        assert(whole[line_end(whole)] == last[line_end(whole)]);
    }
    assert(line_end(whole) == last.len());
    assert(whole.take(last.len() as int) =~= last);
}

proof fn lemma_encode_push(chars: Seq<char>, c: char)
    ensures
        encode_utf8(chars.push(c)) == encode_utf8(chars) + encode_scalar(c as u32),
    decreases chars.len(),
{
    let all = chars.push(c);
    if chars.len() == 0 {
        assert(all.drop_first() =~= Seq::empty());
        assert(encode_utf8(all.drop_first()) =~= Seq::empty());
        assert(encode_utf8(chars) =~= Seq::empty());
        assert(encode_utf8(all) =~= encode_scalar(c as u32));
        assert(encode_utf8(chars) + encode_scalar(c as u32) =~= encode_scalar(c as u32));
    } else {
        assert(all.drop_first() =~= chars.drop_first().push(c));
        lemma_encode_push(chars.drop_first(), c);
        assert(encode_utf8(all) =~= encode_utf8(chars) + encode_scalar(c as u32));
    }
}

proof fn lemma_scalar_has_no_line_end(c: char)
    requires
        c != '\n',
    ensures
        forall|i: int| 0 <= i < encode_scalar(c as u32).len() ==> #[trigger] encode_scalar(
            c as u32,
        )[i] != NEWLINE,
{
    let v = c as u32;
    assert(v <= 0x7F && (v & 0x7F) as u8 == 10u8 ==> v == 10) by (bit_vector);
    let (a, b, d, e) = (
        ((v >> 6) & 0x1F) as u8,
        ((v >> 12) & 0x0F) as u8,
        ((v >> 18) & 0x7) as u8,
        (v & 0x3F) as u8,
    );
    let (f, g) = (((v >> 6) & 0x3F) as u8, ((v >> 12) & 0x3F) as u8);
    assert(0xC0 | a != 10u8) by (bit_vector);
    assert(0xE0 | b != 10u8) by (bit_vector);
    assert(0xF0 | d != 10u8) by (bit_vector);
    assert(0x80 | e != 10u8) by (bit_vector);
    assert(0x80 | f != 10u8) by (bit_vector);
    assert(0x80 | g != 10u8) by (bit_vector);
}

proof fn lemma_text_has_no_line_end(text: Seq<char>)
    requires
        !text.contains('\n'),
    ensures
        forall|i: int| 0 <= i < encode_utf8(text).len() ==> #[trigger] encode_utf8(text)[i]
            != NEWLINE,
    decreases text.len(),
{
    if text.len() > 0 {
        let rest = text.drop_first();
        assert(text[0] != '\n');
        assert forall|i: int| 0 <= i < rest.len() implies rest[i] != '\n' by {
            assert(rest[i] == text[i + 1]);
        }
        lemma_scalar_has_no_line_end(text[0]);
        lemma_text_has_no_line_end(rest);
        let first = encode_scalar(text[0] as u32);
        assert forall|i: int| 0 <= i < encode_utf8(text).len() implies #[trigger] encode_utf8(
            text,
        )[i] != NEWLINE by {
            if i < first.len() {
                assert(encode_utf8(text)[i] == first[i]);
            } else {
                assert(encode_utf8(text)[i] == encode_utf8(rest)[i - first.len()]);
            }
        }
    }
}

/// A frame survives its way: the line that is sent of a text without a line end
/// is read whole, is the text's own bytes, and stands for no other text.
pub proof fn law_frame_survives_the_wire(json: Seq<char>, rest: Seq<u8>, read: Seq<char>)
    requires
        !json.contains('\n'),
    ensures
        taken(Seq::empty(), encode_utf8(json.push('\n')) + rest) == (
            Seq::<u8>::empty(),
            Some(encode_utf8(json)),
            encode_utf8(json.push('\n')).len(),
            false,
        ),
        valid_utf8(encode_utf8(json)),
        encode_utf8(read) == encode_utf8(json) ==> read == json,
{
    let line = encode_utf8(json);
    lemma_encode_push(json, '\n');
    lemma_text_has_no_line_end(json);
    assert((10u32 & 0x7F) as u8 == 10u8) by (bit_vector);
    assert(encode_scalar('\n' as u32) =~= seq![NEWLINE]);
    assert(encode_utf8(json.push('\n')) =~= line.push(NEWLINE));
    lemma_line_end(line);
    law_pieces_make_the_line(Seq::empty(), line, rest);
    assert(gathered(Seq::empty()) + line =~= line);
    encode_utf8_valid_utf8(json);
    encode_utf8_decode_utf8(json);
    encode_utf8_decode_utf8(read);
}

/// A line is given up just where more than thirty-two mebibytes of it have come
/// without its end; until then every byte that came is kept.
pub proof fn law_longest_line(line: Seq<u8>, piece: Seq<u8>)
    requires
        forall|i: int| 0 <= i < piece.len() ==> #[trigger] piece[i] != 10,
    ensures
        taken(line, piece).3 <==> line.len() + piece.len() > 32 * 1024 * 1024,
        taken(line, piece).0 == line + piece,
        taken(line, piece).1 is None,
        taken(line, piece).2 == piece.len(),
{
    lemma_line_end(piece);
}

} // verus!
