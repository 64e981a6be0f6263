//! What the mouse marks on the screen, and how it gets into the clipboard.

use ratatui::buffer::Buffer;
use unicode_width::UnicodeWidthStr;
use vstd::prelude::*;
use vstd::string::*;
use vstd::utf8::*;

use crate::message::text_opt;
use crate::text::{texts, trim_end, trimmed_end};

verus! {

/// A part of the screen.
#[derive(Debug, Clone, Copy, PartialEq, Eq, Structural)]
pub struct Rect {
    pub x: u16,
    pub y: u16,
    pub width: u16,
    pub height: u16,
}

/// The sum, as far as the screen reaches.
pub open spec fn edge(from: u16, size: u16) -> u16 {
    if from + size > u16::MAX {
        u16::MAX
    } else {
        (from + size) as u16
    }
}

/// The one before, where there is one.
pub open spec fn before(n: u16) -> u16 {
    if n == 0 {
        0
    } else {
        (n - 1) as u16
    }
}

impl Rect {
    /// The column behind the last.
    pub open spec fn spec_right(&self) -> u16 {
        edge(self.x, self.width)
    }

    /// The row below the last.
    pub open spec fn spec_bottom(&self) -> u16 {
        edge(self.y, self.height)
    }

    /// The column behind the last.
    #[verifier::when_used_as_spec(spec_right)]
    pub fn right(&self) -> (r: u16)
        ensures
            r == self.spec_right(),
    {
        self.x.saturating_add(self.width)
    }

    /// The row below the last.
    #[verifier::when_used_as_spec(spec_bottom)]
    pub fn bottom(&self) -> (r: u16)
        ensures
            r == self.spec_bottom(),
    {
        self.y.saturating_add(self.height)
    }
}

/// What is marked: from where the button went down to where the mouse is, each
/// a column and a row.
#[derive(Debug, Clone, Copy, PartialEq, Eq)]
pub struct Selection {
    pub start: (u16, u16),
    pub end: (u16, u16),
}

/// The point lies within the area.
pub open spec fn is_in(area: Rect, p: (u16, u16)) -> bool {
    area.x <= p.0 < area.right() && area.y <= p.1 < area.bottom()
}

/// The point, where it lies within the area.
pub fn conv_point(p: (u16, u16), area: Rect) -> (r: Option<(u16, u16)>)
    ensures
        r == if is_in(area, p) {
            Some(p)
        } else {
            None
        },
{
    if area.y <= p.1 && p.1 < area.bottom() && area.x <= p.0 && p.0 < area.right() {
        Some(p)
    } else {
        None
    }
}

// ── the marked rows ─────────────────────────────────────────────────

pub open spec fn lesser(a: u16, b: u16) -> u16 {
    if a <= b {
        a
    } else {
        b
    }
}

pub open spec fn greater(a: u16, b: u16) -> u16 {
    if a <= b {
        b
    } else {
        a
    }
}

fn least(a: u16, b: u16) -> (r: u16)
    ensures
        r == lesser(a, b),
{
    if a <= b {
        a
    } else {
        b
    }
}

fn most(a: u16, b: u16) -> (r: u16)
    ensures
        r == greater(a, b),
{
    if a <= b {
        b
    } else {
        a
    }
}

/// The column of the end of a selection that lies on this row.
pub open spec fn column_on(sel: Selection, row: u16) -> u16 {
    if sel.start.1 == row {
        sel.start.0
    } else {
        sel.end.0
    }
}

/// What is marked of one row of a selection of several: the row, the first
/// column and the last. The upper row is marked from its end of the selection
/// on, the lower one up to its end, and any other as a whole.
pub open spec fn marked_row(sel: Selection, area: Rect, row: u16) -> (u16, u16, u16) {
    let right = before(area.right());
    if row == lesser(sel.start.1, sel.end.1) {
        (row, greater(column_on(sel, row), area.x), right)
    } else if row == greater(sel.start.1, sel.end.1) {
        (row, area.x, lesser(column_on(sel, row), right))
    } else {
        (row, area.x, right)
    }
}

/// What is marked, row by row, within the area.
pub open spec fn marked_rows(sel: Selection, area: Rect) -> Seq<(u16, u16, u16)> {
    let right = before(area.right());
    let upper = lesser(sel.start.1, sel.end.1);
    let lower = greater(sel.start.1, sel.end.1);
    if upper == lower {
        let from = lesser(sel.start.0, sel.end.0);
        let to = greater(sel.start.0, sel.end.0);
        seq![
            (
                upper,
                lesser(greater(from, area.x), right),
                lesser(greater(to, area.x), right),
            ),
        ]
    } else {
        let first = greater(upper, area.y);
        let last = lesser(lower, before(area.bottom()));
        Seq::new(
            if first <= last {
                (last - first + 1) as nat
            } else {
                0
            },
            |i: int| marked_row(sel, area, (first + i) as u16),
        )
    }
}

/// The area has columns, as far as a selection within one row needs them.
pub open spec fn has_columns(sel: Selection, area: Rect) -> bool {
    sel.start.1 == sel.end.1 ==> area.x <= before(area.right())
}

/// The area has columns, as far as a selection within one row needs them.
pub fn fits(sel: &Selection, area: Rect) -> (r: bool)
    ensures
        r == has_columns(*sel, area),
{
    sel.start.1 != sel.end.1 || area.x <= area.right().saturating_sub(1)
}

/// The column of the end of a selection that lies on this row.
pub fn col_on_row(sel: &Selection, row: u16) -> (r: u16)
    ensures
        r == column_on(*sel, row),
{
    if sel.start.1 == row {
        sel.start.0
    } else {
        sel.end.0
    }
}

/// What is marked, row by row.
pub fn selection_rows(sel: &Selection, area: Rect) -> (r: Vec<(u16, u16, u16)>)
    requires
        has_columns(*sel, area),
    ensures
        r@ == marked_rows(*sel, area),
{
    let right = area.right().saturating_sub(1);
    let upper = least(sel.start.1, sel.end.1);
    let lower = most(sel.start.1, sel.end.1);
    let mut out: Vec<(u16, u16, u16)> = Vec::new();
    if upper == lower {
        let from = least(sel.start.0, sel.end.0);
        let to = most(sel.start.0, sel.end.0);
        out.push((upper, least(most(from, area.x), right), least(most(to, area.x), right)));
        assert(out@ =~= marked_rows(*sel, area));
        return out;
    }
    let first = most(upper, area.y);
    let last = least(lower, area.bottom().saturating_sub(1));
    let mut row: u32 = first as u32;
    while row <= last as u32
        invariant
            first <= row,
            row <= last + 1 || out@.len() == 0,
            out@.len() == row - first,
            first <= last ==> row <= last + 1,
            first > last ==> row == first,
            right == before(area.right()),
            upper == lesser(sel.start.1, sel.end.1),
            lower == greater(sel.start.1, sel.end.1),
            upper != lower,
            first == greater(upper, area.y),
            last == lesser(lower, before(area.bottom())),
            forall|i: int|
                0 <= i < out@.len() ==> #[trigger] out@[i] == marked_row(
                    *sel,
                    area,
                    (first + i) as u16,
                ),
        decreases last + 1 - row,
    {
        let r: u16 = row as u16;
        let marked = if r == upper {
            (r, most(col_on_row(sel, r), area.x), right)
        } else if r == lower {
            (r, area.x, least(col_on_row(sel, r), right))
        } else {
            (r, area.x, right)
        };
        out.push(marked);
        row = row + 1;
    }
    assert(out@ =~= marked_rows(*sel, area));
    out
}

/// It does not matter from which end a selection was drawn.
pub proof fn law_selection_has_no_direction(sel: Selection, area: Rect)
    ensures
        marked_rows(Selection { start: sel.end, end: sel.start }, area) == marked_rows(sel, area),
{
    assert(marked_rows(Selection { start: sel.end, end: sel.start }, area) =~= marked_rows(
        sel,
        area,
    ));
}

// ── the marked text ─────────────────────────────────────────────────

/// ratatui's picture of the screen.
#[verifier::external_type_specification]
#[verifier::external_body]
pub struct ExBuffer(Buffer);

/// What stands in the cells of a picture, by column and row.
pub uninterp spec fn cells(b: Buffer) -> Map<(u16, u16), Seq<char>>;

/// Calls `Buffer::cell` and `Cell::symbol`: what stands in the cell, where the
/// picture has it.
#[verifier::external_body]
fn symbol_at(b: &Buffer, column: u16, row: u16) -> (r: Option<String>)
    ensures
        r is Some <==> cells(*b).contains_key((column, row)),
        r is Some ==> r->0@ == cells(*b)[(column, row)],
{
    b.cell((column, row)).map(|c| c.symbol().to_owned())
}

/// How many columns a text takes, as `UnicodeWidthStr::width` computes it.
pub uninterp spec fn width_of(text: Seq<char>) -> usize;

/// Calls `UnicodeWidthStr::width`: the number of columns depends on the text
/// alone.
#[verifier::external_body]
fn display_width(text: &str) -> (r: usize)
    ensures
        r == width_of(text@),
{
    UnicodeWidthStr::width(text)
}

/// The column behind one that holds something of this width. What is wide
/// leaves the columns that it covers empty.
pub open spec fn column_behind(column: nat, width: nat) -> nat {
    column + if width == 0 {
        1
    } else {
        width
    }
}

/// The column behind one that holds something of this width, or the last
/// number where there is none.
pub fn next_column(column: usize, width: usize) -> (r: usize)
    ensures
        column_behind(column as nat, width as nat) <= usize::MAX ==> r == column_behind(
            column as nat,
            width as nat,
        ),
        column_behind(column as nat, width as nat) > usize::MAX ==> r == usize::MAX,
{
    if width == 0 {
        column.saturating_add(1)
    } else {
        column.saturating_add(width)
    }
}

/// How many columns are left up to the last.
pub open spec fn columns_left(column: nat, last: u16) -> nat {
    if column > last {
        0
    } else {
        (last + 1 - column) as nat
    }
}

/// What stands in a row, from one column to another.
pub open spec fn row_text(
    cells: Map<(u16, u16), Seq<char>>,
    row: u16,
    column: nat,
    last: u16,
) -> Seq<char>
    decreases columns_left(column, last),
{
    if column > last || !cells.contains_key((column as u16, row)) {
        Seq::empty()
    } else {
        let symbol = cells[(column as u16, row)];
        symbol + row_text(cells, row, column_behind(column, width_of(symbol) as nat), last)
    }
}

fn read_row(b: &Buffer, row: u16, first: u16, last: u16) -> (r: String)
    ensures
        r@ == row_text(cells(*b), row, first as nat, last),
{
    let mut out = String::new();
    let mut column: usize = first as usize;
    while column <= last as usize
        invariant_except_break
            out@ + row_text(cells(*b), row, column as nat, last) =~= row_text(
                cells(*b),
                row,
                first as nat,
                last,
            ),
        ensures
            out@ == row_text(cells(*b), row, first as nat, last),
        decreases columns_left(column as nat, last),
    {
        let symbol = match symbol_at(b, column as u16, row) {
            Some(s) => s,
            None => {
                assert(out@ + Seq::<char>::empty() =~= out@);
                break;
            },
        };
        let ghost before_row = out@;
        out.push_str(symbol.as_str());
        let width = display_width(symbol.as_str());
        let ghost behind = column_behind(column as nat, width as nat);
        column = next_column(column, width);
        proof {
            if behind > usize::MAX {
                assert(row_text(cells(*b), row, behind, last) == Seq::<char>::empty());
                assert(row_text(cells(*b), row, column as nat, last) == Seq::<char>::empty());
            }
            let rest = row_text(cells(*b), row, column as nat, last);
            assert(out@ + rest =~= before_row + (symbol@ + rest));
        }
    }
    out
}

/// The texts of the rows as one: each without the blanks at its end, one below
/// the other; empty rows at the top are left out.
pub open spec fn stacked(rows: Seq<Seq<char>>) -> Seq<char>
    decreases rows.len(),
{
    if rows.len() == 0 {
        Seq::empty()
    } else {
        let above = stacked(rows.drop_last());
        if above.len() == 0 {
            trimmed_end(rows.last())
        } else {
            above.push('\n') + trimmed_end(rows.last())
        }
    }
}

/// The texts of the rows as one, where that is not empty.
pub open spec fn gathered(rows: Seq<Seq<char>>) -> Option<Seq<char>> {
    let all = trimmed_end(stacked(rows));
    if all.len() == 0 {
        None
    } else {
        Some(all)
    }
}

/// The texts of the rows as one, where that is not empty.
pub fn gather(rows: &Vec<String>) -> (r: Option<String>)
    ensures
        text_opt(r) == gathered(texts(rows@)),
{
    let ghost all = texts(rows@);
    let mut out = String::new();
    let mut i: usize = 0;
    assert(all.take(0) =~= Seq::empty());
    while i < rows.len()
        invariant
            i <= rows@.len(),
            all == texts(rows@),
            out@ == stacked(all.take(i as int)),
        decreases rows@.len() - i,
    {
        proof {
            assert(all.take(i + 1).drop_last() =~= all.take(i as int));
            assert(all.take(i + 1).last() == rows@[i as int]@);
        }
        if !out.as_str().is_empty() {
            out.push('\n');
        }
        let ghost above = out@;
        let row = trim_end(rows[i].as_str());
        out.push_str(row.as_str());
        assert(Seq::<char>::empty() + row@ =~= row@);
        i = i + 1;
    }
    assert(all.take(i as int) =~= all);
    let out = trim_end(out.as_str());
    if out.as_str().is_empty() {
        None
    } else {
        Some(out)
    }
}

/// The texts of these rows of a picture.
pub open spec fn row_texts(
    cells: Map<(u16, u16), Seq<char>>,
    rows: Seq<(u16, u16, u16)>,
) -> Seq<Seq<char>> {
    Seq::new(rows.len(), |i: int| row_text(cells, rows[i].0, rows[i].1 as nat, rows[i].2))
}

/// The marked text, where there is any.
pub fn selection_text(b: &Buffer, sel: &Selection, area: Rect) -> (r: Option<String>)
    requires
        has_columns(*sel, area),
    ensures
        text_opt(r) == gathered(row_texts(cells(*b), marked_rows(*sel, area))),
{
    let rows = selection_rows(sel, area);
    let ghost all = row_texts(cells(*b), rows@);
    let mut read: Vec<String> = Vec::new();
    let mut i: usize = 0;
    assert(texts(read@) =~= all.take(0));
    while i < rows.len()
        invariant
            i <= rows@.len(),
            all == row_texts(cells(*b), rows@),
            texts(read@) == all.take(i as int),
        decreases rows@.len() - i,
    {
        let (row, first, last) = rows[i];
        let ghost before_read = texts(read@);
        read.push(read_row(b, row, first, last));
        assert(texts(read@) =~= before_read.push(all[i as int]));
        assert(all.take(i + 1) =~= all.take(i as int).push(all[i as int]));
        i = i + 1;
    }
    assert(all.take(i as int) =~= all);
    gather(&read)
}

// ── the clipboard ───────────────────────────────────────────────────

/// A digit to the base of sixty-four.
pub open spec fn base64_digit(n: int) -> char {
    if n < 26 {
        (65 + n) as char
    } else if n < 52 {
        (71 + n) as char
    } else if n < 62 {
        (n - 4) as char
    } else if n == 62 {
        '+'
    } else {
        '/'
    }
}

/// What stands behind the first three.
pub open spec fn behind_group(data: Seq<u8>) -> Seq<u8> {
    if data.len() > 3 {
        data.skip(3)
    } else {
        Seq::empty()
    }
}

/// Bytes in base64, with padding.
pub open spec fn base64(data: Seq<u8>) -> Seq<char>
    decreases data.len(),
{
    if data.len() == 0 {
        Seq::empty()
    } else {
        let a = data[0] as int;
        let b = if data.len() > 1 {
            data[1] as int
        } else {
            0
        };
        let c = if data.len() > 2 {
            data[2] as int
        } else {
            0
        };
        let group = seq![
            base64_digit(a / 4),
            base64_digit((a % 4) * 16 + b / 16),
            if data.len() > 1 {
                base64_digit((b % 16) * 4 + c / 64)
            } else {
                '='
            },
            if data.len() > 2 {
                base64_digit(c % 64)
            } else {
                '='
            },
        ];
        group + base64(behind_group(data))
    }
}

fn digit_of(n: u32) -> (r: char)
    requires
        n < 64,
    ensures
        r == base64_digit(n as int),
{
    let n: u8 = n as u8;
    if n < 26 {
        (65u8 + n) as char
    } else if n < 52 {
        (71u8 + n) as char
    } else if n < 62 {
        (n - 4) as char
    } else if n == 62 {
        '+'
    } else {
        '/'
    }
}

/// Bytes in base64, with padding.
pub fn base64_encode(data: &[u8]) -> (r: String)
    ensures
        r@ == base64(data@),
{
    let mut out = String::new();
    let total: usize = data.len();
    let mut i: usize = 0;
    assert(data@.skip(0) =~= data@);
    while i < total
        invariant
            i <= total,
            total == data@.len(),
            out@ + base64(data@.skip(i as int)) =~= base64(data@),
        decreases total - i,
    {
        let ghost before_group = out@;
        let ghost rest = data@.skip(i as int);
        let left: usize = total - i;
        let a: u32 = data[i] as u32;
        let b: u32 = if left > 1 {
            data[i + 1] as u32
        } else {
            0
        };
        let c: u32 = if left > 2 {
            data[i + 2] as u32
        } else {
            0
        };
        out.push(digit_of(a / 4));
        out.push(digit_of((a % 4) * 16 + b / 16));
        out.push(
            if left > 1 {
                digit_of((b % 16) * 4 + c / 64)
            } else {
                '='
            },
        );
        out.push(
            if left > 2 {
                digit_of(c % 64)
            } else {
                '='
            },
        );
        i = if left > 3 {
            i + 3
        } else {
            total
        };
        proof {
            assert(behind_group(rest) =~= data@.skip(i as int));
            assert(out@ + base64(data@.skip(i as int)) =~= before_group + base64(rest));
        }
    }
    assert(data@.skip(i as int) =~= Seq::empty());
    assert(out@ + Seq::<char>::empty() =~= out@);
    out
}

/// What a terminal is sent to put a text into the clipboard.
pub open spec fn clipboard_text(text: Seq<char>) -> Seq<char> {
    "\x1b]52;c;"@ + base64(encode_utf8(text)) + "\x07"@
}

/// What a terminal is sent to put a text into the clipboard.
pub fn clipboard_sequence(text: &str) -> (r: String)
    ensures
        r@ == clipboard_text(text@),
{
    let mut out = "\x1b]52;c;".to_owned();
    let code = base64_encode(text.as_bytes());
    out.push_str(code.as_str());
    out.push_str("\x07");
    out
}

/// What a digit to the base of sixty-four stands for.
pub open spec fn base64_value(c: char) -> int {
    let n = c as int;
    if c == '+' {
        62
    } else if c == '/' {
        63
    } else if n < 58 {
        n + 4
    } else if n < 91 {
        n - 65
    } else {
        n - 71
    }
}

/// The bytes that a base64 text stands for.
pub open spec fn base64_bytes(text: Seq<char>) -> Seq<u8>
    decreases text.len(),
{
    if text.len() < 4 {
        Seq::empty()
    } else {
        let a = base64_value(text[0]);
        let b = base64_value(text[1]);
        let first = seq![(a * 4 + b / 16) as u8];
        if text[2] == '=' {
            first
        } else {
            let c = base64_value(text[2]);
            let second = first.push(((b % 16) * 16 + c / 4) as u8);
            if text[3] == '=' {
                second
            } else {
                second.push(((c % 4) * 64 + base64_value(text[3])) as u8) + base64_bytes(
                    text.skip(4),
                )
            }
        }
    }
}

proof fn lemma_digit(n: int)
    requires
        0 <= n < 64,
    ensures
        base64_value(base64_digit(n)) == n,
        base64_digit(n) != '=',
{
}

/// What was put into base64 can be read back.
#[verifier::rlimit(40)]
pub proof fn law_base64_can_be_read(data: Seq<u8>)
    ensures
        base64_bytes(base64(data)) == data,
        base64(data).len() == 4 * ((data.len() + 2) / 3),
    decreases data.len(),
{
    if data.len() > 0 {
        let a = data[0] as int;
        let b = if data.len() > 1 {
            data[1] as int
        } else {
            0
        };
        let c = if data.len() > 2 {
            data[2] as int
        } else {
            0
        };
        lemma_digit(a / 4);
        lemma_digit((a % 4) * 16 + b / 16);
        lemma_digit((b % 16) * 4 + c / 64);
        lemma_digit(c % 64);
        let code = base64(data);
        law_base64_can_be_read(behind_group(data));
        assert(code.skip(4) =~= base64(behind_group(data)));
        assert(base64_bytes(code) =~= data);
    }
}

// ── laws ────────────────────────────────────────────────────────────

/// Drawn from top to bottom within the area, a selection of several rows marks
/// the first from its start to the right edge, the last from the left edge to
/// its end, and those between as a whole; none is left out.
pub proof fn law_rows_are_marked(sel: Selection, area: Rect, i: int)
    requires
        is_in(area, sel.start),
        is_in(area, sel.end),
        sel.start.1 < sel.end.1,
        0 <= i <= sel.end.1 - sel.start.1,
    ensures
        ({
            let rows = marked_rows(sel, area);
            let right = area.right() - 1;
            &&& rows.len() == sel.end.1 - sel.start.1 + 1
            &&& rows[i].0 == sel.start.1 + i
            &&& i == 0 ==> rows[i].1 == sel.start.0 && rows[i].2 == right
            &&& 0 < i < sel.end.1 - sel.start.1 ==> rows[i].1 == area.x && rows[i].2 == right
            &&& i == sel.end.1 - sel.start.1 ==> rows[i].1 == area.x && rows[i].2 == sel.end.0
        }),
{
    let rows = marked_rows(sel, area);
    assert(rows[i] == marked_row(sel, area, (sel.start.1 + i) as u16));
}

/// Within one row of the area a selection marks what lies between its ends,
/// both of them with it.
pub proof fn law_one_row_is_marked(sel: Selection, area: Rect)
    requires
        is_in(area, sel.start),
        is_in(area, sel.end),
        sel.start.1 == sel.end.1,
        sel.start.0 <= sel.end.0,
    ensures
        marked_rows(sel, area).len() == 1,
        marked_rows(sel, area)[0].0 == sel.start.1,
        marked_rows(sel, area)[0].1 == sel.start.0,
        marked_rows(sel, area)[0].2 == sel.end.0,
{
}

/// Nothing is marked beside the area, wherever the ends of the selection lie.
pub proof fn law_marks_stay_in_the_area(sel: Selection, area: Rect, i: int)
    requires
        area.x < area.right(),
        0 <= i < marked_rows(sel, area).len(),
    ensures
        area.x <= marked_rows(sel, area)[i].1,
        marked_rows(sel, area)[i].2 < area.right(),
        sel.start.1 != sel.end.1 ==> area.y <= marked_rows(sel, area)[i].0,
        sel.start.1 != sel.end.1 && area.y < area.bottom() ==> marked_rows(sel, area)[i].0
            < area.bottom(),
{
}

/// A part of the screen holds just the points from its corner on, as many
/// columns and rows as it has.
pub proof fn law_area_holds_its_points(area: Rect, p: (u16, u16))
    requires
        area.x + area.width <= u16::MAX,
        area.y + area.height <= u16::MAX,
    ensures
        is_in(area, p) <==> 0 <= p.0 - area.x < area.width && 0 <= p.1 - area.y < area.height,
{
}

/// A row is read cell by cell; what is wide covers as many columns as it takes,
/// and what has no width takes one. It ends behind the last column, or where
/// the picture does.
pub proof fn law_row_is_read_cell_by_cell(
    cells: Map<(u16, u16), Seq<char>>,
    row: u16,
    column: u16,
    last: u16,
)
    ensures
        column > last ==> row_text(cells, row, column as nat, last).len() == 0,
        !cells.contains_key((column, row)) ==> row_text(cells, row, column as nat, last).len() == 0,
        column <= last && cells.contains_key((column, row)) ==> {
            let symbol = cells[(column, row)];
            let next = if width_of(symbol) > 1 {
                column as nat + width_of(symbol) as nat
            } else {
                column as nat + 1
            };
            row_text(cells, row, column as nat, last) == symbol + row_text(cells, row, next, last)
        },
{
}

/// Rows are put one below the other, each without the blanks at its end; blank
/// rows above the first that is not are left out.
pub proof fn law_rows_are_stacked(rows: Seq<Seq<char>>, row: Seq<char>)
    ensures
        stacked(rows).len() > 0 ==> stacked(rows.push(row)) == stacked(rows) + seq!['\n']
            + trimmed_end(row),
        stacked(rows).len() == 0 ==> stacked(rows.push(row)) == trimmed_end(row),
        trimmed_end(row).len() == 0 ==> stacked(seq![row] + rows) == stacked(rows),
        stacked(seq![row]) == trimmed_end(row),
        gathered(rows) is Some <==> trimmed_end(stacked(rows)).len() > 0,
        gathered(rows) is Some ==> gathered(rows)->0 == trimmed_end(stacked(rows)),
    decreases rows.len(),
{
    assert(rows.push(row).drop_last() =~= rows);
    assert(stacked(rows).push('\n') =~= stacked(rows) + seq!['\n']);
    assert(seq![row].drop_last() =~= Seq::empty());
    assert(stacked(Seq::empty()).len() == 0);
    assert(stacked(seq![row].drop_last()).len() == 0);
    if trimmed_end(row).len() == 0 {
        if rows.len() == 0 {
            assert(seq![row] + rows =~= seq![row]);
            assert(stacked(seq![row]) =~= stacked(rows));
        } else {
            let front = rows.drop_last();
            law_rows_are_stacked(front, row);
            assert((seq![row] + rows).drop_last() =~= seq![row] + front);
            assert((seq![row] + rows).last() == rows.last());
        }
    }
}

/// The digits of base64: capital letters, small letters, figures, plus and
/// slash.
pub proof fn law_base64_digits(n: int)
    requires
        0 <= n < 64,
    ensures
        n < 26 ==> base64_digit(n) as int == 'A' as int + n,
        26 <= n < 52 ==> base64_digit(n) as int == 'a' as int + (n - 26),
        52 <= n < 62 ==> base64_digit(n) as int == '0' as int + (n - 52),
        n == 62 ==> base64_digit(n) == '+',
        n == 63 ==> base64_digit(n) == '/',
{
}

/// Three bytes, the first the highest, make four digits, the first the highest;
/// what follows is written behind them.
pub proof fn law_base64_by_threes(a: u8, b: u8, c: u8, rest: Seq<u8>)
    ensures
        ({
            let n = a * 65536 + b * 256 + c;
            base64(seq![a, b, c] + rest) == seq![
                base64_digit(n / 262144),
                base64_digit((n / 4096) % 64),
                base64_digit((n / 64) % 64),
                base64_digit(n % 64),
            ] + base64(rest)
        }),
{
    let all = seq![a, b, c] + rest;
    assert(behind_group(all) == rest) by {
        if rest.len() > 0 {
            assert(all.skip(3) =~= rest);
        } else {
            assert(rest =~= Seq::empty());
        }
    }
    lemma_three_bytes(a as int, b as int, c as int);
}

#[verifier::rlimit(40)]
proof fn lemma_three_bytes(x: int, y: int, z: int)
    requires
        0 <= x < 256,
        0 <= y < 256,
        0 <= z < 256,
    ensures
        ({
            let n = x * 65536 + y * 256 + z;
            &&& n / 262144 == x / 4
            &&& (n / 4096) % 64 == (x % 4) * 16 + y / 16
            &&& (n / 64) % 64 == (y % 16) * 4 + z / 64
            &&& n % 64 == z % 64
        }),
{
    let n = x * 65536 + y * 256 + z;
    assert(n / 4096 == x * 16 + y / 16);
    assert(n / 64 == x * 1024 + y * 4 + z / 64);
    assert((x * 16 + y / 16) % 64 == (x % 4) * 16 + y / 16);
    assert((x * 1024 + y * 4 + z / 64) % 64 == (y % 16) * 4 + z / 64);
}

/// Two bytes at the end make three digits and a pad, one byte two digits and
/// two pads; no bytes make none.
pub proof fn law_base64_is_padded(a: u8, b: u8)
    ensures
        ({
            let n = a * 256 + b;
            base64(seq![a, b]) == seq![
                base64_digit(n / 1024),
                base64_digit((n / 16) % 64),
                base64_digit((n % 16) * 4),
                '=',
            ]
        }),
        base64(seq![a]) == seq![base64_digit(a as int / 4), base64_digit((a as int % 4) * 16), '=', '='],
        base64(Seq::empty()) == Seq::<char>::empty(),
{
    let none = Seq::<u8>::empty();
    assert(base64(none) =~= Seq::<char>::empty());
    assert(behind_group(seq![a, b]) == none);
    assert(behind_group(seq![a]) == none);
    let (x, y) = (a as int, b as int);
    let m = x * 256 + y;
    assert(m / 1024 == x / 4);
    assert(m / 16 == x * 16 + y / 16);
    assert((x * 16 + y / 16) % 64 == (x % 4) * 16 + y / 16);
    assert(m % 16 == y % 16);
    assert(base64(seq![a, b]) =~= seq![
        base64_digit(m / 1024),
        base64_digit((m / 16) % 64),
        base64_digit((m % 16) * 4),
        '=',
    ]);
    assert(base64(seq![a]) =~= seq![base64_digit(x / 4), base64_digit((x % 4) * 16), '=', '=']);
}

/// What a terminal is sent begins and ends as the terminal expects, and holds
/// the text between in base64.
pub proof fn law_clipboard_holds_the_text(text: Seq<char>)
    ensures
        ({
            let t = clipboard_text(text);
            &&& t.len() == base64(encode_utf8(text)).len() + 8
            &&& t.take(7) == seq!['\x1b', ']', '5', '2', ';', 'c', ';']
            &&& t.last() == '\x07'
            &&& t.subrange(7, t.len() - 1) == base64(encode_utf8(text))
        }),
{
    reveal_strlit("\x1b]52;c;");
    reveal_strlit("\x07");
    let t = clipboard_text(text);
    assert(t.take(7) =~= seq!['\x1b', ']', '5', '2', ';', 'c', ';']);
    assert(t.subrange(7, t.len() - 1) =~= base64(encode_utf8(text)));
}

} // verus!
