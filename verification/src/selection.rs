//! Text selections over the terminal grid: which cells are highlighted and
//! the text copied from them.
use vstd::prelude::*;

use crate::editor::join_lines;
use crate::terminal::{cell_index, in_bounds, GridView, Terminal};
use crate::text::{is_whitespace, spec_is_whitespace, string_from_chars, trailing_ws};

verus! {

/// A range of cells, from `start` to `end` as (row, column), in either order.
#[derive(Debug, Clone, Copy, PartialEq, Eq)]
pub struct Selection {
    pub start: (u16, u16),
    pub end: (u16, u16),
}

/// Whether `a` comes no later than `b` in reading order.
pub open spec fn reading_le(a: (u16, u16), b: (u16, u16)) -> bool {
    a.0 < b.0 || (a.0 == b.0 && a.1 <= b.1)
}

/// The selection's two ends in reading order.
pub open spec fn ordered(sel: Selection) -> ((u16, u16), (u16, u16)) {
    if reading_le(sel.start, sel.end) {
        (sel.start, sel.end)
    } else {
        (sel.end, sel.start)
    }
}

/// Whether the cell `(row, col)` lies in the selection: between its ends in
/// reading order, both included.
pub open spec fn selected(sel: Selection, row: u16, col: u16) -> bool {
    let (s, e) = ordered(sel);
    reading_le(s, (row, col)) && reading_le((row, col), e)
}

/// Whether the cell `(row, col)` is highlighted by `sel`.
pub fn in_selection(sel: Selection, row: u16, col: u16) -> (b: bool)
    ensures
        b == selected(sel, row, col),
{
    let (start, end) = if sel.start.0 < sel.end.0 || (sel.start.0 == sel.end.0 && sel.start.1 <= sel.end.1) {
        (sel.start, sel.end)
    } else {
        (sel.end, sel.start)
    };
    if row < start.0 || row > end.0 {
        return false;
    }
    if start.0 == end.0 {
        return col >= start.1 && col <= end.1;
    }
    if row == start.0 {
        return col >= start.1;
    }
    if row == end.0 {
        return col <= end.1;
    }
    true
}

/// The character a cell shows when copied: blank for an empty or missing cell.
pub open spec fn copied_char(g: GridView, row: int, col: int) -> char {
    if in_bounds(g.size, row, col) {
        let c = g.cells[cell_index(g.size, row, col)].char;
        if c == '\0' {
            ' '
        } else {
            c
        }
    } else {
        ' '
    }
}

/// The characters of columns `c0..=c1` of a row.
pub open spec fn row_chars(g: GridView, row: int, c0: int, c1: int) -> Seq<char> {
    Seq::new(if c1 >= c0 { (c1 - c0 + 1) as nat } else { 0 }, |k: int| copied_char(g, row, c0 + k))
}

/// `s` without trailing whitespace.
pub open spec fn trimmed_end(s: Seq<char>) -> Seq<char> {
    s.take(s.len() - trailing_ws(s))
}

/// The lines copied from a selection: each selected row from its first to
/// its last selected column (the whole row in between), trailing
/// whitespace removed.
pub open spec fn selection_lines(g: GridView, sel: Selection) -> Seq<Seq<char>> {
    let (s, e) = ordered(sel);
    let last_col = if g.size.cols > 0 { g.size.cols - 1 } else { 0 };
    Seq::new(
        (e.0 - s.0 + 1) as nat,
        |i: int|
            trimmed_end(
                row_chars(
                    g,
                    s.0 + i,
                    if i == 0 { s.1 as int } else { 0 },
                    if s.0 + i == e.0 { e.1 as int } else { last_col as int },
                ),
            ),
    )
}

/// The text a selection copies: its lines joined with `\n`.
pub fn selection_text(terminal: &Terminal, sel: Selection) -> (s: String)
    requires
        terminal.wf(),
    ensures
        s@ == join_lines(selection_lines(terminal@.grid, sel)),
{
    let (start, end) = if sel.start.0 < sel.end.0 || (sel.start.0 == sel.end.0 && sel.start.1 <= sel.end.1) {
        (sel.start, sel.end)
    } else {
        (sel.end, sel.start)
    };
    let grid = terminal.grid();
    let size = terminal.size();
    let ghost g = terminal@.grid;
    let ghost lines = selection_lines(g, sel);
    let last_col: u16 = if size.cols > 0 {
        size.cols - 1
    } else {
        0
    };
    let mut out = String::new();
    let mut row: u16 = start.0;
    let mut i: usize = 0;
    while row <= end.0
        invariant
            start.0 <= row,
            row as int == start.0 + i,
            row <= end.0,
            (start, end) == ordered(sel),
            g == grid@,
            g == terminal@.grid,
            grid.wf(),
            size == g.size,
            last_col == (if size.cols > 0 { size.cols - 1 } else { 0 }),
            lines == selection_lines(g, sel),
            lines.len() == end.0 - start.0 + 1,
            out@ == join_lines(lines.take(i as int)),
        decreases end.0 + 1 - row,
    {
        let col_start: u16 = if row == start.0 {
            start.1
        } else {
            0
        };
        let col_end: u16 = if row == end.0 {
            end.1
        } else {
            last_col
        };
        let mut line: Vec<char> = Vec::new();
        let ghost want = row_chars(g, row as int, col_start as int, col_end as int);
        let count: usize = if col_start <= col_end {
            (col_end - col_start) as usize + 1
        } else {
            0
        };
        assert(count == want.len());
        let mut k: usize = 0;
        while k < count
            invariant
                k <= count,
                count == want.len(),
                count > 0 ==> col_start as int + count - 1 == col_end,
                g == grid@,
                grid.wf(),
                want == row_chars(g, row as int, col_start as int, col_end as int),
                line@ == want.take(k as int),
            decreases count - k,
        {
            let col: u16 = col_start + k as u16;
            let c = match grid.get(row, col) {
                Some(cell) => if cell.char == '\0' {
                    ' '
                } else {
                    cell.char
                },
                None => ' ',
            };
            line.push(c);
            proof {
                assert(want[k as int] == c);
                assert(want.take(k + 1) =~= want.take(k as int).push(c));
            }
            k = k + 1;
        }
        assert(want.take(count as int) =~= want);
        let trimmed = trim_end_chars(&line);
        let ghost before = out@;
        if i > 0 {
            crate::text::push_char(&mut out, '\n');
        }
        let piece = string_from_chars(&trimmed);
        crate::text::push_str_chars(&mut out, piece.as_str());
        proof {
            assert(lines[i as int] == trimmed_end(want));
            let t = lines.take(i + 1);
            assert(t.drop_last() =~= lines.take(i as int));
            assert(t.last() == lines[i as int]);
            if i == 0 {
                assert(t.len() == 1);
                assert(out@ =~= t[0]);
            } else {
                assert(out@ =~= before + seq!['\n'] + t.last());
            }
        }
        if row == end.0 {
            proof {
                assert(lines.take(i + 1) =~= lines);
            }
            return out;
        }
        row = row + 1;
        i = i + 1;
    }
    proof {
        assert(false);
    }
    out
}

/// `s` without trailing whitespace.
fn trim_end_chars(s: &Vec<char>) -> (t: Vec<char>)
    ensures
        t@ == trimmed_end(s@),
{
    let mut n = s.len();
    assert(s@.take(s@.len() as int) =~= s@);
    while n > 0 && is_whitespace(s[n - 1])
        invariant
            n <= s@.len(),
            trailing_ws(s@) == (s@.len() - n) + trailing_ws(s@.take(n as int)),
        decreases n,
    {
        proof {
            assert(s@.take(n as int).drop_last() =~= s@.take(n - 1));
            assert(s@.take(n as int).last() == s@[n - 1]);
        }
        n = n - 1;
    }
    proof {
        if n > 0 {
            assert(s@.take(n as int).last() == s@[n - 1]);
        }
        assert(trailing_ws(s@.take(n as int)) == 0);
    }
    let mut t: Vec<char> = Vec::new();
    let mut j: usize = 0;
    while j < n
        invariant
            j <= n <= s@.len(),
            t@ == s@.take(j as int),
        decreases n - j,
    {
        t.push(s[j]);
        proof {
            assert(s@.take(j + 1) =~= s@.take(j as int).push(s@[j as int]));
        }
        j = j + 1;
    }
    t
}


proof fn lemma_trailing_ws_bound(s: Seq<char>)
    ensures
        trailing_ws(s) <= s.len(),
    decreases s.len(),
{
    if s.len() > 0 {
        lemma_trailing_ws_bound(s.drop_last());
    }
}

/// Trimming keeps a prefix of the text that does not end in whitespace,
/// and everything it drops is whitespace.
pub proof fn lemma_trimmed_end(s: Seq<char>)
    ensures
        trimmed_end(s).len() <= s.len(),
        trimmed_end(s) == s.take(trimmed_end(s).len() as int),
        trimmed_end(s).len() == 0 || !spec_is_whitespace(trimmed_end(s).last()),
        forall|k: int| trimmed_end(s).len() <= k < s.len() ==> spec_is_whitespace(#[trigger] s[k]),
    decreases s.len(),
{
    lemma_trailing_ws_bound(s);
    if s.len() > 0 && spec_is_whitespace(s.last()) {
        let d = s.drop_last();
        lemma_trimmed_end(d);
        lemma_trailing_ws_bound(d);
        assert(trimmed_end(s) =~= trimmed_end(d));
        assert forall|k: int| trimmed_end(s).len() <= k < s.len() implies spec_is_whitespace(#[trigger] s[k]) by {
            if k < d.len() {
                assert(s[k] == d[k]);
            }
        }
    } else {
        assert(trimmed_end(s) =~= s);
    }
}

/// `n` blanks.
pub open spec fn spaces(n: nat) -> Seq<char> {
    Seq::new(n, |k: int| ' ')
}

/// Blanks after the text do not change what trimming keeps.
pub proof fn lemma_trim_ignores_trailing_spaces(x: Seq<char>, n: nat)
    ensures
        trimmed_end(x + spaces(n)) == trimmed_end(x),
    decreases n,
{
    lemma_trailing_ws_bound(x);
    if n == 0 {
        assert(x + spaces(0) =~= x);
    } else {
        let y = x + spaces(n);
        assert(y.last() == ' ');
        assert(spec_is_whitespace(' '));
        assert(y.drop_last() =~= x + spaces((n - 1) as nat));
        lemma_trim_ignores_trailing_spaces(x, (n - 1) as nat);
        lemma_trailing_ws_bound(y.drop_last());
        assert(trimmed_end(y) =~= trimmed_end(y.drop_last()));
    }
}

/// A selection copies the same text whichever end the drag started from,
/// and one line for each row from its first to its last.
pub proof fn lemma_selection_lines_shape(g: GridView, sel: Selection)
    ensures
        selection_lines(g, Selection { start: sel.end, end: sel.start }) == selection_lines(g, sel),
        selection_lines(g, sel).len() == ordered(sel).1.0 - ordered(sel).0.0 + 1,
{
    let rev = Selection { start: sel.end, end: sel.start };
    assert(ordered(rev) == ordered(sel));
    assert(selection_lines(g, rev) =~= selection_lines(g, sel));
}

/// Which columns of a row inside the selection's rows are selected: from
/// the start column on the first row (from 0 on the others), up to the end
/// column on the last row (to the end on the others).
pub proof fn lemma_selected_columns(sel: Selection, r: u16, c: u16)
    requires
        ordered(sel).0.0 <= r <= ordered(sel).1.0,
    ensures
        selected(sel, r, c) <==> ((r == ordered(sel).0.0 ==> ordered(sel).0.1 <= c) && (r == ordered(sel).1.0
            ==> c <= ordered(sel).1.1)),
{
}

/// The line a selection copies from one of its rows is exactly the selected
/// run of that row's cells, trailing blanks removed: when columns `c0` to
/// `c1` of the row are selected and the columns just outside them are not
/// (or are off the screen), the line is those cells. Rows between the first
/// and the last are thereby copied whole.
pub proof fn lemma_selection_copies_selected_cells(g: GridView, sel: Selection, i: int, c0: int, c1: int)
    requires
        0 <= i <= ordered(sel).1.0 - ordered(sel).0.0,
        0 <= c0 <= c1 < g.size.cols,
        forall|c: int| c0 <= c <= c1 ==> selected(sel, (ordered(sel).0.0 + i) as u16, #[trigger] (c as u16)),
        c0 == 0 || !selected(sel, (ordered(sel).0.0 + i) as u16, (c0 - 1) as u16),
        c1 == g.size.cols - 1 || !selected(sel, (ordered(sel).0.0 + i) as u16, (c1 + 1) as u16),
    ensures
        selection_lines(g, sel)[i] == trimmed_end(
            Seq::new((c1 - c0 + 1) as nat, |k: int| copied_char(g, ordered(sel).0.0 + i, c0 + k)),
        ),
{
    let (s, e) = ordered(sel);
    let r = s.0 + i;
    let ru = r as u16;
    let lo: int = if i == 0 { s.1 as int } else { 0 };
    let hi: int = if r == e.0 { e.1 as int } else { g.size.cols - 1 };
    lemma_selected_columns(sel, ru, c0 as u16);
    lemma_selected_columns(sel, ru, c1 as u16);
    assert(selected(sel, ru, c0 as u16));
    assert(selected(sel, ru, c1 as u16));
    if c0 > 0 {
        lemma_selected_columns(sel, ru, (c0 - 1) as u16);
    }
    if c1 < g.size.cols - 1 {
        lemma_selected_columns(sel, ru, (c1 + 1) as u16);
    }
    assert(c0 == lo);
    let want = Seq::new((c1 - c0 + 1) as nat, |k: int| copied_char(g, r, c0 + k));
    let got = row_chars(g, r, lo, hi);
    assert(selection_lines(g, sel)[i] == trimmed_end(got));
    if hi <= g.size.cols - 1 {
        assert(c1 == hi);
        assert(got =~= want);
    } else {
        assert(c1 == g.size.cols - 1);
        let n = (hi - c1) as nat;
        assert forall|k: int| 0 <= k < got.len() implies got[k] == (want + spaces(n))[k] by {
            if k >= want.len() {
                assert(!in_bounds(g.size, r, lo + k));
            }
        }
        assert(got =~= want + spaces(n));
        lemma_trim_ignores_trailing_spaces(want, n);
    }
}

/// A row of the selection with no selected cell on the screen (the first
/// row, when the selection starts past its end) copies as an empty line.
pub proof fn lemma_selection_row_without_cells(g: GridView, sel: Selection, i: int)
    requires
        0 <= i <= ordered(sel).1.0 - ordered(sel).0.0,
        forall|c: int| 0 <= c < g.size.cols ==> !selected(sel, (ordered(sel).0.0 + i) as u16, #[trigger] (c as u16)),
    ensures
        selection_lines(g, sel)[i] == Seq::<char>::empty(),
{
    let (s, e) = ordered(sel);
    let r = s.0 + i;
    let ru = r as u16;
    let last_col: int = if g.size.cols > 0 { g.size.cols - 1 } else { 0 };
    let lo: int = if i == 0 { s.1 as int } else { 0 };
    let hi: int = if r == e.0 { e.1 as int } else { last_col };
    let got = row_chars(g, r, lo, hi);
    assert(selection_lines(g, sel)[i] == trimmed_end(got));
    if lo < g.size.cols {
        let c: int = lo;
        lemma_selected_columns(sel, ru, c as u16);
        assert(!selected(sel, ru, c as u16));
        assert(hi < lo);
    }
    assert forall|k: int| 0 <= k < got.len() implies got[k] == spaces(got.len())[k] by {
        assert(!in_bounds(g.size, r, lo + k));
    }
    assert(got =~= Seq::<char>::empty() + spaces(got.len()));
    lemma_trim_ignores_trailing_spaces(Seq::<char>::empty(), got.len());
    assert(trimmed_end(Seq::<char>::empty()) =~= Seq::<char>::empty());
}


/// A cell's place in reading order: rows first, then columns.
pub open spec fn reading_position(row: u16, col: u16) -> int {
    row * 0x10000 + col
}

/// A cell is selected exactly when it lies between the two ends of the
/// selection in reading order, both ends included, whichever end came first.
pub proof fn lemma_selected_between_ends(sel: Selection, row: u16, col: u16)
    ensures
        selected(sel, row, col) <==> ({
            let a = reading_position(sel.start.0, sel.start.1);
            let b = reading_position(sel.end.0, sel.end.1);
            let p = reading_position(row, col);
            (a <= p <= b) || (b <= p <= a)
        }),
{
    assert forall|r1: u16, c1: u16, r2: u16, c2: u16|
        reading_le((r1, c1), (r2, c2)) <==> reading_position(r1, c1) <= reading_position(r2, c2) by {
        if r1 < r2 {
            assert(r1 * 0x10000 + 0x10000 <= r2 * 0x10000) by (nonlinear_arith)
                requires
                    r1 < r2,
            ;
        } else if r1 > r2 {
            assert(r2 * 0x10000 + 0x10000 <= r1 * 0x10000) by (nonlinear_arith)
                requires
                    r2 < r1,
            ;
        }
    }
    assert(reading_le(sel.start, (row, col)) <==> reading_position(sel.start.0, sel.start.1) <= reading_position(row, col));
    assert(reading_le((row, col), sel.end) <==> reading_position(row, col) <= reading_position(sel.end.0, sel.end.1));
    assert(reading_le(sel.end, (row, col)) <==> reading_position(sel.end.0, sel.end.1) <= reading_position(row, col));
    assert(reading_le((row, col), sel.start) <==> reading_position(row, col) <= reading_position(sel.start.0, sel.start.1));
    assert(reading_le(sel.start, sel.end) <==> reading_position(sel.start.0, sel.start.1) <= reading_position(sel.end.0, sel.end.1));
}


/// Joining two runs of lines is joining each and putting a line break
/// between them: the copied text has exactly one `\n` between two
/// consecutive lines.
pub proof fn lemma_join_lines_split(ls: Seq<Seq<char>>, ms: Seq<Seq<char>>)
    requires
        ls.len() > 0,
        ms.len() > 0,
    ensures
        join_lines(ls + ms) == join_lines(ls) + seq!['\n'] + join_lines(ms),
    decreases ms.len(),
{
    if ms.len() == 1 {
        assert((ls + ms).drop_last() =~= ls);
        assert((ls + ms).last() == ms[0]);
    } else {
        let m0 = ms.drop_last();
        lemma_join_lines_split(ls, m0);
        assert((ls + ms).drop_last() =~= ls + m0);
        assert((ls + ms).last() == ms.last());
    }
}

/// A single line is copied as it is.
pub proof fn lemma_join_single_line(l: Seq<char>)
    ensures
        join_lines(seq![l]) == l,
{
}

} // verus!
