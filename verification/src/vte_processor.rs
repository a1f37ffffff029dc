//! The effect of parsed escape sequences on a terminal: printed characters,
//! C0 controls, OSC title changes, CSI cursor/erase/mode sequences and SGR
//! attribute changes. Byte-level parsing into these actions is done by the
//! `vte` crate's state machine, whose callbacks forward here.
use vstd::prelude::*;

use crate::terminal::{
    blank_cell, blanks, default_attrs, in_bounds, lemma_blank_where_compose,
    lemma_blank_where_congruent, lemma_blank_where_empty, lemma_index_compose, cell_index, CursorPos, CellAttrs, CursorStyle, GridView, TermColor, Terminal,
    TerminalView,
};
use crate::text::{bytes_to_string, decode_utf8_bytes, utf8_is_valid};

verus! {

/// First parameter, or 0 when there is none.
pub open spec fn first_param(ps: Seq<u16>) -> u16 {
    if ps.len() > 0 {
        ps[0]
    } else {
        0
    }
}

/// A repeat count: the first parameter, at least 1.
pub open spec fn count_param(ps: Seq<u16>) -> u16 {
    if first_param(ps) > 1 {
        first_param(ps)
    } else {
        1
    }
}

pub open spec fn sat_sub(a: u16, b: u16) -> u16 {
    if a >= b {
        (a - b) as u16
    } else {
        0
    }
}

pub open spec fn min16(a: int, b: int) -> u16 {
    (if a < b {
        a
    } else {
        b
    }) as u16
}

/// Effect of a printed character.
pub open spec fn print_effect(t: TerminalView, c: char) -> TerminalView {
    t.write_char(c)
}

/// Effect of a C0 control byte: BS, HT, LF/VT/FF and CR move the cursor,
/// everything else (including BEL) is ignored.
pub open spec fn execute_effect(t: TerminalView, byte: u8) -> TerminalView {
    if byte == 0x08 {
        t.write_char('\x08')
    } else if byte == 0x09 {
        t.write_char('\t')
    } else if byte == 0x0a || byte == 0x0b || byte == 0x0c {
        t.write_char('\n')
    } else if byte == 0x0d {
        t.write_char('\r')
    } else {
        t
    }
}

pub open spec fn execute_ok(t: TerminalView, byte: u8) -> bool {
    byte == 0x09 ==> t.write_char_ok('\t')
}

/// Effect of an OSC sequence: `OSC 0` and `OSC 2` with a UTF-8 payload set
/// the title; anything else is ignored.
pub open spec fn osc_effect(t: TerminalView, params: Seq<Seq<u8>>) -> TerminalView {
    if params.len() >= 2 && (params[0] == seq![0x30u8] || params[0] == seq![0x32u8])
        && utf8_is_valid(params[1]) {
        TerminalView { title: decode_utf8_bytes(params[1]), ..t }
    } else {
        t
    }
}

/// One step of SGR parameter interpretation at position `i`: the new
/// attributes and the position of the next parameter.
pub open spec fn sgr_step(a: CellAttrs, ps: Seq<u16>, i: int) -> (CellAttrs, int) {
    let p = ps[i];
    if p == 0 {
        (default_attrs(), i + 1)
    } else if p == 1 {
        (CellAttrs { bold: true, ..a }, i + 1)
    } else if p == 3 {
        (CellAttrs { italic: true, ..a }, i + 1)
    } else if p == 4 {
        (CellAttrs { underline: true, ..a }, i + 1)
    } else if p == 5 {
        (CellAttrs { blink: true, ..a }, i + 1)
    } else if p == 7 {
        (CellAttrs { reverse: true, ..a }, i + 1)
    } else if p == 8 {
        (CellAttrs { hidden: true, ..a }, i + 1)
    } else if p == 9 {
        (CellAttrs { strikethrough: true, ..a }, i + 1)
    } else if p == 22 {
        (CellAttrs { bold: false, ..a }, i + 1)
    } else if p == 23 {
        (CellAttrs { italic: false, ..a }, i + 1)
    } else if p == 24 {
        (CellAttrs { underline: false, ..a }, i + 1)
    } else if p == 25 {
        (CellAttrs { blink: false, ..a }, i + 1)
    } else if p == 27 {
        (CellAttrs { reverse: false, ..a }, i + 1)
    } else if p == 28 {
        (CellAttrs { hidden: false, ..a }, i + 1)
    } else if p == 29 {
        (CellAttrs { strikethrough: false, ..a }, i + 1)
    } else if 30 <= p <= 37 {
        (CellAttrs { fg: TermColor::Indexed((p - 30) as u8), ..a }, i + 1)
    } else if p == 39 {
        (CellAttrs { fg: TermColor::Default, ..a }, i + 1)
    } else if 40 <= p <= 47 {
        (CellAttrs { bg: TermColor::Indexed((p - 40) as u8), ..a }, i + 1)
    } else if p == 49 {
        (CellAttrs { bg: TermColor::Default, ..a }, i + 1)
    } else if 90 <= p <= 97 {
        (CellAttrs { fg: TermColor::Indexed((p - 90 + 8) as u8), ..a }, i + 1)
    } else if 100 <= p <= 107 {
        (CellAttrs { bg: TermColor::Indexed((p - 100 + 8) as u8), ..a }, i + 1)
    } else if p == 38 && i + 2 < ps.len() && ps[i + 1] == 5 {
        (CellAttrs { fg: TermColor::Indexed(low_byte(ps[i + 2])), ..a }, i + 3)
    } else if p == 48 && i + 2 < ps.len() && ps[i + 1] == 5 {
        (CellAttrs { bg: TermColor::Indexed(low_byte(ps[i + 2])), ..a }, i + 3)
    } else if p == 38 && i + 4 < ps.len() && ps[i + 1] == 2 {
        (
            CellAttrs {
                fg: TermColor::Rgb(low_byte(ps[i + 2]), low_byte(ps[i + 3]), low_byte(ps[i + 4])),
                ..a
            },
            i + 5,
        )
    } else if p == 48 && i + 4 < ps.len() && ps[i + 1] == 2 {
        (
            CellAttrs {
                bg: TermColor::Rgb(low_byte(ps[i + 2]), low_byte(ps[i + 3]), low_byte(ps[i + 4])),
                ..a
            },
            i + 5,
        )
    } else {
        (a, i + 1)
    }
}

/// The low 8 bits of a parameter (what a cast to `u8` keeps).
pub open spec fn low_byte(p: u16) -> u8 {
    (p % 256) as u8
}

/// Attributes after interpreting the SGR parameters from position `i` on.
pub open spec fn sgr_from(a: CellAttrs, ps: Seq<u16>, i: int) -> CellAttrs
    decreases ps.len() - i,
{
    if 0 <= i < ps.len() {
        let (a2, j) = sgr_step(a, ps, i);
        if j > i {
            sgr_from(a2, ps, j)
        } else {
            a2
        }
    } else {
        a
    }
}

/// Attributes after a whole SGR sequence; an empty list or a lone 0 resets.
pub open spec fn sgr_effect(a: CellAttrs, ps: Seq<u16>) -> CellAttrs {
    if ps.len() == 0 || ps == seq![0u16] {
        default_attrs()
    } else {
        sgr_from(a, ps, 0)
    }
}

/// Effect of one DEC private mode parameter being set or reset.
pub open spec fn mode_effect(t: TerminalView, p: u16, set: bool) -> TerminalView {
    if p == 25 {
        TerminalView { cursor_visible: set, ..t }
    } else if p == 47 || p == 1047 || p == 1049 {
        if set {
            t.entered_alt()
        } else {
            t.left_alt()
        }
    } else {
        t
    }
}

/// Effect of a list of mode parameters, applied in order.
pub open spec fn modes_effect(t: TerminalView, ps: Seq<u16>, set: bool) -> TerminalView
    decreases ps.len(),
{
    if ps.len() == 0 {
        t
    } else {
        mode_effect(modes_effect(t, ps.drop_last(), set), ps.last(), set)
    }
}

/// The region blanked by `ED` (erase in display) with the given mode.
pub open spec fn erase_display_region(t: TerminalView, mode: u16) -> spec_fn(int, int) -> bool {
    let row = t.cursor.row as int;
    let col = t.cursor.col as int;
    if mode == 0 {
        |r: int, c: int| r > row || (r == row && c >= col)
    } else {
        |r: int, c: int| r < row || (r == row && c < col)
    }
}

/// The region blanked by `EL` (erase in line) with the given mode.
pub open spec fn erase_line_region(t: TerminalView, mode: u16) -> spec_fn(int, int) -> bool {
    let row = t.cursor.row as int;
    let col = t.cursor.col as int;
    if mode == 0 {
        |r: int, c: int| r == row && c >= col
    } else if mode == 1 {
        |r: int, c: int| r == row && c <= col
    } else {
        |r: int, c: int| r == row
    }
}

pub open spec fn with_grid(t: TerminalView, g: GridView) -> TerminalView {
    TerminalView { grid: g, ..t }
}

/// Whether a CSI sequence stays within `u16` cursor arithmetic: cursor down
/// and forward add the count to the current coordinate.
pub open spec fn csi_ok(t: TerminalView, ps: Seq<u16>, action: char) -> bool {
    &&& action == 'B' ==> t.cursor.row + count_param(ps) <= 0xffff
    &&& action == 'C' ==> t.cursor.col + count_param(ps) <= 0xffff
}

/// Effect of a CSI sequence with the given parameters and final character.
pub open spec fn csi_effect(t: TerminalView, ps: Seq<u16>, action: char) -> TerminalView {
    let p0 = first_param(ps);
    let n = count_param(ps);
    let row = t.cursor.row;
    let col = t.cursor.col;
    if action == 'A' {
        t.placed(sat_sub(row, n), col)
    } else if action == 'B' {
        t.placed(min16(row + n, sat_sub(t.grid.size.rows, 1) as int), col)
    } else if action == 'C' {
        t.placed(row, min16(col + n, sat_sub(t.grid.size.cols, 1) as int))
    } else if action == 'D' {
        t.placed(row, sat_sub(col, n))
    } else if action == 'H' || action == 'f' {
        let p1 = if ps.len() > 1 {
            ps[1]
        } else {
            1
        };
        t.placed(sat_sub(p0, 1), sat_sub(p1, 1))
    } else if action == 'J' {
        if p0 == 0 || p0 == 1 {
            with_grid(t, t.grid.blank_where(erase_display_region(t, p0)))
        } else if p0 == 2 || p0 == 3 {
            t.cleared()
        } else {
            t
        }
    } else if action == 'K' {
        if p0 <= 2 {
            with_grid(t, t.grid.blank_where(erase_line_region(t, p0)))
        } else {
            t
        }
    } else if action == 'm' {
        TerminalView { attrs: sgr_effect(t.attrs, ps), ..t }
    } else if action == 'h' || action == 'l' {
        modes_effect(t, ps, action == 'h')
    } else if action == 'q' {
        if p0 <= 2 {
            TerminalView { cursor_style: CursorStyle::Block, ..t }
        } else if p0 <= 4 {
            TerminalView { cursor_style: CursorStyle::Underline, ..t }
        } else if p0 <= 6 {
            TerminalView { cursor_style: CursorStyle::Bar, ..t }
        } else {
            t
        }
    } else {
        t
    }
}

/// A printable character reported by the parser.
pub fn print(terminal: &mut Terminal, c: char)
    requires
        old(terminal).wf(),
        old(terminal)@.write_char_ok(c),
    ensures
        final(terminal).wf(),
        final(terminal)@ == print_effect(old(terminal)@, c),
{
    terminal.write_char(c);
}

/// A C0 control byte reported by the parser.
pub fn execute(terminal: &mut Terminal, byte: u8)
    requires
        old(terminal).wf(),
        execute_ok(old(terminal)@, byte),
    ensures
        final(terminal).wf(),
        final(terminal)@ == execute_effect(old(terminal)@, byte),
{
    if byte == 0x07 {
    } else if byte == 0x08 {
        terminal.write_char('\x08');
    } else if byte == 0x09 {
        terminal.write_char('\t');
    } else if byte == 0x0A || byte == 0x0B || byte == 0x0C {
        terminal.write_char('\n');
    } else if byte == 0x0D {
        terminal.write_char('\r');
    }
}

/// An OSC sequence reported by the parser, as its `;`-separated parameters.
pub fn osc_dispatch(terminal: &mut Terminal, params: &Vec<Vec<u8>>)
    requires
        old(terminal).wf(),
    ensures
        final(terminal).wf(),
        final(terminal)@ == osc_effect(old(terminal)@, params@.map_values(|p: Vec<u8>| p@)),
{
    let ghost ps = params@.map_values(|p: Vec<u8>| p@);
    if params.len() >= 2 {
        let first = &params[0];
        let is_title = first.len() == 1 && (first[0] == 0x30 || first[0] == 0x32);
        proof {
            assert(ps[0] == first@);
            if first@.len() == 1 {
                assert(first@ == seq![first@[0]]);
            }
        }
        if is_title {
            match bytes_to_string(params[1].as_slice()) {
                Some(title) => {
                    terminal.set_title(title);
                },
                None => {},
            }
        }
    }
}

/// Apply an SGR (select graphic rendition) parameter list to the current
/// attributes.
pub fn apply_sgr(terminal: &mut Terminal, params: &[u16])
    requires
        old(terminal).wf(),
    ensures
        final(terminal).wf(),
        final(terminal)@ == (TerminalView {
            attrs: sgr_effect(old(terminal)@.attrs, params@),
            ..old(terminal)@
        }),
{
    if params.len() == 0 || (params.len() == 1 && params[0] == 0) {
        proof {
            if params@.len() == 1 {
                assert(params@ == seq![params@[0]]);
            }
        }
        terminal.reset_attrs();
        return ;
    }
    let ghost ps = params@;
    let mut attrs = *terminal.current_attrs();
    let ghost start = attrs;
    let mut i: usize = 0;
    while i < params.len()
        invariant
            ps == params@,
            i <= ps.len(),
            sgr_from(attrs, ps, i as int) == sgr_from(start, ps, 0),
        decreases params.len() - i,
    {
        let p = params[i];
        let len = params.len();
        if p == 0 {
            attrs = CellAttrs::default();
        } else if p == 1 {
            attrs.bold = true;
        } else if p == 3 {
            attrs.italic = true;
        } else if p == 4 {
            attrs.underline = true;
        } else if p == 5 {
            attrs.blink = true;
        } else if p == 7 {
            attrs.reverse = true;
        } else if p == 8 {
            attrs.hidden = true;
        } else if p == 9 {
            attrs.strikethrough = true;
        } else if p == 22 {
            attrs.bold = false;
        } else if p == 23 {
            attrs.italic = false;
        } else if p == 24 {
            attrs.underline = false;
        } else if p == 25 {
            attrs.blink = false;
        } else if p == 27 {
            attrs.reverse = false;
        } else if p == 28 {
            attrs.hidden = false;
        } else if p == 29 {
            attrs.strikethrough = false;
        } else if 30 <= p && p <= 37 {
            attrs.fg = TermColor::Indexed((p - 30) as u8);
        } else if p == 39 {
            attrs.fg = TermColor::Default;
        } else if 40 <= p && p <= 47 {
            attrs.bg = TermColor::Indexed((p - 40) as u8);
        } else if p == 49 {
            attrs.bg = TermColor::Default;
        } else if 90 <= p && p <= 97 {
            attrs.fg = TermColor::Indexed((p - 90 + 8) as u8);
        } else if 100 <= p && p <= 107 {
            attrs.bg = TermColor::Indexed((p - 100 + 8) as u8);
        } else if p == 38 && len - i > 2 && params[i + 1] == 5 {
            attrs.fg = TermColor::Indexed((params[i + 2] % 256) as u8);
            i = i + 2;
        } else if p == 48 && len - i > 2 && params[i + 1] == 5 {
            attrs.bg = TermColor::Indexed((params[i + 2] % 256) as u8);
            i = i + 2;
        } else if p == 38 && len - i > 4 && params[i + 1] == 2 {
            attrs.fg = TermColor::Rgb(
                (params[i + 2] % 256) as u8,
                (params[i + 3] % 256) as u8,
                (params[i + 4] % 256) as u8,
            );
            i = i + 4;
        } else if p == 48 && len - i > 4 && params[i + 1] == 2 {
            attrs.bg = TermColor::Rgb(
                (params[i + 2] % 256) as u8,
                (params[i + 3] % 256) as u8,
                (params[i + 4] % 256) as u8,
            );
            i = i + 4;
        }
        i = i + 1;
    }
    terminal.set_attrs(attrs);
}

/// Blank the region of the screen selected by `f`, row by row from `first`
/// up to (excluding) `last`, each row from column `from(row)` to `to(row)`.
fn erase_display(terminal: &mut Terminal, mode: u16)
    requires
        old(terminal).wf(),
        mode == 0 || mode == 1,
    ensures
        final(terminal).wf(),
        final(terminal)@ == with_grid(
            old(terminal)@,
            old(terminal)@.grid.blank_where(erase_display_region(old(terminal)@, mode)),
        ),
{
    let cursor = terminal.cursor();
    let size = terminal.size();
    let ghost t0 = terminal@;
    let ghost g0 = t0.grid;
    if mode == 0 {
        let mut row = cursor.row;
        proof {
            lemma_blank_where_empty(
                g0,
                |r: int, c: int| cursor.row <= r < row && (r == cursor.row ==> c >= cursor.col),
            );
            assert(terminal@ =~= with_grid(t0, g0));
        }
        while row < size.rows
            invariant
                terminal.wf(),
                t0 == old(terminal)@,
                size == g0.size,
                cursor == t0.cursor,
                cursor.row <= row || row >= size.rows,
                terminal@ == with_grid(
                    t0,
                    g0.blank_where(
                        |r: int, c: int|
                            cursor.row <= r < row && (r == cursor.row ==> c >= cursor.col),
                    ),
                ),
            decreases size.rows - row,
        {
            let start_col = if row == cursor.row {
                cursor.col
            } else {
                0
            };
            let ghost before = terminal@.grid;
            let grid = terminal.grid_mut();
            grid.blank_span(row, start_col, size.cols);
            proof {
                lemma_blank_where_compose(
                    g0,
                    |r: int, c: int| cursor.row <= r < row && (r == cursor.row ==> c >= cursor.col),
                    |r: int, c: int| r == row && start_col <= c < size.cols,
                );
                lemma_blank_where_congruent(
                    g0,
                    |r: int, c: int|
                        (cursor.row <= r < row && (r == cursor.row ==> c >= cursor.col)) || (r
                            == row && start_col <= c < size.cols),
                    |r: int, c: int|
                        cursor.row <= r < row + 1 && (r == cursor.row ==> c >= cursor.col),
                );
            }
            row = row + 1;
        }
        proof {
            lemma_blank_where_congruent(
                g0,
                |r: int, c: int| cursor.row <= r < row && (r == cursor.row ==> c >= cursor.col),
                erase_display_region(t0, mode),
            );
        }
    } else {
        let mut row: u32 = 0;
        proof {
            lemma_blank_where_empty(
                g0,
                |r: int, c: int| r < row && (r == cursor.row ==> c < cursor.col) && c < size.cols,
            );
            assert(terminal@ =~= with_grid(t0, g0));
        }
        while row <= cursor.row as u32
            invariant
                terminal.wf(),
                t0 == old(terminal)@,
                size == g0.size,
                cursor == t0.cursor,
                row <= cursor.row + 1,
                terminal@ == with_grid(
                    t0,
                    g0.blank_where(
                        |r: int, c: int|
                            r < row && (r == cursor.row ==> c < cursor.col) && c < size.cols,
                    ),
                ),
            decreases cursor.row + 1 - row,
        {
            let end_col = if row == cursor.row as u32 {
                cursor.col
            } else {
                size.cols
            };
            let grid = terminal.grid_mut();
            grid.blank_span(row as u16, 0, end_col);
            proof {
                lemma_blank_where_compose(
                    g0,
                    |r: int, c: int| r < row && (r == cursor.row ==> c < cursor.col) && c < size.cols,
                    |r: int, c: int| r == row as u16 && 0 <= c < end_col,
                );
                lemma_blank_where_congruent(
                    g0,
                    |r: int, c: int|
                        (r < row && (r == cursor.row ==> c < cursor.col) && c < size.cols) || (r
                            == row as u16 && 0 <= c < end_col),
                    |r: int, c: int|
                        r < row + 1 && (r == cursor.row ==> c < cursor.col) && c < size.cols,
                );
            }
            row = row + 1;
        }
        proof {
            lemma_blank_where_congruent(
                g0,
                |r: int, c: int| r < row && (r == cursor.row ==> c < cursor.col) && c < size.cols,
                erase_display_region(t0, mode),
            );
        }
    }
}

/// Apply a CSI sequence: cursor movement (`A`–`D`, `H`/`f`), erase in
/// display/line (`J`, `K`), SGR (`m`), mode set/reset (`h`/`l`) and cursor
/// style (`q`). Other final characters are ignored.
pub fn csi_dispatch(terminal: &mut Terminal, params: &[u16], action: char)
    requires
        old(terminal).wf(),
        csi_ok(old(terminal)@, params@, action),
    ensures
        final(terminal).wf(),
        final(terminal)@ == csi_effect(old(terminal)@, params@, action),
{
    let p0 = if params.len() > 0 {
        params[0]
    } else {
        0
    };
    let n = if p0 > 1 {
        p0
    } else {
        1
    };
    if action == 'A' {
        let cursor = terminal.cursor();
        terminal.set_cursor(cursor.row.saturating_sub(n), cursor.col);
    } else if action == 'B' {
        let cursor = terminal.cursor();
        let max_row = terminal.size().rows.saturating_sub(1);
        let target = cursor.row + n;
        terminal.set_cursor(if target < max_row { target } else { max_row }, cursor.col);
    } else if action == 'C' {
        let cursor = terminal.cursor();
        let max_col = terminal.size().cols.saturating_sub(1);
        let target = cursor.col + n;
        terminal.set_cursor(cursor.row, if target < max_col { target } else { max_col });
    } else if action == 'D' {
        let cursor = terminal.cursor();
        terminal.set_cursor(cursor.row, cursor.col.saturating_sub(n));
    } else if action == 'H' || action == 'f' {
        let row = p0.saturating_sub(1);
        let p1 = if params.len() > 1 {
            params[1]
        } else {
            1
        };
        let col = p1.saturating_sub(1);
        terminal.set_cursor(row, col);
    } else if action == 'J' {
        if p0 == 0 || p0 == 1 {
            erase_display(terminal, p0);
        } else if p0 == 2 || p0 == 3 {
            terminal.clear();
        }
    } else if action == 'K' {
        let cursor = terminal.cursor();
        let size = terminal.size();
        let ghost t0 = terminal@;
        if p0 == 0 {
            terminal.grid_mut().blank_span(cursor.row, cursor.col, size.cols);
            proof {
                lemma_blank_where_congruent(
                    t0.grid,
                    |r: int, c: int| r == cursor.row && cursor.col <= c < size.cols,
                    erase_line_region(t0, p0),
                );
            }
        } else if p0 == 1 {
            terminal.grid_mut().blank_span(cursor.row, 0, cursor.col + 1);
            proof {
                lemma_blank_where_congruent(
                    t0.grid,
                    |r: int, c: int| r == cursor.row && 0 <= c < cursor.col + 1,
                    erase_line_region(t0, p0),
                );
            }
        } else if p0 == 2 {
            terminal.grid_mut().blank_span(cursor.row, 0, size.cols);
            proof {
                lemma_blank_where_congruent(
                    t0.grid,
                    |r: int, c: int| r == cursor.row && 0 <= c < size.cols,
                    erase_line_region(t0, p0),
                );
            }
        }
    } else if action == 'm' {
        apply_sgr(terminal, params);
    } else if action == 'h' || action == 'l' {
        let set = action == 'h';
        let ghost t0 = terminal@;
        let mut i: usize = 0;
        while i < params.len()
            invariant
                terminal.wf(),
                i <= params@.len(),
                terminal@ == modes_effect(t0, params@.take(i as int), set),
            decreases params.len() - i,
        {
            let p = params[i];
            if p == 25 {
                terminal.set_cursor_visible(set);
            } else if p == 47 || p == 1047 || p == 1049 {
                if set {
                    terminal.enter_alt_screen();
                } else {
                    terminal.leave_alt_screen();
                }
            }
            proof {
                assert(params@.take(i + 1).drop_last() =~= params@.take(i as int));
            }
            i = i + 1;
        }
        assert(params@.take(params@.len() as int) =~= params@);
    } else if action == 'q' {
        if p0 <= 2 {
            terminal.set_cursor_style(CursorStyle::Block);
        } else if p0 <= 4 {
            terminal.set_cursor_style(CursorStyle::Underline);
        } else if p0 <= 6 {
            terminal.set_cursor_style(CursorStyle::Bar);
        }
    }
}


/// What one SGR parameter does to the attributes, for every parameter that
/// stands alone: 0 resets everything; 1, 3, 4, 5, 7, 8 and 9 turn bold,
/// italic, underline, blink, reverse, hidden and strikethrough on, and 22 to
/// 29 turn them off again; 30-37 pick one of the eight standard foreground
/// colours and 40-47 the same for the background, 90-97 and 100-107 the
/// bright ones (colours 8-15); 39 and 49 return foreground and background to
/// the default. Every other field stays as it was, and an unknown
/// parameter changes nothing.
pub proof fn lemma_sgr_single_parameter(a: CellAttrs, p: u16)
    requires
        p != 38 && p != 48,
    ensures
        p == 0 ==> sgr_effect(a, seq![p]) == default_attrs(),
        p == 1 ==> sgr_effect(a, seq![p]) == (CellAttrs { bold: true, ..a }),
        p == 3 ==> sgr_effect(a, seq![p]) == (CellAttrs { italic: true, ..a }),
        p == 4 ==> sgr_effect(a, seq![p]) == (CellAttrs { underline: true, ..a }),
        p == 5 ==> sgr_effect(a, seq![p]) == (CellAttrs { blink: true, ..a }),
        p == 7 ==> sgr_effect(a, seq![p]) == (CellAttrs { reverse: true, ..a }),
        p == 8 ==> sgr_effect(a, seq![p]) == (CellAttrs { hidden: true, ..a }),
        p == 9 ==> sgr_effect(a, seq![p]) == (CellAttrs { strikethrough: true, ..a }),
        p == 22 ==> sgr_effect(a, seq![p]) == (CellAttrs { bold: false, ..a }),
        p == 23 ==> sgr_effect(a, seq![p]) == (CellAttrs { italic: false, ..a }),
        p == 24 ==> sgr_effect(a, seq![p]) == (CellAttrs { underline: false, ..a }),
        p == 25 ==> sgr_effect(a, seq![p]) == (CellAttrs { blink: false, ..a }),
        p == 27 ==> sgr_effect(a, seq![p]) == (CellAttrs { reverse: false, ..a }),
        p == 28 ==> sgr_effect(a, seq![p]) == (CellAttrs { hidden: false, ..a }),
        p == 29 ==> sgr_effect(a, seq![p]) == (CellAttrs { strikethrough: false, ..a }),
        30 <= p <= 37 ==> sgr_effect(a, seq![p]) == (CellAttrs { fg: TermColor::Indexed((p - 30) as u8), ..a }),
        p == 39 ==> sgr_effect(a, seq![p]) == (CellAttrs { fg: TermColor::Default, ..a }),
        40 <= p <= 47 ==> sgr_effect(a, seq![p]) == (CellAttrs { bg: TermColor::Indexed((p - 40) as u8), ..a }),
        p == 49 ==> sgr_effect(a, seq![p]) == (CellAttrs { bg: TermColor::Default, ..a }),
        90 <= p <= 97 ==> sgr_effect(a, seq![p]) == (CellAttrs { fg: TermColor::Indexed((p - 82) as u8), ..a }),
        100 <= p <= 107 ==> sgr_effect(a, seq![p]) == (CellAttrs { bg: TermColor::Indexed((p - 92) as u8), ..a }),
        sgr_known(p) || sgr_effect(a, seq![p]) == a,
{
    reveal_with_fuel(sgr_from, 2);
    let ps = seq![p];
    if p == 0 {
        assert(ps == seq![0u16]);
    } else {
        assert(ps != seq![0u16]);
    }
}

/// The parameters that stand alone and change something.
pub open spec fn sgr_known(p: u16) -> bool {
    p == 0 || p == 1 || (3 <= p <= 5) || p == 7 || p == 8 || p == 9 || (22 <= p <= 25) || (27 <= p <= 29) || (30
        <= p <= 37) || p == 39 || (40 <= p <= 47) || p == 49 || (90 <= p <= 97) || (100 <= p <= 107)
}

/// The attributes a reset gives: no flag set, default colours.
pub proof fn lemma_reset_attrs_are_plain()
    ensures
        !default_attrs().bold && !default_attrs().italic && !default_attrs().underline && !default_attrs().blink,
        !default_attrs().reverse && !default_attrs().hidden && !default_attrs().strikethrough,
        default_attrs().fg == TermColor::Default && default_attrs().bg == TermColor::Default,
{
}

/// An empty SGR sequence (`ESC [ m`) resets the attributes.
pub proof fn lemma_sgr_empty_resets(a: CellAttrs)
    ensures
        sgr_effect(a, Seq::<u16>::empty()) == default_attrs(),
{
}

/// Extended colours: `38;5;n` and `48;5;n` pick palette entry `n` (its low
/// byte) for the foreground and the background; `38;2;r;g;b` and
/// `48;2;r;g;b` pick a 24-bit colour. The other side and every flag are
/// left alone.
pub proof fn lemma_sgr_extended_colours(a: CellAttrs, n: u16, r: u16, g: u16, b: u16)
    ensures
        sgr_effect(a, seq![38u16, 5u16, n]) == (CellAttrs { fg: TermColor::Indexed((n % 256) as u8), ..a }),
        sgr_effect(a, seq![48u16, 5u16, n]) == (CellAttrs { bg: TermColor::Indexed((n % 256) as u8), ..a }),
        sgr_effect(a, seq![38u16, 2u16, r, g, b]) == (CellAttrs {
            fg: TermColor::Rgb((r % 256) as u8, (g % 256) as u8, (b % 256) as u8),
            ..a
        }),
        sgr_effect(a, seq![48u16, 2u16, r, g, b]) == (CellAttrs {
            bg: TermColor::Rgb((r % 256) as u8, (g % 256) as u8, (b % 256) as u8),
            ..a
        }),
{
    reveal_with_fuel(sgr_from, 2);
    assert(seq![38u16, 5u16, n] != seq![0u16]);
    assert(seq![48u16, 5u16, n] != seq![0u16]);
    assert(seq![38u16, 2u16, r, g, b] != seq![0u16]);
    assert(seq![48u16, 2u16, r, g, b] != seq![0u16]);
}

/// Parameters that stand alone (all but 38 and 48) take effect one after
/// the other: a sequence ending in `q` does what the sequence without it
/// does, followed by `q` on its own.
pub proof fn lemma_sgr_parameters_in_order(a: CellAttrs, ps: Seq<u16>, q: u16)
    requires
        ps.len() > 0,
        forall|k: int| 0 <= k < ps.len() ==> #[trigger] ps[k] != 38 && ps[k] != 48,
        q != 38 && q != 48,
    ensures
        sgr_effect(a, ps.push(q)) == sgr_effect(sgr_effect(a, ps), seq![q]),
{
    lemma_sgr_from_push(a, ps, q, 0);
    reveal_with_fuel(sgr_from, 2);
    if ps == seq![0u16] {
        assert(sgr_from(a, ps, 0) == default_attrs());
    }
    assert(ps.push(q).len() >= 2);
    assert(ps.push(q) != seq![0u16]);
    let x = sgr_effect(a, ps);
    if q == 0 {
        assert(seq![q] == seq![0u16]);
        assert(sgr_step(x, seq![q], 0).0 == default_attrs());
    } else {
        assert(seq![q] != seq![0u16]);
    }
}

proof fn lemma_sgr_from_push(a: CellAttrs, ps: Seq<u16>, q: u16, i: int)
    requires
        0 <= i <= ps.len(),
        forall|k: int| 0 <= k < ps.len() ==> #[trigger] ps[k] != 38 && ps[k] != 48,
        q != 38 && q != 48,
    ensures
        sgr_from(a, ps.push(q), i) == sgr_step(sgr_from(a, ps, i), seq![q], 0).0,
    decreases ps.len() - i,
{
    let qs = ps.push(q);
    if i == ps.len() {
        assert(qs[i] == q);
        assert(sgr_step(a, qs, i).1 == i + 1);
        assert(sgr_step(a, qs, i).0 == sgr_step(a, seq![q], 0).0);
        assert(sgr_from(sgr_step(a, qs, i).0, qs, i + 1) == sgr_step(a, qs, i).0);
    } else {
        assert(qs[i] == ps[i]);
        assert(ps[i] != 38 && ps[i] != 48);
        assert(sgr_step(a, qs, i) == sgr_step(a, ps, i));
        let a2 = sgr_step(a, ps, i).0;
        assert(sgr_step(a, ps, i).1 == i + 1);
        lemma_sgr_from_push(a2, ps, q, i + 1);
    }
}


/// The row or column a 1-based CUP coordinate lands on: `v - 1`, with 0 read
/// as 1 and anything past the screen clamped to its last line.
pub open spec fn cup_target(v: u16, n: u16) -> int {
    if v == 0 {
        0
    } else if v > n {
        n - 1
    } else {
        v - 1
    }
}

/// `CSI r ; c H` (and `f`) moves the cursor to row `r`, column `c`, counted
/// from 1: the first parameter is the row, the second the column. A missing
/// or zero coordinate is 1, a coordinate past the screen lands on its last
/// row or column, and nothing but the cursor changes.
pub proof fn lemma_csi_cursor_position(t: TerminalView, r: u16, c: u16)
    requires
        t.grid.size.rows >= 1,
        t.grid.size.cols >= 1,
    ensures
        csi_effect(t, seq![r, c], 'H').cursor.row == cup_target(r, t.grid.size.rows),
        csi_effect(t, seq![r, c], 'H').cursor.col == cup_target(c, t.grid.size.cols),
        csi_effect(t, seq![r, c], 'H') == (TerminalView { cursor: csi_effect(t, seq![r, c], 'H').cursor, ..t }),
        1 <= r <= t.grid.size.rows && 1 <= c <= t.grid.size.cols ==> csi_effect(t, seq![r, c], 'H').cursor == (
        CursorPos { row: (r - 1) as u16, col: (c - 1) as u16 }),
        csi_effect(t, seq![r, c], 'f') == csi_effect(t, seq![r, c], 'H'),
        csi_effect(t, seq![r], 'H').cursor.row == cup_target(r, t.grid.size.rows),
        csi_effect(t, seq![r], 'H').cursor.col == 0,
        csi_effect(t, Seq::<u16>::empty(), 'H').cursor == (CursorPos { row: 0, col: 0 }),
{
    assert(seq![r, c][1] == c);
}

/// The repeat count of a cursor movement: the parameter, with 0 or none
/// read as 1.
pub open spec fn move_count(ps: Seq<u16>) -> int {
    if ps.len() > 0 && ps[0] > 1 {
        ps[0] as int
    } else {
        1
    }
}

/// `CSI n A`, `B`, `C` and `D` move the cursor `n` rows up, `n` rows down,
/// `n` columns right and `n` columns left, stopping at the screen's edge;
/// the other coordinate and everything else stay as they were.
pub proof fn lemma_csi_cursor_moves(t: TerminalView, ps: Seq<u16>)
    requires
        t.cursor.row < t.grid.size.rows,
        t.cursor.col < t.grid.size.cols,
        t.cursor.row + move_count(ps) <= 0xffff,
        t.cursor.col + move_count(ps) <= 0xffff,
    ensures
        csi_effect(t, ps, 'A').cursor.row == (if t.cursor.row >= move_count(ps) {
            t.cursor.row - move_count(ps)
        } else {
            0
        }),
        csi_effect(t, ps, 'B').cursor.row == (if t.cursor.row + move_count(ps) < t.grid.size.rows {
            t.cursor.row + move_count(ps)
        } else {
            t.grid.size.rows - 1
        }),
        csi_effect(t, ps, 'C').cursor.col == (if t.cursor.col + move_count(ps) < t.grid.size.cols {
            t.cursor.col + move_count(ps)
        } else {
            t.grid.size.cols - 1
        }),
        csi_effect(t, ps, 'D').cursor.col == (if t.cursor.col >= move_count(ps) {
            t.cursor.col - move_count(ps)
        } else {
            0
        }),
        csi_effect(t, ps, 'A').cursor.col == t.cursor.col,
        csi_effect(t, ps, 'B').cursor.col == t.cursor.col,
        csi_effect(t, ps, 'C').cursor.row == t.cursor.row,
        csi_effect(t, ps, 'D').cursor.row == t.cursor.row,
        csi_effect(t, ps, 'A') == (TerminalView { cursor: csi_effect(t, ps, 'A').cursor, ..t }),
        csi_effect(t, ps, 'B') == (TerminalView { cursor: csi_effect(t, ps, 'B').cursor, ..t }),
        csi_effect(t, ps, 'C') == (TerminalView { cursor: csi_effect(t, ps, 'C').cursor, ..t }),
        csi_effect(t, ps, 'D') == (TerminalView { cursor: csi_effect(t, ps, 'D').cursor, ..t }),
{
}

/// Whether erase-in-line mode `mode` blanks column `c` of the cursor's row
/// when the cursor is in column `col`: from the cursor to the end (0), from
/// the start to the cursor (1), the whole line (2).
pub open spec fn line_erased(mode: u16, col: int, c: int) -> bool {
    (mode == 0 && c >= col) || (mode == 1 && c <= col) || mode == 2
}

/// `CSI m K` blanks the part of the cursor's line that the mode names and
/// leaves every other cell, the cursor and everything else alone; other
/// modes change nothing.
pub proof fn lemma_csi_erase_in_line(t: TerminalView, mode: u16, r: int, c: int)
    requires
        t.grid.wf(),
        in_bounds(t.grid.size, r, c),
    ensures
        mode <= 2 ==> csi_effect(t, seq![mode], 'K').grid.cells[cell_index(t.grid.size, r, c)] == (if r
            == t.cursor.row && line_erased(mode, t.cursor.col as int, c) {
            blank_cell()
        } else {
            t.grid.cells[cell_index(t.grid.size, r, c)]
        }),
        csi_effect(t, seq![mode], 'K').grid.cells.len() == t.grid.cells.len(),
        csi_effect(t, seq![mode], 'K') == (TerminalView { grid: csi_effect(t, seq![mode], 'K').grid, ..t }),
        csi_effect(t, seq![mode], 'K').grid.size == t.grid.size,
        mode > 2 ==> csi_effect(t, seq![mode], 'K') == t,
        csi_effect(t, Seq::<u16>::empty(), 'K') == csi_effect(t, seq![0u16], 'K'),
{
    lemma_index_compose(t.grid.size, r, c);
    crate::terminal::lemma_cell_index_bounds(t.grid.size, r, c);
}

/// `CSI 0 J` blanks from the cursor to the end of the screen and `CSI 1 J`
/// from the start of the screen up to (not including) the cursor; `2` and
/// `3` clear the whole screen and home the cursor.
pub proof fn lemma_csi_erase_in_display(t: TerminalView, mode: u16, r: int, c: int)
    requires
        t.grid.wf(),
        in_bounds(t.grid.size, r, c),
    ensures
        mode == 0 ==> csi_effect(t, seq![mode], 'J').grid.cells[cell_index(t.grid.size, r, c)] == (if r
            > t.cursor.row || (r == t.cursor.row && c >= t.cursor.col) {
            blank_cell()
        } else {
            t.grid.cells[cell_index(t.grid.size, r, c)]
        }),
        mode == 1 ==> csi_effect(t, seq![mode], 'J').grid.cells[cell_index(t.grid.size, r, c)] == (if r
            < t.cursor.row || (r == t.cursor.row && c < t.cursor.col) {
            blank_cell()
        } else {
            t.grid.cells[cell_index(t.grid.size, r, c)]
        }),
        mode <= 1 ==> csi_effect(t, seq![mode], 'J') == (TerminalView { grid: csi_effect(t, seq![mode], 'J').grid, ..t }),
        mode == 2 || mode == 3 ==> csi_effect(t, seq![mode], 'J').grid.cells[cell_index(t.grid.size, r, c)]
            == blank_cell(),
        mode == 2 || mode == 3 ==> csi_effect(t, seq![mode], 'J').cursor == (CursorPos { row: 0, col: 0 }),
        csi_effect(t, seq![mode], 'J').grid.size == t.grid.size,
        mode > 3 ==> csi_effect(t, seq![mode], 'J') == t,
        csi_effect(t, Seq::<u16>::empty(), 'J') == csi_effect(t, seq![0u16], 'J'),
{
    lemma_index_compose(t.grid.size, r, c);
    crate::terminal::lemma_cell_index_bounds(t.grid.size, r, c);
}

/// `CSI ? 25 h` shows the cursor and `l` hides it; `47`, `1047` and `1049`
/// enter (`h`) and leave (`l`) the alternate screen; other modes change
/// nothing.
pub proof fn lemma_csi_modes(t: TerminalView, p: u16)
    ensures
        csi_effect(t, seq![25u16], 'h') == (TerminalView { cursor_visible: true, ..t }),
        csi_effect(t, seq![25u16], 'l') == (TerminalView { cursor_visible: false, ..t }),
        (p == 47 || p == 1047 || p == 1049) ==> csi_effect(t, seq![p], 'h') == t.entered_alt(),
        (p == 47 || p == 1047 || p == 1049) ==> csi_effect(t, seq![p], 'l') == t.left_alt(),
        !(p == 25 || p == 47 || p == 1047 || p == 1049) ==> csi_effect(t, seq![p], 'h') == t,
        !(p == 25 || p == 47 || p == 1047 || p == 1049) ==> csi_effect(t, seq![p], 'l') == t,
{
    reveal_with_fuel(modes_effect, 2);
    assert(seq![p].drop_last() =~= Seq::<u16>::empty());
    assert(seq![25u16].drop_last() =~= Seq::<u16>::empty());
}

/// `CSI n q` sets the cursor shape: 0-2 a block, 3-4 an underline, 5-6 a
/// bar; anything else, and everything but the shape, is left alone.
pub proof fn lemma_csi_cursor_style(t: TerminalView, p: u16)
    ensures
        p <= 2 ==> csi_effect(t, seq![p], 'q') == (TerminalView { cursor_style: CursorStyle::Block, ..t }),
        3 <= p <= 4 ==> csi_effect(t, seq![p], 'q') == (TerminalView { cursor_style: CursorStyle::Underline, ..t }),
        5 <= p <= 6 ==> csi_effect(t, seq![p], 'q') == (TerminalView { cursor_style: CursorStyle::Bar, ..t }),
        p > 6 ==> csi_effect(t, seq![p], 'q') == t,
{
}

/// `CSI ... m` changes only the current attributes, as the SGR parameters
/// say.
pub proof fn lemma_csi_sgr(t: TerminalView, ps: Seq<u16>)
    ensures
        csi_effect(t, ps, 'm') == (TerminalView { attrs: sgr_effect(t.attrs, ps), ..t }),
{
}


/// An extended colour takes its arguments with it: what follows `38;5;n`,
/// `48;5;n`, `38;2;r;g;b` or `48;2;r;g;b` is read as the next parameter, not
/// as part of the colour.
pub proof fn lemma_sgr_extended_then_more(a: CellAttrs, n: u16, r: u16, g: u16, b: u16, q: u16)
    requires
        q != 38 && q != 48,
    ensures
        sgr_effect(a, seq![38u16, 5u16, n, q]) == sgr_effect(
            CellAttrs { fg: TermColor::Indexed((n % 256) as u8), ..a },
            seq![q],
        ),
        sgr_effect(a, seq![48u16, 5u16, n, q]) == sgr_effect(
            CellAttrs { bg: TermColor::Indexed((n % 256) as u8), ..a },
            seq![q],
        ),
        sgr_effect(a, seq![38u16, 2u16, r, g, b, q]) == sgr_effect(
            CellAttrs { fg: TermColor::Rgb((r % 256) as u8, (g % 256) as u8, (b % 256) as u8), ..a },
            seq![q],
        ),
        sgr_effect(a, seq![48u16, 2u16, r, g, b, q]) == sgr_effect(
            CellAttrs { bg: TermColor::Rgb((r % 256) as u8, (g % 256) as u8, (b % 256) as u8), ..a },
            seq![q],
        ),
{
    lemma_sgr_extended_step(a, seq![38u16, 5u16, n, q], 3);
    lemma_sgr_extended_step(a, seq![48u16, 5u16, n, q], 3);
    lemma_sgr_extended_step(a, seq![38u16, 2u16, r, g, b, q], 5);
    lemma_sgr_extended_step(a, seq![48u16, 2u16, r, g, b, q], 5);
}

proof fn lemma_sgr_extended_step(a: CellAttrs, ps: Seq<u16>, k: int)
    requires
        k == 3 || k == 5,
        ps.len() == k + 1,
        ps[0] == 38 || ps[0] == 48,
        k == 3 ==> ps[1] == 5,
        k == 5 ==> ps[1] == 2,
        ps[k] != 38 && ps[k] != 48,
    ensures
        sgr_effect(a, ps) == sgr_effect(sgr_step(a, ps, 0).0, seq![ps[k]]),
{
    let a1 = sgr_step(a, ps, 0).0;
    assert(sgr_step(a, ps, 0).1 == k + 1 - 1);
    assert(ps != seq![0u16]);
    assert(sgr_from(a, ps, 0) == sgr_from(a1, ps, k));
    let q = ps[k];
    assert(sgr_step(a1, ps, k).1 == k + 1);
    assert(sgr_step(a1, ps, k).0 == sgr_step(a1, seq![q], 0).0);
    assert(sgr_from(a1, ps, k) == sgr_from(sgr_step(a1, ps, k).0, ps, k + 1));
    assert(sgr_from(sgr_step(a1, ps, k).0, ps, k + 1) == sgr_step(a1, ps, k).0);
    assert(sgr_from(a1, seq![q], 0) == sgr_from(sgr_step(a1, seq![q], 0).0, seq![q], 1));
    if q == 0 {
        assert(seq![q] == seq![0u16]);
    } else {
        assert(seq![q] != seq![0u16]);
    }
}

} // verus!
