//! Renderer-independent screen model: turns the terminal's cells into
//! concrete colors and attribute flags, ready for any front end to draw.
use vstd::prelude::*;

use crate::terminal::{
    cell_index, in_bounds, lemma_cell_index_bounds, lemma_index_compose, lemma_index_decompose,
    Cell, CursorStyle, TermColor, Terminal, TerminalView,
};
use crate::theme::ThemePalette;

verus! {

/// 24-bit RGB color, already resolved from a `TermColor` + theme palette.
#[derive(Debug, Clone, Copy, PartialEq, Eq, Structural)]
pub struct Rgb(pub u8, pub u8, pub u8);

/// One terminal cell's fully resolved on-screen representation: the
/// character to draw plus final (post reverse-video/cursor-swap) colors and
/// attribute flags.
#[derive(Debug, Clone, Copy, PartialEq, Eq, Structural)]
pub struct ResolvedCell {
    pub ch: char,
    pub fg: Rgb,
    pub bg: Rgb,
    pub bold: bool,
    pub italic: bool,
    pub underline: bool,
    pub blink: bool,
    pub hidden: bool,
    pub strikethrough: bool,
    /// True for the single cell currently under the (visible) cursor.
    pub is_cursor: bool,
}

pub open spec fn rgb_of(c: (u8, u8, u8)) -> Rgb {
    Rgb(c.0, c.1, c.2)
}

/// Intensity steps of the xterm 6x6x6 color cube.
pub open spec fn cube_level(i: int) -> u8 {
    if i == 0 {
        0
    } else if i == 1 {
        95
    } else if i == 2 {
        135
    } else if i == 3 {
        175
    } else if i == 4 {
        215
    } else {
        255
    }
}

/// The standard xterm palette for indices 16-255: a 6x6x6 color cube
/// (16-231) and a grayscale ramp (232-255).
pub open spec fn spec_xterm_256_rgb(index: u8) -> (u8, u8, u8) {
    if index >= 232 {
        let level = (8 + (index - 232) * 10) as u8;
        (level, level, level)
    } else {
        let idx = index - 16;
        (cube_level(idx / 36), cube_level((idx / 6) % 6), cube_level(idx % 6))
    }
}

/// A terminal color as concrete RGB: ANSI 0-15 from the theme, 16-255 from
/// the xterm palette, `Default` from the given defaults.
pub open spec fn spec_resolve_color(
    color: TermColor,
    is_fg: bool,
    theme: ThemePalette,
    default_fg: Rgb,
    default_bg: Rgb,
) -> Rgb {
    match color {
        TermColor::Default => if is_fg {
            default_fg
        } else {
            default_bg
        },
        TermColor::Indexed(n) => if n < 16 {
            rgb_of(theme.spec_ansi_color(n))
        } else {
            rgb_of(spec_xterm_256_rgb(n))
        },
        TermColor::Rgb(r, g, b) => Rgb(r, g, b),
    }
}

/// The on-screen form of the cell at `(row, col)`: colors resolved,
/// swapped for reverse video and swapped again under a visible cursor;
/// NUL drawn as a space.
pub open spec fn spec_resolved_cell(
    t: TerminalView,
    theme: ThemePalette,
    row: int,
    col: int,
) -> ResolvedCell {
    let cell = t.grid.cells[cell_index(t.grid.size, row, col)];
    let is_cursor = t.cursor.row == row && t.cursor.col == col && t.cursor_visible;
    let dfg = rgb_of(theme.spec_fg_rgb());
    let dbg = rgb_of(theme.spec_bg_rgb());
    let fg0 = spec_resolve_color(cell.attrs.fg, true, theme, dfg, dbg);
    let bg0 = spec_resolve_color(cell.attrs.bg, false, theme, dfg, dbg);
    let fg1 = if cell.attrs.reverse {
        bg0
    } else {
        fg0
    };
    let bg1 = if cell.attrs.reverse {
        fg0
    } else {
        bg0
    };
    ResolvedCell {
        ch: if cell.char == '\0' {
            ' '
        } else {
            cell.char
        },
        fg: if is_cursor {
            bg1
        } else {
            fg1
        },
        bg: if is_cursor {
            fg1
        } else {
            bg1
        },
        bold: cell.attrs.bold,
        italic: cell.attrs.italic,
        underline: cell.attrs.underline,
        blink: cell.attrs.blink,
        hidden: cell.attrs.hidden,
        strikethrough: cell.attrs.strikethrough,
        is_cursor,
    }
}

/// Resolve a `TermColor` to a concrete `Rgb`, using the theme palette for
/// ANSI indices 0-15 and falling back to the given defaults for
/// `TermColor::Default`.
pub fn resolve_color(
    color: TermColor,
    is_fg: bool,
    theme: &ThemePalette,
    default_fg: Rgb,
    default_bg: Rgb,
) -> (c: Rgb)
    ensures
        c == spec_resolve_color(color, is_fg, *theme, default_fg, default_bg),
{
    match color {
        TermColor::Default => {
            if is_fg {
                default_fg
            } else {
                default_bg
            }
        },
        TermColor::Indexed(n) => {
            if n < 16 {
                let (r, g, b) = theme.ansi_color(n);
                Rgb(r, g, b)
            } else {
                let (r, g, b) = xterm_256_rgb(n);
                Rgb(r, g, b)
            }
        },
        TermColor::Rgb(r, g, b) => Rgb(r, g, b),
    }
}

/// Standard xterm 256-color palette lookup for indices 16-255.
pub fn xterm_256_rgb(index: u8) -> (c: (u8, u8, u8))
    requires
        index >= 16,
    ensures
        c == spec_xterm_256_rgb(index),
{
    if index >= 232 {
        let level = 8 + (index - 232) * 10;
        return (level, level, level);
    }
    let idx = index - 16;
    let levels = [0u8, 95, 135, 175, 215, 255];
    let r = levels[(idx / 36) as usize];
    let g = levels[((idx / 6) % 6) as usize];
    let b = levels[(idx % 6) as usize];
    assert(levels@ == seq![0u8, 95, 135, 175, 215, 255]);
    (r, g, b)
}

/// The emulator's current cursor shape.
pub fn cursor_style(term: &Terminal) -> (s: CursorStyle)
    ensures
        s == term@.cursor_style,
{
    term.cursor_style()
}

/// Resolve the full visible grid for one frame into row-major
/// `ResolvedCell`s, one per cell of the emulator's screen.
pub fn resolve_grid(emulator: &Terminal, theme: &ThemePalette) -> (out: Vec<ResolvedCell>)
    requires
        emulator.wf(),
    ensures
        out@.len() == emulator@.grid.size.area(),
        forall|i: int|
            0 <= i < out@.len() ==> #[trigger] out@[i] == spec_resolved_cell(
                emulator@,
                *theme,
                emulator@.grid.row_of(i),
                emulator@.grid.col_of(i),
            ),
{
    let grid = emulator.grid();
    let cursor = emulator.cursor();
    let size = emulator.size();
    let visible = emulator.cursor_visible();
    let ghost t = emulator@;
    let (dfr, dfg, dfb) = theme.fg_rgb();
    let (dbr, dbg, dbb) = theme.bg_rgb();
    let default_fg = Rgb(dfr, dfg, dfb);
    let default_bg = Rgb(dbr, dbg, dbb);
    let mut out: Vec<ResolvedCell> = Vec::new();
    let mut row: u16 = 0;
    while row < size.rows
        invariant
            t == emulator@,
            grid@ == t.grid,
            t.wf(),
            size == t.grid.size,
            cursor == t.cursor,
            visible == t.cursor_visible,
            default_fg == rgb_of(theme.spec_fg_rgb()),
            default_bg == rgb_of(theme.spec_bg_rgb()),
                row <= size.rows,
            out@.len() == (row as int) * (size.cols as int),
            forall|i: int|
                0 <= i < out@.len() ==> #[trigger] out@[i] == spec_resolved_cell(
                    t,
                    *theme,
                    t.grid.row_of(i),
                    t.grid.col_of(i),
                ),
        decreases size.rows - row,
    {
        let mut col: u16 = 0;
        while col < size.cols
            invariant
                t == emulator@,
                grid@ == t.grid,
                t.wf(),
                size == t.grid.size,
                cursor == t.cursor,
                visible == t.cursor_visible,
                default_fg == rgb_of(theme.spec_fg_rgb()),
                default_bg == rgb_of(theme.spec_bg_rgb()),
                        row < size.rows,
                col <= size.cols,
                out@.len() == (row as int) * (size.cols as int) + col,
                forall|i: int|
                    0 <= i < out@.len() ==> #[trigger] out@[i] == spec_resolved_cell(
                        t,
                        *theme,
                        t.grid.row_of(i),
                        t.grid.col_of(i),
                    ),
            decreases size.cols - col,
        {
            proof {
                lemma_cell_index_bounds(size, row as int, col as int);
                lemma_index_compose(size, row as int, col as int);
            }
            let cell: Cell = match grid.get(row, col) {
                Some(c) => *c,
                None => Cell::default(),
            };
            let is_cursor = cursor.row == row && cursor.col == col && visible;
            let mut fg = resolve_color(cell.attrs.fg, true, theme, default_fg, default_bg);
            let mut bg = resolve_color(cell.attrs.bg, false, theme, default_fg, default_bg);
            if cell.attrs.reverse {
                let tmp = fg;
                fg = bg;
                bg = tmp;
            }
            if is_cursor {
                let tmp = fg;
                fg = bg;
                bg = tmp;
            }
            let display_char = if cell.char == '\0' {
                ' '
            } else {
                cell.char
            };
            out.push(
                ResolvedCell {
                    ch: display_char,
                    fg,
                    bg,
                    bold: cell.attrs.bold,
                    italic: cell.attrs.italic,
                    underline: cell.attrs.underline,
                    blink: cell.attrs.blink,
                    hidden: cell.attrs.hidden,
                    strikethrough: cell.attrs.strikethrough,
                    is_cursor,
                },
            );
            col = col + 1;
        }
        proof {
            assert((row as int + 1) * (size.cols as int) == (row as int) * (size.cols as int)
                + size.cols) by (nonlinear_arith);
        }
        row = row + 1;
    }
    assert((row as int) * (size.cols as int) == (size.cols as nat) * (size.rows as nat)) by (
    nonlinear_arith)
        requires
            row == size.rows,
    ;
    out
}

} // verus!
