//! Terminal emulation core: the cell grid, the cursor, and the state machine
//! that turns printed characters into grid updates.
use vstd::prelude::*;
use vstd::std_specs::iter::IteratorSpec;

verus! {

/// Terminal dimensions in character cells.
#[derive(Debug, Clone, Copy, PartialEq, Eq, Structural)]
pub struct TerminalSize {
    pub cols: u16,
    pub rows: u16,
}

impl TerminalSize {
    /// Number of cells a grid of this size holds.
    pub open spec fn area(self) -> nat {
        (self.cols as nat) * (self.rows as nat)
    }
}

impl Default for TerminalSize {
    fn default() -> (s: Self)
        ensures
            s.cols == 80 && s.rows == 24,
    {
        TerminalSize { cols: 80, rows: 24 }
    }
}

/// Cursor position (0-indexed).
#[derive(Debug, Clone, Copy, PartialEq, Eq, Structural)]
pub struct CursorPos {
    pub row: u16,
    pub col: u16,
}

impl Default for CursorPos {
    fn default() -> (p: Self)
        ensures
            p.row == 0 && p.col == 0,
    {
        CursorPos { row: 0, col: 0 }
    }
}

/// Cursor style.
#[derive(Debug, Clone, Copy, PartialEq, Eq, Structural)]
pub enum CursorStyle {
    Block,
    Underline,
    Bar,
}

impl Default for CursorStyle {
    fn default() -> (s: Self)
        ensures
            s == CursorStyle::Block,
    {
        CursorStyle::Block
    }
}

/// Terminal color: default, 256-color indexed, or 24-bit RGB.
#[derive(Debug, Clone, Copy, PartialEq, Eq, Structural)]
pub enum TermColor {
    Default,
    Indexed(u8),
    Rgb(u8, u8, u8),
}

impl Default for TermColor {
    fn default() -> (c: Self)
        ensures
            c == TermColor::Default,
    {
        TermColor::Default
    }
}

/// Cell attributes.
#[derive(Debug, Clone, Copy, PartialEq, Eq, Structural)]
pub struct CellAttrs {
    pub bold: bool,
    pub italic: bool,
    pub underline: bool,
    pub blink: bool,
    pub reverse: bool,
    pub hidden: bool,
    pub strikethrough: bool,
    pub fg: TermColor,
    pub bg: TermColor,
}

/// The attributes of a freshly reset cell: no flags, default colors.
pub open spec fn default_attrs() -> CellAttrs {
    CellAttrs {
        bold: false,
        italic: false,
        underline: false,
        blink: false,
        reverse: false,
        hidden: false,
        strikethrough: false,
        fg: TermColor::Default,
        bg: TermColor::Default,
    }
}

impl Default for CellAttrs {
    fn default() -> (a: Self)
        ensures
            a == default_attrs(),
    {
        CellAttrs {
            bold: false,
            italic: false,
            underline: false,
            blink: false,
            reverse: false,
            hidden: false,
            strikethrough: false,
            fg: TermColor::Default,
            bg: TermColor::Default,
        }
    }
}

/// A single terminal cell.
#[derive(Debug, Clone, Copy, PartialEq, Eq, Structural)]
pub struct Cell {
    pub char: char,
    pub attrs: CellAttrs,
}

/// An empty cell: the NUL character with default attributes.
pub open spec fn blank_cell() -> Cell {
    Cell { char: '\0', attrs: default_attrs() }
}

/// `n` empty cells.
pub open spec fn blanks(n: nat) -> Seq<Cell> {
    Seq::new(n, |i: int| blank_cell())
}

impl Default for Cell {
    fn default() -> (c: Self)
        ensures
            c == blank_cell(),
    {
        Cell { char: '\0', attrs: CellAttrs::default() }
    }
}

impl Cell {
    pub fn new(char: char) -> (c: Self)
        ensures
            c.char == char,
            c.attrs == default_attrs(),
    {
        Cell { char, attrs: CellAttrs::default() }
    }

    pub fn with_attrs(char: char, attrs: CellAttrs) -> (c: Self)
        ensures
            c.char == char,
            c.attrs == attrs,
    {
        Cell { char, attrs }
    }
}

/// Row-major index of `(row, col)` in a grid of the given size.
pub open spec fn cell_index(size: TerminalSize, row: int, col: int) -> int {
    row * (size.cols as int) + col
}

/// Whether `(row, col)` names a cell of a grid of the given size.
pub open spec fn in_bounds(size: TerminalSize, row: int, col: int) -> bool {
    0 <= row < size.rows && 0 <= col < size.cols
}

pub proof fn lemma_cell_index_bounds(size: TerminalSize, row: int, col: int)
    requires
        in_bounds(size, row, col),
    ensures
        0 <= cell_index(size, row, col) < size.area(),
        cell_index(size, row, col) + 1 <= (row + 1) * (size.cols as int),
{
    assert(0 <= row * (size.cols as int)) by (nonlinear_arith)
        requires
            0 <= row,
            0 <= size.cols,
    ;
    assert(row * (size.cols as int) + col < (size.rows as int) * (size.cols as int)) by (
    nonlinear_arith)
        requires
            0 <= row < size.rows,
            0 <= col < size.cols,
    ;
    assert((row + 1) * (size.cols as int) == row * (size.cols as int) + size.cols) by (
    nonlinear_arith);
}

/// A grid area always fits in 32 bits, hence in `usize`.
pub proof fn lemma_area_fits(size: TerminalSize)
    ensures
        size.area() <= 0xffff_ffff,
        (size.cols as nat) * (size.rows as nat) <= usize::MAX,
{
    assert((size.cols as nat) * (size.rows as nat) <= 65535 * 65535) by (nonlinear_arith)
        requires
            size.cols <= 65535,
            size.rows <= 65535,
    ;
}

/// Abstract contents of a grid: its cells in row-major order and its size.
#[verifier::ext_equal]
pub struct GridView {
    pub cells: Seq<Cell>,
    pub size: TerminalSize,
}

impl GridView {
    /// The grid holds exactly one cell per (row, column).
    pub open spec fn wf(self) -> bool {
        self.cells.len() == self.size.area()
    }

    /// The grid with the cell at `(row, col)` replaced, when in bounds.
    pub open spec fn set(self, row: int, col: int, cell: Cell) -> GridView {
        if in_bounds(self.size, row, col) {
            GridView {
                cells: self.cells.update(cell_index(self.size, row, col), cell),
                size: self.size,
            }
        } else {
            self
        }
    }

    /// The grid shifted up by `n` rows (at most all of them), with blank rows
    /// entering at the bottom.
    pub open spec fn scrolled_up(self, n: u16) -> GridView {
        let k = ((if n < self.size.rows { n } else { self.size.rows }) as nat) * (
        self.size.cols as nat);
        GridView { cells: self.cells.skip(k as int) + blanks(k), size: self.size }
    }
}

impl GridView {
    /// Row of the cell stored at index `i`.
    pub open spec fn row_of(self, i: int) -> int {
        i / (self.size.cols as int)
    }

    /// Column of the cell stored at index `i`.
    pub open spec fn col_of(self, i: int) -> int {
        i % (self.size.cols as int)
    }

    /// The grid with every cell whose `(row, col)` satisfies `f` blanked.
    pub open spec fn blank_where(self, f: spec_fn(int, int) -> bool) -> GridView {
        GridView {
            cells: Seq::new(
                self.cells.len(),
                |i: int|
                    if f(self.row_of(i), self.col_of(i)) {
                        blank_cell()
                    } else {
                        self.cells[i]
                    },
            ),
            size: self.size,
        }
    }
}

/// Every index of a well-formed grid is the index of an in-bounds cell.
pub proof fn lemma_index_decompose(g: GridView, i: int)
    requires
        g.wf(),
        0 <= i < g.cells.len(),
    ensures
        g.size.cols > 0,
        in_bounds(g.size, g.row_of(i), g.col_of(i)),
        cell_index(g.size, g.row_of(i), g.col_of(i)) == i,
{
    let cols = g.size.cols as int;
    let rows = g.size.rows as int;
    if cols == 0 {
        assert(cols * rows == 0) by (nonlinear_arith)
            requires
                cols == 0,
        ;
    }
    vstd::arithmetic::div_mod::lemma_fundamental_div_mod(i, cols);
    let q = i / cols;
    let r = i % cols;
    assert(0 <= r < cols);
    assert(0 <= q < rows) by (nonlinear_arith)
        requires
            i == cols * q + r,
            0 <= r < cols,
            0 <= i < cols * rows,
    ;
    assert(cell_index(g.size, q, r) == i) by (nonlinear_arith)
        requires
            i == cols * q + r,
            cell_index(g.size, q, r) == q * cols + r,
    ;
}

/// The index of an in-bounds cell maps back to its row and column.
pub proof fn lemma_index_compose(size: TerminalSize, row: int, col: int)
    requires
        in_bounds(size, row, col),
    ensures
        cell_index(size, row, col) / (size.cols as int) == row,
        cell_index(size, row, col) % (size.cols as int) == col,
{
    vstd::arithmetic::div_mod::lemma_fundamental_div_mod_converse(
        cell_index(size, row, col),
        size.cols as int,
        row,
        col,
    );
}

/// Blanking two regions in turn blanks their union.
pub proof fn lemma_blank_where_compose(
    g: GridView,
    f: spec_fn(int, int) -> bool,
    h: spec_fn(int, int) -> bool,
)
    ensures
        g.blank_where(f).blank_where(h) == g.blank_where(|r: int, c: int| f(r, c) || h(r, c)),
{
    assert(g.blank_where(f).blank_where(h).cells =~= g.blank_where(
        |r: int, c: int| f(r, c) || h(r, c),
    ).cells);
}

/// Blanking a region that holds no cell of the grid changes nothing.
pub proof fn lemma_blank_where_empty(g: GridView, f: spec_fn(int, int) -> bool)
    requires
        g.wf(),
        forall|r: int, c: int| in_bounds(g.size, r, c) ==> !f(r, c),
    ensures
        g.blank_where(f) == g,
{
    assert forall|i: int| 0 <= i < g.cells.len() implies g.blank_where(f).cells[i] == g.cells[i] by {
        lemma_index_decompose(g, i);
    }
    assert(g.blank_where(f).cells =~= g.cells);
}

/// Only the predicate's value on the grid's own cells matters.
pub proof fn lemma_blank_where_congruent(
    g: GridView,
    f: spec_fn(int, int) -> bool,
    h: spec_fn(int, int) -> bool,
)
    requires
        g.wf(),
        forall|r: int, c: int| in_bounds(g.size, r, c) ==> f(r, c) == h(r, c),
    ensures
        g.blank_where(f) == g.blank_where(h),
{
    assert forall|i: int| 0 <= i < g.cells.len() implies g.blank_where(f).cells[i]
        == g.blank_where(h).cells[i] by {
        lemma_index_decompose(g, i);
    }
    assert(g.blank_where(f).cells =~= g.blank_where(h).cells);
}

/// `cells` truncated or padded with blanks to exactly `n` cells.
pub open spec fn resized_cells(cells: Seq<Cell>, n: nat) -> Seq<Cell> {
    if n <= cells.len() {
        cells.take(n as int)
    } else {
        cells + blanks((n - cells.len()) as nat)
    }
}

/// Terminal grid (screen buffer).
pub struct Grid {
    cells: Vec<Cell>,
    size: TerminalSize,
}

impl View for Grid {
    type V = GridView;

    closed spec fn view(&self) -> GridView {
        GridView { cells: self.cells@, size: self.size }
    }
}

impl Grid {
    pub open spec fn wf(&self) -> bool {
        self@.wf()
    }

    pub fn new(size: TerminalSize) -> (g: Self)
        ensures
            g.wf(),
            g@.size == size,
            g@.cells == blanks(size.area()),
    {
        proof {
            lemma_area_fits(size);
        }
        let capacity = size.cols as usize * size.rows as usize;
        let cells = vec![Cell::default(); capacity];
        assert(cells@ =~= blanks(size.area()));
        Grid { cells, size }
    }

    pub fn size(&self) -> (s: TerminalSize)
        ensures
            s == self@.size,
    {
        self.size
    }

    /// Change the grid's size. The row-major cell buffer is truncated or
    /// padded with blank cells; cells are not reflowed.
    pub fn resize(&mut self, new_size: TerminalSize)
        ensures
            final(self).wf(),
            final(self)@.size == new_size,
            final(self)@.cells == resized_cells(old(self)@.cells, new_size.area()),
    {
        proof {
            lemma_area_fits(new_size);
        }
        let capacity = new_size.cols as usize * new_size.rows as usize;
        let ghost old_cells = self.cells@;
        self.cells.resize(capacity, Cell::default());
        self.size = new_size;
        assert(self.cells@ =~= resized_cells(old_cells, new_size.area()));
    }

    fn index_of(&self, row: u16, col: u16) -> (idx: usize)
        requires
            self.wf(),
            in_bounds(self@.size, row as int, col as int),
        ensures
            idx == cell_index(self@.size, row as int, col as int),
            idx < self@.cells.len(),
    {
        proof {
            lemma_cell_index_bounds(self.size, row as int, col as int);
            lemma_area_fits(self.size);
        }
        row as usize * self.size.cols as usize + col as usize
    }

    pub fn get(&self, row: u16, col: u16) -> (r: Option<&Cell>)
        requires
            self.wf(),
        ensures
            in_bounds(self@.size, row as int, col as int) ==> r == Some(
                &self@.cells[cell_index(self@.size, row as int, col as int)],
            ),
            !in_bounds(self@.size, row as int, col as int) ==> r is None,
    {
        if row < self.size.rows && col < self.size.cols {
            let idx = self.index_of(row, col);
            Some(&self.cells[idx])
        } else {
            None
        }
    }

    pub fn get_mut(&mut self, row: u16, col: u16) -> (r: Option<&mut Cell>)
        requires
            old(self).wf(),
        ensures
            in_bounds(old(self)@.size, row as int, col as int) ==> (r matches Some(c) && *c
                == old(self)@.cells[cell_index(old(self)@.size, row as int, col as int)]
                && final(self)@ == old(self)@.set(row as int, col as int, *final(c))),
            !in_bounds(old(self)@.size, row as int, col as int) ==> r is None && final(self)@
                == old(self)@,
    {
        if row < self.size.rows && col < self.size.cols {
            let idx = self.index_of(row, col);
            Some(&mut self.cells[idx])
        } else {
            None
        }
    }

    pub fn set(&mut self, row: u16, col: u16, cell: Cell)
        requires
            old(self).wf(),
        ensures
            final(self)@ == old(self)@.set(row as int, col as int, cell),
            final(self).wf(),
    {
        if row < self.size.rows && col < self.size.cols {
            let idx = self.index_of(row, col);
            self.cells.set(idx, cell);
        }
    }

    pub fn clear(&mut self)
        requires
            old(self).wf(),
        ensures
            final(self).wf(),
            final(self)@.size == old(self)@.size,
            final(self)@.cells == blanks(old(self)@.cells.len()),
    {
        let n = self.cells.len();
        let mut i: usize = 0;
        while i < n
            invariant
                n == self.cells@.len(),
                self.size == old(self).size,
                old(self).cells@.len() == n,
                i <= n,
                forall|j: int| 0 <= j < i ==> self.cells@[j] == blank_cell(),
            decreases n - i,
        {
            self.cells.set(i, Cell::default());
            i = i + 1;
        }
        assert(self.cells@ =~= blanks(n as nat));
    }

    /// Blank every cell of `row`; no-op for a row outside the grid.
    pub fn clear_row(&mut self, row: u16)
        requires
            old(self).wf(),
        ensures
            final(self).wf(),
            final(self)@.size == old(self)@.size,
            final(self)@.cells.len() == old(self)@.cells.len(),
            forall|i: int|
                0 <= i < old(self)@.cells.len() ==> #[trigger] final(self)@.cells[i] == if cell_index(
                    old(self)@.size,
                    row as int,
                    0,
                ) <= i < cell_index(old(self)@.size, row as int + 1, 0) {
                    blank_cell()
                } else {
                    old(self)@.cells[i]
                },
    {
        let cols = self.size.cols;
        let ghost start = cell_index(self.size, row as int, 0);
        let mut col: u16 = 0;
        while col < cols
            invariant
                self.wf(),
                self.size == old(self).size,
                cols == self.size.cols,
                col <= cols,
                self.cells@.len() == old(self).cells@.len(),
                start == cell_index(self.size, row as int, 0),
                forall|i: int|
                    0 <= i < self.cells@.len() ==> #[trigger] self.cells@[i] == if start <= i < start
                        + col && row < self.size.rows {
                        blank_cell()
                    } else {
                        old(self).cells@[i]
                    },
            decreases cols - col,
        {
            let ghost before = self.cells@;
            if let Some(cell) = self.get_mut(row, col) {
                *cell = Cell::default();
            }
            proof {
                if row < self.size.rows {
                    lemma_cell_index_bounds(self.size, row as int, col as int);
                }
            }
            col = col + 1;
        }
        proof {
            assert(cell_index(self.size, row as int + 1, 0) == start + cols) by (nonlinear_arith)
                requires
                    start == row * (cols as int),
                    cols == self.size.cols,
            ;
            if row >= self.size.rows {
                assert(start >= self.cells@.len()) by (nonlinear_arith)
                    requires
                        start == row * (cols as int),
                        row >= self.size.rows,
                        self.cells@.len() == (cols as int) * (self.size.rows as int),
                ;
            }
        }
    }

    /// Blank the cells `(row, c)` with `from <= c < to`; columns or a row
    /// outside the grid are skipped.
    pub fn blank_span(&mut self, row: u16, from: u16, to: u16)
        requires
            old(self).wf(),
        ensures
            final(self).wf(),
            final(self)@ == old(self)@.blank_where(|r: int, c: int| r == row && from <= c < to),
    {
        let mut col = from;
        assert(self@ =~= old(self)@.blank_where(|r: int, c: int| r == row && from <= c < col)) by {
            assert forall|i: int| 0 <= i < self@.cells.len() implies !(self@.row_of(i) == row
                && from <= self@.col_of(i) < col) by {}
        }
        while col < to
            invariant
                self.wf(),
                from <= col,
                self@ == old(self)@.blank_where(|r: int, c: int| r == row && from <= c < col),
                (col as int) <= (if from <= to { to as int } else { from as int }),
            decreases to - col,
        {
            let ghost before = self@;
            self.set(row, col, Cell::default());
            proof {
                let g0 = old(self)@;
                let target = g0.blank_where(|r: int, c: int| r == row && from <= c < col + 1);
                assert forall|i: int| 0 <= i < self@.cells.len() implies self@.cells[i]
                    == target.cells[i] by {
                    lemma_index_decompose(g0, i);
                    let ro = g0.row_of(i);
                    let co = g0.col_of(i);
                    if in_bounds(g0.size, row as int, col as int) {
                        lemma_index_compose(g0.size, row as int, col as int);
                        lemma_cell_index_bounds(g0.size, row as int, col as int);
                        let idx = cell_index(g0.size, row as int, col as int);
                        if i == idx {
                            assert(ro == row && co == col);
                            assert(self@.cells[i] == blank_cell());
                        } else {
                            assert(self@.cells[i] == before.cells[i]);
                            assert(!(ro == row && co == col));
                        }
                    } else {
                        assert(self@.cells[i] == before.cells[i]);
                        assert(!(ro == row && co == col));
                    }
                }
                assert(self@.cells =~= target.cells);
            }
            col = col + 1;
        }
        assert(self@ =~= old(self)@.blank_where(|r: int, c: int| r == row && from <= c < to));
    }

    /// Scroll the grid up by `n` lines: rows move up, blank rows enter at the
    /// bottom.
    pub fn scroll_up(&mut self, n: u16)
        requires
            old(self).wf(),
        ensures
            final(self).wf(),
            final(self)@ == old(self)@.scrolled_up(n),
    {
        let n = if n < self.size.rows { n } else { self.size.rows } as usize;
        let row_size = self.size.cols as usize;
        let len = self.cells.len();
        proof {
            assert(n * row_size <= len) by (nonlinear_arith)
                requires
                    n <= self.size.rows,
                    row_size == self.size.cols,
                    len == (self.size.cols as int) * (self.size.rows as int),
            ;
        }
        let shift = n * row_size;
        let keep = len - shift;
        let ghost old_cells = self.cells@;
        let mut i: usize = 0;
        while i < keep
            invariant
                self.cells@.len() == len,
                self.size == old(self).size,
                old_cells == old(self).cells@,
                keep + shift == len,
                i <= keep,
                forall|j: int| 0 <= j < i ==> self.cells@[j] == old_cells[j + shift],
                forall|j: int| i <= j < len ==> self.cells@[j] == old_cells[j],
            decreases keep - i,
        {
            let c = self.cells[i + shift];
            self.cells.set(i, c);
            i = i + 1;
        }
        while i < len
            invariant
                self.cells@.len() == len,
                self.size == old(self).size,
                keep + shift == len,
                keep <= i <= len,
                forall|j: int| 0 <= j < keep ==> self.cells@[j] == old_cells[j + shift],
                forall|j: int| keep <= j < i ==> self.cells@[j] == blank_cell(),
            decreases len - i,
        {
            self.cells.set(i, Cell::default());
            i = i + 1;
        }
        assert(self.cells@ =~= old_cells.skip(shift as int) + blanks(shift as nat));
    }
}


/// Whether `c` is a control character (Unicode general category Cc: the C0
/// range U+0000..U+001F and U+007F..U+009F).
pub open spec fn spec_is_control(c: char) -> bool {
    (c as u32) <= 0x1f || (0x7f <= (c as u32) && (c as u32) <= 0x9f)
}

/// Executable counterpart of `char::is_control`.
pub fn is_control(c: char) -> (b: bool)
    ensures
        b == spec_is_control(c),
{
    let v = c as u32;
    v <= 0x1f || (0x7f <= v && v <= 0x9f)
}

/// Number of scrollback lines a terminal keeps.
pub const SCROLLBACK_LIMIT: usize = 10000;

/// Abstract state of a terminal.
#[verifier::ext_equal]
pub struct TerminalView {
    pub grid: GridView,
    pub alt_grid: Option<GridView>,
    pub cursor: CursorPos,
    pub cursor_style: CursorStyle,
    pub cursor_visible: bool,
    pub attrs: CellAttrs,
    pub title: Seq<char>,
    pub scrollback: Seq<Seq<Cell>>,
    pub scrollback_limit: nat,
}

impl TerminalView {
    /// The invariant every terminal keeps: grids well formed and of one
    /// size, scrollback within its limit, cursor coordinates below `u16::MAX`.
    pub open spec fn wf(self) -> bool {
        &&& self.grid.wf()
        &&& (self.alt_grid matches Some(a) ==> a.wf() && a.size == self.grid.size)
        &&& self.scrollback.len() <= self.scrollback_limit
        &&& self.cursor.row < 0xffff
        &&& self.cursor.col < 0xffff
    }

    pub open spec fn with_cursor(self, row: int, col: int) -> TerminalView {
        TerminalView { cursor: CursorPos { row: row as u16, col: col as u16 }, ..self }
    }

    /// Cursor moved to `(row, col)`, each clamped to the last row/column.
    pub open spec fn placed(self, row: u16, col: u16) -> TerminalView {
        self.with_cursor(
            clamp_to_last(row, self.grid.size.rows) as int,
            clamp_to_last(col, self.grid.size.cols) as int,
        )
    }

    /// Switch to the alternate screen: a blank screen of the same size,
    /// with the current one set aside. No change when already switched.
    pub open spec fn entered_alt(self) -> TerminalView {
        if self.alt_grid is None {
            TerminalView {
                grid: GridView { cells: blanks(self.grid.size.area()), size: self.grid.size },
                alt_grid: Some(self.grid),
                ..self
            }
        } else {
            self
        }
    }

    /// Leave the alternate screen, restoring the screen set aside.
    pub open spec fn left_alt(self) -> TerminalView {
        match self.alt_grid {
            Some(a) => TerminalView { grid: a, alt_grid: None, ..self },
            None => self,
        }
    }

    /// Screen cleared and cursor homed.
    pub open spec fn cleared(self) -> TerminalView {
        TerminalView {
            grid: GridView { cells: blanks(self.grid.cells.len()), size: self.grid.size },
            cursor: CursorPos { row: 0, col: 0 },
            ..self
        }
    }

    /// The top screen row, as it is saved to scrollback.
    pub open spec fn top_row(self) -> Seq<Cell> {
        if self.grid.size.rows > 0 {
            self.grid.cells.take(self.grid.size.cols as int)
        } else {
            blanks(self.grid.size.cols as nat)
        }
    }

    /// Save the top row to scrollback (dropping the oldest lines beyond the
    /// limit) and scroll the screen up one line.
    pub open spec fn scroll(self) -> TerminalView {
        let pushed = self.scrollback.push(self.top_row());
        let kept = if pushed.len() > self.scrollback_limit {
            pushed.skip(pushed.len() - self.scrollback_limit)
        } else {
            pushed
        };
        TerminalView { scrollback: kept, grid: self.grid.scrolled_up(1), ..self }
    }

    /// Carriage return plus line feed, scrolling at the bottom row.
    pub open spec fn newline(self) -> TerminalView {
        let t = self.with_cursor(self.cursor.row as int, 0);
        if self.cursor.row + 1 >= self.grid.size.rows {
            t.scroll()
        } else {
            t.with_cursor(self.cursor.row + 1, 0)
        }
    }

    /// Whether writing `c` stays within machine arithmetic: a tab needs a
    /// non-empty row and a cursor column whose next tab stop fits in `u16`.
    pub open spec fn write_char_ok(self, c: char) -> bool {
        c == '\t' ==> self.grid.size.cols >= 1 && self.cursor.col < 65528
    }

    /// The effect of writing one character.
    pub open spec fn write_char(self, c: char) -> TerminalView {
        let row = self.cursor.row as int;
        let col = self.cursor.col as int;
        if c == '\n' {
            self.newline()
        } else if c == '\r' {
            self.with_cursor(row, 0)
        } else if c == '\t' {
            let next_tab = (col / 8 + 1) * 8;
            let last = self.grid.size.cols - 1;
            self.with_cursor(row, if next_tab < last { next_tab } else { last })
        } else if c == '\x08' {
            self.with_cursor(row, if col > 0 { col - 1 } else { col })
        } else if !spec_is_control(c) {
            let t = TerminalView {
                grid: self.grid.set(row, col, Cell { char: c, attrs: self.attrs }),
                ..self
            }.with_cursor(row, col + 1);
            if col + 1 >= self.grid.size.cols {
                t.newline()
            } else {
                t
            }
        } else {
            self
        }
    }

    /// The effect of writing a sequence of characters in order.
    pub open spec fn write_chars(self, cs: Seq<char>) -> TerminalView
        decreases cs.len(),
    {
        if cs.len() == 0 {
            self
        } else {
            self.write_chars(cs.drop_last()).write_char(cs.last())
        }
    }

    /// Whether every character of `cs` can be written in turn.
    pub open spec fn write_chars_ok(self, cs: Seq<char>) -> bool
        decreases cs.len(),
    {
        if cs.len() == 0 {
            true
        } else {
            self.write_chars_ok(cs.drop_last()) && self.write_chars(cs.drop_last()).write_char_ok(
                cs.last(),
            )
        }
    }
}

/// Terminal state machine.
pub struct Terminal {
    grid: Grid,
    alt_grid: Option<Grid>,
    cursor: CursorPos,
    cursor_style: CursorStyle,
    cursor_visible: bool,
    attrs: CellAttrs,
    title: String,
    scrollback: Vec<Vec<Cell>>,
    scrollback_limit: usize,
}

impl View for Terminal {
    type V = TerminalView;

    closed spec fn view(&self) -> TerminalView {
        TerminalView {
            grid: self.grid@,
            alt_grid: match self.alt_grid {
                Some(g) => Some(g@),
                None => None,
            },
            cursor: self.cursor,
            cursor_style: self.cursor_style,
            cursor_visible: self.cursor_visible,
            attrs: self.attrs,
            title: self.title@,
            scrollback: self.scrollback@.map_values(|r: Vec<Cell>| r@),
            scrollback_limit: self.scrollback_limit as nat,
        }
    }
}

impl Terminal {
    pub open spec fn wf(&self) -> bool {
        self@.wf()
    }

    pub fn new(size: TerminalSize) -> (t: Self)
        ensures
            t.wf(),
            t@.grid.size == size,
            t@.grid.cells == blanks(size.area()),
            t@.alt_grid is None,
            t@.cursor == (CursorPos { row: 0, col: 0 }),
            t@.cursor_style == CursorStyle::Block,
            t@.cursor_visible,
            t@.attrs == default_attrs(),
            t@.title == Seq::<char>::empty(),
            t@.scrollback == Seq::<Seq<Cell>>::empty(),
            t@.scrollback_limit == SCROLLBACK_LIMIT,
    {
        let t = Terminal {
            grid: Grid::new(size),
            alt_grid: None,
            cursor: CursorPos::default(),
            cursor_style: CursorStyle::default(),
            cursor_visible: true,
            attrs: CellAttrs::default(),
            title: String::new(),
            scrollback: Vec::new(),
            scrollback_limit: SCROLLBACK_LIMIT,
        };
        assert(t@.scrollback =~= Seq::<Seq<Cell>>::empty());
        t
    }

    pub fn size(&self) -> (s: TerminalSize)
        ensures
            s == self@.grid.size,
    {
        self.grid.size()
    }

    /// Resize the screen (and the alternate screen, if active). The cursor is
    /// left where it was.
    pub fn resize(&mut self, new_size: TerminalSize)
        requires
            old(self).wf(),
        ensures
            final(self).wf(),
            final(self)@ == (TerminalView {
                grid: GridView {
                    cells: resized_cells(old(self)@.grid.cells, new_size.area()),
                    size: new_size,
                },
                alt_grid: match old(self)@.alt_grid {
                    Some(a) => Some(
                        GridView { cells: resized_cells(a.cells, new_size.area()), size: new_size },
                    ),
                    None => None,
                },
                ..old(self)@
            }),
    {
        self.grid.resize(new_size);
        if let Some(ref mut alt) = self.alt_grid {
            alt.resize(new_size);
        }
    }

    pub fn cursor(&self) -> (c: CursorPos)
        ensures
            c == self@.cursor,
    {
        self.cursor
    }

    pub fn cursor_style(&self) -> (s: CursorStyle)
        ensures
            s == self@.cursor_style,
    {
        self.cursor_style
    }

    pub fn cursor_visible(&self) -> (b: bool)
        ensures
            b == self@.cursor_visible,
    {
        self.cursor_visible
    }

    pub fn title(&self) -> (t: &str)
        ensures
            t@ == self@.title,
    {
        self.title.as_str()
    }

    pub fn grid(&self) -> (g: &Grid)
        ensures
            g@ == self@.grid,
    {
        &self.grid
    }

    pub fn grid_mut(&mut self) -> (g: &mut Grid)
        ensures
            g@ == old(self)@.grid,
            final(self)@ == (TerminalView { grid: final(g)@, ..old(self)@ }),
    {
        &mut self.grid
    }

    /// Current cell attributes.
    pub fn current_attrs(&self) -> (a: &CellAttrs)
        ensures
            *a == self@.attrs,
    {
        &self.attrs
    }

    /// Write a character at the current cursor position.
    pub fn write_char(&mut self, c: char)
        requires
            old(self).wf(),
            old(self)@.write_char_ok(c),
        ensures
            final(self).wf(),
            final(self)@ == old(self)@.write_char(c),
    {
        if c == '\n' {
            self.newline();
        } else if c == '\r' {
            self.cursor.col = 0;
        } else if c == '\t' {
            let next_tab = ((self.cursor.col / 8) + 1) * 8;
            let last = self.grid.size().cols - 1;
            self.cursor.col = if next_tab < last { next_tab } else { last };
        } else if c == '\x08' {
            if self.cursor.col > 0 {
                self.cursor.col = self.cursor.col - 1;
            }
        } else if !is_control(c) {
            self.grid.set(self.cursor.row, self.cursor.col, Cell::with_attrs(c, self.attrs));
            self.cursor.col = self.cursor.col + 1;
            if self.cursor.col >= self.grid.size().cols {
                self.newline();
            }
        }
    }

    /// Write a string, one character at a time.
    pub fn write_str(&mut self, s: &str)
        requires
            old(self).wf(),
            old(self)@.write_chars_ok(s@),
        ensures
            final(self).wf(),
            final(self)@ == old(self)@.write_chars(s@),
    {
        let ghost start = self@;
        proof {
            broadcast use vstd::string::group_string_axioms;
        }
        for c in it: s.chars()
            invariant
                self.wf(),
                it.seq() == s@,
                start.write_chars_ok(s@),
                self@ == start.write_chars(it.seq().take(it.index())),
        {
            proof {
                lemma_write_chars_prefix_ok(start, s@, s@.take(it.index() + 1));
                assert(s@.take(it.index() + 1).drop_last() =~= s@.take(it.index() as int));
            }
            self.write_char(c);
            proof {
                assert(s@.take(it.index() + 1).drop_last() =~= s@.take(it.index() as int));
            }
        }
        assert(s@.take(s@.len() as int) =~= s@);
    }

    fn newline(&mut self)
        requires
            old(self)@.with_cursor(old(self)@.cursor.row as int, 0).wf(),
        ensures
            final(self).wf(),
            final(self)@ == old(self)@.newline(),
    {
        self.cursor.col = 0;
        if self.cursor.row as u32 + 1 >= self.grid.size().rows as u32 {
            self.scroll();
        } else {
            self.cursor.row = self.cursor.row + 1;
        }
    }

    fn scroll(&mut self)
        requires
            old(self).wf(),
        ensures
            final(self).wf(),
            final(self)@ == old(self)@.scroll(),
    {
        let row_size = self.grid.size().cols;
        let mut top_row: Vec<Cell> = Vec::new();
        let mut col: u16 = 0;
        let ghost g = self.grid@;
        proof {
            if g.size.rows > 0 {
                assert((g.size.cols as int) <= g.cells.len()) by (nonlinear_arith)
                    requires
                        g.size.rows > 0,
                        g.cells.len() == (g.size.cols as int) * (g.size.rows as int),
                ;
            }
        }
        while col < row_size
            invariant
                self.grid.wf(),
                self.grid@ == g,
                g.size.rows > 0 ==> g.size.cols <= g.cells.len(),
                self@.grid == g,
                row_size == g.size.cols,
                col <= row_size,
                top_row@.len() == col,
                forall|j: int| 0 <= j < col ==> top_row@[j] == self@.top_row()[j],
            decreases row_size - col,
        {
            let cell = match self.grid.get(0, col) {
                Some(c) => *c,
                None => Cell::default(),
            };
            proof {
                if g.size.rows > 0 {
                    lemma_cell_index_bounds(g.size, 0, col as int);
                    assert(cell_index(g.size, 0, col as int) == col);
                }
            }
            top_row.push(cell);
            col = col + 1;
        }
        assert(top_row@ =~= self@.top_row()) by {
            if g.size.rows > 0 {
                assert((g.size.cols as int) <= g.cells.len()) by (nonlinear_arith)
                    requires
                        g.size.rows > 0,
                        g.cells.len() == (g.size.cols as int) * (g.size.rows as int),
                ;
            }
        }
        let ghost before = self@;
        self.scrollback.push(top_row);
        let ghost pushed = before.scrollback.push(before.top_row());
        assert(self.scrollback@.map_values(|r: Vec<Cell>| r@) =~= pushed);
        if self.scrollback.len() > self.scrollback_limit {
            self.scrollback.remove(0);
            assert(self.scrollback@.map_values(|r: Vec<Cell>| r@) =~= pushed.skip(
                pushed.len() - self.scrollback_limit,
            ));
        }
        self.grid.scroll_up(1);
    }

    /// Enter the alternate screen buffer: the current screen is set aside and
    /// a blank screen of the same size takes its place. No-op when already on
    /// the alternate screen.
    pub fn enter_alt_screen(&mut self)
        requires
            old(self).wf(),
        ensures
            final(self).wf(),
            final(self)@ == old(self)@.entered_alt(),
    {
        if self.alt_grid.is_none() {
            let mut alt = Grid::new(self.grid.size());
            std::mem::swap(&mut self.grid, &mut alt);
            self.alt_grid = Some(alt);
        }
    }

    /// Leave the alternate screen buffer, restoring the saved screen.
    pub fn leave_alt_screen(&mut self)
        requires
            old(self).wf(),
        ensures
            final(self).wf(),
            final(self)@ == old(self)@.left_alt(),
    {
        if let Some(alt) = self.alt_grid.take() {
            self.grid = alt;
        }
    }

    /// Set the cursor position (0-indexed), clamped to the screen.
    pub fn set_cursor(&mut self, row: u16, col: u16)
        requires
            old(self).wf(),
        ensures
            final(self).wf(),
            final(self)@ == old(self)@.placed(row, col),
    {
        let size = self.grid.size();
        self.cursor.row = min_u16(row, size.rows.saturating_sub(1));
        self.cursor.col = min_u16(col, size.cols.saturating_sub(1));
    }

    pub fn set_cursor_visible(&mut self, visible: bool)
        ensures
            final(self)@ == (TerminalView { cursor_visible: visible, ..old(self)@ }),
    {
        self.cursor_visible = visible;
    }

    pub fn set_cursor_style(&mut self, style: CursorStyle)
        ensures
            final(self)@ == (TerminalView { cursor_style: style, ..old(self)@ }),
    {
        self.cursor_style = style;
    }

    pub fn set_title(&mut self, title: String)
        ensures
            final(self)@ == (TerminalView { title: title@, ..old(self)@ }),
    {
        self.title = title;
    }

    /// Clear the screen and home the cursor.
    pub fn clear(&mut self)
        requires
            old(self).wf(),
        ensures
            final(self).wf(),
            final(self)@ == old(self)@.cleared(),
    {
        self.grid.clear();
        self.cursor = CursorPos::default();
    }

    pub fn set_attrs(&mut self, attrs: CellAttrs)
        ensures
            final(self)@ == (TerminalView { attrs, ..old(self)@ }),
    {
        self.attrs = attrs;
    }

    pub fn reset_attrs(&mut self)
        ensures
            final(self)@ == (TerminalView { attrs: default_attrs(), ..old(self)@ }),
    {
        self.attrs = CellAttrs::default();
    }
}

/// `v` clamped to `n - 1` (to 0 when `n` is 0).
pub open spec fn clamp_to_last(v: u16, n: u16) -> u16 {
    let last: u16 = if n > 0 { (n - 1) as u16 } else { 0 };
    if v < last { v } else { last }
}

pub fn min_u16(a: u16, b: u16) -> (m: u16)
    ensures
        m == if a < b { a } else { b },
{
    if a < b { a } else { b }
}

/// Writability of a sequence holds for each of its prefixes.
pub proof fn lemma_write_chars_prefix_ok(t: TerminalView, cs: Seq<char>, prefix: Seq<char>)
    requires
        t.write_chars_ok(cs),
        prefix.len() <= cs.len(),
        prefix == cs.take(prefix.len() as int),
    ensures
        t.write_chars_ok(prefix),
    decreases cs.len(),
{
    if prefix.len() < cs.len() {
        assert(cs.drop_last().take(prefix.len() as int) =~= prefix);
        lemma_write_chars_prefix_ok(t, cs.drop_last(), prefix);
    } else {
        assert(prefix =~= cs);
    }
}

/// Leaving the alternate screen after entering it from the primary screen
/// restores the primary screen exactly; everything drawn on the alternate
/// screen is discarded. Entering twice is entering once.
pub proof fn lemma_alt_screen_round_trip(t: TerminalView)
    requires
        t.alt_grid is None,
    ensures
        t.entered_alt().left_alt() == t,
        t.entered_alt().entered_alt() == t.entered_alt(),
        t.entered_alt().wf() == t.wf(),
{
    assert(t.entered_alt().left_alt() =~= t);
}

/// Anything drawn on the alternate screen is gone once it is left: the
/// screen shown afterwards is the one set aside on entering.
pub proof fn lemma_alt_screen_isolates(t: TerminalView, drawn: GridView)
    requires
        t.alt_grid is None,
    ensures
        (TerminalView { grid: drawn, ..t.entered_alt() }).left_alt().grid == t.grid,
{
}

/// Writing two pieces of text one after the other is writing them joined.
pub proof fn lemma_write_chars_append(t: TerminalView, a: Seq<char>, b: Seq<char>)
    ensures
        t.write_chars(a + b) == t.write_chars(a).write_chars(b),
        t.write_chars_ok(a + b) == (t.write_chars_ok(a) && t.write_chars(a).write_chars_ok(b)),
    decreases b.len(),
{
    if b.len() == 0 {
        assert(a + b =~= a);
    } else {
        lemma_write_chars_append(t, a, b.drop_last());
        assert((a + b).drop_last() =~= a + b.drop_last());
        assert((a + b).last() == b.last());
    }
}


/// One call on a terminal, as the laws over runs of calls speak of them
/// (everything but a resize).
pub enum ScreenStep {
    Write(char),
    Place(u16, u16),
    Clear,
    SetAttrs(CellAttrs),
    EnterAlt,
    LeaveAlt,
    SetTitle(Seq<char>),
    SetCursorVisible(bool),
    SetCursorStyle(CursorStyle),
}

/// The terminal after one call, as the method's contract gives it.
pub open spec fn screen_stepped(t: TerminalView, s: ScreenStep) -> TerminalView {
    match s {
        ScreenStep::Write(c) => t.write_char(c),
        ScreenStep::Place(row, col) => t.placed(row, col),
        ScreenStep::Clear => t.cleared(),
        ScreenStep::SetAttrs(attrs) => TerminalView { attrs, ..t },
        ScreenStep::EnterAlt => t.entered_alt(),
        ScreenStep::LeaveAlt => t.left_alt(),
        ScreenStep::SetTitle(title) => TerminalView { title, ..t },
        ScreenStep::SetCursorVisible(b) => TerminalView { cursor_visible: b, ..t },
        ScreenStep::SetCursorStyle(style) => TerminalView { cursor_style: style, ..t },
    }
}

/// The terminal after the calls, in order.
pub open spec fn screen_run(t: TerminalView, steps: Seq<ScreenStep>) -> TerminalView
    decreases steps.len(),
{
    if steps.len() == 0 {
        t
    } else {
        screen_stepped(screen_run(t, steps.drop_last()), steps.last())
    }
}

/// The cursor is on a cell of the screen, and a screen set aside has the
/// size of the one shown.
pub open spec fn cursor_on_screen(t: TerminalView) -> bool {
    &&& t.cursor.row < t.grid.size.rows
    &&& t.cursor.col < t.grid.size.cols
    &&& (t.alt_grid matches Some(a) ==> a.size == t.grid.size)
}

proof fn lemma_step_keeps_cursor_on_screen(t: TerminalView, s: ScreenStep)
    requires
        cursor_on_screen(t),
    ensures
        cursor_on_screen(screen_stepped(t, s)),
        screen_stepped(t, s).grid.size == t.grid.size,
{
    match s {
        ScreenStep::Write(c) => {
            let row = t.cursor.row as int;
            let col = t.cursor.col as int;
            if c == '\t' {
                let next_tab = (col / 8 + 1) * 8;
                assert(next_tab >= 0);
            } else if c != '\n' && c != '\r' && c != '\x08' && !spec_is_control(c) {
                let u = TerminalView {
                    grid: t.grid.set(row, col, Cell { char: c, attrs: t.attrs }),
                    ..t
                }.with_cursor(row, col + 1);
                assert(u.grid.size == t.grid.size);
                assert(u.cursor.row == t.cursor.row);
            }
        },
        _ => {},
    }
}

/// Whatever is written and whatever the cursor is sent to, short of a
/// resize, the cursor stays on a cell of a screen of the same size.
pub proof fn lemma_runs_keep_cursor_on_screen(t: TerminalView, steps: Seq<ScreenStep>)
    requires
        cursor_on_screen(t),
    ensures
        cursor_on_screen(screen_run(t, steps)),
        screen_run(t, steps).grid.size == t.grid.size,
    decreases steps.len(),
{
    if steps.len() > 0 {
        lemma_runs_keep_cursor_on_screen(t, steps.drop_last());
        lemma_step_keeps_cursor_on_screen(screen_run(t, steps.drop_last()), steps.last());
    }
}

proof fn lemma_runs_keep_saved_screen(t: TerminalView, steps: Seq<ScreenStep>)
    requires
        t.alt_grid is Some,
        forall|i: int| 0 <= i < steps.len() ==> !(#[trigger] steps[i] is LeaveAlt),
    ensures
        screen_run(t, steps).alt_grid == t.alt_grid,
    decreases steps.len(),
{
    if steps.len() > 0 {
        let prefix = steps.drop_last();
        assert forall|i: int| 0 <= i < prefix.len() implies !(#[trigger] prefix[i] is LeaveAlt) by {
            assert(prefix[i] == steps[i]);
        }
        lemma_runs_keep_saved_screen(t, prefix);
        assert(!(steps[steps.len() - 1] is LeaveAlt));
    }
}

/// Leaving the alternate screen gives back the screen exactly as it was
/// when it was entered, whatever was done on the alternate screen in
/// between; leaving it when it is not shown changes nothing.
pub proof fn lemma_alt_screen_restores(t: TerminalView, steps: Seq<ScreenStep>)
    requires
        t.alt_grid is None,
        forall|i: int| 0 <= i < steps.len() ==> !(#[trigger] steps[i] is LeaveAlt),
    ensures
        screen_run(t.entered_alt(), steps).left_alt().grid == t.grid,
        screen_run(t.entered_alt(), steps).left_alt().alt_grid is None,
        t.left_alt() == t,
{
    lemma_runs_keep_saved_screen(t.entered_alt(), steps);
}

/// The title is the one set last, or the one before the run when none was
/// set.
pub proof fn lemma_title_is_last_set(t: TerminalView, steps: Seq<ScreenStep>)
    ensures
        (forall|j: int| 0 <= j < steps.len() ==> !(#[trigger] steps[j] is SetTitle))
            ==> screen_run(t, steps).title == t.title,
        forall|i: int|
            0 <= i < steps.len() && (#[trigger] steps[i] matches ScreenStep::SetTitle(title)) && (forall|j: int|
                i < j < steps.len() ==> !(#[trigger] steps[j] is SetTitle)) ==> screen_run(t, steps).title
                == steps[i]->SetTitle_0,
    decreases steps.len(),
{
    if steps.len() > 0 {
        let n = steps.len() - 1;
        let prefix = steps.drop_last();
        lemma_title_is_last_set(t, prefix);
        assert forall|j: int| 0 <= j < n implies #[trigger] steps[j] == prefix[j] by {}
        let w = screen_run(t, prefix);
        assert(screen_run(t, steps) == screen_stepped(w, steps[n]));
        if !(steps[n] is SetTitle) {
            assert(screen_stepped(w, steps[n]).title == w.title);
        }
    }
}

/// A resize that keeps the width keeps every row that still fits, cell for
/// cell, and the rows it adds are blank.
pub proof fn lemma_resize_same_width_keeps_rows(g: GridView, rows: u16, row: int, col: int)
    requires
        g.wf(),
        0 <= row < rows,
        0 <= col < g.size.cols,
    ensures
        ({
            let size = TerminalSize { cols: g.size.cols, rows };
            let cells = resized_cells(g.cells, size.area());
            &&& cells.len() == size.area()
            &&& cell_index(size, row, col) < cells.len()
            &&& cells[cell_index(size, row, col)] == if row < g.size.rows {
                g.cells[cell_index(g.size, row, col)]
            } else {
                blank_cell()
            }
        }),
{
    let size = TerminalSize { cols: g.size.cols, rows };
    let cols = g.size.cols as int;
    let idx = cell_index(size, row, col);
    let cells = resized_cells(g.cells, size.area());
    lemma_cell_index_bounds(size, row, col);
    assert(idx == cell_index(g.size, row, col));
    assert((g.size.rows as int) * (g.size.cols as int) == (g.size.cols as nat) * (g.size.rows as nat))
        by (nonlinear_arith);
    if row < g.size.rows {
        lemma_cell_index_bounds(g.size, row, col);
        assert(cells[idx] == g.cells[idx]);
    } else {
        assert(row * cols >= (g.size.rows as int) * cols) by (nonlinear_arith)
            requires
                row >= g.size.rows as int,
                cols >= 0,
        ;
        assert(idx >= g.cells.len());
        assert(cells == g.cells + blanks((size.area() - g.cells.len()) as nat));
        assert(cells[idx] == blank_cell());
    }
}

} // verus!
