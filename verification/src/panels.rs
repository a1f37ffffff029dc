//! What the side panels and the status bar show, row by row and cell by
//! cell, for a given size. A front end paints these with the theme's
//! colors.
use vstd::prelude::*;

use crate::editor::{EditorState, EditorView};
use crate::file_browser::{file_name, file_name_of, FileBrowserState};
use crate::keybindings::KeymapResolver;
use crate::status::{truncate, truncated};
use crate::text::{chars_of, push_str_chars, string_from_chars};
use crate::theme::ThemePalette;

verus! {

/// How a panel row is painted: as a bar, as plain text, or as the
/// highlighted selection. The rest of the row is blank in the same style.
#[derive(Debug, Clone, Copy, PartialEq, Eq, Structural)]
pub enum RowStyle {
    Bar,
    Plain,
    Selected,
}

/// One row of a panel: its text, already cut to the panel's width, and its
/// style.
#[derive(Debug, Clone)]
pub struct PanelRow {
    pub text: String,
    pub style: RowStyle,
}

pub open spec fn rows_view(v: Seq<PanelRow>) -> Seq<(Seq<char>, RowStyle)> {
    v.map_values(|r: PanelRow| (r.text@, r.style))
}

/// The key hints shown at the foot of the editor when there is no message.
pub open spec fn hint_bar_text() -> Seq<char> {
    "^S Save  ^X Exit  ^T Close Panel"@
}

/// The name the editor header shows for `path`.
pub open spec fn display_name(path: Seq<char>) -> Seq<char> {
    if file_name(path).len() == 0 {
        "[No Name]"@
    } else {
        file_name(path)
    }
}

/// The editor header: the file's name, marked while there are unsaved
/// changes.
pub open spec fn editor_header(path: Seq<char>, dirty: bool) -> Seq<char> {
    display_name(path) + if dirty {
        " [Modified]"@
    } else {
        Seq::empty()
    }
}

/// The first buffer line shown when `text_height` lines fit: the view
/// scrolls just far enough to keep the cursor's line visible.
pub open spec fn editor_scroll(row: int, text_height: int) -> int {
    if text_height == 0 {
        0
    } else if row >= text_height {
        row + 1 - text_height
    } else {
        0
    }
}

/// The editor panel of `width` by `height` cells: the header bar on the
/// first row, buffer lines below it, and the hint bar (or `status`) on the
/// last row, which wins where the two bars meet.
pub open spec fn editor_frame(v: EditorView, path: Seq<char>, status: Option<Seq<char>>, width: nat, height: nat) -> Seq<
    (Seq<char>, RowStyle),
> {
    if width == 0 || height == 0 {
        Seq::empty()
    } else {
        Seq::new(
            height,
            |y: int|
                if y == height - 1 {
                    (
                        truncated(
                            match status {
                                Some(s) => s,
                                None => hint_bar_text(),
                            },
                            width,
                        ),
                        RowStyle::Bar,
                    )
                } else if y == 0 {
                    (truncated(editor_header(path, v.dirty), width), RowStyle::Bar)
                } else {
                    let i = editor_scroll(v.row, if height >= 2 { height - 2 } else { 0 }) + y - 1;
                    if i < v.lines.len() {
                        (truncated(v.lines[i], width), RowStyle::Plain)
                    } else {
                        (Seq::empty(), RowStyle::Plain)
                    }
                },
        )
    }
}

/// The editor side panel.
pub struct EditorPanel<'a> {
    pub state: &'a EditorState,
    pub theme: &'a ThemePalette,
    pub status: Option<&'a str>,
}

/// `s` as a `String`.
fn owned(s: &str) -> (r: String)
    ensures
        r@ == s@,
{
    let cs = chars_of(s);
    string_from_chars(&cs)
}

impl<'a> EditorPanel<'a> {
    /// The rows the panel shows in `width` by `height` cells.
    pub fn frame(&self, width: u16, height: u16) -> (rows: Vec<PanelRow>)
        requires
            self.state.view().wf(),
        ensures
            rows_view(rows@) == editor_frame(
                self.state.view(),
                self.state.spec_path(),
                match self.status {
                    Some(s) => Some(s@),
                    None => None,
                },
                width as nat,
                height as nat,
            ),
    {
        let ghost v = self.state.view();
        let ghost st = match self.status {
            Some(s) => Some(s@),
            None => None::<Seq<char>>,
        };
        let ghost want = editor_frame(v, self.state.spec_path(), st, width as nat, height as nat);
        let mut rows: Vec<PanelRow> = Vec::new();
        if width == 0 || height == 0 {
            assert(rows_view(rows@) =~= want);
            return rows;
        }
        proof {
            broadcast use vstd::string::group_string_axioms;
        }
        let w = width as usize;
        let lines = self.state.lines();
        let (cursor_row, _col) = self.state.cursor();
        let text_height: usize = if height >= 2 {
            (height - 2) as usize
        } else {
            0
        };
        let scroll: usize = if text_height == 0 {
            0
        } else if cursor_row >= text_height {
            cursor_row - text_height + 1
        } else {
            0
        };
        let mut header = owned("[No Name]");
        let name = file_name_of(self.state.path().as_str());
        if name.len() > 0 {
            header = string_from_chars(&name);
        }
        if self.state.dirty() {
            push_str_chars(&mut header, " [Modified]");
        }
        let ghost hv = header@;
        assert(hv == editor_header(self.state.spec_path(), v.dirty));
        let foot = match self.status {
            Some(s) => owned(s),
            None => owned("^S Save  ^X Exit  ^T Close Panel"),
        };
        let ghost fv = foot@;
        assert(fv == match st {
            Some(s) => s,
            None => hint_bar_text(),
        });
        let mut y: u16 = 0;
        while y < height
            invariant
                0 < width,
                0 < height,
                y <= height,
                w == width,
                lines@.map_values(|s: String| s@) == v.lines,
                cursor_row == v.row,
                v.wf(),
                text_height == height as int - 2 || (height < 2 && text_height == 0),
                scroll == editor_scroll(v.row, if height >= 2 { height - 2 } else { 0 }),
                scroll <= lines@.len(),
                header@ == editor_header(self.state.spec_path(), v.dirty),
                foot@ == match st {
                    Some(s) => s,
                    None => hint_bar_text(),
                },
                want == editor_frame(v, self.state.spec_path(), st, width as nat, height as nat),
                want.len() == height,
                rows_view(rows@) == want.take(y as int),
            decreases height - y,
        {
            let ghost before = rows@;
            let row = if y == height - 1 {
                PanelRow { text: truncate(foot.as_str(), w), style: RowStyle::Bar }
            } else if y == 0 {
                PanelRow { text: truncate(header.as_str(), w), style: RowStyle::Bar }
            } else {
                let k = (y as usize) - 1;
                if k < lines.len() - scroll {
                    let i = scroll + k;
                    proof {
                        assert(lines@[i as int]@ == v.lines[i as int]);
                    }
                    PanelRow { text: truncate(lines[i].as_str(), w), style: RowStyle::Plain }
                } else {
                    assert(scroll + k >= v.lines.len());
                    PanelRow { text: String::new(), style: RowStyle::Plain }
                }
            };
            rows.push(row);
            proof {
                assert(rows_view(rows@) =~= rows_view(before).push(want[y as int]));
                assert(want.take(y + 1) =~= want.take(y as int).push(want[y as int]));
            }
            y = y + 1;
        }
        assert(want.take(height as int) =~= want);
        rows
    }
}

/// How a tree row starts: `▼`/`▶` for an open or closed directory, blank
/// for a file.
pub open spec fn tree_marker(is_dir: bool, expanded: bool) -> Seq<char> {
    if is_dir {
        if expanded {
            "▼ "@
        } else {
            "▶ "@
        }
    } else {
        "  "@
    }
}

/// Two spaces of indentation per level.
pub open spec fn indent(depth: nat) -> Seq<char> {
    Seq::new(2 * depth, |i: int| ' ')
}

/// The label of a tree row: indentation, marker and the entry's name.
pub open spec fn tree_label(path: Seq<char>, is_dir: bool, depth: nat, expanded: bool) -> Seq<char> {
    indent(depth) + tree_marker(is_dir, expanded) + if file_name(path).len() == 0 {
        "?"@
    } else {
        file_name(path)
    }
}

/// The file browser panel of `width` by `height` cells: the tree rows from
/// the scroll offset on, the selected one highlighted, blank rows below.
pub open spec fn browser_frame(
    rows: Seq<(Seq<char>, bool, nat)>,
    expanded: Seq<Seq<char>>,
    selected: nat,
    scroll: nat,
    width: nat,
    height: nat,
) -> Seq<(Seq<char>, RowStyle)> {
    Seq::new(
        height,
        |y: int|
            {
                let i = scroll + y;
                if i < rows.len() {
                    (
                        truncated(tree_label(rows[i].0, rows[i].1, rows[i].2, expanded.contains(rows[i].0)), width),
                        if i == selected {
                            RowStyle::Selected
                        } else {
                            RowStyle::Plain
                        },
                    )
                } else {
                    (Seq::empty(), RowStyle::Plain)
                }
            },
    )
}

/// The file browser side panel.
pub struct FileBrowserPanel<'a> {
    pub state: &'a FileBrowserState,
    pub theme: &'a ThemePalette,
}

/// Two spaces per level of `depth`.
fn indent_text(depth: usize) -> (s: String)
    ensures
        s@ == indent(depth as nat),
{
    let mut cs: Vec<char> = Vec::new();
    let mut k: usize = 0;
    while k < depth
        invariant
            k <= depth,
            cs@ == indent(k as nat),
        decreases depth - k,
    {
        cs.push(' ');
        cs.push(' ');
        assert(cs@ =~= indent((k + 1) as nat));
        k = k + 1;
    }
    string_from_chars(&cs)
}

impl<'a> FileBrowserPanel<'a> {
    /// The rows the panel shows in `width` by `height` cells.
    pub fn frame(&self, width: u16, height: u16) -> (out: Vec<PanelRow>)
        ensures
            rows_view(out@) == browser_frame(
                self.state.rows(),
                self.state.spec_expanded(),
                self.state.spec_selected(),
                self.state.spec_scroll(),
                width as nat,
                height as nat,
            ),
    {
        proof {
            broadcast use vstd::string::group_string_axioms;
        }
        let entries = self.state.entries();
        let selected = self.state.selected_index();
        let scroll = self.state.scroll_offset();
        let ghost rs = self.state.rows();
        let ghost want = browser_frame(
            rs,
            self.state.spec_expanded(),
            self.state.spec_selected(),
            self.state.spec_scroll(),
            width as nat,
            height as nat,
        );
        let mut out: Vec<PanelRow> = Vec::new();
        let mut y: u16 = 0;
        while y < height
            invariant
                y <= height,
                rs == self.state.rows(),
                rs.len() == entries@.len(),
                forall|j: int|
                    0 <= j < entries@.len() ==> #[trigger] rs[j] == (
                        entries@[j].path@,
                        entries@[j].is_dir,
                        entries@[j].depth as nat,
                    ),
                selected == self.state.spec_selected(),
                scroll == self.state.spec_scroll(),
                want == browser_frame(
                    rs,
                    self.state.spec_expanded(),
                    self.state.spec_selected(),
                    self.state.spec_scroll(),
                    width as nat,
                    height as nat,
                ),
                want.len() == height,
                rows_view(out@) == want.take(y as int),
            decreases height - y,
        {
            let ghost before = out@;
            let row = if scroll < entries.len() && (y as usize) < entries.len() - scroll {
                let i = scroll + y as usize;
                let e = &entries[i];
                let mut label = indent_text(e.depth);
                let open = self.state.is_expanded(e.path.as_str());
                if e.is_dir {
                    if open {
                        push_str_chars(&mut label, "▼ ");
                    } else {
                        push_str_chars(&mut label, "▶ ");
                    }
                } else {
                    push_str_chars(&mut label, "  ");
                }
                let name = file_name_of(e.path.as_str());
                if name.len() == 0 {
                    push_str_chars(&mut label, "?");
                } else {
                    let n = string_from_chars(&name);
                    push_str_chars(&mut label, n.as_str());
                }
                proof {
                    assert(rs[i as int] == (e.path@, e.is_dir, e.depth as nat));
                    assert(label@ == tree_label(e.path@, e.is_dir, e.depth as nat, open));
                }
                PanelRow {
                    text: truncate(label.as_str(), width as usize),
                    style: if i == selected {
                        RowStyle::Selected
                    } else {
                        RowStyle::Plain
                    },
                }
            } else {
                PanelRow { text: String::new(), style: RowStyle::Plain }
            };
            out.push(row);
            proof {
                assert(rows_view(out@) =~= rows_view(before).push(want[y as int]));
                assert(want.take(y + 1) =~= want.take(y as int).push(want[y as int]));
            }
            y = y + 1;
        }
        assert(want.take(height as int) =~= want);
        out
    }
}

/// What the status bar's badge says: keys going to the terminal, a key
/// sequence under way, or locked input.
#[derive(Debug, Clone, Copy, PartialEq, Eq, Structural)]
pub enum StatusMode {
    Terminal,
    Waiting,
    Locked,
}

/// The mode the key resolver is in: locked first, then waiting on the rest
/// of a sequence.
pub fn status_mode(resolver: &KeymapResolver) -> (m: StatusMode)
    ensures
        m == (if resolver.view().locked {
            StatusMode::Locked
        } else if resolver.view().pending.len() > 0 {
            StatusMode::Waiting
        } else {
            StatusMode::Terminal
        }),
{
    if resolver.is_locked() {
        StatusMode::Locked
    } else if resolver.awaiting_input() {
        StatusMode::Waiting
    } else {
        StatusMode::Terminal
    }
}

/// The badge's word for a mode.
pub open spec fn mode_label(m: StatusMode) -> Seq<char> {
    match m {
        StatusMode::Terminal => "TERM"@,
        StatusMode::Waiting => "WAIT"@,
        StatusMode::Locked => "LOCK"@,
    }
}

/// How a status bar cell is painted: as the mode badge or as the bar.
#[derive(Debug, Clone, Copy, PartialEq, Eq, Structural)]
pub enum BarStyle {
    Badge,
    Bar,
}

pub open spec fn min_nat(a: nat, b: nat) -> nat {
    if a <= b {
        a
    } else {
        b
    }
}

/// The status bar of `width` cells: the badge ` MODE ` from the left, a
/// space and the left text after it as far as they fit, and ` right `
/// against the right edge when the right text is not empty and does not
/// reach back into what is already drawn; blank bar elsewhere.
pub open spec fn status_bar_row(width: nat, mode: StatusMode, left: Seq<char>, right: Seq<char>) -> Seq<(char, BarStyle)> {
    let badge = " "@ + mode_label(mode) + " "@;
    let x1 = min_nat(badge.len(), width);
    let x2 = if x1 < width && left.len() > 0 {
        x1 + 1
    } else {
        x1
    };
    let x3 = x2 + min_nat(left.len(), (width - x2) as nat);
    let rd = " "@ + right + " "@;
    let shown = right.len() > 0 && rd.len() <= width && width - rd.len() >= x3;
    let start = width - rd.len();
    Seq::new(
        width,
        |i: int|
            if i < x1 {
                (badge[i], BarStyle::Badge)
            } else if i < x2 {
                (' ', BarStyle::Bar)
            } else if i < x3 {
                (left[i - x2], BarStyle::Bar)
            } else if shown && i >= start {
                (rd[i - start], BarStyle::Bar)
            } else {
                (' ', BarStyle::Bar)
            },
    )
}

/// The cells of a status bar `width` cells wide.
pub fn status_bar_cells(width: u16, mode: StatusMode, left: &str, right: &str) -> (cells: Vec<(char, BarStyle)>)
    ensures
        cells@ == status_bar_row(width as nat, mode, left@, right@),
{
    proof {
        broadcast use vstd::string::group_string_axioms;
    }
    let mut badge = owned(" ");
    match mode {
        StatusMode::Terminal => push_str_chars(&mut badge, "TERM"),
        StatusMode::Waiting => push_str_chars(&mut badge, "WAIT"),
        StatusMode::Locked => push_str_chars(&mut badge, "LOCK"),
    }
    push_str_chars(&mut badge, " ");
    let b = chars_of(badge.as_str());
    let l = chars_of(left);
    let mut rs = owned(" ");
    push_str_chars(&mut rs, right);
    push_str_chars(&mut rs, " ");
    let rd = chars_of(rs.as_str());
    let r_len = chars_of(right).len();
    let w = width as usize;
    let x1: usize = if b.len() <= w {
        b.len()
    } else {
        w
    };
    let x2: usize = if x1 < w && l.len() > 0 {
        x1 + 1
    } else {
        x1
    };
    let x3: usize = if l.len() <= w - x2 {
        x2 + l.len()
    } else {
        w
    };
    let shown = r_len > 0 && rd.len() <= w && w - rd.len() >= x3;
    let start: usize = if rd.len() <= w {
        w - rd.len()
    } else {
        0
    };
    let ghost want = status_bar_row(width as nat, mode, left@, right@);
    let mut cells: Vec<(char, BarStyle)> = Vec::new();
    let mut i: usize = 0;
    while i < w
        invariant
            i <= w,
            w == width,
            b@ == " "@ + mode_label(mode) + " "@,
            l@ == left@,
            rd@ == " "@ + right@ + " "@,
            r_len == right@.len(),
            x1 == min_nat(b@.len(), w as nat),
            x2 == (if x1 < w && l@.len() > 0 {
                x1 + 1
            } else {
                x1 as int
            }),
            x3 == x2 + min_nat(l@.len(), (w - x2) as nat),
            shown == (r_len > 0 && rd@.len() <= w && w - rd@.len() >= x3),
            shown ==> start == w - rd@.len(),
            want == status_bar_row(width as nat, mode, left@, right@),
            want.len() == w,
            cells@ == want.take(i as int),
        decreases w - i,
    {
        let c = if i < x1 {
            (b[i], BarStyle::Badge)
        } else if i < x2 {
            (' ', BarStyle::Bar)
        } else if i < x3 {
            (l[i - x2], BarStyle::Bar)
        } else if shown && i >= start {
            (rd[i - start], BarStyle::Bar)
        } else {
            (' ', BarStyle::Bar)
        };
        cells.push(c);
        proof {
            assert(c == want[i as int]);
            assert(want.take(i + 1) =~= want.take(i as int).push(want[i as int]));
        }
        i = i + 1;
    }
    assert(want.take(w as int) =~= want);
    cells
}

} // verus!
