//! UI-agnostic state for the built-in nano-like text editor.
//!
//! Deliberately non-modal: every printable key inserts immediately. Both
//! front ends translate their own key events into these methods, so the
//! buffer-editing logic exists once.
use vstd::prelude::*;

use crate::error::CastermError;
use crate::keys::KeyCode;
use crate::text::{chars_of, push_char, string_from_chars};

verus! {

/// What reading the file to edit gave.
pub enum FileRead {
    /// The file's text.
    Contents(String),
    /// There is no such file: the editor starts on an empty buffer.
    NotFound,
    /// Any other read error, with its message.
    Failed(String),
}

/// The buffer and cursor of an editor, in characters.
#[verifier::ext_equal]
pub struct EditorView {
    pub lines: Seq<Seq<char>>,
    pub row: int,
    pub col: int,
    pub dirty: bool,
}

impl EditorView {
    /// At least one line, and the cursor on a line, at most at its end.
    pub open spec fn wf(self) -> bool {
        &&& self.lines.len() >= 1
        &&& 0 <= self.row < self.lines.len()
        &&& 0 <= self.col <= self.lines[self.row].len()
    }

    pub open spec fn line(self) -> Seq<char> {
        self.lines[self.row]
    }
}

/// `\n`-separated pieces of `s`, scanning from the left with the piece in
/// progress `cur` and the finished pieces `acc`.
pub open spec fn split_lines_from(s: Seq<char>, cur: Seq<char>, acc: Seq<Seq<char>>) -> Seq<
    Seq<char>,
>
    decreases s.len(),
{
    if s.len() == 0 {
        acc.push(cur)
    } else if s[0] == '\n' {
        split_lines_from(s.skip(1), Seq::empty(), acc.push(cur))
    } else {
        split_lines_from(s.skip(1), cur.push(s[0]), acc)
    }
}

/// The lines of a text: its `\n`-separated pieces (one empty line for an
/// empty text, and an empty last line after a final `\n`).
pub open spec fn lines_of(s: Seq<char>) -> Seq<Seq<char>> {
    split_lines_from(s, Seq::empty(), Seq::empty())
}

pub(crate) proof fn lemma_split_lines_nonempty(s: Seq<char>, cur: Seq<char>, acc: Seq<Seq<char>>)
    ensures
        split_lines_from(s, cur, acc).len() >= acc.len() + 1,
    decreases s.len(),
{
    if s.len() > 0 {
        if s[0] == '\n' {
            lemma_split_lines_nonempty(s.skip(1), Seq::empty(), acc.push(cur));
        } else {
            lemma_split_lines_nonempty(s.skip(1), cur.push(s[0]), acc);
        }
    }
}

/// Lines joined with `\n` between them.
pub open spec fn join_lines(ls: Seq<Seq<char>>) -> Seq<char>
    decreases ls.len(),
{
    if ls.len() == 0 {
        Seq::empty()
    } else if ls.len() == 1 {
        ls[0]
    } else {
        join_lines(ls.drop_last()) + seq!['\n'] + ls.last()
    }
}

/// The cursor's line split in two at the cursor, the cursor at the start of
/// the second half.
pub open spec fn newlined(v: EditorView) -> EditorView {
    let line = v.line();
    EditorView {
        lines: v.lines.take(v.row) + seq![line.take(v.col), line.skip(v.col)] + v.lines.skip(
            v.row + 1,
        ),
        row: v.row + 1,
        col: 0,
        dirty: true,
    }
}

/// `ch` inserted at the cursor, the cursor past it; a newline splits the line.
pub open spec fn inserted(v: EditorView, ch: char) -> EditorView {
    if ch == '\n' {
        newlined(v)
    } else {
        let line = v.line();
        EditorView {
            lines: v.lines.update(v.row, line.take(v.col) + seq![ch] + line.skip(v.col)),
            col: v.col + 1,
            dirty: true,
            ..v
        }
    }
}

/// The character before the cursor deleted; at the start of a line other
/// than the first, the line joined onto the previous one.
pub open spec fn backspaced(v: EditorView) -> EditorView {
    let line = v.line();
    if v.col > 0 {
        EditorView {
            lines: v.lines.update(v.row, line.take(v.col - 1) + line.skip(v.col)),
            col: v.col - 1,
            dirty: true,
            ..v
        }
    } else if v.row > 0 {
        let prev = v.lines[v.row - 1];
        EditorView {
            lines: v.lines.take(v.row - 1) + seq![prev + line] + v.lines.skip(v.row + 1),
            row: v.row - 1,
            col: prev.len() as int,
            dirty: true,
        }
    } else {
        v
    }
}

/// The character at the cursor deleted; at the end of a line other than the
/// last, the next line joined onto it.
pub open spec fn deleted_forward(v: EditorView) -> EditorView {
    let line = v.line();
    if v.col < line.len() {
        EditorView {
            lines: v.lines.update(v.row, line.take(v.col) + line.skip(v.col + 1)),
            dirty: true,
            ..v
        }
    } else if v.row + 1 < v.lines.len() {
        EditorView {
            lines: v.lines.take(v.row) + seq![line + v.lines[v.row + 1]] + v.lines.skip(v.row + 2),
            dirty: true,
            ..v
        }
    } else {
        v
    }
}

pub open spec fn clamp(x: int, lo: int, hi: int) -> int {
    if x < lo {
        lo
    } else if x > hi {
        hi
    } else {
        x
    }
}

/// The cursor moved by rows, then by columns, each clamped: the row to the
/// buffer, the column to the length of the line it lands on.
pub open spec fn moved(v: EditorView, row_delta: int, col_delta: int) -> EditorView {
    let row = clamp(v.row + row_delta, 0, v.lines.len() - 1);
    EditorView { row, col: clamp(v.col + col_delta, 0, v.lines[row].len() as int), ..v }
}

/// In-memory buffer and cursor state for one open file.
pub struct EditorState {
    path: String,
    lines: Vec<Vec<char>>,
    cursor_row: usize,
    cursor_col: usize,
    dirty: bool,
}

/// What routing a key into the editor did, so a front end can update its
/// own state (a status message, leaving the editor) without repeating the
/// dispatch table.
#[derive(Debug, PartialEq)]
pub enum EditorKeyOutcome {
    /// The key was handled inside the editor (an edit, a cursor move, or an
    /// unmapped key that does nothing).
    Handled,
    /// `Ctrl+S`: the buffer was saved (`Ok`) or not (`Err` with a message).
    Saved(Result<(), String>),
    /// `Ctrl+X`: leave the editor.
    Exit,
}

impl EditorState {
    pub closed spec fn view(&self) -> EditorView {
        EditorView {
            lines: self.lines@.map_values(|l: Vec<char>| l@),
            row: self.cursor_row as int,
            col: self.cursor_col as int,
            dirty: self.dirty,
        }
    }

    pub closed spec fn spec_path(&self) -> Seq<char> {
        self.path@
    }

    /// A fresh editor on `path`, from what reading it gave: its lines, or
    /// one empty line for a missing file; any other read error is returned.
    pub fn load(path: String, read: FileRead) -> (r: Result<EditorState, CastermError>)
        ensures
            match read {
                FileRead::Contents(text) => r matches Ok(e) && e.view() == (EditorView {
                    lines: lines_of(text@),
                    row: 0,
                    col: 0,
                    dirty: false,
                }) && e.spec_path() == path@,
                FileRead::NotFound => r matches Ok(e) && e.view() == (EditorView {
                    lines: seq![Seq::empty()],
                    row: 0,
                    col: 0,
                    dirty: false,
                }) && e.spec_path() == path@,
                FileRead::Failed(m) => r == Err::<EditorState, CastermError>(CastermError::Io(m)),
            },
            r matches Ok(e) ==> e.view().wf(),
    {
        let ghost text_view = match &read {
            FileRead::Contents(text) => text@,
            _ => Seq::<char>::empty(),
        };
        let lines = match read {
            FileRead::Contents(text) => split_lines(text.as_str()),
            FileRead::NotFound => {
                let mut v: Vec<Vec<char>> = Vec::new();
                v.push(Vec::new());
                proof {
                    assert(v@.map_values(|l: Vec<char>| l@) =~= seq![Seq::<char>::empty()]);
                }
                v
            },
            FileRead::Failed(m) => {
                return Err(CastermError::Io(m));
            },
        };
        let e = EditorState { path, lines, cursor_row: 0, cursor_col: 0, dirty: false };
        proof {
            lemma_split_lines_nonempty(text_view, Seq::empty(), Seq::empty());
        }
        Ok(e)
    }

    pub fn path(&self) -> (p: &String)
        ensures
            p@ == self.spec_path(),
    {
        &self.path
    }

    /// The buffer's lines.
    pub fn lines(&self) -> (ls: Vec<String>)
        ensures
            ls@.map_values(|s: String| s@) == self.view().lines,
    {
        let mut out: Vec<String> = Vec::new();
        let mut i: usize = 0;
        while i < self.lines.len()
            invariant
                i <= self.lines@.len(),
                out@.map_values(|s: String| s@) == self.view().lines.take(i as int),
            decreases self.lines.len() - i,
        {
            let s = string_from_chars(&self.lines[i]);
            let ghost before = out@;
            out.push(s);
            proof {
                assert(self.view().lines[i as int] == self.lines@[i as int]@);
                assert(self.view().lines.take(i + 1) =~= self.view().lines.take(i as int).push(s@));
                assert(out@.map_values(|s: String| s@) =~= before.map_values(|s: String| s@).push(s@));
            }
            i = i + 1;
        }
        assert(self.view().lines.take(self.lines@.len() as int) =~= self.view().lines);
        out
    }

    /// The cursor as (row, column), in characters.
    pub fn cursor(&self) -> (c: (usize, usize))
        ensures
            c.0 == self.view().row,
            c.1 == self.view().col,
    {
        (self.cursor_row, self.cursor_col)
    }

    pub fn dirty(&self) -> (d: bool)
        ensures
            d == self.view().dirty,
    {
        self.dirty
    }

    /// The text a save writes: the lines joined with `\n`, and a final `\n`.
    pub fn contents(&self) -> (s: String)
        ensures
            s@ == join_lines(self.view().lines) + seq!['\n'],
    {
        let mut s = String::new();
        let mut i: usize = 0;
        while i < self.lines.len()
            invariant
                i <= self.lines@.len(),
                s@ == join_lines(self.view().lines.take(i as int)),
            decreases self.lines.len() - i,
        {
            let ghost before = s@;
            if i > 0 {
                push_char(&mut s, '\n');
            }
            let line = &self.lines[i];
            let mut j: usize = 0;
            let ghost mid = s@;
            while j < line.len()
                invariant
                    j <= line@.len(),
                    s@ == mid + line@.take(j as int),
                decreases line.len() - j,
            {
                push_char(&mut s, line[j]);
                proof {
                    assert(line@.take(j + 1) =~= line@.take(j as int).push(line@[j as int]));
                }
                j = j + 1;
            }
            proof {
                let ls = self.view().lines.take(i + 1);
                assert(line@.take(line@.len() as int) =~= line@);
                assert(ls.drop_last() =~= self.view().lines.take(i as int));
                assert(ls.last() == line@);
                if i == 0 {
                    assert(ls.len() == 1);
                    assert(s@ =~= ls[0]);
                } else {
                    assert(s@ =~= before + seq!['\n'] + line@);
                }
            }
            i = i + 1;
        }
        assert(self.view().lines.take(self.lines@.len() as int) =~= self.view().lines);
        push_char(&mut s, '\n');
        s
    }

    /// Write the buffer back with `write`, which receives the path and the
    /// text of `contents`. The buffer is clean afterwards exactly when the
    /// write succeeded; a failure comes back as an I/O error.
    pub fn save<F: FnOnce(&str, &str) -> Result<(), String>>(&mut self, write: F) -> (r: Result<
        (),
        CastermError,
    >)
        requires
            forall|p: &str, t: &str| write.requires((p, t)),
        ensures
            exists|p: &str, t: &str, w: Result<(), String>|
                {
                    &&& p@ == old(self).spec_path()
                    &&& t@ == join_lines(old(self).view().lines) + seq!['\n']
                    &&& #[trigger] write.ensures((p, t), w)
                    &&& match w {
                        Ok(()) => r is Ok,
                        Err(m) => r == Err::<(), CastermError>(CastermError::Io(m)),
                    }
                },
            final(self).view() == (EditorView { dirty: old(self).view().dirty && r is Err, ..old(self).view() }),
            final(self).spec_path() == old(self).spec_path(),
    {
        let text = self.contents();
        let w = write(self.path.as_str(), text.as_str());
        match w {
            Ok(()) => {
                self.dirty = false;
                proof {
                    assert(self.view() =~= (EditorView { dirty: false, ..old(self).view() }));
                }
                Ok(())
            },
            Err(m) => Err(CastermError::Io(m)),
        }
    }

    /// Insert one character at the cursor, advancing the cursor past it.
    pub fn insert_char(&mut self, ch: char)
        requires
            old(self).view().wf(),
        ensures
            final(self).view().wf(),
            final(self).view() == inserted(old(self).view(), ch),
            final(self).spec_path() == old(self).spec_path(),
    {
        if ch == '\n' {
            self.newline();
            return;
        }
        let row = self.cursor_row;
        let col = self.cursor_col;
        let ghost v = self.view();
        proof {
            assert(v.lines[row as int] == self.lines@[row as int]@);
        }
        let mut line = self.lines.remove(row);
        line.insert(col, ch);
        let new_len = line.len();
        assert(col < new_len);
        self.lines.insert(row, line);
        self.cursor_col = col + 1;
        self.dirty = true;
        proof {
            let l = v.lines[row as int];
            assert(line@ =~= l.take(col as int) + seq![ch] + l.skip(col as int));
            assert(self.view().lines =~= v.lines.update(row as int, line@));
            assert(self.view() =~= inserted(v, ch));
        }
    }

    /// Split the current line at the cursor into two lines.
    pub fn newline(&mut self)
        requires
            old(self).view().wf(),
        ensures
            final(self).view().wf(),
            final(self).view() == newlined(old(self).view()),
            final(self).spec_path() == old(self).spec_path(),
    {
        let row = self.cursor_row;
        let col = self.cursor_col;
        let ghost v = self.view();
        proof {
            assert(v.lines[row as int] == self.lines@[row as int]@);
        }
        let mut line = self.lines.remove(row);
        let rest = line.split_off(col);
        self.lines.insert(row, line);
        let n = self.lines.len();
        assert(row < n);
        self.lines.insert(row + 1, rest);
        self.cursor_row = row + 1;
        self.cursor_col = 0;
        self.dirty = true;
        proof {
            let l = v.lines[row as int];
            assert(self.view().lines =~= v.lines.take(row as int) + seq![
                l.take(col as int),
                l.skip(col as int),
            ] + v.lines.skip(row + 1));
            assert(self.view() =~= newlined(v));
        }
    }

    /// Delete the character before the cursor, joining with the previous
    /// line if the cursor is at column 0 of a line other than the first.
    pub fn backspace(&mut self)
        requires
            old(self).view().wf(),
        ensures
            final(self).view().wf(),
            final(self).view() == backspaced(old(self).view()),
            final(self).spec_path() == old(self).spec_path(),
    {
        let row = self.cursor_row;
        let col = self.cursor_col;
        let ghost v = self.view();
        proof {
            assert(v.lines[row as int] == self.lines@[row as int]@);
            if row > 0 {
                assert(v.lines[row - 1] == self.lines@[row - 1]@);
            }
        }
        if col > 0 {
            let mut line = self.lines.remove(row);
            line.remove(col - 1);
            self.lines.insert(row, line);
            self.cursor_col = col - 1;
            self.dirty = true;
            proof {
                let l = v.lines[row as int];
                assert(line@ =~= l.take(col - 1) + l.skip(col as int));
                assert(self.view().lines =~= v.lines.update(row as int, line@));
                assert(self.view() =~= backspaced(v));
            }
        } else if row > 0 {
            let mut current = self.lines.remove(row);
            let mut prev = self.lines.remove(row - 1);
            let prev_len = prev.len();
            prev.append(&mut current);
            self.lines.insert(row - 1, prev);
            self.cursor_row = row - 1;
            self.cursor_col = prev_len;
            self.dirty = true;
            proof {
                assert(self.view().lines =~= v.lines.take(row - 1) + seq![
                    v.lines[row - 1] + v.lines[row as int],
                ] + v.lines.skip(row + 1));
                assert(self.view() =~= backspaced(v));
            }
        }
    }

    /// Delete the character at the cursor, joining with the next line if
    /// the cursor is at the end of a line other than the last.
    pub fn delete_forward(&mut self)
        requires
            old(self).view().wf(),
        ensures
            final(self).view().wf(),
            final(self).view() == deleted_forward(old(self).view()),
            final(self).spec_path() == old(self).spec_path(),
    {
        let row = self.cursor_row;
        let col = self.cursor_col;
        let ghost v = self.view();
        let line_len = self.lines[row].len();
        let n = self.lines.len();
        proof {
            assert(v.lines[row as int] == self.lines@[row as int]@);
            assert(row < n);
        }
        if col < line_len {
            let mut line = self.lines.remove(row);
            line.remove(col);
            self.lines.insert(row, line);
            self.dirty = true;
            proof {
                let l = v.lines[row as int];
                assert(line@ =~= l.take(col as int) + l.skip(col + 1));
                assert(self.view().lines =~= v.lines.update(row as int, line@));
                assert(self.view() =~= deleted_forward(v));
            }
        } else if row + 1 < self.lines.len() {
            let mut next = self.lines.remove(row + 1);
            let mut line = self.lines.remove(row);
            line.append(&mut next);
            self.lines.insert(row, line);
            self.dirty = true;
            proof {
                assert(self.view().lines =~= v.lines.take(row as int) + seq![
                    v.lines[row as int] + v.lines[row + 1],
                ] + v.lines.skip(row + 2));
                assert(self.view() =~= deleted_forward(v));
            }
        }
    }

    /// Move the cursor by `(row_delta, col_delta)`, clamping to valid
    /// positions (the row first, then the column to that line's length).
    pub fn move_cursor(&mut self, row_delta: isize, col_delta: isize)
        requires
            old(self).view().wf(),
            old(self).view().lines.len() <= isize::MAX,
            forall|i: int|
                0 <= i < old(self).view().lines.len() ==> #[trigger] old(self).view().lines[i].len()
                    <= isize::MAX,
            isize::MIN <= old(self).view().row + row_delta <= isize::MAX,
            isize::MIN <= old(self).view().col + col_delta <= isize::MAX,
        ensures
            final(self).view().wf(),
            final(self).view() == moved(old(self).view(), row_delta as int, col_delta as int),
            final(self).spec_path() == old(self).spec_path(),
    {
        let ghost v = self.view();
        let max_row = (self.lines.len() - 1) as isize;
        let target_row = self.cursor_row as isize + row_delta;
        let new_row: isize = if target_row < 0 {
            0
        } else if target_row > max_row {
            max_row
        } else {
            target_row
        };
        self.cursor_row = new_row as usize;
        let line_len = self.lines[self.cursor_row].len() as isize;
        proof {
            assert(v.lines[new_row as int].len() <= isize::MAX);
        }
        let target_col = self.cursor_col as isize + col_delta;
        let new_col: isize = if target_col < 0 {
            0
        } else if target_col > line_len {
            line_len
        } else {
            target_col
        };
        self.cursor_col = new_col as usize;
        proof {
            assert(self.view() =~= moved(v, row_delta as int, col_delta as int));
        }
    }

    pub fn move_home(&mut self)
        requires
            old(self).view().wf(),
        ensures
            final(self).view().wf(),
            final(self).view() == (EditorView { col: 0, ..old(self).view() }),
            final(self).spec_path() == old(self).spec_path(),
    {
        self.cursor_col = 0;
        proof {
            assert(self.view() =~= (EditorView { col: 0, ..old(self).view() }));
        }
    }

    pub fn move_end(&mut self)
        requires
            old(self).view().wf(),
        ensures
            final(self).view().wf(),
            final(self).view() == (EditorView { col: old(self).view().line().len() as int, ..old(self).view() }),
            final(self).spec_path() == old(self).spec_path(),
    {
        self.cursor_col = self.lines[self.cursor_row].len();
        proof {
            assert(self.view() =~= (EditorView {
                col: old(self).view().line().len() as int,
                ..old(self).view()
            }));
        }
    }
}

/// The lines of `content`.
pub(crate) fn split_lines(content: &str) -> (ls: Vec<Vec<char>>)
    ensures
        ls@.map_values(|l: Vec<char>| l@) == lines_of(content@),
{
    let cs = chars_of(content);
    let mut out: Vec<Vec<char>> = Vec::new();
    let mut cur: Vec<char> = Vec::new();
    let mut i: usize = 0;
    assert(cs@.skip(0) =~= cs@);
    assert(out@.map_values(|l: Vec<char>| l@) =~= Seq::<Seq<char>>::empty());
    while i < cs.len()
        invariant
            i <= cs@.len(),
            cs@ == content@,
            split_lines_from(cs@.skip(i as int), cur@, out@.map_values(|l: Vec<char>| l@))
                == lines_of(content@),
        decreases cs.len() - i,
    {
        let c = cs[i];
        let ghost s = cs@.skip(i as int);
        let ghost acc = out@.map_values(|l: Vec<char>| l@);
        proof {
            assert(s.skip(1) =~= cs@.skip(i + 1));
            assert(s[0] == c);
        }
        if c == '\n' {
            let ghost old_cur = cur@;
            let done = cur;
            out.push(done);
            cur = Vec::new();
            assert(out@.map_values(|l: Vec<char>| l@) =~= acc.push(old_cur));
            assert(cur@ =~= Seq::<char>::empty());
        } else {
            cur.push(c);
        }
        i = i + 1;
    }
    let ghost acc = out@.map_values(|l: Vec<char>| l@);
    let ghost old_cur = cur@;
    out.push(cur);
    assert(out@.map_values(|l: Vec<char>| l@) =~= acc.push(old_cur));
    out
}

impl EditorView {
    /// Line count and line lengths within `isize`, as cursor moves compute
    /// in signed arithmetic.
    pub open spec fn fits(self) -> bool {
        &&& self.lines.len() < isize::MAX
        &&& forall|i: int| 0 <= i < self.lines.len() ==> #[trigger] self.lines[i].len() < isize::MAX
    }
}

/// What a key does to the editor apart from saving: the view afterwards.
pub open spec fn after_key(v: EditorView, code: KeyCode, ctrl: bool) -> EditorView {
    match code {
        KeyCode::Char(c) => if ctrl && (c == 's' || c == 'x') {
            v
        } else {
            inserted(v, c)
        },
        KeyCode::Enter => newlined(v),
        KeyCode::Backspace => backspaced(v),
        KeyCode::Delete => deleted_forward(v),
        KeyCode::Left => moved(v, 0, -1),
        KeyCode::Right => moved(v, 0, 1),
        KeyCode::Up => moved(v, -1, 0),
        KeyCode::Down => moved(v, 1, 0),
        KeyCode::Home => EditorView { col: 0, ..v },
        KeyCode::End => EditorView { col: v.line().len() as int, ..v },
        KeyCode::Tab => inserted(v, '\t'),
        _ => v,
    }
}

/// Route one key event into the editor: `Ctrl+S` saves through `write`,
/// `Ctrl+X` exits, and every other key edits or moves without modes (any
/// other Ctrl+letter inserts its letter).
pub fn dispatch_editor_key<F: FnOnce(&str, &str) -> Result<(), String>>(
    editor: &mut EditorState,
    code: KeyCode,
    ctrl: bool,
    write: F,
) -> (outcome: EditorKeyOutcome)
    requires
        old(editor).view().wf(),
        old(editor).view().fits(),
        forall|p: &str, t: &str| write.requires((p, t)),
    ensures
        final(editor).view().wf(),
        final(editor).spec_path() == old(editor).spec_path(),
        code == KeyCode::Char('s') && ctrl ==> {
            &&& exists|p: &str, t: &str, w: Result<(), String>|
                {
                    &&& p@ == old(editor).spec_path()
                    &&& t@ == join_lines(old(editor).view().lines) + seq!['\n']
                    &&& #[trigger] write.ensures((p, t), w)
                    &&& match w {
                        Ok(()) => outcome == EditorKeyOutcome::Saved(Ok(())),
                        Err(m) => outcome matches EditorKeyOutcome::Saved(Err(msg)) && msg@ == "IO error: "@ + m@,
                    }
                }
            &&& final(editor).view() == (EditorView {
                dirty: old(editor).view().dirty && !(outcome == EditorKeyOutcome::Saved(Ok(()))),
                ..old(editor).view()
            })
        },
        code == KeyCode::Char('x') && ctrl ==> outcome == EditorKeyOutcome::Exit && final(editor).view() == old(editor).view(),
        !(ctrl && (code == KeyCode::Char('s') || code == KeyCode::Char('x'))) ==> outcome == EditorKeyOutcome::Handled
            && final(editor).view() == after_key(old(editor).view(), code, ctrl),
{
    match code {
        KeyCode::Char('s') if ctrl => {
            let r = editor.save(write);
            match r {
                Ok(()) => EditorKeyOutcome::Saved(Ok(())),
                Err(e) => {
                    let m = e.message();
                    EditorKeyOutcome::Saved(Err(m))
                },
            }
        },
        KeyCode::Char('x') if ctrl => EditorKeyOutcome::Exit,
        KeyCode::Char(ch) => {
            editor.insert_char(ch);
            EditorKeyOutcome::Handled
        },
        KeyCode::Enter => {
            editor.newline();
            EditorKeyOutcome::Handled
        },
        KeyCode::Backspace => {
            editor.backspace();
            EditorKeyOutcome::Handled
        },
        KeyCode::Delete => {
            editor.delete_forward();
            EditorKeyOutcome::Handled
        },
        KeyCode::Left => {
            editor.move_cursor(0, -1);
            EditorKeyOutcome::Handled
        },
        KeyCode::Right => {
            editor.move_cursor(0, 1);
            EditorKeyOutcome::Handled
        },
        KeyCode::Up => {
            editor.move_cursor(-1, 0);
            EditorKeyOutcome::Handled
        },
        KeyCode::Down => {
            editor.move_cursor(1, 0);
            EditorKeyOutcome::Handled
        },
        KeyCode::Home => {
            editor.move_home();
            EditorKeyOutcome::Handled
        },
        KeyCode::End => {
            editor.move_end();
            EditorKeyOutcome::Handled
        },
        KeyCode::Tab => {
            editor.insert_char('\t');
            EditorKeyOutcome::Handled
        },
        _ => EditorKeyOutcome::Handled,
    }
}

/// Backspace undoes the insertion of a character other than a newline: the
/// buffer and cursor are as before (the buffer stays marked modified).
pub proof fn lemma_backspace_undoes_insert(v: EditorView, ch: char)
    requires
        v.wf(),
        ch != '\n',
    ensures
        backspaced(inserted(v, ch)) == (EditorView { dirty: true, ..v }),
{
    let line = v.line();
    let w = inserted(v, ch);
    assert((line.take(v.col) + seq![ch] + line.skip(v.col)).take(v.col) + (line.take(v.col) + seq![ch]
        + line.skip(v.col)).skip(v.col + 1) =~= line);
    assert(w.lines.update(v.row, line) =~= v.lines);
    assert(backspaced(w) =~= (EditorView { dirty: true, ..v }));
}

/// Backspace at the start of the new line undoes a line split: the buffer
/// and cursor are as before (the buffer stays marked modified).
pub proof fn lemma_backspace_undoes_newline(v: EditorView)
    requires
        v.wf(),
    ensures
        backspaced(newlined(v)) == (EditorView { dirty: true, ..v }),
{
    let line = v.line();
    let w = newlined(v);
    assert(w.lines[v.row] == line.take(v.col));
    assert(w.lines[v.row + 1] == line.skip(v.col));
    assert(line.take(v.col) + line.skip(v.col) =~= line);
    assert(w.lines.take(v.row) + seq![line] + w.lines.skip(v.row + 2) =~= v.lines);
    assert(backspaced(w) =~= (EditorView { dirty: true, ..v }));
}

/// Every edit and move keeps the buffer non-empty and the cursor on it.
pub proof fn lemma_edits_keep_cursor_valid(v: EditorView, ch: char, row_delta: int, col_delta: int)
    requires
        v.wf(),
    ensures
        inserted(v, ch).wf(),
        newlined(v).wf(),
        backspaced(v).wf(),
        deleted_forward(v).wf(),
        moved(v, row_delta, col_delta).wf(),
{
    let line = v.line();
    assert(newlined(v).lines[v.row + 1] == line.skip(v.col));
    if v.row > 0 && v.col == 0 {
        assert(backspaced(v).lines[v.row - 1] == v.lines[v.row - 1] + line);
    }
    if v.col >= line.len() && v.row + 1 < v.lines.len() {
        assert(deleted_forward(v).lines[v.row] == line + v.lines[v.row + 1]);
    }
}


/// One step a user takes in the editor, as the laws over runs of steps
/// speak of them: the editing and cursor methods, and `save` with whether
/// the write succeeded.
pub enum EditStep {
    Insert(char),
    Newline,
    Backspace,
    DeleteForward,
    Move(int, int),
    Home,
    End,
    Save(bool),
}

/// The editor after one step, as the method's contract gives it.
pub open spec fn stepped(v: EditorView, s: EditStep) -> EditorView {
    match s {
        EditStep::Insert(ch) => inserted(v, ch),
        EditStep::Newline => newlined(v),
        EditStep::Backspace => backspaced(v),
        EditStep::DeleteForward => deleted_forward(v),
        EditStep::Move(dr, dc) => moved(v, dr, dc),
        EditStep::Home => EditorView { col: 0, ..v },
        EditStep::End => EditorView { col: v.line().len() as int, ..v },
        EditStep::Save(ok) => EditorView { dirty: v.dirty && !ok, ..v },
    }
}

/// The editor after the steps, in order.
pub open spec fn run_steps(v: EditorView, steps: Seq<EditStep>) -> EditorView
    decreases steps.len(),
{
    if steps.len() == 0 {
        v
    } else {
        stepped(run_steps(v, steps.drop_last()), steps.last())
    }
}

/// Whether step `i` of the run changed the text.
pub open spec fn step_edits(v: EditorView, steps: Seq<EditStep>, i: int) -> bool {
    let before = run_steps(v, steps.take(i));
    stepped(before, steps[i]).lines != before.lines
}

/// Inserting a character or a line break always changes the text; moving
/// the cursor and saving never do.
pub proof fn lemma_step_changes_text(v: EditorView, s: EditStep)
    requires
        v.wf(),
    ensures
        (s is Insert || s is Newline) ==> stepped(v, s).lines != v.lines,
        (s is Move || s is Home || s is End || s is Save) ==> stepped(v, s).lines == v.lines,
        stepped(v, s).lines != v.lines ==> stepped(v, s).dirty,
        stepped(v, s).lines == v.lines && !(s is Save) ==> stepped(v, s).dirty == v.dirty,
{
    let line = v.line();
    match s {
        EditStep::Insert(ch) => {
            if ch == '\n' {
                assert(newlined(v).lines.len() == v.lines.len() + 1);
            } else {
                let w = inserted(v, ch);
                assert(w.lines[v.row].len() == line.len() + 1);
            }
        },
        EditStep::Newline => {
            assert(newlined(v).lines.len() == v.lines.len() + 1);
        },
        EditStep::Backspace => {
            let w = backspaced(v);
            if v.col > 0 {
                assert(w.lines[v.row].len() == line.len() - 1);
            } else if v.row > 0 {
                assert(w.lines.len() == v.lines.len() - 1);
            }
        },
        EditStep::DeleteForward => {
            let w = deleted_forward(v);
            if v.col < line.len() {
                assert(w.lines[v.row].len() == line.len() - 1);
            } else if v.row + 1 < v.lines.len() {
                assert(w.lines.len() == v.lines.len() - 1);
            }
        },
        _ => {},
    }
}

/// Whatever the user does, the buffer keeps at least one line and the
/// cursor stays on a line, at most at its end.
pub proof fn lemma_runs_keep_cursor_valid(v: EditorView, steps: Seq<EditStep>)
    requires
        v.wf(),
    ensures
        run_steps(v, steps).wf(),
    decreases steps.len(),
{
    if steps.len() > 0 {
        lemma_runs_keep_cursor_valid(v, steps.drop_last());
        let w = run_steps(v, steps.drop_last());
        match steps.last() {
            EditStep::Insert(ch) => lemma_edits_keep_cursor_valid(w, ch, 0, 0),
            EditStep::Move(dr, dc) => lemma_edits_keep_cursor_valid(w, 'a', dr, dc),
            _ => lemma_edits_keep_cursor_valid(w, 'a', 0, 0),
        }
    }
}

/// The buffer is marked modified exactly when the text was changed since it
/// was last saved successfully (or it was already marked before the run and
/// no save succeeded since).
pub proof fn lemma_dirty_means_unsaved_edits(v: EditorView, steps: Seq<EditStep>)
    requires
        v.wf(),
    ensures
        run_steps(v, steps).dirty <==> (
            (v.dirty && forall|j: int| 0 <= j < steps.len() ==> #[trigger] steps[j] != EditStep::Save(true))
            || exists|i: int|
                0 <= i < steps.len() && #[trigger] step_edits(v, steps, i) && forall|j: int|
                    i < j < steps.len() ==> #[trigger] steps[j] != EditStep::Save(true)),
    decreases steps.len(),
{
    if steps.len() > 0 {
        let n = steps.len() - 1;
        let prefix = steps.drop_last();
        lemma_dirty_means_unsaved_edits(v, prefix);
        lemma_runs_keep_cursor_valid(v, prefix);
        let w = run_steps(v, prefix);
        let last = steps.last();
        lemma_step_changes_text(w, last);
        assert(steps.take(n) =~= prefix);
        assert forall|i: int| 0 <= i < n implies #[trigger] step_edits(v, steps, i) == step_edits(v, prefix, i) by {
            assert(steps.take(i) =~= prefix.take(i));
            assert(steps[i] == prefix[i]);
        }
        assert(step_edits(v, steps, n) == (stepped(w, last).lines != w.lines));
        assert forall|j: int| 0 <= j < n implies #[trigger] steps[j] == prefix[j] by {}
        if last == EditStep::Save(true) {
            assert(steps[n] == EditStep::Save(true));
        } else if stepped(w, last).lines != w.lines {
            assert(step_edits(v, steps, n));
        } else {
            if (exists|i: int|
                0 <= i < prefix.len() && #[trigger] step_edits(v, prefix, i) && forall|j: int|
                    i < j < prefix.len() ==> #[trigger] prefix[j] != EditStep::Save(true)) {
                let i = choose|i: int|
                    0 <= i < prefix.len() && #[trigger] step_edits(v, prefix, i) && forall|j: int|
                        i < j < prefix.len() ==> #[trigger] prefix[j] != EditStep::Save(true);
                assert(step_edits(v, steps, i));
                assert forall|j: int| i < j < steps.len() implies #[trigger] steps[j] != EditStep::Save(true) by {
                    if j < n {
                        assert(prefix[j] != EditStep::Save(true));
                    }
                }
            }
            if (exists|i: int|
                0 <= i < steps.len() && #[trigger] step_edits(v, steps, i) && forall|j: int|
                    i < j < steps.len() ==> #[trigger] steps[j] != EditStep::Save(true)) {
                let i = choose|i: int|
                    0 <= i < steps.len() && #[trigger] step_edits(v, steps, i) && forall|j: int|
                        i < j < steps.len() ==> #[trigger] steps[j] != EditStep::Save(true);
                assert(i < n);
                assert(step_edits(v, prefix, i));
                assert forall|j: int| i < j < prefix.len() implies #[trigger] prefix[j] != EditStep::Save(true) by {
                    assert(steps[j] != EditStep::Save(true));
                }
            }
            if v.dirty && (forall|j: int| 0 <= j < prefix.len() ==> #[trigger] prefix[j] != EditStep::Save(true)) {
                assert forall|j: int| 0 <= j < steps.len() implies #[trigger] steps[j] != EditStep::Save(true) by {
                    if j < n {
                        assert(prefix[j] != EditStep::Save(true));
                    }
                }
            }
        }
    }
}

/// The step a key routed into the editor takes, `saved` telling whether the
/// save of a `Ctrl+S` succeeded. `Ctrl+X` and unmapped keys change nothing,
/// which is a move by nothing.
pub open spec fn key_step(code: KeyCode, ctrl: bool, saved: bool) -> EditStep {
    if ctrl && code == KeyCode::Char('s') {
        EditStep::Save(saved)
    } else if ctrl && code == KeyCode::Char('x') {
        EditStep::Move(0, 0)
    } else {
        match code {
            KeyCode::Char(c) => EditStep::Insert(c),
            KeyCode::Enter => EditStep::Newline,
            KeyCode::Backspace => EditStep::Backspace,
            KeyCode::Delete => EditStep::DeleteForward,
            KeyCode::Left => EditStep::Move(0, -1),
            KeyCode::Right => EditStep::Move(0, 1),
            KeyCode::Up => EditStep::Move(-1, 0),
            KeyCode::Down => EditStep::Move(1, 0),
            KeyCode::Home => EditStep::Home,
            KeyCode::End => EditStep::End,
            KeyCode::Tab => EditStep::Insert('\t'),
            _ => EditStep::Move(0, 0),
        }
    }
}

/// Every key `dispatch_editor_key` handles is one editing step: what its
/// contract says of the editor afterwards is that step's effect. So the
/// laws over runs of steps hold of any run of keys.
pub proof fn lemma_keys_are_steps(v: EditorView, code: KeyCode, ctrl: bool, saved: bool)
    requires
        v.wf(),
    ensures
        !(ctrl && (code == KeyCode::Char('s') || code == KeyCode::Char('x'))) ==> after_key(v, code, ctrl)
            == stepped(v, key_step(code, ctrl, saved)),
        ctrl && code == KeyCode::Char('x') ==> v == stepped(v, key_step(code, ctrl, saved)),
        ctrl && code == KeyCode::Char('s') ==> (EditorView { dirty: v.dirty && !saved, ..v }) == stepped(
            v,
            key_step(code, ctrl, saved),
        ),
{
    assert(moved(v, 0, 0) =~= v);
}

} // verus!
