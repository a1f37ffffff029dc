//! The terminal front end's decisions: where a key press goes, what a bound
//! action does, and which pane takes the focus next.
use vstd::prelude::*;

use crate::editor::EditorKeyOutcome;
use crate::keybindings::{chord_of, resolve_step, KeymapResolver, Outcome, Resolved};
use crate::keys::{encode_key, key_bytes, KeyCode, KeyEvent};
use crate::multiplexer::PaneId;
use crate::text::{push_str_chars, str_eq};

verus! {

/// What a bound action name asks of the front end.
#[derive(Debug, Clone, Copy, PartialEq, Eq, Structural)]
pub enum TuiAction {
    SplitHorizontal,
    SplitVertical,
    ClosePane,
    FocusNextPane,
    /// `detach` and `quit` both end the front end.
    Quit,
    /// Send the prefix key itself (a NUL byte) to the pane.
    SendLiteralPrefix,
    ToggleFileBrowser,
    /// Accepted but not acted on.
    Ignored,
}

pub open spec fn action_named(name: Seq<char>) -> TuiAction {
    if name == "split-horizontal"@ {
        TuiAction::SplitHorizontal
    } else if name == "split-vertical"@ {
        TuiAction::SplitVertical
    } else if name == "close-pane"@ {
        TuiAction::ClosePane
    } else if name == "focus-next-pane"@ {
        TuiAction::FocusNextPane
    } else if name == "detach"@ || name == "quit"@ {
        TuiAction::Quit
    } else if name == "send-literal-prefix"@ {
        TuiAction::SendLiteralPrefix
    } else if name == "toggle-file-browser"@ {
        TuiAction::ToggleFileBrowser
    } else {
        TuiAction::Ignored
    }
}

/// What the action called `name` asks for.
pub fn action_for(name: &str) -> (a: TuiAction)
    ensures
        a == action_named(name@),
{
    if str_eq(name, "split-horizontal") {
        TuiAction::SplitHorizontal
    } else if str_eq(name, "split-vertical") {
        TuiAction::SplitVertical
    } else if str_eq(name, "close-pane") {
        TuiAction::ClosePane
    } else if str_eq(name, "focus-next-pane") {
        TuiAction::FocusNextPane
    } else if str_eq(name, "detach") || str_eq(name, "quit") {
        TuiAction::Quit
    } else if str_eq(name, "send-literal-prefix") {
        TuiAction::SendLiteralPrefix
    } else if str_eq(name, "toggle-file-browser") {
        TuiAction::ToggleFileBrowser
    } else {
        TuiAction::Ignored
    }
}

/// Where a key press goes.
#[derive(Debug, PartialEq, Eq)]
pub enum KeyRoute {
    /// A binding matched: perform the named action.
    Action(String),
    /// The key is consumed: part of a sequence, swallowed mid-sequence or
    /// while locked, or without bytes to send.
    Swallow,
    /// Send these bytes to the active pane.
    Send(Vec<u8>),
    /// The open file browser's tree handles the key.
    ToBrowser,
    /// The open file browser's editor handles the key.
    ToEditor,
}

/// Route a key press. With the file browser open, only a bound action
/// escapes it; every other key goes to its tree or its editor. Otherwise a
/// bound action runs, a sequence in progress waits, an unmatched key is
/// swallowed when it broke a sequence or the keymap is locked, and any
/// other key is sent to the pane as the bytes it encodes to.
pub fn route_key(resolver: &mut KeymapResolver, key: KeyEvent, browser_open: bool, viewer_is_tree: bool) -> (r:
    KeyRoute)
    requires
        old(resolver).wf(),
    ensures
        final(resolver).wf(),
        final(resolver).view() == resolve_step(old(resolver).view(), chord_of(key.modifiers, key.code)).0,
        ({
            let o = resolve_step(old(resolver).view(), chord_of(key.modifiers, key.code)).1;
            let mid = old(resolver).view().locked || old(resolver).view().pending.len() > 0;
            match o {
                Outcome::Action(a) => r matches KeyRoute::Action(s) && s@ == a,
                _ => if browser_open {
                    if viewer_is_tree {
                        r == KeyRoute::ToBrowser
                    } else {
                        r == KeyRoute::ToEditor
                    }
                } else if o is Pending || mid || key_bytes(key).len() == 0 {
                    r == KeyRoute::Swallow
                } else {
                    r matches KeyRoute::Send(b) && b@ == key_bytes(key)
                },
            }
        }),
{
    let mid = resolver.awaiting_input();
    let res = resolver.resolve(key.modifiers, key.code);
    match res {
        Resolved::Action(a) => KeyRoute::Action(a),
        Resolved::Pending => if browser_open {
            if viewer_is_tree {
                KeyRoute::ToBrowser
            } else {
                KeyRoute::ToEditor
            }
        } else {
            KeyRoute::Swallow
        },
        Resolved::NoMatch => if browser_open {
            if viewer_is_tree {
                KeyRoute::ToBrowser
            } else {
                KeyRoute::ToEditor
            }
        } else if mid {
            KeyRoute::Swallow
        } else {
            let bytes = encode_key(key);
            if bytes.len() == 0 {
                KeyRoute::Swallow
            } else {
                KeyRoute::Send(bytes)
            }
        },
    }
}

/// What a key does in the file browser's tree.
#[derive(Debug, Clone, Copy, PartialEq, Eq, Structural)]
pub enum BrowserCommand {
    /// `Esc`: close the panel.
    Close,
    /// Move the selection by this many rows.
    Move(i8),
    /// Expand or collapse a directory, or open a file.
    Open,
    /// Re-read the tree.
    Refresh,
    Nothing,
}

/// The tree command for a key: `Esc` closes; `Up`/`k` and `Down`/`j` move;
/// `Enter`, `l` and `Right` open; `r` refreshes.
pub fn browser_command(code: KeyCode) -> (c: BrowserCommand)
    ensures
        c == match code {
            KeyCode::Esc => BrowserCommand::Close,
            KeyCode::Up => BrowserCommand::Move(-1i8),
            KeyCode::Char('k') => BrowserCommand::Move(-1i8),
            KeyCode::Down => BrowserCommand::Move(1i8),
            KeyCode::Char('j') => BrowserCommand::Move(1i8),
            KeyCode::Enter => BrowserCommand::Open,
            KeyCode::Char('l') => BrowserCommand::Open,
            KeyCode::Right => BrowserCommand::Open,
            KeyCode::Char('r') => BrowserCommand::Refresh,
            _ => BrowserCommand::Nothing,
        },
{
    match code {
        KeyCode::Esc => BrowserCommand::Close,
        KeyCode::Up | KeyCode::Char('k') => BrowserCommand::Move(-1i8),
        KeyCode::Down | KeyCode::Char('j') => BrowserCommand::Move(1i8),
        KeyCode::Enter | KeyCode::Char('l') | KeyCode::Right => BrowserCommand::Open,
        KeyCode::Char('r') => BrowserCommand::Refresh,
        _ => BrowserCommand::Nothing,
    }
}

/// The status message after an editor key, and whether to leave the
/// editor: `Saved` or `Save failed: ...` after a save, leaving on exit.
pub fn editor_feedback(outcome: &EditorKeyOutcome) -> (r: (Option<String>, bool))
    ensures
        match *outcome {
            EditorKeyOutcome::Handled => r.0 is None && !r.1,
            EditorKeyOutcome::Saved(Ok(())) => r.0 matches Some(m) && m@ == "Saved"@ && !r.1,
            EditorKeyOutcome::Saved(Err(e)) => r.0 matches Some(m) && m@ == "Save failed: "@ + e@ && !r.1,
            EditorKeyOutcome::Exit => r.0 is None && r.1,
        },
{
    proof {
        broadcast use vstd::string::group_string_axioms;
    }
    match outcome {
        EditorKeyOutcome::Handled => (None, false),
        EditorKeyOutcome::Saved(Ok(())) => (Some("Saved".to_string()), false),
        EditorKeyOutcome::Saved(Err(e)) => {
            let mut m = "Save failed: ".to_string();
            push_str_chars(&mut m, e.as_str());
            (Some(m), false)
        },
        EditorKeyOutcome::Exit => (None, true),
    }
}

/// The pane that takes the focus after `current` among `ids` (distinct):
/// the next one in identifier order, wrapping to the first. With fewer than
/// two panes there is none.
pub open spec fn next_focus_ok(ids: Seq<PaneId>, current: PaneId, n: PaneId) -> bool {
    &&& ids.contains(n)
    &&& if ids.contains(current) {
        if exists|y: PaneId| #[trigger] ids.contains(y) && y.0 > current.0 {
            n.0 > current.0 && forall|y: PaneId| #[trigger] ids.contains(y) && y.0 > current.0 ==> n.0 <= y.0
        } else {
            forall|y: PaneId| #[trigger] ids.contains(y) ==> n.0 <= y.0
        }
    } else {
        exists|m: PaneId|
            #[trigger] ids.contains(m) && m.0 < n.0 && forall|y: PaneId| #[trigger] ids.contains(y) && y.0 < n.0 ==> y == m
    }
}

/// The pane to focus after `current`, or `None` with fewer than two panes.
pub fn next_focus(ids: &Vec<PaneId>, current: PaneId) -> (r: Option<PaneId>)
    requires
        forall|i: int, j: int| 0 <= i < j < ids@.len() ==> (#[trigger] ids@[i]).0 != (#[trigger] ids@[j]).0,
    ensures
        ids@.len() < 2 <==> r is None,
        r matches Some(n) ==> next_focus_ok(ids@, current, n),
{
    let len = ids.len();
    if len < 2 {
        return None;
    }
    let mut present = false;
    let mut above: Option<PaneId> = None;
    let mut min1: PaneId = ids[0];
    let mut min2: Option<PaneId> = None;
    let mut i: usize = 1;
    if ids[0] == current {
        present = true;
    }
    proof {
        let t = ids@.take(1);
        assert(t[0] == min1);
        assert(t.contains(min1));
        if t.contains(current) {
            let k = choose|k: int| 0 <= k < t.len() && t[k] == current;
            assert(k == 0);
        }
        if ids@[0] == current {
            assert(t[0] == current);
        }
    }
    if ids[0].0 > current.0 {
        above = Some(ids[0]);
    }
    while i < len
        invariant
            1 <= i <= len == ids@.len(),
            forall|a: int, b: int| 0 <= a < b < ids@.len() ==> (#[trigger] ids@[a]).0 != (#[trigger] ids@[b]).0,
            present == ids@.take(i as int).contains(current),
            ids@.take(i as int).contains(min1),
            forall|k: int| 0 <= k < i ==> min1.0 <= (#[trigger] ids@[k]).0,
            i >= 2 ==> min2 is Some,
            min2 matches Some(m) ==> ids@.take(i as int).contains(m) && m.0 > min1.0 && forall|k: int|
                0 <= k < i && (#[trigger] ids@[k]) != min1 ==> m.0 <= ids@[k].0,
            i == 1 ==> min2 is None,
            above matches Some(a) ==> ids@.take(i as int).contains(a) && a.0 > current.0 && forall|k: int|
                0 <= k < i && (#[trigger] ids@[k]).0 > current.0 ==> a.0 <= ids@[k].0,
            above is None ==> forall|k: int| 0 <= k < i ==> (#[trigger] ids@[k]).0 <= current.0,
        decreases len - i,
    {
        let x = ids[i];
        proof {
            let t0 = ids@.take(i as int);
            let t1 = ids@.take(i + 1);
            assert(t1 =~= t0.push(x));
            assert forall|y: PaneId| t0.contains(y) implies t1.contains(y) by {
                let k = choose|k: int| 0 <= k < t0.len() && t0[k] == y;
                assert(t1[k] == y);
            }
            assert(t1.contains(x)) by {
                assert(t1[i as int] == x);
            }
            assert forall|k: int| 0 <= k < i implies (#[trigger] ids@[k]).0 != x.0 by {}
            if t1.contains(current) && x != current {
                let k = choose|k: int| 0 <= k < t1.len() && t1[k] == current;
                assert(k < i);
                assert(t0[k] == current);
            }
        }
        if x == current {
            present = true;
        }
        if x.0 > current.0 {
            match above {
                Some(a) => {
                    if x.0 < a.0 {
                        above = Some(x);
                    }
                },
                None => {
                    above = Some(x);
                },
            }
        }
        if x.0 < min1.0 {
            min2 = Some(min1);
            min1 = x;
        } else {
            match min2 {
                Some(m) => {
                    if x.0 < m.0 {
                        min2 = Some(x);
                    }
                },
                None => {
                    min2 = Some(x);
                },
            }
        }
        i = i + 1;
    }
    proof {
        assert(ids@.take(len as int) =~= ids@);
        assert forall|y: PaneId| #[trigger] ids@.contains(y) implies exists|k: int| 0 <= k < len && ids@[k] == y by {
            let k = choose|k: int| 0 <= k < ids@.len() && ids@[k] == y;
        }
    }
    if present {
        match above {
            Some(a) => Some(a),
            None => Some(min1),
        }
    } else {
        match min2 {
            Some(m) => Some(m),
            None => Some(min1),
        }
    }
}


/// How many of `ids` have an identifier below `v`.
pub open spec fn count_below(ids: Seq<PaneId>, v: u64) -> nat
    decreases ids.len(),
{
    if ids.len() == 0 {
        0
    } else {
        count_below(ids.drop_last(), v) + if ids.last().0 < v {
            1nat
        } else {
            0nat
        }
    }
}

/// The number the status bar gives the active pane: its position among the
/// window's panes in identifier order (the count of panes numbered below
/// it), or zero when no pane of the window is active.
pub fn status_pane_index(ids: &Vec<PaneId>, active: Option<PaneId>) -> (r: usize)
    ensures
        r == match active {
            Some(a) => if ids@.contains(a) {
                count_below(ids@, a.0)
            } else {
                0
            },
            None => 0,
        },
{
    let a = match active {
        Some(a) => a,
        None => return 0,
    };
    let mut present = false;
    let mut n: usize = 0;
    let mut i: usize = 0;
    while i < ids.len()
        invariant
            i <= ids@.len(),
            n == count_below(ids@.take(i as int), a.0),
            n <= i,
            present == ids@.take(i as int).contains(a),
        decreases ids.len() - i,
    {
        proof {
            let t0 = ids@.take(i as int);
            let t1 = ids@.take(i + 1);
            assert(t1.drop_last() =~= t0);
            assert(t1.last() == ids@[i as int]);
            if t0.contains(a) {
                let k = choose|k: int| 0 <= k < t0.len() && t0[k] == a;
                assert(t1[k] == a);
            }
            if t1.contains(a) {
                let k = choose|k: int| 0 <= k < t1.len() && t1[k] == a;
                if k < i {
                    assert(t0[k] == a);
                }
            }
        }
        if ids[i].0 < a.0 {
            n = n + 1;
        }
        if ids[i] == a {
            present = true;
        }
        i = i + 1;
    }
    assert(ids@.take(ids@.len() as int) =~= ids@);
    if present {
        n
    } else {
        0
    }
}

} // verus!
