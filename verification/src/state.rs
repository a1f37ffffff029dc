//! Persistent session state and command history.
//!
//! The records here are what gets saved; writing and reading the files is
//! left to the caller, which hands the outcome back.
use vstd::prelude::*;

use crate::error::CastermError;
use crate::text::{push_str_chars, starts_with_chars, str_eq};

verus! {

/// Persistent pane state.
#[derive(Debug, Clone)]
pub struct PaneState {
    pub index: usize,
    pub cwd: Option<String>,
    pub command: Option<String>,
}

/// Persistent window state.
#[derive(Debug, Clone)]
pub struct WindowState {
    pub name: String,
    pub index: usize,
    pub panes: Vec<PaneState>,
    pub layout: String,
}

/// Persistent session state.
#[derive(Debug, Clone)]
pub struct SessionState {
    pub name: String,
    pub created_at: i64,
    pub last_attached: i64,
    pub windows: Vec<WindowState>,
}

/// The saved sessions of a state directory, by name.
pub struct StateManager {
    state_dir: String,
    sessions: Vec<SessionState>,
}

/// Names of a list of saved sessions.
pub open spec fn session_names(s: Seq<SessionState>) -> Seq<Seq<char>> {
    s.map_values(|st: SessionState| st.name@)
}

/// The file a session named `name` is saved in, inside `dir`.
pub open spec fn session_file(dir: Seq<char>, name: Seq<char>) -> Seq<char> {
    dir + seq!['/'] + name + ".json"@
}

impl StateManager {
    pub closed spec fn spec_dir(&self) -> Seq<char> {
        self.state_dir@
    }

    pub closed spec fn saved(&self) -> Seq<SessionState> {
        self.sessions@
    }

    /// No two saved sessions share a name.
    pub open spec fn wf(&self) -> bool {
        forall|i: int, j: int|
            0 <= i < j < self.saved().len() ==> #[trigger] session_names(self.saved())[i]
                != #[trigger] session_names(self.saved())[j]
    }

    /// A manager for `state_dir` holding no session yet; the caller loads
    /// the saved files with `insert_loaded`.
    pub fn with_dir(state_dir: String) -> (m: StateManager)
        ensures
            m.wf(),
            m.spec_dir() == state_dir@,
            m.saved().len() == 0,
    {
        StateManager { state_dir, sessions: Vec::new() }
    }

    pub fn state_dir(&self) -> (d: &String)
        ensures
            d@ == self.spec_dir(),
    {
        &self.state_dir
    }

    /// The path of the file the session `name` is saved in.
    pub fn session_path(&self, name: &str) -> (p: String)
        ensures
            p@ == session_file(self.spec_dir(), name@),
    {
        let mut p = self.state_dir.clone();
        push_str_chars(&mut p, "/");
        push_str_chars(&mut p, name);
        push_str_chars(&mut p, ".json");
        proof {
            reveal_strlit("/");
            assert(p@ =~= session_file(self.spec_dir(), name@));
        }
        p
    }

    fn index_of(&self, name: &str) -> (r: Option<usize>)
        ensures
            match r {
                Some(i) => i < self.saved().len() && session_names(self.saved())[i as int] == name@,
                None => !session_names(self.saved()).contains(name@),
            },
    {
        let mut i: usize = 0;
        while i < self.sessions.len()
            invariant
                i <= self.sessions@.len(),
                forall|j: int| 0 <= j < i ==> #[trigger] session_names(self.saved())[j] != name@,
            decreases self.sessions.len() - i,
        {
            if str_eq(self.sessions[i].name.as_str(), name) {
                return Some(i);
            }
            i = i + 1;
        }
        None
    }

    /// Record `state`, replacing a saved session of the same name.
    pub fn insert_loaded(&mut self, state: SessionState)
        requires
            old(self).wf(),
        ensures
            final(self).wf(),
            final(self).spec_dir() == old(self).spec_dir(),
            final(self).saved() == match session_names(old(self).saved()).index_of_first(state.name@) {
                Some(i) => old(self).saved().update(i, state),
                None => old(self).saved().push(state),
            },
    {
        let ghost names = session_names(self.saved());
        match self.index_of(state.name.as_str()) {
            Some(i) => {
                proof {
                    names.index_of_first_ensures(state.name@);
                    let k = names.index_of_first(state.name@)->0;
                    if k != i {
                        assert(names[k] == names[i as int]);
                    }
                }
                self.sessions.set(i, state);
                proof {
                    assert(session_names(self.saved()) =~= names);
                }
            },
            None => {
                proof {
                    names.index_of_first_ensures(state.name@);
                }
                let ghost nm = state.name@;
                self.sessions.push(state);
                proof {
                    let ns = session_names(self.saved());
                    assert(ns =~= names.push(nm));
                    assert forall|i: int, j: int| 0 <= i < j < ns.len() implies #[trigger] ns[i] != #[trigger] ns[j] by {
                        if j == ns.len() - 1 {
                            assert(names.contains(ns[i]));
                        } else {
                            assert(ns[i] == names[i] && ns[j] == names[j]);
                        }
                    }
                }
            },
        }
    }

    /// Save `state`: `write` receives the session's file path and the state
    /// to store there; the state is recorded once the write succeeded, and a
    /// failed write comes back as an I/O error with nothing recorded.
    pub fn save_session<F: FnOnce(&str, &SessionState) -> Result<(), String>>(
        &mut self,
        state: SessionState,
        write: F,
    ) -> (r: Result<(), CastermError>)
        requires
            old(self).wf(),
            forall|p: &str, s: &SessionState| write.requires((p, s)),
        ensures
            final(self).wf(),
            final(self).spec_dir() == old(self).spec_dir(),
            exists|p: &str, s: &SessionState, w: Result<(), String>|
                {
                    &&& p@ == session_file(old(self).spec_dir(), state.name@)
                    &&& *s == state
                    &&& #[trigger] write.ensures((p, s), w)
                    &&& match w {
                        Ok(()) => r is Ok,
                        Err(m) => r == Err::<(), CastermError>(CastermError::Io(m)),
                    }
                },
            r is Ok ==> final(self).saved() == match session_names(old(self).saved()).index_of_first(
                state.name@,
            ) {
                Some(i) => old(self).saved().update(i, state),
                None => old(self).saved().push(state),
            },
            r is Err ==> final(self).saved() == old(self).saved(),
    {
        let path = self.session_path(state.name.as_str());
        match write(path.as_str(), &state) {
            Ok(()) => {
                self.insert_loaded(state);
                Ok(())
            },
            Err(m) => Err(CastermError::Io(m)),
        }
    }

    /// The saved session to resume: the one called `name`, else the one
    /// attached most recently (the last of several such), else none.
    pub fn session_to_restore(&self, name: &str) -> (s: Option<&SessionState>)
        ensures
            session_names(self.saved()).contains(name@) ==> (s matches Some(st) && st.name@ == name@
                && self.saved().contains(*st)),
            !session_names(self.saved()).contains(name@) ==> match s {
                None => self.saved().len() == 0,
                Some(st) => self.saved().contains(*st) && forall|j: int|
                    0 <= j < self.saved().len() ==> #[trigger] self.saved()[j].last_attached <= st.last_attached,
            },
    {
        match self.load_session(name) {
            Some(st) => {
                proof {
                    let i = choose|i: int| 0 <= i < self.saved().len() && #[trigger] self.saved()[i] == *st;
                    assert(self.saved().contains(*st));
                    assert(session_names(self.saved())[i] == name@);
                    assert(session_names(self.saved()).contains(name@));
                }
                Some(st)
            },
            None => {
                if self.sessions.len() == 0 {
                    return None;
                }
                let mut best: usize = 0;
                let mut i: usize = 1;
                while i < self.sessions.len()
                    invariant
                        1 <= i <= self.sessions@.len(),
                        best < i,
                        forall|j: int| 0 <= j < i ==> #[trigger] self.saved()[j].last_attached <= self.saved()[best as int].last_attached,
                    decreases self.sessions.len() - i,
                {
                    if self.sessions[i].last_attached >= self.sessions[best].last_attached {
                        best = i;
                    }
                    i = i + 1;
                }
                assert(self.saved()[best as int] == self.sessions@[best as int]);
                assert(self.saved().contains(self.saved()[best as int]));
                Some(&self.sessions[best])
            },
        }
    }

    /// The saved session called `name`, if any.
    pub fn load_session(&self, name: &str) -> (s: Option<&SessionState>)
        ensures
            match s {
                Some(st) => exists|i: int|
                    0 <= i < self.saved().len() && #[trigger] self.saved()[i] == *st && st.name@ == name@,
                None => !session_names(self.saved()).contains(name@),
            },
    {
        match self.index_of(name) {
            Some(i) => Some(&self.sessions[i]),
            None => None,
        }
    }

    /// Remove the session `name`: `remove_file` receives its file path and
    /// deletes the file if it exists; the session is forgotten once that
    /// succeeded, and a failure comes back as an I/O error.
    pub fn remove_session<F: FnOnce(&str) -> Result<(), String>>(&mut self, name: &str, remove_file: F) -> (r:
        Result<(), CastermError>)
        requires
            old(self).wf(),
            forall|p: &str| remove_file.requires((p,)),
        ensures
            final(self).wf(),
            final(self).spec_dir() == old(self).spec_dir(),
            exists|p: &str, w: Result<(), String>|
                {
                    &&& p@ == session_file(old(self).spec_dir(), name@)
                    &&& #[trigger] remove_file.ensures((p,), w)
                    &&& match w {
                        Ok(()) => r is Ok,
                        Err(m) => r == Err::<(), CastermError>(CastermError::Io(m)),
                    }
                },
            r is Ok ==> !session_names(final(self).saved()).contains(name@) && forall|st: SessionState|
                #[trigger] final(self).saved().contains(st) <==> (old(self).saved().contains(st) && st.name@ != name@),
            r is Err ==> final(self).saved() == old(self).saved(),
    {
        let path = self.session_path(name);
        match remove_file(path.as_str()) {
            Ok(()) => {
                let ghost old_saved = self.saved();
                match self.index_of(name) {
                    Some(i) => {
                        self.sessions.remove(i);
                        proof {
                            let names = session_names(old_saved);
                            let ns = session_names(self.saved());
                            assert(ns =~= names.remove(i as int));
                            assert forall|a: int, b: int| 0 <= a < b < ns.len() implies #[trigger] ns[a] != #[trigger] ns[b] by {
                                let a2 = if a < i { a } else { a + 1 };
                                let b2 = if b < i { b } else { b + 1 };
                                assert(ns[a] == names[a2] && ns[b] == names[b2]);
                            }
                            assert(!ns.contains(name@)) by {
                                if ns.contains(name@) {
                                    let k = choose|k: int| 0 <= k < ns.len() && ns[k] == name@;
                                    let k2 = if k < i { k } else { k + 1 };
                                    assert(names[k2] == names[i as int]);
                                }
                            }
                            assert forall|st: SessionState| #[trigger] self.saved().contains(st) <==> (old_saved.contains(
                                st,
                            ) && st.name@ != name@) by {
                                if self.saved().contains(st) {
                                    let k = choose|k: int| 0 <= k < self.saved().len() && self.saved()[k] == st;
                                    let k2 = if k < i { k } else { k + 1 };
                                    assert(old_saved[k2] == st);
                                    assert(ns[k] == st.name@);
                                }
                                if old_saved.contains(st) && st.name@ != name@ {
                                    let k = choose|k: int| 0 <= k < old_saved.len() && old_saved[k] == st;
                                    assert(names[k] == st.name@);
                                    assert(k != i);
                                    if k < i {
                                        assert(self.saved()[k] == st);
                                    } else {
                                        assert(self.saved()[k - 1] == st);
                                    }
                                }
                            }
                        }
                    },
                    None => {
                        proof {
                            assert forall|st: SessionState| #[trigger] self.saved().contains(st) implies st.name@
                                != name@ by {
                                let k = choose|k: int| 0 <= k < self.saved().len() && self.saved()[k] == st;
                                assert(session_names(self.saved())[k] == st.name@);
                            }
                        }
                    },
                }
                Ok(())
            },
            Err(m) => Err(CastermError::Io(m)),
        }
    }

    /// All saved sessions.
    pub fn list_sessions(&self) -> (v: &Vec<SessionState>)
        ensures
            v@ == self.saved(),
    {
        &self.sessions
    }
}

/// Command history, most recent last.
#[derive(Debug, Clone)]
pub struct HistoryState {
    pub commands: Vec<String>,
    pub max_size: usize,
}

/// `s` without any entry equal to `c`.
pub open spec fn without_command(s: Seq<Seq<char>>, c: Seq<char>) -> Seq<Seq<char>>
    decreases s.len(),
{
    if s.len() == 0 {
        s
    } else {
        without_command(s.drop_last(), c) + if s.last() == c {
            Seq::empty()
        } else {
            seq![s.last()]
        }
    }
}

/// The history after adding `c`: earlier copies of `c` dropped, `c`
/// appended, and the oldest entries dropped beyond `max` entries.
pub open spec fn history_added(s: Seq<Seq<char>>, c: Seq<char>, max: nat) -> Seq<Seq<char>> {
    let kept = without_command(s, c).push(c);
    if kept.len() > max {
        kept.skip(kept.len() - max)
    } else {
        kept
    }
}

/// Entries of `s` starting with `prefix`, most recent first.
pub open spec fn history_matches(s: Seq<Seq<char>>, prefix: Seq<char>) -> Seq<Seq<char>>
    decreases s.len(),
{
    if s.len() == 0 {
        s
    } else {
        (if s.last().len() >= prefix.len() && s.last().take(prefix.len() as int) == prefix {
            seq![s.last()]
        } else {
            Seq::empty()
        }) + history_matches(s.drop_last(), prefix)
    }
}

impl HistoryState {
    pub open spec fn entries(&self) -> Seq<Seq<char>> {
        self.commands@.map_values(|c: String| c@)
    }

    pub fn new(max_size: usize) -> (h: HistoryState)
        ensures
            h.entries().len() == 0,
            h.max_size == max_size,
    {
        let h = HistoryState { commands: Vec::new(), max_size };
        assert(h.entries() =~= Seq::<Seq<char>>::empty());
        h
    }

    /// Add `command` as the most recent entry, dropping earlier copies of it
    /// and then the oldest entries beyond `max_size`.
    pub fn add(&mut self, command: String)
        ensures
            final(self).max_size == old(self).max_size,
            final(self).entries() == history_added(old(self).entries(), command@, old(self).max_size as nat),
    {
        let ghost old_entries = self.entries();
        let mut kept: Vec<String> = Vec::new();
        let mut i: usize = 0;
        while i < self.commands.len()
            invariant
                i <= self.commands@.len(),
                old_entries == self.entries(),
                kept@.map_values(|c: String| c@) == without_command(old_entries.take(i as int), command@),
            decreases self.commands.len() - i,
        {
            let ghost before = kept@;
            proof {
                assert(old_entries.take(i + 1).drop_last() =~= old_entries.take(i as int));
                assert(old_entries.take(i + 1).last() == self.commands@[i as int]@);
            }
            if !str_eq(self.commands[i].as_str(), command.as_str()) {
                kept.push(self.commands[i].clone());
                proof {
                    assert(kept@.map_values(|c: String| c@) =~= before.map_values(|c: String| c@).push(
                        self.commands@[i as int]@,
                    ));
                }
            } else {
                proof {
                    assert(before.map_values(|c: String| c@) + Seq::<Seq<char>>::empty() =~= before.map_values(
                        |c: String| c@,
                    ));
                }
            }
            i = i + 1;
        }
        assert(old_entries.take(old_entries.len() as int) =~= old_entries);
        let ghost w = kept@.map_values(|c: String| c@);
        let ghost cview = command@;
        kept.push(command);
        assert(kept@.map_values(|c: String| c@) =~= w.push(cview));
        let ghost full = w.push(cview);
        let mut dropped: usize = 0;
        assert(full.skip(0) =~= full);
        let total = kept.len();
        assert(full.len() == total);
        while kept.len() > self.max_size
            invariant
                kept@.map_values(|c: String| c@) == full.skip(dropped as int),
                dropped <= full.len(),
                kept@.len() == full.len() - dropped,
                dropped > 0 ==> full.len() - dropped >= self.max_size,
                full.len() == total,
            decreases kept.len(),
        {
            kept.remove(0);
            proof {
                assert(full.skip(dropped + 1) =~= full.skip(dropped as int).skip(1));
                assert(kept@.map_values(|c: String| c@) =~= full.skip(dropped + 1));
            }
            dropped = dropped + 1;
        }
        proof {
            if full.len() > self.max_size {
                assert(dropped == full.len() - self.max_size);
            } else {
                assert(dropped == 0);
                assert(full.skip(0) =~= full);
            }
        }
        self.commands = kept;
    }

    /// The entries starting with `prefix`, most recent first.
    pub fn search(&self, prefix: &str) -> (v: Vec<String>)
        ensures
            v@.map_values(|c: String| c@) == history_matches(self.entries(), prefix@),
    {
        let mut out: Vec<String> = Vec::new();
        let mut i: usize = self.commands.len();
        let p = crate::text::chars_of(prefix);
        assert(self.entries().take(self.commands@.len() as int) =~= self.entries());
        assert(out@.map_values(|c: String| c@) =~= Seq::<Seq<char>>::empty());
        assert(Seq::<Seq<char>>::empty() + history_matches(self.entries(), prefix@) =~= history_matches(
            self.entries(),
            prefix@,
        ));
        while i > 0
            invariant
                i <= self.commands@.len(),
                p@ == prefix@,
                out@.map_values(|c: String| c@) + history_matches(self.entries().take(i as int), prefix@)
                    == history_matches(self.entries(), prefix@),
            decreases i,
        {
            let ghost before = out@;
            let ghost t = self.entries().take(i as int);
            proof {
                assert(t.drop_last() =~= self.entries().take(i - 1));
                assert(t.last() == self.commands@[i - 1]@);
            }
            let c = crate::text::chars_of(self.commands[i - 1].as_str());
            if starts_with_chars(&c, &p) {
                out.push(self.commands[i - 1].clone());
                proof {
                    assert(out@.map_values(|c: String| c@) =~= before.map_values(|c: String| c@).push(
                        t.last(),
                    ));
                }
            }
            i = i - 1;
        }
        assert(self.entries().take(0) =~= Seq::<Seq<char>>::empty());
        assert(out@.map_values(|c: String| c@) + Seq::<Seq<char>>::empty() =~= out@.map_values(|c: String| c@));
        out
    }
}

proof fn lemma_without_command_contains(s: Seq<Seq<char>>, c: Seq<char>, x: Seq<char>)
    ensures
        without_command(s, c).contains(x) <==> (s.contains(x) && x != c),
    decreases s.len(),
{
    if s.len() > 0 {
        lemma_without_command_contains(s.drop_last(), c, x);
        let p = without_command(s.drop_last(), c);
        let tail = if s.last() == c {
            Seq::<Seq<char>>::empty()
        } else {
            seq![s.last()]
        };
        assert(s =~= s.drop_last().push(s.last()));
        if (p + tail).contains(x) {
            let i = choose|i: int| 0 <= i < (p + tail).len() && (p + tail)[i] == x;
            if i < p.len() {
                assert(p[i] == x);
                assert(p.contains(x));
                let j = choose|j: int| 0 <= j < s.drop_last().len() && s.drop_last()[j] == x;
                assert(s[j] == x);
            } else {
                assert(tail[i - p.len()] == x);
                assert(s[s.len() - 1] == x);
            }
        }
        if s.contains(x) && x != c {
            let i = choose|i: int| 0 <= i < s.len() && s[i] == x;
            if i < s.len() - 1 {
                assert(s.drop_last()[i] == x);
                assert(p.contains(x));
                let j = choose|j: int| 0 <= j < p.len() && p[j] == x;
                assert((p + tail)[j] == x);
            } else {
                assert((p + tail)[p.len() as int] == x);
            }
        }
    }
}

proof fn lemma_without_command_distinct(s: Seq<Seq<char>>, c: Seq<char>)
    requires
        forall|i: int, j: int| 0 <= i < j < s.len() ==> #[trigger] s[i] != #[trigger] s[j],
    ensures
        ({
            let w = without_command(s, c);
            forall|i: int, j: int| 0 <= i < j < w.len() ==> #[trigger] w[i] != #[trigger] w[j]
        }),
    decreases s.len(),
{
    if s.len() > 0 {
        let d = s.drop_last();
        assert forall|i: int, j: int| 0 <= i < j < d.len() implies #[trigger] d[i] != #[trigger] d[j] by {
            assert(d[i] == s[i] && d[j] == s[j]);
        }
        lemma_without_command_distinct(d, c);
        let p = without_command(d, c);
        if s.last() != c {
            lemma_without_command_contains(d, c, s.last());
            assert(!d.contains(s.last())) by {
                if d.contains(s.last()) {
                    let j = choose|j: int| 0 <= j < d.len() && d[j] == s.last();
                    assert(s[j] == s[s.len() - 1]);
                }
            }
            let w = p + seq![s.last()];
            assert forall|i: int, j: int| 0 <= i < j < w.len() implies #[trigger] w[i] != #[trigger] w[j] by {
                if j == w.len() - 1 {
                    assert(w[i] == p[i]);
                    assert(p.contains(p[i]));
                }
            }
        } else {
            assert(p + Seq::<Seq<char>>::empty() =~= p);
        }
    }
}

/// Adding a command keeps at most `max` entries; unless `max` is zero the
/// command becomes the most recent entry and appears nowhere else; and a
/// history without repeated entries stays without them.
pub proof fn lemma_history_add(s: Seq<Seq<char>>, c: Seq<char>, max: nat)
    ensures
        ({
            let h = history_added(s, c, max);
            &&& h.len() <= max
            &&& h.len() == if without_command(s, c).len() + 1 > max {
                max
            } else {
                without_command(s, c).len() + 1
            }
            &&& max > 0 ==> h.last() == c
            &&& forall|i: int| 0 <= i < h.len() - 1 ==> #[trigger] h[i] != c
            &&& (forall|i: int, j: int| 0 <= i < j < s.len() ==> #[trigger] s[i] != #[trigger] s[j]) ==> (forall|
                i: int,
                j: int,
            | 0 <= i < j < h.len() ==> #[trigger] h[i] != #[trigger] h[j])
        }),
{
    let w = without_command(s, c);
    let kept = w.push(c);
    let h = history_added(s, c, max);
    assert forall|i: int| 0 <= i < h.len() - 1 implies #[trigger] h[i] != c by {
        let k = if kept.len() > max {
            i + (kept.len() - max)
        } else {
            i
        };
        assert(h[i] == kept[k]);
        assert(k < kept.len() - 1);
        assert(kept[k] == w[k]);
        lemma_without_command_contains(s, c, c);
        assert(w.contains(w[k]));
    }
    if forall|i: int, j: int| 0 <= i < j < s.len() ==> #[trigger] s[i] != #[trigger] s[j] {
        lemma_without_command_distinct(s, c);
        lemma_without_command_contains(s, c, c);
        assert forall|i: int, j: int| 0 <= i < j < h.len() implies #[trigger] h[i] != #[trigger] h[j] by {
            let off = if kept.len() > max {
                kept.len() - max
            } else {
                0
            };
            assert(h[i] == kept[i + off] && h[j] == kept[j + off]);
            if j + off == kept.len() - 1 {
                assert(w.contains(w[i + off]));
            } else {
                assert(kept[i + off] == w[i + off] && kept[j + off] == w[j + off]);
            }
        }
    }
}

/// The saved sessions after saving `state`: it replaces the session of the
/// same name, or is added after the others.
pub open spec fn saved_with(s: Seq<SessionState>, state: SessionState) -> Seq<SessionState> {
    match session_names(s).index_of_first(state.name@) {
        Some(i) => s.update(i, state),
        None => s.push(state),
    }
}

/// No two sessions share a name.
pub open spec fn names_unique(s: Seq<SessionState>) -> bool {
    forall|i: int, j: int| 0 <= i < j < s.len() ==> #[trigger] session_names(s)[i] != #[trigger] session_names(s)[j]
}

/// Saving reads back: after `state` is saved, the one session under its
/// name is `state`, names stay unique, and every other session is kept.
pub proof fn lemma_saved_session_reads_back(s: Seq<SessionState>, state: SessionState)
    requires
        names_unique(s),
    ensures
        names_unique(saved_with(s, state)),
        session_names(saved_with(s, state)).contains(state.name@),
        forall|i: int|
            0 <= i < saved_with(s, state).len() && #[trigger] saved_with(s, state)[i].name@ == state.name@
                ==> saved_with(s, state)[i] == state,
        forall|other: SessionState|
            #[trigger] s.contains(other) && other.name@ != state.name@ ==> saved_with(s, state).contains(other),
{
    let n = session_names(s);
    let t = saved_with(s, state);
    n.index_of_first_ensures(state.name@);
    match n.index_of_first(state.name@) {
        Some(k) => {
            assert(session_names(t) =~= n.update(k, state.name@));
            assert(session_names(t)[k] == state.name@);
            assert forall|i: int| 0 <= i < t.len() && #[trigger] t[i].name@ == state.name@ implies t[i] == state by {
                if i != k {
                    assert(n[i] == state.name@);
                    if i < k {
                        assert(n[i] != n[k]);
                    } else {
                        assert(n[k] != n[i]);
                    }
                }
            }
            assert forall|other: SessionState| #[trigger] s.contains(other) && other.name@ != state.name@ implies t.contains(
                other,
            ) by {
                let j = choose|j: int| 0 <= j < s.len() && s[j] == other;
                assert(j != k);
                assert(t[j] == other);
            }
        },
        None => {
            assert(session_names(t) =~= n.push(state.name@));
            assert(session_names(t)[s.len() as int] == state.name@);
            assert forall|i: int| 0 <= i < t.len() && #[trigger] t[i].name@ == state.name@ implies t[i] == state by {
                if i < s.len() {
                    assert(n[i] == state.name@);
                    assert(n.contains(state.name@));
                }
            }
            assert forall|other: SessionState| #[trigger] s.contains(other) && other.name@ != state.name@ implies t.contains(
                other,
            ) by {
                let j = choose|j: int| 0 <= j < s.len() && s[j] == other;
                assert(t[j] == other);
            }
            assert forall|i: int, j: int| 0 <= i < j < t.len() implies #[trigger] session_names(t)[i]
                != #[trigger] session_names(t)[j] by {
                if j == s.len() {
                    assert(session_names(t)[i] == n[i]);
                    if n[i] == state.name@ {
                        assert(n.contains(state.name@));
                    }
                } else {
                    assert(session_names(t)[i] == n[i] && session_names(t)[j] == n[j]);
                }
            }
        },
    }
}

} // verus!
