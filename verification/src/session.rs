//! Sessions: a named window with a lifecycle state, and the set of them.
use vstd::prelude::*;

use crate::ids::IdSource;
use crate::multiplexer::Window;

verus! {

/// Unique session identifier.
#[derive(Debug, Clone, Copy, PartialEq, Eq, Structural, Hash)]
pub struct SessionId(pub u64);

impl SessionId {
    /// Take the next identifier from `source`.
    pub fn next(source: &mut IdSource) -> (id: SessionId)
        ensures
            id.0 == old(source).peek(),
            final(source).peek() == if old(source).peek() == u64::MAX {
                0
            } else {
                (old(source).peek() + 1) as u64
            },
    {
        SessionId(source.fresh())
    }
}

/// Session state.
#[derive(Debug, Clone, Copy, PartialEq, Eq, Structural)]
pub enum SessionState {
    Active,
    Detached,
    Dead,
}

/// A terminal session: one window per session.
pub struct Session {
    id: SessionId,
    name: String,
    state: SessionState,
    window: Window,
}

impl Session {
    pub closed spec fn spec_id(&self) -> SessionId {
        self.id
    }

    pub closed spec fn spec_name(&self) -> Seq<char> {
        self.name@
    }

    pub closed spec fn spec_state(&self) -> SessionState {
        self.state
    }

    pub closed spec fn spec_window(&self) -> Window {
        self.window
    }

    /// An active session wrapping an already-constructed window.
    pub fn with_window(name: String, window: Window, id: SessionId) -> (s: Session)
        ensures
            s.spec_id() == id,
            s.spec_name() == name@,
            s.spec_state() == SessionState::Active,
            s.spec_window() == window,
    {
        Session { id, name, state: SessionState::Active, window }
    }

    pub fn id(&self) -> (id: SessionId)
        ensures
            id == self.spec_id(),
    {
        self.id
    }

    pub fn name(&self) -> (n: &str)
        ensures
            n@ == self.spec_name(),
    {
        self.name.as_str()
    }

    pub fn state(&self) -> (s: SessionState)
        ensures
            s == self.spec_state(),
    {
        self.state
    }

    pub fn set_state(&mut self, state: SessionState)
        ensures
            final(self).spec_state() == state,
            final(self).spec_id() == old(self).spec_id(),
            final(self).spec_name() == old(self).spec_name(),
            final(self).spec_window() == old(self).spec_window(),
    {
        self.state = state;
    }

    pub fn window(&self) -> (w: &Window)
        ensures
            *w == self.spec_window(),
    {
        &self.window
    }

    pub fn window_mut(&mut self) -> (w: &mut Window)
        ensures
            *w == old(self).spec_window(),
            final(self).spec_window() == *final(w),
            final(self).spec_id() == old(self).spec_id(),
            final(self).spec_name() == old(self).spec_name(),
            final(self).spec_state() == old(self).spec_state(),
    {
        &mut self.window
    }
}

/// The sessions of the application, one of them active.
pub struct SessionManager {
    sessions: Vec<Session>,
    active_session: Option<SessionId>,
}

impl SessionManager {
    pub closed spec fn list(&self) -> Seq<Session> {
        self.sessions@
    }

    /// The identifiers of the sessions, in insertion order.
    pub open spec fn ids(&self) -> Seq<SessionId> {
        self.list().map_values(|s: Session| s.spec_id())
    }

    pub closed spec fn spec_active(&self) -> Option<SessionId> {
        self.active_session
    }

    /// Session identifiers are distinct, and the active session is one of
    /// them, present exactly when there are sessions.
    pub open spec fn wf(&self) -> bool {
        &&& forall|i: int, j: int| 0 <= i < j < self.ids().len() ==> #[trigger] self.ids()[i] != #[trigger] self.ids()[j]
        &&& (self.spec_active() is None <==> self.ids().len() == 0)
        &&& (self.spec_active() matches Some(a) ==> self.ids().contains(a))
    }

    pub fn new() -> (m: SessionManager)
        ensures
            m.wf(),
            m.ids().len() == 0,
    {
        let m = SessionManager { sessions: Vec::new(), active_session: None };
        assert(m.ids() =~= Seq::<SessionId>::empty());
        m
    }

    fn index_of(&self, id: SessionId) -> (r: Option<usize>)
        ensures
            match r {
                Some(i) => i < self.ids().len() && self.ids()[i as int] == id,
                None => !self.ids().contains(id),
            },
    {
        let mut i: usize = 0;
        while i < self.sessions.len()
            invariant
                i <= self.sessions@.len(),
                self.ids().len() == self.sessions@.len(),
                forall|j: int| 0 <= j < i ==> #[trigger] self.ids()[j] != id,
            decreases self.sessions.len() - i,
        {
            if self.sessions[i].id == id {
                return Some(i);
            }
            i = i + 1;
        }
        None
    }

    /// Insert an already-constructed session, replacing one with the same
    /// identifier; the first session inserted becomes the active one.
    pub fn insert(&mut self, session: Session) -> (id: SessionId)
        requires
            old(self).wf(),
        ensures
            final(self).wf(),
            id == session.spec_id(),
            final(self).list() == match old(self).ids().index_of_first(id) {
                Some(i) => old(self).list().update(i, session),
                None => old(self).list().push(session),
            },
            final(self).spec_active() == match old(self).spec_active() {
                None => Some(id),
                Some(a) => Some(a),
            },
    {
        let id = session.id;
        let ghost old_ids = self.ids();
        match self.index_of(id) {
            Some(i) => {
                proof {
                    old_ids.index_of_first_ensures(id);
                    let k = old_ids.index_of_first(id)->0;
                    if k != i {
                        assert(old_ids[k] == old_ids[i as int]);
                    }
                }
                self.sessions.set(i, session);
                proof {
                    assert(self.ids() =~= old_ids.update(i as int, id));
                    assert(self.ids() =~= old_ids);
                }
            },
            None => {
                proof {
                    old_ids.index_of_first_ensures(id);
                }
                self.sessions.push(session);
                proof {
                    let ids = self.ids();
                    assert(ids =~= old_ids.push(id));
                    assert forall|i: int, j: int| 0 <= i < j < ids.len() implies #[trigger] ids[i] != #[trigger] ids[j] by {
                        if j == ids.len() - 1 {
                            assert(old_ids.contains(ids[i]));
                        } else {
                            assert(ids[i] == old_ids[i] && ids[j] == old_ids[j]);
                        }
                    }
                    if let Some(a) = self.active_session {
                        let k = choose|k: int| 0 <= k < old_ids.len() && old_ids[k] == a;
                        assert(ids[k] == a);
                    }
                }
            },
        }
        if self.active_session.is_none() {
            self.active_session = Some(id);
            proof {
                old_ids.index_of_first_ensures(id);
                assert(self.ids().contains(id)) by {
                    match old_ids.index_of_first(id) {
                        Some(k) => assert(self.ids()[k] == id),
                        None => assert(self.ids()[self.ids().len() - 1] == id),
                    }
                }
            }
        }
        id
    }

    /// The active session, if any.
    pub fn active(&self) -> (s: Option<&Session>)
        requires
            self.wf(),
        ensures
            match s {
                Some(r) => self.spec_active() == Some(r.spec_id()) && self.list().contains(*r),
                None => self.spec_active() is None,
            },
    {
        match self.active_session {
            Some(id) => match self.index_of(id) {
                Some(i) => {
                    proof {
                        assert(self.list()[i as int].spec_id() == self.ids()[i as int]);
                        assert(self.list().contains(self.list()[i as int]));
                    }
                    Some(&self.sessions[i])
                },
                None => None,
            },
            None => None,
        }
    }

    /// The active session, mutably, if any.
    pub fn active_mut(&mut self) -> (s: Option<&mut Session>)
        requires
            old(self).wf(),
        ensures
            match s {
                Some(r) => exists|i: int|
                    0 <= i < old(self).list().len() && old(self).spec_active() == Some(old(self).ids()[i])
                        && #[trigger] old(self).list()[i] == *r && final(self).list() == old(self).list().update(
                        i,
                        *final(r),
                    ) && final(self).spec_active() == old(self).spec_active(),
                None => old(self).spec_active() is None && *final(self) == *old(self),
            },
    {
        match self.active_session {
            Some(id) => match self.index_of(id) {
                Some(i) => Some(&mut self.sessions[i]),
                None => None,
            },
            None => None,
        }
    }

    /// Remove a session, returning it; if it was active, the first
    /// remaining session (if any) becomes active.
    pub fn remove(&mut self, id: SessionId) -> (r: Option<Session>)
        requires
            old(self).wf(),
        ensures
            final(self).wf(),
            match r {
                Some(s) => s.spec_id() == id && exists|i: int|
                    0 <= i < old(self).list().len() && #[trigger] old(self).list()[i] == s && final(self).list()
                        == old(self).list().remove(i),
                None => !old(self).ids().contains(id) && final(self).list() == old(self).list(),
            },
            final(self).spec_active() == if old(self).spec_active() == Some(id) {
                if final(self).ids().len() > 0 {
                    Some(final(self).ids()[0])
                } else {
                    None
                }
            } else {
                old(self).spec_active()
            },
    {
        let ghost old_ids = self.ids();
        let removed = match self.index_of(id) {
            Some(i) => {
                let s = self.sessions.remove(i);
                proof {
                    assert(self.ids() =~= old_ids.remove(i as int));
                    let ids = self.ids();
                    assert forall|a: int, b: int| 0 <= a < b < ids.len() implies #[trigger] ids[a] != #[trigger] ids[b] by {
                        let a2 = if a < i { a } else { a + 1 };
                        let b2 = if b < i { b } else { b + 1 };
                        assert(ids[a] == old_ids[a2] && ids[b] == old_ids[b2]);
                    }
                    if let Some(act) = self.active_session {
                        if act != id {
                            let k = choose|k: int| 0 <= k < old_ids.len() && old_ids[k] == act;
                            if k < i {
                                assert(ids[k] == act);
                            } else {
                                assert(k != i);
                                assert(ids[k - 1] == act);
                            }
                        }
                    }
                }
                Some(s)
            },
            None => None,
        };
        if self.active_session == Some(id) {
            self.active_session = if self.sessions.len() > 0 {
                Some(self.sessions[0].id)
            } else {
                None
            };
            proof {
                if self.sessions@.len() > 0 {
                    assert(self.ids()[0] == self.sessions@[0].spec_id());
                    assert(self.ids().contains(self.ids()[0]));
                }
            }
        }
        removed
    }
}


/// What happens to a session's saved copy when the front end shuts down.
#[derive(Debug, Clone, Copy, PartialEq, Eq, Structural)]
pub enum SaveAction {
    /// Every pane had exited: any saved copy is stale and is removed.
    RemoveSaved,
    /// The session is written out to be resumed later.
    Persist,
    /// Sessions are not kept: nothing is written.
    Nothing,
}

/// A clean shutdown of a session in `state`: a live session becomes
/// detached and is persisted when sessions are kept; a dead one stays dead
/// and its saved copy is removed.
pub fn shutdown_plan(state: SessionState, persist_sessions: bool) -> (r: (SessionState, SaveAction))
    ensures
        state == SessionState::Dead ==> r == (SessionState::Dead, SaveAction::RemoveSaved),
        state != SessionState::Dead ==> r == (SessionState::Detached, if persist_sessions {
            SaveAction::Persist
        } else {
            SaveAction::Nothing
        }),
{
    match state {
        SessionState::Dead => (SessionState::Dead, SaveAction::RemoveSaved),
        _ => (SessionState::Detached, if persist_sessions {
            SaveAction::Persist
        } else {
            SaveAction::Nothing
        }),
    }
}

/// After a pane closes, with `remaining` panes left in the window: whether
/// the front end quits, which it does, marking the session dead, once no
/// pane is left.
pub fn after_pane_closed(remaining: usize, state: SessionState) -> (r: (bool, SessionState))
    ensures
        remaining == 0 ==> r == (true, SessionState::Dead),
        remaining > 0 ==> r == (false, state),
{
    if remaining == 0 {
        (true, SessionState::Dead)
    } else {
        (false, state)
    }
}

} // verus!
