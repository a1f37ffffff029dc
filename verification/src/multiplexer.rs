//! Multiplexer: windows, their panes, and the layout tree that places them.
use vstd::prelude::*;

use crate::ids::IdSource;
use crate::terminal::Terminal;

verus! {

/// Unique window identifier.
#[derive(Debug, Clone, Copy, PartialEq, Eq, Structural, Hash)]
pub struct WindowId(pub u64);

impl WindowId {
    /// Take the next identifier from `source`.
    pub fn next(source: &mut IdSource) -> (id: WindowId)
        ensures
            id.0 == old(source).peek(),
            final(source).peek() == if old(source).peek() == u64::MAX {
                0
            } else {
                (old(source).peek() + 1) as u64
            },
    {
        WindowId(source.fresh())
    }
}

/// Unique pane identifier.
#[derive(Debug, Clone, Copy, PartialEq, Eq, Structural, Hash)]
pub struct PaneId(pub u64);

/// Split direction for panes: `Horizontal` places them side by side,
/// `Vertical` stacks them.
#[derive(Debug, Clone, Copy, PartialEq, Eq, Structural)]
pub enum SplitDirection {
    Horizontal,
    Vertical,
}

/// Layout of the panes of a window: a binary tree of splits with one pane
/// at each leaf. `ratio_percent` is the first part's share of the split.
#[derive(Debug)]
pub enum Layout {
    Single(PaneId),
    Split {
        direction: SplitDirection,
        ratio_percent: u8,
        first: Box<Layout>,
        second: Box<Layout>,
    },
}

/// The panes at the leaves of a layout, left to right.
pub open spec fn leaves(l: Layout) -> Seq<PaneId>
    decreases l,
{
    match l {
        Layout::Single(id) => seq![id],
        Layout::Split { first, second, .. } => leaves(*first) + leaves(*second),
    }
}

/// `l` with every leaf `target` replaced by an even split, in `direction`,
/// of `target` and `new_pane`.
pub open spec fn split_layout(l: Layout, target: PaneId, new_pane: PaneId, direction: SplitDirection) -> Layout
    decreases l,
{
    match l {
        Layout::Single(id) => if id == target {
            Layout::Split {
                direction,
                ratio_percent: 50,
                first: Box::new(Layout::Single(id)),
                second: Box::new(Layout::Single(new_pane)),
            }
        } else {
            Layout::Single(id)
        },
        Layout::Split { direction: d, ratio_percent, first, second } => Layout::Split {
            direction: d,
            ratio_percent,
            first: Box::new(split_layout(*first, target, new_pane, direction)),
            second: Box::new(split_layout(*second, target, new_pane, direction)),
        },
    }
}

/// `l` with every leaf `target` removed, each split left with one side
/// collapsing into that side; `None` when no leaf is left.
pub open spec fn layout_without(l: Layout, target: PaneId) -> Option<Layout>
    decreases l,
{
    match l {
        Layout::Single(id) => if id == target {
            None
        } else {
            Some(Layout::Single(id))
        },
        Layout::Split { direction, ratio_percent, first, second } => {
            match (layout_without(*first, target), layout_without(*second, target)) {
                (Some(f), Some(s)) => Some(
                    Layout::Split { direction, ratio_percent, first: Box::new(f), second: Box::new(s) },
                ),
                (Some(f), None) => Some(f),
                (None, Some(s)) => Some(s),
                (None, None) => None,
            }
        },
    }
}

/// `s` with every `target` followed by `new_pane`.
pub open spec fn split_ids(s: Seq<PaneId>, target: PaneId, new_pane: PaneId) -> Seq<PaneId>
    decreases s.len(),
{
    if s.len() == 0 {
        s
    } else {
        split_ids(s.drop_last(), target, new_pane) + if s.last() == target {
            seq![target, new_pane]
        } else {
            seq![s.last()]
        }
    }
}

/// `s` without any `target`.
pub open spec fn remove_id(s: Seq<PaneId>, target: PaneId) -> Seq<PaneId>
    decreases s.len(),
{
    if s.len() == 0 {
        s
    } else {
        remove_id(s.drop_last(), target) + if s.last() == target {
            Seq::empty()
        } else {
            seq![s.last()]
        }
    }
}

pub open spec fn no_dup(s: Seq<PaneId>) -> bool {
    forall|i: int, j: int| 0 <= i < j < s.len() ==> #[trigger] s[i] != #[trigger] s[j]
}

proof fn lemma_split_ids_append(a: Seq<PaneId>, b: Seq<PaneId>, t: PaneId, n: PaneId)
    ensures
        split_ids(a + b, t, n) == split_ids(a, t, n) + split_ids(b, t, n),
    decreases b.len(),
{
    if b.len() == 0 {
        assert(a + b =~= a);
        assert(split_ids(a, t, n) + split_ids(b, t, n) =~= split_ids(a, t, n));
    } else {
        assert((a + b).drop_last() =~= a + b.drop_last());
        lemma_split_ids_append(a, b.drop_last(), t, n);
        let tail = if b.last() == t {
            seq![t, n]
        } else {
            seq![b.last()]
        };
        assert(split_ids(a, t, n) + split_ids(b.drop_last(), t, n) + tail =~= split_ids(a, t, n) + (
        split_ids(b.drop_last(), t, n) + tail));
    }
}

proof fn lemma_remove_id_append(a: Seq<PaneId>, b: Seq<PaneId>, t: PaneId)
    ensures
        remove_id(a + b, t) == remove_id(a, t) + remove_id(b, t),
    decreases b.len(),
{
    if b.len() == 0 {
        assert(a + b =~= a);
        assert(remove_id(a, t) + remove_id(b, t) =~= remove_id(a, t));
    } else {
        assert((a + b).drop_last() =~= a + b.drop_last());
        lemma_remove_id_append(a, b.drop_last(), t);
        let tail = if b.last() == t {
            Seq::<PaneId>::empty()
        } else {
            seq![b.last()]
        };
        assert(remove_id(a, t) + remove_id(b.drop_last(), t) + tail =~= remove_id(a, t) + (remove_id(
            b.drop_last(),
            t,
        ) + tail));
    }
}

/// What splitting a pane does to the panes of a layout.
pub proof fn lemma_split_layout_leaves(l: Layout, t: PaneId, n: PaneId, d: SplitDirection)
    ensures
        leaves(split_layout(l, t, n, d)) == split_ids(leaves(l), t, n),
    decreases l,
{
    match l {
        Layout::Single(id) => {
            assert(seq![id].drop_last() =~= Seq::<PaneId>::empty());
            assert(split_ids(Seq::<PaneId>::empty(), t, n) == Seq::<PaneId>::empty());
            assert(seq![id].last() == id);
            if id == t {
                let sp = split_layout(l, t, n, d);
                assert(leaves(sp) == leaves(Layout::Single(id)) + leaves(Layout::Single(n)));
                assert(seq![id] + seq![n] =~= Seq::<PaneId>::empty() + seq![t, n]);
            } else {
                assert(seq![id] =~= Seq::<PaneId>::empty() + seq![id]);
            }
        },
        Layout::Split { first, second, .. } => {
            lemma_split_layout_leaves(*first, t, n, d);
            lemma_split_layout_leaves(*second, t, n, d);
            lemma_split_ids_append(leaves(*first), leaves(*second), t, n);
        },
    }
}

/// What removing a pane does to the panes of a layout: exactly the other
/// panes remain, and nothing remains only when no other pane was there.
pub proof fn lemma_layout_without_leaves(l: Layout, t: PaneId)
    ensures
        match layout_without(l, t) {
            Some(r) => leaves(r) == remove_id(leaves(l), t) && leaves(r).len() > 0,
            None => remove_id(leaves(l), t).len() == 0,
        },
    decreases l,
{
    match l {
        Layout::Single(id) => {
            assert(seq![id].drop_last() =~= Seq::<PaneId>::empty());
            assert(remove_id(Seq::<PaneId>::empty(), t) == Seq::<PaneId>::empty());
            if id != t {
                assert(remove_id(seq![id], t) =~= seq![id]);
            }
        },
        Layout::Split { first, second, .. } => {
            lemma_layout_without_leaves(*first, t);
            lemma_layout_without_leaves(*second, t);
            lemma_remove_id_append(leaves(*first), leaves(*second), t);
            match (layout_without(*first, t), layout_without(*second, t)) {
                (Some(f), None) => {
                    assert(remove_id(leaves(*first), t) + remove_id(leaves(*second), t) =~= leaves(f));
                },
                (None, Some(s)) => {
                    assert(remove_id(leaves(*first), t) + remove_id(leaves(*second), t) =~= leaves(s));
                },
                _ => {},
            }
        },
    }
}

proof fn lemma_concat_contains(p: Seq<PaneId>, q: Seq<PaneId>, x: PaneId)
    ensures
        (p + q).contains(x) <==> (p.contains(x) || q.contains(x)),
{
    if (p + q).contains(x) {
        let i = choose|i: int| 0 <= i < (p + q).len() && (p + q)[i] == x;
        if i < p.len() {
            assert(p[i] == x);
        } else {
            assert(q[i - p.len()] == x);
        }
    }
    if p.contains(x) {
        let i = choose|i: int| 0 <= i < p.len() && p[i] == x;
        assert((p + q)[i] == x);
    }
    if q.contains(x) {
        let i = choose|i: int| 0 <= i < q.len() && q[i] == x;
        assert((p + q)[p.len() + i] == x);
    }
}

proof fn lemma_last_contains(s: Seq<PaneId>, x: PaneId)
    requires
        s.len() > 0,
    ensures
        s.contains(x) <==> (s.drop_last().contains(x) || s.last() == x),
{
    assert(s =~= s.drop_last() + seq![s.last()]);
    lemma_concat_contains(s.drop_last(), seq![s.last()], x);
    assert(seq![s.last()].contains(x) <==> s.last() == x) by {
        if s.last() == x {
            assert(seq![s.last()][0] == x);
        }
    }
}

proof fn lemma_split_ids_contains(s: Seq<PaneId>, t: PaneId, n: PaneId, x: PaneId)
    ensures
        split_ids(s, t, n).contains(x) <==> (s.contains(x) || (x == n && s.contains(t))),
    decreases s.len(),
{
    if s.len() > 0 {
        lemma_split_ids_contains(s.drop_last(), t, n, x);
        let tail = if s.last() == t {
            seq![t, n]
        } else {
            seq![s.last()]
        };
        let p = split_ids(s.drop_last(), t, n);
        lemma_concat_contains(p, tail, x);
        lemma_last_contains(s, x);
        lemma_last_contains(s, t);
        if s.last() == t {
            assert(tail.contains(x) <==> (x == t || x == n)) by {
                if x == t {
                    assert(tail[0] == x);
                }
                if x == n {
                    assert(tail[1] == x);
                }
            }
        } else {
            assert(tail.contains(x) <==> x == s.last()) by {
                if x == s.last() {
                    assert(tail[0] == x);
                }
            }
        }
    }
}

proof fn lemma_remove_id_contains(s: Seq<PaneId>, t: PaneId, x: PaneId)
    ensures
        remove_id(s, t).contains(x) <==> (s.contains(x) && x != t),
    decreases s.len(),
{
    if s.len() > 0 {
        lemma_remove_id_contains(s.drop_last(), t, x);
        let tail = if s.last() == t {
            Seq::<PaneId>::empty()
        } else {
            seq![s.last()]
        };
        let p = remove_id(s.drop_last(), t);
        lemma_concat_contains(p, tail, x);
        lemma_last_contains(s, x);
        if s.last() != t {
            assert(tail.contains(x) <==> x == s.last()) by {
                if x == s.last() {
                    assert(tail[0] == x);
                }
            }
        }
    }
}

proof fn lemma_remove_id_no_dup(s: Seq<PaneId>, t: PaneId)
    requires
        no_dup(s),
    ensures
        no_dup(remove_id(s, t)),
    decreases s.len(),
{
    if s.len() > 0 {
        assert(no_dup(s.drop_last()));
        lemma_remove_id_no_dup(s.drop_last(), t);
        let p = remove_id(s.drop_last(), t);
        if s.last() != t {
            lemma_remove_id_contains(s.drop_last(), t, s.last());
            assert forall|i: int| 0 <= i < p.len() implies p[i] != s.last() by {
                if p[i] == s.last() {
                    assert(p.contains(s.last()));
                    let j = choose|j: int| 0 <= j < s.drop_last().len() && s.drop_last()[j] == s.last();
                    assert(s[j] == s[s.len() - 1]);
                }
            }
            let r = p + seq![s.last()];
            assert forall|i: int, j: int| 0 <= i < j < r.len() implies #[trigger] r[i] != #[trigger] r[j] by {
                if j == r.len() - 1 {
                    assert(r[i] == p[i]);
                }
            }
        } else {
            assert(p + Seq::<PaneId>::empty() =~= p);
        }
    }
}

proof fn lemma_split_ids_no_dup(s: Seq<PaneId>, t: PaneId, n: PaneId)
    requires
        no_dup(s),
        !s.contains(n),
    ensures
        no_dup(split_ids(s, t, n)),
    decreases s.len(),
{
    if s.len() > 0 {
        assert(no_dup(s.drop_last()));
        assert(!s.drop_last().contains(n)) by {
            if s.drop_last().contains(n) {
                let j = choose|j: int| 0 <= j < s.drop_last().len() && s.drop_last()[j] == n;
                assert(s[j] == n);
            }
        }
        lemma_split_ids_no_dup(s.drop_last(), t, n);
        let p = split_ids(s.drop_last(), t, n);
        let tail = if s.last() == t {
            seq![t, n]
        } else {
            seq![s.last()]
        };
        assert(s.last() != n) by {
            assert(s[s.len() - 1] == s.last());
        }
        assert forall|y: PaneId| #[trigger] tail.contains(y) implies !p.contains(y) by {
            lemma_split_ids_contains(s.drop_last(), t, n, y);
            if s.drop_last().contains(y) {
                let j = choose|j: int| 0 <= j < s.drop_last().len() && s.drop_last()[j] == y;
                assert(s[j] == s[s.len() - 1]);
            }
        }
        let r = p + tail;
        assert forall|i: int, j: int| 0 <= i < j < r.len() implies #[trigger] r[i] != #[trigger] r[j] by {
            if j >= p.len() && i < p.len() {
                assert(tail.contains(r[j]));
                assert(p.contains(r[i]));
            }
        }
    }
}

/// Splitting the pane `target` next to a new pane `new_pane` keeps every
/// pane of the layout, adds `new_pane` when `target` is there, and adds no
/// duplicate.
pub proof fn lemma_split_keeps_panes(l: Layout, target: PaneId, new_pane: PaneId, d: SplitDirection)
    requires
        no_dup(leaves(l)),
        !leaves(l).contains(new_pane),
    ensures
        no_dup(leaves(split_layout(l, target, new_pane, d))),
        forall|x: PaneId|
            #[trigger] leaves(split_layout(l, target, new_pane, d)).contains(x) <==> (leaves(l).contains(x)
                || (x == new_pane && leaves(l).contains(target))),
{
    lemma_split_layout_leaves(l, target, new_pane, d);
    lemma_split_ids_no_dup(leaves(l), target, new_pane);
    assert forall|x: PaneId|
        #[trigger] leaves(split_layout(l, target, new_pane, d)).contains(x) <==> (leaves(l).contains(x) || (x
            == new_pane && leaves(l).contains(target))) by {
        lemma_split_ids_contains(leaves(l), target, new_pane, x);
    }
}

/// Removing the pane `target` keeps exactly the other panes of the layout,
/// without duplicates, and leaves no layout only when no other pane was
/// there.
pub proof fn lemma_remove_keeps_other_panes(l: Layout, target: PaneId)
    requires
        no_dup(leaves(l)),
    ensures
        layout_without(l, target) is None <==> (forall|x: PaneId| #[trigger] leaves(l).contains(x) ==> x == target),
        layout_without(l, target) matches Some(r) ==> no_dup(leaves(r)) && forall|x: PaneId|
            #[trigger] leaves(r).contains(x) <==> (leaves(l).contains(x) && x != target),
{
    lemma_layout_without_leaves(l, target);
    lemma_remove_id_no_dup(leaves(l), target);
    let rem = remove_id(leaves(l), target);
    assert forall|x: PaneId| #[trigger] rem.contains(x) <==> (leaves(l).contains(x) && x != target) by {
        lemma_remove_id_contains(leaves(l), target, x);
    }
    if layout_without(l, target) is None {
        assert forall|x: PaneId| #[trigger] leaves(l).contains(x) implies x == target by {
            if x != target {
                assert(rem.contains(x));
            }
        }
    } else {
        let r = layout_without(l, target)->0;
        assert(rem.len() > 0);
        assert(rem.contains(rem[0]));
    }
}

impl Clone for Layout {
    fn clone(&self) -> (r: Self)
        ensures
            r == *self,
        decreases self,
    {
        match self {
            Layout::Single(id) => Layout::Single(*id),
            Layout::Split { direction, ratio_percent, first, second } => Layout::Split {
                direction: *direction,
                ratio_percent: *ratio_percent,
                first: Box::new((**first).clone()),
                second: Box::new((**second).clone()),
            },
        }
    }
}

impl Layout {
    /// `layout` with the leaf `target` split, in `direction`, into `target`
    /// and `new_pane`.
    pub fn insert_split(layout: Layout, target: PaneId, new_pane: PaneId, direction: SplitDirection) -> (r: Layout)
        ensures
            r == split_layout(layout, target, new_pane, direction),
        decreases layout,
    {
        match layout {
            Layout::Single(id) => if id == target {
                Layout::Split {
                    direction,
                    ratio_percent: 50,
                    first: Box::new(Layout::Single(id)),
                    second: Box::new(Layout::Single(new_pane)),
                }
            } else {
                Layout::Single(id)
            },
            Layout::Split { direction: d, ratio_percent, first, second } => Layout::Split {
                direction: d,
                ratio_percent,
                first: Box::new(Layout::insert_split(*first, target, new_pane, direction)),
                second: Box::new(Layout::insert_split(*second, target, new_pane, direction)),
            },
        }
    }

    /// `layout` with the leaf `target` removed, collapsing the tree around it.
    pub fn remove_leaf(layout: Layout, target: PaneId) -> (r: Option<Layout>)
        ensures
            r == layout_without(layout, target),
        decreases layout,
    {
        match layout {
            Layout::Single(id) => if id == target {
                None
            } else {
                Some(Layout::Single(id))
            },
            Layout::Split { direction, ratio_percent, first, second } => {
                let f = Layout::remove_leaf(*first, target);
                let s = Layout::remove_leaf(*second, target);
                match (f, s) {
                    (Some(f), Some(s)) => Some(
                        Layout::Split { direction, ratio_percent, first: Box::new(f), second: Box::new(s) },
                    ),
                    (Some(f), None) => Some(f),
                    (None, Some(s)) => Some(s),
                    (None, None) => None,
                }
            },
        }
    }
}

/// Removing a pane that was just split off restores the layout as it was.
pub proof fn lemma_remove_undoes_split(l: Layout, target: PaneId, new_pane: PaneId, d: SplitDirection)
    requires
        !leaves(l).contains(new_pane),
    ensures
        layout_without(split_layout(l, target, new_pane, d), new_pane) == Some(l),
    decreases l,
{
    match l {
        Layout::Single(id) => {
            assert(leaves(l)[0] == id);
            assert(leaves(l).contains(id));
            assert(id != new_pane);
            if id == target {
                let sp = split_layout(l, target, new_pane, d);
                assert(layout_without(Layout::Single(id), new_pane) == Some(Layout::Single(id)));
                assert(layout_without(Layout::Single(new_pane), new_pane) is None);
            }
        },
        Layout::Split { first, second, .. } => {
            lemma_concat_contains(leaves(*first), leaves(*second), new_pane);
            lemma_remove_undoes_split(*first, target, new_pane, d);
            lemma_remove_undoes_split(*second, target, new_pane, d);
        },
    }
}

/// A single pane within a window.
pub struct Pane {
    id: PaneId,
    terminal: Option<Terminal>,
    title: String,
}

impl Pane {
    pub closed spec fn spec_id(&self) -> PaneId {
        self.id
    }

    pub closed spec fn spec_title(&self) -> Seq<char> {
        self.title@
    }

    pub closed spec fn spec_terminal(&self) -> Option<Terminal> {
        self.terminal
    }

    /// A pane with no terminal attached yet and an empty title.
    pub fn new(id: PaneId) -> (p: Pane)
        ensures
            p.spec_id() == id,
            p.spec_title() == Seq::<char>::empty(),
            p.spec_terminal() is None,
    {
        Pane { id, terminal: None, title: String::new() }
    }

    pub fn id(&self) -> (id: PaneId)
        ensures
            id == self.spec_id(),
    {
        self.id
    }

    pub fn title(&self) -> (t: &str)
        ensures
            t@ == self.spec_title(),
    {
        self.title.as_str()
    }

    pub fn set_title(&mut self, title: String)
        ensures
            final(self).spec_title() == title@,
            final(self).spec_id() == old(self).spec_id(),
            final(self).spec_terminal() == old(self).spec_terminal(),
    {
        self.title = title;
    }

    pub fn terminal(&self) -> (t: Option<&Terminal>)
        ensures
            match t {
                Some(r) => self.spec_terminal() == Some(*r),
                None => self.spec_terminal() is None,
            },
    {
        match &self.terminal {
            Some(t) => Some(t),
            None => None,
        }
    }

    pub fn terminal_mut(&mut self) -> (t: Option<&mut Terminal>)
        ensures
            match t {
                Some(r) => old(self).spec_terminal() == Some(*r) && final(self).spec_terminal() == Some(
                    *final(r),
                ),
                None => old(self).spec_terminal() is None && final(self).spec_terminal() is None,
            },
            final(self).spec_id() == old(self).spec_id(),
            final(self).spec_title() == old(self).spec_title(),
    {
        match &mut self.terminal {
            Some(t) => Some(t),
            None => None,
        }
    }

    pub fn set_terminal(&mut self, terminal: Terminal)
        ensures
            final(self).spec_terminal() == Some(terminal),
            final(self).spec_id() == old(self).spec_id(),
            final(self).spec_title() == old(self).spec_title(),
    {
        self.terminal = Some(terminal);
    }
}

/// A window containing panes.
pub struct Window {
    id: WindowId,
    name: String,
    layout: Option<Layout>,
    panes: Vec<Pane>,
    active_pane: Option<PaneId>,
    pane_source: IdSource,
}

impl Window {
    pub closed spec fn spec_id(&self) -> WindowId {
        self.id
    }

    pub closed spec fn spec_name(&self) -> Seq<char> {
        self.name@
    }

    pub closed spec fn spec_layout(&self) -> Option<Layout> {
        self.layout
    }

    pub closed spec fn pane_list(&self) -> Seq<Pane> {
        self.panes@
    }

    /// The identifiers of the panes, in the order they were created.
    pub open spec fn ids(&self) -> Seq<PaneId> {
        self.pane_list().map_values(|p: Pane| p.spec_id())
    }

    pub closed spec fn spec_active(&self) -> Option<PaneId> {
        self.active_pane
    }

    /// The number the next pane's identifier will carry.
    pub closed spec fn next_pane_number(&self) -> u64 {
        self.pane_source.peek()
    }

    /// Every pane appears in the layout exactly once and the layout holds no
    /// other pane; there is a layout and an active pane exactly when there
    /// are panes, and the active pane is one of them; pane identifiers are
    /// distinct and below the next one to be handed out.
    pub open spec fn wf(&self) -> bool {
        &&& no_dup(self.ids())
        &&& (self.spec_layout() is None <==> self.ids().len() == 0)
        &&& (self.spec_layout() matches Some(l) ==> no_dup(leaves(l)) && forall|x: PaneId|
            #[trigger] leaves(l).contains(x) <==> self.ids().contains(x))
        &&& (self.spec_active() is None <==> self.ids().len() == 0)
        &&& (self.spec_active() matches Some(a) ==> self.ids().contains(a))
        &&& forall|i: int| 0 <= i < self.ids().len() ==> (#[trigger] self.ids()[i]).0 < self.next_pane_number()
    }

    /// An empty window.
    pub fn new(name: String, id: WindowId) -> (w: Window)
        ensures
            w.wf(),
            w.spec_id() == id,
            w.spec_name() == name@,
            w.ids().len() == 0,
            w.next_pane_number() == 1,
    {
        let w = Window {
            id,
            name,
            layout: None,
            panes: Vec::new(),
            active_pane: None,
            pane_source: IdSource::new(),
        };
        assert(w.ids() =~= Seq::<PaneId>::empty());
        w
    }

    pub fn id(&self) -> (id: WindowId)
        ensures
            id == self.spec_id(),
    {
        self.id
    }

    pub fn name(&self) -> (n: &str)
        ensures
            n@ == self.spec_name(),
    {
        self.name.as_str()
    }

    pub fn set_name(&mut self, name: String)
        ensures
            final(self).spec_name() == name@,
            final(self).spec_id() == old(self).spec_id(),
            final(self).spec_layout() == old(self).spec_layout(),
            final(self).pane_list() == old(self).pane_list(),
            final(self).spec_active() == old(self).spec_active(),
            final(self).next_pane_number() == old(self).next_pane_number(),
    {
        self.name = name;
    }

    pub fn layout(&self) -> (l: Option<&Layout>)
        ensures
            match l {
                Some(r) => self.spec_layout() == Some(*r),
                None => self.spec_layout() is None,
            },
    {
        match &self.layout {
            Some(l) => Some(l),
            None => None,
        }
    }

    pub fn active_pane(&self) -> (a: Option<PaneId>)
        ensures
            a == self.spec_active(),
    {
        self.active_pane
    }

    /// Index of the pane `id`, if there is one.
    fn index_of(&self, id: PaneId) -> (r: Option<usize>)
        ensures
            match r {
                Some(i) => i < self.ids().len() && self.ids()[i as int] == id,
                None => !self.ids().contains(id),
            },
    {
        let mut i: usize = 0;
        while i < self.panes.len()
            invariant
                i <= self.panes@.len(),
                self.ids().len() == self.panes@.len(),
                forall|j: int| 0 <= j < i ==> #[trigger] self.ids()[j] != id,
            decreases self.panes.len() - i,
        {
            if self.panes[i].id == id {
                return Some(i);
            }
            i = i + 1;
        }
        None
    }

    /// Create a new pane. In an empty window it becomes the whole layout and
    /// the active pane; otherwise it is split in, horizontally, next to the
    /// active pane, so no pane is ever dropped from the layout.
    pub fn create_pane(&mut self) -> (id: PaneId)
        requires
            old(self).wf(),
            old(self).next_pane_number() < u64::MAX,
        ensures
            final(self).wf(),
            id == PaneId(old(self).next_pane_number()),
            final(self).next_pane_number() == old(self).next_pane_number() + 1,
            final(self).ids() == old(self).ids().push(id),
            final(self).pane_list().drop_last() == old(self).pane_list(),
            final(self).pane_list().last().spec_title() == Seq::<char>::empty(),
            final(self).pane_list().last().spec_terminal() is None,
            final(self).spec_layout() == match old(self).spec_layout() {
                None => Some(Layout::Single(id)),
                Some(l) => Some(split_layout(
                    l,
                    match old(self).spec_active() {
                        Some(a) => a,
                        None => id,
                    },
                    id,
                    SplitDirection::Horizontal,
                )),
            },
            final(self).spec_active() == match old(self).spec_active() {
                None => Some(id),
                Some(a) => Some(a),
            },
            final(self).spec_id() == old(self).spec_id(),
            final(self).spec_name() == old(self).spec_name(),
    {
        let ghost old_ids = self.ids();
        let id = PaneId(self.pane_source.fresh());
        let pane = Pane::new(id);
        self.panes.push(pane);
        proof {
            assert(self.ids() =~= old_ids.push(id));
            assert(!old_ids.contains(id)) by {
                if old_ids.contains(id) {
                    let j = choose|j: int| 0 <= j < old_ids.len() && old_ids[j] == id;
                    assert(old_ids[j].0 < old(self).next_pane_number());
                }
            }
            assert(self.pane_list().drop_last() =~= old(self).pane_list());
        }
        let layout = self.layout.take();
        match layout {
            None => {
                self.layout = Some(Layout::Single(id));
                proof {
                    assert(old_ids.len() == 0);
                    assert forall|x: PaneId| #[trigger] leaves(Layout::Single(id)).contains(x) <==> self.ids().contains(x) by {
                        lemma_last_contains(self.ids(), x);
                        assert(self.ids().drop_last() =~= old_ids);
                        lemma_last_contains(leaves(Layout::Single(id)), x);
                        assert(leaves(Layout::Single(id)).drop_last() =~= Seq::<PaneId>::empty());
                    }
                }
            },
            Some(l) => {
                let target = match self.active_pane {
                    Some(a) => a,
                    None => id,
                };
                proof {
                    lemma_split_keeps_panes(l, target, id, SplitDirection::Horizontal);
                    assert(leaves(l).contains(target));
                    assert(!leaves(l).contains(id));
                    assert forall|x: PaneId| #[trigger] leaves(split_layout(l, target, id, SplitDirection::Horizontal)).contains(x)
                        <==> self.ids().contains(x) by {
                        lemma_last_contains(self.ids(), x);
                        assert(self.ids().drop_last() =~= old_ids);
                    }
                }
                self.layout = Some(Layout::insert_split(l, target, id, SplitDirection::Horizontal));
            },
        }
        if self.active_pane.is_none() {
            self.active_pane = Some(id);
        }
        proof {
            let ids = self.ids();
            assert(ids.drop_last() =~= old_ids);
            assert forall|i: int, j: int| 0 <= i < j < ids.len() implies #[trigger] ids[i] != #[trigger] ids[j] by {
                if j == ids.len() - 1 {
                    assert(ids[i] == old_ids[i]);
                    assert(old_ids[i].0 < old(self).next_pane_number());
                } else {
                    assert(ids[i] == old_ids[i] && ids[j] == old_ids[j]);
                }
            }
            assert forall|i: int| 0 <= i < ids.len() implies (#[trigger] ids[i]).0 < self.next_pane_number() by {
                if i < ids.len() - 1 {
                    assert(ids[i] == old_ids[i]);
                }
            }
            if let Some(a) = self.active_pane {
                lemma_last_contains(ids, a);
            }
        }
        id
    }

    /// Split the pane `pane_id` in `direction`, returning the new pane, or
    /// `None` when there is no such pane.
    pub fn split_pane(&mut self, pane_id: PaneId, direction: SplitDirection) -> (r: Option<PaneId>)
        requires
            old(self).wf(),
            old(self).next_pane_number() < u64::MAX,
        ensures
            final(self).wf(),
            !old(self).ids().contains(pane_id) ==> r is None && *final(self) == *old(self),
            old(self).ids().contains(pane_id) ==> {
                &&& r == Some(PaneId(old(self).next_pane_number()))
                &&& final(self).next_pane_number() == old(self).next_pane_number() + 1
                &&& final(self).ids() == old(self).ids().push(r->0)
                &&& final(self).pane_list().drop_last() == old(self).pane_list()
                &&& final(self).pane_list().last().spec_title() == Seq::<char>::empty()
                &&& final(self).pane_list().last().spec_terminal() is None
                &&& final(self).spec_layout() == Some(split_layout(
                    old(self).spec_layout()->0,
                    pane_id,
                    r->0,
                    direction,
                ))
                &&& final(self).spec_active() == old(self).spec_active()
                &&& final(self).spec_id() == old(self).spec_id()
                &&& final(self).spec_name() == old(self).spec_name()
            },
    {
        match self.index_of(pane_id) {
            None => {
                return None;
            },
            Some(_) => {},
        }
        let ghost old_ids = self.ids();
        let new_id = PaneId(self.pane_source.fresh());
        self.panes.push(Pane::new(new_id));
        proof {
            assert(self.ids() =~= old_ids.push(new_id));
            assert(!old_ids.contains(new_id)) by {
                if old_ids.contains(new_id) {
                    let j = choose|j: int| 0 <= j < old_ids.len() && old_ids[j] == new_id;
                    assert(old_ids[j].0 < old(self).next_pane_number());
                }
            }
            assert(self.pane_list().drop_last() =~= old(self).pane_list());
        }
        let layout = self.layout.take();
        match layout {
            Some(l) => {
                proof {
                    lemma_split_keeps_panes(l, pane_id, new_id, direction);
                    assert forall|x: PaneId| #[trigger] leaves(split_layout(l, pane_id, new_id, direction)).contains(x)
                        <==> self.ids().contains(x) by {
                        lemma_last_contains(self.ids(), x);
                        assert(self.ids().drop_last() =~= old_ids);
                    }
                }
                self.layout = Some(Layout::insert_split(l, pane_id, new_id, direction));
            },
            None => {},
        }
        proof {
            let ids = self.ids();
            assert(ids.drop_last() =~= old_ids);
            assert forall|i: int, j: int| 0 <= i < j < ids.len() implies #[trigger] ids[i] != #[trigger] ids[j] by {
                if j == ids.len() - 1 {
                    assert(ids[i] == old_ids[i]);
                    assert(old_ids[i].0 < old(self).next_pane_number());
                } else {
                    assert(ids[i] == old_ids[i] && ids[j] == old_ids[j]);
                }
            }
            assert forall|i: int| 0 <= i < ids.len() implies (#[trigger] ids[i]).0 < self.next_pane_number() by {
                if i < ids.len() - 1 {
                    assert(ids[i] == old_ids[i]);
                }
            }
            if let Some(a) = self.active_pane {
                lemma_last_contains(ids, a);
            }
        }
        Some(new_id)
    }

    /// The pane `id`, if there is one.
    pub fn get_pane(&self, id: PaneId) -> (p: Option<&Pane>)
        ensures
            match p {
                Some(r) => exists|i: int|
                    0 <= i < self.ids().len() && self.ids()[i] == id && #[trigger] self.pane_list()[i] == *r,
                None => !self.ids().contains(id),
            },
    {
        match self.index_of(id) {
            Some(i) => Some(&self.panes[i]),
            None => None,
        }
    }

    /// The pane `id`, mutably, if there is one.
    pub fn get_pane_mut(&mut self, id: PaneId) -> (p: Option<&mut Pane>)
        requires
            old(self).wf(),
        ensures
            match p {
                Some(r) => exists|i: int|
                    0 <= i < old(self).ids().len() && old(self).ids()[i] == id && #[trigger] old(self).pane_list()[i]
                        == *r && final(self).pane_list() == old(self).pane_list().update(i, *final(r))
                        && final(self).spec_layout() == old(self).spec_layout() && final(self).spec_active()
                        == old(self).spec_active() && final(self).next_pane_number() == old(self).next_pane_number()
                        && final(self).spec_id() == old(self).spec_id() && final(self).spec_name() == old(self).spec_name(),
                None => !old(self).ids().contains(id) && *final(self) == *old(self),
            },
    {
        match self.index_of(id) {
            Some(i) => Some(&mut self.panes[i]),
            None => None,
        }
    }

    /// Make `id` the active pane, if there is such a pane.
    pub fn set_active_pane(&mut self, id: PaneId)
        requires
            old(self).wf(),
        ensures
            final(self).wf(),
            final(self).spec_active() == if old(self).ids().contains(id) {
                Some(id)
            } else {
                old(self).spec_active()
            },
            final(self).pane_list() == old(self).pane_list(),
            final(self).spec_layout() == old(self).spec_layout(),
            final(self).next_pane_number() == old(self).next_pane_number(),
            final(self).spec_id() == old(self).spec_id(),
            final(self).spec_name() == old(self).spec_name(),
    {
        match self.index_of(id) {
            Some(i) => {
                self.active_pane = Some(id);
                proof {
                    assert(self.ids()[i as int] == id);
                }
            },
            None => {},
        }
    }

    /// All pane identifiers, in the order the panes were created.
    pub fn pane_ids(&self) -> (ids: Vec<PaneId>)
        ensures
            ids@ == self.ids(),
    {
        let mut out: Vec<PaneId> = Vec::new();
        let mut i: usize = 0;
        while i < self.panes.len()
            invariant
                i <= self.panes@.len(),
                self.ids().len() == self.panes@.len(),
                out@ == self.ids().take(i as int),
            decreases self.panes.len() - i,
        {
            out.push(self.panes[i].id);
            proof {
                assert(self.ids().take(i + 1) =~= self.ids().take(i as int).push(self.ids()[i as int]));
            }
            i = i + 1;
        }
        assert(self.ids().take(self.ids().len() as int) =~= self.ids());
        out
    }

    /// Number of panes currently in this window.
    pub fn pane_count(&self) -> (n: usize)
        ensures
            n == self.ids().len(),
    {
        self.panes.len()
    }

    /// Remove a pane, collapsing the layout tree around it. If it was the
    /// active pane, the first remaining pane (if any) becomes active.
    pub fn remove_pane(&mut self, id: PaneId)
        requires
            old(self).wf(),
        ensures
            final(self).wf(),
            final(self).ids() == remove_id(old(self).ids(), id),
            final(self).spec_layout() == match old(self).spec_layout() {
                None => None,
                Some(l) => layout_without(l, id),
            },
            final(self).spec_active() == if old(self).spec_active() == Some(id) {
                if final(self).ids().len() > 0 {
                    Some(final(self).ids()[0])
                } else {
                    None
                }
            } else {
                old(self).spec_active()
            },
            forall|q: Pane| #[trigger] final(self).pane_list().contains(q) ==> old(self).pane_list().contains(q),
            final(self).next_pane_number() == old(self).next_pane_number(),
            final(self).spec_id() == old(self).spec_id(),
            final(self).spec_name() == old(self).spec_name(),
    {
        let ghost old_ids = self.ids();
        let ghost old_list = self.pane_list();
        match self.index_of(id) {
            Some(i) => {
                self.panes.remove(i);
                proof {
                    assert(self.pane_list() =~= old_list.remove(i as int));
                    assert(self.ids() =~= old_ids.remove(i as int));
                    lemma_remove_unique_index(old_ids, i as int);
                    assert forall|q: Pane| #[trigger] self.pane_list().contains(q) implies old_list.contains(q) by {
                        let k = choose|k: int| 0 <= k < self.pane_list().len() && self.pane_list()[k] == q;
                        if k < i {
                            assert(old_list[k] == q);
                        } else {
                            assert(old_list[k + 1] == q);
                        }
                    }
                }
            },
            None => {
                proof {
                    lemma_remove_absent(old_ids, id);
                }
            },
        }
        proof {
            lemma_remove_id_no_dup(old_ids, id);
            assert forall|x: PaneId| #[trigger] self.ids().contains(x) <==> (old_ids.contains(x) && x != id) by {
                lemma_remove_id_contains(old_ids, id, x);
            }
            assert forall|i: int| 0 <= i < self.ids().len() implies (#[trigger] self.ids()[i]).0 < self.next_pane_number() by {
                assert(self.ids().contains(self.ids()[i]));
                let j = choose|j: int| 0 <= j < old_ids.len() && old_ids[j] == self.ids()[i];
            }
        }
        let layout = self.layout.take();
        match layout {
            Some(l) => {
                proof {
                    lemma_remove_keeps_other_panes(l, id);
                    if layout_without(l, id) is None {
                        if self.ids().len() > 0 {
                            let x = self.ids()[0];
                            assert(self.ids().contains(x));
                            assert(old_ids.contains(x));
                            assert(leaves(l).contains(x));
                        }
                    } else {
                        let r = layout_without(l, id)->0;
                        lemma_layout_without_leaves(l, id);
                        let x = leaves(r)[0];
                        assert(leaves(r).contains(x));
                        assert(leaves(l).contains(x));
                        assert(old_ids.contains(x));
                        assert(self.ids().contains(x));
                    }
                }
                self.layout = Layout::remove_leaf(l, id);
            },
            None => {},
        }
        if self.active_pane == Some(id) {
            self.active_pane = if self.panes.len() > 0 {
                Some(self.panes[0].id)
            } else {
                None
            };
            proof {
                if self.panes@.len() > 0 {
                    assert(self.ids()[0] == self.panes@[0].spec_id());
                    assert(self.ids().contains(self.ids()[0]));
                }
            }
        }
    }
}

/// Removing the entry at an index of a list without duplicates removes
/// exactly that value.
proof fn lemma_remove_unique_index(s: Seq<PaneId>, i: int)
    requires
        no_dup(s),
        0 <= i < s.len(),
    ensures
        s.remove(i) == remove_id(s, s[i]),
    decreases s.len(),
{
    let t = s[i];
    if i == s.len() - 1 {
        assert(s.remove(i) =~= s.drop_last());
        lemma_remove_absent(s.drop_last(), t);
        assert(!s.drop_last().contains(t)) by {
            if s.drop_last().contains(t) {
                let j = choose|j: int| 0 <= j < s.drop_last().len() && s.drop_last()[j] == t;
                assert(s[j] == s[i]);
            }
        }
        assert(remove_id(s.drop_last(), t) + Seq::<PaneId>::empty() =~= s.drop_last());
    } else {
        assert(no_dup(s.drop_last()));
        lemma_remove_unique_index(s.drop_last(), i);
        assert(s.drop_last()[i] == t);
        assert(s.last() != t) by {
            assert(s[s.len() - 1] != s[i]);
        }
        assert(s.remove(i) =~= s.drop_last().remove(i).push(s.last()));
    }
}

/// Removing a value a list does not hold leaves the list as it is.
proof fn lemma_remove_absent(s: Seq<PaneId>, t: PaneId)
    requires
        !s.contains(t),
    ensures
        remove_id(s, t) == s,
    decreases s.len(),
{
    if s.len() > 0 {
        assert(!s.drop_last().contains(t)) by {
            if s.drop_last().contains(t) {
                let j = choose|j: int| 0 <= j < s.drop_last().len() && s.drop_last()[j] == t;
                assert(s[j] == t);
            }
        }
        lemma_remove_absent(s.drop_last(), t);
        assert(s.last() != t) by {
            assert(s[s.len() - 1] == s.last());
        }
        assert(s.drop_last() + seq![s.last()] =~= s);
    }
}

} // verus!
