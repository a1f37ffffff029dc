//! Screen geometry: the rectangles a window's layout gives its panes.
use vstd::prelude::*;

use crate::config::StatusBarPosition;
use crate::multiplexer::{leaves, Layout, PaneId, SplitDirection};
use crate::terminal::TerminalSize;

verus! {

/// A rectangle of character cells on screen.
#[derive(Debug, Clone, Copy, PartialEq, Eq, Structural)]
pub struct Rect {
    pub x: u16,
    pub y: u16,
    pub width: u16,
    pub height: u16,
}

impl Rect {
    /// The rectangle lies on a `u16` screen: its right and bottom edges do
    /// not overflow.
    pub open spec fn fits(self) -> bool {
        self.x + self.width <= u16::MAX && self.y + self.height <= u16::MAX
    }

    /// Whether `self` lies within `outer`.
    pub open spec fn within(self, outer: Rect) -> bool {
        outer.x <= self.x && self.x + self.width <= outer.x + outer.width && outer.y <= self.y && self.y
            + self.height <= outer.y + outer.height
    }
}

/// `len` scaled by `percent`%, rounded to the nearest cell (halves up).
pub open spec fn scaled(len: u16, percent: u8) -> u16 {
    ((len as int * percent as int * 2 + 100) / 200) as u16
}

/// Every split of `l` gives its first part at most the whole.
pub open spec fn ratios_ok(l: Layout) -> bool
    decreases l,
{
    match l {
        Layout::Single(_) => true,
        Layout::Split { ratio_percent, first, second, .. } => ratio_percent <= 100 && ratios_ok(*first)
            && ratios_ok(*second),
    }
}

/// `area` split in `direction`: side by side (splitting the width) for
/// `Horizontal`, stacked (splitting the height) for `Vertical`, the first
/// part taking `percent`% of it.
pub open spec fn split_area(area: Rect, direction: SplitDirection, percent: u8) -> (Rect, Rect) {
    match direction {
        SplitDirection::Horizontal => {
            let w = scaled(area.width, percent);
            (
                Rect { width: w, ..area },
                Rect { x: (area.x + w) as u16, width: (area.width - w) as u16, ..area },
            )
        },
        SplitDirection::Vertical => {
            let h = scaled(area.height, percent);
            (
                Rect { height: h, ..area },
                Rect { y: (area.y + h) as u16, height: (area.height - h) as u16, ..area },
            )
        },
    }
}

/// The pane at each leaf of `l` with the rectangle it gets in `area`, left
/// to right.
pub open spec fn pane_rects(l: Layout, area: Rect) -> Seq<(PaneId, Rect)>
    decreases l,
{
    match l {
        Layout::Single(id) => seq![(id, area)],
        Layout::Split { direction, ratio_percent, first, second } => {
            let (a, b) = split_area(area, direction, ratio_percent);
            pane_rects(*first, a) + pane_rects(*second, b)
        },
    }
}

proof fn lemma_scaled_le(len: u16, percent: u8)
    requires
        percent <= 100,
    ensures
        scaled(len, percent) <= len,
{
    assert(len as int * percent as int * 2 + 100 <= len as int * 200 + 100) by (nonlinear_arith)
        requires
            percent <= 100,
    ;
    assert((len as int * 200 + 100) / 200 == len as int);
}

/// Split `area` in `direction`, the first part taking `percent`% of it.
pub fn split_rect(area: Rect, direction: SplitDirection, percent: u8) -> (r: (Rect, Rect))
    requires
        percent <= 100,
        area.fits(),
    ensures
        r == split_area(area, direction, percent),
        r.0.within(area),
        r.1.within(area),
        r.0.fits(),
        r.1.fits(),
{
    match direction {
        SplitDirection::Horizontal => {
            proof {
                lemma_scaled_le(area.width, percent);
            }
            assert(area.width as int * percent as int <= 6553500) by (nonlinear_arith)
                requires
                    area.width <= 65535,
                    percent <= 100,
            ;
            let prod: u32 = area.width as u32 * percent as u32;
            let w = ((prod * 2 + 100) / 200) as u16;
            (
                Rect { x: area.x, y: area.y, width: w, height: area.height },
                Rect { x: area.x + w, y: area.y, width: area.width - w, height: area.height },
            )
        },
        SplitDirection::Vertical => {
            proof {
                lemma_scaled_le(area.height, percent);
            }
            assert(area.height as int * percent as int <= 6553500) by (nonlinear_arith)
                requires
                    area.height <= 65535,
                    percent <= 100,
            ;
            let prod: u32 = area.height as u32 * percent as u32;
            let h = ((prod * 2 + 100) / 200) as u16;
            (
                Rect { x: area.x, y: area.y, width: area.width, height: h },
                Rect { x: area.x, y: area.y + h, width: area.width, height: area.height - h },
            )
        },
    }
}

fn collect_rects(layout: &Layout, area: Rect, out: &mut Vec<(PaneId, Rect)>)
    requires
        ratios_ok(*layout),
        area.fits(),
    ensures
        final(out)@ == old(out)@ + pane_rects(*layout, area),
    decreases layout,
{
    match layout {
        Layout::Single(id) => {
            out.push((*id, area));
        },
        Layout::Split { direction, ratio_percent, first, second } => {
            let (a, b) = split_rect(area, *direction, *ratio_percent);
            let ghost mid = out@;
            collect_rects(first, a, out);
            collect_rects(second, b, out);
            proof {
                assert(out@ =~= old(out)@ + (pane_rects(**first, a) + pane_rects(**second, b)));
            }
        },
    }
}

/// The rectangle each pane of `layout` gets in `area`, in leaf order.
pub fn layout_rects(layout: Option<&Layout>, area: Rect) -> (v: Vec<(PaneId, Rect)>)
    requires
        layout matches Some(l) ==> ratios_ok(*l),
        area.fits(),
    ensures
        v@ == match layout {
            Some(l) => pane_rects(*l, area),
            None => Seq::empty(),
        },
{
    let mut out: Vec<(PaneId, Rect)> = Vec::new();
    match layout {
        Some(l) => {
            collect_rects(l, area, &mut out);
            assert(out@ =~= pane_rects(*l, area));
        },
        None => {},
    }
    out
}

/// Every pane of a layout gets one rectangle, in leaf order, and each lies
/// within the area.
pub proof fn lemma_pane_rects(l: Layout, area: Rect)
    requires
        ratios_ok(l),
        area.fits(),
    ensures
        pane_rects(l, area).map_values(|p: (PaneId, Rect)| p.0) == leaves(l),
        forall|i: int| 0 <= i < pane_rects(l, area).len() ==> (#[trigger] pane_rects(l, area)[i]).1.within(area)
            && pane_rects(l, area)[i].1.fits(),
    decreases l,
{
    match l {
        Layout::Single(id) => {
            assert(pane_rects(l, area).map_values(|p: (PaneId, Rect)| p.0) =~= seq![id]);
        },
        Layout::Split { direction, ratio_percent, first, second } => {
            let (a, b) = split_area(area, direction, ratio_percent);
            match direction {
                SplitDirection::Horizontal => lemma_scaled_le(area.width, ratio_percent),
                SplitDirection::Vertical => lemma_scaled_le(area.height, ratio_percent),
            }
            lemma_pane_rects(*first, a);
            lemma_pane_rects(*second, b);
            let pa = pane_rects(*first, a);
            let pb = pane_rects(*second, b);
            assert((pa + pb).map_values(|p: (PaneId, Rect)| p.0) =~= pa.map_values(|p: (PaneId, Rect)| p.0)
                + pb.map_values(|p: (PaneId, Rect)| p.0));
            assert forall|i: int| 0 <= i < (pa + pb).len() implies (#[trigger] (pa + pb)[i]).1.within(area)
                && (pa + pb)[i].1.fits() by {
                if i < pa.len() {
                    assert((pa + pb)[i] == pa[i]);
                } else {
                    assert((pa + pb)[i] == pb[i - pa.len()]);
                }
            }
        },
    }
}

/// The terminal size a pane renders at in `rect`: with more than one pane
/// each has a one-cell border, so two cells less each way.
pub fn pane_inner_size(rect: Rect, pane_count: usize) -> (s: TerminalSize)
    ensures
        pane_count > 1 ==> s.cols == (if rect.width >= 2 { rect.width - 2 } else { 0 }) && s.rows == (
        if rect.height >= 2 {
            rect.height - 2
        } else {
            0
        }),
        pane_count <= 1 ==> s.cols == rect.width && s.rows == rect.height,
{
    if pane_count > 1 {
        TerminalSize { cols: rect.width.saturating_sub(2), rows: rect.height.saturating_sub(2) }
    } else {
        TerminalSize { cols: rect.width, rows: rect.height }
    }
}


/// The side of the terminal area a panel takes.
#[derive(Debug, Clone, Copy, PartialEq, Eq, Structural)]
pub enum PanelSide {
    Left,
    Right,
}

/// How a frame is divided: the terminal panes' area, the status bar's row
/// and the side panel, when shown.
#[derive(Debug, Clone, Copy, PartialEq, Eq, Structural)]
pub struct FrameAreas {
    pub terminal: Rect,
    pub status: Option<Rect>,
    pub panel: Option<Rect>,
}

/// `a - b`, or zero.
pub open spec fn sat_sub(a: u16, b: u16) -> u16 {
    if a >= b {
        (a - b) as u16
    } else {
        0
    }
}

/// The terminal area and status bar row of `full`: the bar takes one row
/// at the top or the bottom.
pub open spec fn status_split(full: Rect, status: Option<StatusBarPosition>) -> (Rect, Option<Rect>) {
    match status {
        None => (full, None),
        Some(StatusBarPosition::Bottom) => {
            let t = Rect { height: sat_sub(full.height, 1), ..full };
            (t, Some(Rect { x: full.x, y: (full.y + t.height) as u16, width: full.width, height: 1 }))
        },
        Some(StatusBarPosition::Top) => (
            Rect { x: full.x, y: (full.y + 1) as u16, width: full.width, height: sat_sub(full.height, 1) },
            Some(Rect { x: full.x, y: full.y, width: full.width, height: 1 }),
        ),
    }
}

/// The frame's areas: the status bar first, then a side panel of the asked
/// width (leaving the terminal at least one column) cut from the left or
/// right of what remains.
pub open spec fn frame_areas_of(full: Rect, status: Option<StatusBarPosition>, panel: Option<(u16, PanelSide)>) -> FrameAreas {
    let (t, s) = status_split(full, status);
    match panel {
        None => FrameAreas { terminal: t, status: s, panel: None },
        Some((want, side)) => {
            let w = if want <= sat_sub(t.width, 1) {
                want
            } else {
                sat_sub(t.width, 1)
            };
            if w == 0 {
                FrameAreas { terminal: t, status: s, panel: None }
            } else {
                match side {
                    PanelSide::Left => FrameAreas {
                        terminal: Rect { x: (t.x + w) as u16, width: (t.width - w) as u16, ..t },
                        status: s,
                        panel: Some(Rect { width: w, ..t }),
                    },
                    PanelSide::Right => FrameAreas {
                        terminal: Rect { width: (t.width - w) as u16, ..t },
                        status: s,
                        panel: Some(Rect { x: (t.x + t.width - w) as u16, width: w, ..t }),
                    },
                }
            }
        },
    }
}

/// Divide the frame `full` into the terminal area, the status bar row and
/// the side panel.
pub fn frame_areas(full: Rect, status: Option<StatusBarPosition>, panel: Option<(u16, PanelSide)>) -> (a: FrameAreas)
    requires
        full.fits(),
        status == Some(StatusBarPosition::Top) ==> full.y < u16::MAX,
    ensures
        a == frame_areas_of(full, status, panel),
{
    let shorter: u16 = if full.height >= 1 {
        full.height - 1
    } else {
        0
    };
    let (t, s) = match status {
        None => (full, None),
        Some(StatusBarPosition::Bottom) => {
            let t = Rect { height: shorter, ..full };
            (t, Some(Rect { x: full.x, y: full.y + t.height, width: full.width, height: 1 }))
        },
        Some(StatusBarPosition::Top) => (
            Rect { x: full.x, y: full.y + 1, width: full.width, height: shorter },
            Some(Rect { x: full.x, y: full.y, width: full.width, height: 1 }),
        ),
    };
    match panel {
        None => FrameAreas { terminal: t, status: s, panel: None },
        Some((want, side)) => {
            let room: u16 = if t.width >= 1 {
                t.width - 1
            } else {
                0
            };
            let w = if want <= room {
                want
            } else {
                room
            };
            if w == 0 {
                FrameAreas { terminal: t, status: s, panel: None }
            } else {
                match side {
                    PanelSide::Left => FrameAreas {
                        terminal: Rect { x: t.x + w, width: t.width - w, ..t },
                        status: s,
                        panel: Some(Rect { width: w, ..t }),
                    },
                    PanelSide::Right => FrameAreas {
                        terminal: Rect { width: t.width - w, ..t },
                        status: s,
                        panel: Some(Rect { x: t.x + t.width - w, width: w, ..t }),
                    },
                }
            }
        },
    }
}

} // verus!
