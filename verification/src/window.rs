//! Windows: a tree of panes over an area of the terminal, one of them active.
use vstd::prelude::*;

use crate::entity::AnyWindowHandle;
use crate::pane::{first_with_id, Pane, PaneId, PaneNode};

verus! {

/// An area of the terminal, in cells.
#[derive(Debug, Clone, Copy, PartialEq, Eq, Structural)]
pub struct Rect {
    pub x: u16,
    pub y: u16,
    pub width: u16,
    pub height: u16,
}

/// The column or row just past a span that starts at `start` and is `len` long,
/// saturated at `u16::MAX`.
pub open spec fn span_end(start: u16, len: u16) -> int {
    if start + len > u16::MAX {
        u16::MAX as int
    } else {
        start + len
    }
}

pub open spec fn max_int(a: int, b: int) -> int {
    if a >= b {
        a
    } else {
        b
    }
}

pub open spec fn min_int(a: int, b: int) -> int {
    if a <= b {
        a
    } else {
        b
    }
}

/// The part of `area` that lies within `bound`: the intersection of the two, with
/// no width or height where they do not meet.
pub open spec fn clamped_area(area: Rect, bound: Rect) -> Rect {
    let x = max_int(area.x as int, bound.x as int);
    let y = max_int(area.y as int, bound.y as int);
    let right = min_int(span_end(area.x, area.width), span_end(bound.x, bound.width));
    let bottom = min_int(span_end(area.y, area.height), span_end(bound.y, bound.height));
    Rect {
        x: x as u16,
        y: y as u16,
        width: if right > x {
            (right - x) as u16
        } else {
            0
        },
        height: if bottom > y {
            (bottom - y) as u16
        } else {
            0
        },
    }
}

fn span_end_exec(start: u16, len: u16) -> (r: u16)
    ensures
        r == span_end(start, len),
{
    let e: u32 = start as u32 + len as u32;
    if e > 0xFFFF {
        0xFFFF
    } else {
        e as u16
    }
}

/// The part of `area` that lies within `bound`.
pub fn clamp_area(area: Rect, bound: Rect) -> (r: Rect)
    ensures
        r == clamped_area(area, bound),
{
    let x = if area.x >= bound.x {
        area.x
    } else {
        bound.x
    };
    let y = if area.y >= bound.y {
        area.y
    } else {
        bound.y
    };
    let ar = span_end_exec(area.x, area.width);
    let br = span_end_exec(bound.x, bound.width);
    let right = if ar <= br {
        ar
    } else {
        br
    };
    let ab = span_end_exec(area.y, area.height);
    let bb = span_end_exec(bound.y, bound.height);
    let bottom = if ab <= bb {
        ab
    } else {
        bb
    };
    let width = if right > x {
        right - x
    } else {
        0
    };
    let height = if bottom > y {
        bottom - y
    } else {
        0
    };
    Rect { x, y, width, height }
}

/// Where a pane laid out at `area` is drawn in a window covering `bound`: its area
/// clamped to the window's, or `None` where that has no width or no height (the
/// pane is then not drawn).
pub fn drawn_area(area: Rect, bound: Rect) -> (r: Option<Rect>)
    ensures
        ({
            let c = clamped_area(area, bound);
            if c.width == 0 || c.height == 0 {
                r is None
            } else {
                r == Some(c)
            }
        }),
{
    let c = clamp_area(area, bound);
    if c.width == 0 || c.height == 0 {
        None
    } else {
        Some(c)
    }
}

/// How a window is opened: the area it covers.
#[derive(Debug, Clone, Copy)]
pub struct WindowConfig {
    pub area: Rect,
}

/// A window: its handle, its tree of panes (with views `V` and split weights `W`),
/// the active pane, the id the next pane gets, and its area.
#[derive(Debug)]
pub struct Window<V, W> {
    pub handle: AnyWindowHandle,
    pub root: Option<PaneNode<V, W>>,
    pub active_pane: Option<PaneId>,
    pub next_pane_id: u32,
    pub area: Rect,
}

impl<V, W> Window<V, W> {
    /// A window without panes, pane 0 active, the next pane getting id 1.
    pub fn new(handle: AnyWindowHandle, config: WindowConfig) -> (r: Self)
        ensures
            r.handle == handle,
            r.root is None,
            r.active_pane == Some(PaneId(0)),
            r.next_pane_id == 1,
            r.area == config.area,
    {
        Window { handle, root: None, active_pane: Some(PaneId(0)), next_pane_id: 1, area: config.area }
    }

    pub fn handle(&self) -> (r: AnyWindowHandle)
        ensures
            r == self.handle,
    {
        self.handle
    }

    /// Hands out a fresh pane id; ids are handed out in increasing order.
    pub fn next_pane_id(&mut self) -> (r: PaneId)
        requires
            old(self).next_pane_id < u32::MAX,
        ensures
            r == PaneId(old(self).next_pane_id),
            final(self).next_pane_id == old(self).next_pane_id + 1,
            final(self).root == old(self).root,
            final(self).active_pane == old(self).active_pane,
            final(self).area == old(self).area,
            final(self).handle == old(self).handle,
    {
        let id = PaneId(self.next_pane_id);
        self.next_pane_id = self.next_pane_id + 1;
        id
    }

    /// A window opened without panes gets one pane, with a fresh id, showing its root
    /// view, and that pane becomes active; a window with panes is left as it is.
    pub fn ensure_root(&mut self, view: V)
        requires
            old(self).root is None ==> old(self).next_pane_id < u32::MAX,
        ensures
            old(self).root is Some ==> *final(self) == *old(self),
            old(self).root is None ==> {
                &&& final(self).root == Some(PaneNode::<V, W>::Leaf(Pane { id: PaneId(old(self).next_pane_id), view }))
                &&& final(self).active_pane == Some(PaneId(old(self).next_pane_id))
                &&& final(self).next_pane_id == old(self).next_pane_id + 1
                &&& final(self).area == old(self).area
                &&& final(self).handle == old(self).handle
            },
    {
        if self.root.is_none() {
            let id = self.next_pane_id();
            self.root = Some(PaneNode::Leaf(Pane { id, view }));
            self.active_pane = Some(id);
        }
    }

    /// The view of the active pane, which keystrokes go to: the first pane, left to
    /// right, with the active id.
    pub fn active_view(&self) -> (r: Option<&V>)
        ensures
            match (self.root, self.active_pane) {
                (Some(root), Some(id)) => match first_with_id(root.leaves(), id) {
                    Some(p) => r == Some(&p.view),
                    None => r is None,
                },
                _ => r is None,
            },
    {
        match (&self.root, self.active_pane) {
            (Some(root), Some(id)) => match root.find(id) {
                Some(p) => Some(&p.view),
                None => None,
            },
            _ => None,
        }
    }
}

} // verus!
