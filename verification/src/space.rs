//! The window of the map that is on screen, and the grid of cells that are
//! currently in sight.

use vstd::prelude::*;
use crate::geometry::{fits, Cell, Rect, RectIter, Shape};

verus! {

/// Number of columns of a level.
pub const MAP_WIDTH: i32 = 80;

/// Number of rows of a level.
pub const MAP_HEIGHT: i32 = 43;

/// Number of rows of the screen; the map fills the rows below the panel.
pub const SCREEN_HEIGHT: i32 = 50;

/// First screen row of the map.
pub const MAP_Y: i32 = 7;

/// Whether a cell lies on the map.
pub open spec fn on_map(p: Cell) -> bool {
    0 <= p.0 < MAP_WIDTH && 0 <= p.1 < MAP_HEIGHT
}

/// Place of a cell of the map in a column-by-column table.
pub open spec fn cell_index(p: Cell) -> int {
    p.0 * MAP_HEIGHT + p.1
}

/// Tests whether a cell lies on the map.
pub fn is_on_map(p: Cell) -> (b: bool)
    ensures
        b == on_map(p),
{
    p.0 >= 0 && p.0 < MAP_WIDTH && p.1 >= 0 && p.1 < MAP_HEIGHT
}

/// Place of a cell of the map in a column-by-column table.
pub fn index_of(p: Cell) -> (i: usize)
    requires
        on_map(p),
    ensures
        i == cell_index(p),
        i < MAP_WIDTH * MAP_HEIGHT,
{
    let x = p.0 as usize;
    let y = p.1 as usize;
    assert(x * 43 <= 79 * 43) by (nonlinear_arith)
        requires
            x <= 79,
    ;
    x * 43 + y
}

/// The part of the map that is shown on screen.
#[derive(Copy, Clone, Debug, PartialEq, Eq, Structural)]
pub struct Viewport {
    pub r: Rect,
}

impl Viewport {
    /// The viewport of width `w` and height `h` whose first cell is `(x, y)`.
    pub fn new(x: i32, y: i32, w: i32, h: i32) -> (v: Viewport)
        requires
            fits(x + w),
            fits(y + h),
        ensures
            v.r == (Rect { x1: x, y1: y, x2: (x + w) as i32, y2: (y + h) as i32 }),
    {
        Viewport { r: Rect::new(x, y, w, h) }
    }

    /// Moves the viewport so that the cell `p` is its centre.
    pub fn center_at(&mut self, p: Cell)
        requires
            old(self).r.can_center_at(p.0 as int, p.1 as int),
        ensures
            final(self).r.x1 == old(self).r.centered(p.0 as int, p.1 as int).0,
            final(self).r.y1 == old(self).r.centered(p.0 as int, p.1 as int).1,
            final(self).r.x2 == old(self).r.centered(p.0 as int, p.1 as int).2,
            final(self).r.y2 == old(self).r.centered(p.0 as int, p.1 as int).3,
    {
        self.r.center_at(p.0, p.1);
    }

    /// The screen position of a map cell.
    pub fn transform(&self, p: Cell) -> (q: Cell)
        requires
            fits(p.0 - self.r.x1),
            fits(p.1 - self.r.y1),
        ensures
            q.0 == p.0 - self.r.x1,
            q.1 == p.1 - self.r.y1,
    {
        (p.0 - self.r.left(), p.1 - self.r.top())
    }

    /// The map cell at a screen position.
    pub fn inv_transform(&self, p: Cell) -> (q: Cell)
        requires
            fits(p.0 + self.r.x1),
            fits(p.1 + self.r.y1),
        ensures
            q.0 == p.0 + self.r.x1,
            q.1 == p.1 + self.r.y1,
    {
        (p.0 + self.r.left(), p.1 + self.r.top())
    }

    /// An iterator over the map cells in the viewport, row by row.
    pub fn into_iter(&self) -> (it: RectIter)
        ensures
            it.wf(),
            it.rect == self.r,
            it.remaining() == self.r.cell_seq(),
    {
        self.r.into_iter()
    }

    /// Whether a map cell is in the viewport.
    pub fn visible(&self, p: Cell) -> (b: bool)
        ensures
            b == self.r.holds(p),
    {
        self.r.is_enclosed(p)
    }
}

/// Which cells of the map are in sight, as the field-of-view computation
/// reports them for one tick.
pub struct Visibility {
    pub lit: Vec<bool>,
}

impl Visibility {
    pub open spec fn wf(&self) -> bool {
        self.lit@.len() == MAP_WIDTH * MAP_HEIGHT
    }

    /// Whether a cell is in sight; no cell off the map is.
    pub open spec fn sees(&self, p: Cell) -> bool {
        on_map(p) && self.lit@[cell_index(p)]
    }

    /// A grid with no cell in sight.
    pub fn new() -> (v: Visibility)
        ensures
            v.wf(),
            forall|p: Cell| !v.sees(p),
    {
        let mut lit: Vec<bool> = Vec::new();
        let n: usize = (MAP_WIDTH as usize) * (MAP_HEIGHT as usize);
        while lit.len() < n
            invariant
                n == MAP_WIDTH * MAP_HEIGHT,
                lit@.len() <= n,
                forall|i: int| 0 <= i < lit@.len() ==> !lit@[i],
            decreases n - lit@.len(),
        {
            lit.push(false);
        }
        Visibility { lit }
    }

    /// Records whether a cell of the map is in sight.
    pub fn set(&mut self, p: Cell, visible: bool)
        requires
            old(self).wf(),
            on_map(p),
        ensures
            final(self).wf(),
            final(self).sees(p) == visible,
            forall|q: Cell| q != p ==> final(self).sees(q) == old(self).sees(q),
    {
        let i = index_of(p);
        self.lit[i] = visible;
        assert forall|q: Cell| q != p implies final(self).sees(q) == old(self).sees(q) by {
            if on_map(q) {
                assert(cell_index(q) != cell_index(p));
            }
        }
    }

    /// Tests whether a cell is in sight.
    pub fn is_in_fov(&self, p: Cell) -> (b: bool)
        requires
            self.wf(),
        ensures
            b == self.sees(p),
    {
        if is_on_map(p) {
            self.lit[index_of(p)]
        } else {
            false
        }
    }
}

} // verus!
