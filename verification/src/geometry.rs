//! Shapes on the integer grid and the cells they cover.
//!
//! Every shape has a finite, ordered sequence of cells, given by a spec
//! function, and an iterator whose remaining output is a suffix of that
//! sequence. Lines and rays are rasterised by integer error accumulation:
//! the longer axis advances by one cell per step, the shorter axis whenever
//! the accumulated error passes half a cell.

use vstd::prelude::*;
use vstd::arithmetic::div_mod::lemma_fundamental_div_mod_converse;

verus! {

/// A grid cell, as column and row.
pub type Cell = (i32, i32);

/// Absolute value of an integer.
pub open spec fn abs(v: int) -> int {
    if v < 0 {
        -v
    } else {
        v
    }
}

/// The larger of two integers.
pub open spec fn max(a: int, b: int) -> int {
    if a >= b {
        a
    } else {
        b
    }
}

/// The smaller of two integers.
pub open spec fn min(a: int, b: int) -> int {
    if a <= b {
        a
    } else {
        b
    }
}

/// `steps` cells from `origin` in the direction of `target`.
pub open spec fn toward(origin: int, target: int, steps: int) -> int {
    if target > origin {
        origin + steps
    } else if target < origin {
        origin - steps
    } else {
        origin
    }
}

/// How far the shorter axis has advanced after `k` steps along the longer
/// one, when the shorter axis spans `minor` cells and the longer `major`.
///
/// The error starts at `minor / major - 1/2`, grows by `minor / major` per
/// step, and the shorter axis advances (the error dropping by one) whenever
/// the error exceeds one half.
pub open spec fn minor_advance(k: int, minor: int, major: int) -> int {
    if minor == 0 {
        0
    } else {
        ((k + 1) * minor - 1) / major
    }
}

/// The cell reached after `k` steps from `(x1, y1)` toward `(x2, y2)`.
pub open spec fn raster_cell(x1: int, y1: int, x2: int, y2: int, k: int) -> (int, int) {
    let dx = abs(x2 - x1);
    let dy = abs(y2 - y1);
    if dx >= dy {
        (toward(x1, x2, k), toward(y1, y2, minor_advance(k, dy, dx)))
    } else {
        (toward(x1, x2, minor_advance(k, dx, dy)), toward(y1, y2, k))
    }
}

/// Whether a pair of integers is a representable cell.
pub open spec fn is_cell(p: (int, int)) -> bool {
    i32::MIN <= p.0 <= i32::MAX && i32::MIN <= p.1 <= i32::MAX
}

/// A pair of integers as a cell.
pub open spec fn as_cell(p: (int, int)) -> Cell {
    (p.0 as i32, p.1 as i32)
}

/// A straight segment between two grid cells, both included.
#[derive(Copy, Clone, Debug, PartialEq, Eq, Structural)]
pub struct Line {
    pub x1: i32,
    pub y1: i32,
    pub x2: i32,
    pub y2: i32,
}

impl Line {
    pub fn new(x1: i32, y1: i32, x2: i32, y2: i32) -> (line: Line)
        ensures
            line == (Line { x1, y1, x2, y2 }),
    {
        Line { x1, y1, x2, y2 }
    }

    /// Number of steps from the first endpoint to the second.
    pub open spec fn steps(&self) -> int {
        max(abs(self.x2 - self.x1), abs(self.y2 - self.y1))
    }

    /// The `k`-th cell of the line, counted from the first endpoint.
    pub open spec fn cell_at(&self, k: int) -> Cell {
        as_cell(raster_cell(self.x1 as int, self.y1 as int, self.x2 as int, self.y2 as int, k))
    }

    /// The cells of the line, from the first endpoint to the second.
    pub open spec fn cell_seq(&self) -> Seq<Cell> {
        Seq::new((self.steps() + 1) as nat, |k: int| self.cell_at(k))
    }

    /// An iterator over the cells of the line.
    pub fn into_iter(self) -> (it: LineIter)
        ensures
            it.wf(),
            it.remaining() == self.cell_seq(),
    {
        LineIter::init(self)
    }

    /// The cells of the line, from the first endpoint to the second.
    pub fn cells(&self) -> (v: Vec<Cell>)
        ensures
            v@ == self.cell_seq(),
    {
        let mut it = LineIter::init(*self);
        let mut v: Vec<Cell> = Vec::new();
        loop
            invariant
                it.wf(),
                v@ + it.remaining() == self.cell_seq(),
            decreases it.remaining().len(),
        {
            match it.next() {
                Some(c) => {
                    proof {
                        let rest = it.remaining();
                        assert(v@.push(c) + rest == v@ + (seq![c] + rest));
                    }
                    v.push(c);
                },
                None => {
                    assert(v@ + Seq::<Cell>::empty() == v@);
                    return v;
                },
            }
        }
    }
}

/// The state of a rasterisation: the current cell, the direction, and the
/// accumulated error of the shorter axis.
pub struct Stepper {
    pub x: i32,
    pub y: i32,
    pub x1: i32,
    pub y1: i32,
    pub x2: i32,
    pub y2: i32,
    /// Span of the shorter axis.
    pub minor: u32,
    /// Span of the longer axis.
    pub major: u32,
    /// Accumulated error, as a remainder below `major`.
    pub rem: u32,
    /// Steps taken so far.
    pub k: Ghost<int>,
}

/// Distance between two coordinates.
fn span(a: i32, b: i32) -> (d: u32)
    ensures
        d == abs(b - a),
{
    if b >= a {
        ((b as i64) - (a as i64)) as u32
    } else {
        ((a as i64) - (b as i64)) as u32
    }
}

proof fn lemma_advance_step(k: int, minor: int, major: int, m: int, rem: int)
    requires
        1 <= minor <= major,
        0 <= k,
        (k + 1) * minor - 1 == m * major + rem,
        0 <= rem < major,
    ensures
        m == minor_advance(k, minor, major),
        rem + minor >= major ==> minor_advance(k + 1, minor, major) == m + 1,
        rem + minor < major ==> minor_advance(k + 1, minor, major) == m,
        (k + 2) * minor - 1 == m * major + rem + minor,
        0 <= m <= k,
        k <= major ==> m <= minor,
{
    lemma_fundamental_div_mod_converse((k + 1) * minor - 1, major, m, rem);
    assert((k + 2) * minor - 1 == m * major + rem + minor) by (nonlinear_arith)
        requires
            (k + 1) * minor - 1 == m * major + rem,
    ;
    if rem + minor >= major {
        assert((k + 2) * minor - 1 == (m + 1) * major + (rem + minor - major)) by (nonlinear_arith)
            requires
                (k + 2) * minor - 1 == m * major + rem + minor,
        ;
        lemma_fundamental_div_mod_converse(
            (k + 2) * minor - 1,
            major,
            m + 1,
            rem + minor - major,
        );
    } else {
        lemma_fundamental_div_mod_converse((k + 2) * minor - 1, major, m, rem + minor);
    }
    assert(0 <= m <= k) by (nonlinear_arith)
        requires
            (k + 1) * minor - 1 == m * major + rem,
            1 <= minor <= major,
            0 <= rem < major,
            0 <= k,
    ;
    if k <= major {
        assert(m <= minor) by (nonlinear_arith)
            requires
                (k + 1) * minor - 1 == m * major + rem,
                1 <= minor <= major,
                0 <= rem < major,
                0 <= k <= major,
        ;
    }
}

impl Stepper {
    /// How far the shorter axis has advanced.
    pub open spec fn advanced(&self) -> int {
        minor_advance(self.k@, self.minor as int, self.major as int)
    }

    /// The cell that the closed form gives for `k` steps.
    pub open spec fn cell_at(&self, k: int) -> (int, int) {
        raster_cell(self.x1 as int, self.y1 as int, self.x2 as int, self.y2 as int, k)
    }

    pub open spec fn wf(&self) -> bool {
        let dx = abs(self.x2 - self.x1);
        let dy = abs(self.y2 - self.y1);
        &&& self.k@ >= 0
        &&& self.major == max(dx, dy)
        &&& self.minor == min(dx, dy)
        &&& (self.x as int, self.y as int) == self.cell_at(self.k@)
        &&& if self.minor == 0 {
            self.rem == 0
        } else {
            &&& self.rem < self.major
            &&& (self.k@ + 1) * self.minor - 1 == self.advanced() * self.major + self.rem
        }
    }

    /// A rasterisation at its first cell.
    pub fn start(x1: i32, y1: i32, x2: i32, y2: i32) -> (s: Stepper)
        ensures
            s.wf(),
            s.k@ == 0,
            s.x1 == x1 && s.y1 == y1 && s.x2 == x2 && s.y2 == y2,
    {
        let dx = span(x1, x2);
        let dy = span(y1, y2);
        let major = if dx >= dy { dx } else { dy };
        let minor = if dx >= dy { dy } else { dx };
        let rem = if minor == 0 { 0 } else { minor - 1 };
        let s = Stepper { x: x1, y: y1, x1, y1, x2, y2, minor, major, rem, k: Ghost(0) };
        proof {
            if minor != 0 {
                assert(1 * (minor as int) - 1 == 0 * (major as int) + rem) by (nonlinear_arith)
                    requires
                        rem == minor - 1,
                ;
                lemma_fundamental_div_mod_converse(
                    1 * (minor as int) - 1,
                    major as int,
                    0,
                    rem as int,
                );
            }
        }
        s
    }

    /// Whether the cell after the current one is representable.
    pub open spec fn can_advance(&self) -> bool {
        is_cell(self.cell_at(self.k@ + 1))
    }

    /// Tests whether the cell after the current one is representable.
    pub fn has_next(&self) -> (b: bool)
        requires
            self.wf(),
            self.major > 0,
        ensures
            b == self.can_advance(),
    {
        let x_major = span(self.x1, self.x2) >= span(self.y1, self.y2);
        let turn = self.minor != 0 && self.rem as u64 + self.minor as u64 >= self.major as u64;
        proof {
            if self.minor != 0 {
                lemma_advance_step(
                    self.k@,
                    self.minor as int,
                    self.major as int,
                    self.advanced(),
                    self.rem as int,
                );
            }
        }
        let step_x = x_major || turn;
        let step_y = !x_major || turn;
        let x_ok = !step_x || (if self.x2 > self.x1 {
            self.x < i32::MAX
        } else if self.x2 < self.x1 {
            self.x > i32::MIN
        } else {
            true
        });
        let y_ok = !step_y || (if self.y2 > self.y1 {
            self.y < i32::MAX
        } else if self.y2 < self.y1 {
            self.y > i32::MIN
        } else {
            true
        });
        x_ok && y_ok
    }

    /// Moves to the next cell.
    pub fn advance(&mut self)
        requires
            old(self).wf(),
            old(self).major > 0,
            old(self).can_advance(),
        ensures
            final(self).wf(),
            final(self).k@ == old(self).k@ + 1,
            final(self).x1 == old(self).x1 && final(self).y1 == old(self).y1,
            final(self).x2 == old(self).x2 && final(self).y2 == old(self).y2,
            final(self).major == old(self).major && final(self).minor == old(self).minor,
    {
        let x_major = span(self.x1, self.x2) >= span(self.y1, self.y2);
        let mut turn = false;
        proof {
            if self.minor != 0 {
                lemma_advance_step(
                    self.k@,
                    self.minor as int,
                    self.major as int,
                    self.advanced(),
                    self.rem as int,
                );
            }
        }
        if self.minor != 0 {
            let sum: u64 = self.rem as u64 + self.minor as u64;
            if sum >= self.major as u64 {
                turn = true;
                self.rem = (sum - self.major as u64) as u32;
            } else {
                self.rem = sum as u32;
            }
        }
        if x_major || turn {
            if self.x2 > self.x1 {
                self.x = self.x + 1;
            } else if self.x2 < self.x1 {
                self.x = self.x - 1;
            }
        }
        if !x_major || turn {
            if self.y2 > self.y1 {
                self.y = self.y + 1;
            } else if self.y2 < self.y1 {
                self.y = self.y - 1;
            }
        }
        self.k = Ghost(self.k@ + 1);
        proof {
            if self.minor != 0 {
                let m = old(self).advanced();
                let m2 = if turn { m + 1 } else { m };
                let k0 = old(self).k@;
                let r0 = old(self).rem as int;
                let r1 = self.rem as int;
                let a = self.minor as int;
                let b = self.major as int;
                assert((k0 + 2) * a - 1 == m2 * b + r1) by (nonlinear_arith)
                    requires
                        (k0 + 2) * a - 1 == m * b + r0 + a,
                        turn ==> r1 == r0 + a - b,
                        !turn ==> r1 == r0 + a,
                        m2 == if turn { m + 1 } else { m },
                ;
            }
        }
    }
}

/// Iterator over the cells of a [`Line`].
pub struct LineIter {
    pub core: Stepper,
    /// Cells still to come.
    pub left: u64,
}

impl LineIter {
    pub open spec fn line(&self) -> Line {
        Line { x1: self.core.x1, y1: self.core.y1, x2: self.core.x2, y2: self.core.y2 }
    }

    pub open spec fn wf(&self) -> bool {
        &&& self.core.wf()
        &&& self.left <= self.line().steps() + 1
        &&& self.core.k@ == min(self.yielded(), self.line().steps())
    }

    /// Number of cells that the iterator has yielded.
    pub open spec fn yielded(&self) -> int {
        self.line().steps() + 1 - self.left
    }

    /// The cells that the iterator has yet to yield.
    pub open spec fn remaining(&self) -> Seq<Cell> {
        self.line().cell_seq().skip(self.yielded())
    }

    pub fn init(line: Line) -> (it: LineIter)
        ensures
            it.wf(),
            it.line() == line,
            it.remaining() == line.cell_seq(),
    {
        let core = Stepper::start(line.x1, line.y1, line.x2, line.y2);
        let left: u64 = core.major as u64 + 1;
        let it = LineIter { core, left };
        assert(line.cell_seq().skip(0) == line.cell_seq());
        it
    }

    /// Yields the next cell of the line, if any is left.
    pub fn next(&mut self) -> (r: Option<Cell>)
        requires
            old(self).wf(),
        ensures
            final(self).wf(),
            final(self).line() == old(self).line(),
            old(self).remaining().len() == 0 ==> r.is_none() && final(self).remaining().len() == 0,
            old(self).remaining().len() > 0 ==> r == Some(old(self).remaining()[0])
                && final(self).remaining() == old(self).remaining().skip(1),
    {
        if self.left == 0 {
            return None;
        }
        let result = (self.core.x, self.core.y);
        let ghost k = self.yielded();
        let ghost cells = self.line().cell_seq();
        assert(old(self).remaining()[0] == cells[k]);
        assert(cells.skip(k).skip(1) == cells.skip(k + 1));
        self.left = self.left - 1;
        if self.left > 0 {
            proof {
                lemma_line_in_range(self.line(), k + 1);
            }
            self.core.advance();
        }
        Some(result)
    }

    /// Number of cells that the iterator has yet to yield.
    pub fn count(self) -> (n: u64)
        requires
            self.wf(),
        ensures
            n == self.remaining().len(),
    {
        self.left
    }
}

/// Every cell of a line lies between its endpoints.
pub proof fn lemma_line_in_range(line: Line, k: int)
    requires
        0 <= k <= line.steps(),
    ensures
        is_cell(raster_cell(line.x1 as int, line.y1 as int, line.x2 as int, line.y2 as int, k)),
        min(line.x1 as int, line.x2 as int) <= line.cell_at(k).0 <= max(
            line.x1 as int,
            line.x2 as int,
        ),
        min(line.y1 as int, line.y2 as int) <= line.cell_at(k).1 <= max(
            line.y1 as int,
            line.y2 as int,
        ),
{
    let dx = abs(line.x2 - line.x1);
    let dy = abs(line.y2 - line.y1);
    let major = max(dx, dy);
    let minor = min(dx, dy);
    if minor != 0 {
        let x = (k + 1) * minor - 1;
        vstd::arithmetic::div_mod::lemma_fundamental_div_mod(x, major);
        vstd::arithmetic::div_mod::lemma_mod_bound(x, major);
        assert(x == (x / major) * major + x % major) by (nonlinear_arith)
            requires
                x == major * (x / major) + x % major,
        ;
        lemma_advance_step(k, minor, major, x / major, x % major);
    }
}

/// A directed line from one cell through another, not cut at the second.
///
/// Its cells follow the same rule as those of a [`Line`], and go on for as
/// long as they can be represented. A ray whose two cells coincide has no
/// direction and covers its origin only.
#[derive(Copy, Clone, Debug, PartialEq, Eq, Structural)]
pub struct Ray {
    pub x1: i32,
    pub y1: i32,
    pub x2: i32,
    pub y2: i32,
}

/// One more than the largest number of steps that a ray can take.
pub const RAY_LIMIT: u64 = 0x1_0000_0000;

impl Ray {
    pub fn new(from: Cell, to: Cell) -> (ray: Ray)
        ensures
            ray == (Ray { x1: from.0, y1: from.1, x2: to.0, y2: to.1 }),
    {
        Ray { x1: from.0, y1: from.1, x2: to.0, y2: to.1 }
    }

    /// Whether the ray has no direction.
    pub open spec fn degenerate(&self) -> bool {
        self.x1 == self.x2 && self.y1 == self.y2
    }

    /// The cell that `k` steps would lead to, as unbounded integers.
    pub open spec fn point_at(&self, k: int) -> (int, int) {
        raster_cell(self.x1 as int, self.y1 as int, self.x2 as int, self.y2 as int, k)
    }

    /// The `k`-th cell of the ray, counted from its origin.
    pub open spec fn cell_at(&self, k: int) -> Cell {
        as_cell(self.point_at(k))
    }

    /// Whether the ray has a `k`-th cell.
    pub open spec fn reaches(&self, k: int) -> bool {
        &&& 0 <= k < RAY_LIMIT
        &&& is_cell(self.point_at(k))
        &&& self.degenerate() ==> k == 0
    }

    /// The cells of the ray from the `k`-th on.
    pub open spec fn cells_from(&self, k: int) -> Seq<Cell>
        decreases RAY_LIMIT - k,
    {
        if self.reaches(k) {
            seq![self.cell_at(k)] + self.cells_from(k + 1)
        } else {
            Seq::empty()
        }
    }

    /// The cells of the ray, from its origin outward.
    pub open spec fn cell_seq(&self) -> Seq<Cell> {
        self.cells_from(0)
    }

    /// An iterator over the cells of the ray.
    pub fn into_iter(self) -> (it: RayIter)
        ensures
            it.wf(),
            it.ray() == self,
            it.remaining() == self.cell_seq(),
    {
        let core = Stepper::start(self.x1, self.y1, self.x2, self.y2);
        RayIter { core, done: false }
    }
}

/// Iterator over the cells of a [`Ray`].
pub struct RayIter {
    pub core: Stepper,
    pub done: bool,
}

impl RayIter {
    pub open spec fn ray(&self) -> Ray {
        Ray { x1: self.core.x1, y1: self.core.y1, x2: self.core.x2, y2: self.core.y2 }
    }

    pub open spec fn wf(&self) -> bool {
        &&& self.core.wf()
        &&& !self.done ==> self.ray().reaches(self.core.k@)
    }

    /// Number of cells that the iterator has yielded, while it is not done.
    pub open spec fn position(&self) -> int {
        self.core.k@
    }

    /// The cells that the iterator has yet to yield.
    pub open spec fn remaining(&self) -> Seq<Cell> {
        if self.done {
            Seq::empty()
        } else {
            self.ray().cells_from(self.core.k@)
        }
    }

    /// Yields the next cell of the ray, if any is left.
    pub fn next(&mut self) -> (r: Option<Cell>)
        requires
            old(self).wf(),
        ensures
            final(self).wf(),
            final(self).ray() == old(self).ray(),
            old(self).remaining().len() == 0 ==> r.is_none() && final(self).remaining().len() == 0,
            old(self).remaining().len() > 0 ==> r == Some(old(self).remaining()[0])
                && final(self).remaining() == old(self).remaining().skip(1),
            !final(self).done ==> !old(self).done && final(self).position() == old(self).position()
                + 1,
    {
        if self.done {
            return None;
        }
        let result = (self.core.x, self.core.y);
        let ghost k = self.core.k@;
        let ghost ray = self.ray();
        let ghost rest = ray.cells_from(k + 1);
        assert((seq![ray.cell_at(k)] + rest).skip(1) == rest);
        if self.core.major == 0 {
            self.done = true;
            assert(!ray.reaches(k + 1));
        } else if self.core.has_next() {
            self.core.advance();
            assert(ray.reaches(k + 1));
        } else {
            self.done = true;
            assert(!ray.reaches(k + 1));
        }
        Some(result)
    }
}

/// An axis-aligned rectangle covering the columns `x1..x2` and the rows
/// `y1..y2`.
#[derive(Copy, Clone, Debug, PartialEq, Eq, Structural)]
pub struct Rect {
    pub x1: i32,
    pub y1: i32,
    pub x2: i32,
    pub y2: i32,
}

/// Quotient of a division by a positive number, rounded toward zero.
pub open spec fn trunc_div(a: int, b: int) -> int {
    if a >= 0 {
        a / b
    } else {
        -((-a) / b)
    }
}

/// Whether an integer is a representable coordinate.
pub open spec fn fits(v: int) -> bool {
    i32::MIN <= v <= i32::MAX
}

/// Divides by a small positive number, rounding toward zero.
fn div_toward_zero(a: i64, b: i64) -> (q: i64)
    requires
        0 < b,
        a > i64::MIN,
    ensures
        q == trunc_div(a as int, b as int),
        a >= 0 ==> 0 <= q <= a,
        a < 0 ==> a <= q <= 0,
{
    if a >= 0 {
        let q = (a as u64 / b as u64) as i64;
        assert(0 <= q <= a) by (nonlinear_arith)
            requires
                q == a / b,
                a >= 0,
                b > 0,
        ;
        q
    } else {
        let n = -a;
        let q = (n as u64 / b as u64) as i64;
        assert(0 <= q <= n) by (nonlinear_arith)
            requires
                q == n / b,
                n >= 0,
                b > 0,
        ;
        -q
    }
}

impl Rect {
    /// The rectangle of width `w` and height `h` whose first cell is `(x, y)`.
    pub fn new(x: i32, y: i32, w: i32, h: i32) -> (rect: Rect)
        requires
            fits(x + w),
            fits(y + h),
        ensures
            rect == (Rect { x1: x, y1: y, x2: (x + w) as i32, y2: (y + h) as i32 }),
    {
        Rect { x1: x, y1: y, x2: x + w, y2: y + h }
    }

    pub open spec fn width(&self) -> int {
        self.x2 - self.x1
    }

    pub open spec fn height(&self) -> int {
        self.y2 - self.y1
    }

    /// The rectangle of the same size around `(x, y)`.
    pub open spec fn centered(&self, x: int, y: int) -> (int, int, int, int) {
        let left = x - trunc_div(self.width(), 2);
        let top = y - trunc_div(self.height(), 2);
        (left, top, left + self.width(), top + self.height())
    }

    /// Whether the rectangle, moved around `(x, y)`, is representable.
    pub open spec fn can_center_at(&self, x: int, y: int) -> bool {
        let c = self.centered(x, y);
        fits(self.width()) && fits(self.height()) && fits(c.0) && fits(c.1) && fits(c.2) && fits(
            c.3,
        )
    }

    /// Moves the rectangle so that `(x, y)` is its centre.
    pub fn center_at(&mut self, x: i32, y: i32)
        requires
            old(self).can_center_at(x as int, y as int),
        ensures
            final(self).x1 == old(self).centered(x as int, y as int).0,
            final(self).y1 == old(self).centered(x as int, y as int).1,
            final(self).x2 == old(self).centered(x as int, y as int).2,
            final(self).y2 == old(self).centered(x as int, y as int).3,
    {
        let w: i64 = self.x2 as i64 - self.x1 as i64;
        let h: i64 = self.y2 as i64 - self.y1 as i64;
        let left: i64 = x as i64 - div_toward_zero(w, 2);
        let top: i64 = y as i64 - div_toward_zero(h, 2);
        self.x1 = left as i32;
        self.x2 = (left + w) as i32;
        self.y1 = top as i32;
        self.y2 = (top + h) as i32;
    }

    /// Whether the rectangle, widened by `s` on every side, is representable.
    pub open spec fn can_grow(&self, s: int) -> bool {
        fits(self.x1 - s) && fits(self.x2 + s) && fits(self.y1 - s) && fits(self.y2 + s)
    }

    /// The rectangle widened by `s` cells on every side.
    pub fn grow(&self, s: i32) -> (rect: Rect)
        requires
            self.can_grow(s as int),
        ensures
            rect == (Rect {
                x1: (self.x1 - s) as i32,
                y1: (self.y1 - s) as i32,
                x2: (self.x2 + s) as i32,
                y2: (self.y2 + s) as i32,
            }),
    {
        Rect { x1: self.x1 - s, x2: self.x2 + s, y1: self.y1 - s, y2: self.y2 + s }
    }

    /// The first row.
    pub fn top(&self) -> (v: i32)
        ensures
            v == self.y1,
    {
        self.y1
    }

    /// The first column.
    pub fn left(&self) -> (v: i32)
        ensures
            v == self.x1,
    {
        self.x1
    }

    /// The last row.
    pub fn bottom(&self) -> (v: i32)
        requires
            self.y2 > i32::MIN,
        ensures
            v == self.y2 - 1,
    {
        self.y2 - 1
    }

    /// The last column.
    pub fn right(&self) -> (v: i32)
        requires
            self.x2 > i32::MIN,
        ensures
            v == self.x2 - 1,
    {
        self.x2 - 1
    }

    /// Whether the cell lies in the columns and rows of the rectangle.
    pub open spec fn holds(&self, pos: Cell) -> bool {
        self.x1 <= pos.0 < self.x2 && self.y1 <= pos.1 < self.y2
    }

    /// Whether the rectangle covers any cell.
    pub open spec fn nonempty(&self) -> bool {
        self.width() > 0 && self.height() > 0
    }

    /// Number of cells of the rectangle.
    pub open spec fn area(&self) -> int {
        if self.nonempty() {
            self.width() * self.height()
        } else {
            0
        }
    }

    /// The `i`-th cell of the rectangle, row by row.
    pub open spec fn cell_at(&self, i: int) -> Cell {
        ((self.x1 + i % self.width()) as i32, (self.y1 + i / self.width()) as i32)
    }

    /// An iterator over the cells of the rectangle, row by row.
    pub fn into_iter(self) -> (it: RectIter)
        ensures
            it.wf(),
            it.rect == self,
            it.remaining() == self.cell_seq(),
    {
        let it = RectIter { rect: self, pos: (self.x1, self.y1) };
        proof {
            assert(0 * self.width() == 0);
            assert(self.cell_seq().skip(0) == self.cell_seq());
        }
        it
    }
}

/// What a shape on the grid offers: its cells in a fixed order, and tests of
/// a cell against its area, its boundary and its interior.
pub trait Shape: Copy {
    /// Whether the shape covers the cell.
    spec fn covers(&self, pos: Cell) -> bool;

    /// Whether the cell lies on the rim of the shape.
    spec fn on_boundary(&self, pos: Cell) -> bool;

    /// Whether the cell lies strictly inside the shape.
    spec fn in_interior(&self, pos: Cell) -> bool;

    /// The centre of the shape.
    spec fn center_point(&self) -> Cell;

    /// The smallest rectangle that the shape is scanned in.
    spec fn bounds(&self) -> Rect;

    fn center(&self) -> (c: Cell)
        ensures
            c == self.center_point(),
    ;

    fn bounding_box(&self) -> (r: Rect)
        ensures
            r == self.bounds(),
    ;

    fn is_enclosed(&self, pos: Cell) -> (b: bool)
        ensures
            b == self.covers(pos),
    ;

    fn is_boundary(&self, pos: Cell) -> (b: bool)
        ensures
            b == self.on_boundary(pos),
    ;

    fn is_interior(&self, pos: Cell) -> (b: bool)
        ensures
            b == self.in_interior(pos),
    ;
}

impl Shape for Rect {
    open spec fn covers(&self, pos: Cell) -> bool {
        self.holds(pos)
    }

    open spec fn on_boundary(&self, pos: Cell) -> bool {
        pos.0 == self.x1 || pos.0 == self.x2 - 1 || pos.1 == self.y1 || pos.1 == self.y2 - 1
    }

    open spec fn in_interior(&self, pos: Cell) -> bool {
        self.x1 < pos.0 < self.x2 - 1 && self.y1 < pos.1 < self.y2 - 1
    }

    open spec fn center_point(&self) -> Cell {
        (
            trunc_div(self.x1 + self.x2, 2) as i32,
            trunc_div(self.y1 + self.y2, 2) as i32,
        )
    }

    open spec fn bounds(&self) -> Rect {
        *self
    }

    fn center(&self) -> (c: Cell) {
        let cx = div_toward_zero(self.x1 as i64 + self.x2 as i64, 2);
        let cy = div_toward_zero(self.y1 as i64 + self.y2 as i64, 2);
        (cx as i32, cy as i32)
    }

    fn bounding_box(&self) -> (r: Rect) {
        *self
    }

    fn is_enclosed(&self, pos: Cell) -> (b: bool) {
        pos.0 >= self.x1 && pos.0 < self.x2 && pos.1 >= self.y1 && pos.1 < self.y2
    }

    fn is_boundary(&self, pos: Cell) -> (b: bool) {
        pos.0 == self.x1 || pos.0 as i64 == self.x2 as i64 - 1 || pos.1 == self.y1 || pos.1 as i64
            == self.y2 as i64 - 1
    }

    fn is_interior(&self, pos: Cell) -> (b: bool) {
        pos.0 > self.x1 && (pos.0 as i64) < self.x2 as i64 - 1 && pos.1 > self.y1 && (pos.1 as i64)
            < self.y2 as i64 - 1
    }
}

impl Rect {
    /// The cells of the rectangle, row by row.
    pub open spec fn cell_seq(&self) -> Seq<Cell> {
        Seq::new(self.area() as nat, |i: int| self.cell_at(i))
    }

    /// The cells of the rectangle, row by row.
    pub fn cells(&self) -> (v: Vec<Cell>)
        ensures
            v@ == self.cell_seq(),
    {
        let mut it = (*self).into_iter();
        let mut v: Vec<Cell> = Vec::new();
        loop
            invariant
                it.wf(),
                v@ + it.remaining() == self.cell_seq(),
            decreases it.remaining().len(),
        {
            match it.next() {
                Some(c) => {
                    proof {
                        let rest = it.remaining();
                        assert(v@.push(c) + rest == v@ + (seq![c] + rest));
                    }
                    v.push(c);
                },
                None => {
                    assert(v@ + Seq::<Cell>::empty() == v@);
                    return v;
                },
            }
        }
    }

    /// The cells of a rectangle are exactly those in its columns and rows.
    pub proof fn lemma_cells_covered(&self, pos: Cell)
        ensures
            self.cell_seq().contains(pos) <==> self.holds(pos),
    {
        let w = self.width();
        let h = self.height();
        let cells = self.cell_seq();
        if cells.contains(pos) {
            let i = choose|i: int| 0 <= i < cells.len() && cells[i] == pos;
            lemma_rect_index(w, h, i);
        }
        if self.holds(pos) {
            let col = pos.0 - self.x1;
            let row = pos.1 - self.y1;
            let i = row * w + col;
            lemma_rect_position(w, h, col, row);
            assert(cells[i] == pos);
        }
    }
}

/// Column and row of the `i`-th cell of a `w` by `h` grid lie inside it.
pub proof fn lemma_rect_index(w: int, h: int, i: int)
    requires
        0 < w,
        0 < h,
        0 <= i < w * h,
    ensures
        0 <= i % w < w,
        0 <= i / w < h,
        i == (i / w) * w + i % w,
{
    vstd::arithmetic::div_mod::lemma_fundamental_div_mod(i, w);
    vstd::arithmetic::div_mod::lemma_mod_bound(i, w);
    let q = i / w;
    let r = i % w;
    assert(i == q * w + r) by (nonlinear_arith)
        requires
            i == w * q + r,
    ;
    assert(0 <= q < h) by (nonlinear_arith)
        requires
            i == q * w + r,
            0 <= r < w,
            0 <= i < w * h,
            0 < w,
    ;
}

/// The cell in column `col` and row `row` of a `w` by `h` grid is its
/// `(row * w + col)`-th.
pub proof fn lemma_rect_position(w: int, h: int, col: int, row: int)
    requires
        0 <= col < w,
        0 <= row < h,
    ensures
        0 <= row * w + col < w * h,
        (row * w + col) % w == col,
        (row * w + col) / w == row,
{
    let i = row * w + col;
    lemma_fundamental_div_mod_converse(i, w, row, col);
    assert(0 <= i < w * h) by (nonlinear_arith)
        requires
            i == row * w + col,
            0 <= col < w,
            0 <= row < h,
    ;
}

/// Iterator over the cells of a [`Rect`], row by row.
pub struct RectIter {
    pub rect: Rect,
    /// The cell to yield next; past the last row when none is left.
    pub pos: Cell,
}

impl RectIter {
    pub open spec fn wf(&self) -> bool {
        self.rect.nonempty() ==> {
            &&& self.rect.x1 <= self.pos.0 < self.rect.x2
            &&& self.rect.y1 <= self.pos.1 <= self.rect.y2
            &&& self.pos.1 == self.rect.y2 ==> self.pos.0 == self.rect.x1
        }
    }

    /// Number of cells that the iterator has yielded.
    pub open spec fn yielded(&self) -> int {
        if self.rect.nonempty() {
            (self.pos.1 - self.rect.y1) * self.rect.width() + (self.pos.0 - self.rect.x1)
        } else {
            0
        }
    }

    /// The cells that the iterator has yet to yield.
    pub open spec fn remaining(&self) -> Seq<Cell> {
        self.rect.cell_seq().skip(self.yielded())
    }

    /// Yields the next cell of the rectangle, if any is left.
    pub fn next(&mut self) -> (r: Option<Cell>)
        requires
            old(self).wf(),
        ensures
            final(self).wf(),
            final(self).rect == old(self).rect,
            old(self).remaining().len() == 0 ==> r.is_none() && final(self).remaining().len() == 0,
            old(self).remaining().len() > 0 ==> r == Some(old(self).remaining()[0])
                && final(self).remaining() == old(self).remaining().skip(1),
    {
        let rect = self.rect;
        let ghost w = rect.width();
        let ghost h = rect.height();
        let ghost i = self.yielded();
        let ghost cells = rect.cell_seq();
        if rect.x2 <= rect.x1 || rect.y2 <= rect.y1 {
            return None;
        }
        if self.pos.1 >= rect.y2 {
            assert(i == h * w);
            return None;
        }
        let result = self.pos;
        proof {
            lemma_rect_position(w, h, self.pos.0 - rect.x1, self.pos.1 - rect.y1);
            assert(cells[i] == result);
            assert(cells.skip(i).skip(1) == cells.skip(i + 1));
        }
        if self.pos.0 < rect.x2 - 1 {
            self.pos = (self.pos.0 + 1, self.pos.1);
        } else {
            let ghost row = self.pos.1 - rect.y1;
            self.pos = (rect.x1, self.pos.1 + 1);
            let ghost j = self.yielded();
            assert(j == i + 1) by (nonlinear_arith)
                requires
                    j == (row + 1) * w,
                    i == row * w + (w - 1),
            ;
        }
        Some(result)
    }
}

/// The cells of `cells` that `shape` covers, in the same order.
pub open spec fn covered_cells<T: Shape>(shape: T, cells: Seq<Cell>) -> Seq<Cell>
    decreases cells.len(),
{
    if cells.len() == 0 {
        Seq::empty()
    } else if shape.covers(cells[0]) {
        seq![cells[0]] + covered_cells(shape, cells.skip(1))
    } else {
        covered_cells(shape, cells.skip(1))
    }
}

/// A cell is among the covered cells of a sequence exactly if it is in the
/// sequence and covered.
pub proof fn lemma_covered_cells<T: Shape>(shape: T, cells: Seq<Cell>, pos: Cell)
    ensures
        covered_cells(shape, cells).contains(pos) <==> cells.contains(pos) && shape.covers(pos),
    decreases cells.len(),
{
    if cells.len() > 0 {
        let rest = cells.skip(1);
        lemma_covered_cells(shape, rest, pos);
        let kept = covered_cells(shape, rest);
        if cells.contains(pos) {
            let i = choose|i: int| 0 <= i < cells.len() && cells[i] == pos;
            if i > 0 {
                assert(rest[i - 1] == pos);
            }
        }
        if rest.contains(pos) {
            let i = choose|i: int| 0 <= i < rest.len() && rest[i] == pos;
            assert(cells[i + 1] == pos);
        }
        if shape.covers(cells[0]) {
            let all = seq![cells[0]] + kept;
            if all.contains(pos) {
                let i = choose|i: int| 0 <= i < all.len() && all[i] == pos;
                if i > 0 {
                    assert(kept[i - 1] == pos);
                }
            }
            if kept.contains(pos) {
                let i = choose|i: int| 0 <= i < kept.len() && kept[i] == pos;
                assert(all[i + 1] == pos);
            }
            if cells[0] == pos {
                assert(all[0] == pos);
            }
        }
    }
}

/// The cells of a shape: those cells of its bounding box that it covers, row
/// by row.
pub open spec fn shape_cells<T: Shape>(shape: T) -> Seq<Cell> {
    covered_cells(shape, shape.bounds().cell_seq())
}

/// A cell is among the cells of a shape exactly if the shape covers it and
/// it lies in the bounding box.
pub proof fn lemma_shape_cells<T: Shape>(shape: T, pos: Cell)
    ensures
        shape_cells(shape).contains(pos) <==> shape.covers(pos) && shape.bounds().holds(pos),
{
    lemma_covered_cells(shape, shape.bounds().cell_seq(), pos);
    shape.bounds().lemma_cells_covered(pos);
}

/// Where a shape covers every cell of a sequence, no cell is dropped.
pub proof fn lemma_all_covered<T: Shape>(shape: T, cells: Seq<Cell>)
    requires
        forall|i: int| 0 <= i < cells.len() ==> shape.covers(#[trigger] cells[i]),
    ensures
        covered_cells(shape, cells) == cells,
    decreases cells.len(),
{
    if cells.len() > 0 {
        let rest = cells.skip(1);
        assert forall|i: int| 0 <= i < rest.len() implies shape.covers(#[trigger] rest[i]) by {
            assert(rest[i] == cells[i + 1]);
        }
        lemma_all_covered(shape, rest);
        assert(seq![cells[0]] + rest =~= cells);
    }
}

/// Scanned as a shape, a rectangle has its own cells.
pub proof fn lemma_rect_shape_cells(rect: Rect)
    ensures
        shape_cells(rect) == rect.cell_seq(),
{
    let cells = rect.cell_seq();
    assert forall|i: int| 0 <= i < cells.len() implies rect.covers(#[trigger] cells[i]) by {
        assert(cells.contains(cells[i]));
        rect.lemma_cells_covered(cells[i]);
    }
    lemma_all_covered(rect, cells);
}

/// Iterator over the cells of a shape: those cells of its bounding box that
/// the shape covers.
pub struct ShapeIter<T: Shape> {
    pub shape: T,
    pub rect: RectIter,
}

impl<T: Shape> ShapeIter<T> {
    pub open spec fn wf(&self) -> bool {
        self.rect.wf()
    }

    /// The cells that the iterator has yet to yield.
    pub open spec fn remaining(&self) -> Seq<Cell> {
        covered_cells(self.shape, self.rect.remaining())
    }

    /// An iterator over the cells of `shape`.
    pub fn new(shape: T) -> (it: ShapeIter<T>)
        ensures
            it.wf(),
            it.shape == shape,
            it.remaining() == shape_cells(shape),
    {
        let rect = shape.bounding_box().into_iter();
        ShapeIter { shape, rect }
    }

    /// Yields the next covered cell, if any is left.
    pub fn next(&mut self) -> (r: Option<Cell>)
        requires
            old(self).wf(),
        ensures
            final(self).wf(),
            final(self).shape == old(self).shape,
            old(self).remaining().len() == 0 ==> r.is_none() && final(self).remaining().len() == 0,
            old(self).remaining().len() > 0 ==> r == Some(old(self).remaining()[0])
                && final(self).remaining() == old(self).remaining().skip(1),
    {
        loop
            invariant
                self.wf(),
                self.shape == old(self).shape,
                self.remaining() == old(self).remaining(),
            decreases self.rect.remaining().len(),
        {
            let ghost before = self.rect.remaining();
            match self.rect.next() {
                Some(c) => {
                    if self.shape.is_enclosed(c) {
                        proof {
                            let rest = covered_cells(self.shape, before.skip(1));
                            assert((seq![c] + rest).skip(1) == rest);
                        }
                        return Some(c);
                    }
                },
                None => {
                    return None;
                },
            }
        }
    }
}

/// A triangle given by its three corners.
#[derive(Copy, Clone, Debug, PartialEq, Eq)]
pub struct Triangle {
    pub first: Cell,
    pub second: Cell,
    pub third: Cell,
}

/// Cross product of the vectors `(ax, ay)` and `(bx, by)`.
pub open spec fn cross(ax: int, ay: int, bx: int, by: int) -> int {
    ax * by - ay * bx
}

/// Cross product of two vectors between cells.
fn cross_of(ax: i64, ay: i64, bx: i64, by: i64) -> (c: i128)
    requires
        -0x1_0000_0000 <= ax <= 0x1_0000_0000,
        -0x1_0000_0000 <= ay <= 0x1_0000_0000,
        -0x1_0000_0000 <= bx <= 0x1_0000_0000,
        -0x1_0000_0000 <= by <= 0x1_0000_0000,
    ensures
        c == cross(ax as int, ay as int, bx as int, by as int),
        -0x2_0000_0000_0000_0000 <= c <= 0x2_0000_0000_0000_0000,
{
    assert(-0x1_0000_0000_0000_0000 <= ax * by <= 0x1_0000_0000_0000_0000) by (nonlinear_arith)
        requires
            -0x1_0000_0000 <= ax <= 0x1_0000_0000,
            -0x1_0000_0000 <= by <= 0x1_0000_0000,
    ;
    assert(-0x1_0000_0000_0000_0000 <= ay * bx <= 0x1_0000_0000_0000_0000) by (nonlinear_arith)
        requires
            -0x1_0000_0000 <= ay <= 0x1_0000_0000,
            -0x1_0000_0000 <= bx <= 0x1_0000_0000,
    ;
    (ax as i128) * (by as i128) - (ay as i128) * (bx as i128)
}

/// The smallest of three coordinates.
fn min3(a: i32, b: i32, c: i32) -> (m: i32)
    ensures
        m == min(min(a as int, b as int), c as int),
{
    let ab = if a <= b { a } else { b };
    if ab <= c { ab } else { c }
}

/// The largest of three coordinates.
fn max3(a: i32, b: i32, c: i32) -> (m: i32)
    ensures
        m == max(max(a as int, b as int), c as int),
{
    let ab = if a >= b { a } else { b };
    if ab >= c { ab } else { c }
}

impl Triangle {
    pub fn new(first: Cell, second: Cell, third: Cell) -> (t: Triangle)
        ensures
            t == (Triangle { first, second, third }),
    {
        Triangle { first, second, third }
    }

    /// Twice the signed area of the triangle; zero when it is degenerate.
    pub open spec fn doubled_area(&self) -> int {
        cross(
            self.second.0 - self.first.0,
            self.second.1 - self.first.1,
            self.third.0 - self.first.0,
            self.third.1 - self.first.1,
        )
    }

    /// Weight of the second corner at `pos`, times [`Self::doubled_area`].
    pub open spec fn weight_second(&self, pos: Cell) -> int {
        cross(
            pos.0 - self.first.0,
            pos.1 - self.first.1,
            self.third.0 - self.first.0,
            self.third.1 - self.first.1,
        )
    }

    /// Weight of the third corner at `pos`, times [`Self::doubled_area`].
    pub open spec fn weight_third(&self, pos: Cell) -> int {
        cross(
            self.second.0 - self.first.0,
            self.second.1 - self.first.1,
            pos.0 - self.first.0,
            pos.1 - self.first.1,
        )
    }

    /// The cells of the triangle, row by row.
    pub open spec fn cell_seq(&self) -> Seq<Cell> {
        shape_cells(*self)
    }

    /// The cells of the triangle, row by row.
    pub fn cells(&self) -> (v: Vec<Cell>)
        ensures
            v@ == self.cell_seq(),
    {
        let mut it = (*self).into_iter();
        let mut v: Vec<Cell> = Vec::new();
        loop
            invariant
                it.wf(),
                v@ + it.remaining() == self.cell_seq(),
            decreases it.remaining().len(),
        {
            match it.next() {
                Some(c) => {
                    proof {
                        let rest = it.remaining();
                        assert(v@.push(c) + rest == v@ + (seq![c] + rest));
                    }
                    v.push(c);
                },
                None => {
                    assert(v@ + Seq::<Cell>::empty() == v@);
                    return v;
                },
            }
        }
    }

    /// An iterator over the cells of the triangle.
    pub fn into_iter(self) -> (it: ShapeIter<Triangle>)
        ensures
            it.wf(),
            it.shape == self,
            it.remaining() == self.cell_seq(),
    {
        ShapeIter::new(self)
    }
}

impl Shape for Triangle {
    /// A cell is covered when its barycentric weights `u` (of the second
    /// corner) and `v` (of the third) satisfy `u >= 0`, `v >= 0` and
    /// `u + v < 1`. A degenerate triangle covers nothing.
    open spec fn covers(&self, pos: Cell) -> bool {
        let c = self.doubled_area();
        let a = self.weight_second(pos);
        let b = self.weight_third(pos);
        if c > 0 {
            a >= 0 && b >= 0 && a + b < c
        } else if c < 0 {
            a <= 0 && b <= 0 && a + b > c
        } else {
            false
        }
    }

    open spec fn on_boundary(&self, pos: Cell) -> bool {
        false
    }

    open spec fn in_interior(&self, pos: Cell) -> bool {
        self.covers(pos)
    }

    open spec fn center_point(&self) -> Cell {
        (
            trunc_div(self.first.0 + self.second.0 + self.third.0, 3) as i32,
            trunc_div(self.first.1 + self.second.1 + self.third.1, 3) as i32,
        )
    }

    open spec fn bounds(&self) -> Rect {
        Rect {
            x1: min(min(self.first.0 as int, self.second.0 as int), self.third.0 as int) as i32,
            y1: min(min(self.first.1 as int, self.second.1 as int), self.third.1 as int) as i32,
            x2: max(max(self.first.0 as int, self.second.0 as int), self.third.0 as int) as i32,
            y2: max(max(self.first.1 as int, self.second.1 as int), self.third.1 as int) as i32,
        }
    }

    fn center(&self) -> (c: Cell) {
        let sx: i64 = self.first.0 as i64 + self.second.0 as i64 + self.third.0 as i64;
        let sy: i64 = self.first.1 as i64 + self.second.1 as i64 + self.third.1 as i64;
        let cx = div_toward_zero(sx, 3);
        let cy = div_toward_zero(sy, 3);
        proof {
            lemma_third(sx as int);
            lemma_third(sy as int);
        }
        (cx as i32, cy as i32)
    }

    fn bounding_box(&self) -> (r: Rect) {
        Rect {
            x1: min3(self.first.0, self.second.0, self.third.0),
            y1: min3(self.first.1, self.second.1, self.third.1),
            x2: max3(self.first.0, self.second.0, self.third.0),
            y2: max3(self.first.1, self.second.1, self.third.1),
        }
    }

    fn is_enclosed(&self, pos: Cell) -> (b: bool) {
        let v1x: i64 = self.second.0 as i64 - self.first.0 as i64;
        let v1y: i64 = self.second.1 as i64 - self.first.1 as i64;
        let v2x: i64 = self.third.0 as i64 - self.first.0 as i64;
        let v2y: i64 = self.third.1 as i64 - self.first.1 as i64;
        let v3x: i64 = pos.0 as i64 - self.first.0 as i64;
        let v3y: i64 = pos.1 as i64 - self.first.1 as i64;
        let c = cross_of(v1x, v1y, v2x, v2y);
        let a = cross_of(v3x, v3y, v2x, v2y);
        let b = cross_of(v1x, v1y, v3x, v3y);
        if c > 0 {
            a >= 0 && b >= 0 && a + b < c
        } else if c < 0 {
            a <= 0 && b <= 0 && a + b > c
        } else {
            false
        }
    }

    fn is_boundary(&self, pos: Cell) -> (b: bool) {
        false
    }

    fn is_interior(&self, pos: Cell) -> (b: bool) {
        self.is_enclosed(pos)
    }
}

/// A third of a sum of three coordinates is a coordinate.
proof fn lemma_third(s: int)
    requires
        3 * i32::MIN <= s <= 3 * i32::MAX,
    ensures
        fits(trunc_div(s, 3)),
{
}

/// A line whose endpoints coincide covers that one cell.
pub proof fn lemma_line_single_cell(line: Line)
    requires
        line.x1 == line.x2,
        line.y1 == line.y2,
    ensures
        line.cell_seq() == seq![(line.x1, line.y1)],
{
    assert(line.cell_seq() =~= seq![(line.x1, line.y1)]);
}

/// A ray whose two cells coincide covers that one cell.
pub proof fn lemma_ray_single_cell(ray: Ray)
    requires
        ray.degenerate(),
    ensures
        ray.cell_seq() == seq![(ray.x1, ray.y1)],
{
    assert(ray.reaches(0));
    assert(!ray.reaches(1));
    assert(ray.cells_from(1) == Seq::<Cell>::empty());
    assert(ray.cell_seq() =~= seq![(ray.x1, ray.y1)]);
}

/// A line has one cell more than the longer of its two spans; a horizontal
/// or vertical line of length `n` has `n + 1` cells, the `k`-th of them `k`
/// cells from the first endpoint.
pub proof fn lemma_line_length(line: Line)
    ensures
        line.cell_seq().len() == line.steps() + 1,
        line.y1 == line.y2 ==> line.cell_seq().len() == abs(line.x2 - line.x1) + 1,
        line.x1 == line.x2 ==> line.cell_seq().len() == abs(line.y2 - line.y1) + 1,
        line.cell_seq()[0] == (line.x1, line.y1),
        line.cell_seq()[line.steps()] == (line.x2, line.y2),
        forall|k: int|
            0 <= k <= line.steps() && line.y1 == line.y2 ==> #[trigger] line.cell_seq()[k] == (
                toward(line.x1 as int, line.x2 as int, k) as i32,
                line.y1,
            ),
        forall|k: int|
            0 <= k <= line.steps() && line.x1 == line.x2 ==> #[trigger] line.cell_seq()[k] == (
                line.x1,
                toward(line.y1 as int, line.y2 as int, k) as i32,
            ),
{
    let dx = abs(line.x2 - line.x1);
    let dy = abs(line.y2 - line.y1);
    let major = max(dx, dy);
    let minor = min(dx, dy);
    if minor != 0 {
        // First cell: the shorter axis has not advanced.
        lemma_fundamental_div_mod_converse(1 * minor - 1, major, 0, minor - 1);
        // Last cell: the shorter axis has advanced by its whole span.
        assert((major + 1) * minor - 1 == minor * major + (minor - 1)) by (nonlinear_arith);
        lemma_fundamental_div_mod_converse((major + 1) * minor - 1, major, minor, minor - 1);
    }
}

/// The cells of a vertical line are those of its column between its
/// endpoints.
pub proof fn lemma_vertical_line_cells(line: Line, p: Cell)
    requires
        line.x1 == line.x2,
    ensures
        line.cell_seq().contains(p) <==> p.0 == line.x1 && min(line.y1 as int, line.y2 as int)
            <= p.1 <= max(line.y1 as int, line.y2 as int),
{
    let cells = line.cell_seq();
    if cells.contains(p) {
        let k = choose|k: int| 0 <= k < cells.len() && cells[k] == p;
        assert(cells[k] == line.cell_at(k));
    }
    if p.0 == line.x1 && min(line.y1 as int, line.y2 as int) <= p.1 <= max(
        line.y1 as int,
        line.y2 as int,
    ) {
        let k = abs(p.1 - line.y1);
        assert(cells[k] == line.cell_at(k));
    }
}

/// The cells of a horizontal line are those of its row between its
/// endpoints.
pub proof fn lemma_horizontal_line_cells(line: Line, p: Cell)
    requires
        line.y1 == line.y2,
    ensures
        line.cell_seq().contains(p) <==> p.1 == line.y1 && min(line.x1 as int, line.x2 as int)
            <= p.0 <= max(line.x1 as int, line.x2 as int),
{
    let cells = line.cell_seq();
    if cells.contains(p) {
        let k = choose|k: int| 0 <= k < cells.len() && cells[k] == p;
        assert(cells[k] == line.cell_at(k));
    }
    if p.1 == line.y1 && min(line.x1 as int, line.x2 as int) <= p.0 <= max(
        line.x1 as int,
        line.x2 as int,
    ) {
        let k = abs(p.0 - line.x1);
        assert(cells[k] == line.cell_at(k));
    }
}

} // verus!
