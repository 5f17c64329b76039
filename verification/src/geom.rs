//! Axis-aligned rectangles in milli-unit coordinates.
//!
//! The y axis grows downward, as in the render coordinate convention: `y` is
//! the top edge and `y + h` the bottom edge.  Edge contact counts as overlap
//! and as containment, matching the usual inclusive rectangle tests of 2D
//! drawing toolkits.

use vstd::prelude::*;

use crate::fixed::div_floor;

verus! {

/// Magnitude cap on rectangle fields accepted by the operations here.
/// Generous enough for any map geometry while keeping all sums in `i64`.
pub const RECT_LIMIT: i64 = 0x1000_0000_0000_0000;

#[derive(Clone, Copy, Debug, PartialEq, Eq, Structural)]
pub struct Rect {
    pub x: i64,
    pub y: i64,
    pub w: i64,
    pub h: i64,
}

impl Rect {
    /// Fields small enough that edge and center arithmetic cannot overflow.
    pub open spec fn bounded(self) -> bool {
        &&& -RECT_LIMIT <= self.x <= RECT_LIMIT
        &&& -RECT_LIMIT <= self.y <= RECT_LIMIT
        &&& 0 <= self.w <= RECT_LIMIT
        &&& 0 <= self.h <= RECT_LIMIT
    }

    pub fn new(x: i64, y: i64, w: i64, h: i64) -> (r: Rect)
        ensures
            r == (Rect { x, y, w, h }),
    {
        Rect { x, y, w, h }
    }

    /// Grows the rectangle by `amount` on every side.
    pub fn inflate(&self, amount: i64) -> (r: Rect)
        requires
            self.bounded(),
            0 <= amount <= RECT_LIMIT,
        ensures
            r.x == self.x - amount,
            r.y == self.y - amount,
            r.w == self.w + 2 * amount,
            r.h == self.h + 2 * amount,
    {
        Rect { x: self.x - amount, y: self.y - amount, w: self.w + 2 * amount, h: self.h + 2 * amount }
    }

    /// Moves the rectangle by `(dx, dy)`.
    pub fn translate(&self, dx: i64, dy: i64) -> (r: Rect)
        requires
            self.bounded(),
            -RECT_LIMIT <= dx <= RECT_LIMIT,
            -RECT_LIMIT <= dy <= RECT_LIMIT,
        ensures
            r == (Rect { x: (self.x + dx) as i64, y: (self.y + dy) as i64, w: self.w, h: self.h }),
    {
        Rect { x: self.x + dx, y: self.y + dy, w: self.w, h: self.h }
    }

    pub open spec fn spec_left(self) -> int {
        self.x as int
    }

    pub open spec fn spec_right(self) -> int {
        self.x + self.w
    }

    pub open spec fn spec_top(self) -> int {
        self.y as int
    }

    pub open spec fn spec_bottom(self) -> int {
        self.y + self.h
    }

    pub fn left(&self) -> (v: i64)
        ensures
            v == self.spec_left(),
    {
        self.x
    }

    pub fn right(&self) -> (v: i64)
        requires
            self.bounded(),
        ensures
            v == self.spec_right(),
    {
        self.x + self.w
    }

    pub fn top(&self) -> (v: i64)
        ensures
            v == self.spec_top(),
    {
        self.y
    }

    pub fn bottom(&self) -> (v: i64)
        requires
            self.bounded(),
        ensures
            v == self.spec_bottom(),
    {
        self.y + self.h
    }

    /// The center, rounded down to the milli-unit grid on each axis.
    pub open spec fn spec_center(self) -> (int, int) {
        (self.x + self.w / 2, self.y + self.h / 2)
    }

    pub fn center(&self) -> (c: (i64, i64))
        requires
            self.bounded(),
        ensures
            (c.0 as int, c.1 as int) == self.spec_center(),
            self.x <= c.0 <= self.spec_right(),
            self.y <= c.1 <= self.spec_bottom(),
    {
        proof {
            vstd::arithmetic::div_mod::lemma_div_pos_is_pos(self.w as int, 2);
            vstd::arithmetic::div_mod::lemma_div_nonincreasing(self.w as int, 2);
            vstd::arithmetic::div_mod::lemma_div_pos_is_pos(self.h as int, 2);
            vstd::arithmetic::div_mod::lemma_div_nonincreasing(self.h as int, 2);
        }
        let hw = div_floor(self.w, 2);
        let hh = div_floor(self.h, 2);
        (self.x + hw, self.y + hh)
    }

    /// Inclusive intersection test: touching edges count as overlapping.
    pub open spec fn spec_overlaps(self, other: Rect) -> bool {
        &&& self.spec_left() <= other.spec_right()
        &&& other.spec_left() <= self.spec_right()
        &&& self.spec_top() <= other.spec_bottom()
        &&& other.spec_top() <= self.spec_bottom()
    }

    pub fn overlaps(&self, other: &Rect) -> (b: bool)
        requires
            self.bounded(),
            other.bounded(),
        ensures
            b == self.spec_overlaps(*other),
    {
        self.x <= other.x + other.w && other.x <= self.x + self.w && self.y <= other.y + other.h
            && other.y <= self.y + self.h
    }

    /// Inclusive point containment.
    pub open spec fn spec_contains(self, px: int, py: int) -> bool {
        &&& self.spec_left() <= px <= self.spec_right()
        &&& self.spec_top() <= py <= self.spec_bottom()
    }

    pub fn contains(&self, px: i64, py: i64) -> (b: bool)
        requires
            self.bounded(),
        ensures
            b == self.spec_contains(px as int, py as int),
    {
        self.x <= px && px <= self.x + self.w && self.y <= py && py <= self.y + self.h
    }

    /// The intersection rectangle of two overlapping rectangles.
    pub fn intersection(&self, other: &Rect) -> (r: Rect)
        requires
            self.bounded(),
            other.bounded(),
            self.spec_overlaps(*other),
        ensures
            r.spec_left() == if self.spec_left() >= other.spec_left() {
                self.spec_left()
            } else {
                other.spec_left()
            },
            r.spec_top() == if self.spec_top() >= other.spec_top() {
                self.spec_top()
            } else {
                other.spec_top()
            },
            r.spec_right() == if self.spec_right() <= other.spec_right() {
                self.spec_right()
            } else {
                other.spec_right()
            },
            r.spec_bottom() == if self.spec_bottom() <= other.spec_bottom() {
                self.spec_bottom()
            } else {
                other.spec_bottom()
            },
            r.w >= 0 && r.h >= 0,
            r.bounded(),
    {
        let lx = if self.x >= other.x { self.x } else { other.x };
        let ty = if self.y >= other.y { self.y } else { other.y };
        let r1 = self.x + self.w;
        let r2 = other.x + other.w;
        let rx = if r1 <= r2 { r1 } else { r2 };
        let b1 = self.y + self.h;
        let b2 = other.y + other.h;
        let by = if b1 <= b2 { b1 } else { b2 };
        Rect { x: lx, y: ty, w: rx - lx, h: by - ty }
    }
}

} // verus!
