//! A stack of 2D affine transforms for hit-testing.
//!
//! A transform maps a point `(x, y)` (milli-units) to
//! `((a*x + b*y)/1000 + tx, (c*x + d*y)/1000 + ty)`: the linear entries are
//! fixed-point with 1000 steps per unit, so the identity has `a == d ==
//! 1000`.  Every operation has an exact contract; the inverse fails
//! explicitly on a degenerate (zero-determinant) transform instead of
//! returning undefined output.

use vstd::prelude::*;

use crate::fixed::div_floor_wide;
use crate::fixed::div_trunc;
use crate::fixed::spec_div_trunc;

verus! {

/// Magnitude cap on the linear entries (a scale of up to a million).
pub const LINEAR_LIMIT: i64 = 1_000_000_000;

/// Magnitude cap on the translation entries.
pub const OFFSET_LIMIT: i64 = 1_000_000_000_000_000;

/// Magnitude cap on points given to the forward transform.
pub const POINT_LIMIT: i64 = 1_000_000_000_000;

/// Magnitude cap on points given to the inverse transform.
pub const INV_INPUT_LIMIT: i64 = 10_000_000_000_000_000;

/// Magnitude cap on coordinates the inverse transform can return.
pub const INV_RESULT_LIMIT: i64 = 1_000_000_000_000_000_000;

/// Why an inverse transform failed.
#[derive(Clone, Copy, Debug, PartialEq, Eq, Structural)]
pub enum TransformError {
    /// The transform's determinant is zero (degenerate scale).
    DegenerateTransform,
    /// The exact solution lies beyond the representable range.
    OutOfRange,
}

/// One affine frame.
#[derive(Clone, Copy, Debug, PartialEq, Eq, Structural)]
pub struct Affine {
    pub a: i64,
    pub b: i64,
    pub c: i64,
    pub d: i64,
    pub tx: i64,
    pub ty: i64,
}

impl Affine {
    pub open spec fn wf(self) -> bool {
        &&& -LINEAR_LIMIT <= self.a <= LINEAR_LIMIT
        &&& -LINEAR_LIMIT <= self.b <= LINEAR_LIMIT
        &&& -LINEAR_LIMIT <= self.c <= LINEAR_LIMIT
        &&& -LINEAR_LIMIT <= self.d <= LINEAR_LIMIT
        &&& -OFFSET_LIMIT <= self.tx <= OFFSET_LIMIT
        &&& -OFFSET_LIMIT <= self.ty <= OFFSET_LIMIT
    }

    /// The identity frame.
    pub open spec fn spec_identity() -> Affine {
        Affine { a: 1000, b: 0, c: 0, d: 1000, tx: 0, ty: 0 }
    }
}

/// The determinant of the linear part (fixed-point squared scale).
pub open spec fn spec_det(m: Affine) -> int {
    m.a * m.d - m.b * m.c
}

/// Where the transform sends a point.
pub open spec fn spec_apply(m: Affine, x: int, y: int) -> (int, int) {
    ((m.a * x + m.b * y) / 1000 + m.tx, (m.c * x + m.d * y) / 1000 + m.ty)
}

/// The (floor-rounded) exact solution of `spec_apply(m, q) == (x, y)`,
/// meaningful when the determinant is nonzero.
pub open spec fn spec_solve(m: Affine, x: int, y: int) -> (int, int) {
    let rx = 1000 * (x - m.tx);
    let ry = 1000 * (y - m.ty);
    let nx = m.d * rx - m.b * ry;
    let ny = m.a * ry - m.c * rx;
    let det = spec_det(m);
    if det > 0 {
        (nx / det, ny / det)
    } else {
        ((-nx) / (-det), (-ny) / (-det))
    }
}

/// Whether the exact inverse solution fits the representable range.
pub open spec fn spec_solve_in_range(m: Affine, x: int, y: int) -> bool {
    &&& -INV_RESULT_LIMIT <= spec_solve(m, x, y).0 <= INV_RESULT_LIMIT
    &&& -INV_RESULT_LIMIT <= spec_solve(m, x, y).1 <= INV_RESULT_LIMIT
}

/// The linear part is a quarter-turn rotation: one of the four exact
/// grid-preserving rotations.
pub open spec fn spec_rigid(m: Affine) -> bool {
    &&& m.a == m.d && m.b == -m.c
    &&& ((m.a == 1000 && m.b == 0) || (m.a == -1000 && m.b == 0) || (m.a == 0 && m.b == 1000) || (
    m.a == 0 && m.b == -1000))
}

/// Computes `(p*u + q*v) / 1000` exactly.
fn lin_combo(p: i64, q: i64, u: i64, v: i64) -> (r: i64)
    requires
        -LINEAR_LIMIT <= p <= LINEAR_LIMIT,
        -LINEAR_LIMIT <= q <= LINEAR_LIMIT,
        -POINT_LIMIT <= u <= POINT_LIMIT,
        -POINT_LIMIT <= v <= POINT_LIMIT,
    ensures
        r == (p * u + q * v) / 1000,
        -2_000_000_000_000_000_000 <= r <= 2_000_000_000_000_000_000,
{
    proof {
        assert((p as int) * (u as int) <= 1_000_000_000_000_000_000_000 && (p as int) * (u as int)
            >= -1_000_000_000_000_000_000_000 && (q as int) * (v as int)
            <= 1_000_000_000_000_000_000_000 && (q as int) * (v as int)
            >= -1_000_000_000_000_000_000_000) by (nonlinear_arith)
            requires
                -LINEAR_LIMIT <= p as int <= LINEAR_LIMIT,
                -LINEAR_LIMIT <= q as int <= LINEAR_LIMIT,
                -POINT_LIMIT <= u as int <= POINT_LIMIT,
                -POINT_LIMIT <= v as int <= POINT_LIMIT,
        ;
    }
    let num: i128 = (p as i128) * (u as i128) + (q as i128) * (v as i128);
    let r = div_floor_wide(num, 1000);
    proof {
        vstd::arithmetic::div_mod::lemma_div_is_ordered(
            -2_000_000_000_000_000_000_000,
            num as int,
            1000,
        );
        vstd::arithmetic::div_mod::lemma_div_is_ordered(
            num as int,
            2_000_000_000_000_000_000_000,
            1000,
        );
        assert(-2_000_000_000_000_000_000_000int / 1000int == -2_000_000_000_000_000_000int);
        assert(2_000_000_000_000_000_000_000int / 1000int == 2_000_000_000_000_000_000int);
    }
    r as i64
}

/// A stack of affine frames; `push` duplicates the top, operations
/// post-multiply the top, `transform` and its inverse use the top.
pub struct TransformStack {
    pub stack: Vec<Affine>,
}

impl TransformStack {
    /// At least the base frame remains, and every frame is bounded.
    pub open spec fn wf(self) -> bool {
        &&& self.stack@.len() >= 1
        &&& forall|i: int| 0 <= i < self.stack@.len() ==> (#[trigger] self.stack@[i]).wf()
    }

    /// The frame all operations act on.
    pub open spec fn top(self) -> Affine {
        self.stack@.last()
    }

    pub open spec fn depth(self) -> int {
        self.stack@.len() as int
    }

    /// A fresh stack holding the identity.
    pub fn new() -> (t: TransformStack)
        ensures
            t.wf(),
            t.depth() == 1,
            t.top() == Affine::spec_identity(),
    {
        let mut stack: Vec<Affine> = Vec::new();
        stack.push(Affine { a: 1000, b: 0, c: 0, d: 1000, tx: 0, ty: 0 });
        TransformStack { stack }
    }

    /// Duplicates the top frame.
    pub fn push(&mut self)
        requires
            old(self).wf(),
        ensures
            final(self).wf(),
            final(self).stack@ == old(self).stack@.push(old(self).top()),
            final(self).top() == old(self).top(),
            final(self).depth() == old(self).depth() + 1,
    {
        let top = self.stack[self.stack.len() - 1];
        self.stack.push(top);
    }

    /// Discards the top frame; the base frame cannot be discarded.
    pub fn pop(&mut self)
        requires
            old(self).wf(),
            old(self).depth() >= 2,
        ensures
            final(self).wf(),
            final(self).stack@ == old(self).stack@.drop_last(),
            final(self).depth() == old(self).depth() - 1,
    {
        let _ = self.stack.pop();
    }

    /// Post-multiplies the top frame by a translation.
    pub fn translate(&mut self, dx: i64, dy: i64)
        requires
            old(self).wf(),
            -POINT_LIMIT <= dx <= POINT_LIMIT,
            -POINT_LIMIT <= dy <= POINT_LIMIT,
            -OFFSET_LIMIT <= old(self).top().tx + (old(self).top().a * dx + old(self).top().b * dy)
                / 1000 <= OFFSET_LIMIT,
            -OFFSET_LIMIT <= old(self).top().ty + (old(self).top().c * dx + old(self).top().d * dy)
                / 1000 <= OFFSET_LIMIT,
        ensures
            final(self).wf(),
            final(self).depth() == old(self).depth(),
            final(self).stack@ == old(self).stack@.update(
                old(self).depth() - 1,
                final(self).top(),
            ),
            final(self).top() == (Affine {
                tx: (old(self).top().tx + (old(self).top().a * dx + old(self).top().b * dy)
                    / 1000) as i64,
                ty: (old(self).top().ty + (old(self).top().c * dx + old(self).top().d * dy)
                    / 1000) as i64,
                ..old(self).top()
            }),
    {
        let n = self.stack.len();
        let m = self.stack[n - 1];
        let ox = lin_combo(m.a, m.b, dx, dy);
        let oy = lin_combo(m.c, m.d, dx, dy);
        self.stack.set(n - 1, Affine { tx: m.tx + ox, ty: m.ty + oy, ..m });
        proof {
            assert(self.stack@.last() == self.stack@[n - 1]);
        }
    }

    /// Post-multiplies the top frame by an axis-aligned scale, given in
    /// fixed-point (1000 is a factor of one).
    pub fn scale(&mut self, sx: i64, sy: i64)
        requires
            old(self).wf(),
            -LINEAR_LIMIT <= sx <= LINEAR_LIMIT,
            -LINEAR_LIMIT <= sy <= LINEAR_LIMIT,
            -LINEAR_LIMIT <= (old(self).top().a * sx) / 1000 <= LINEAR_LIMIT,
            -LINEAR_LIMIT <= (old(self).top().b * sy) / 1000 <= LINEAR_LIMIT,
            -LINEAR_LIMIT <= (old(self).top().c * sx) / 1000 <= LINEAR_LIMIT,
            -LINEAR_LIMIT <= (old(self).top().d * sy) / 1000 <= LINEAR_LIMIT,
        ensures
            final(self).wf(),
            final(self).depth() == old(self).depth(),
            final(self).stack@ == old(self).stack@.update(
                old(self).depth() - 1,
                final(self).top(),
            ),
            final(self).top() == (Affine {
                a: ((old(self).top().a * sx) / 1000) as i64,
                b: ((old(self).top().b * sy) / 1000) as i64,
                c: ((old(self).top().c * sx) / 1000) as i64,
                d: ((old(self).top().d * sy) / 1000) as i64,
                ..old(self).top()
            }),
    {
        let n = self.stack.len();
        let m = self.stack[n - 1];
        let na = scaled_entry(m.a, sx);
        let nb = scaled_entry(m.b, sy);
        let nc = scaled_entry(m.c, sx);
        let nd = scaled_entry(m.d, sy);
        self.stack.set(n - 1, Affine { a: na, b: nb, c: nc, d: nd, ..m });
        proof {
            assert(self.stack@.last() == self.stack@[n - 1]);
        }
    }

    /// Post-multiplies the top frame by a rotation given by its fixed-point
    /// cosine and sine (1000 is one).  Quarter turns — `(0, 1000)`,
    /// `(-1000, 0)`, `(0, -1000)` — are exact.
    pub fn rotate(&mut self, cos_m: i64, sin_m: i64)
        requires
            old(self).wf(),
            -1000 <= cos_m <= 1000,
            -1000 <= sin_m <= 1000,
            -LINEAR_LIMIT <= (old(self).top().a * cos_m + old(self).top().b * sin_m) / 1000
                <= LINEAR_LIMIT,
            -LINEAR_LIMIT <= (-(old(self).top().a * sin_m) + old(self).top().b * cos_m) / 1000
                <= LINEAR_LIMIT,
            -LINEAR_LIMIT <= (old(self).top().c * cos_m + old(self).top().d * sin_m) / 1000
                <= LINEAR_LIMIT,
            -LINEAR_LIMIT <= (-(old(self).top().c * sin_m) + old(self).top().d * cos_m) / 1000
                <= LINEAR_LIMIT,
        ensures
            final(self).wf(),
            final(self).depth() == old(self).depth(),
            final(self).stack@ == old(self).stack@.update(
                old(self).depth() - 1,
                final(self).top(),
            ),
            final(self).top() == (Affine {
                a: ((old(self).top().a * cos_m + old(self).top().b * sin_m) / 1000) as i64,
                b: ((-(old(self).top().a * sin_m) + old(self).top().b * cos_m) / 1000) as i64,
                c: ((old(self).top().c * cos_m + old(self).top().d * sin_m) / 1000) as i64,
                d: ((-(old(self).top().c * sin_m) + old(self).top().d * cos_m) / 1000) as i64,
                ..old(self).top()
            }),
    {
        let n = self.stack.len();
        let m = self.stack[n - 1];
        let na = lin_combo(m.a, m.b, cos_m, sin_m);
        let nb = lin_combo(m.a, m.b, -sin_m, cos_m);
        let nc = lin_combo(m.c, m.d, cos_m, sin_m);
        let nd = lin_combo(m.c, m.d, -sin_m, cos_m);
        proof {
            assert(m.a * -sin_m + m.b * cos_m == -(m.a * sin_m) + m.b * cos_m) by (nonlinear_arith);
            assert(m.c * -sin_m + m.d * cos_m == -(m.c * sin_m) + m.d * cos_m) by (nonlinear_arith);
        }
        self.stack.set(n - 1, Affine { a: na, b: nb, c: nc, d: nd, ..m });
        proof {
            assert(self.stack@.last() == self.stack@[n - 1]);
        }
    }

    /// Applies the top frame to a point.
    pub fn transform(&self, x: i64, y: i64) -> (r: (i64, i64))
        requires
            self.wf(),
            -POINT_LIMIT <= x <= POINT_LIMIT,
            -POINT_LIMIT <= y <= POINT_LIMIT,
        ensures
            (r.0 as int, r.1 as int) == spec_apply(self.top(), x as int, y as int),
            -2_001_000_000_000_000_000 <= r.0 <= 2_001_000_000_000_000_000,
            -2_001_000_000_000_000_000 <= r.1 <= 2_001_000_000_000_000_000,
    {
        let n = self.stack.len();
        let m = self.stack[n - 1];
        let px = lin_combo(m.a, m.b, x, y);
        let py = lin_combo(m.c, m.d, x, y);
        (px + m.tx, py + m.ty)
    }

    /// Applies the top frame and rounds to whole units toward zero, as a
    /// cast to an integer pixel coordinate rounds.
    pub fn transform_int(&self, x: i64, y: i64) -> (r: (i64, i64))
        requires
            self.wf(),
            -POINT_LIMIT <= x <= POINT_LIMIT,
            -POINT_LIMIT <= y <= POINT_LIMIT,
        ensures
            r.0 as int == spec_div_trunc(spec_apply(self.top(), x as int, y as int).0, 1000),
            r.1 as int == spec_div_trunc(spec_apply(self.top(), x as int, y as int).1, 1000),
    {
        let (px, py) = self.transform(x, y);
        (div_trunc(px, 1000), div_trunc(py, 1000))
    }

    /// Maps a point back through the top frame.  Fails explicitly when the
    /// transform is degenerate (zero determinant) or the exact solution is
    /// out of range.
    pub fn inv_transform(&self, x: i64, y: i64) -> (r: Result<(i64, i64), TransformError>)
        requires
            self.wf(),
            -INV_INPUT_LIMIT <= x <= INV_INPUT_LIMIT,
            -INV_INPUT_LIMIT <= y <= INV_INPUT_LIMIT,
        ensures
            match r {
                Ok(q) => {
                    &&& spec_det(self.top()) != 0
                    &&& spec_solve_in_range(self.top(), x as int, y as int)
                    &&& (q.0 as int, q.1 as int) == spec_solve(self.top(), x as int, y as int)
                },
                Err(TransformError::DegenerateTransform) => spec_det(self.top()) == 0,
                Err(TransformError::OutOfRange) => spec_det(self.top()) != 0
                    && !spec_solve_in_range(self.top(), x as int, y as int),
            },
    {
        let n = self.stack.len();
        let m = self.stack[n - 1];
        proof {
            assert(m.a * m.d <= 1_000_000_000_000_000_000 && m.a * m.d
                >= -1_000_000_000_000_000_000 && m.b * m.c <= 1_000_000_000_000_000_000 && m.b
                * m.c >= -1_000_000_000_000_000_000) by (nonlinear_arith)
                requires
                    -LINEAR_LIMIT <= m.a as int <= LINEAR_LIMIT,
                    -LINEAR_LIMIT <= m.b as int <= LINEAR_LIMIT,
                    -LINEAR_LIMIT <= m.c as int <= LINEAR_LIMIT,
                    -LINEAR_LIMIT <= m.d as int <= LINEAR_LIMIT,
            ;
        }
        let det: i128 = (m.a as i128) * (m.d as i128) - (m.b as i128) * (m.c as i128);
        if det == 0 {
            return Err(TransformError::DegenerateTransform);
        }
        let rx: i128 = 1000 * ((x as i128) - (m.tx as i128));
        let ry: i128 = 1000 * ((y as i128) - (m.ty as i128));
        proof {
            assert forall|p: int, r2: int|
                -LINEAR_LIMIT <= p <= LINEAR_LIMIT && -11_000_000_000_000_000_000 <= r2
                    <= 11_000_000_000_000_000_000 implies -11_000_000_000_000_000_000_000_000_000
                <= #[trigger] (p * r2) <= 11_000_000_000_000_000_000_000_000_000 by {
                assert(-11_000_000_000_000_000_000_000_000_000 <= p * r2
                    <= 11_000_000_000_000_000_000_000_000_000) by (nonlinear_arith)
                    requires
                        -1_000_000_000 <= p <= 1_000_000_000,
                        -11_000_000_000_000_000_000 <= r2 <= 11_000_000_000_000_000_000,
                ;
            }
        }
        let nx: i128 = (m.d as i128) * rx - (m.b as i128) * ry;
        let ny: i128 = (m.a as i128) * ry - (m.c as i128) * rx;
        let (pn, pd): (i128, i128) = if det > 0 {
            (nx, det)
        } else {
            (-nx, -det)
        };
        let qx = div_floor_wide(pn, pd);
        let (pn2, pd2): (i128, i128) = if det > 0 {
            (ny, det)
        } else {
            (-ny, -det)
        };
        let qy = div_floor_wide(pn2, pd2);
        if qx < -INV_RESULT_LIMIT as i128 || qx > INV_RESULT_LIMIT as i128 || qy
            < -INV_RESULT_LIMIT as i128 || qy > INV_RESULT_LIMIT as i128 {
            return Err(TransformError::OutOfRange);
        }
        Ok((qx as i64, qy as i64))
    }

    /// The inverse transform rounded to whole units toward zero.
    pub fn inv_transform_int(&self, x: i64, y: i64) -> (r: Result<(i64, i64), TransformError>)
        requires
            self.wf(),
            -INV_INPUT_LIMIT <= x <= INV_INPUT_LIMIT,
            -INV_INPUT_LIMIT <= y <= INV_INPUT_LIMIT,
        ensures
            match r {
                Ok(q) => {
                    &&& spec_det(self.top()) != 0
                    &&& spec_solve_in_range(self.top(), x as int, y as int)
                    &&& q.0 as int == spec_div_trunc(
                        spec_solve(self.top(), x as int, y as int).0,
                        1000,
                    )
                    &&& q.1 as int == spec_div_trunc(
                        spec_solve(self.top(), x as int, y as int).1,
                        1000,
                    )
                },
                Err(TransformError::DegenerateTransform) => spec_det(self.top()) == 0,
                Err(TransformError::OutOfRange) => spec_det(self.top()) != 0
                    && !spec_solve_in_range(self.top(), x as int, y as int),
            },
    {
        match self.inv_transform(x, y) {
            Ok(q) => {
                assert(q.0 > i64::MIN && q.1 > i64::MIN);
                Ok((div_trunc(q.0, 1000), div_trunc(q.1, 1000)))
            },
            Err(e) => Err(e),
        }
    }
}

impl Default for TransformStack {
    /// The same stack `new` builds.
    fn default() -> (t: Self)
        ensures
            t.wf(),
            t.depth() == 1,
            t.top() == Affine::spec_identity(),
    {
        TransformStack::new()
    }
}

/// Computes `(p*f) / 1000` exactly.
fn scaled_entry(p: i64, f: i64) -> (r: i64)
    requires
        -LINEAR_LIMIT <= p <= LINEAR_LIMIT,
        -LINEAR_LIMIT <= f <= LINEAR_LIMIT,
    ensures
        r == (p * f) / 1000,
        -1_000_000_000_000_000 <= r <= 1_000_000_000_000_000,
{
    proof {
        assert((p as int) * (f as int) <= 1_000_000_000_000_000_000 && (p as int) * (f as int)
            >= -1_000_000_000_000_000_000) by (nonlinear_arith)
            requires
                -LINEAR_LIMIT <= p as int <= LINEAR_LIMIT,
                -LINEAR_LIMIT <= f as int <= LINEAR_LIMIT,
        ;
    }
    let num: i128 = (p as i128) * (f as i128);
    let r = div_floor_wide(num, 1000);
    proof {
        vstd::arithmetic::div_mod::lemma_div_is_ordered(
            -1_000_000_000_000_000_000,
            num as int,
            1000,
        );
        vstd::arithmetic::div_mod::lemma_div_is_ordered(num as int, 1_000_000_000_000_000_000, 1000);
        assert(-1_000_000_000_000_000_000int / 1000int == -1_000_000_000_000_000int);
        assert(1_000_000_000_000_000_000int / 1000int == 1_000_000_000_000_000int);
    }
    r as i64
}


/// Euclidean division is unchanged by a positive common factor.
proof fn lemma_div_common_factor(c: int, a: int, b: int)
    requires
        c > 0,
        b > 0,
    ensures
        (c * a) / (c * b) == a / b,
{
    let q = a / b;
    let r = a % b;
    vstd::arithmetic::div_mod::lemma_fundamental_div_mod(a, b);
    vstd::arithmetic::div_mod::lemma_mod_bound(a, b);
    assert(c * a == (c * b) * q + c * r && 0 <= c * r < c * b) by (nonlinear_arith)
        requires
            c > 0,
            b > 0,
            a == b * q + r,
            0 <= r < b,
    ;
    vstd::arithmetic::div_mod::lemma_fundamental_div_mod_converse(c * a, c * b, q, c * r);
}

/// For a frame that only scales by positive factors and translates, the
/// inverse comes back to within one scaled grid step of the original
/// point: the error on each axis, multiplied by that axis's scale entry,
/// stays below the entry plus one grid unit.  A scale entry of `a` bounds
/// the x error below `(a + 1000) / a` milli-units — under a thousandth of
/// a unit per unit of scale, and at most one unit once `a >= 1000`.
pub proof fn lemma_scaled_round_trip_tolerance(m: Affine, x: int, y: int)
    requires
        m.wf(),
        m.b == 0,
        m.c == 0,
        1 <= m.a,
        1 <= m.d,
        -POINT_LIMIT <= x <= POINT_LIMIT,
        -POINT_LIMIT <= y <= POINT_LIMIT,
    ensures
        spec_det(m) > 0,
        spec_solve_in_range(m, spec_apply(m, x, y).0, spec_apply(m, x, y).1),
        0 <= x - spec_solve(m, spec_apply(m, x, y).0, spec_apply(m, x, y).1).0,
        m.a * (x - spec_solve(m, spec_apply(m, x, y).0, spec_apply(m, x, y).1).0) < m.a + 1000,
        0 <= y - spec_solve(m, spec_apply(m, x, y).0, spec_apply(m, x, y).1).1,
        m.d * (y - spec_solve(m, spec_apply(m, x, y).0, spec_apply(m, x, y).1).1) < m.d + 1000,
{
    let fx = spec_apply(m, x, y).0;
    let fy = spec_apply(m, x, y).1;
    assert(m.b * y == 0 && m.c * x == 0) by (nonlinear_arith)
        requires
            m.b == 0,
            m.c == 0,
    ;
    let mx = (m.a * x) / 1000;
    let r1 = (m.a * x) % 1000;
    let my = (m.d * y) / 1000;
    let s1 = (m.d * y) % 1000;
    vstd::arithmetic::div_mod::lemma_fundamental_div_mod(m.a * x, 1000);
    vstd::arithmetic::div_mod::lemma_mod_bound(m.a * x, 1000);
    vstd::arithmetic::div_mod::lemma_fundamental_div_mod(m.d * y, 1000);
    vstd::arithmetic::div_mod::lemma_mod_bound(m.d * y, 1000);
    assert(fx == mx + m.tx && fy == my + m.ty);
    let rx = 1000 * (fx - m.tx);
    let ry = 1000 * (fy - m.ty);
    assert(rx == 1000 * mx && ry == 1000 * my);
    assert(spec_det(m) == m.a * m.d && m.a * m.d > 0) by (nonlinear_arith)
        requires
            m.b == 0,
            m.c == 0,
            1 <= m.a,
            1 <= m.d,
    ;
    let nx = m.d * rx - m.b * ry;
    let ny = m.a * ry - m.c * rx;
    assert(m.b * ry == 0 && m.c * rx == 0) by (nonlinear_arith)
        requires
            m.b == 0,
            m.c == 0,
    ;
    assert(nx == m.d * (1000 * mx) && ny == m.a * (1000 * my)) by (nonlinear_arith)
        requires
            nx == m.d * rx,
            ny == m.a * ry,
            rx == 1000 * mx,
            ry == 1000 * my,
    ;
    assert(m.a * m.d == m.d * m.a) by (nonlinear_arith);
    lemma_div_common_factor(m.d as int, 1000 * mx, m.a as int);
    assert(nx / spec_det(m) == (1000 * mx) / (m.a as int));
    lemma_div_common_factor(m.a as int, 1000 * my, m.d as int);
    assert(ny / spec_det(m) == (1000 * my) / (m.d as int));
    let qx = spec_solve(m, fx, fy).0;
    let qy = spec_solve(m, fx, fy).1;
    assert(qx == (1000 * mx) / (m.a as int) && qy == (1000 * my) / (m.d as int));
    assert(1000 * mx == m.a * x - r1 && 1000 * my == m.d * y - s1);

    let q2 = (m.a * x - r1) / (m.a as int);
    let r2 = (m.a * x - r1) % (m.a as int);
    vstd::arithmetic::div_mod::lemma_fundamental_div_mod(m.a * x - r1, m.a as int);
    vstd::arithmetic::div_mod::lemma_mod_bound(m.a * x - r1, m.a as int);
    assert(m.a * (x - q2) == r1 + r2) by (nonlinear_arith)
        requires
            m.a * x - r1 == m.a * q2 + r2,
    ;
    assert(0 <= x - q2 && x - q2 <= 1001) by (nonlinear_arith)
        requires
            m.a * (x - q2) == r1 + r2,
            0 <= r1 < 1000,
            0 <= r2 < m.a,
            m.a >= 1,
    ;

    let q3 = (m.d * y - s1) / (m.d as int);
    let s2 = (m.d * y - s1) % (m.d as int);
    vstd::arithmetic::div_mod::lemma_fundamental_div_mod(m.d * y - s1, m.d as int);
    vstd::arithmetic::div_mod::lemma_mod_bound(m.d * y - s1, m.d as int);
    assert(m.d * (y - q3) == s1 + s2) by (nonlinear_arith)
        requires
            m.d * y - s1 == m.d * q3 + s2,
    ;
    assert(0 <= y - q3 && y - q3 <= 1001) by (nonlinear_arith)
        requires
            m.d * (y - q3) == s1 + s2,
            0 <= s1 < 1000,
            0 <= s2 < m.d,
            m.d >= 1,
    ;
}

/// For any frame whose linear part is an exact quarter-turn rotation (any
/// composition of pushes, translations and quarter-turn rotations), the
/// inverse transform undoes the forward transform exactly.
pub proof fn lemma_rigid_round_trip(m: Affine, x: int, y: int)
    requires
        m.wf(),
        spec_rigid(m),
        -POINT_LIMIT <= x <= POINT_LIMIT,
        -POINT_LIMIT <= y <= POINT_LIMIT,
    ensures
        spec_det(m) != 0,
        spec_solve(m, spec_apply(m, x, y).0, spec_apply(m, x, y).1) == (x, y),
        spec_solve_in_range(m, spec_apply(m, x, y).0, spec_apply(m, x, y).1),
{
    let fx = spec_apply(m, x, y).0;
    let fy = spec_apply(m, x, y).1;
    if m.a == 1000 && m.b == 0 {
        assert(m.a * x + m.b * y == 1000 * (x) && m.c * x + m.d * y == 1000 * (y)
            && spec_det(m) == 1_000_000) by (nonlinear_arith)
            requires
                m.a == 1000,
                m.b == 0,
                m.c == 0,
                m.d == 1000,
        ;
        vstd::arithmetic::div_mod::lemma_div_multiples_vanish(x, 1000);
        vstd::arithmetic::div_mod::lemma_div_multiples_vanish(y, 1000);
        assert(fx == x + m.tx && fy == y + m.ty);
        let rx = 1000 * (fx - m.tx);
        let ry = 1000 * (fy - m.ty);
        assert(rx == 1000 * (x) && ry == 1000 * (y));
        assert(m.d * rx - m.b * ry == 1_000_000 * x && m.a * ry - m.c * rx == 1_000_000 * y)
            by (nonlinear_arith)
            requires
                m.a == 1000,
                m.b == 0,
                m.c == 0,
                m.d == 1000,
                rx == 1000 * (x),
                ry == 1000 * (y),
        ;
        vstd::arithmetic::div_mod::lemma_div_multiples_vanish(x, 1_000_000);
        vstd::arithmetic::div_mod::lemma_div_multiples_vanish(y, 1_000_000);
    }    else if m.a == -1000 && m.b == 0 {
        assert(m.a * x + m.b * y == 1000 * (-x) && m.c * x + m.d * y == 1000 * (-y)
            && spec_det(m) == 1_000_000) by (nonlinear_arith)
            requires
                m.a == -1000,
                m.b == 0,
                m.c == 0,
                m.d == -1000,
        ;
        vstd::arithmetic::div_mod::lemma_div_multiples_vanish(-x, 1000);
        vstd::arithmetic::div_mod::lemma_div_multiples_vanish(-y, 1000);
        assert(fx == -x + m.tx && fy == -y + m.ty);
        let rx = 1000 * (fx - m.tx);
        let ry = 1000 * (fy - m.ty);
        assert(rx == 1000 * (-x) && ry == 1000 * (-y));
        assert(m.d * rx - m.b * ry == 1_000_000 * x && m.a * ry - m.c * rx == 1_000_000 * y)
            by (nonlinear_arith)
            requires
                m.a == -1000,
                m.b == 0,
                m.c == 0,
                m.d == -1000,
                rx == 1000 * (-x),
                ry == 1000 * (-y),
        ;
        vstd::arithmetic::div_mod::lemma_div_multiples_vanish(x, 1_000_000);
        vstd::arithmetic::div_mod::lemma_div_multiples_vanish(y, 1_000_000);
    }    else if m.a == 0 && m.b == 1000 {
        assert(m.a * x + m.b * y == 1000 * (y) && m.c * x + m.d * y == 1000 * (-x)
            && spec_det(m) == 1_000_000) by (nonlinear_arith)
            requires
                m.a == 0,
                m.b == 1000,
                m.c == -1000,
                m.d == 0,
        ;
        vstd::arithmetic::div_mod::lemma_div_multiples_vanish(y, 1000);
        vstd::arithmetic::div_mod::lemma_div_multiples_vanish(-x, 1000);
        assert(fx == y + m.tx && fy == -x + m.ty);
        let rx = 1000 * (fx - m.tx);
        let ry = 1000 * (fy - m.ty);
        assert(rx == 1000 * (y) && ry == 1000 * (-x));
        assert(m.d * rx - m.b * ry == 1_000_000 * x && m.a * ry - m.c * rx == 1_000_000 * y)
            by (nonlinear_arith)
            requires
                m.a == 0,
                m.b == 1000,
                m.c == -1000,
                m.d == 0,
                rx == 1000 * (y),
                ry == 1000 * (-x),
        ;
        vstd::arithmetic::div_mod::lemma_div_multiples_vanish(x, 1_000_000);
        vstd::arithmetic::div_mod::lemma_div_multiples_vanish(y, 1_000_000);
    }    else {
        assert(m.a * x + m.b * y == 1000 * (-y) && m.c * x + m.d * y == 1000 * (x)
            && spec_det(m) == 1_000_000) by (nonlinear_arith)
            requires
                m.a == 0,
                m.b == -1000,
                m.c == 1000,
                m.d == 0,
        ;
        vstd::arithmetic::div_mod::lemma_div_multiples_vanish(-y, 1000);
        vstd::arithmetic::div_mod::lemma_div_multiples_vanish(x, 1000);
        assert(fx == -y + m.tx && fy == x + m.ty);
        let rx = 1000 * (fx - m.tx);
        let ry = 1000 * (fy - m.ty);
        assert(rx == 1000 * (-y) && ry == 1000 * (x));
        assert(m.d * rx - m.b * ry == 1_000_000 * x && m.a * ry - m.c * rx == 1_000_000 * y)
            by (nonlinear_arith)
            requires
                m.a == 0,
                m.b == -1000,
                m.c == 1000,
                m.d == 0,
                rx == 1000 * (-y),
                ry == 1000 * (x),
        ;
        vstd::arithmetic::div_mod::lemma_div_multiples_vanish(x, 1_000_000);
        vstd::arithmetic::div_mod::lemma_div_multiples_vanish(y, 1_000_000);
    }
}

} // verus!
