//! Fixed-point scalar helpers.
//!
//! Coordinates are stored in milli-units: 1000 fixed-point steps per unit of
//! the game's coordinate space.  Dimensionless factors (relaxation strengths,
//! the rough factor) are stored in parts per million.  Two roundings appear:
//! floor division, which for positive divisors is the mathematical integer
//! division `int` uses, and truncating division, which rounds as a cast to
//! an integer does; every helper has an exact contract.

use vstd::prelude::*;

verus! {

/// Fixed-point steps per coordinate unit.
pub const MILLI: i64 = 1000;

/// Parts-per-million denominator for dimensionless factors.
pub const PPM: i64 = 1_000_000;

/// Floor division of a 64-bit value by a positive divisor.
pub fn div_floor(x: i64, d: i64) -> (q: i64)
    requires
        d >= 1,
        x > i64::MIN,
    ensures
        q == x as int / d as int,
{
    if x >= 0 {
        let q = (x as u64) / (d as u64);
        proof {
            vstd::arithmetic::div_mod::lemma_div_nonincreasing(x as int, d as int);
            vstd::arithmetic::div_mod::lemma_div_pos_is_pos(x as int, d as int);
        }
        q as i64
    } else {
        let n = (-x) as u64;
        let du = d as u64;
        let q = n / du;
        let r = n % du;
        proof {
            vstd::arithmetic::div_mod::lemma_div_nonincreasing(n as int, d as int);
            vstd::arithmetic::div_mod::lemma_div_pos_is_pos(n as int, d as int);
        }
        if r == 0 {
            assert((x as int / d as int) == -(q as int)) by {
                let xi = x as int;
                let di = d as int;
                let qi = q as int;
                assert(n as int == di * qi) by {
                    vstd::arithmetic::div_mod::lemma_fundamental_div_mod(n as int, di);
                }
                assert(-qi * di == -(di * qi)) by (nonlinear_arith);
                vstd::arithmetic::div_mod::lemma_fundamental_div_mod_converse(xi, di, -qi, 0);
            }
            -(q as i64)
        } else {
            assert((x as int / d as int) == -(q as int) - 1) by {
                let xi = x as int;
                let di = d as int;
                let qi = q as int;
                let ri = r as int;
                assert(n as int == -xi);
                assert(n as int == di * qi + ri && 0 <= ri < di) by {
                    vstd::arithmetic::div_mod::lemma_fundamental_div_mod(n as int, di);
                    vstd::arithmetic::div_mod::lemma_mod_bound(n as int, di);
                }
                assert((-qi - 1) * di + (di - ri) == -(di * qi) - ri) by (nonlinear_arith);
                assert(xi == (-qi - 1) * di + (di - ri));
                vstd::arithmetic::div_mod::lemma_fundamental_div_mod_converse(
                    xi,
                    di,
                    -qi - 1,
                    di - ri,
                );
            }
            -(q as i64) - 1
        }
    }
}

/// Floor division of a 128-bit value by a positive divisor.
pub fn div_floor_wide(x: i128, d: i128) -> (q: i128)
    requires
        d >= 1,
        x > i128::MIN,
    ensures
        q == x as int / d as int,
{
    if x >= 0 {
        let q = (x as u128) / (d as u128);
        proof {
            vstd::arithmetic::div_mod::lemma_div_nonincreasing(x as int, d as int);
            vstd::arithmetic::div_mod::lemma_div_pos_is_pos(x as int, d as int);
        }
        q as i128
    } else {
        let n = (-x) as u128;
        let du = d as u128;
        let q = n / du;
        let r = n % du;
        proof {
            vstd::arithmetic::div_mod::lemma_div_nonincreasing(n as int, d as int);
            vstd::arithmetic::div_mod::lemma_div_pos_is_pos(n as int, d as int);
        }
        if r == 0 {
            assert((x as int / d as int) == -(q as int)) by {
                let xi = x as int;
                let di = d as int;
                let qi = q as int;
                assert(n as int == di * qi) by {
                    vstd::arithmetic::div_mod::lemma_fundamental_div_mod(n as int, di);
                }
                assert(-qi * di == -(di * qi)) by (nonlinear_arith);
                vstd::arithmetic::div_mod::lemma_fundamental_div_mod_converse(xi, di, -qi, 0);
            }
            -(q as i128)
        } else {
            assert((x as int / d as int) == -(q as int) - 1) by {
                let xi = x as int;
                let di = d as int;
                let qi = q as int;
                let ri = r as int;
                assert(n as int == -xi);
                assert(n as int == di * qi + ri && 0 <= ri < di) by {
                    vstd::arithmetic::div_mod::lemma_fundamental_div_mod(n as int, di);
                    vstd::arithmetic::div_mod::lemma_mod_bound(n as int, di);
                }
                assert((-qi - 1) * di + (di - ri) == -(di * qi) - ri) by (nonlinear_arith);
                assert(xi == (-qi - 1) * di + (di - ri));
                vstd::arithmetic::div_mod::lemma_fundamental_div_mod_converse(
                    xi,
                    di,
                    -qi - 1,
                    di - ri,
                );
            }
            -(q as i128) - 1
        }
    }
}


/// Division rounding toward zero, as a float-to-integer cast rounds.
pub open spec fn spec_div_trunc(x: int, d: int) -> int {
    if x >= 0 {
        x / d
    } else {
        -((-x) / d)
    }
}

/// Truncating division of a 64-bit value by a positive divisor.
pub fn div_trunc(x: i64, d: i64) -> (q: i64)
    requires
        d >= 1,
        x > i64::MIN,
    ensures
        q == spec_div_trunc(x as int, d as int),
{
    if x >= 0 {
        let q = (x as u64) / (d as u64);
        proof {
            vstd::arithmetic::div_mod::lemma_div_nonincreasing(x as int, d as int);
            vstd::arithmetic::div_mod::lemma_div_pos_is_pos(x as int, d as int);
        }
        q as i64
    } else {
        let n = (-x) as u64;
        let q = n / (d as u64);
        proof {
            vstd::arithmetic::div_mod::lemma_div_nonincreasing(n as int, d as int);
            vstd::arithmetic::div_mod::lemma_div_pos_is_pos(n as int, d as int);
        }
        -(q as i64)
    }
}

/// The mathematical clamp of `x` to `[lo, hi]`.
pub open spec fn spec_clamp(x: int, lo: int, hi: int) -> int {
    if x < lo {
        lo
    } else if x > hi {
        hi
    } else {
        x
    }
}

/// Clamps a 64-bit value to `[lo, hi]`.
pub fn clamp_i64(x: i64, lo: i64, hi: i64) -> (r: i64)
    requires
        lo <= hi,
    ensures
        r == spec_clamp(x as int, lo as int, hi as int),
{
    if x < lo {
        lo
    } else if x > hi {
        hi
    } else {
        x
    }
}

/// Clamps a 128-bit value to a 64-bit interval.
pub fn clamp_wide(x: i128, lo: i64, hi: i64) -> (r: i64)
    requires
        lo <= hi,
    ensures
        r == spec_clamp(x as int, lo as int, hi as int),
{
    if x < lo as i128 {
        lo
    } else if x > hi as i128 {
        hi
    } else {
        x as i64
    }
}

} // verus!
