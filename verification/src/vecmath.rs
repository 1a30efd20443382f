//! Integer vector types and the small arithmetic helpers the rest of the
//! crate builds on.
//!
//! Block and chunk coordinates are `Vec3i` (whole blocks / whole chunks).
//! Continuous positions and velocities are `Vec3x`: fixed-point values in
//! milli-blocks (one block = `SCALE` = 1000 units), stored as `i64`.
//!
//! In contracts, `/` and `%` are the Euclidean operations of the
//! specification language: for a positive divisor, `/` is floor division and
//! `%` is the nonnegative remainder.

use vstd::prelude::*;
use vstd::arithmetic::div_mod::{lemma_fundamental_div_mod, lemma_fundamental_div_mod_converse};

verus! {

/// One block in fixed-point units.
pub const SCALE: i64 = 1000;

/// A coordinate in whole blocks or whole chunks.
#[derive(Clone, Copy, Debug, PartialEq, Eq, Structural)]
pub struct Vec3i {
    pub x: i32,
    pub y: i32,
    pub z: i32,
}

impl Vec3i {
    pub fn new(x: i32, y: i32, z: i32) -> (r: Vec3i)
        ensures
            r.x == x && r.y == y && r.z == z,
    {
        Vec3i { x, y, z }
    }

    pub fn zero() -> (r: Vec3i)
        ensures
            r.x == 0 && r.y == 0 && r.z == 0,
    {
        Vec3i { x: 0, y: 0, z: 0 }
    }
}

/// A fixed-point vector in milli-blocks.
#[derive(Clone, Copy, Debug, PartialEq, Eq, Structural)]
pub struct Vec3x {
    pub x: i64,
    pub y: i64,
    pub z: i64,
}

impl Vec3x {
    pub fn new(x: i64, y: i64, z: i64) -> (r: Vec3x)
        ensures
            r.x == x && r.y == y && r.z == z,
    {
        Vec3x { x, y, z }
    }

    pub fn zero() -> (r: Vec3x)
        ensures
            r.x == 0 && r.y == 0 && r.z == 0,
    {
        Vec3x { x: 0, y: 0, z: 0 }
    }
}

/// Floor division of an `i64` by a positive divisor: the Euclidean quotient.
pub fn floor_div_i64(a: i64, b: i64) -> (r: i64)
    requires
        b > 0,
        -0x4000_0000_0000_0000 <= a < 0x4000_0000_0000_0000,
    ensures
        r == a as int / b as int,
{
    let q: i64 = a / b;
    let rem: i64 = a % b;
    proof {
        lemma_truncated_to_euclid(a as int, b as int, q as int, rem as int);
    }
    if a < 0 && rem != 0 {
        q - 1
    } else {
        q
    }
}

/// Relates Rust's truncating quotient and remainder to the Euclidean ones of
/// the specification language, for a positive divisor.
proof fn lemma_truncated_to_euclid(a: int, b: int, q: int, rem: int)
    requires
        b > 0,
        a >= 0 ==> q == a / b && rem == a % b,
        a < 0 ==> q == -((-a) / b) && rem == -((-a) % b),
    ensures
        rem == 0 ==> q == a / b && a % b == 0,
        rem > 0 ==> q == a / b && rem == a % b,
        rem < 0 ==> q - 1 == a / b && rem + b == a % b,
{
    if a >= 0 {
    } else {
        let qp = (-a) / b;
        let rp = (-a) % b;
        lemma_fundamental_div_mod(-a, b);
        assert(-a == b * qp + rp);
        assert(a == (-qp) * b + (-rp)) by (nonlinear_arith)
            requires
                -a == b * qp + rp,
        ;
        if rp == 0 {
            lemma_fundamental_div_mod_converse(a, b, -qp, 0);
        } else {
            assert(a == (-qp - 1) * b + (b - rp)) by (nonlinear_arith)
                requires
                    a == (-qp) * b + (-rp),
            ;
            lemma_fundamental_div_mod_converse(a, b, -qp - 1, b - rp);
        }
    }
}

/// Floor division of an `i32` by a positive divisor: the Euclidean quotient.
pub fn floor_div_i32(a: i32, b: i32) -> (r: i32)
    requires
        b > 0,
        -0x4000_0000 <= a < 0x4000_0000,
    ensures
        r == a as int / b as int,
{
    let q: i32 = a / b;
    let rem: i32 = a % b;
    proof {
        lemma_truncated_to_euclid(a as int, b as int, q as int, rem as int);
    }
    if a < 0 && rem != 0 {
        q - 1
    } else {
        q
    }
}

/// Euclidean remainder of an `i32` by a positive divisor: always in `[0, b)`.
pub fn euclid_rem_i32(a: i32, b: i32) -> (r: i32)
    requires
        b > 0,
    ensures
        r == a as int % b as int,
        0 <= r < b,
{
    let q: i32 = a / b;
    let rem: i32 = a % b;
    proof {
        lemma_truncated_to_euclid(a as int, b as int, q as int, rem as int);
    }
    if rem < 0 {
        rem + b
    } else {
        rem
    }
}

/// Euclidean remainder of an `i64` by a positive divisor: always in `[0, b)`.
pub fn euclid_rem_i64(a: i64, b: i64) -> (r: i64)
    requires
        b > 0,
    ensures
        r == a as int % b as int,
        0 <= r < b,
{
    let q: i64 = a / b;
    let rem: i64 = a % b;
    proof {
        lemma_truncated_to_euclid(a as int, b as int, q as int, rem as int);
    }
    if rem < 0 {
        rem + b
    } else {
        rem
    }
}

/// Truncating division, as the machine divides: the quotient rounded
/// toward zero.
pub open spec fn tdiv(a: int, b: int) -> int
    recommends
        b > 0,
{
    if a >= 0 {
        a / b
    } else {
        -((-a) / b)
    }
}

/// `v` clamped into `[lo, hi]`.
pub open spec fn clamp_s(v: int, lo: int, hi: int) -> int {
    if v < lo {
        lo
    } else if v > hi {
        hi
    } else {
        v
    }
}

/// Truncating division by a positive divisor cannot exceed the scale of
/// its dividend: if `|a| <= m * b` then `|a / b| <= m`.
pub proof fn lemma_tdiv_bound(a: int, b: int, m: int)
    requires
        b > 0,
        m >= 0,
        -(m * b) <= a <= m * b,
    ensures
        -m <= tdiv(a, b) <= m,
{
    if a >= 0 {
        let q = a / b;
        let r = a % b;
        lemma_fundamental_div_mod(a, b);
        assert(q <= m) by (nonlinear_arith)
            requires
                a == b * q + r,
                0 <= r < b,
                a <= m * b,
                b > 0,
        ;
        assert(q >= 0) by (nonlinear_arith)
            requires
                a == b * q + r,
                0 <= r < b,
                a >= 0,
                b > 0,
        ;
    } else {
        let q = (-a) / b;
        let r = (-a) % b;
        lemma_fundamental_div_mod(-a, b);
        assert(q <= m) by (nonlinear_arith)
            requires
                -a == b * q + r,
                0 <= r < b,
                -a <= m * b,
                b > 0,
        ;
        assert(q >= 0) by (nonlinear_arith)
            requires
                -a == b * q + r,
                0 <= r < b,
                -a >= 0,
                b > 0,
        ;
    }
}

/// The sign of an integer: -1, 0 or 1.
pub open spec fn sign(v: int) -> int {
    if v > 0 {
        1
    } else if v < 0 {
        -1
    } else {
        0
    }
}

/// The integer square root: the greatest `r` with `r * r <= n`.
pub fn isqrt_u64(n: u64) -> (r: u64)
    requires
        n <= 1_000_000_000_000,
    ensures
        r * r <= n < (r + 1) * (r + 1),
{
    let mut r: u64 = 0;
    loop
        invariant_except_break
            n <= 1_000_000_000_000,
            r * r <= n,
            r <= 1_000_000,
        ensures
            r * r <= n < (r + 1) * (r + 1),
        decreases 1_000_001 - r,
    {
        proof {
            assert((r + 1) * (r + 1) <= 1_000_001 * 1_000_001) by (nonlinear_arith)
                requires
                    r <= 1_000_000,
            ;
        }
        let next: u64 = (r + 1) * (r + 1);
        if next > n {
            break;
        }
        proof {
            assert(next <= n ==> r + 1 <= 1_000_000) by (nonlinear_arith)
                requires
                    n <= 1_000_000_000_000,
                    next == (r + 1) * (r + 1),
            ;
        }
        r = r + 1;
    }
    r
}

/// Clamp `v` into `[lo, hi]`.
pub fn clamp_i64(v: i64, lo: i64, hi: i64) -> (r: i64)
    requires
        lo <= hi,
    ensures
        r == clamp_s(v as int, lo as int, hi as int),
        lo <= r <= hi,
{
    if v < lo {
        lo
    } else if v > hi {
        hi
    } else {
        v
    }
}

} // verus!
