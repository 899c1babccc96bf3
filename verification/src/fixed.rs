//! 16.16 fixed-point scalars: one unit of world space is `FP_ONE`, and an
//! angle of one radian is `FP_ONE` as well.  A full turn is rounded to a
//! multiple of four so that quadrant arithmetic is exact.

use vstd::prelude::*;

verus! {

/// One whole unit (1.0) in 16.16 fixed-point form.
pub const FP_ONE: i64 = 65536;

/// A quarter turn (pi/2) in fixed-point radians.
pub const FP_HALF_PI: i64 = 102944;

/// A half turn (pi) in fixed-point radians; exactly `2 * FP_HALF_PI`.
pub const FP_PI: i64 = 205888;

/// A full turn (2*pi) in fixed-point radians; exactly `4 * FP_HALF_PI`.
pub const FP_TWO_PI: i64 = 411776;

/// Marker distance and offset returned by a ray that leaves the map
/// without striking a solid tile.
pub const NO_HIT: i64 = i64::MAX;

/// Integer floor of a fixed-point value: the grid cell a coordinate lies in.
pub fn fp_floor(a: i64) -> (r: i64)
    requires
        -0x4000_0000_0000_0000 <= a <= 0x4000_0000_0000_0000,
    ensures
        r == a as int / 65536,
{
    if a >= 0 {
        (a as u64 / 65536) as i64
    } else {
        let m = (-a) as u64;
        -(((m + 65535) / 65536) as i64)
    }
}

/// Fractional part of a fixed-point value, always in `[0, FP_ONE)`.
pub fn fp_frac(a: i64) -> (r: i64)
    requires
        -0x4000_0000_0000_0000 <= a <= 0x4000_0000_0000_0000,
    ensures
        r == a as int % 65536,
        0 <= r < 65536,
{
    if a >= 0 {
        (a as u64 % 65536) as i64
    } else {
        let m = ((-a) as u64) % 65536;
        if m == 0 {
            0
        } else {
            proof {
                lemma_neg_mod(a as int, 65536);
            }
            65536 - (m as i64)
        }
    }
}

/// Euclidean remainder of a negated value: if `a < 0` and `(-a) % m != 0`,
/// then `a % m == m - (-a) % m`.
pub(crate) proof fn lemma_neg_mod(a: int, m: int)
    requires
        a < 0,
        m > 0,
        (-a) % m != 0,
    ensures
        a % m == m - (-a) % m,
{
    let q = (-a) / m;
    let r = (-a) % m;
    vstd::arithmetic::div_mod::lemma_fundamental_div_mod(-a, m);
    assert(-a == q * m + r);
    assert(a == (-q - 1) * m + (m - r)) by (nonlinear_arith)
        requires
            -a == q * m + r,
    ;
    vstd::arithmetic::div_mod::lemma_fundamental_div_mod_converse(a, m, -q - 1, m - r);
}

/// Reduces a fixed-point angle into `[0, FP_TWO_PI)`.
pub fn wrap_angle(a: i64) -> (r: i64)
    requires
        -0x4000_0000_0000_0000 <= a <= 0x4000_0000_0000_0000,
    ensures
        r == a as int % (FP_TWO_PI as int),
        0 <= r < FP_TWO_PI,
{
    if a >= 0 {
        (a as u64 % 411776) as i64
    } else {
        let m = ((-a) as u64) % 411776;
        if m == 0 {
            0
        } else {
            proof {
                lemma_neg_mod(a as int, 411776);
            }
            411776 - (m as i64)
        }
    }
}

/// Fixed-point product with floor rounding: `a * b / FP_ONE`.
pub fn fp_mul(a: i64, b: i64) -> (r: i64)
    requires
        -0x1_0000_0000 <= a <= 0x1_0000_0000,
        -0x1_0000_0000 <= b <= 0x1_0000_0000,
    ensures
        r == (a as int * b as int) / 65536,
{
    proof {
        assert(-0x1_0000_0000_0000_0000 <= a as int * b as int <= 0x1_0000_0000_0000_0000)
            by (nonlinear_arith)
            requires
                -0x1_0000_0000 <= a <= 0x1_0000_0000,
                -0x1_0000_0000 <= b <= 0x1_0000_0000,
        ;
    }
    let p: i128 = (a as i128) * (b as i128);
    if p >= 0 {
        proof {
            vstd::arithmetic::div_mod::lemma_div_is_ordered(
                p as int,
                0x1_0000_0000_0000_0000,
                65536,
            );
        }
        ((p as u128) / 65536) as i64
    } else {
        let m = (-p) as u128;
        let q = -(((m + 65535) / 65536) as i128);
        proof {
            lemma_floor_div_neg(p as int, 65536);
            vstd::arithmetic::div_mod::lemma_div_is_ordered(
                -0x1_0000_0000_0000_0000,
                p as int,
                65536,
            );
        }
        q as i64
    }
}

/// For a negative dividend and positive divisor, the Euclidean quotient is
/// `-(((-p) + m - 1) / m)`.
pub(crate) proof fn lemma_floor_div_neg(p: int, m: int)
    requires
        p < 0,
        m > 0,
    ensures
        p / m == -(((-p) + m - 1) / m),
{
    let q = p / m;
    let r = p % m;
    vstd::arithmetic::div_mod::lemma_fundamental_div_mod(p, m);
    assert(p == m * q + r);
    let n = -p;
    assert(n == m * (-q) - r) by (nonlinear_arith)
        requires
            n == -p,
            p == m * q + r,
    ;
    if r == 0 {
        assert((n + m - 1) / m == -q) by {
            vstd::arithmetic::div_mod::lemma_fundamental_div_mod_converse(
                n + m - 1,
                m,
                -q,
                m - 1,
            );
        }
    } else {
        assert(n + m - 1 == m * (-q) + (m - 1 - r)) by (nonlinear_arith)
            requires
                n == m * (-q) - r,
        ;
        assert((n + m - 1) / m == -q) by {
            vstd::arithmetic::div_mod::lemma_fundamental_div_mod_converse(
                n + m - 1,
                m,
                -q,
                m - 1 - r,
            );
        }
    }
}

} // verus!
