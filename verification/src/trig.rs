//! Trigonometry on 16.16 fixed-point angles: a piecewise-linear sine built
//! from a quarter-wave table, cosine by phase shift, an integer square root,
//! and a polynomial two-argument arctangent.  Every executable function
//! mirrors a spec function exactly, so callers can reason about the precise
//! values a ray direction or a sprite angle takes.

use vstd::prelude::*;

verus! {

use crate::fixed::FP_ONE;
use crate::fixed::FP_HALF_PI;
use crate::fixed::FP_TWO_PI;

/// Sine sampled at multiples of `FP_HALF_PI / 16` over a quarter turn.
pub open spec fn sin_table(i: int) -> int {
    if i <= 0 {
        0
    } else if i == 1 {
        6424
    } else if i == 2 {
        12785
    } else if i == 3 {
        19024
    } else if i == 4 {
        25080
    } else if i == 5 {
        30893
    } else if i == 6 {
        36410
    } else if i == 7 {
        41576
    } else if i == 8 {
        46341
    } else if i == 9 {
        50660
    } else if i == 10 {
        54491
    } else if i == 11 {
        57798
    } else if i == 12 {
        60547
    } else if i == 13 {
        62714
    } else if i == 14 {
        64277
    } else if i == 15 {
        65220
    } else {
        65536
    }
}

fn sin_table_at(i: u64) -> (r: i64)
    requires
        i <= 16,
    ensures
        r == sin_table(i as int),
{
    match i {
        0 => 0,
        1 => 6424,
        2 => 12785,
        3 => 19024,
        4 => 25080,
        5 => 30893,
        6 => 36410,
        7 => 41576,
        8 => 46341,
        9 => 50660,
        10 => 54491,
        11 => 57798,
        12 => 60547,
        13 => 62714,
        14 => 64277,
        15 => 65220,
        _ => 65536,
    }
}

/// Rising quarter-wave interpolation between samples `i` and `i + 1`.
pub open spec fn lerp_up(i: int, f: int) -> int {
    sin_table(i) + (sin_table(i + 1) - sin_table(i)) * f / 6434
}

/// Falling quarter-wave interpolation between samples `16 - i` and `15 - i`.
pub open spec fn lerp_down(i: int, f: int) -> int {
    sin_table(16 - i) - (sin_table(16 - i) - sin_table(15 - i)) * f / 6434
}

proof fn lemma_lerp_fraction(d: int, f: int)
    requires
        0 <= d,
        0 <= f < 6434,
    ensures
        0 <= d * f / 6434 <= d,
{
    assert(0 <= d * f <= d * 6434) by (nonlinear_arith)
        requires
            0 <= d,
            0 <= f < 6434,
    ;
    vstd::arithmetic::div_mod::lemma_div_is_ordered(0, d * f, 6434);
    vstd::arithmetic::div_mod::lemma_div_is_ordered(d * f, d * 6434, 6434);
    vstd::arithmetic::div_mod::lemma_div_by_multiple(d, 6434);
}

fn lerp_up_at(i: u64, f: u64) -> (r: i64)
    requires
        i <= 15,
        f < 6434,
    ensures
        r == lerp_up(i as int, f as int),
        sin_table(i as int) <= r <= sin_table(i as int + 1),
{
    let t0 = sin_table_at(i);
    let t1 = sin_table_at(i + 1);
    let d = (t1 - t0) as u64;
    proof {
        lemma_lerp_fraction(d as int, f as int);
    }
    t0 + ((d * f) / 6434) as i64
}

fn lerp_down_at(i: u64, f: u64) -> (r: i64)
    requires
        i <= 15,
        f < 6434,
    ensures
        r == lerp_down(i as int, f as int),
        sin_table(15 - i as int) <= r <= sin_table(16 - i as int),
{
    let t1 = sin_table_at(16 - i);
    let t0 = sin_table_at(15 - i);
    let d = (t1 - t0) as u64;
    proof {
        lemma_lerp_fraction(d as int, f as int);
    }
    t1 - ((d * f) / 6434) as i64
}

/// Piecewise-linear sine of an angle in `[0, FP_TWO_PI)`, in 16.16 form.
pub open spec fn sin_fp_spec(a: int) -> int {
    let q = a / (FP_HALF_PI as int);
    let i = (a % (FP_HALF_PI as int)) / 6434;
    let f = (a % (FP_HALF_PI as int)) % 6434;
    if q == 0 {
        lerp_up(i, f)
    } else if q == 1 {
        lerp_down(i, f)
    } else if q == 2 {
        -lerp_up(i, f)
    } else {
        -lerp_down(i, f)
    }
}

/// Cosine as a quarter-turn phase shift of the sine.
pub open spec fn cos_fp_spec(a: int) -> int {
    sin_fp_spec((a + FP_HALF_PI as int) % (FP_TWO_PI as int))
}

/// Sine of a fixed-point angle already reduced to `[0, FP_TWO_PI)`.
pub fn sin_fp(a: i64) -> (r: i64)
    requires
        0 <= a < FP_TWO_PI,
    ensures
        r == sin_fp_spec(a as int),
        -FP_ONE <= r <= FP_ONE,
{
    let au = a as u64;
    let q = au / 102944;
    let rem = au % 102944;
    let i = rem / 6434;
    let f = rem % 6434;
    proof {
        assert(i <= 15) by {
            vstd::arithmetic::div_mod::lemma_div_is_ordered(rem as int, 102943, 6434);
        }
        assert(q <= 3) by {
            vstd::arithmetic::div_mod::lemma_div_is_ordered(au as int, 411775, 102944);
        }
    }
    if q == 0 {
        lerp_up_at(i, f)
    } else if q == 1 {
        lerp_down_at(i, f)
    } else if q == 2 {
        -lerp_up_at(i, f)
    } else {
        -lerp_down_at(i, f)
    }
}

/// Cosine of a fixed-point angle already reduced to `[0, FP_TWO_PI)`.
pub fn cos_fp(a: i64) -> (r: i64)
    requires
        0 <= a < FP_TWO_PI,
    ensures
        r == cos_fp_spec(a as int),
        -FP_ONE <= r <= FP_ONE,
{
    let b = a + FP_HALF_PI;
    let c = if b >= FP_TWO_PI {
        b - FP_TWO_PI
    } else {
        b
    };
    proof {
        if b < FP_TWO_PI {
            vstd::arithmetic::div_mod::lemma_small_mod(b as nat, FP_TWO_PI as nat);
        } else {
            vstd::arithmetic::div_mod::lemma_fundamental_div_mod_converse(
                b as int,
                FP_TWO_PI as int,
                1,
                b - FP_TWO_PI,
            );
        }
    }
    sin_fp(c)
}

/// On every segment of the quarter wave, the interpolated value stays
/// between the two samples it joins, so one of sine and cosine always has
/// magnitude at least `sin_table(8)` (the value at an eighth turn).
proof fn lemma_dir_magnitude(a: int)
    requires
        0 <= a < FP_TWO_PI as int,
    ensures
        sin_fp_spec(a) >= 46341 || sin_fp_spec(a) <= -46341 || cos_fp_spec(a) >= 46341
            || cos_fp_spec(a) <= -46341,
{
    let h = FP_HALF_PI as int;
    let q = a / h;
    let rem = a % h;
    let i = rem / 6434;
    let f = rem % 6434;
    vstd::arithmetic::div_mod::lemma_fundamental_div_mod(a, h);
    vstd::arithmetic::div_mod::lemma_fundamental_div_mod(rem, 6434);
    assert(0 <= rem < h);
    assert(0 <= f < 6434);
    assert(i <= 15) by {
        vstd::arithmetic::div_mod::lemma_div_is_ordered(rem, h - 1, 6434);
    }
    assert(0 <= q <= 3) by {
        vstd::arithmetic::div_mod::lemma_div_is_ordered(0, a, h);
        vstd::arithmetic::div_mod::lemma_div_is_ordered(a, (FP_TWO_PI - 1) as int, h);
    }
    let b = (a + h) % (FP_TWO_PI as int);
    if q <= 2 {
        assert(a + h == (q + 1) * h + rem);
        assert(a + h < FP_TWO_PI as int);
        vstd::arithmetic::div_mod::lemma_small_mod((a + h) as nat, FP_TWO_PI as nat);
        assert(b == a + h);
        vstd::arithmetic::div_mod::lemma_fundamental_div_mod_converse(b, h, q + 1, rem);
    } else {
        assert(a + h == 1 * (FP_TWO_PI as int) + rem) by {
            assert(a == 3 * h + rem);
        }
        vstd::arithmetic::div_mod::lemma_fundamental_div_mod_converse(
            a + h,
            FP_TWO_PI as int,
            1,
            rem,
        );
        assert(b == rem);
        vstd::arithmetic::div_mod::lemma_fundamental_div_mod_converse(b, h, 0, rem);
    }
    assert(b / h == if q <= 2 {
        q + 1
    } else {
        0
    });
    assert(b % h == rem);
    if i >= 8 {
        lemma_lerp_fraction(sin_table(i + 1) - sin_table(i), f);
        assert(lerp_up(i, f) >= sin_table(i));
        assert(sin_table(i) >= 46341);
    } else {
        lemma_lerp_fraction(sin_table(16 - i) - sin_table(15 - i), f);
        assert(lerp_down(i, f) >= sin_table(15 - i));
        assert(sin_table(15 - i) >= 46341);
    }
}

/// The unit direction vector of a fixed-point angle: `(cosine, sine)`.
/// At least one component has magnitude `sin_table(8)` or more, so the
/// vector is never the zero vector.
pub fn dir_of_angle(a: i64) -> (r: (i64, i64))
    requires
        0 <= a < FP_TWO_PI,
    ensures
        r.0 == cos_fp_spec(a as int),
        r.1 == sin_fp_spec(a as int),
        -FP_ONE <= r.0 <= FP_ONE,
        -FP_ONE <= r.1 <= FP_ONE,
        r.0 >= 46341 || r.0 <= -46341 || r.1 >= 46341 || r.1 <= -46341,
{
    let dx = cos_fp(a);
    let dy = sin_fp(a);
    proof {
        lemma_dir_magnitude(a as int);
    }
    (dx, dy)
}

/// The integer square root, as a mathematical function: the unique
/// nonnegative `r` with `r * r <= n < (r + 1) * (r + 1)`.
pub open spec fn sqrt_floor(n: int) -> int {
    choose|r: int| #![trigger r * r] r >= 0 && r * r <= n < (r + 1) * (r + 1)
}

/// Two nonnegative integers whose squares bracket `n` the same way are
/// equal, so `sqrt_floor` is pinned down by its defining property.
pub proof fn lemma_sqrt_unique(n: int, a: int, b: int)
    requires
        a >= 0,
        b >= 0,
        a * a <= n < (a + 1) * (a + 1),
        b * b <= n < (b + 1) * (b + 1),
    ensures
        a == b,
{
    assert(a == b) by (nonlinear_arith)
        requires
            a >= 0,
            b >= 0,
            a * a <= n < (a + 1) * (a + 1),
            b * b <= n < (b + 1) * (b + 1),
    ;
}

/// Integer square root: the greatest `r` with `r * r <= n`.
pub fn isqrt(n: u64) -> (r: u64)
    ensures
        r * r <= n < (r + 1) * (r + 1),
        r as int == sqrt_floor(n as int),
{
    let mut lo: u64 = 0;
    let mut hi: u64 = 4294967296;
    proof {
        assert(n < 4294967296 * 4294967296) by (nonlinear_arith)
            requires
                n <= 0xffff_ffff_ffff_ffff,
        ;
    }
    while lo + 1 < hi
        invariant
            lo < hi <= 4294967296,
            lo * lo <= n,
            n < hi * hi,
        decreases hi - lo,
    {
        let mid = lo + (hi - lo) / 2;
        proof {
            assert(mid * mid < 0x1_0000_0000_0000_0000) by (nonlinear_arith)
                requires
                    mid < 4294967296,
            ;
        }
        if mid * mid <= n {
            lo = mid;
        } else {
            hi = mid;
        }
    }
    proof {
        let w = lo as int;
        assert(w >= 0 && w * w <= (n as int) < (w + 1) * (w + 1));
        let c = sqrt_floor(n as int);
        assert(c >= 0 && c * c <= (n as int) < (c + 1) * (c + 1)) by {
            assert(exists|r: int| #![trigger r * r] r >= 0 && r * r <= (n as int) < (r + 1) * (r + 1)) by {
                assert(w >= 0 && w * w <= (n as int) < (w + 1) * (w + 1));
            }
        }
        lemma_sqrt_unique(n as int, w, c);
    }
    lo
}

/// Polynomial arctangent of a ratio `z` in `[0, FP_ONE]`, accurate to a few
/// thousandths of a radian and never exceeding an eighth of a turn by much.
pub open spec fn atan_ratio_spec(z: int) -> int {
    (51472 * z + 17891 * (z * (65536 - z) / 65536)) / 65536
}

fn atan_ratio(z: i64) -> (r: i64)
    requires
        0 <= z <= FP_ONE,
    ensures
        r == atan_ratio_spec(z as int),
        0 <= r <= 55944,
{
    let zu = z as u64;
    proof {
        assert(0 <= zu * (65536 - zu) <= 32768 * 32768) by (nonlinear_arith)
            requires
                0 <= zu <= 65536,
        ;
        vstd::arithmetic::div_mod::lemma_div_is_ordered(
            (zu * (65536 - zu)) as int,
            32768int * 32768,
            65536,
        );
        assert(51472 * zu <= 51472 * 65536) by (nonlinear_arith)
            requires
                zu <= 65536,
        ;
        vstd::arithmetic::div_mod::lemma_div_is_ordered(
            0,
            (zu * (65536 - zu)) as int,
            65536,
        );
        vstd::arithmetic::div_mod::lemma_div_is_ordered(
            (51472 * zu + 17891 * ((zu * (65536 - zu)) / 65536)) as int,
            51472int * 65536 + 17891 * 16384,
            65536,
        );
    }
    let w = zu * (65536 - zu) / 65536;
    ((51472 * zu + 17891 * w) / 65536) as i64
}

/// The angle of the vector `(dx, dy)` in `[0, FP_TWO_PI)`, built from the
/// polynomial arctangent by octant reduction.
pub open spec fn atan2_fp_spec(dy: int, dx: int) -> int {
    if dx == 0 && dy == 0 {
        0
    } else {
        let ax = if dx >= 0 {
            dx
        } else {
            -dx
        };
        let ay = if dy >= 0 {
            dy
        } else {
            -dy
        };
        let base = if ax >= ay {
            atan_ratio_spec(ay * 65536 / ax)
        } else {
            (FP_HALF_PI as int) - atan_ratio_spec(ax * 65536 / ay)
        };
        if dx >= 0 && dy >= 0 {
            base
        } else if dx < 0 && dy >= 0 {
            (FP_PI as int) - base
        } else if dx < 0 {
            (FP_PI as int) + base
        } else if base == 0 {
            0
        } else {
            (FP_TWO_PI as int) - base
        }
    }
}

use crate::fixed::FP_PI;

/// Two-argument arctangent on fixed-point coordinates.
pub fn atan2_fp(dy: i64, dx: i64) -> (r: i64)
    requires
        -0x2000_0000_0000 <= dx <= 0x2000_0000_0000,
        -0x2000_0000_0000 <= dy <= 0x2000_0000_0000,
    ensures
        r == atan2_fp_spec(dy as int, dx as int),
        0 <= r < FP_TWO_PI,
{
    if dx == 0 && dy == 0 {
        return 0;
    }
    let ax = if dx >= 0 {
        dx
    } else {
        -dx
    };
    let ay = if dy >= 0 {
        dy
    } else {
        -dy
    };
    let base = if ax >= ay {
        let z = ((ay as u64) * 65536 / (ax as u64)) as i64;
        proof {
            lemma_ratio_at_most_one(ay as int, ax as int);
        }
        atan_ratio(z)
    } else {
        let z = ((ax as u64) * 65536 / (ay as u64)) as i64;
        proof {
            lemma_ratio_at_most_one(ax as int, ay as int);
        }
        FP_HALF_PI - atan_ratio(z)
    };
    if dx >= 0 && dy >= 0 {
        base
    } else if dx < 0 && dy >= 0 {
        FP_PI - base
    } else if dx < 0 {
        FP_PI + base
    } else if base == 0 {
        0
    } else {
        FP_TWO_PI - base
    }
}

/// When `0 <= a <= b` and `b > 0`, the scaled quotient `a * FP_ONE / b`
/// stays within `[0, FP_ONE]`.
proof fn lemma_ratio_at_most_one(a: int, b: int)
    requires
        0 <= a <= b,
        b > 0,
    ensures
        0 <= a * 65536 / b <= 65536,
{
    assert(a * 65536 <= b * 65536) by (nonlinear_arith)
        requires
            0 <= a <= b,
    ;
    vstd::arithmetic::div_mod::lemma_div_is_ordered(0, a * 65536, b);
    vstd::arithmetic::div_mod::lemma_div_is_ordered(a * 65536, b * 65536, b);
    vstd::arithmetic::div_mod::lemma_div_by_multiple(65536, b);
    assert(b * 65536 / b == 65536) by {
        vstd::arithmetic::div_mod::lemma_fundamental_div_mod_converse(b * 65536, b, 65536, 0);
    }
}

} // verus!
