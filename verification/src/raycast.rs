//! Grid raycasting over a flat, row-major tile map.  `fast_raycast` walks the
//! grid cell by cell with a digital differential analyzer, always advancing
//! along whichever axis reaches its next grid line soonest; `slow_raycast`
//! marches the ray in small constant increments.  Both return fixed-point
//! distances, and the fast caster also returns the fractional hit position on
//! the struck face, used to draw tile-edge seams.

use vstd::prelude::*;

verus! {

use crate::fixed::FP_ONE;
use crate::fixed::FP_TWO_PI;
use crate::fixed::FP_HALF_PI;
use crate::fixed::NO_HIT;
use crate::fixed::fp_floor;
use crate::fixed::fp_frac;
use crate::fixed::fp_mul;
use crate::trig::cos_fp_spec;
use crate::trig::sin_fp_spec;
use crate::trig::dir_of_angle;

/// Whether cell `(x, y)` lies inside a `w` by `h` map.
pub open spec fn in_map(w: int, h: int, x: int, y: int) -> bool {
    0 <= x < w && 0 <= y < h
}

/// Whether cell `(x, y)` of the row-major map holds a solid tile.
pub open spec fn solid_at(map: Seq<u8>, w: int, x: int, y: int) -> bool {
    map[x + y * w] == 1
}

/// Fractional part of the coordinate `base + perp * dir / FP_ONE`: where on
/// the struck face the ray landed, always in `[0, FP_ONE)`.
pub open spec fn face_offset(base: int, perp: int, dir: int) -> int {
    (base + perp * dir / 65536) % 65536
}

fn face_offset_at(base: i64, perp: i64, dir: i64) -> (r: i64)
    requires
        -0x100_0000_0000 <= base <= 0x100_0000_0000,
        0 <= perp <= 0x400_0000_0000_0000,
        -65536 <= dir <= 65536,
    ensures
        r == face_offset(base as int, perp as int, dir as int),
        0 <= r < 65536,
{
    proof {
        assert(-0x400_0000_0000_0000 * 0x10000 <= perp as int * dir as int
            <= 0x400_0000_0000_0000 * 0x10000) by (nonlinear_arith)
            requires
                0 <= perp <= 0x400_0000_0000_0000,
                -65536 <= dir <= 65536,
        ;
    }
    let p: i128 = (perp as i128) * (dir as i128);
    let q: i128 = if p >= 0 {
        ((p as u128) / 65536) as i128
    } else {
        proof {
            crate::fixed::lemma_floor_div_neg(p as int, 65536);
        }
        -((((-p) as u128 + 65535) / 65536) as i128)
    };
    proof {
        vstd::arithmetic::div_mod::lemma_div_is_ordered(
            p as int,
            0x400_0000_0000_0000int * 0x10000,
            65536,
        );
        vstd::arithmetic::div_mod::lemma_div_is_ordered(
            -0x400_0000_0000_0000int * 0x10000,
            p as int,
            65536,
        );
    }
    let c: i128 = (base as i128) + q;
    if c >= 0 {
        ((c as u128) % 65536) as i64
    } else {
        let m = ((-c) as u128) % 65536;
        if m == 0 {
            0
        } else {
            proof {
                crate::fixed::lemma_neg_mod(c as int, 65536);
            }
            65536 - (m as i64)
        }
    }
}

/// One DDA descent: from cell `(mx, my)` with accumulated ray lengths
/// `(rx, ry)`, step along the axis whose next grid line is nearer, and stop
/// on the first solid cell or on leaving the map.  `xp`/`yp` give the sign
/// of each direction component, `ddx`/`ddy` the fixed-point ray length
/// consumed by one whole cell on that axis.
pub open spec fn dda_rec(
    map: Seq<u8>,
    w: int,
    h: int,
    start_x: int,
    start_y: int,
    dir_x: int,
    dir_y: int,
    xp: bool,
    yp: bool,
    ddx: int,
    ddy: int,
    mx: int,
    my: int,
    rx: int,
    ry: int,
) -> (int, int)
    decreases
            (if xp {
                w - mx
            } else {
                mx + 1
            }) + (if yp {
                h - my
            } else {
                my + 1
            }),
{
    if !in_map(w, h, mx, my) {
        (NO_HIT as int, NO_HIT as int)
    } else if rx < ry {
        let mx2 = if xp {
            mx + 1
        } else {
            mx - 1
        };
        if !in_map(w, h, mx2, my) {
            (NO_HIT as int, NO_HIT as int)
        } else if solid_at(map, w, mx2, my) {
            (rx, face_offset(start_y, rx, dir_y))
        } else {
            dda_rec(
                map,
                w,
                h,
                start_x,
                start_y,
                dir_x,
                dir_y,
                xp,
                yp,
                ddx,
                ddy,
                mx2,
                my,
                rx + ddx,
                ry,
            )
        }
    } else {
        let my2 = if yp {
            my + 1
        } else {
            my - 1
        };
        if !in_map(w, h, mx, my2) {
            (NO_HIT as int, NO_HIT as int)
        } else if solid_at(map, w, mx, my2) {
            (ry, face_offset(start_x, ry, dir_x))
        } else {
            dda_rec(
                map,
                w,
                h,
                start_x,
                start_y,
                dir_x,
                dir_y,
                xp,
                yp,
                ddx,
                ddy,
                mx,
                my2,
                rx,
                ry + ddy,
            )
        }
    }
}

/// Fixed-point ray length consumed by crossing one whole grid cell along an
/// axis whose direction component is `d`; a zero component never crosses, so
/// it gets the `NO_HIT` sentinel.
pub open spec fn delta_for(d: int) -> int {
    if d == 0 {
        NO_HIT as int
    } else if d > 0 {
        0x1_0000_0000int / d
    } else {
        0x1_0000_0000int / (-d)
    }
}

/// Ray length from the start coordinate to the first grid line on an axis.
pub open spec fn init_ray(start_c: int, d: int) -> int {
    if d == 0 {
        NO_HIT as int
    } else if d > 0 {
        (65536 - start_c % 65536) * delta_for(d) / 65536
    } else {
        (start_c % 65536) * delta_for(d) / 65536
    }
}

/// The full DDA cast for a direction vector `(dir_x, dir_y)`.
pub open spec fn cast_dir_spec(
    map: Seq<u8>,
    w: int,
    h: int,
    start_x: int,
    start_y: int,
    dir_x: int,
    dir_y: int,
) -> (int, int) {
    dda_rec(
        map,
        w,
        h,
        start_x,
        start_y,
        dir_x,
        dir_y,
        dir_x >= 0,
        dir_y >= 0,
        delta_for(dir_x),
        delta_for(dir_y),
        start_x / 65536,
        start_y / 65536,
        init_ray(start_x, dir_x),
        init_ray(start_y, dir_y),
    )
}

/// Casts a ray from fixed-point `(start_x, start_y)` along `(dir_x, dir_y)`.
/// Returns the fixed-point ray length to the first solid tile together with
/// the fractional offset along the struck face, or `(NO_HIT, NO_HIT)` when
/// the ray leaves the map without striking anything.  On an all-empty map
/// the result is always `(NO_HIT, NO_HIT)`, and a hit offset always lies in
/// `[0, FP_ONE)`.
pub fn cast_dir(
    start_x: i64,
    start_y: i64,
    dir_x: i64,
    dir_y: i64,
    map_width: usize,
    map_height: usize,
    map: &[u8],
) -> (r: (i64, i64))
    requires
        1 <= map_width <= 32768,
        1 <= map_height <= 32768,
        map@.len() == map_width * map_height,
        -FP_ONE <= dir_x <= FP_ONE,
        -FP_ONE <= dir_y <= FP_ONE,
        dir_x != 0 || dir_y != 0,
        -0x100_0000_0000 <= start_x <= 0x100_0000_0000,
        -0x100_0000_0000 <= start_y <= 0x100_0000_0000,
    ensures
        r.0 as int == cast_dir_spec(
            map@,
            map_width as int,
            map_height as int,
            start_x as int,
            start_y as int,
            dir_x as int,
            dir_y as int,
        ).0,
        r.1 as int == cast_dir_spec(
            map@,
            map_width as int,
            map_height as int,
            start_x as int,
            start_y as int,
            dir_x as int,
            dir_y as int,
        ).1,
        (r.0 == NO_HIT) <==> (r.1 == NO_HIT),
        r.0 != NO_HIT ==> 0 <= r.0 && 0 <= r.1 < FP_ONE,
        (forall|j: int| 0 <= j < map@.len() ==> map@[j] != 1) ==> r == (NO_HIT, NO_HIT),
{
    let ghost t = cast_dir_spec(
        map@,
        map_width as int,
        map_height as int,
        start_x as int,
        start_y as int,
        dir_x as int,
        dir_y as int,
    );
    let w = map_width as i64;
    let h = map_height as i64;
    let mut map_x = fp_floor(start_x);
    let mut map_y = fp_floor(start_y);
    let xp = dir_x >= 0;
    let yp = dir_y >= 0;
    let delta_x = if dir_x == 0 {
        NO_HIT
    } else {
        let ax = if dir_x > 0 {
            dir_x
        } else {
            -dir_x
        };
        proof {
            lemma_delta_bounds(ax as int);
        }
        (0x1_0000_0000u64 / (ax as u64)) as i64
    };
    let delta_y = if dir_y == 0 {
        NO_HIT
    } else {
        let ay = if dir_y > 0 {
            dir_y
        } else {
            -dir_y
        };
        proof {
            lemma_delta_bounds(ay as int);
        }
        (0x1_0000_0000u64 / (ay as u64)) as i64
    };
    let mut ray_x = if dir_x == 0 {
        NO_HIT
    } else {
        let f = fp_frac(start_x);
        let m = if dir_x > 0 {
            65536 - f
        } else {
            f
        };
        proof {
            lemma_init_ray_bound(m as int, delta_x as int);
        }
        (((m as u64) * (delta_x as u64)) / 65536) as i64
    };
    let mut ray_y = if dir_y == 0 {
        NO_HIT
    } else {
        let f = fp_frac(start_y);
        let m = if dir_y > 0 {
            65536 - f
        } else {
            f
        };
        proof {
            lemma_init_ray_bound(m as int, delta_y as int);
        }
        (((m as u64) * (delta_y as u64)) / 65536) as i64
    };
    let ghost mx0 = map_x as int;
    let ghost my0 = map_y as int;
    let ghost irx0 = ray_x as int;
    let ghost iry0 = ray_y as int;
    let ghost mut tx: int = 0;
    let ghost mut ty: int = 0;
    while map_x >= 0 && map_x < w && map_y >= 0 && map_y < h
        invariant
            1 <= map_width <= 32768,
            1 <= map_height <= 32768,
            w == map_width as i64,
            h == map_height as i64,
            1 <= w <= 32768,
            1 <= h <= 32768,
            map@.len() == map_width * map_height,
            -FP_ONE <= dir_x <= FP_ONE,
            -FP_ONE <= dir_y <= FP_ONE,
            dir_x != 0 || dir_y != 0,
            -0x100_0000_0000 <= start_x <= 0x100_0000_0000,
            -0x100_0000_0000 <= start_y <= 0x100_0000_0000,
            xp == (dir_x >= 0),
            yp == (dir_y >= 0),
            delta_x as int == delta_for(dir_x as int),
            delta_y as int == delta_for(dir_y as int),
            dir_x != 0 ==> 65536 <= delta_x <= 0x1_0000_0000,
            dir_y != 0 ==> 65536 <= delta_y <= 0x1_0000_0000,
            dir_x == 0 ==> ray_x == NO_HIT && delta_x == NO_HIT,
            dir_y == 0 ==> ray_y == NO_HIT && delta_y == NO_HIT,
            dir_x != 0 ==> 0 <= irx0 <= delta_x && ray_x as int == irx0 + tx * (delta_x as int),
            dir_y != 0 ==> 0 <= iry0 <= delta_y && ray_y as int == iry0 + ty * (delta_y as int),
            0 <= tx <= 0x200_0000,
            0 <= ty <= 0x200_0000,
            -0x1_000_001 <= mx0 <= 0x1_000_001,
            -0x1_000_001 <= my0 <= 0x1_000_001,
            if xp {
                map_x as int == mx0 + tx
            } else {
                map_x as int == mx0 - tx
            },
            if yp {
                map_y as int == my0 + ty
            } else {
                map_y as int == my0 - ty
            },
            t == cast_dir_spec(
                map@,
                map_width as int,
                map_height as int,
                start_x as int,
                start_y as int,
                dir_x as int,
                dir_y as int,
            ),
            dda_rec(
                map@,
                w as int,
                h as int,
                start_x as int,
                start_y as int,
                dir_x as int,
                dir_y as int,
                xp,
                yp,
                delta_x as int,
                delta_y as int,
                map_x as int,
                map_y as int,
                ray_x as int,
                ray_y as int,
            ) == t,
        decreases
                (if xp {
                    w - map_x
                } else {
                    map_x + 1
                }) + (if yp {
                    h - map_y
                } else {
                    map_y + 1
                }),
    {
        let ghost pre_mx = map_x as int;
        let ghost pre_my = map_y as int;
        let ghost pre_rx = ray_x as int;
        let ghost pre_ry = ray_y as int;
        if ray_x < ray_y {
            proof {
                assert(dir_x != 0);
                assert(tx * (delta_x as int) <= 0x200_0000 * 0x1_0000_0000) by (nonlinear_arith)
                    requires
                        0 <= tx <= 0x200_0000,
                        0 < delta_x as int <= 0x1_0000_0000,
                ;
                assert(0 <= tx * (delta_x as int)) by (nonlinear_arith)
                    requires
                        0 <= tx,
                        0 < delta_x as int,
                ;
            }
            let perp = ray_x;
            ray_x = ray_x + delta_x;
            map_x = if xp {
                map_x + 1
            } else {
                map_x - 1
            };
            proof {
                tx = tx + 1;
                assert(tx * (delta_x as int) == (tx - 1) * (delta_x as int) + delta_x as int)
                    by (nonlinear_arith);
            }
            if map_x >= 0 && map_x < w && map_y >= 0 && map_y < h {
                proof {
                    lemma_cell_index(w as int, h as int, map_x as int, map_y as int);
                }
                let idx = (map_x as usize) + (map_y as usize) * map_width;
                if map[idx] == 1 {
                    let off = face_offset_at(start_y, perp, dir_y);
                    proof {
                        assert(solid_at(map@, w as int, map_x as int, map_y as int));
                        assert(dda_rec(
                            map@,
                            w as int,
                            h as int,
                            start_x as int,
                            start_y as int,
                            dir_x as int,
                            dir_y as int,
                            xp,
                            yp,
                            delta_x as int,
                            delta_y as int,
                            pre_mx,
                            pre_my,
                            pre_rx,
                            pre_ry,
                        ) == (pre_rx, face_offset(start_y as int, pre_rx, dir_y as int)));
                    }
                    return (perp, off);
                }
            }
            proof {
                assert(dda_rec(
                    map@,
                    w as int,
                    h as int,
                    start_x as int,
                    start_y as int,
                    dir_x as int,
                    dir_y as int,
                    xp,
                    yp,
                    delta_x as int,
                    delta_y as int,
                    map_x as int,
                    map_y as int,
                    ray_x as int,
                    ray_y as int,
                ) == t);
            }
        } else {
            proof {
                if dir_x != 0 {
                    assert(tx * (delta_x as int) <= 0x200_0000 * 0x1_0000_0000) by (nonlinear_arith)
                        requires
                            0 <= tx <= 0x200_0000,
                            0 < delta_x as int <= 0x1_0000_0000,
                    ;
                    assert(0 <= tx * (delta_x as int)) by (nonlinear_arith)
                        requires
                            0 <= tx,
                            0 < delta_x as int,
                    ;
                    assert(ray_x < NO_HIT);
                }
                assert(dir_y != 0);
                assert(ty * (delta_y as int) <= 0x200_0000 * 0x1_0000_0000) by (nonlinear_arith)
                    requires
                        0 <= ty <= 0x200_0000,
                        0 < delta_y as int <= 0x1_0000_0000,
                ;
                assert(0 <= ty * (delta_y as int)) by (nonlinear_arith)
                    requires
                        0 <= ty,
                        0 < delta_y as int,
                ;
            }
            let perp = ray_y;
            ray_y = ray_y + delta_y;
            map_y = if yp {
                map_y + 1
            } else {
                map_y - 1
            };
            proof {
                ty = ty + 1;
                assert(ty * (delta_y as int) == (ty - 1) * (delta_y as int) + delta_y as int)
                    by (nonlinear_arith);
            }
            if map_x >= 0 && map_x < w && map_y >= 0 && map_y < h {
                proof {
                    lemma_cell_index(w as int, h as int, map_x as int, map_y as int);
                }
                let idx = (map_x as usize) + (map_y as usize) * map_width;
                if map[idx] == 1 {
                    let off = face_offset_at(start_x, perp, dir_x);
                    proof {
                        assert(solid_at(map@, w as int, map_x as int, map_y as int));
                        assert(dda_rec(
                            map@,
                            w as int,
                            h as int,
                            start_x as int,
                            start_y as int,
                            dir_x as int,
                            dir_y as int,
                            xp,
                            yp,
                            delta_x as int,
                            delta_y as int,
                            pre_mx,
                            pre_my,
                            pre_rx,
                            pre_ry,
                        ) == (pre_ry, face_offset(start_x as int, pre_ry, dir_x as int)));
                    }
                    return (perp, off);
                }
            }
            proof {
                assert(dda_rec(
                    map@,
                    w as int,
                    h as int,
                    start_x as int,
                    start_y as int,
                    dir_x as int,
                    dir_y as int,
                    xp,
                    yp,
                    delta_x as int,
                    delta_y as int,
                    map_x as int,
                    map_y as int,
                    ray_x as int,
                    ray_y as int,
                ) == t);
            }
        }
    }
    (NO_HIT, NO_HIT)
}

/// The DDA cast for a ray angle, with the direction taken from the
/// fixed-point trigonometry.
pub open spec fn fast_raycast_spec(
    map: Seq<u8>,
    w: int,
    h: int,
    start_x: int,
    start_y: int,
    theta: int,
) -> (int, int) {
    cast_dir_spec(map, w, h, start_x, start_y, cos_fp_spec(theta), sin_fp_spec(theta))
}

/// Casts a ray at angle `theta` (fixed-point radians in `[0, FP_TWO_PI)`)
/// from `(start_x, start_y)` and returns `(distance, wall_offset)`: the
/// fixed-point ray length to the first solid tile and the fractional hit
/// position on the struck face, or `(NO_HIT, NO_HIT)` if the ray leaves the
/// map.  On an all-empty map the result is always `(NO_HIT, NO_HIT)`; on a
/// hit the wall offset lies in `[0, FP_ONE)`.
pub fn fast_raycast(
    start_x: i64,
    start_y: i64,
    theta: i64,
    map_width: usize,
    map_height: usize,
    map: &[u8],
) -> (r: (i64, i64))
    requires
        0 <= theta < FP_TWO_PI,
        1 <= map_width <= 32768,
        1 <= map_height <= 32768,
        map@.len() == map_width * map_height,
        -0x100_0000_0000 <= start_x <= 0x100_0000_0000,
        -0x100_0000_0000 <= start_y <= 0x100_0000_0000,
    ensures
        r.0 as int == fast_raycast_spec(
            map@,
            map_width as int,
            map_height as int,
            start_x as int,
            start_y as int,
            theta as int,
        ).0,
        r.1 as int == fast_raycast_spec(
            map@,
            map_width as int,
            map_height as int,
            start_x as int,
            start_y as int,
            theta as int,
        ).1,
        (r.0 == NO_HIT) <==> (r.1 == NO_HIT),
        r.0 != NO_HIT ==> 0 <= r.0 && 0 <= r.1 < FP_ONE,
        (forall|j: int| 0 <= j < map@.len() ==> map@[j] != 1) ==> r == (NO_HIT, NO_HIT),
{
    let d = dir_of_angle(theta);
    cast_dir(start_x, start_y, d.0, d.1, map_width, map_height, map)
}

/// One increment of the step-marching caster: stop once the travelled
/// distance reaches the limit, once the current cell leaves the map, or on
/// the first solid cell; otherwise advance by one fixed step.
pub open spec fn march_rec(
    map: Seq<u8>,
    w: int,
    h: int,
    x: int,
    y: int,
    dx: int,
    dy: int,
    step: int,
    dist: int,
    limit: int,
) -> int
    decreases limit + step - dist,
    when step >= 1
{
    if dist >= limit {
        dist
    } else if !in_map(w, h, x / 65536, y / 65536) {
        dist
    } else if solid_at(map, w, x / 65536, y / 65536) {
        dist
    } else {
        march_rec(map, w, h, x + dx, y + dy, dx, dy, step, dist + step, limit)
    }
}

/// The farthest a marching ray may travel: the larger map dimension, in
/// fixed-point world units.
pub open spec fn march_limit(w: int, h: int) -> int {
    if w >= h {
        w * 65536
    } else {
        h * 65536
    }
}

/// The full step-marching cast for a ray angle.
pub open spec fn slow_raycast_spec(
    map: Seq<u8>,
    w: int,
    h: int,
    start_x: int,
    start_y: int,
    theta: int,
    step: int,
) -> int {
    march_rec(
        map,
        w,
        h,
        start_x,
        start_y,
        cos_fp_spec(theta) * step / 65536,
        sin_fp_spec(theta) * step / 65536,
        step,
        0,
        march_limit(w, h),
    )
}

/// Marches a ray at angle `theta` in fixed increments of `step_increment`
/// and returns the fixed-point distance travelled when the march first
/// lands in a solid cell, leaves the map, or reaches the distance limit.
/// This is the slow reference caster; `fast_raycast` is the production
/// path.
pub fn slow_raycast(
    start_x: i64,
    start_y: i64,
    theta: i64,
    step_increment: i64,
    map_width: usize,
    map_height: usize,
    map: &[u8],
) -> (r: i64)
    requires
        0 <= theta < FP_TWO_PI,
        1 <= step_increment <= 0x1_0000_0000,
        1 <= map_width <= 32768,
        1 <= map_height <= 32768,
        map@.len() == map_width * map_height,
        -0x100_0000_0000 <= start_x <= 0x100_0000_0000,
        -0x100_0000_0000 <= start_y <= 0x100_0000_0000,
    ensures
        r as int == slow_raycast_spec(
            map@,
            map_width as int,
            map_height as int,
            start_x as int,
            start_y as int,
            theta as int,
            step_increment as int,
        ),
{
    let ghost t = slow_raycast_spec(
        map@,
        map_width as int,
        map_height as int,
        start_x as int,
        start_y as int,
        theta as int,
        step_increment as int,
    );
    let w = map_width as i64;
    let h = map_height as i64;
    let d = dir_of_angle(theta);
    let dx = fp_mul(d.0, step_increment);
    let dy = fp_mul(d.1, step_increment);
    proof {
        lemma_march_step_bound(d.0 as int, step_increment as int);
        lemma_march_step_bound(d.1 as int, step_increment as int);
    }
    let limit = if w >= h {
        w * 65536
    } else {
        h * 65536
    };
    let mut x = start_x;
    let mut y = start_y;
    let mut dist: i64 = 0;
    let ghost mut k: int = 0;
    while dist < limit
        invariant
            1 <= map_width <= 32768,
            1 <= map_height <= 32768,
            w == map_width as i64,
            h == map_height as i64,
            map@.len() == map_width * map_height,
            limit == march_limit(w as int, h as int),
            65536 <= limit <= 0x1_0000_0000_0000,
            1 <= step_increment <= 0x1_0000_0000,
            -0x100_0000_0000 <= start_x <= 0x100_0000_0000,
            -0x100_0000_0000 <= start_y <= 0x100_0000_0000,
            dx as int == cos_fp_spec(theta as int) * step_increment / 65536,
            dy as int == sin_fp_spec(theta as int) * step_increment / 65536,
            -step_increment <= dx <= step_increment,
            -step_increment <= dy <= step_increment,
            0 <= k,
            dist as int == k * step_increment,
            0 <= dist <= limit + step_increment,
            x as int == start_x + k * dx,
            y as int == start_y + k * dy,
            -0x300_0000_0000 <= x <= 0x300_0000_0000,
            -0x300_0000_0000 <= y <= 0x300_0000_0000,
            t == slow_raycast_spec(
                map@,
                map_width as int,
                map_height as int,
                start_x as int,
                start_y as int,
                theta as int,
                step_increment as int,
            ),
            march_rec(
                map@,
                w as int,
                h as int,
                x as int,
                y as int,
                dx as int,
                dy as int,
                step_increment as int,
                dist as int,
                limit as int,
            ) == t,
        decreases limit + step_increment - dist,
    {
        let gx = fp_floor(x);
        let gy = fp_floor(y);
        if gx < 0 || gx >= w || gy < 0 || gy >= h {
            return dist;
        }
        proof {
            lemma_cell_index(w as int, h as int, gx as int, gy as int);
        }
        let idx = (gx as usize) + (gy as usize) * map_width;
        if map[idx] == 1 {
            proof {
                assert(solid_at(map@, w as int, gx as int, gy as int));
            }
            return dist;
        }
        proof {
            let k2 = k + 1;
            assert(k2 * step_increment == k * step_increment + step_increment)
                by (nonlinear_arith)
                requires
                    k2 == k + 1,
            ;
            assert(k2 * (dx as int) == k * (dx as int) + dx as int) by (nonlinear_arith)
                requires
                    k2 == k + 1,
            ;
            assert(k2 * (dy as int) == k * (dy as int) + dy as int) by (nonlinear_arith)
                requires
                    k2 == k + 1,
            ;
            assert(-(k2 * (step_increment as int)) <= k2 * (dx as int) <= k2 * (
            step_increment as int)) by (nonlinear_arith)
                requires
                    0 <= k2,
                    -step_increment <= dx as int <= step_increment,
            ;
            assert(-(k2 * (step_increment as int)) <= k2 * (dy as int) <= k2 * (
            step_increment as int)) by (nonlinear_arith)
                requires
                    0 <= k2,
                    -step_increment <= dy as int <= step_increment,
            ;
            k = k2;
        }
        x = x + dx;
        y = y + dy;
        dist = dist + step_increment;
    }
    dist
}

/// Along a clear east-west corridor, the DDA returns the exact distance to
/// the first solid column: from cell `mx` with accumulated ray length
/// `(mx + 1) * FP_ONE - sx`, the descent walks column by column to `tx`.
proof fn lemma_axis_dda(
    map: Seq<u8>,
    w: int,
    h: int,
    sx: int,
    sy: int,
    tx: int,
    mx: int,
)
    requires
        1 <= w <= 32768,
        1 <= h <= 32768,
        map.len() == w * h,
        0 <= sx,
        0 <= mx < tx < w,
        0 <= sy / 65536 < h,
        solid_at(map, w, tx, sy / 65536),
        forall|c: int| #![trigger solid_at(map, w, c, sy / 65536)] mx < c < tx ==> !solid_at(
            map,
            w,
            c,
            sy / 65536,
        ),
        (mx + 1) * 65536 - sx >= 0,
    ensures
        dda_rec(
            map,
            w,
            h,
            sx,
            sy,
            65536,
            0,
            true,
            true,
            65536,
            NO_HIT as int,
            mx,
            sy / 65536,
            (mx + 1) * 65536 - sx,
            NO_HIT as int,
        ) == (tx * 65536 - sx, sy % 65536),
    decreases tx - mx,
{
    let my = sy / 65536;
    let rx = (mx + 1) * 65536 - sx;
    assert(rx < NO_HIT as int);
    assert(in_map(w, h, mx, my));
    let mx2 = mx + 1;
    if mx2 == tx {
        assert(face_offset(sy, rx, 0) == sy % 65536) by {
            assert(rx * 0 == 0) by (nonlinear_arith);
            vstd::arithmetic::div_mod::lemma_small_mod(0, 65536);
            vstd::arithmetic::div_mod::lemma_fundamental_div_mod(sy, 65536);
            vstd::arithmetic::div_mod::lemma_mod_bound(sy, 65536);
        }
    } else {
        assert(!solid_at(map, w, mx2, my));
        lemma_axis_dda(map, w, h, sx, sy, tx, mx2);
        assert(rx + 65536 == (mx2 + 1) * 65536 - sx);
    }
}

/// Along the same corridor, the step march overshoots the wall face by
/// less than one step: its result lies in `[T - x, T - x + step)` beyond
/// the distance already travelled, where `T` is the wall face coordinate.
proof fn lemma_axis_march(
    map: Seq<u8>,
    w: int,
    h: int,
    x: int,
    sy: int,
    step: int,
    dist: int,
    limit: int,
    tx: int,
)
    requires
        1 <= w <= 32768,
        1 <= h <= 32768,
        map.len() == w * h,
        1 <= step <= 65536,
        0 <= x,
        x < tx * 65536 + step,
        tx < w,
        0 <= sy / 65536 < h,
        solid_at(map, w, tx, sy / 65536),
        forall|c: int| #![trigger solid_at(map, w, c, sy / 65536)] x / 65536 <= c < tx
            ==> !solid_at(map, w, c, sy / 65536),
        0 <= dist,
        dist + (tx * 65536 - x) + step <= limit,
    ensures
        tx * 65536 - x <= march_rec(map, w, h, x, sy, step, 0, step, dist, limit) - dist < tx
            * 65536 - x + step,
    decreases tx * 65536 + step - x,
{
    let my = sy / 65536;
    let t = tx * 65536;
    vstd::arithmetic::div_mod::lemma_fundamental_div_mod(x, 65536);
    vstd::arithmetic::div_mod::lemma_mod_bound(x, 65536);
    if x >= t {
        assert(x / 65536 == tx) by {
            vstd::arithmetic::div_mod::lemma_fundamental_div_mod_converse(
                x,
                65536,
                tx,
                x - t,
            );
        }
        assert(dist < limit);
        assert(in_map(w, h, x / 65536, my));
        assert(solid_at(map, w, x / 65536, my));
        assert(march_rec(map, w, h, x, sy, step, 0, step, dist, limit) == dist);
    } else {
        assert(x / 65536 < tx) by {
            vstd::arithmetic::div_mod::lemma_div_is_ordered(x, t - 1, 65536);
            vstd::arithmetic::div_mod::lemma_fundamental_div_mod_converse(
                t - 1,
                65536,
                tx - 1,
                65535,
            );
        }
        assert(0 <= x / 65536) by {
            vstd::arithmetic::div_mod::lemma_div_is_ordered(0, x, 65536);
        }
        assert(!solid_at(map, w, x / 65536, my));
        assert(dist < limit);
        assert(in_map(w, h, x / 65536, my));
        assert((x + 0) / 65536 == x / 65536);
        lemma_axis_march(map, w, h, x + step, sy, step, dist + step, limit, tx);
        assert(forall|c: int| #![trigger solid_at(map, w, c, sy / 65536)]
            (x + step) / 65536 <= c < tx ==> !solid_at(map, w, c, sy / 65536)) by {
            vstd::arithmetic::div_mod::lemma_div_is_ordered(x, x + step, 65536);
        }
        assert(march_rec(map, w, h, x, sy, step, 0, step, dist, limit) == march_rec(
            map,
            w,
            h,
            x + step,
            sy + 0,
            step,
            0,
            step,
            dist + step,
            limit,
        ));
    }
}

/// Cross-validation of the two casters on a clear east-west corridor: for
/// a camera facing straight along the +x axis with the first solid tile of
/// its row at column `tx` and nothing in between, the DDA returns exactly
/// the distance to the tile's near face, and the step march returns a
/// distance within one step increment above it.
pub proof fn lemma_cross_validation_facing_x(
    map: Seq<u8>,
    w: int,
    h: int,
    sx: int,
    sy: int,
    step: int,
    tx: int,
)
    requires
        1 <= w <= 32768,
        1 <= h <= 32768,
        map.len() == w * h,
        0 <= sx,
        0 <= sy,
        sx / 65536 < tx < w,
        sy / 65536 < h,
        1 <= step <= 65536,
        solid_at(map, w, tx, sy / 65536),
        forall|c: int| #![trigger solid_at(map, w, c, sy / 65536)] sx / 65536 <= c < tx
            ==> !solid_at(map, w, c, sy / 65536),
    ensures
        fast_raycast_spec(map, w, h, sx, sy, 0).0 == tx * 65536 - sx,
        fast_raycast_spec(map, w, h, sx, sy, 0).1 == sy % 65536,
        tx * 65536 - sx <= slow_raycast_spec(map, w, h, sx, sy, 0, step) < tx * 65536 - sx
            + step,
{
    lemma_axis_trig();
    let mx0 = sx / 65536;
    let my = sy / 65536;
    vstd::arithmetic::div_mod::lemma_fundamental_div_mod(sx, 65536);
    vstd::arithmetic::div_mod::lemma_mod_bound(sx, 65536);
    vstd::arithmetic::div_mod::lemma_div_is_ordered(0, sx, 65536);
    vstd::arithmetic::div_mod::lemma_div_is_ordered(0, sy, 65536);
    assert(delta_for(65536) == 65536) by {
        vstd::arithmetic::div_mod::lemma_fundamental_div_mod_converse(
            0x1_0000_0000,
            65536,
            65536,
            0,
        );
    }
    assert(init_ray(sx, 65536) == (mx0 + 1) * 65536 - sx) by {
        assert((65536 - sx % 65536) * 65536 / 65536 == 65536 - sx % 65536) by {
            vstd::arithmetic::div_mod::lemma_fundamental_div_mod_converse(
                (65536 - sx % 65536) * 65536,
                65536,
                65536 - sx % 65536,
                0,
            );
        }
        assert((mx0 + 1) * 65536 - sx == 65536 - sx % 65536) by (nonlinear_arith)
            requires
                sx == 65536 * mx0 + sx % 65536,
        ;
    }
    lemma_axis_dda(map, w, h, sx, sy, tx, mx0);
    assert(cast_dir_spec(map, w, h, sx, sy, 65536, 0) == (tx * 65536 - sx, sy % 65536));
    assert(march_limit(w, h) >= w * 65536) by (nonlinear_arith)
        requires
            march_limit(w, h) == if w >= h {
                w * 65536
            } else {
                h * 65536
            },
            1 <= w,
            1 <= h,
    ;
    assert(0 + (tx * 65536 - sx) + step <= march_limit(w, h)) by (nonlinear_arith)
        requires
            tx < w,
            0 <= sx,
            step <= 65536,
            march_limit(w, h) >= w * 65536,
    ;
    assert(65536 * step / 65536 == step) by {
        vstd::arithmetic::div_mod::lemma_fundamental_div_mod_converse(
            65536 * step,
            65536,
            step,
            0,
        );
    }
    assert(0 * step / 65536 == 0) by {
        assert(0 * step == 0) by (nonlinear_arith);
        vstd::arithmetic::div_mod::lemma_small_mod(0, 65536);
        vstd::arithmetic::div_mod::lemma_basic_div(0, 65536);
    }
    lemma_axis_march(map, w, h, sx, sy, step, 0, march_limit(w, h), tx);
}

/// Along a clear north-south corridor, the DDA returns the exact distance
/// to the first solid row, mirroring the east-west walk axis for axis.
proof fn lemma_axis_dda_down(
    map: Seq<u8>,
    w: int,
    h: int,
    sx: int,
    sy: int,
    ty: int,
    my: int,
)
    requires
        1 <= w <= 32768,
        1 <= h <= 32768,
        map.len() == w * h,
        0 <= sy,
        0 <= my < ty < h,
        0 <= sx / 65536 < w,
        solid_at(map, w, sx / 65536, ty),
        forall|c: int| #![trigger solid_at(map, w, sx / 65536, c)] my < c < ty ==> !solid_at(
            map,
            w,
            sx / 65536,
            c,
        ),
        (my + 1) * 65536 - sy >= 0,
    ensures
        dda_rec(
            map,
            w,
            h,
            sx,
            sy,
            0,
            65536,
            true,
            true,
            NO_HIT as int,
            65536,
            sx / 65536,
            my,
            NO_HIT as int,
            (my + 1) * 65536 - sy,
        ) == (ty * 65536 - sy, sx % 65536),
    decreases ty - my,
{
    let mx = sx / 65536;
    let ry = (my + 1) * 65536 - sy;
    assert(ry < NO_HIT as int);
    assert(in_map(w, h, mx, my));
    let my2 = my + 1;
    if my2 == ty {
        assert(face_offset(sx, ry, 0) == sx % 65536) by {
            assert(ry * 0 == 0) by (nonlinear_arith);
            vstd::arithmetic::div_mod::lemma_small_mod(0, 65536);
            vstd::arithmetic::div_mod::lemma_fundamental_div_mod(sx, 65536);
            vstd::arithmetic::div_mod::lemma_mod_bound(sx, 65536);
        }
    } else {
        assert(!solid_at(map, w, mx, my2));
        lemma_axis_dda_down(map, w, h, sx, sy, ty, my2);
        assert(ry + 65536 == (my2 + 1) * 65536 - sy);
    }
}

/// Along the same corridor, the step march overshoots the wall face by
/// less than one step.
proof fn lemma_axis_march_down(
    map: Seq<u8>,
    w: int,
    h: int,
    sx: int,
    y: int,
    step: int,
    dist: int,
    limit: int,
    ty: int,
)
    requires
        1 <= w <= 32768,
        1 <= h <= 32768,
        map.len() == w * h,
        1 <= step <= 65536,
        0 <= y,
        y < ty * 65536 + step,
        ty < h,
        0 <= sx / 65536 < w,
        solid_at(map, w, sx / 65536, ty),
        forall|c: int| #![trigger solid_at(map, w, sx / 65536, c)] y / 65536 <= c < ty
            ==> !solid_at(map, w, sx / 65536, c),
        0 <= dist,
        dist + (ty * 65536 - y) + step <= limit,
    ensures
        ty * 65536 - y <= march_rec(map, w, h, sx, y, 0, step, step, dist, limit) - dist < ty
            * 65536 - y + step,
    decreases ty * 65536 + step - y,
{
    let mx = sx / 65536;
    let t = ty * 65536;
    vstd::arithmetic::div_mod::lemma_fundamental_div_mod(y, 65536);
    vstd::arithmetic::div_mod::lemma_mod_bound(y, 65536);
    if y >= t {
        assert(y / 65536 == ty) by {
            vstd::arithmetic::div_mod::lemma_fundamental_div_mod_converse(
                y,
                65536,
                ty,
                y - t,
            );
        }
        assert(dist < limit);
        assert(in_map(w, h, mx, y / 65536));
        assert(solid_at(map, w, mx, y / 65536));
        assert(march_rec(map, w, h, sx, y, 0, step, step, dist, limit) == dist);
    } else {
        assert(y / 65536 < ty) by {
            vstd::arithmetic::div_mod::lemma_div_is_ordered(y, t - 1, 65536);
            vstd::arithmetic::div_mod::lemma_fundamental_div_mod_converse(
                t - 1,
                65536,
                ty - 1,
                65535,
            );
        }
        assert(0 <= y / 65536) by {
            vstd::arithmetic::div_mod::lemma_div_is_ordered(0, y, 65536);
        }
        assert(!solid_at(map, w, mx, y / 65536));
        assert(dist < limit);
        assert(in_map(w, h, mx, y / 65536));
        assert((sx + 0) / 65536 == sx / 65536);
        lemma_axis_march_down(map, w, h, sx, y + step, step, dist + step, limit, ty);
        assert(forall|c: int| #![trigger solid_at(map, w, sx / 65536, c)]
            (y + step) / 65536 <= c < ty ==> !solid_at(map, w, sx / 65536, c)) by {
            vstd::arithmetic::div_mod::lemma_div_is_ordered(y, y + step, 65536);
        }
        assert(march_rec(map, w, h, sx, y, 0, step, step, dist, limit) == march_rec(
            map,
            w,
            h,
            sx + 0,
            y + step,
            0,
            step,
            step,
            dist + step,
            limit,
        ));
    }
}

/// Cross-validation of the two casters on a clear north-south corridor:
/// for a camera facing straight down the +y axis (a quarter turn) with the
/// first solid tile of its column at row `ty` and nothing in between, the
/// DDA returns exactly the distance to the tile's near face, and the step
/// march returns a distance within one step increment above it.
pub proof fn lemma_cross_validation_facing_y(
    map: Seq<u8>,
    w: int,
    h: int,
    sx: int,
    sy: int,
    step: int,
    ty: int,
)
    requires
        1 <= w <= 32768,
        1 <= h <= 32768,
        map.len() == w * h,
        0 <= sx,
        0 <= sy,
        sy / 65536 < ty < h,
        sx / 65536 < w,
        1 <= step <= 65536,
        solid_at(map, w, sx / 65536, ty),
        forall|c: int| #![trigger solid_at(map, w, sx / 65536, c)] sy / 65536 <= c < ty
            ==> !solid_at(map, w, sx / 65536, c),
    ensures
        fast_raycast_spec(map, w, h, sx, sy, FP_HALF_PI as int).0 == ty * 65536 - sy,
        fast_raycast_spec(map, w, h, sx, sy, FP_HALF_PI as int).1 == sx % 65536,
        ty * 65536 - sy <= slow_raycast_spec(map, w, h, sx, sy, FP_HALF_PI as int, step) < ty
            * 65536 - sy + step,
{
    lemma_quarter_turn_trig();
    let my0 = sy / 65536;
    vstd::arithmetic::div_mod::lemma_fundamental_div_mod(sy, 65536);
    vstd::arithmetic::div_mod::lemma_mod_bound(sy, 65536);
    vstd::arithmetic::div_mod::lemma_div_is_ordered(0, sy, 65536);
    vstd::arithmetic::div_mod::lemma_div_is_ordered(0, sx, 65536);
    assert(delta_for(65536) == 65536) by {
        vstd::arithmetic::div_mod::lemma_fundamental_div_mod_converse(
            0x1_0000_0000,
            65536,
            65536,
            0,
        );
    }
    assert(init_ray(sy, 65536) == (my0 + 1) * 65536 - sy) by {
        assert((65536 - sy % 65536) * 65536 / 65536 == 65536 - sy % 65536) by {
            vstd::arithmetic::div_mod::lemma_fundamental_div_mod_converse(
                (65536 - sy % 65536) * 65536,
                65536,
                65536 - sy % 65536,
                0,
            );
        }
        assert((my0 + 1) * 65536 - sy == 65536 - sy % 65536) by (nonlinear_arith)
            requires
                sy == 65536 * my0 + sy % 65536,
        ;
    }
    lemma_axis_dda_down(map, w, h, sx, sy, ty, my0);
    assert(cast_dir_spec(map, w, h, sx, sy, 0, 65536) == (ty * 65536 - sy, sx % 65536));
    assert(march_limit(w, h) >= h * 65536) by (nonlinear_arith)
        requires
            march_limit(w, h) == if w >= h {
                w * 65536
            } else {
                h * 65536
            },
            1 <= w,
            1 <= h,
    ;
    assert(0 + (ty * 65536 - sy) + step <= march_limit(w, h)) by (nonlinear_arith)
        requires
            ty < h,
            0 <= sy,
            step <= 65536,
            march_limit(w, h) >= h * 65536,
    ;
    assert(65536 * step / 65536 == step) by {
        vstd::arithmetic::div_mod::lemma_fundamental_div_mod_converse(
            65536 * step,
            65536,
            step,
            0,
        );
    }
    assert(0 * step / 65536 == 0) by {
        assert(0 * step == 0) by (nonlinear_arith);
        vstd::arithmetic::div_mod::lemma_small_mod(0, 65536);
        vstd::arithmetic::div_mod::lemma_basic_div(0, 65536);
    }
    lemma_axis_march_down(map, w, h, sx, sy, step, 0, march_limit(w, h), ty);
}

/// The fixed-point sine and cosine of a quarter turn are exactly one and
/// zero.
proof fn lemma_quarter_turn_trig()
    ensures
        crate::trig::cos_fp_spec(FP_HALF_PI as int) == 0,
        crate::trig::sin_fp_spec(FP_HALF_PI as int) == 65536,
{
    let half = FP_HALF_PI as int;
    assert(half / half == 1 && half % half == 0) by {
        vstd::arithmetic::div_mod::lemma_fundamental_div_mod_converse(half, half, 1, 0);
    }
    vstd::arithmetic::div_mod::lemma_small_mod(0, 6434);
    vstd::arithmetic::div_mod::lemma_basic_div(0, 6434);
    assert(crate::trig::sin_fp_spec(half) == crate::trig::lerp_down(0, 0));
    assert(crate::trig::lerp_down(0, 0) == 65536) by {
        assert((65536int - 65220) * 0 == 0) by (nonlinear_arith);
        vstd::arithmetic::div_mod::lemma_basic_div(0, 6434);
    }
    assert((half + half) % (FP_TWO_PI as int) == 2 * half) by {
        vstd::arithmetic::div_mod::lemma_small_mod((2 * half) as nat, FP_TWO_PI as nat);
    }
    assert((2 * half) / half == 2 && (2 * half) % half == 0) by {
        vstd::arithmetic::div_mod::lemma_fundamental_div_mod_converse(2 * half, half, 2, 0);
    }
    assert(crate::trig::cos_fp_spec(half) == -crate::trig::lerp_up(0, 0));
    assert(crate::trig::lerp_up(0, 0) == 0) by {
        assert(6424int * 0 == 0) by (nonlinear_arith);
        vstd::arithmetic::div_mod::lemma_basic_div(0, 6434);
    }
}

/// The fixed-point sine and cosine of angle zero are exactly zero and one.
proof fn lemma_axis_trig()
    ensures
        crate::trig::cos_fp_spec(0) == 65536,
        crate::trig::sin_fp_spec(0) == 0,
{
    vstd::arithmetic::div_mod::lemma_small_mod(0, FP_HALF_PI as nat);
    vstd::arithmetic::div_mod::lemma_basic_div(0, FP_HALF_PI as int);
    vstd::arithmetic::div_mod::lemma_small_mod(0, 6434);
    vstd::arithmetic::div_mod::lemma_basic_div(0, 6434);
    assert(crate::trig::sin_fp_spec(0) == crate::trig::lerp_up(0, 0));
    assert(crate::trig::lerp_up(0, 0) == 0) by {
        assert(6424int * 0 == 0) by (nonlinear_arith);
        vstd::arithmetic::div_mod::lemma_basic_div(0, 6434);
    }
    assert((0 + FP_HALF_PI as int) % (FP_TWO_PI as int) == FP_HALF_PI as int) by {
        vstd::arithmetic::div_mod::lemma_small_mod(FP_HALF_PI as nat, FP_TWO_PI as nat);
    }
    assert(FP_HALF_PI as int / (FP_HALF_PI as int) == 1 && FP_HALF_PI as int % (
    FP_HALF_PI as int) == 0) by {
        vstd::arithmetic::div_mod::lemma_fundamental_div_mod_converse(
            FP_HALF_PI as int,
            FP_HALF_PI as int,
            1,
            0,
        );
    }
    assert(crate::trig::cos_fp_spec(0) == crate::trig::lerp_down(0, 0));
    assert(crate::trig::lerp_down(0, 0) == 65536) by {
        assert((65536int - 65220) * 0 == 0) by (nonlinear_arith);
        vstd::arithmetic::div_mod::lemma_basic_div(0, 6434);
    }
}

/// Scaling a direction component in `[-FP_ONE, FP_ONE]` by a positive step
/// keeps the per-iteration advance within one step.
pub(crate) proof fn lemma_march_step_bound(c: int, step: int)
    requires
        -65536 <= c <= 65536,
        1 <= step <= 0x1_0000_0000,
    ensures
        -step <= c * step / 65536 <= step,
{
    assert(-(65536 * step) <= c * step <= 65536 * step) by (nonlinear_arith)
        requires
            -65536 <= c <= 65536,
            0 <= step,
    ;
    vstd::arithmetic::div_mod::lemma_div_is_ordered(c * step, 65536 * step, 65536);
    vstd::arithmetic::div_mod::lemma_div_is_ordered(-(65536 * step), c * step, 65536);
    assert(65536 * step / 65536 == step) by {
        vstd::arithmetic::div_mod::lemma_fundamental_div_mod_converse(
            65536 * step,
            65536,
            step,
            0,
        );
    }
    assert((-(65536 * step)) / 65536 == -step) by {
        vstd::arithmetic::div_mod::lemma_fundamental_div_mod_converse(
            -(65536 * step),
            65536,
            -step,
            0,
        );
    }
}

/// A cell index `x + y * w` with `(x, y)` inside the map stays below `w * h`.
pub(crate) proof fn lemma_cell_index(w: int, h: int, x: int, y: int)
    requires
        0 <= x < w <= 32768,
        0 <= y < h <= 32768,
    ensures
        0 <= x + y * w < w * h,
        y * w <= 32768 * 32768,
        w * h <= 32768 * 32768,
{
    assert(x + y * w < w * h && y * w <= 32768 * 32768 && w * h <= 32768 * 32768)
        by (nonlinear_arith)
        requires
            0 <= x < w <= 32768,
            0 <= y < h <= 32768,
    ;
    assert(0 <= y * w) by (nonlinear_arith)
        requires
            0 <= y,
            0 < w,
    ;
}

/// A direction component with magnitude in `[1, FP_ONE]` crosses one cell
/// in between one and `FP_ONE` whole units of ray length.
proof fn lemma_delta_bounds(a: int)
    requires
        1 <= a <= 65536,
    ensures
        65536 <= 0x1_0000_0000int / a <= 0x1_0000_0000,
{
    vstd::arithmetic::div_mod::lemma_div_is_ordered_by_denominator(0x1_0000_0000, 1, a);
    vstd::arithmetic::div_mod::lemma_div_is_ordered_by_denominator(0x1_0000_0000, a, 65536);
    assert(0x1_0000_0000int / 1 == 0x1_0000_0000) by {
        vstd::arithmetic::div_mod::lemma_fundamental_div_mod_converse(
            0x1_0000_0000,
            1,
            0x1_0000_0000,
            0,
        );
    }
    assert(0x1_0000_0000int / 65536 == 65536) by {
        vstd::arithmetic::div_mod::lemma_fundamental_div_mod_converse(0x1_0000_0000, 65536, 65536, 0);
    }
}

/// The first grid-line crossing consumes at most one whole cell of ray
/// length: `m * delta / FP_ONE <= delta` whenever `m <= FP_ONE`.
proof fn lemma_init_ray_bound(m: int, delta: int)
    requires
        0 <= m <= 65536,
        0 <= delta <= 0x1_0000_0000,
    ensures
        0 <= m * delta / 65536 <= delta,
        m * delta <= 0x1_0000_0000_0000,
{
    assert(0 <= m * delta <= 65536 * 0x1_0000_0000) by (nonlinear_arith)
        requires
            0 <= m <= 65536,
            0 <= delta <= 0x1_0000_0000,
    ;
    vstd::arithmetic::div_mod::lemma_div_is_ordered(0, m * delta, 65536);
    assert(m * delta <= delta * 65536) by (nonlinear_arith)
        requires
            0 <= m <= 65536,
            0 <= delta,
    ;
    vstd::arithmetic::div_mod::lemma_div_is_ordered(m * delta, delta * 65536, 65536);
    vstd::arithmetic::div_mod::lemma_div_by_multiple(delta, 65536);
}

} // verus!
