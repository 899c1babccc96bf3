//! Frame production: the nearest-neighbor buffer scaler, the random debug
//! fills, the per-column wall renderer with its frame-difference compositing
//! pass, and the portal sprite pass.  Pixels are packed 32-bit values with
//! the top byte used as the wall/alpha channel.

use vstd::prelude::*;
use rand::Rng;

verus! {

use crate::raycast::lemma_cell_index;
use crate::raycast::fast_raycast;
use crate::raycast::fast_raycast_spec;
use crate::player::Player;
use crate::fixed::FP_TWO_PI;
use crate::fixed::wrap_angle;
use crate::trig::atan2_fp;
use crate::trig::atan2_fp_spec;
use crate::trig::isqrt;
use crate::trig::sqrt_floor;
use crate::state::RenderState;

/// The 16.16 fixed-point ratio between a source and a destination extent.
pub open spec fn scale_ratio(src: int, dst: int) -> int {
    src * 65536 / dst
}

/// The source pixel sampled for destination pixel `(xx, yy)`.
pub open spec fn scaled_index(sw: int, sh: int, dw: int, dh: int, xx: int, yy: int) -> int {
    (yy * scale_ratio(sh, dh) / 65536) * sw + xx * scale_ratio(sw, dw) / 65536
}

/// Nearest-neighbor sampling never overshoots: for any positive extents the
/// sampled coordinate stays inside the source, because the truncated ratio
/// satisfies `ratio * dst <= src * FP_ONE`.
pub proof fn lemma_scale_coord_in_bounds(src: int, dst: int, c: int)
    requires
        1 <= src,
        1 <= dst,
        0 <= c < dst,
    ensures
        0 <= c * scale_ratio(src, dst) / 65536 < src,
{
    let ratio = scale_ratio(src, dst);
    vstd::arithmetic::div_mod::lemma_div_is_ordered(0, src * 65536, dst);
    assert(0 <= src * 65536) by (nonlinear_arith)
        requires
            1 <= src,
    ;
    vstd::arithmetic::div_mod::lemma_fundamental_div_mod(src * 65536, dst);
    assert(ratio * dst <= src * 65536) by (nonlinear_arith)
        requires
            src * 65536 == dst * ratio + (src * 65536) % dst,
            0 <= (src * 65536) % dst,
    ;
    assert(c * ratio <= (dst - 1) * ratio) by (nonlinear_arith)
        requires
            0 <= c <= dst - 1,
            0 <= ratio,
    ;
    assert((dst - 1) * ratio == dst * ratio - ratio) by (nonlinear_arith);
    if ratio == 0 {
        assert(c * ratio == 0) by (nonlinear_arith)
            requires
                ratio == 0,
        ;
        vstd::arithmetic::div_mod::lemma_small_mod(0, 65536);
    } else {
        assert(c * ratio <= src * 65536 - 1);
        vstd::arithmetic::div_mod::lemma_div_is_ordered(c * ratio, src * 65536 - 1, 65536);
        assert((src * 65536 - 1) / 65536 == src - 1) by {
            vstd::arithmetic::div_mod::lemma_fundamental_div_mod_converse(
                src * 65536 - 1,
                65536,
                src - 1,
                65535,
            );
        }
    }
    assert(0 <= c * ratio) by (nonlinear_arith)
        requires
            0 <= c,
            0 <= ratio,
    ;
    vstd::arithmetic::div_mod::lemma_div_is_ordered(0, c * ratio, 65536);
}

/// Every source index the scaler samples lies inside the source buffer.
pub proof fn lemma_scale_index_in_bounds(sw: int, sh: int, dw: int, dh: int, xx: int, yy: int)
    requires
        1 <= sw,
        1 <= sh,
        1 <= dw,
        1 <= dh,
        0 <= xx < dw,
        0 <= yy < dh,
    ensures
        0 <= scaled_index(sw, sh, dw, dh, xx, yy) < sw * sh,
{
    lemma_scale_coord_in_bounds(sw, dw, xx);
    lemma_scale_coord_in_bounds(sh, dh, yy);
    let sx = xx * scale_ratio(sw, dw) / 65536;
    let sy = yy * scale_ratio(sh, dh) / 65536;
    assert(0 <= sy * sw + sx < sw * sh) by (nonlinear_arith)
        requires
            0 <= sx < sw,
            0 <= sy < sh,
    ;
}

/// Resizes a row-major pixel buffer to a new resolution by nearest-neighbor
/// sampling through 16.16 fixed-point ratios.  The output holds exactly
/// `dest_width * dest_height` pixels, every destination pixel equals the
/// sampled source pixel, and scaling to the same extents copies the buffer
/// unchanged.
pub fn scale_buffer(
    buffer: &[u32],
    src_width: usize,
    src_height: usize,
    dest_width: usize,
    dest_height: usize,
) -> (scaled: Vec<u32>)
    requires
        1 <= src_width <= 32768,
        1 <= src_height <= 32768,
        1 <= dest_width <= 32768,
        1 <= dest_height <= 32768,
        buffer@.len() == src_width * src_height,
    ensures
        scaled@.len() == dest_width * dest_height,
        forall|i: int|
            0 <= i < scaled@.len() ==> scaled@[i] == buffer@[scaled_index(
                src_width as int,
                src_height as int,
                dest_width as int,
                dest_height as int,
                i % (dest_width as int),
                i / (dest_width as int),
            )],
        src_width == dest_width && src_height == dest_height ==> scaled@ == buffer@,
{
    let x_ratio = (src_width as u64) * 65536 / (dest_width as u64);
    let y_ratio = (src_height as u64) * 65536 / (dest_height as u64);
    let mut scaled: Vec<u32> = Vec::new();
    let mut y: usize = 0;
    while y < dest_height
        invariant
            1 <= src_width <= 32768,
            1 <= src_height <= 32768,
            1 <= dest_width <= 32768,
            1 <= dest_height <= 32768,
            buffer@.len() == src_width * src_height,
            x_ratio as int == scale_ratio(src_width as int, dest_width as int),
            y_ratio as int == scale_ratio(src_height as int, dest_height as int),
            0 <= y <= dest_height,
            scaled@.len() == y * dest_width,
            forall|i: int|
                0 <= i < scaled@.len() ==> scaled@[i] == buffer@[scaled_index(
                    src_width as int,
                    src_height as int,
                    dest_width as int,
                    dest_height as int,
                    i % (dest_width as int),
                    i / (dest_width as int),
                )],
        decreases dest_height - y,
    {
        let mut x: usize = 0;
        while x < dest_width
            invariant
                1 <= src_width <= 32768,
                1 <= src_height <= 32768,
                1 <= dest_width <= 32768,
                1 <= dest_height <= 32768,
                buffer@.len() == src_width * src_height,
                x_ratio as int == scale_ratio(src_width as int, dest_width as int),
                y_ratio as int == scale_ratio(src_height as int, dest_height as int),
                0 <= y < dest_height,
                0 <= x <= dest_width,
                scaled@.len() == y * dest_width + x,
                forall|i: int|
                    0 <= i < scaled@.len() ==> scaled@[i] == buffer@[scaled_index(
                        src_width as int,
                        src_height as int,
                        dest_width as int,
                        dest_height as int,
                        i % (dest_width as int),
                        i / (dest_width as int),
                    )],
            decreases dest_width - x,
        {
            proof {
                lemma_scale_coord_in_bounds(src_width as int, dest_width as int, x as int);
                lemma_scale_coord_in_bounds(src_height as int, dest_height as int, y as int);
                lemma_scale_index_in_bounds(
                    src_width as int,
                    src_height as int,
                    dest_width as int,
                    dest_height as int,
                    x as int,
                    y as int,
                );
                lemma_cell_index(src_width as int, src_height as int, 0, 0);
                vstd::arithmetic::div_mod::lemma_fundamental_div_mod_converse(
                    y * dest_width + x,
                    dest_width as int,
                    y as int,
                    x as int,
                );
            }
            let src_x = ((x as u64) * x_ratio / 65536) as usize;
            let src_y = ((y as u64) * y_ratio / 65536) as usize;
            let src_index = src_y * src_width + src_x;
            scaled.push(buffer[src_index]);
            x = x + 1;
        }
        proof {
            assert((y + 1) * dest_width == y * dest_width + dest_width) by (nonlinear_arith);
        }
        y = y + 1;
    }
    proof {
        assert(dest_height * dest_width == dest_width * dest_height) by (nonlinear_arith);
        if src_width == dest_width && src_height == dest_height {
            lemma_scale_same(src_width as int);
            lemma_scale_same(src_height as int);
            assert forall|i: int| 0 <= i < scaled@.len() implies scaled@[i] == buffer@[i] by {
                let dwi = dest_width as int;
                vstd::arithmetic::div_mod::lemma_fundamental_div_mod(i, dwi);
                let xx = i % dwi;
                let yy = i / dwi;
                lemma_ratio_identity(xx);
                lemma_ratio_identity(yy);
                assert(scaled_index(dwi, dest_height as int, dwi, dest_height as int, xx, yy)
                    == yy * dwi + xx);
            }
            assert(scaled@ =~= buffer@);
        }
    }
    scaled
}

/// Scaling an extent to itself gives a ratio of exactly one.
proof fn lemma_scale_same(n: int)
    requires
        1 <= n,
    ensures
        scale_ratio(n, n) == 65536,
{
    assert(n * 65536 == 65536 * n + 0) by (nonlinear_arith);
    vstd::arithmetic::div_mod::lemma_fundamental_div_mod_converse(n * 65536, n, 65536, 0);
}

/// With a ratio of one, each destination coordinate samples itself.
proof fn lemma_ratio_identity(c: int)
    requires
        0 <= c,
    ensures
        c * 65536 / 65536 == c,
{
    vstd::arithmetic::div_mod::lemma_fundamental_div_mod_converse(c * 65536, 65536, c, 0);
}

/// The camera's field of view, in fixed-point radians (about a third of a
/// half turn).
pub const FP_FOV: i64 = 68630;

/// Half the field of view.
pub const FP_HALF_FOV: i64 = 34315;

/// A wall pixel: opaque black, with the wall channel (the top byte) set.
pub const WALL_PIXEL: u32 = 0xFF00_0000;

/// Hits whose face offset falls below this mark a tile's leading edge.
pub const EDGE_LOW: i64 = 1966;

/// Hits whose face offset rises above this mark a tile's trailing edge.
pub const EDGE_HIGH: i64 = 64880;

/// The ray angle for screen column `x`: the facing angle swept from half
/// the field of view to the left across the columns.
pub open spec fn column_angle(rotation: int, x: int, width: int) -> int {
    (rotation - FP_HALF_FOV as int + x * (FP_FOV as int) / width) % (FP_TWO_PI as int)
}

/// The cast result for screen column `x`.
pub open spec fn column_hit(
    map: Seq<u8>,
    mw: int,
    mh: int,
    p: Player,
    x: int,
    width: int,
) -> (int, int) {
    fast_raycast_spec(
        map,
        mw,
        mh,
        p.pos_x as int,
        p.pos_y as int,
        column_angle(p.rotation as int, x, width),
    )
}

/// Projected wall-slice height in pixels: inversely proportional to the
/// hit distance, with the distance floored at the smallest positive
/// fixed-point value so a graze never divides by zero.
pub open spec fn wall_height(dist: int, height: int) -> int {
    if dist < 1 {
        height * 131072
    } else {
        height * 131072 / dist
    }
}

/// First screen row of the wall slice, centred vertically and clamped.
pub open spec fn wall_top(hp: int, height: int) -> int {
    if hp >= height {
        0
    } else {
        (height - hp) / 2
    }
}

/// One past the last screen row of the wall slice.
pub open spec fn wall_bottom(hp: int, height: int) -> int {
    if wall_top(hp, height) + hp <= height {
        wall_top(hp, height) + hp
    } else {
        height
    }
}

/// Whether pixel `(x, y)` is marked in the wall mask: it lies in the
/// column's wall slice and is either a slice boundary row or part of a
/// column whose hit grazed a tile edge.
pub open spec fn column_mask(
    map: Seq<u8>,
    mw: int,
    mh: int,
    p: Player,
    width: int,
    height: int,
    x: int,
    y: int,
) -> bool {
    let hit = column_hit(map, mw, mh, p, x, width);
    let hp = wall_height(hit.0, height);
    let top = wall_top(hp, height);
    let bot = wall_bottom(hp, height);
    top <= y < bot && (y == top || y == bot - 1 || hit.1 < EDGE_LOW as int || hit.1 > EDGE_HIGH
        as int)
}

/// The wall-mask value of the flat pixel index `i`.
pub open spec fn mask_pixel(
    map: Seq<u8>,
    mw: int,
    mh: int,
    p: Player,
    width: int,
    height: int,
    i: int,
) -> u32 {
    if column_mask(map, mw, mh, p, width, height, i % width, i / width) {
        WALL_PIXEL
    } else {
        0u32
    }
}

/// One pixel of the frame-difference pass: wherever the wall channel
/// changed between frames, the previous pixel is inverted in place.
pub open spec fn composited(prev: u32, mask: u32) -> u32 {
    if prev & 0xFF00_0000u32 != mask & 0xFF00_0000u32 {
        prev ^ 0xFFFF_FFFFu32
    } else {
        prev
    }
}

/// Frame-difference compositing is idempotent under no change: when the
/// new wall mask agrees with the previous frame on the wall channel of
/// every pixel, compositing leaves every pixel of the previous frame
/// untouched.
pub proof fn lemma_compositing_no_change(prev: Seq<u32>, mask: Seq<u32>)
    requires
        prev.len() == mask.len(),
        forall|i: int|
            0 <= i < prev.len() ==> prev[i] & 0xFF00_0000u32 == mask[i] & 0xFF00_0000u32,
    ensures
        forall|i: int| 0 <= i < prev.len() ==> composited(prev[i], mask[i]) == prev[i],
{
}

/// Inverts the previous frame wherever the new wall mask differs from it
/// on the wall channel, pixel by pixel and in place.
pub fn composite_difference(prev: &mut Vec<u32>, mask: &Vec<u32>)
    requires
        old(prev)@.len() == mask@.len(),
    ensures
        final(prev)@.len() == old(prev)@.len(),
        forall|i: int|
            0 <= i < final(prev)@.len() ==> final(prev)@[i] == composited(
                old(prev)@[i],
                mask@[i],
            ),
{
    let n = prev.len();
    let mut i: usize = 0;
    while i < n
        invariant
            prev@.len() == n,
            mask@.len() == n,
            0 <= i <= n,
            forall|j: int| 0 <= j < i ==> prev@[j] == composited(old(prev)@[j], mask@[j]),
            forall|j: int| i <= j < n ==> prev@[j] == old(prev)@[j],
        decreases n - i,
    {
        if prev[i] & 0xFF00_0000u32 != mask[i] & 0xFF00_0000u32 {
            prev[i] = prev[i] ^ 0xFFFF_FFFFu32;
        }
        i = i + 1;
    }
}

/// Builds the wall mask and the per-column distance buffer for one frame.
fn build_wall_mask(
    player: &Player,
    map: &[u8],
    map_width: usize,
    map_height: usize,
    width: usize,
    height: usize,
) -> (r: (Vec<u32>, Vec<i64>))
    requires
        1 <= width <= 4096,
        1 <= height <= 4096,
        1 <= map_width <= 32768,
        1 <= map_height <= 32768,
        map@.len() == map_width * map_height,
        player.wf(),
    ensures
        r.0@.len() == width * height,
        forall|i: int|
            0 <= i < r.0@.len() ==> r.0@[i] == mask_pixel(
                map@,
                map_width as int,
                map_height as int,
                *player,
                width as int,
                height as int,
                i,
            ),
        r.1@.len() == width,
        forall|c: int|
            0 <= c < width ==> r.1@[c] as int == column_hit(
                map@,
                map_width as int,
                map_height as int,
                *player,
                c,
                width as int,
            ).0,
{
    proof {
        lemma_cell_index(width as int, height as int, 0, 0);
    }
    let n = width * height;
    let mut mask: Vec<u32> = Vec::new();
    let mut k: usize = 0;
    while k < n
        invariant
            mask@.len() == k,
            0 <= k <= n,
            forall|i: int| 0 <= i < k ==> mask@[i] == 0u32,
        decreases n - k,
    {
        mask.push(0);
        k = k + 1;
    }
    let mut z: Vec<i64> = Vec::new();
    let mut x: usize = 0;
    while x < width
        invariant
            1 <= width <= 4096,
            1 <= height <= 4096,
            1 <= map_width <= 32768,
            1 <= map_height <= 32768,
            map@.len() == map_width * map_height,
            player.wf(),
            n == width * height,
            mask@.len() == n,
            0 <= x <= width,
            z@.len() == x,
            forall|c: int|
                0 <= c < x ==> z@[c] as int == column_hit(
                    map@,
                    map_width as int,
                    map_height as int,
                    *player,
                    c,
                    width as int,
                ).0,
            forall|i: int|
                0 <= i < n ==> mask@[i] == (if i % (width as int) < x {
                    mask_pixel(
                        map@,
                        map_width as int,
                        map_height as int,
                        *player,
                        width as int,
                        height as int,
                        i,
                    )
                } else {
                    0u32
                }),
        decreases width - x,
    {
        let t = (((x as u64) * 68630) / (width as u64)) as i64;
        let angle = wrap_angle(player.rotation - FP_HALF_FOV + t);
        let hit = fast_raycast(player.pos_x, player.pos_y, angle, map_width, map_height, map);
        let dist = hit.0;
        let uv = hit.1;
        let ghost gw = width as int;
        let ghost gh = height as int;
        let ghost ghit = column_hit(
            map@,
            map_width as int,
            map_height as int,
            *player,
            x as int,
            gw,
        );
        proof {
            assert(angle as int == column_angle(player.rotation as int, x as int, gw));
            assert(dist as int == ghit.0 && uv as int == ghit.1);
        }
        let hgt = height as i64;
        let hp: i64 = if dist < 1 {
            hgt * 131072
        } else {
            (((hgt as u64) * 131072) / (dist as u64)) as i64
        };
        let top: i64 = if hp >= hgt {
            0
        } else {
            (((hgt - hp) as u64) / 2) as i64
        };
        let bot: i64 = if top + hp <= hgt {
            top + hp
        } else {
            hgt
        };
        proof {
            assert(hp as int == wall_height(ghit.0, gh));
            assert(top as int == wall_top(hp as int, gh));
            assert(bot as int == wall_bottom(hp as int, gh));
            assert(0 <= top <= bot <= hgt);
        }
        let mut y: i64 = top;
        while y < bot
            invariant
                1 <= width <= 4096,
                1 <= height <= 4096,
                n == width * height,
                mask@.len() == n,
                0 <= x < width,
                gw == width as int,
                gh == height as int,
                hgt == height as i64,
                ghit == column_hit(
                    map@,
                    map_width as int,
                    map_height as int,
                    *player,
                    x as int,
                    gw,
                ),
                uv as int == ghit.1,
                hp as int == wall_height(ghit.0, gh),
                top as int == wall_top(hp as int, gh),
                bot as int == wall_bottom(hp as int, gh),
                0 <= top <= y <= bot <= hgt,
                forall|i: int|
                    0 <= i < n ==> mask@[i] == (if i % gw < x || (i % gw == x && top <= i / gw
                        < y) {
                        mask_pixel(
                            map@,
                            map_width as int,
                            map_height as int,
                            *player,
                            gw,
                            gh,
                            i,
                        )
                    } else {
                        0u32
                    }),
            decreases bot - y,
        {
            let ghost idx_i = x as int + (y as int) * gw;
            proof {
                lemma_cell_index(gw, gh, x as int, y as int);
                vstd::arithmetic::div_mod::lemma_fundamental_div_mod_converse(
                    idx_i,
                    gw,
                    y as int,
                    x as int,
                );
                assert(column_mask(
                    map@,
                    map_width as int,
                    map_height as int,
                    *player,
                    gw,
                    gh,
                    x as int,
                    y as int,
                ) == (y == top || y == bot - 1 || uv < EDGE_LOW || uv > EDGE_HIGH));
            }
            if y == top || y == bot - 1 || uv < EDGE_LOW || uv > EDGE_HIGH {
                let idx = x + (y as usize) * width;
                mask[idx] = WALL_PIXEL;
            }
            proof {
                assert forall|i: int|
                    0 <= i < n implies mask@[i] == (if i % gw < x || (i % gw == x && top <= i
                        / gw < y + 1) {
                        mask_pixel(
                            map@,
                            map_width as int,
                            map_height as int,
                            *player,
                            gw,
                            gh,
                            i,
                        )
                    } else {
                        0u32
                    }) by {
                    vstd::arithmetic::div_mod::lemma_fundamental_div_mod(i, gw);
                    if i % gw == x && i / gw == y {
                        assert(i == idx_i) by (nonlinear_arith)
                            requires
                                i == gw * (i / gw) + i % gw,
                                i % gw == x,
                                i / gw == y,
                                idx_i == x as int + (y as int) * gw,
                        ;
                    }
                }
            }
            y = y + 1;
        }
        proof {
            assert forall|i: int|
                0 <= i < n implies mask@[i] == (if i % gw < x + 1 {
                    mask_pixel(
                        map@,
                        map_width as int,
                        map_height as int,
                        *player,
                        gw,
                        gh,
                        i,
                    )
                } else {
                    0u32
                }) by {
                vstd::arithmetic::div_mod::lemma_fundamental_div_mod(i, gw);
                if i % gw == x && !(top <= i / gw < bot) {
                    assert(!column_mask(
                        map@,
                        map_width as int,
                        map_height as int,
                        *player,
                        gw,
                        gh,
                        x as int,
                        i / gw,
                    ));
                }
            }
        }
        z.push(dist);
        x = x + 1;
    }
    (mask, z)
}

/// Renders one frame of the raycast view into the persistent buffer with
/// the frame-difference effect: the wall mask is built column by column,
/// and wherever its wall channel differs from the previous frame's, the
/// previous pixel is inverted in place.  Returns the per-column hit
/// distances for later depth sorting.
pub fn render_aberration(
    prev_buffer: &mut Vec<u32>,
    player: &Player,
    map: &[u8],
    map_width: usize,
    map_height: usize,
    width: usize,
    height: usize,
) -> (z: Vec<i64>)
    requires
        old(prev_buffer)@.len() == width * height,
        1 <= width <= 4096,
        1 <= height <= 4096,
        1 <= map_width <= 32768,
        1 <= map_height <= 32768,
        map@.len() == map_width * map_height,
        player.wf(),
    ensures
        final(prev_buffer)@.len() == width * height,
        forall|i: int|
            0 <= i < final(prev_buffer)@.len() ==> final(prev_buffer)@[i] == composited(
                old(prev_buffer)@[i],
                mask_pixel(
                    map@,
                    map_width as int,
                    map_height as int,
                    *player,
                    width as int,
                    height as int,
                    i,
                ),
            ),
        z@.len() == width,
        forall|c: int|
            0 <= c < width ==> z@[c] as int == column_hit(
                map@,
                map_width as int,
                map_height as int,
                *player,
                c,
                width as int,
            ).0,
{
    let r = build_wall_mask(player, map, map_width, map_height, width, height);
    composite_difference(prev_buffer, &r.0);
    r.1
}

/// Clears the persistent buffer to black and renders one frame on top of
/// it, so every masked pixel comes out inverted from black.
pub fn render_black_and_white(
    prev_buffer: &mut Vec<u32>,
    player: &Player,
    map: &[u8],
    map_width: usize,
    map_height: usize,
    width: usize,
    height: usize,
) -> (z: Vec<i64>)
    requires
        old(prev_buffer)@.len() == width * height,
        1 <= width <= 4096,
        1 <= height <= 4096,
        1 <= map_width <= 32768,
        1 <= map_height <= 32768,
        map@.len() == map_width * map_height,
        player.wf(),
    ensures
        final(prev_buffer)@.len() == width * height,
        forall|i: int|
            0 <= i < final(prev_buffer)@.len() ==> final(prev_buffer)@[i] == composited(
                0u32,
                mask_pixel(
                    map@,
                    map_width as int,
                    map_height as int,
                    *player,
                    width as int,
                    height as int,
                    i,
                ),
            ),
        z@.len() == width,
        forall|c: int|
            0 <= c < width ==> z@[c] as int == column_hit(
                map@,
                map_width as int,
                map_height as int,
                *player,
                c,
                width as int,
            ).0,
{
    let n = prev_buffer.len();
    let mut i: usize = 0;
    while i < n
        invariant
            prev_buffer@.len() == n,
            0 <= i <= n,
            forall|j: int| 0 <= j < i ==> prev_buffer@[j] == 0u32,
        decreases n - i,
    {
        prev_buffer[i] = 0;
        i = i + 1;
    }
    render_aberration(prev_buffer, player, map, map_width, map_height, width, height)
}

/// The portal's fixed world position (the point (16, 16)).
pub const PORTAL_X: i64 = 1048576;

/// The portal's fixed world position (the point (16, 16)).
pub const PORTAL_Y: i64 = 1048576;

/// The angle from the camera to the portal.
pub open spec fn sprite_angle_of(p: Player) -> int {
    atan2_fp_spec(PORTAL_Y as int - p.pos_y, PORTAL_X as int - p.pos_x)
}

/// The sprite's angle relative to the camera facing, wrapped to a turn.
pub open spec fn rel_angle(sprite_angle: int, rotation: int) -> int {
    (sprite_angle - rotation) % (FP_TWO_PI as int)
}

/// Whether the sprite falls inside the camera's field of view: its relative
/// angle lies within half the field of view on either side of the facing.
pub open spec fn portal_visible(sprite_angle: int, rotation: int) -> bool {
    rel_angle(sprite_angle, rotation) <= FP_HALF_FOV as int || rel_angle(
        sprite_angle,
        rotation,
    ) >= FP_TWO_PI as int - FP_HALF_FOV as int
}

/// The wrapped angular distance between two angles: never more than half a
/// turn.
pub open spec fn wrapped_delta(a: int, b: int) -> int {
    let d = (a - b) % (FP_TWO_PI as int);
    if d <= FP_TWO_PI as int - d {
        d
    } else {
        FP_TWO_PI as int - d
    }
}

/// The sprite is visible exactly when the wrapped angular distance between
/// the camera facing and the sprite direction is at most half the field of
/// view; one step beyond that bound, nothing is drawn.
pub proof fn lemma_portal_visibility(sprite_angle: int, rotation: int)
    ensures
        portal_visible(sprite_angle, rotation) <==> wrapped_delta(sprite_angle, rotation)
            <= FP_HALF_FOV as int,
{
    let m = FP_TWO_PI as int;
    let d = (sprite_angle - rotation) % m;
    vstd::arithmetic::div_mod::lemma_mod_bound(sprite_angle - rotation, m);
}

/// The distance from the camera to the portal, in 16.16 form.
pub open spec fn sprite_dist(p: Player) -> int {
    let dx = PORTAL_X as int - p.pos_x;
    let dy = PORTAL_Y as int - p.pos_y;
    sqrt_floor(dx * dx + dy * dy)
}

/// The sprite's apparent size in pixels: inversely proportional to its
/// distance, floored away from a zero divisor and capped at eight times
/// the screen height.
pub open spec fn sprite_size(p: Player, height: int) -> int {
    let d = if sprite_dist(p) < 1 {
        1
    } else {
        sprite_dist(p)
    };
    let raw = height * 65536 / d;
    if raw > 8 * height {
        8 * height
    } else {
        raw
    }
}

/// The sprite's projected screen column.
pub open spec fn sprite_screen_x(p: Player, width: int) -> int {
    (rel_angle(sprite_angle_of(p), p.rotation as int) + FP_HALF_FOV as int) * width / (
    FP_FOV as int) % width
}

/// The sprite's projected screen row (the ellipse centre).
pub open spec fn sprite_screen_y(size: int, height: int) -> int {
    (height - size / 2) / 2
}

/// Whether screen pixel `(x, y)` falls inside the portal's ellipse.
pub open spec fn inside_portal(p: Player, width: int, height: int, x: int, y: int) -> bool {
    let size = sprite_size(p, height);
    let pw = size * 5 / 4;
    let ph = 2 * size;
    let dx = x - sprite_screen_x(p, width);
    let dy = y - sprite_screen_y(size, height);
    pw >= 1 && ph >= 1 && dx * dx * (ph * ph) + dy * dy * (pw * pw) <= pw * pw * (ph * ph)
}

/// What a portal pixel may hold: inside the ellipse, a random value whose
/// form depends on the color mode; outside it, black.
pub open spec fn portal_pixel_ok(
    p: Player,
    color_mode: bool,
    width: int,
    height: int,
    i: int,
    v: u32,
) -> bool {
    if inside_portal(p, width, height, i % width, i / width) {
        if color_mode {
            v & 0xFF00_0000u32 == 0xFF00_0000u32
        } else {
            v == 0xFFFF_FFFFu32 || v == 0xFF00_0000u32
        }
    } else {
        v == 0u32
    }
}

/// Relies on rand::random::<u8>: an unconstrained random byte.
#[verifier::external_body]
fn random_u8() -> u8 {
    rand::random::<u8>()
}

/// Relies on rand::random::<bool>: an unconstrained random boolean.
#[verifier::external_body]
fn random_bool() -> bool {
    rand::random::<bool>()
}

/// Relies on Rng::gen_range over `0..=100`: the sample always lies within
/// the requested inclusive range.
#[verifier::external_body]
fn random_percent() -> (r: u32)
    ensures
        r <= 100,
{
    rand::thread_rng().gen_range(0..=100u32)
}

/// A random opaque color: random red, green and blue bytes packed into the
/// low three bytes, with the top byte left clear.
pub fn get_random_color() -> (r: u32)
    ensures
        r < 0x100_0000,
{
    let red = random_u8() as u32;
    let green = random_u8() as u32;
    let blue = random_u8() as u32;
    let color = (red << 16) | (green << 8) | blue;
    proof {
        assert(color < 0x100_0000) by (bit_vector)
            requires
                color == (red << 16) | (green << 8) | blue,
                red < 256,
                green < 256,
                blue < 256,
        ;
    }
    color
}

/// Draws the portal sprite: the buffer is cleared to black, and when the
/// portal falls within the field of view an ellipse of noise is drawn at
/// its projected screen position — white static over black in monochrome
/// mode, random opaque colors in color mode.  When the portal is outside
/// the field of view, every pixel is left black.
pub fn draw_portal(
    buffer: &mut Vec<u32>,
    player: &Player,
    render_state: &RenderState,
    width: usize,
    height: usize,
)
    requires
        old(buffer)@.len() == width * height,
        1 <= width <= 4096,
        1 <= height <= 4096,
        player.wf(),
        -0x1000_0000 <= player.pos_x <= 0x1000_0000,
        -0x1000_0000 <= player.pos_y <= 0x1000_0000,
    ensures
        final(buffer)@.len() == width * height,
        forall|i: int|
            0 <= i < final(buffer)@.len() ==> (if portal_visible(
                sprite_angle_of(*player),
                player.rotation as int,
            ) {
                portal_pixel_ok(
                    *player,
                    render_state.color_state,
                    width as int,
                    height as int,
                    i,
                    final(buffer)@[i],
                )
            } else {
                final(buffer)@[i] == 0u32
            }),
{
    let n = buffer.len();
    let mut k: usize = 0;
    while k < n
        invariant
            buffer@.len() == n,
            0 <= k <= n,
            forall|j: int| 0 <= j < k ==> buffer@[j] == 0u32,
        decreases n - k,
    {
        buffer[k] = 0;
        k = k + 1;
    }
    let dx = PORTAL_X - player.pos_x;
    let dy = PORTAL_Y - player.pos_y;
    let ax = if dx >= 0 {
        dx as u64
    } else {
        (-dx) as u64
    };
    let ay = if dy >= 0 {
        dy as u64
    } else {
        (-dy) as u64
    };
    proof {
        assert(ax * ax == dx as int * (dx as int) && ax * ax <= 0x2000_0000int * 0x2000_0000)
            by (nonlinear_arith)
            requires
                ax as int == dx as int || ax as int == -(dx as int),
                0 <= ax <= 0x2000_0000,
        ;
        assert(ay * ay == dy as int * (dy as int) && ay * ay <= 0x2000_0000int * 0x2000_0000)
            by (nonlinear_arith)
            requires
                ay as int == dy as int || ay as int == -(dy as int),
                0 <= ay <= 0x2000_0000,
        ;
    }
    let d2 = ax * ax + ay * ay;
    let dist_u = isqrt(d2);
    proof {
        assert(dist_u <= 0x4000_0000) by (nonlinear_arith)
            requires
                dist_u * dist_u <= d2,
                d2 <= 0x800_0000_0000_0000,
        ;
    }
    let dist = dist_u as i64;
    let sprite_angle = atan2_fp(dy, dx);
    let rel = wrap_angle(sprite_angle - player.rotation);
    proof {
        assert(sprite_angle as int == sprite_angle_of(*player));
        assert(rel as int == rel_angle(sprite_angle_of(*player), player.rotation as int));
        assert(dist as int == sprite_dist(*player));
    }
    if rel <= FP_HALF_FOV || rel >= FP_TWO_PI - FP_HALF_FOV {
        let dc = if dist < 1 {
            1
        } else {
            dist
        };
        let raw = (((height as u64) * 65536) / (dc as u64)) as i64;
        proof {
            vstd::arithmetic::div_mod::lemma_div_is_ordered(
                0,
                (height as int) * 65536,
                dc as int,
            );
        }
        let hcap = 8 * (height as i64);
        let size = if raw > hcap {
            hcap
        } else {
            raw
        };
        proof {
            assert(size as int == sprite_size(*player, height as int));
        }
        if size >= 1 {
            let pw = (((size as u64) * 5) / 4) as i64;
            let ph = 2 * size;
            proof {
                vstd::arithmetic::div_mod::lemma_div_is_ordered(5, (size as int) * 5, 4);
                vstd::arithmetic::div_mod::lemma_div_is_ordered(
                    (size as int) * 5,
                    0x8000int * 5,
                    4,
                );
            }
            proof {
                assert((rel + FP_HALF_FOV) * (width as int) <= 446091int * 4096)
                    by (nonlinear_arith)
                    requires
                        0 <= rel + FP_HALF_FOV <= 446091,
                        0 < width as int <= 4096,
                ;
            }
            let sx = ((((rel + FP_HALF_FOV) as u64) * (width as u64) / 68630) % (
            width as u64)) as i64;
            let halfsize = ((size as u64) / 2) as i64;
            let t = (height as i64) - halfsize;
            let sy = if t >= 0 {
                ((t as u64) / 2) as i64
            } else {
                proof {
                    crate::fixed::lemma_floor_div_neg(t as int, 2);
                }
                -((((-t) as u64 + 1) / 2) as i64)
            };
            proof {
                assert(pw as int == sprite_size(*player, height as int) * 5 / 4);
                assert(1 <= pw <= 40960);
                assert(1 <= ph <= 65536);
                assert(sx as int == sprite_screen_x(*player, width as int));
                assert(0 <= sx < width);
                assert(sy as int == sprite_screen_y(size as int, height as int));
                assert(-0x3000 - 1 <= sy <= 0x1000);
            }
            let pwu = pw as u64;
            let phu = ph as u64;
            let mut y: usize = 0;
            while y < height
                invariant
                    1 <= width <= 4096,
                    1 <= height <= 4096,
                    n == width * height,
                    buffer@.len() == n,
                    0 <= y <= height,
                    player.wf(),
                    portal_visible(sprite_angle_of(*player), player.rotation as int),
                    size as int == sprite_size(*player, height as int),
                    1 <= size,
                    pw as int == sprite_size(*player, height as int) * 5 / 4,
                    ph == 2 * size,
                    1 <= pw <= 40960,
                    1 <= ph <= 65536,
                    pwu == pw as u64,
                    phu == ph as u64,
                    sx as int == sprite_screen_x(*player, width as int),
                    0 <= sx < width,
                    sy as int == sprite_screen_y(size as int, height as int),
                    -0x3000 - 1 <= sy <= 0x1000,
                    forall|i: int|
                        0 <= i < n ==> (if i / (width as int) < y {
                            portal_pixel_ok(
                                *player,
                                render_state.color_state,
                                width as int,
                                height as int,
                                i,
                                buffer@[i],
                            )
                        } else {
                            buffer@[i] == 0u32
                        }),
                decreases height - y,
            {
                let mut x: usize = 0;
                while x < width
                    invariant
                        1 <= width <= 4096,
                        1 <= height <= 4096,
                        n == width * height,
                        buffer@.len() == n,
                        0 <= y < height,
                        0 <= x <= width,
                        player.wf(),
                        portal_visible(sprite_angle_of(*player), player.rotation as int),
                        size as int == sprite_size(*player, height as int),
                        1 <= size,
                        pw as int == sprite_size(*player, height as int) * 5 / 4,
                        ph == 2 * size,
                        1 <= pw <= 40960,
                        1 <= ph <= 65536,
                        pwu == pw as u64,
                        phu == ph as u64,
                        sx as int == sprite_screen_x(*player, width as int),
                        0 <= sx < width,
                        sy as int == sprite_screen_y(size as int, height as int),
                        -0x3000 - 1 <= sy <= 0x1000,
                        forall|i: int|
                            0 <= i < n ==> (if i / (width as int) < y || (i / (width as int)
                                == y && i % (width as int) < x) {
                                portal_pixel_ok(
                                    *player,
                                    render_state.color_state,
                                    width as int,
                                    height as int,
                                    i,
                                    buffer@[i],
                                )
                            } else {
                                buffer@[i] == 0u32
                            }),
                    decreases width - x,
                {
                    let ghost idx_i = x as int + (y as int) * (width as int);
                    proof {
                        lemma_cell_index(width as int, height as int, x as int, y as int);
                        vstd::arithmetic::div_mod::lemma_fundamental_div_mod_converse(
                            idx_i,
                            width as int,
                            y as int,
                            x as int,
                        );
                    }
                    let ex = (x as i64) - sx;
                    let ey = (y as i64) - sy;
                    let aex = if ex >= 0 {
                        ex as u64
                    } else {
                        (-ex) as u64
                    };
                    let aey = if ey >= 0 {
                        ey as u64
                    } else {
                        (-ey) as u64
                    };
                    proof {
                        assert(aex * aex == ex as int * (ex as int) && aex * aex
                            <= 0x1000int * 0x1000) by (nonlinear_arith)
                            requires
                                aex as int == ex as int || aex as int == -(ex as int),
                                0 <= aex <= 0x1000,
                        ;
                        assert(aey * aey == ey as int * (ey as int) && aey * aey
                            <= 0x4001int * 0x4001) by (nonlinear_arith)
                            requires
                                aey as int == ey as int || aey as int == -(ey as int),
                                0 <= aey <= 0x4001,
                        ;
                        assert(phu * phu <= 0x10000int * 0x10000 && pwu * pwu <= 40960int
                            * 40960) by (nonlinear_arith)
                            requires
                                phu <= 0x10000,
                                pwu <= 40960,
                        ;
                        assert(aex * aex * (phu * phu) <= 0x1000000int * 0x100000000)
                            by (nonlinear_arith)
                            requires
                                aex * aex <= 0x1000000,
                                phu * phu <= 0x100000000,
                        ;
                        assert(aey * aey * (pwu * pwu) <= 0x10008001int * 0x64000000)
                            by (nonlinear_arith)
                            requires
                                aey * aey <= 0x10008001,
                                pwu * pwu <= 0x64000000,
                        ;
                        assert(pwu * pwu * (phu * phu) <= 0x64000000int * 0x100000000)
                            by (nonlinear_arith)
                            requires
                                pwu * pwu <= 0x64000000,
                                phu * phu <= 0x100000000,
                        ;
                    }
                    let lhs = aex * aex * (phu * phu) + aey * aey * (pwu * pwu);
                    let rhs = pwu * pwu * (phu * phu);
                    if lhs <= rhs {
                        let v: u32 = if !render_state.color_state {
                            if random_percent() < 10 {
                                0xFFFF_FFFFu32
                            } else {
                                0xFF00_0000u32
                            }
                        } else {
                            let c = get_random_color();
                            let vc = c ^ 0xFF00_0000u32;
                            proof {
                                assert(vc & 0xFF00_0000u32 == 0xFF00_0000u32) by (bit_vector)
                                    requires
                                        vc == c ^ 0xFF00_0000u32,
                                        c < 0x100_0000u32,
                                ;
                            }
                            vc
                        };
                        let idx = x + y * width;
                        buffer[idx] = v;
                    }
                    proof {
                        assert(inside_portal(
                            *player,
                            width as int,
                            height as int,
                            x as int,
                            y as int,
                        ) == (lhs as int <= rhs as int));
                        assert forall|i: int|
                            0 <= i < n implies (if i / (width as int) < y || (i / (
                        width as int) == y && i % (width as int) < x + 1) {
                            portal_pixel_ok(
                                *player,
                                render_state.color_state,
                                width as int,
                                height as int,
                                i,
                                buffer@[i],
                            )
                        } else {
                            buffer@[i] == 0u32
                        }) by {
                            vstd::arithmetic::div_mod::lemma_fundamental_div_mod(
                                i,
                                width as int,
                            );
                            if i % (width as int) == x as int && i / (width as int)
                                == y as int {
                                assert(i == idx_i) by (nonlinear_arith)
                                    requires
                                        i == (width as int) * (i / (width as int)) + i % (
                                        width as int),
                                        i % (width as int) == x as int,
                                        i / (width as int) == y as int,
                                        idx_i == x as int + (y as int) * (width as int),
                                ;
                            }
                        }
                    }
                    x = x + 1;
                }
                y = y + 1;
            }
            proof {
                assert forall|i: int| 0 <= i < n implies portal_pixel_ok(
                    *player,
                    render_state.color_state,
                    width as int,
                    height as int,
                    i,
                    buffer@[i],
                ) by {
                    vstd::arithmetic::div_mod::lemma_div_is_ordered(i, n - 1, width as int);
                    assert((n - 1) / (width as int) == height - 1) by {
                        assert(n - 1 == (height as int - 1) * (width as int) + (width as int
                            - 1)) by (nonlinear_arith)
                            requires
                                n == (width as int) * (height as int),
                        ;
                        vstd::arithmetic::div_mod::lemma_fundamental_div_mod_converse(
                            n - 1,
                            width as int,
                            height as int - 1,
                            width as int - 1,
                        );
                    }
                }
            }
        } else {
            proof {
                assert forall|i: int| 0 <= i < n implies portal_pixel_ok(
                    *player,
                    render_state.color_state,
                    width as int,
                    height as int,
                    i,
                    buffer@[i],
                ) by {
                    assert(!inside_portal(
                        *player,
                        width as int,
                        height as int,
                        i % (width as int),
                        i / (width as int),
                    ));
                }
            }
        }
    }
}

/// Overwrites every pixel with an independent random opaque color; the top
/// byte of each pixel comes out clear.
pub fn fill_buffer_rand(buffer: &mut Vec<u32>)
    ensures
        final(buffer)@.len() == old(buffer)@.len(),
        forall|i: int| 0 <= i < final(buffer)@.len() ==> final(buffer)@[i] < 0x100_0000,
{
    let n = buffer.len();
    let mut i: usize = 0;
    while i < n
        invariant
            buffer@.len() == n,
            0 <= i <= n,
            forall|j: int| 0 <= j < i ==> buffer@[j] < 0x100_0000,
        decreases n - i,
    {
        buffer[i] = get_random_color();
        i = i + 1;
    }
}

/// Overwrites every pixel with random pure black or pure white.
pub fn fill_buffer_rand_bw(buffer: &mut Vec<u32>)
    ensures
        final(buffer)@.len() == old(buffer)@.len(),
        forall|i: int|
            0 <= i < final(buffer)@.len() ==> final(buffer)@[i] == 0 || final(buffer)@[i]
                == 0xFF_FFFFu32,
{
    let n = buffer.len();
    let mut i: usize = 0;
    while i < n
        invariant
            buffer@.len() == n,
            0 <= i <= n,
            forall|j: int| 0 <= j < i ==> buffer@[j] == 0 || buffer@[j] == 0xFF_FFFFu32,
        decreases n - i,
    {
        let color_value: u32 = if random_bool() {
            255
        } else {
            0
        };
        let color = (color_value << 16) | (color_value << 8) | color_value;
        proof {
            assert((255u32 << 16) | (255u32 << 8) | 255u32 == 0xFF_FFFFu32) by (bit_vector);
            assert((0u32 << 16) | (0u32 << 8) | 0u32 == 0u32) by (bit_vector);
        }
        buffer[i] = color;
        i = i + 1;
    }
}

} // verus!
