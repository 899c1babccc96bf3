use raycaster::fixed::{FP_HALF_PI, FP_ONE, NO_HIT};
use raycaster::raycast::{cast_dir, fast_raycast, slow_raycast};

fn empty_map(w: usize, h: usize) -> Vec<u8> {
    vec![0u8; w * h]
}

fn bordered_map(w: usize, h: usize) -> Vec<u8> {
    let mut m = vec![0u8; w * h];
    for x in 0..w {
        m[x] = 1;
        m[x + (h - 1) * w] = 1;
    }
    for y in 0..h {
        m[y * w] = 1;
        m[w - 1 + y * w] = 1;
    }
    m
}

#[test]
fn empty_map_never_hits() {
    let map = empty_map(32, 32);
    let start = 16 * FP_ONE + FP_ONE / 2;
    for k in 0..16 {
        let theta = k * 25736;
        let (d, uv) = fast_raycast(start, start, theta, 32, 32, &map);
        assert_eq!(d, NO_HIT);
        assert_eq!(uv, NO_HIT);
    }
}

#[test]
fn empty_map_never_hits_direction_form() {
    let map = empty_map(16, 16);
    let (d, uv) = cast_dir(8 * FP_ONE, 8 * FP_ONE, 46341, -46341, 16, 16, &map);
    assert_eq!(d, NO_HIT);
    assert_eq!(uv, NO_HIT);
}

#[test]
fn origin_outside_map_is_no_hit() {
    let mut map = empty_map(8, 8);
    map[3 + 3 * 8] = 1;
    let (d, uv) = fast_raycast(-2 * FP_ONE, 4 * FP_ONE, 0, 8, 8, &map);
    assert_eq!(d, NO_HIT);
    assert_eq!(uv, NO_HIT);
}

#[test]
fn single_tile_straight_down() {
    // A 32x32 map with one solid tile at (5, 5); the camera stands at
    // (5.5, 3.5) and faces straight down the y axis.  The ray crosses
    // y = 4 and then strikes the tile row at y = 5, so the distance is
    // exactly 1.5 units, and the hit lands halfway along the tile face.
    let mut map = empty_map(32, 32);
    map[5 + 5 * 32] = 1;
    let sx = 5 * FP_ONE + FP_ONE / 2;
    let sy = 3 * FP_ONE + FP_ONE / 2;
    let (d, uv) = fast_raycast(sx, sy, FP_HALF_PI, 32, 32, &map);
    assert_eq!(d, 3 * FP_ONE / 2);
    assert_eq!(uv, FP_ONE / 2);
}

#[test]
fn slow_march_agrees_with_dda_straight_down() {
    let mut map = empty_map(32, 32);
    map[5 + 5 * 32] = 1;
    let sx = 5 * FP_ONE + FP_ONE / 2;
    let sy = 3 * FP_ONE + FP_ONE / 2;
    let step = 655;
    let (fast, _) = fast_raycast(sx, sy, FP_HALF_PI, 32, 32, &map);
    let slow = slow_raycast(sx, sy, FP_HALF_PI, step, 32, 32, &map);
    assert!(slow >= fast);
    assert!(slow - fast <= step);
}

#[test]
fn slow_march_agrees_with_dda_along_x() {
    // Camera at (2.25, 10.5) facing +x, first wall tile at column 6: the
    // DDA distance is exactly 3.75 units and the march lands within one
    // step beyond it.
    let mut map = empty_map(32, 32);
    map[6 + 10 * 32] = 1;
    let sx = 2 * FP_ONE + FP_ONE / 4;
    let sy = 10 * FP_ONE + FP_ONE / 2;
    let step = 655;
    let (fast, _) = fast_raycast(sx, sy, 0, 32, 32, &map);
    assert_eq!(fast, 6 * FP_ONE - sx);
    let slow = slow_raycast(sx, sy, 0, step, 32, 32, &map);
    assert!(slow >= fast);
    assert!(slow - fast <= step);
}

#[test]
fn wall_offset_stays_in_unit_range() {
    let map = bordered_map(32, 32);
    let sx = 16 * FP_ONE + FP_ONE / 2;
    let sy = 16 * FP_ONE + FP_ONE / 2;
    for k in 0..64 {
        let theta = k * 6434;
        let (d, uv) = fast_raycast(sx, sy, theta, 32, 32, &map);
        assert!(d != NO_HIT);
        assert!(0 <= uv && uv < FP_ONE);
    }
}

#[test]
fn diagonal_hit_offset_in_range() {
    let map = bordered_map(16, 16);
    let (d, uv) = fast_raycast(
        2 * FP_ONE + FP_ONE / 2,
        2 * FP_ONE + FP_ONE / 2,
        51472,
        16,
        16,
        &map,
    );
    assert!(d != NO_HIT);
    assert!(0 <= uv && uv < FP_ONE);
}

#[test]
fn slow_march_returns_limit_on_empty_map() {
    let map = empty_map(8, 8);
    let d = slow_raycast(4 * FP_ONE, 4 * FP_ONE, 0, FP_ONE / 4, 8, 8, &map);
    // The march leaves the map through the east edge after four whole
    // units of travel.
    assert_eq!(d, 4 * FP_ONE);
}
