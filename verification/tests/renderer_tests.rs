use raycaster::fixed::{FP_HALF_PI, FP_ONE};
use raycaster::player::Player;
use raycaster::renderer::{
    composite_difference, draw_portal, fill_buffer_rand, fill_buffer_rand_bw, get_random_color,
    render_aberration, render_black_and_white, scale_buffer,
};
use raycaster::state::RenderState;

fn bordered_map(w: usize, h: usize) -> Vec<u8> {
    let mut m = vec![0u8; w * h];
    for x in 0..w {
        m[x] = 1;
        m[x + (h - 1) * w] = 1;
    }
    for y in 0..h {
        m[y * w] = 1;
        m[w - 1 + y * w] = 1;
    }
    m
}

#[test]
fn scale_to_same_size_is_identity() {
    let buffer: Vec<u32> = (0..16u32).map(|v| v * 11 + 3).collect();
    let scaled = scale_buffer(&buffer, 4, 4, 4, 4);
    assert_eq!(scaled, buffer);
}

#[test]
fn scale_output_length_matches_destination() {
    let buffer = vec![7u32; 9];
    assert_eq!(scale_buffer(&buffer, 3, 3, 7, 5).len(), 35);
    assert_eq!(scale_buffer(&buffer, 3, 3, 1, 1).len(), 1);
    assert_eq!(scale_buffer(&buffer, 3, 3, 64, 2).len(), 128);
}

#[test]
fn scale_four_to_eight_duplicates_blocks() {
    // A 4x4 buffer doubled to 8x8: every 2x2 destination block must equal
    // the one source pixel it samples.
    let buffer: Vec<u32> = (0..16u32).map(|v| v * 10).collect();
    let scaled = scale_buffer(&buffer, 4, 4, 8, 8);
    assert_eq!(scaled.len(), 64);
    for y in 0..8 {
        for x in 0..8 {
            assert_eq!(scaled[x + y * 8], buffer[(x / 2) + (y / 2) * 4]);
        }
    }
}

#[test]
fn scale_all_zero_stays_zero() {
    let buffer = vec![0u32; 16];
    let scaled = scale_buffer(&buffer, 4, 4, 8, 8);
    assert!(scaled.iter().all(|&v| v == 0));
}

#[test]
fn compositing_inverts_changed_pixels_only() {
    let mut prev = vec![0x0000_0000u32, 0xFF12_3456, 0x0012_3456];
    let mask = vec![0xFF00_0000u32, 0xFF00_0000, 0x0000_0000];
    composite_difference(&mut prev, &mask);
    assert_eq!(prev[0], 0xFFFF_FFFF);
    assert_eq!(prev[1], 0xFF12_3456);
    assert_eq!(prev[2], 0x0012_3456);
}

#[test]
fn rendering_identical_frames_leaves_buffer_unchanged() {
    let map = bordered_map(32, 32);
    let player = Player::new(16 * FP_ONE + FP_ONE / 2, 16 * FP_ONE + FP_ONE / 2, 0);
    let mut buffer = vec![0u32; 64 * 48];
    let z1 = render_aberration(&mut buffer, &player, &map, 32, 32, 64, 48);
    assert_eq!(z1.len(), 64);
    let snapshot = buffer.clone();
    let z2 = render_aberration(&mut buffer, &player, &map, 32, 32, 64, 48);
    assert_eq!(buffer, snapshot);
    assert_eq!(z1, z2);
}

#[test]
fn first_frame_from_black_marks_walls() {
    let map = bordered_map(32, 32);
    let player = Player::new(16 * FP_ONE + FP_ONE / 2, 16 * FP_ONE + FP_ONE / 2, 0);
    let mut buffer = vec![0u32; 64 * 48];
    render_aberration(&mut buffer, &player, &map, 32, 32, 64, 48);
    assert!(buffer.iter().any(|&v| v == 0xFFFF_FFFF));
    assert!(buffer.iter().all(|&v| v == 0 || v == 0xFFFF_FFFF));
}

#[test]
fn black_and_white_render_clears_before_drawing() {
    let map = bordered_map(32, 32);
    let player = Player::new(16 * FP_ONE + FP_ONE / 2, 16 * FP_ONE + FP_ONE / 2, 0);
    let mut buffer = vec![0xDEAD_BEEFu32; 64 * 48];
    let z = render_black_and_white(&mut buffer, &player, &map, 32, 32, 64, 48);
    assert_eq!(z.len(), 64);
    assert!(buffer.iter().all(|&v| v == 0 || v == 0xFFFF_FFFF));
}

#[test]
fn portal_behind_camera_draws_nothing() {
    // Camera at (16, 20) facing +y: the portal at (16, 16) sits exactly
    // behind it, so no sprite pixel may appear.
    let player = Player::new(16 * FP_ONE, 20 * FP_ONE, FP_HALF_PI);
    let state = RenderState::new();
    let mut buffer = vec![0x1234_5678u32; 64 * 48];
    draw_portal(&mut buffer, &player, &state, 64, 48);
    assert!(buffer.iter().all(|&v| v == 0));
}

#[test]
fn portal_just_outside_field_of_view_draws_nothing() {
    // Facing so the portal sits one turn step beyond half the field of
    // view: still nothing is drawn.
    let rotation = 308832 - 34315 - 655;
    let player = Player::new(16 * FP_ONE, 20 * FP_ONE, rotation);
    let state = RenderState::new();
    let mut buffer = vec![0u32; 64 * 48];
    draw_portal(&mut buffer, &player, &state, 64, 48);
    assert!(buffer.iter().all(|&v| v == 0));
}

#[test]
fn portal_in_view_draws_noise_ellipse() {
    // Camera at (16, 20) facing -y (angle 3*pi/2), straight at the portal:
    // the ellipse centre pixel must be drawn, in one of the two static
    // colors, and pixels far outside the ellipse stay black.
    let player = Player::new(16 * FP_ONE, 20 * FP_ONE, 308832);
    let state = RenderState::new();
    let mut buffer = vec![0u32; 64 * 48];
    draw_portal(&mut buffer, &player, &state, 64, 48);
    let centre = buffer[32 + 21 * 64];
    assert!(centre == 0xFF00_0000 || centre == 0xFFFF_FFFF);
    assert_eq!(buffer[0], 0);
}

#[test]
fn portal_at_exact_half_fov_is_visible() {
    let rotation = 308832 - 34315;
    let player = Player::new(16 * FP_ONE, 20 * FP_ONE, rotation);
    let state = RenderState::new();
    let mut buffer = vec![0u32; 64 * 48];
    draw_portal(&mut buffer, &player, &state, 64, 48);
    let centre = buffer[0 + 21 * 64];
    assert!(centre == 0xFF00_0000 || centre == 0xFFFF_FFFF);
}

#[test]
fn portal_color_mode_sets_alpha_on_ellipse_pixels() {
    let player = Player::new(16 * FP_ONE, 20 * FP_ONE, 308832);
    let mut state = RenderState::new();
    let mut buffer = vec![0u32; 64 * 48];
    raycaster::input_handling::handle_input(&mut state, &mut buffer, true, false);
    assert!(state.color_state);
    let mut buffer = vec![0u32; 64 * 48];
    draw_portal(&mut buffer, &player, &state, 64, 48);
    let centre = buffer[32 + 21 * 64];
    assert_eq!(centre & 0xFF00_0000, 0xFF00_0000);
}

#[test]
fn random_color_leaves_top_byte_clear() {
    for _ in 0..64 {
        assert!(get_random_color() < 0x100_0000);
    }
}

#[test]
fn random_fill_pixels_are_colors() {
    let mut buffer = vec![0xFFFF_FFFFu32; 64];
    fill_buffer_rand(&mut buffer);
    assert_eq!(buffer.len(), 64);
    assert!(buffer.iter().all(|&v| v < 0x100_0000));
}

#[test]
fn black_white_fill_pixels_are_black_or_white() {
    let mut buffer = vec![0x1234_5678u32; 64];
    fill_buffer_rand_bw(&mut buffer);
    assert_eq!(buffer.len(), 64);
    assert!(buffer.iter().all(|&v| v == 0 || v == 0x00FF_FFFF));
}
