use raycaster::fixed::{FP_HALF_PI, FP_ONE, FP_TWO_PI};
use raycaster::input_handling::handle_input;
use raycaster::player::{move_player, InputState, Player};
use raycaster::state::RenderState;
use raycaster::timer::Timer;
use raycaster::trig::{atan2_fp, cos_fp, isqrt, sin_fp};

fn idle_input() -> InputState {
    InputState {
        forward: false,
        backward: false,
        strafe_left: false,
        strafe_right: false,
        turn_left: false,
        turn_right: false,
    }
}

#[test]
fn forward_at_angle_zero_moves_along_x() {
    let mut p = Player::new(2 * FP_ONE, 3 * FP_ONE, 0);
    let mut input = idle_input();
    input.forward = true;
    move_player(&mut p, &input);
    assert_eq!(p.pos_x, 2 * FP_ONE + 6554);
    assert_eq!(p.pos_y, 3 * FP_ONE);
    assert_eq!(p.rotation, 0);
}

#[test]
fn backward_undoes_forward_exactly_on_axis() {
    let mut p = Player::new(2 * FP_ONE, 3 * FP_ONE, 0);
    let mut input = idle_input();
    input.forward = true;
    move_player(&mut p, &input);
    let mut back = idle_input();
    back.backward = true;
    move_player(&mut p, &back);
    assert_eq!(p.pos_x, 2 * FP_ONE);
    assert_eq!(p.pos_y, 3 * FP_ONE);
}

#[test]
fn forward_facing_down_moves_along_y() {
    let mut p = Player::new(2 * FP_ONE, 3 * FP_ONE, FP_HALF_PI);
    let mut input = idle_input();
    input.forward = true;
    move_player(&mut p, &input);
    assert_eq!(p.pos_x, 2 * FP_ONE);
    assert_eq!(p.pos_y, 3 * FP_ONE + 6554);
}

#[test]
fn turning_wraps_around_a_full_turn() {
    let mut p = Player::new(0, 0, 0);
    let mut input = idle_input();
    input.turn_left = true;
    move_player(&mut p, &input);
    assert_eq!(p.rotation, FP_TWO_PI - 655);
    let mut right = idle_input();
    right.turn_right = true;
    move_player(&mut p, &right);
    assert_eq!(p.rotation, 0);
}

#[test]
fn strafe_moves_perpendicular_to_facing() {
    let mut p = Player::new(8 * FP_ONE, 8 * FP_ONE, 0);
    let mut input = idle_input();
    input.strafe_left = true;
    move_player(&mut p, &input);
    // A quarter turn left of facing +x points along -y.
    assert_eq!(p.pos_x, 8 * FP_ONE);
    assert_eq!(p.pos_y, 8 * FP_ONE - 6554);
}

#[test]
fn no_press_changes_nothing() {
    let mut state = RenderState::new();
    let mut buffer = vec![42u32; 8];
    handle_input(&mut state, &mut buffer, false, false);
    assert!(!state.color_state);
    assert!(!state.debug_render);
    assert_eq!(buffer, vec![42u32; 8]);
}

#[test]
fn color_toggle_refills_black_and_white() {
    let mut state = RenderState::new();
    let mut buffer = vec![42u32; 8];
    handle_input(&mut state, &mut buffer, true, false);
    assert!(state.color_state);
    assert!(!state.debug_render);
    assert!(buffer.iter().all(|&v| v == 0 || v == 0x00FF_FFFF));
}

#[test]
fn second_color_toggle_refills_noise() {
    let mut state = RenderState::new();
    let mut buffer = vec![42u32; 8];
    handle_input(&mut state, &mut buffer, true, false);
    handle_input(&mut state, &mut buffer, true, false);
    assert!(!state.color_state);
    assert!(buffer.iter().all(|&v| v < 0x100_0000));
}

#[test]
fn debug_toggle_flips_flag_and_refills() {
    let mut state = RenderState::new();
    let mut buffer = vec![42u32; 8];
    handle_input(&mut state, &mut buffer, false, true);
    assert!(state.debug_render);
    assert!(buffer.iter().all(|&v| v < 0x100_0000));
}

#[test]
fn color_toggle_with_debug_on_keeps_buffer() {
    let mut state = RenderState::new();
    let mut buffer = vec![42u32; 8];
    handle_input(&mut state, &mut buffer, false, true);
    let snapshot = buffer.clone();
    handle_input(&mut state, &mut buffer, true, false);
    assert!(state.color_state);
    assert_eq!(buffer, snapshot);
}

#[test]
fn timer_counts_until_interval_elapses() {
    let mut t = Timer::new(1000);
    assert_eq!(t.tick, 0);
    assert_eq!(t.duration_ms, 1000);
    assert_eq!(t.tick(10), None);
    assert_eq!(t.tick(500), None);
    assert_eq!(t.tick, 2);
    assert_eq!(t.tick(1000), Some(3));
    assert_eq!(t.tick, 0);
}

#[test]
fn timer_with_zero_interval_fires_every_tick() {
    let mut t = Timer::new(0);
    assert_eq!(t.tick(0), Some(1));
    assert_eq!(t.tick(0), Some(1));
}

#[test]
fn sine_and_cosine_hit_the_cardinal_points() {
    assert_eq!(sin_fp(0), 0);
    assert_eq!(sin_fp(FP_HALF_PI), FP_ONE);
    assert_eq!(cos_fp(0), FP_ONE);
    assert_eq!(cos_fp(FP_HALF_PI), 0);
    assert_eq!(cos_fp(2 * FP_HALF_PI), -FP_ONE);
    assert_eq!(sin_fp(3 * FP_HALF_PI), -FP_ONE);
}

#[test]
fn integer_square_root_brackets() {
    assert_eq!(isqrt(0), 0);
    assert_eq!(isqrt(15), 3);
    assert_eq!(isqrt(16), 4);
    assert_eq!(isqrt(262144 * 262144), 262144);
    assert_eq!(isqrt(u64::MAX), 4294967295);
}

#[test]
fn arctangent_hits_the_cardinal_points() {
    assert_eq!(atan2_fp(0, 5 * FP_ONE), 0);
    assert_eq!(atan2_fp(5 * FP_ONE, 0), FP_HALF_PI);
    assert_eq!(atan2_fp(0, -5 * FP_ONE), 2 * FP_HALF_PI);
    assert_eq!(atan2_fp(-5 * FP_ONE, 0), 3 * FP_HALF_PI);
}
