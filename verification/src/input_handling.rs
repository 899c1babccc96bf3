//! Edge-triggered mode toggles.  Each toggle fires once per physical key
//! press; toggling also refills the debug buffer with one of the two random
//! fills, chosen by the color mode after the toggle.

use vstd::prelude::*;

verus! {

use crate::state::RenderState;
use crate::renderer::fill_buffer_rand;
use crate::renderer::fill_buffer_rand_bw;

/// A pixel of the black-and-white fill.
pub open spec fn bw_pixel(v: u32) -> bool {
    v == 0 || v == 0xFF_FFFFu32
}

/// A pixel of the random color fill: a packed color with a clear top byte.
pub open spec fn noise_pixel(v: u32) -> bool {
    v < 0x100_0000u32
}

/// Whether a press pair causes the buffer to be refilled: the debug toggle
/// always refills; the color toggle refills only while the debug view is
/// off.
pub open spec fn refills(state: RenderState, color_pressed: bool, debug_pressed: bool) -> bool {
    debug_pressed || (color_pressed && !state.debug_render)
}

/// Applies the edge-triggered mode toggles for one tick.  `color_pressed`
/// and `debug_pressed` are true only on the tick of the physical press.
/// Each pressed toggle flips its flag, and a refill (when one happens)
/// leaves the buffer in the fill class selected by the new color mode.
pub fn handle_input(
    render_state: &mut RenderState,
    buffer: &mut Vec<u32>,
    color_pressed: bool,
    debug_pressed: bool,
)
    ensures
        final(render_state).color_state == (if color_pressed {
            !old(render_state).color_state
        } else {
            old(render_state).color_state
        }),
        final(render_state).debug_render == (if debug_pressed {
            !old(render_state).debug_render
        } else {
            old(render_state).debug_render
        }),
        final(buffer)@.len() == old(buffer)@.len(),
        refills(*old(render_state), color_pressed, debug_pressed)
            && final(render_state).color_state ==> forall|i: int|
            0 <= i < final(buffer)@.len() ==> bw_pixel(final(buffer)@[i]),
        refills(*old(render_state), color_pressed, debug_pressed)
            && !final(render_state).color_state ==> forall|i: int|
            0 <= i < final(buffer)@.len() ==> noise_pixel(final(buffer)@[i]),
        !refills(*old(render_state), color_pressed, debug_pressed) ==> final(buffer)@
            == old(buffer)@,
{
    if color_pressed {
        render_state.color_state = !render_state.color_state;
        if !render_state.debug_render {
            if render_state.color_state {
                fill_buffer_rand_bw(buffer);
            } else {
                fill_buffer_rand(buffer);
            }
        }
    }
    if debug_pressed {
        render_state.debug_render = !render_state.debug_render;
        if render_state.color_state {
            fill_buffer_rand_bw(buffer);
        } else {
            fill_buffer_rand(buffer);
        }
    }
}

} // verus!
