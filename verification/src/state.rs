//! The render-mode flags: whether the portal draws in color, and whether
//! the raycast debug view is active.  Passed explicitly into every call
//! that depends on them.

use vstd::prelude::*;

verus! {

/// Render-mode flags, toggled by edge-triggered key presses.
pub struct RenderState {
    pub color_state: bool,
    pub debug_render: bool,
}

impl RenderState {
    /// The starting mode: monochrome portal, raycast view off.
    pub fn new() -> (s: RenderState)
        ensures
            !s.color_state,
            !s.debug_render,
    {
        RenderState { color_state: false, debug_render: false }
    }
}

} // verus!
