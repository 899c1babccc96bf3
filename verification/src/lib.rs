//! A first-person grid raycaster core: DDA ray marching over a tile map,
//! wall-slice projection with frame-difference compositing, a portal sprite
//! pass, and a nearest-neighbor buffer scaler.  All geometry is carried in
//! 16.16 fixed-point integers so that every step of the pipeline has an
//! exact, machine-checked contract.

pub mod fixed;
pub mod input_handling;
pub mod player;
pub mod raycast;
pub mod renderer;
pub mod state;
pub mod timer;
pub mod trig;
