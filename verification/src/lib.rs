//! The logic of a grid raycaster game: level maps and their wall queries, the
//! screen-to-screen state machine, the software framebuffer's drawing primitives
//! (rectangles, discs, Bresenham lines), wall colours and minimap layout.
//!
//! Everything that works on real numbers (ray casting, player movement, sprite
//! projection, timers) and everything that talks to the window, the GPU, the audio
//! device or the file system lives in the program under `app/`.
use vstd::prelude::*;

pub mod color;
pub mod framebuffer;
pub mod map;
pub mod raycasting;
pub mod recorder;
pub mod sprite;
pub mod state;
pub mod textures;
pub mod weapon;

verus! {

} // verus!
