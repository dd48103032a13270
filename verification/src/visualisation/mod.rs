pub mod render;
pub mod simulation;

use vstd::prelude::*;

verus! {

/// Width in pixels of the window when it first opens.
pub const INITIAL_WINDOW_WIDTH: u32 = 640;

/// Height in pixels of the window when it first opens.
pub const INITIAL_WINDOW_HEIGHT: u32 = 480;

} // verus!
