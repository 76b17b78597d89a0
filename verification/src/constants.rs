use vstd::prelude::*;

verus! {

/// Width of the viewport, in world units.
pub const WINDOW_WIDTH: u32 = 1280;

/// Height of the viewport, in world units.
pub const WINDOW_HEIGHT: u32 = 720;

/// Edge length of one square chunk, in world units.
pub const CHUNK_SIZE: i32 = 64;

/// Chunks drawn beyond the viewport on every side.
pub const DRAW_MARGIN: i32 = 2;

/// Chunks kept loaded beyond the drawn window on every side.
pub const LOAD_MARGIN: i32 = 50;

} // verus!
