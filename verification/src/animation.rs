//! The uniform data an animation pass reads: which atlas tile to sample.

use vstd::prelude::*;

verus! {

/// The per-frame animation state handed to the renderer.
pub struct AnimationUniform {
    pub tile_index: u32,
}

impl AnimationUniform {
    /// A uniform that selects the given atlas tile.
    pub fn new(tile_index: u32) -> (r: Self)
        ensures
            r.tile_index == tile_index,
    {
        Self { tile_index }
    }
}

} // verus!
