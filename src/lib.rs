//! Streaming core of a voxel world client: which meta-chunks must be loaded
//! around a moving observer, which must be dropped, and which loaded chunks
//! get geometry, in what order and within what time budget.

use vstd::prelude::*;

pub mod block;
pub mod main_loop;
pub mod personal_world;
pub mod positions;
pub mod world;
pub mod worldgen;

verus! {

} // verus!
