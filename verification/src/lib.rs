//! A streaming voxel-world core: a sparse grid of fixed-size chunks of
//! typed blocks, a per-block neighbor graph that stays consistent across
//! chunk boundaries, hidden-surface determination with incremental
//! re-evaluation, deterministic terrain generation with a sparse edit
//! overlay as the only persisted world state, a rate-limited streaming
//! scheduler, and a progressive block-destruction state machine.

use vstd::prelude::*;

pub mod assoc;
pub mod blocs;
pub mod chunk;
pub mod cracks;
pub mod destruction;
pub mod game_state;
pub mod generation;
pub mod linking;
pub mod loading;
pub mod world;

verus! {

/// Number of blocks along the x (Right) axis of a chunk.
pub const CHUNK_X: usize = 8;
/// Number of blocks along the y (Up) axis of a chunk.
pub const CHUNK_Y: usize = 16;
/// Number of blocks along the z (Front) axis of a chunk.
pub const CHUNK_Z: usize = 8;
/// Number of blocks a chunk owns.
pub const CHUNK_VOLUME: usize = CHUNK_X * CHUNK_Y * CHUNK_Z;

} // verus!
