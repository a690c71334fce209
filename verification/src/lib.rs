//! Core of a procedural content generator built on the overlapping
//! "Wave Function Collapse" algorithm, for 2D images and 3D voxel grids.
//!
//! The library learns the set of local patterns that appear in an example
//! grid and synthesises an output grid in which every local neighborhood
//! is also a pattern from the example.  File decoding, progress reporting
//! and signal handling are left to the surrounding application; the core
//! works on plain cell grids.

use vstd::prelude::*;

pub mod bitset;
pub mod entropy;
pub mod generate;
pub mod image;
pub mod lattice;
pub mod offset;
pub mod pattern;
pub mod rng;
pub mod static_vec;
pub mod wave;

pub use generate::{Generator, UpdateResult, NUM_SEED_BYTES};
pub use image::{
    color_final_patterns_rgba, color_final_patterns_vox, color_superposition,
    make_palette_lattice, TileSet,
};
pub use lattice::{Extent, Lattice, Point};
pub use offset::{edge_2d_offsets, face_3d_offsets, OffsetGroup, OffsetId};
pub use pattern::{
    process_patterns_in_lattice, ConfigError, PatternConstraints, PatternId, PatternMap,
    PatternSampler, PatternSet, PatternShape, PatternTileSet,
};
pub use wave::Wave;

verus! {

/// Receives a read-only snapshot of the wave after each update, for
/// visualisation.  Implementations live outside the core.
pub trait FrameConsumer {
    fn use_frame(&mut self, frame: &lattice::Lattice<pattern::PatternSet>);
}

/// A frame consumer that discards every frame.
pub struct NilFrameConsumer;

impl FrameConsumer for NilFrameConsumer {
    fn use_frame(&mut self, _frame: &lattice::Lattice<pattern::PatternSet>) {
    }
}

} // verus!
