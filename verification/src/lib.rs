//! A small evolution-simulation core: agents ("blobs") are each driven by a
//! recurrent neural network whose whole topology and connection weights are
//! packed into one 128-bit genome.
//!
//! The crate provides the three pieces that carry the simulation's logic:
//! decoding a genome into a validated network topology together with the
//! fixed evaluation schedule of that topology (`network`), the mutation
//! operator that derives a child genome from a parent (`genes`), and a
//! sweep-and-prune proximity index that narrows a marker query to a
//! contiguous window of a sorted sequence (`blob`).

use vstd::prelude::*;

pub mod blob;
pub mod food;
pub mod genes;
pub mod network;

verus! {

/// Phases of one simulation tick, in the order they run: agents move and
/// sense, then food is spawned and consumed, then everything drifts.
#[derive(Debug, Hash, PartialEq, Eq, Clone)]
pub enum Stages {
    FoodStage,
    BlobStage,
    MoveStage,
}

} // verus!
