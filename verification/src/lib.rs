//! Alignment refinement and CIGAR normalization for long-read overlaps.
//!
//! The crate models run-length alignment traces (extended CIGAR), the
//! strand-aware coordinate math that folds a pairwise aligner's output back
//! into overlap coordinates, the left-alignment canonicalization of indels,
//! and the accuracy statistics derived from a finalized trace.

pub mod accuracy;
pub mod cigar;
pub mod dna;
pub mod normalize;
pub mod orient;
pub mod overlap;
pub mod span;

pub use cigar::CigarOp;
