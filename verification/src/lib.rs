//! Splitting a byte buffer on a single delimiter byte.
//!
//! The search for the delimiter works on fixed-width blocks of lanes: one
//! block-wide comparison says whether a block holds the delimiter at all, and
//! halving the block finds the exact lane. Every function is verified against
//! the plain left-to-right definition in [`model`].

pub mod iter;
pub mod lanes;
pub mod laws;
pub mod locate;
pub mod model;

pub use iter::{FastSplit, FastSplitIter};
pub use lanes::LANES;
pub use locate::segment_len;
