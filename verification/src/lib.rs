//! Runtime for a two-dimensional esoteric language whose program cells live on
//! a Penrose rhomb tiling.
//!
//! The crate is split along the system's natural seams: `geometry` holds the
//! tile species, the hierarchical tile addresses and the combinatorial
//! edge-walk that moves between neighbouring tiles; `language` holds the stack
//! value model, the instruction set and the stepping interpreter.

pub mod geometry;
pub mod language;
