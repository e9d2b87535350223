//! Combinatorial geometry of the Penrose rhomb tiling: tile species,
//! directions, edge tables and hierarchical tile addresses.

pub mod rhomb;
pub mod tile_reference;
pub mod tiling;
