//! Shared vocabulary of every tiling: relative sides of a split edge and the
//! shape of an edge-table entry.

use vstd::prelude::*;

verus! {

/// One half of an edge that a supertile shares with two of its subtiles,
/// seen from the walker crossing the edge.
#[derive(Copy, Clone, PartialEq, Eq, Debug, Hash, Structural)]
pub enum RelativeDirection {
    Left,
    Right,
}

impl RelativeDirection {
    /// The mirrored side: `Left <-> Right`.
    pub open spec fn invert_spec(self) -> RelativeDirection {
        match self {
            RelativeDirection::Left => RelativeDirection::Right,
            RelativeDirection::Right => RelativeDirection::Left,
        }
    }

    #[verifier::when_used_as_spec(invert_spec)]
    pub fn invert(self) -> (r: Self)
        ensures
            r == self.invert_spec(),
    {
        match self {
            RelativeDirection::Left => RelativeDirection::Right,
            RelativeDirection::Right => RelativeDirection::Left,
        }
    }
}

/// Where a walk continues after crossing an edge: either it lands in a
/// sibling subtile of the same parent, or it leaves the parent through one of
/// the parent's own edges.
#[derive(Copy, Clone, PartialEq, Eq, Debug, Structural)]
pub enum EdgeDefinitionType<Tile, Edge> {
    Inside(Tile, Edge),
    Outside(Edge),
}

/// A full edge-table entry: the continuation, plus the list of relative
/// sides (in reading order along the edge) that records which sub-edge of a
/// split edge the crossing uses.
#[derive(Clone, PartialEq, Eq, Debug)]
pub struct OutgoingEdgeDefinition<Tile, Edge> {
    pub edge_type: EdgeDefinitionType<Tile, Edge>,
    pub direction: Vec<RelativeDirection>,
}

} // verus!
