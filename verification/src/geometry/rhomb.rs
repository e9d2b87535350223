//! The Penrose rhomb instantiation: five tile species, four compass
//! directions, the deflation pattern and the two neighbour tables.

use vstd::prelude::*;

use crate::geometry::tiling::{EdgeDefinitionType, OutgoingEdgeDefinition, RelativeDirection};

verus! {

/// A compass direction; the four outgoing edges of every rhomb.
#[derive(Copy, Clone, Eq, PartialEq, Debug, Hash, Structural)]
pub enum AbsoluteDirection {
    North,
    East,
    South,
    West,
}

impl AbsoluteDirection {
    pub open spec fn turn_left_spec(self) -> AbsoluteDirection {
        match self {
            AbsoluteDirection::North => AbsoluteDirection::West,
            AbsoluteDirection::East => AbsoluteDirection::South,
            AbsoluteDirection::South => AbsoluteDirection::East,
            AbsoluteDirection::West => AbsoluteDirection::North,
        }
    }

    #[verifier::when_used_as_spec(turn_left_spec)]
    pub fn turn_left(self) -> (r: Self)
        ensures
            r == self.turn_left_spec(),
    {
        match self {
            AbsoluteDirection::North => AbsoluteDirection::West,
            AbsoluteDirection::East => AbsoluteDirection::South,
            AbsoluteDirection::South => AbsoluteDirection::East,
            AbsoluteDirection::West => AbsoluteDirection::North,
        }
    }

    pub open spec fn turn_right_spec(self) -> AbsoluteDirection {
        match self {
            AbsoluteDirection::North => AbsoluteDirection::East,
            AbsoluteDirection::East => AbsoluteDirection::South,
            AbsoluteDirection::South => AbsoluteDirection::West,
            AbsoluteDirection::West => AbsoluteDirection::North,
        }
    }

    #[verifier::when_used_as_spec(turn_right_spec)]
    pub fn turn_right(self) -> (r: Self)
        ensures
            r == self.turn_right_spec(),
    {
        match self {
            AbsoluteDirection::North => AbsoluteDirection::East,
            AbsoluteDirection::East => AbsoluteDirection::South,
            AbsoluteDirection::South => AbsoluteDirection::West,
            AbsoluteDirection::West => AbsoluteDirection::North,
        }
    }

    pub open spec fn opposite_spec(self) -> AbsoluteDirection {
        match self {
            AbsoluteDirection::North => AbsoluteDirection::South,
            AbsoluteDirection::East => AbsoluteDirection::West,
            AbsoluteDirection::South => AbsoluteDirection::North,
            AbsoluteDirection::West => AbsoluteDirection::East,
        }
    }

    #[verifier::when_used_as_spec(opposite_spec)]
    pub fn opposite(self) -> (r: Self)
        ensures
            r == self.opposite_spec(),
    {
        match self {
            AbsoluteDirection::North => AbsoluteDirection::South,
            AbsoluteDirection::East => AbsoluteDirection::West,
            AbsoluteDirection::South => AbsoluteDirection::North,
            AbsoluteDirection::West => AbsoluteDirection::East,
        }
    }

    /// Parses the textual form used in a source-line prefix: one-letter or
    /// full compass name, ASCII case-insensitive.
    pub open spec fn from_chars_spec(s: Seq<char>) -> Option<AbsoluteDirection> {
        if s == seq!['n'] || s == seq!['n', 'o', 'r', 't', 'h'] {
            Some(AbsoluteDirection::North)
        } else if s == seq!['e'] || s == seq!['e', 'a', 's', 't'] {
            Some(AbsoluteDirection::East)
        } else if s == seq!['s'] || s == seq!['s', 'o', 'u', 't', 'h'] {
            Some(AbsoluteDirection::South)
        } else if s == seq!['w'] || s == seq!['w', 'e', 's', 't'] {
            Some(AbsoluteDirection::West)
        } else {
            None
        }
    }

    /// All four directions, in the order used to pick the default direction
    /// of a source line (the first entry).
    pub fn variants() -> (r: [AbsoluteDirection; 4])
        ensures
            r@ == seq![
                AbsoluteDirection::North,
                AbsoluteDirection::East,
                AbsoluteDirection::South,
                AbsoluteDirection::West,
            ],
    {
        let r = [
            AbsoluteDirection::North,
            AbsoluteDirection::East,
            AbsoluteDirection::South,
            AbsoluteDirection::West,
        ];
        proof {
            assert(r@ =~= seq![
                AbsoluteDirection::North,
                AbsoluteDirection::East,
                AbsoluteDirection::South,
                AbsoluteDirection::West,
            ]);
        }
        r
    }
}

/// One of the five tile species of the rhomb tiling: `A`, `C`, `E` are the
/// thick rhombs, `B`, `D` the thin ones. A species is pure identity; it has
/// no geometry here.
#[derive(Copy, Clone, Eq, PartialEq, Debug, Hash, Structural)]
pub enum Tile {
    A,
    B,
    C,
    D,
    E,
}

impl Tile {
    /// Position of the species in enumeration order `A, B, C, D, E`.
    pub open spec fn index_spec(self) -> usize {
        match self {
            Tile::A => 0,
            Tile::B => 1,
            Tile::C => 2,
            Tile::D => 3,
            Tile::E => 4,
        }
    }

    #[verifier::when_used_as_spec(index_spec)]
    pub fn index(self) -> (r: usize)
        ensures
            r == self.index_spec(),
    {
        match self {
            Tile::A => 0,
            Tile::B => 1,
            Tile::C => 2,
            Tile::D => 3,
            Tile::E => 4,
        }
    }

    /// All five species in enumeration order.
    pub fn variants() -> (r: [Tile; 5])
        ensures
            r@ == seq![Tile::A, Tile::B, Tile::C, Tile::D, Tile::E],
    {
        let r = [Tile::A, Tile::B, Tile::C, Tile::D, Tile::E];
        proof {
            assert(r@ =~= seq![Tile::A, Tile::B, Tile::C, Tile::D, Tile::E]);
        }
        r
    }

    /// The species named by a source character, ASCII case-insensitive;
    /// any other character is handed back as the error.
    pub open spec fn from_char_spec(c: char) -> Option<Tile> {
        if c == 'a' || c == 'A' {
            Some(Tile::A)
        } else if c == 'b' || c == 'B' {
            Some(Tile::B)
        } else if c == 'c' || c == 'C' {
            Some(Tile::C)
        } else if c == 'd' || c == 'D' {
            Some(Tile::D)
        } else if c == 'e' || c == 'E' {
            Some(Tile::E)
        } else {
            None
        }
    }

    /// The fill colour a renderer shows this species with.
    pub fn get_color(self) -> (r: &'static str)
        ensures
            match self {
                Tile::A => r@ == "red"@,
                Tile::B => r@ == "green"@,
                Tile::C => r@ == "blue"@,
                Tile::D => r@ == "magenta"@,
                Tile::E => r@ == "orange"@,
            },
    {
        match self {
            Tile::A => "red",
            Tile::B => "green",
            Tile::C => "blue",
            Tile::D => "magenta",
            Tile::E => "orange",
        }
    }

    pub fn try_from_char(c: char) -> (r: Result<Tile, char>)
        ensures
            match Tile::from_char_spec(c) {
                Some(t) => r == Ok::<Tile, char>(t),
                None => r == Err::<Tile, char>(c),
            },
    {
        match c {
            'a' | 'A' => Ok(Tile::A),
            'b' | 'B' => Ok(Tile::B),
            'c' | 'C' => Ok(Tile::C),
            'd' | 'D' => Ok(Tile::D),
            'e' | 'E' => Ok(Tile::E),
            _ => Err(c),
        }
    }
}

/// The fixed deflation pattern: the species that is implicitly present at
/// each level of the hierarchy beyond an address's stored prefix.
pub open spec fn tile_pattern() -> Seq<Tile> {
    seq![Tile::C, Tile::E, Tile::D, Tile::B, Tile::A, Tile::A]
}

/// The implicit default species at level `i`: the deflation pattern repeated
/// cyclically.
pub open spec fn pattern_at(i: int) -> Tile {
    tile_pattern()[i % 6]
}

/// Reads the default species for level `index` out of the cyclic pattern.
pub fn pattern_tile(index: usize) -> (r: Tile)
    ensures
        r == pattern_at(index as int),
{
    let r = match index % 6 {
        0 => Tile::C,
        1 => Tile::E,
        2 => Tile::D,
        3 => Tile::B,
        _ => Tile::A,
    };
    proof {
        assert(0 <= (index as int) % 6 < 6) by (nonlinear_arith);
        assert((index % 6) as int == (index as int) % 6);
    }
    r
}

/// The containment rule of the deflation: which species may sit directly
/// inside which. Thick rhombs `A, C, E` contain `A, B, C`; thin rhombs
/// `B, D` contain `D, E`.
pub open spec fn can_fit(inner: Tile, outer: Tile) -> bool {
    match (inner, outer) {
        (Tile::A | Tile::B | Tile::C, Tile::A | Tile::C | Tile::E) => true,
        (Tile::D | Tile::E, Tile::B | Tile::D) => true,
        _ => false,
    }
}

/// Marker type that bundles the rhomb tiling's tables.
pub struct RhombTiling;

/// An edge-table entry at the specification level: the continuation and the
/// list of relative sides of the crossing.
pub type EdgeEntry = (EdgeDefinitionType<Tile, AbsoluteDirection>, Seq<RelativeDirection>);

/// The internal edge table. For a tile seen as a supertile, it says what
/// lies across each of its own outgoing edges: a sibling subtile inside the
/// same parent, or an exit through one of the parent's edges together with
/// the relative sides of the sub-edge used.
pub open spec fn internal_edge_spec(tile: Tile, direction: AbsoluteDirection) -> EdgeEntry {
    let n = AbsoluteDirection::North;
    let e = AbsoluteDirection::East;
    let s = AbsoluteDirection::South;
    let w = AbsoluteDirection::West;
    let l = RelativeDirection::Left;
    let r = RelativeDirection::Right;
    match tile {
        Tile::A => match direction {
            AbsoluteDirection::North => (EdgeDefinitionType::Inside(Tile::B, n), seq![]),
            AbsoluteDirection::East => (EdgeDefinitionType::Outside(n), seq![l, r]),
            AbsoluteDirection::South => (EdgeDefinitionType::Outside(n), seq![r]),
            AbsoluteDirection::West => (EdgeDefinitionType::Outside(e), seq![l]),
        },
        Tile::B => match direction {
            AbsoluteDirection::North => (EdgeDefinitionType::Inside(Tile::A, n), seq![]),
            AbsoluteDirection::East => (EdgeDefinitionType::Outside(e), seq![r, l]),
            AbsoluteDirection::South => (EdgeDefinitionType::Outside(e), seq![r, r]),
            AbsoluteDirection::West => (EdgeDefinitionType::Outside(s), seq![l]),
        },
        Tile::C => match direction {
            AbsoluteDirection::North => (EdgeDefinitionType::Outside(s), seq![r]),
            AbsoluteDirection::East => (EdgeDefinitionType::Outside(w), seq![l]),
            AbsoluteDirection::South => (EdgeDefinitionType::Outside(w), seq![r]),
            AbsoluteDirection::West => (EdgeDefinitionType::Outside(n), seq![l, l]),
        },
        Tile::D => match direction {
            AbsoluteDirection::North => (EdgeDefinitionType::Inside(Tile::E, n), seq![]),
            AbsoluteDirection::East => (EdgeDefinitionType::Outside(n), seq![r, l]),
            AbsoluteDirection::South => (EdgeDefinitionType::Outside(n), seq![r, r]),
            AbsoluteDirection::West => (EdgeDefinitionType::Outside(e), seq![l, l]),
        },
        Tile::E => match direction {
            AbsoluteDirection::North => (EdgeDefinitionType::Inside(Tile::D, n), seq![]),
            AbsoluteDirection::East => (EdgeDefinitionType::Outside(w), seq![l]),
            AbsoluteDirection::South => (EdgeDefinitionType::Outside(w), seq![r]),
            AbsoluteDirection::West => (EdgeDefinitionType::Outside(n), seq![l]),
        },
    }
}

/// The external edge table. Given that a walk re-enters `tile` from
/// `direction` at the sub-edge named by `side`, it says where the walk
/// continues. Thick and thin species each share one table. Combinations
/// that no crossing can produce have no entry.
pub open spec fn external_edge_spec(
    tile: Tile,
    direction: AbsoluteDirection,
    side: Seq<RelativeDirection>,
) -> Option<EdgeEntry> {
    let n = AbsoluteDirection::North;
    let e = AbsoluteDirection::East;
    let s = AbsoluteDirection::South;
    let w = AbsoluteDirection::West;
    let l = RelativeDirection::Left;
    let r = RelativeDirection::Right;
    match tile {
        Tile::A | Tile::C | Tile::E => match direction {
            AbsoluteDirection::North => if side.len() == 2 && side[0] == l && side[1] == l {
                Some((EdgeDefinitionType::Inside(Tile::C, w), seq![]))
            } else if side.len() == 2 && side[0] == l && side[1] == r {
                Some((EdgeDefinitionType::Inside(Tile::A, e), seq![]))
            } else if side.len() == 1 && side[0] == r {
                Some((EdgeDefinitionType::Inside(Tile::A, s), seq![]))
            } else {
                None
            },
            AbsoluteDirection::East => if side.len() == 1 && side[0] == l {
                Some((EdgeDefinitionType::Inside(Tile::A, w), seq![]))
            } else if side.len() == 2 && side[0] == r && side[1] == l {
                Some((EdgeDefinitionType::Inside(Tile::B, e), seq![]))
            } else if side.len() == 2 && side[0] == r && side[1] == r {
                Some((EdgeDefinitionType::Inside(Tile::B, s), seq![]))
            } else {
                None
            },
            AbsoluteDirection::South => if side.len() == 1 && side[0] == l {
                Some((EdgeDefinitionType::Inside(Tile::B, w), seq![]))
            } else if side.len() == 1 && side[0] == r {
                Some((EdgeDefinitionType::Inside(Tile::C, n), seq![]))
            } else {
                None
            },
            AbsoluteDirection::West => if side.len() == 1 && side[0] == l {
                Some((EdgeDefinitionType::Inside(Tile::C, e), seq![]))
            } else if side.len() == 1 && side[0] == r {
                Some((EdgeDefinitionType::Inside(Tile::C, s), seq![]))
            } else {
                None
            },
        },
        Tile::B | Tile::D => match direction {
            AbsoluteDirection::North => if side.len() == 1 && side[0] == l {
                Some((EdgeDefinitionType::Inside(Tile::E, w), seq![]))
            } else if side.len() == 2 && side[0] == r && side[1] == l {
                Some((EdgeDefinitionType::Inside(Tile::D, e), seq![]))
            } else if side.len() == 2 && side[0] == r && side[1] == r {
                Some((EdgeDefinitionType::Inside(Tile::D, s), seq![]))
            } else {
                None
            },
            AbsoluteDirection::East => if side.len() == 2 && side[0] == l && side[1] == l {
                Some((EdgeDefinitionType::Inside(Tile::D, w), seq![]))
            } else if side.len() == 2 && side[0] == l && side[1] == r {
                Some((EdgeDefinitionType::Outside(s), seq![r]))
            } else if side.len() == 1 && side[0] == r {
                Some((EdgeDefinitionType::Outside(s), seq![l]))
            } else {
                None
            },
            AbsoluteDirection::South => if side.len() == 1 && side[0] == l {
                Some((EdgeDefinitionType::Outside(e), seq![r]))
            } else if side.len() == 1 && side[0] == r {
                Some((EdgeDefinitionType::Outside(e), seq![l, r]))
            } else {
                None
            },
            AbsoluteDirection::West => if side.len() == 1 && side[0] == l {
                Some((EdgeDefinitionType::Inside(Tile::E, e), seq![]))
            } else if side.len() == 1 && side[0] == r {
                Some((EdgeDefinitionType::Inside(Tile::E, s), seq![]))
            } else {
                None
            },
        },
    }
}

/// Builds an `Inside` entry with no sides.
fn def_inside(tile: Tile, direction: AbsoluteDirection) -> (r: OutgoingEdgeDefinition<
    Tile,
    AbsoluteDirection,
>)
    ensures
        r.edge_type == EdgeDefinitionType::<Tile, AbsoluteDirection>::Inside(tile, direction),
        r.direction@ == Seq::<RelativeDirection>::empty(),
{
    let v: Vec<RelativeDirection> = Vec::new();
    OutgoingEdgeDefinition { edge_type: EdgeDefinitionType::Inside(tile, direction), direction: v }
}

/// Builds an `Outside` entry with one side.
fn def_outside1(direction: AbsoluteDirection, a: RelativeDirection) -> (r: OutgoingEdgeDefinition<
    Tile,
    AbsoluteDirection,
>)
    ensures
        r.edge_type == EdgeDefinitionType::<Tile, AbsoluteDirection>::Outside(direction),
        r.direction@ == seq![a],
{
    let mut v: Vec<RelativeDirection> = Vec::new();
    v.push(a);
    proof {
        assert(v@ =~= seq![a]);
    }
    OutgoingEdgeDefinition { edge_type: EdgeDefinitionType::Outside(direction), direction: v }
}

/// Builds an `Outside` entry with two sides.
fn def_outside2(
    direction: AbsoluteDirection,
    a: RelativeDirection,
    b: RelativeDirection,
) -> (r: OutgoingEdgeDefinition<Tile, AbsoluteDirection>)
    ensures
        r.edge_type == EdgeDefinitionType::<Tile, AbsoluteDirection>::Outside(direction),
        r.direction@ == seq![a, b],
{
    let mut v: Vec<RelativeDirection> = Vec::new();
    v.push(a);
    v.push(b);
    proof {
        assert(v@ =~= seq![a, b]);
    }
    OutgoingEdgeDefinition { edge_type: EdgeDefinitionType::Outside(direction), direction: v }
}

impl RhombTiling {
    /// The internal edge table, executable form; agrees with
    /// [`internal_edge_spec`] entry for entry.
    pub fn get_internal_edge_definition(
        tile: Tile,
        direction: AbsoluteDirection,
    ) -> (r: OutgoingEdgeDefinition<Tile, AbsoluteDirection>)
        ensures
            (r.edge_type, r.direction@) == internal_edge_spec(tile, direction),
    {
        let n = AbsoluteDirection::North;
        let e = AbsoluteDirection::East;
        let s = AbsoluteDirection::South;
        let l = RelativeDirection::Left;
        let rr = RelativeDirection::Right;
        match tile {
            Tile::A => match direction {
                AbsoluteDirection::North => def_inside(Tile::B, n),
                AbsoluteDirection::East => def_outside2(n, l, rr),
                AbsoluteDirection::South => def_outside1(n, rr),
                AbsoluteDirection::West => def_outside1(e, l),
            },
            Tile::B => match direction {
                AbsoluteDirection::North => def_inside(Tile::A, n),
                AbsoluteDirection::East => def_outside2(e, rr, l),
                AbsoluteDirection::South => def_outside2(e, rr, rr),
                AbsoluteDirection::West => def_outside1(s, l),
            },
            Tile::C => match direction {
                AbsoluteDirection::North => def_outside1(s, rr),
                AbsoluteDirection::East => def_outside1(AbsoluteDirection::West, l),
                AbsoluteDirection::South => def_outside1(AbsoluteDirection::West, rr),
                AbsoluteDirection::West => def_outside2(n, l, l),
            },
            Tile::D => match direction {
                AbsoluteDirection::North => def_inside(Tile::E, n),
                AbsoluteDirection::East => def_outside2(n, rr, l),
                AbsoluteDirection::South => def_outside2(n, rr, rr),
                AbsoluteDirection::West => def_outside2(e, l, l),
            },
            Tile::E => match direction {
                AbsoluteDirection::North => def_inside(Tile::D, n),
                AbsoluteDirection::East => def_outside1(AbsoluteDirection::West, l),
                AbsoluteDirection::South => def_outside1(AbsoluteDirection::West, rr),
                AbsoluteDirection::West => def_outside1(n, l),
            },
        }
    }

    /// The external edge table, executable form; agrees with
    /// [`external_edge_spec`] entry for entry, returning `None` exactly
    /// where the table has no entry.
    pub fn get_external_edge_definition(
        tile: Tile,
        direction: AbsoluteDirection,
        side: Vec<RelativeDirection>,
    ) -> (r: Option<OutgoingEdgeDefinition<Tile, AbsoluteDirection>>)
        ensures
            match external_edge_spec(tile, direction, side@) {
                Some(entry) => r matches Some(o) && (o.edge_type, o.direction@) == entry,
                None => r is None,
            },
    {
        let e = AbsoluteDirection::East;
        let s = AbsoluteDirection::South;
        let w = AbsoluteDirection::West;
        let l = RelativeDirection::Left;
        let rr = RelativeDirection::Right;
        let s1l = side_is1(&side, l);
        let s1r = side_is1(&side, rr);
        let sll = side_is2(&side, l, l);
        let slr = side_is2(&side, l, rr);
        let srl = side_is2(&side, rr, l);
        let srr = side_is2(&side, rr, rr);
        match tile {
            Tile::A | Tile::C | Tile::E => match direction {
                AbsoluteDirection::North => if sll {
                    Some(def_inside(Tile::C, w))
                } else if slr {
                    Some(def_inside(Tile::A, e))
                } else if s1r {
                    Some(def_inside(Tile::A, s))
                } else {
                    None
                },
                AbsoluteDirection::East => if s1l {
                    Some(def_inside(Tile::A, w))
                } else if srl {
                    Some(def_inside(Tile::B, e))
                } else if srr {
                    Some(def_inside(Tile::B, s))
                } else {
                    None
                },
                AbsoluteDirection::South => if s1l {
                    Some(def_inside(Tile::B, w))
                } else if s1r {
                    Some(def_inside(Tile::C, AbsoluteDirection::North))
                } else {
                    None
                },
                AbsoluteDirection::West => if s1l {
                    Some(def_inside(Tile::C, e))
                } else if s1r {
                    Some(def_inside(Tile::C, s))
                } else {
                    None
                },
            },
            Tile::B | Tile::D => match direction {
                AbsoluteDirection::North => if s1l {
                    Some(def_inside(Tile::E, w))
                } else if srl {
                    Some(def_inside(Tile::D, e))
                } else if srr {
                    Some(def_inside(Tile::D, s))
                } else {
                    None
                },
                AbsoluteDirection::East => if sll {
                    Some(def_inside(Tile::D, w))
                } else if slr {
                    Some(def_outside1(s, rr))
                } else if s1r {
                    Some(def_outside1(s, l))
                } else {
                    None
                },
                AbsoluteDirection::South => if s1l {
                    Some(def_outside1(e, rr))
                } else if s1r {
                    Some(def_outside2(e, l, rr))
                } else {
                    None
                },
                AbsoluteDirection::West => if s1l {
                    Some(def_inside(Tile::E, e))
                } else if s1r {
                    Some(def_inside(Tile::E, s))
                } else {
                    None
                },
            },
        }
    }

    /// The containment rule, executable form: `Ok` exactly when `inner_tile`
    /// may sit directly inside `outer_tile`; the error names the pair.
    pub fn can_tile_fit_in_tile(inner_tile: Tile, outer_tile: Tile) -> (r: Result<
        (),
        crate::geometry::tile_reference::CoordinateTraversalError,
    >)
        ensures
            can_fit(inner_tile, outer_tile) <==> r is Ok,
            !can_fit(inner_tile, outer_tile) ==> (r matches Err(err)
                && err.inner_tile == inner_tile && err.outer_tile == outer_tile),
    {
        match (inner_tile, outer_tile) {
            (Tile::A | Tile::B | Tile::C, Tile::A | Tile::C | Tile::E) => Ok(()),
            (Tile::D | Tile::E, Tile::B | Tile::D) => Ok(()),
            _ => Err(
                crate::geometry::tile_reference::CoordinateTraversalError {
                    inner_tile,
                    outer_tile,
                },
            ),
        }
    }
}

/// True exactly when `side` is the one-element list `[a]`.
fn side_is1(side: &Vec<RelativeDirection>, a: RelativeDirection) -> (r: bool)
    ensures
        r <==> side@.len() == 1 && side@[0] == a,
{
    side.len() == 1 && side[0] == a
}

/// True exactly when `side` is the two-element list `[a, b]`.
fn side_is2(side: &Vec<RelativeDirection>, a: RelativeDirection, b: RelativeDirection) -> (r: bool)
    ensures
        r <==> side@.len() == 2 && side@[0] == a && side@[1] == b,
{
    side.len() == 2 && side[0] == a && side[1] == b
}

/// Every `Inside` entry of the internal table is mirrored: entering the named
/// sibling from the named direction leads straight back, and both entries
/// carry no sides. Edges between siblings are undirected.
pub proof fn lemma_internal_symmetry(tile: Tile, direction: AbsoluteDirection)
    ensures
        internal_edge_spec(tile, direction).0 matches EdgeDefinitionType::Inside(t2, d2) ==> {
            &&& internal_edge_spec(tile, direction).1.len() == 0
            &&& internal_edge_spec(t2, d2).0 == EdgeDefinitionType::<
                Tile,
                AbsoluteDirection,
            >::Inside(tile, direction)
            &&& internal_edge_spec(t2, d2).1.len() == 0
        },
{
}

/// Every `Outside` entry of the internal table closes up: re-entering any
/// legal parent species from the exit direction at the recorded sides lands
/// exactly on the tile and direction the walk left through, with no sides
/// left over.
pub proof fn lemma_external_closure(tile: Tile, direction: AbsoluteDirection, parent: Tile)
    requires
        can_fit(tile, parent),
    ensures
        internal_edge_spec(tile, direction).0 matches EdgeDefinitionType::Outside(d2)
            ==> external_edge_spec(parent, d2, internal_edge_spec(tile, direction).1)
                matches Some(entry) && entry.0 == EdgeDefinitionType::<
                    Tile,
                    AbsoluteDirection,
                >::Inside(tile, direction) && entry.1.len() == 0,
{
    let entry = internal_edge_spec(tile, direction);
    if entry.0 is Outside {
        let d2 = entry.0->Outside_0;
        let halves = entry.1;
        assert(external_edge_spec(parent, d2, halves) matches Some(back) && back.0
            == EdgeDefinitionType::<Tile, AbsoluteDirection>::Inside(tile, direction)
            && back.1.len() == 0) by {
            assert(halves == seq![RelativeDirection::Left] || halves == seq![RelativeDirection::Right]
                || halves == seq![RelativeDirection::Left, RelativeDirection::Left]
                || halves == seq![RelativeDirection::Left, RelativeDirection::Right]
                || halves == seq![RelativeDirection::Right, RelativeDirection::Left]
                || halves == seq![RelativeDirection::Right, RelativeDirection::Right]);
        }
    }
}

} // verus!
