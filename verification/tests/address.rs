//! Tile address behaviour: canonicalisation, containment checks, the
//! deflation-pattern extension, edge-walk involution and enumeration.

use std::collections::hash_map::DefaultHasher;
use std::hash::{Hash, Hasher};

use painrose::geometry::rhomb::{AbsoluteDirection, Tile};
use painrose::geometry::tile_reference::{
    CoordinateParsingErrorKind, CoordinateTraversalError, TileReference,
};

fn hash_of(c: &TileReference) -> u64 {
    let mut h = DefaultHasher::new();
    c.hash(&mut h);
    h.finish()
}

/// An address built with a trailing deflation default drops it, and two
/// addresses with the same denotation compare and hash equal.
#[test]
fn canonicalisation_drops_trailing_defaults() {
    // The deflation pattern starts C, E, D, B, A, A: a stored [A, E] ends in
    // the level-1 default E, so it stores as just [A].
    let long = TileReference::new(vec![Tile::A, Tile::E]).unwrap();
    let short = TileReference::new(vec![Tile::A]).unwrap();
    assert_eq!(long.len(), 1);
    assert_eq!(long, short);
    assert_eq!(hash_of(&long), hash_of(&short));

    // The empty address is the canonical origin; spelling the pattern out
    // denotes the same tile.
    let origin = TileReference::new(vec![]).unwrap();
    let spelled = TileReference::new(vec![Tile::C, Tile::E, Tile::D]).unwrap();
    assert_eq!(origin, spelled);
    assert_eq!(origin.len(), 0);
}

/// Beyond the stored prefix an address reads the cyclic deflation pattern.
#[test]
fn get_at_extends_with_pattern() {
    let pattern = [Tile::C, Tile::E, Tile::D, Tile::B, Tile::A, Tile::A];
    let origin = TileReference::new(vec![]).unwrap();
    for i in 0..24 {
        assert_eq!(origin.get_at(i), pattern[i % 6]);
    }
    let a = TileReference::new(vec![Tile::A]).unwrap();
    assert_eq!(a.get_at(0), Tile::A);
    for i in 1..13 {
        assert_eq!(a.get_at(i), pattern[i % 6]);
    }
}

/// A forbidden nesting is rejected with the offending pair.
#[test]
fn new_rejects_forbidden_nesting() {
    // D may not sit directly inside E.
    let r = TileReference::new(vec![Tile::D, Tile::E, Tile::D]);
    assert_eq!(
        r.unwrap_err(),
        CoordinateTraversalError { inner_tile: Tile::D, outer_tile: Tile::E }
    );
}

/// `set_at` rejects a pair forbidden by containment and leaves the address
/// unchanged; an allowed write succeeds and stays canonical.
#[test]
fn set_at_checks_containment() {
    let mut a = TileReference::new(vec![Tile::A]).unwrap();
    // Writing D at level 0 is forbidden: D cannot sit inside the level-1
    // default E.
    let err = a.set_at(0, Tile::D).unwrap_err();
    assert_eq!(err, CoordinateTraversalError { inner_tile: Tile::D, outer_tile: Tile::E });
    assert_eq!(a, TileReference::new(vec![Tile::A]).unwrap());

    // Writing B at level 0 is allowed.
    a.set_at(0, Tile::B).unwrap();
    assert_eq!(a, TileReference::new(vec![Tile::B]).unwrap());

    // Writing the pattern default back at level 0 re-canonicalises to the
    // origin.
    a.set_at(0, Tile::C).unwrap();
    assert_eq!(a, TileReference::new(vec![]).unwrap());
    assert_eq!(a.len(), 0);
}

/// The edge-walk involution over the origin, every valid one-level address
/// and every valid two-level address: crossing back through the returned
/// direction restores the address and direction.
#[test]
fn edge_walk_involution() {
    let tiles = Tile::variants();
    let directions = AbsoluteDirection::variants();
    let mut cases: Vec<TileReference> = vec![TileReference::new(vec![]).unwrap()];
    for t in tiles {
        if let Ok(c) = TileReference::new(vec![t]) {
            if c.len() == 1 {
                cases.push(c);
            }
        }
        for u in tiles {
            if let Ok(c) = TileReference::new(vec![t, u]) {
                if c.len() == 2 {
                    cases.push(c);
                }
            }
        }
    }
    assert!(cases.len() > 3);
    for a in &cases {
        for d in directions {
            let (b, incoming) = a.go(d).unwrap();
            let (back, back_incoming) = b.go(incoming).unwrap();
            assert_eq!(&back, a, "{a:?} {d:?}");
            assert_eq!(back_incoming, d, "{a:?} {d:?}");
        }
    }
}

/// The counter increments through invalid chains until the first valid
/// one: the origin's successor carries twice and lands three levels up.
#[test]
fn next_of_origin() {
    let origin = TileReference::new(vec![]).unwrap();
    assert_eq!(
        origin.next(),
        TileReference::new(vec![Tile::A, Tile::A, Tile::E]).unwrap()
    );
}

/// Enumeration yields fresh valid addresses: the first few successors of
/// the origin are pairwise distinct and never the origin itself.
#[test]
fn next_enumerates_distinct_addresses() {
    let origin = TileReference::new(vec![]).unwrap();
    let mut seen = vec![origin.duplicate()];
    let mut cur = origin.next();
    for _ in 0..12 {
        assert!(!seen.contains(&cur), "{cur:?} repeated");
        seen.push(cur.duplicate());
        cur = cur.next();
    }
}

/// Address parsing: species characters are case-insensitive, unknown
/// characters are reported at their position, and containment violations
/// are traversal errors.
#[test]
fn from_str_parses_and_reports() {
    let c = TileReference::from_str("Ed").unwrap();
    assert_eq!(c, TileReference::new(vec![Tile::E, Tile::D]).unwrap());

    let bad = TileReference::from_str("axb").unwrap_err();
    assert_eq!(bad.index, 1);
    assert_eq!(bad.kind, CoordinateParsingErrorKind::ParseError('x'));

    let clash = TileReference::from_str("ded").unwrap_err();
    assert_eq!(clash.index, 0);
    assert_eq!(
        clash.kind,
        CoordinateParsingErrorKind::TraversalError(CoordinateTraversalError {
            inner_tile: Tile::D,
            outer_tile: Tile::E,
        })
    );
}
