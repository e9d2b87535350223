//! The neighbour-table invariants of the rhomb tiling, checked over the
//! whole finite table domain.

use painrose::geometry::rhomb::{AbsoluteDirection, RhombTiling, Tile};
use painrose::geometry::tile_reference::TileReference;
use painrose::geometry::tiling::{EdgeDefinitionType, OutgoingEdgeDefinition};

#[test]
pub fn test_if_all_relations_are_symetric() {
    for tile in [Tile::A, Tile::B, Tile::C, Tile::D, Tile::E] {
        for direction in [
            AbsoluteDirection::North,
            AbsoluteDirection::East,
            AbsoluteDirection::South,
            AbsoluteDirection::West,
        ] {
            let definition = RhombTiling::get_internal_edge_definition(tile, direction);
            match definition.edge_type {
                EdgeDefinitionType::Inside(tile_2, direction_2) => {
                    assert_eq!(definition.direction, vec![]);
                    assert_eq!(
                        RhombTiling::get_internal_edge_definition(tile_2, direction_2),
                        OutgoingEdgeDefinition {
                            edge_type: EdgeDefinitionType::Inside(tile, direction),
                            direction: vec![]
                        },
                        "tile={tile:?} direction={direction:?} (internal)"
                    )
                }
                EdgeDefinitionType::Outside(direction_2) => {
                    let new_tile_type = match tile {
                        Tile::A | Tile::B | Tile::C => Tile::A,
                        Tile::D | Tile::E => Tile::B,
                    };

                    assert_eq!(
                        RhombTiling::get_external_edge_definition(
                            new_tile_type,
                            direction_2,
                            definition.direction.clone()
                        )
                        .unwrap(),
                        OutgoingEdgeDefinition {
                            edge_type: EdgeDefinitionType::Inside(tile, direction),
                            direction: vec![],
                        },
                        "tile={tile:?} direction={direction:?}, (external)"
                    )
                }
            }
        }
    }
}

#[test]
fn test_if_graph_is_symetric() {
    for tile_graph in [
        TileReference::new(vec![Tile::A]).unwrap(),
        TileReference::new(vec![Tile::B]).unwrap(),
        TileReference::new(vec![]).unwrap(),
        TileReference::new(vec![Tile::D, Tile::D]).unwrap(),
        TileReference::new(vec![Tile::E, Tile::D]).unwrap(),
    ]
    .iter()
    {
        for direction in [
            AbsoluteDirection::North,
            AbsoluteDirection::East,
            AbsoluteDirection::South,
            AbsoluteDirection::West,
        ] {
            let (new_tile, new_direction) = tile_graph.go(direction).unwrap();
            let (original_tile, original_direction) = new_tile.go(new_direction).unwrap();

            assert_eq!(
                (&original_tile, original_direction),
                (tile_graph, direction),
                "{tile_graph:?} {direction:?}"
            );
        }
    }
}

/// The closure of the external table holds for every legal parent species,
/// not just one representative of each class.
#[test]
fn external_closure_all_parents() {
    for tile in [Tile::A, Tile::B, Tile::C, Tile::D, Tile::E] {
        for parent in [Tile::A, Tile::B, Tile::C, Tile::D, Tile::E] {
            if RhombTiling::can_tile_fit_in_tile(tile, parent).is_err() {
                continue;
            }
            for direction in [
                AbsoluteDirection::North,
                AbsoluteDirection::East,
                AbsoluteDirection::South,
                AbsoluteDirection::West,
            ] {
                let definition = RhombTiling::get_internal_edge_definition(tile, direction);
                if let EdgeDefinitionType::Outside(direction_2) = definition.edge_type {
                    assert_eq!(
                        RhombTiling::get_external_edge_definition(
                            parent,
                            direction_2,
                            definition.direction.clone()
                        )
                        .unwrap(),
                        OutgoingEdgeDefinition {
                            edge_type: EdgeDefinitionType::Inside(tile, direction),
                            direction: vec![],
                        },
                        "tile={tile:?} parent={parent:?} direction={direction:?}"
                    );
                }
            }
        }
    }
}

/// The containment rule: thick rhombs contain `A`, `B`, `C`; thin rhombs
/// contain `D`, `E`.
#[test]
fn containment_rule() {
    let thick = [Tile::A, Tile::C, Tile::E];
    let thin = [Tile::B, Tile::D];
    for inner in [Tile::A, Tile::B, Tile::C, Tile::D, Tile::E] {
        for outer in thick {
            let expected = matches!(inner, Tile::A | Tile::B | Tile::C);
            assert_eq!(
                RhombTiling::can_tile_fit_in_tile(inner, outer).is_ok(),
                expected,
                "{inner:?} in {outer:?}"
            );
        }
        for outer in thin {
            let expected = matches!(inner, Tile::D | Tile::E);
            assert_eq!(
                RhombTiling::can_tile_fit_in_tile(inner, outer).is_ok(),
                expected,
                "{inner:?} in {outer:?}"
            );
        }
    }
}

/// Each species names its renderer colour.
#[test]
fn tile_colors() {
    assert_eq!(Tile::A.get_color(), "red");
    assert_eq!(Tile::B.get_color(), "green");
    assert_eq!(Tile::C.get_color(), "blue");
    assert_eq!(Tile::D.get_color(), "magenta");
    assert_eq!(Tile::E.get_color(), "orange");
}
