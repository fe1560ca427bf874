use cubing::kpuzzle::{KPattern, KPuzzle};
use cubing::puzzles::cube2x2x2_kpuzzle;
use puzzle_search::mask_pattern::mark_ignored;
use puzzle_search::puzzle_traits::SemiGroupActionPuzzle;
use puzzle_search::mask_pattern::MaskError;
use puzzle_search::square1::{
    is_shape_accepted, random_pattern, wedge_type, Square1ShapeTraversalFilter, WedgeType,
    NUM_WEDGES,
};
use puzzle_search::traversal_filters::PatternTraversalFilter;

fn square1_like_puzzle() -> KPuzzle {
    let definition = r#"{
        "name": "orbits of the square-1",
        "orbits": [
            { "orbitName": "WEDGES", "numPieces": 24, "numOrientations": 1 },
            { "orbitName": "EQUATOR", "numPieces": 2, "numOrientations": 6 }
        ],
        "defaultPattern": {
            "WEDGES": {
                "pieces": [0, 1, 2, 3, 4, 5, 6, 7, 8, 9, 10, 11, 12, 13, 14, 15, 16, 17, 18, 19, 20, 21, 22, 23],
                "orientation": [0, 0, 0, 0, 0, 0, 0, 0, 0, 0, 0, 0, 0, 0, 0, 0, 0, 0, 0, 0, 0, 0, 0, 0]
            },
            "EQUATOR": { "pieces": [0, 1], "orientation": [0, 0] }
        },
        "moves": {
            "U_SQ_": {
                "WEDGES": {
                    "permutation": [11, 0, 1, 2, 3, 4, 5, 6, 7, 8, 9, 10, 12, 13, 14, 15, 16, 17, 18, 19, 20, 21, 22, 23],
                    "orientationDelta": [0, 0, 0, 0, 0, 0, 0, 0, 0, 0, 0, 0, 0, 0, 0, 0, 0, 0, 0, 0, 0, 0, 0, 0]
                },
                "EQUATOR": { "permutation": [0, 1], "orientationDelta": [0, 0] }
            }
        },
        "derivedMoves": null
    }"#;
    KPuzzle::try_from_json(definition.as_bytes()).unwrap()
}

fn wedges(pattern: &KPattern) -> Vec<u8> {
    let info = &pattern.kpuzzle().data.ordered_orbit_info[0];
    (0..info.num_pieces).map(|slot| pattern.get_piece(info, slot)).collect()
}

fn with_wedges(kpuzzle: &KPuzzle, wedges: &[u8]) -> KPattern {
    let mut pattern = kpuzzle.default_pattern();
    let info = &kpuzzle.data.ordered_orbit_info[0];
    for (slot, wedge) in wedges.iter().enumerate() {
        pattern.set_piece(info, slot as u8, *wedge);
    }
    pattern
}

/// Accepts every pattern.
struct AnyShape;

impl PatternTraversalFilter<KPuzzle> for AnyShape {
    fn key_is_valid(_key: <KPuzzle as SemiGroupActionPuzzle>::Key) -> bool {
        true
    }

    fn is_valid(_pattern: &KPattern) -> bool {
        true
    }
}

/// Accepts no pattern.
struct NoShape;

impl PatternTraversalFilter<KPuzzle> for NoShape {
    fn key_is_valid(_key: <KPuzzle as SemiGroupActionPuzzle>::Key) -> bool {
        false
    }

    fn is_valid(_pattern: &KPattern) -> bool {
        false
    }
}

#[test]
fn wedges_are_corners_and_edges() {
    assert_eq!(NUM_WEDGES, 24);
    let expected = [
        WedgeType::CornerLower,
        WedgeType::CornerUpper,
        WedgeType::Edge,
        WedgeType::CornerLower,
        WedgeType::CornerUpper,
        WedgeType::Edge,
        WedgeType::CornerLower,
        WedgeType::CornerUpper,
        WedgeType::Edge,
        WedgeType::CornerLower,
        WedgeType::CornerUpper,
        WedgeType::Edge,
        WedgeType::Edge,
        WedgeType::CornerLower,
        WedgeType::CornerUpper,
        WedgeType::Edge,
        WedgeType::CornerLower,
        WedgeType::CornerUpper,
        WedgeType::Edge,
        WedgeType::CornerLower,
        WedgeType::CornerUpper,
        WedgeType::Edge,
        WedgeType::CornerLower,
        WedgeType::CornerUpper,
    ];
    for wedge in 0..24u8 {
        assert_eq!(wedge_type(wedge), Some(expected[wedge as usize]));
    }
    assert_eq!(wedge_type(24), None);
    assert_eq!(wedge_type(255), None);
}

#[test]
fn shape_is_valid_where_no_slice_cuts_a_corner() {
    let kpuzzle = square1_like_puzzle();
    assert!(Square1ShapeTraversalFilter::is_valid(&kpuzzle.default_pattern()));
    // The top layer turned by one wedge: the upper wedge of a corner follows a slice.
    let turned: Vec<u8> = (0..24).map(|slot| if slot < 12 { (slot + 1) % 12 } else { slot }).collect();
    assert_eq!(wedge_type(turned[0]), Some(WedgeType::CornerUpper));
    assert!(!Square1ShapeTraversalFilter::is_valid(&with_wedges(&kpuzzle, &turned)));
    // The top layer turned by two wedges: an edge follows the slice.
    let turned: Vec<u8> = (0..24).map(|slot| if slot < 12 { (slot + 2) % 12 } else { slot }).collect();
    assert!(Square1ShapeTraversalFilter::is_valid(&with_wedges(&kpuzzle, &turned)));
    // An upper wedge in slot 18 only.
    let mut wedges: Vec<u8> = (0..24).collect();
    wedges.swap(18, 20);
    assert!(!Square1ShapeTraversalFilter::is_valid(&with_wedges(&kpuzzle, &wedges)));
    // A number that is no wedge.
    let mut wedges: Vec<u8> = (0..24).collect();
    wedges[6] = 24;
    assert!(!Square1ShapeTraversalFilter::is_valid(&with_wedges(&kpuzzle, &wedges)));
}

#[test]
fn shape_of_a_puzzle_without_wedges_is_not_valid() {
    assert!(!Square1ShapeTraversalFilter::is_valid(&cube2x2x2_kpuzzle().default_pattern()));
}

#[test]
fn random_pattern_holds_the_wedge_groups() {
    let kpuzzle = square1_like_puzzle();
    let solved = kpuzzle.default_pattern();
    let mut seen = std::collections::HashSet::new();
    for _ in 0..300 {
        let pattern = random_pattern::<Square1ShapeTraversalFilter>(&solved, &solved, 1000).unwrap();
        let found = wedges(&pattern);
        let mut sorted = found.clone();
        sorted.sort();
        assert_eq!(sorted, (0..24).collect::<Vec<u8>>());
        // The two wedges of a corner stay together.
        for slot in 0..24 {
            if wedge_type(found[slot]) == Some(WedgeType::CornerLower) {
                assert_eq!(found[slot + 1], found[slot] + 1);
            }
        }
        assert!(Square1ShapeTraversalFilter::is_valid(&pattern));
        let equator = &kpuzzle.data.ordered_orbit_info[1];
        assert_eq!(pattern.get_piece(equator, 0), 0);
        assert_eq!(pattern.get_piece(equator, 1), 1);
        assert_eq!(pattern.get_orientation_with_mod(equator, 0).orientation, 0);
        assert!(pattern.get_orientation_with_mod(equator, 1).orientation < 6);
        seen.insert(found);
    }
    assert!(seen.len() > 250);
}

#[test]
fn random_pattern_is_checked_under_the_mask() {
    let kpuzzle = square1_like_puzzle();
    let solved = kpuzzle.default_pattern();
    // With every wedge ignored, the shape is that of the mask: piece 0 in every slot.
    let mut mask = solved.clone();
    for slot in 0..24 {
        assert!(mark_ignored(&mut mask, 0, slot));
    }
    let pattern = random_pattern::<Square1ShapeTraversalFilter>(&solved, &mask, 1).unwrap();
    let mut sorted = wedges(&pattern);
    sorted.sort();
    assert_eq!(sorted, (0..24).collect::<Vec<u8>>());
}

#[test]
fn random_pattern_gives_up() {
    let kpuzzle = square1_like_puzzle();
    let solved = kpuzzle.default_pattern();
    assert!(random_pattern::<AnyShape>(&solved, &solved, 0).is_none());
    assert!(random_pattern::<AnyShape>(&solved, &solved, 1).is_some());
    assert!(random_pattern::<NoShape>(&solved, &solved, 20).is_none());
    let other = cube2x2x2_kpuzzle().default_pattern();
    assert!(random_pattern::<AnyShape>(&other, &other, 5).is_none());
    assert!(random_pattern::<AnyShape>(&solved, &other, 5).is_none());
}

#[test]
fn shape_is_accepted_under_the_mask() {
    let kpuzzle = square1_like_puzzle();
    let solved = kpuzzle.default_pattern();
    // The top layer turned by one wedge cannot be sliced.
    let turned: Vec<u8> = (0..24).map(|slot| if slot < 12 { (slot + 1) % 12 } else { slot }).collect();
    let unsliceable = with_wedges(&kpuzzle, &turned);
    assert_eq!(is_shape_accepted::<Square1ShapeTraversalFilter>(&solved, &solved), Ok(true));
    assert_eq!(is_shape_accepted::<Square1ShapeTraversalFilter>(&unsliceable, &solved), Ok(false));
    assert_eq!(is_shape_accepted::<AnyShape>(&unsliceable, &solved), Ok(true));
    // Under a mask that ignores a slot, the wedge of the mask stands there:
    // upper wedges of corners stand in the slots 0 and 6 of the pattern.
    let mut mask = solved.clone();
    assert!(mark_ignored(&mut mask, 0, 0));
    assert_eq!(is_shape_accepted::<Square1ShapeTraversalFilter>(&unsliceable, &mask), Ok(false));
    assert!(mark_ignored(&mut mask, 0, 6));
    assert_eq!(is_shape_accepted::<Square1ShapeTraversalFilter>(&unsliceable, &mask), Ok(true));
    let other = cube2x2x2_kpuzzle().default_pattern();
    assert_eq!(
        is_shape_accepted::<Square1ShapeTraversalFilter>(&solved, &other),
        Err(MaskError::IncompatibleOrbits)
    );
}

#[test]
fn pattern_is_owed_where_every_shape_is_accepted() {
    let kpuzzle = square1_like_puzzle();
    let solved = kpuzzle.default_pattern();
    for _ in 0..50 {
        assert!(random_pattern::<AnyShape>(&solved, &solved, 1).is_some());
    }
}
