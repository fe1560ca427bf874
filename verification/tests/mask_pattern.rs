use cubing::kpuzzle::{KPattern, KPuzzle};
use cubing::puzzles::{cube2x2x2_kpuzzle, cube3x3x3_kpuzzle};
use puzzle_search::mask_pattern::{apply_mask, mark_ignored, MaskError};

fn slots(pattern: &KPattern, orbit: usize) -> Vec<(u8, u8, u8)> {
    let info = &pattern.kpuzzle().data.ordered_orbit_info[orbit];
    (0..info.num_pieces)
        .map(|slot| {
            let found = pattern.get_orientation_with_mod(info, slot);
            (pattern.get_piece(info, slot), found.orientation, found.orientation_mod)
        })
        .collect()
}

fn turned(kpuzzle: &KPuzzle, moves: &str) -> KPattern {
    kpuzzle.default_pattern().apply_alg(&moves.parse().unwrap()).unwrap()
}

#[test]
fn masking_reproduces_the_pattern_on_unignored_slots() {
    let kpuzzle = cube3x3x3_kpuzzle();
    let pattern = turned(kpuzzle, "R U F' L2 D B");
    let mut mask = pattern.clone();
    let ignored = [(0usize, 0u8), (0, 3), (0, 11), (1, 2), (1, 7)];
    for (orbit, slot) in ignored {
        assert!(mark_ignored(&mut mask, orbit, slot));
    }
    let masked = apply_mask(&pattern, &mask).unwrap();
    for orbit in 0..3usize {
        let before = slots(&pattern, orbit);
        let after = slots(&masked, orbit);
        assert_eq!(before.len(), after.len());
        for slot in 0..before.len() {
            if ignored.contains(&(orbit, slot as u8)) {
                assert_eq!(after[slot], (0, 0, 1));
            } else {
                assert_eq!(after[slot], before[slot]);
            }
        }
    }
}

#[test]
fn mask_of_another_pattern_gives_its_piece_in_ignored_slots() {
    let kpuzzle = cube3x3x3_kpuzzle();
    let pattern = turned(kpuzzle, "R U");
    let mut mask = kpuzzle.default_pattern();
    assert!(mark_ignored(&mut mask, 1, 0));
    assert!(mark_ignored(&mut mask, 1, 1));
    let masked = apply_mask(&pattern, &mask).unwrap();
    let before = slots(&pattern, 1);
    let after = slots(&masked, 1);
    assert_eq!(after[0], (0, 0, 1));
    assert_eq!(after[1], (0, 0, 1));
    assert_eq!(after[2..], before[2..]);
    assert_eq!(slots(&masked, 0), slots(&pattern, 0));
    assert_eq!(slots(&masked, 2), slots(&pattern, 2));
}

#[test]
fn mask_without_ignored_slots_changes_nothing() {
    let kpuzzle = cube3x3x3_kpuzzle();
    let pattern = turned(kpuzzle, "R U F");
    let masked = apply_mask(&pattern, &kpuzzle.default_pattern()).unwrap();
    assert_eq!(masked, pattern);
}

#[test]
fn ignored_slot_takes_the_piece_of_the_mask() {
    let kpuzzle = cube3x3x3_kpuzzle();
    // The centers of the cube have an ignored orientation from the start.
    let pattern = turned(kpuzzle, "R U");
    let mask = turned(kpuzzle, "F");
    let masked = apply_mask(&pattern, &mask).unwrap();
    assert_eq!(slots(&masked, 0), slots(&pattern, 0));
    assert_eq!(slots(&masked, 1), slots(&pattern, 1));
    let mask_centers = slots(&mask, 2);
    assert!(mask_centers.iter().all(|slot| slot.2 == 1));
    assert_eq!(
        slots(&masked, 2),
        mask_centers.iter().map(|slot| (slot.0, 0, 1)).collect::<Vec<_>>()
    );
}

#[test]
fn mask_of_another_puzzle_is_refused() {
    let pattern = cube3x3x3_kpuzzle().default_pattern();
    let mask = cube2x2x2_kpuzzle().default_pattern();
    assert!(matches!(apply_mask(&pattern, &mask), Err(MaskError::IncompatibleOrbits)));
    assert!(matches!(apply_mask(&mask, &pattern), Err(MaskError::IncompatibleOrbits)));
}

#[test]
fn mask_with_other_orientation_counts_is_refused() {
    let definition = r#"{
        "name": "corners with four orientations",
        "orbits": [{ "orbitName": "CORNERS", "numPieces": 8, "numOrientations": 4 }],
        "defaultPattern": {
            "CORNERS": { "pieces": [0, 1, 2, 3, 4, 5, 6, 7], "orientation": [0, 0, 0, 0, 0, 0, 0, 0] }
        },
        "moves": {
            "U": { "CORNERS": { "permutation": [1, 2, 3, 0, 4, 5, 6, 7], "orientationDelta": [0, 0, 0, 0, 0, 0, 0, 0] } }
        },
        "derivedMoves": null
    }"#;
    let other = KPuzzle::try_from_json(definition.as_bytes()).unwrap();
    let pattern = cube2x2x2_kpuzzle().default_pattern();
    assert!(matches!(
        apply_mask(&pattern, &other.default_pattern()),
        Err(MaskError::IncompatibleOrbits)
    ));
}

#[test]
fn mark_ignored_refuses_a_slot_that_is_not_there() {
    let kpuzzle = cube3x3x3_kpuzzle();
    let mut mask = kpuzzle.default_pattern();
    assert!(!mark_ignored(&mut mask, 3, 0));
    assert!(!mark_ignored(&mut mask, 1, 8));
    assert_eq!(mask, kpuzzle.default_pattern());
    assert!(mark_ignored(&mut mask, 1, 7));
    assert_eq!(slots(&mask, 1)[7], (0, 0, 1));
    assert_eq!(slots(&mask, 1)[6], (6, 0, 0));
}
