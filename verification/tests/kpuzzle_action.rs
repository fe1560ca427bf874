use cubing::alg::Move;
use cubing::kpuzzle::{KPattern, KPuzzle, KTransformation};
use cubing::puzzles::{cube2x2x2_kpuzzle, cube3x3x3_kpuzzle};
use puzzle_search::kpuzzle_action::transformation_fits_pattern;
use puzzle_search::puzzle_traits::SemiGroupActionPuzzle;

fn transformation(kpuzzle: &KPuzzle, name: &str) -> KTransformation {
    kpuzzle.transformation_from_move(&name.parse::<Move>().unwrap()).unwrap()
}

fn turned(kpuzzle: &KPuzzle, moves: &str) -> KPattern {
    kpuzzle.default_pattern().apply_alg(&moves.parse().unwrap()).unwrap()
}

#[test]
fn transformation_is_applied_as_the_puzzle_applies_it() {
    let kpuzzle = cube3x3x3_kpuzzle();
    let solved = kpuzzle.default_pattern();
    let after_r = kpuzzle.pattern_apply_transformation(&solved, &transformation(kpuzzle, "R"));
    assert_eq!(after_r, Some(turned(kpuzzle, "R")));
    assert_ne!(after_r, Some(solved));
    let after_ru =
        kpuzzle.pattern_apply_transformation(&after_r.unwrap(), &transformation(kpuzzle, "U"));
    assert_eq!(after_ru, Some(turned(kpuzzle, "R U")));
}

#[test]
fn transformation_of_another_puzzle_does_not_fit() {
    let small = cube2x2x2_kpuzzle();
    let large = cube3x3x3_kpuzzle();
    assert!(transformation_fits_pattern(&large.default_pattern(), &transformation(large, "R")));
    assert!(transformation_fits_pattern(&small.default_pattern(), &transformation(small, "R")));
    assert!(!transformation_fits_pattern(&large.default_pattern(), &transformation(small, "R")));
    assert!(!transformation_fits_pattern(&small.default_pattern(), &transformation(large, "R")));
    assert_eq!(
        small.pattern_apply_transformation(&large.default_pattern(), &transformation(small, "R")),
        None
    );
}

#[test]
fn transformation_with_other_orbit_sizes_does_not_fit() {
    // As many corners as the small cube, but with more orientations than it has.
    let definition = r#"{
        "name": "corners with six orientations",
        "orbits": [{ "orbitName": "CORNERS", "numPieces": 8, "numOrientations": 6 }],
        "defaultPattern": {
            "CORNERS": { "pieces": [0, 1, 2, 3, 4, 5, 6, 7], "orientation": [0, 0, 0, 0, 0, 0, 0, 0] }
        },
        "moves": {
            "T": { "CORNERS": { "permutation": [1, 2, 3, 0, 4, 5, 6, 7], "orientationDelta": [5, 0, 0, 0, 0, 0, 0, 0] } },
            "S": { "CORNERS": { "permutation": [1, 2, 3, 0, 4, 5, 6, 7], "orientationDelta": [2, 0, 0, 0, 0, 0, 0, 0] } }
        },
        "derivedMoves": null
    }"#;
    let other = KPuzzle::try_from_json(definition.as_bytes()).unwrap();
    let small = cube2x2x2_kpuzzle();
    // A gain of 5 is no orientation of a corner of the cube; a gain of 2 is.
    assert!(!transformation_fits_pattern(&small.default_pattern(), &transformation(&other, "T")));
    assert!(transformation_fits_pattern(&small.default_pattern(), &transformation(&other, "S")));
    assert!(transformation_fits_pattern(&other.default_pattern(), &transformation(&other, "T")));
}

#[test]
fn patterns_are_equal_slot_by_slot() {
    let kpuzzle = cube3x3x3_kpuzzle();
    assert!(kpuzzle.patterns_equal(&turned(kpuzzle, "R U"), &turned(kpuzzle, "R U")));
    assert!(kpuzzle.patterns_equal(&turned(kpuzzle, "R R'"), &kpuzzle.default_pattern()));
    assert!(!kpuzzle.patterns_equal(&turned(kpuzzle, "R U"), &turned(kpuzzle, "U R")));
    // A quarter turn of the whole top layer moves the centers' orientation only.
    assert!(!kpuzzle.patterns_equal(&turned(kpuzzle, "R"), &kpuzzle.default_pattern()));
    let small = cube2x2x2_kpuzzle();
    assert!(!kpuzzle.patterns_equal(&kpuzzle.default_pattern(), &small.default_pattern()));
}

#[test]
fn pattern_differing_in_an_orientation_only_is_not_equal() {
    let kpuzzle = cube3x3x3_kpuzzle();
    let solved = kpuzzle.default_pattern();
    let mut twisted = solved.clone();
    let corners = &kpuzzle.data.ordered_orbit_info[1];
    twisted.set_orientation_with_mod(
        corners,
        7,
        &cubing::kpuzzle::OrientationWithMod { orientation: 1, orientation_mod: 0 },
    );
    assert!(!kpuzzle.patterns_equal(&solved, &twisted));
    assert_ne!(kpuzzle.pattern_hash_u64(&solved), kpuzzle.pattern_hash_u64(&twisted));
    let mut ignored = solved.clone();
    ignored.set_orientation_with_mod(
        corners,
        7,
        &cubing::kpuzzle::OrientationWithMod { orientation: 0, orientation_mod: 1 },
    );
    assert!(!kpuzzle.patterns_equal(&solved, &ignored));
    assert_ne!(kpuzzle.pattern_hash_u64(&solved), kpuzzle.pattern_hash_u64(&ignored));
}

#[test]
fn fingerprint_is_that_of_the_slots() {
    let definition = r#"{
        "name": "single",
        "orbits": [{ "orbitName": "PIECES", "numPieces": 1, "numOrientations": 4 }],
        "defaultPattern": { "PIECES": { "pieces": [0], "orientation": [3] } },
        "moves": { "TURN": { "PIECES": { "permutation": [0], "orientationDelta": [1] } } },
        "derivedMoves": null
    }"#;
    let kpuzzle = KPuzzle::try_from_json(definition.as_bytes()).unwrap();
    // The offset, mixed with 4 orientations, piece 0, orientation 3, modulus 0.
    let mut expected: u64 = 0xcbf29ce484222325;
    for value in [4u64, 0, 3, 0] {
        expected = (expected ^ value).wrapping_mul(0x100000001b3);
    }
    assert_eq!(kpuzzle.pattern_hash_u64(&kpuzzle.default_pattern()), expected);
    let cube = cube3x3x3_kpuzzle();
    assert_eq!(
        cube.pattern_hash_u64(&turned(cube, "R U R' U'")),
        cube.pattern_hash_u64(&turned(cube, "R U R' U'"))
    );
    assert_ne!(
        cube.pattern_hash_u64(&turned(cube, "R U")),
        cube.pattern_hash_u64(&turned(cube, "U R"))
    );
}

#[test]
fn pattern_clone_is_equal() {
    let kpuzzle = cube3x3x3_kpuzzle();
    let pattern = turned(kpuzzle, "R U F");
    assert_eq!(kpuzzle.pattern_clone(&pattern), pattern);
}

fn slots(pattern: &KPattern, orbit: usize) -> Vec<(u8, u8, u8)> {
    let info = &pattern.kpuzzle().data.ordered_orbit_info[orbit];
    (0..info.num_pieces)
        .map(|slot| {
            let found = pattern.get_orientation_with_mod(info, slot);
            (pattern.get_piece(info, slot), found.orientation, found.orientation_mod)
        })
        .collect()
}

#[test]
fn orientation_grows_modulo_the_modulus_of_the_piece() {
    let definition = r#"{
        "name": "custom",
        "orbits": [{ "orbitName": "PIECES", "numPieces": 3, "numOrientations": 12 }],
        "defaultPattern": {
            "PIECES": { "pieces": [0, 1, 2], "orientation": [0, 0, 7], "orientationMod": [3, 4, 0] }
        },
        "moves": {
            "SWAP": { "PIECES": { "permutation": [1, 0, 2], "orientationDelta": [0, 0, 0] } },
            "SPIN": { "PIECES": { "permutation": [0, 1, 2], "orientationDelta": [2, 5, 6] } },
            "BOTH": { "PIECES": { "permutation": [2, 0, 1], "orientationDelta": [11, 1, 7] } }
        },
        "derivedMoves": null
    }"#;
    let kpuzzle = KPuzzle::try_from_json(definition.as_bytes()).unwrap();
    let start = kpuzzle.default_pattern();
    assert_eq!(slots(&start, 0), vec![(0, 0, 3), (1, 0, 4), (2, 7, 0)]);
    let spun = kpuzzle.pattern_apply_transformation(&start, &transformation(&kpuzzle, "SPIN")).unwrap();
    assert_eq!(slots(&spun, 0), vec![(0, 2, 3), (1, 1, 4), (2, 1, 0)]);
    let swapped = kpuzzle.pattern_apply_transformation(&spun, &transformation(&kpuzzle, "SWAP")).unwrap();
    assert_eq!(slots(&swapped, 0), vec![(1, 1, 4), (0, 2, 3), (2, 1, 0)]);
    // Each slot takes the piece of the slot that the permutation names for it.
    let both = kpuzzle.pattern_apply_transformation(&swapped, &transformation(&kpuzzle, "BOTH")).unwrap();
    assert_eq!(slots(&both, 0), vec![(2, 0, 0), (1, 2, 4), (0, 0, 3)]);
}
