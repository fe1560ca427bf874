use cubing::alg::Move;
use cubing::kpuzzle::{KPattern, KPuzzle, KTransformation, OrientationWithMod};
use cubing::puzzles::{cube2x2x2_kpuzzle, cube3x3x3_kpuzzle};
use puzzle_search::idf_search::IndividualSearchOptions;
use puzzle_search::kpuzzle_inverses::{
    are_orbits_sound, transformation_leads_back, try_new_with_checked_inverses,
};
use puzzle_search::mask_pattern::mark_ignored;
use puzzle_search::prune_table::SearchError;
use puzzle_search::puzzle_traits::{Depth, MoveTag, MoveTransformationInfo};

const NAMES: [&str; 9] = ["U", "U2", "U'", "R", "R2", "R'", "F", "F2", "F'"];

fn transformation(kpuzzle: &KPuzzle, name: &str) -> KTransformation {
    kpuzzle.transformation_from_move(&name.parse::<Move>().unwrap()).unwrap()
}

fn generators_of(kpuzzle: &KPuzzle) -> Vec<MoveTransformationInfo<KPuzzle>> {
    let mut list = vec![];
    for (index, name) in NAMES.iter().enumerate() {
        let transformation = transformation(kpuzzle, name);
        list.push(MoveTransformationInfo {
            inverse_transformation: transformation.invert(),
            transformation,
            flat_move_index: index,
            tag: MoveTag { axis: index / 3, family: 0 },
        });
    }
    list
}

fn turned(kpuzzle: &KPuzzle, moves: &str) -> KPattern {
    kpuzzle.default_pattern().apply_alg(&moves.parse().unwrap()).unwrap()
}

#[test]
fn inverse_leads_back() {
    let kpuzzle = cube3x3x3_kpuzzle();
    let solved = kpuzzle.default_pattern();
    for name in ["U", "R", "F2", "L'", "D", "B"] {
        let forth = transformation(kpuzzle, name);
        assert!(transformation_leads_back(&solved, &forth, &forth.invert()));
        assert!(transformation_leads_back(&solved, &forth.invert(), &forth));
    }
    let half = transformation(kpuzzle, "R2");
    assert!(transformation_leads_back(&solved, &half, &half));
}

#[test]
fn other_transformation_does_not_lead_back() {
    let kpuzzle = cube3x3x3_kpuzzle();
    let solved = kpuzzle.default_pattern();
    let quarter = transformation(kpuzzle, "R");
    assert!(!transformation_leads_back(&solved, &quarter, &quarter));
    assert!(!transformation_leads_back(&solved, &quarter, &transformation(kpuzzle, "U'")));
    assert!(!transformation_leads_back(&solved, &quarter, &transformation(kpuzzle, "R2")));
    // F twists corners that F2 leaves untwisted.
    let small = cube2x2x2_kpuzzle();
    let twisting = transformation(small, "F");
    assert!(!transformation_leads_back(&small.default_pattern(), &twisting, &twisting));
}

#[test]
fn transformation_of_another_puzzle_does_not_lead_back() {
    let small = cube2x2x2_kpuzzle();
    let large = cube3x3x3_kpuzzle();
    let forth = transformation(small, "R");
    assert!(!transformation_leads_back(&large.default_pattern(), &forth, &forth.invert()));
    assert!(transformation_leads_back(&small.default_pattern(), &forth, &forth.invert()));
}

#[test]
fn gains_must_make_up_for_each_other() {
    let definition = r#"{
        "name": "turning pieces",
        "orbits": [{ "orbitName": "PIECES", "numPieces": 2, "numOrientations": 4 }],
        "defaultPattern": { "PIECES": { "pieces": [0, 1], "orientation": [0, 0] } },
        "moves": {
            "A": { "PIECES": { "permutation": [1, 0], "orientationDelta": [1, 3] } },
            "B": { "PIECES": { "permutation": [1, 0], "orientationDelta": [1, 3] } },
            "C": { "PIECES": { "permutation": [1, 0], "orientationDelta": [3, 1] } },
            "D": { "PIECES": { "permutation": [0, 1], "orientationDelta": [3, 1] } }
        },
        "derivedMoves": null
    }"#;
    let kpuzzle = KPuzzle::try_from_json(definition.as_bytes()).unwrap();
    let solved = kpuzzle.default_pattern();
    let a = transformation(&kpuzzle, "A");
    // The piece that comes from slot 1 with gain 1 goes back to slot 1 with gain 3.
    assert!(transformation_leads_back(&solved, &a, &a.invert()));
    assert!(transformation_leads_back(&solved, &a, &transformation(&kpuzzle, "B")));
    assert!(!transformation_leads_back(&solved, &a, &transformation(&kpuzzle, "C")));
    assert!(!transformation_leads_back(&solved, &a, &transformation(&kpuzzle, "D")));
}

#[test]
fn orbits_of_patterns_are_sound() {
    let kpuzzle = cube3x3x3_kpuzzle();
    assert!(are_orbits_sound(&kpuzzle.default_pattern()));
    assert!(are_orbits_sound(&turned(kpuzzle, "R U F")));
    let mut mask = kpuzzle.default_pattern();
    assert!(mark_ignored(&mut mask, 1, 3));
    assert!(are_orbits_sound(&mask));
    let mut halved = kpuzzle.default_pattern();
    halved.set_orientation_with_mod(
        &kpuzzle.data.ordered_orbit_info[2],
        0,
        &OrientationWithMod { orientation: 1, orientation_mod: 2 },
    );
    assert!(are_orbits_sound(&halved));
}

#[test]
fn checked_search_finds_the_solution() {
    let kpuzzle = cube2x2x2_kpuzzle();
    let search = match try_new_with_checked_inverses(
        kpuzzle.clone(),
        generators_of(kpuzzle),
        kpuzzle.default_pattern(),
        Depth(3),
        usize::MAX,
    ) {
        Ok(search) => search,
        Err(_) => panic!("the cube is consistent"),
    };
    let mut found = search.search(&turned(kpuzzle, "F R U2"), IndividualSearchOptions::default());
    assert_eq!(found.next(), Some(vec![1, 5, 8]));
}

#[test]
fn checked_search_refuses_a_wrong_inverse() {
    let kpuzzle = cube2x2x2_kpuzzle();
    let mut generators = generators_of(kpuzzle);
    generators[3].inverse_transformation = generators[4].transformation.clone();
    let outcome = try_new_with_checked_inverses(
        kpuzzle.clone(),
        generators,
        kpuzzle.default_pattern(),
        Depth(3),
        usize::MAX,
    );
    assert!(matches!(outcome, Err(SearchError::InconsistentPuzzle)));
}

#[test]
fn checked_search_refuses_generators_of_another_puzzle() {
    let kpuzzle = cube2x2x2_kpuzzle();
    let outcome = try_new_with_checked_inverses(
        kpuzzle.clone(),
        generators_of(kpuzzle),
        cube3x3x3_kpuzzle().default_pattern(),
        Depth(3),
        usize::MAX,
    );
    assert!(matches!(outcome, Err(SearchError::InconsistentPuzzle)));
}

#[test]
fn checked_search_refuses_misplaced_generators() {
    let kpuzzle = cube2x2x2_kpuzzle();
    let mut generators = generators_of(kpuzzle);
    generators.swap(0, 1);
    let outcome = try_new_with_checked_inverses(
        kpuzzle.clone(),
        generators,
        kpuzzle.default_pattern(),
        Depth(3),
        usize::MAX,
    );
    assert!(matches!(outcome, Err(SearchError::MalformedGenerators)));
}
