use cubing::alg::Move;
use cubing::kpuzzle::{KPattern, KPuzzle};
use cubing::puzzles::{cube2x2x2_kpuzzle, cube3x3x3_kpuzzle};
use puzzle_search::cube3x3x3::{
    random_3x3x3_pattern, PrefixOrSuffixConstraints, Scramble3x3x3TwoPhase,
};
use puzzle_search::idf_search::IDFSearch;
use puzzle_search::mask_pattern::mark_ignored;
use puzzle_search::puzzle_traits::{apply_moves, Depth, MoveTag, MoveTransformationInfo};
use puzzle_search::randomize::{basic_parity, BasicParity};

const FACES: [&str; 6] = ["U", "D", "L", "R", "F", "B"];

fn cube_generators(kpuzzle: &KPuzzle, half_turns_from: usize) -> Vec<MoveTransformationInfo<KPuzzle>> {
    let mut list = vec![];
    for (face, name) in FACES.iter().enumerate() {
        let suffixes: &[&str] = if face >= half_turns_from { &["2"] } else { &["", "2", "'"] };
        for suffix in suffixes {
            let name = format!("{}{}", name, suffix);
            let transformation =
                kpuzzle.transformation_from_move(&name.parse::<Move>().unwrap()).unwrap();
            list.push(MoveTransformationInfo {
                inverse_transformation: transformation.invert(),
                transformation,
                flat_move_index: list.len(),
                tag: MoveTag { axis: face / 2, family: face % 2 },
            });
        }
    }
    list
}

fn search(generators: Vec<MoveTransformationInfo<KPuzzle>>, target: KPattern, depth: usize) -> IDFSearch<KPuzzle> {
    match IDFSearch::try_new(cube3x3x3_kpuzzle().clone(), generators, target, Depth(depth), 32) {
        Ok(search) => search,
        Err(_) => panic!("the cube is consistent"),
    }
}

/// A solver whose first phase solves the edges and whose second phase
/// solves the rest with half turns of the side faces.
fn two_phase() -> Scramble3x3x3TwoPhase {
    let kpuzzle = cube3x3x3_kpuzzle();
    let mut phase1_target_pattern = kpuzzle.default_pattern();
    for corner in 0..8 {
        assert!(mark_ignored(&mut phase1_target_pattern, 1, corner));
    }
    for center in 0..6 {
        assert!(mark_ignored(&mut phase1_target_pattern, 2, center));
    }
    Scramble3x3x3TwoPhase {
        filtering_idfs: search(cube_generators(kpuzzle, 6), kpuzzle.default_pattern(), 2),
        phase1_idfs: search(cube_generators(kpuzzle, 6), phase1_target_pattern.clone(), 2),
        phase1_target_pattern,
        phase2_idfs: search(cube_generators(kpuzzle, 2), kpuzzle.default_pattern(), 2),
    }
}

fn turned(moves: &str) -> KPattern {
    cube3x3x3_kpuzzle().default_pattern().apply_alg(&moves.parse().unwrap()).unwrap()
}

fn pieces(pattern: &KPattern, orbit: usize) -> Vec<u8> {
    let info = &pattern.kpuzzle().data.ordered_orbit_info[orbit];
    (0..info.num_pieces).map(|slot| pattern.get_piece(info, slot)).collect()
}

fn orientation_sum(pattern: &KPattern, orbit: usize) -> u32 {
    let info = &pattern.kpuzzle().data.ordered_orbit_info[orbit];
    (0..info.num_pieces)
        .map(|slot| pattern.get_orientation_with_mod(info, slot).orientation as u32)
        .sum()
}

fn orientation_mods(pattern: &KPattern, orbit: usize) -> Vec<u8> {
    let info = &pattern.kpuzzle().data.ordered_orbit_info[orbit];
    (0..info.num_pieces)
        .map(|slot| pattern.get_orientation_with_mod(info, slot).orientation_mod)
        .collect()
}

#[test]
fn random_pattern_is_a_state_of_the_cube() {
    let kpuzzle = cube3x3x3_kpuzzle();
    let mut parities = std::collections::HashSet::new();
    for _ in 0..500 {
        let pattern = random_3x3x3_pattern(kpuzzle.default_pattern()).unwrap();
        let edges = pieces(&pattern, 0);
        let corners = pieces(&pattern, 1);
        let mut sorted_edges = edges.clone();
        sorted_edges.sort();
        let mut sorted_corners = corners.clone();
        sorted_corners.sort();
        assert_eq!(sorted_edges, (0..12).collect::<Vec<u8>>());
        assert_eq!(sorted_corners, (0..8).collect::<Vec<u8>>());
        assert_eq!(basic_parity(&edges), basic_parity(&corners));
        assert_eq!(orientation_sum(&pattern, 0) % 2, 0);
        assert_eq!(orientation_sum(&pattern, 1) % 3, 0);
        assert_eq!(orientation_mods(&pattern, 0), vec![0; 12]);
        assert_eq!(orientation_mods(&pattern, 1), vec![0; 8]);
        assert_eq!(pieces(&pattern, 2), (0..6).collect::<Vec<u8>>());
        assert_eq!(orientation_sum(&pattern, 2), 0);
        parities.insert(basic_parity(&edges) == BasicParity::Even);
    }
    assert_eq!(parities.len(), 2);
}

#[test]
fn pattern_without_edges_and_corners_is_not_randomized() {
    assert!(random_3x3x3_pattern(cube2x2x2_kpuzzle().default_pattern()).is_none());
}

#[test]
fn pattern_within_two_moves_is_no_scramble() {
    let solver = two_phase();
    assert!(!solver.is_valid_scramble_pattern(&turned("")));
    assert!(!solver.is_valid_scramble_pattern(&turned("R")));
    assert!(!solver.is_valid_scramble_pattern(&turned("R U2")));
    assert!(!solver.is_valid_scramble_pattern(&turned("U D'")));
    assert!(solver.is_valid_scramble_pattern(&turned("R U F")));
    assert!(solver.is_valid_scramble_pattern(&turned("R U R' U'")));
}

#[test]
fn pattern_within_two_moves_in_any_order_is_no_scramble() {
    let solver = two_phase();
    assert!(!solver.is_valid_scramble_pattern(&turned("D U")));
    assert!(!solver.is_valid_scramble_pattern(&turned("U D")));
    assert!(!solver.is_valid_scramble_pattern(&turned("B2 F'")));
    assert!(!solver.is_valid_scramble_pattern(&turned("U U")));
    assert!(!solver.is_valid_scramble_pattern(&turned("U D U")));
    assert!(!solver.is_valid_scramble_pattern(&turned("R L R'")));
    assert!(!solver.is_valid_scramble_pattern(&turned("R U U'")));
    assert!(solver.is_valid_scramble_pattern(&turned("R U R")));
    assert!(solver.is_valid_scramble_pattern(&turned("U D R")));
}

#[test]
fn two_phases_solve_the_pattern() {
    let solver = two_phase();
    for moves in ["R U F", "R2 U2", "F2 R2 U", "", "L2 R2 D"] {
        let pattern = turned(moves);
        let solution =
            solver.solve_3x3x3_pattern(&pattern, PrefixOrSuffixConstraints::Unconstrained).unwrap();
        let middle = apply_moves(
            &solver.phase1_idfs.puzzle,
            &solver.phase1_idfs.generators,
            &pattern,
            &solution.phase1,
        )
        .unwrap();
        // After the first phase the edges are solved.
        assert_eq!(pieces(&middle, 0), (0..12).collect::<Vec<u8>>());
        assert_eq!(orientation_sum(&middle, 0), 0);
        let end = apply_moves(
            &solver.phase2_idfs.puzzle,
            &solver.phase2_idfs.generators,
            &middle,
            &solution.phase2,
        )
        .unwrap();
        assert_eq!(end, cube3x3x3_kpuzzle().default_pattern());
    }
}

#[test]
fn first_phase_is_a_shortest_way() {
    let solver = two_phase();
    for (moves, least) in [("D U", 2), ("U D U", 2), ("R L R'", 1), ("R U U'", 1), ("F B F B", 2)] {
        let solution = solver
            .solve_3x3x3_pattern(&turned(moves), PrefixOrSuffixConstraints::Unconstrained)
            .unwrap();
        assert_eq!(solution.phase1.len(), least);
        assert_eq!(solution.phase2.len(), 0);
    }
}

#[test]
fn forced_moves_on_other_axes_leave_the_solution() {
    let solver = two_phase();
    let pattern = turned("R U");
    let free =
        solver.solve_3x3x3_pattern(&pattern, PrefixOrSuffixConstraints::Unconstrained).unwrap();
    // U' is the generator at position 2, R' the one at position 11.
    assert_eq!(free.phase1, vec![2, 11]);
    assert_eq!(free.phase2, Vec::<usize>::new());
    let forced = solver
        .solve_3x3x3_pattern(
            &pattern,
            PrefixOrSuffixConstraints::ForFMC {
                pre_move: MoveTag { axis: 2, family: 0 },
                post_move: MoveTag { axis: 2, family: 1 },
            },
        )
        .unwrap();
    assert_eq!(forced.phase1, vec![2, 11]);
    assert_eq!(forced.phase2, Vec::<usize>::new());
}

#[test]
fn mask_of_another_puzzle_gives_no_solution() {
    let mut solver = two_phase();
    solver.phase1_target_pattern = cube2x2x2_kpuzzle().default_pattern();
    assert!(solver
        .solve_3x3x3_pattern(&turned("R"), PrefixOrSuffixConstraints::Unconstrained)
        .is_none());
}

#[test]
fn no_attempt_gives_no_scramble() {
    let solver = two_phase();
    let solved = cube3x3x3_kpuzzle().default_pattern();
    assert!(solver.scramble_3x3x3(&solved, PrefixOrSuffixConstraints::Unconstrained, 0).is_none());
    let small = cube2x2x2_kpuzzle().default_pattern();
    assert!(solver.scramble_3x3x3(&small, PrefixOrSuffixConstraints::Unconstrained, 5).is_none());
}

#[test]
fn solver_without_generators_is_refused() {
    let kpuzzle = cube3x3x3_kpuzzle();
    let outcome = Scramble3x3x3TwoPhase::try_new(
        (kpuzzle.clone(), vec![]),
        (kpuzzle.clone(), cube_generators(kpuzzle, 6)),
        (kpuzzle.clone(), cube_generators(kpuzzle, 2)),
        &kpuzzle.default_pattern(),
        kpuzzle.default_pattern(),
    );
    assert!(matches!(outcome, Err(puzzle_search::prune_table::SearchError::MalformedGenerators)));
}

#[test]
fn pattern_with_other_orbit_names_is_not_randomized() {
    let definition = r#"{
        "name": "two orbits",
        "orbits": [
            { "orbitName": "CORNERS", "numPieces": 3, "numOrientations": 3 },
            { "orbitName": "EDGES", "numPieces": 4, "numOrientations": 2 }
        ],
        "defaultPattern": {
            "CORNERS": { "pieces": [0, 1, 2], "orientation": [0, 0, 0] },
            "EDGES": { "pieces": [0, 1, 2, 3], "orientation": [0, 0, 0, 0] }
        },
        "moves": {
            "T": {
                "CORNERS": { "permutation": [1, 2, 0], "orientationDelta": [0, 0, 0] },
                "EDGES": { "permutation": [1, 0, 2, 3], "orientationDelta": [0, 0, 0, 0] }
            }
        },
        "derivedMoves": null
    }"#;
    let kpuzzle = KPuzzle::try_from_json(definition.as_bytes()).unwrap();
    assert!(random_3x3x3_pattern(kpuzzle.default_pattern()).is_none());
}
