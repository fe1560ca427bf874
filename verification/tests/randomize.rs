use cubing::kpuzzle::{KPattern, KPuzzle};
use cubing::puzzles::cube3x3x3_kpuzzle;
use puzzle_search::orbits::{are_orbits_packable, are_orientations_packable};
use puzzle_search::randomize::{
    add_u8_mod, basic_parity, randomize_orbit_naive, set_parity, subtract_u8_mod,
    try_randomize_orbit, BasicParity,
    ConstraintForFirstPiece, OrbitOrientationConstraint, OrbitPermutationConstraint,
    OrbitRandomizationConstraints,
};

fn pieces(pattern: &KPattern, orbit: usize) -> Vec<u8> {
    let info = &pattern.kpuzzle().data.ordered_orbit_info[orbit];
    (0..info.num_pieces).map(|slot| pattern.get_piece(info, slot)).collect()
}

fn orientations(pattern: &KPattern, orbit: usize) -> Vec<(u8, u8)> {
    let info = &pattern.kpuzzle().data.ordered_orbit_info[orbit];
    (0..info.num_pieces)
        .map(|slot| {
            let found = pattern.get_orientation_with_mod(info, slot);
            (found.orientation, found.orientation_mod)
        })
        .collect()
}

fn sorted(mut list: Vec<u8>) -> Vec<u8> {
    list.sort();
    list
}

fn two_piece_puzzle() -> KPuzzle {
    let definition = r#"{
        "name": "pair",
        "orbits": [{ "orbitName": "PIECES", "numPieces": 2, "numOrientations": 5 }],
        "defaultPattern": { "PIECES": { "pieces": [0, 1], "orientation": [0, 0] } },
        "moves": { "SWAP": { "PIECES": { "permutation": [1, 0], "orientationDelta": [0, 0] } } },
        "derivedMoves": null
    }"#;
    KPuzzle::try_from_json(definition.as_bytes()).unwrap()
}

#[test]
fn flip_exchanges_the_parities() {
    let mut parity = BasicParity::Even;
    parity.flip();
    assert_eq!(parity, BasicParity::Odd);
    parity.flip();
    assert_eq!(parity, BasicParity::Even);
}

#[test]
fn add_u8_mod_is_exact() {
    assert_eq!(add_u8_mod(2, 2, 3), 1);
    assert_eq!(add_u8_mod(0, 0, 1), 0);
    assert_eq!(add_u8_mod(255, 255, 7), 6);
    assert_eq!(add_u8_mod(200, 100, 255), 45);
}

#[test]
fn subtract_u8_mod_is_exact() {
    assert_eq!(subtract_u8_mod(0, 1, 3), 2);
    assert_eq!(subtract_u8_mod(0, 0, 3), 0);
    assert_eq!(subtract_u8_mod(0, 255, 7), 4);
    assert_eq!(subtract_u8_mod(5, 2, 4), 3);
    assert_eq!(subtract_u8_mod(0, 2, 2), 0);
}

#[test]
fn basic_parity_counts_inversions() {
    assert_eq!(basic_parity(&[]), BasicParity::Even);
    assert_eq!(basic_parity(&[7]), BasicParity::Even);
    assert_eq!(basic_parity(&[0, 1, 2, 3]), BasicParity::Even);
    assert_eq!(basic_parity(&[1, 0, 2, 3]), BasicParity::Odd);
    assert_eq!(basic_parity(&[1, 2, 0]), BasicParity::Even);
    assert_eq!(basic_parity(&[3, 2, 1, 0]), BasicParity::Even);
    assert_eq!(basic_parity(&[2, 1, 0]), BasicParity::Odd);
}

#[test]
fn set_parity_exchanges_the_first_two_entries() {
    let mut order = [0, 1, 2, 3];
    set_parity(&mut order, BasicParity::Even);
    assert_eq!(order, [0, 1, 2, 3]);
    set_parity(&mut order, BasicParity::Odd);
    assert_eq!(order, [1, 0, 2, 3]);
    set_parity(&mut order, BasicParity::Odd);
    assert_eq!(order, [1, 0, 2, 3]);
    set_parity(&mut order, BasicParity::Even);
    assert_eq!(order, [0, 1, 2, 3]);
    let mut single = [4];
    set_parity(&mut single, BasicParity::Even);
    assert_eq!(single, [4]);
}

#[test]
fn requested_parity_is_always_met() {
    let kpuzzle = two_piece_puzzle();
    for trial in 0..10_000 {
        let (constraint, parity) = if trial % 2 == 0 {
            (OrbitPermutationConstraint::EvenParity, BasicParity::Even)
        } else {
            (OrbitPermutationConstraint::OddParity, BasicParity::Odd)
        };
        let mut pattern = kpuzzle.default_pattern();
        let order = randomize_orbit_naive(
            &mut pattern,
            0,
            "PIECES",
            OrbitRandomizationConstraints {
                permutation: Some(constraint),
                ..Default::default()
            },
        );
        assert_eq!(basic_parity(&order), parity);
        assert_eq!(pieces(&pattern, 0), order);
    }
}

#[test]
fn requested_parity_is_met_on_the_cube() {
    let kpuzzle = cube3x3x3_kpuzzle();
    for trial in 0..2_000 {
        let (constraint, parity) = match trial % 3 {
            0 => (OrbitPermutationConstraint::EvenParity, BasicParity::Even),
            1 => (OrbitPermutationConstraint::OddParity, BasicParity::Odd),
            _ => (OrbitPermutationConstraint::SingleOrbitEvenParity, BasicParity::Even),
        };
        let mut pattern = kpuzzle.default_pattern();
        let order = randomize_orbit_naive(
            &mut pattern,
            1,
            "CORNERS",
            OrbitRandomizationConstraints {
                permutation: Some(constraint),
                ..Default::default()
            },
        );
        assert_eq!(basic_parity(&order), parity);
        assert_eq!(sorted(order.clone()), (0..8).collect::<Vec<u8>>());
        assert_eq!(pieces(&pattern, 1), order);
        assert_eq!(pieces(&pattern, 0), (0..12).collect::<Vec<u8>>());
    }
}

#[test]
fn orientations_sum_to_zero() {
    let kpuzzle = cube3x3x3_kpuzzle();
    let mut seen_nonzero = false;
    for _ in 0..2_000 {
        let mut pattern = kpuzzle.default_pattern();
        randomize_orbit_naive(
            &mut pattern,
            1,
            "CORNERS",
            OrbitRandomizationConstraints {
                orientation: Some(OrbitOrientationConstraint::SumToZero),
                ..Default::default()
            },
        );
        let found = orientations(&pattern, 1);
        let sum: u32 = found.iter().map(|(orientation, _)| *orientation as u32).sum();
        assert_eq!(sum % 3, 0);
        assert!(found.iter().all(|(orientation, modulus)| *orientation < 3 && *modulus == 0));
        seen_nonzero = seen_nonzero || sum > 0;
    }
    assert!(seen_nonzero);
}

#[test]
fn orientations_sum_to_zero_on_a_single_piece() {
    let definition = r#"{
        "name": "single",
        "orbits": [{ "orbitName": "PIECES", "numPieces": 1, "numOrientations": 4 }],
        "defaultPattern": { "PIECES": { "pieces": [0], "orientation": [3] } },
        "moves": { "TURN": { "PIECES": { "permutation": [0], "orientationDelta": [1] } } },
        "derivedMoves": null
    }"#;
    let kpuzzle = KPuzzle::try_from_json(definition.as_bytes()).unwrap();
    let mut pattern = kpuzzle.default_pattern();
    let order = randomize_orbit_naive(
        &mut pattern,
        0,
        "PIECES",
        OrbitRandomizationConstraints {
            orientation: Some(OrbitOrientationConstraint::SumToZero),
            ..Default::default()
        },
    );
    assert_eq!(order, vec![0]);
    assert_eq!(orientations(&pattern, 0), vec![(0, 0)]);
}

#[test]
fn identity_permutation_keeps_the_order() {
    let kpuzzle = cube3x3x3_kpuzzle();
    let mut pattern = kpuzzle.default_pattern();
    let order = randomize_orbit_naive(
        &mut pattern,
        0,
        "EDGES",
        OrbitRandomizationConstraints {
            permutation: Some(OrbitPermutationConstraint::IdentityPermutation),
            ..Default::default()
        },
    );
    assert_eq!(order, (0..12).collect::<Vec<u8>>());
    assert_eq!(pieces(&pattern, 0), order);
}

#[test]
fn first_piece_kept_solved_stays_in_place() {
    let kpuzzle = cube3x3x3_kpuzzle();
    let mut moved = false;
    for _ in 0..200 {
        let mut pattern = kpuzzle.default_pattern();
        let order = randomize_orbit_naive(
            &mut pattern,
            1,
            "CORNERS",
            OrbitRandomizationConstraints {
                first_piece: Some(ConstraintForFirstPiece::KeepSolved),
                ..Default::default()
            },
        );
        assert_eq!(order[0], 0);
        assert_eq!(orientations(&pattern, 1)[0], (0, 0));
        assert_eq!(sorted(order.clone()), (0..8).collect::<Vec<u8>>());
        moved = moved || order != (0..8).collect::<Vec<u8>>();
    }
    assert!(moved);
}

#[test]
fn first_piece_with_ignored_orientation_is_marked() {
    let kpuzzle = cube3x3x3_kpuzzle();
    for _ in 0..200 {
        let mut pattern = kpuzzle.default_pattern();
        let order = randomize_orbit_naive(
            &mut pattern,
            1,
            "CORNERS",
            OrbitRandomizationConstraints {
                first_piece: Some(ConstraintForFirstPiece::IgnoredOrientation),
                ..Default::default()
            },
        );
        let found = orientations(&pattern, 1);
        for slot in 0..8 {
            if order[slot] == 0 {
                assert_eq!(found[slot], (0, 1));
            } else {
                assert_eq!(found[slot].1, 0);
                assert!(found[slot].0 < 3);
            }
        }
    }
}

#[test]
fn subset_leaves_the_other_slots() {
    let kpuzzle = cube3x3x3_kpuzzle();
    for _ in 0..200 {
        let mut pattern = kpuzzle.default_pattern();
        let order = randomize_orbit_naive(
            &mut pattern,
            0,
            "EDGES",
            OrbitRandomizationConstraints {
                subset: Some(vec![2, 5, 7]),
                permutation: Some(OrbitPermutationConstraint::OddParity),
                ..Default::default()
            },
        );
        assert_eq!(sorted(order.clone()), vec![2, 5, 7]);
        assert_eq!(basic_parity(&order), BasicParity::Odd);
        let found = pieces(&pattern, 0);
        assert_eq!(vec![found[2], found[5], found[7]], order);
        for slot in [0, 1, 3, 4, 6, 8, 9, 10, 11] {
            assert_eq!(found[slot], slot as u8);
            assert_eq!(orientations(&pattern, 0)[slot], (0, 0));
        }
    }
}

#[test]
fn default_constraints_constrain_nothing() {
    let constraints = OrbitRandomizationConstraints::default();
    assert!(constraints.permutation.is_none());
    assert!(constraints.orientation.is_none());
    assert!(constraints.first_piece.is_none());
    assert!(constraints.subset.is_none());
}

#[test]
fn orientations_are_packable_where_their_pairs_fit_a_byte() {
    let unpackable = [0u8, 72, 80, 84, 88, 90, 92, 96, 98, 100, 102, 104, 105, 106];
    for orientations in 0..=255u8 {
        assert_eq!(
            are_orientations_packable(orientations),
            orientations <= 107 && !unpackable.contains(&orientations)
        );
    }
    // 60 has the divisors 1, 2, 3, 4, 5, 6, 10, 12, 15, 20, 30, 60: 60 + 168 pairs.
    assert!(are_orientations_packable(60));
    // 72 has the divisors 1, 2, 3, 4, 6, 8, 9, 12, 18, 24, 36, 72: 72 + 195 pairs.
    assert!(!are_orientations_packable(72));
}

#[test]
fn orbits_of_the_cube_are_packable() {
    assert!(are_orbits_packable(&cube3x3x3_kpuzzle().default_pattern()));
    assert!(are_orbits_packable(&two_piece_puzzle().default_pattern()));
}

#[test]
fn orbit_is_randomized_where_it_can_be() {
    let kpuzzle = cube3x3x3_kpuzzle();
    for _ in 0..200 {
        let mut pattern = kpuzzle.default_pattern();
        let order = try_randomize_orbit(
            &mut pattern,
            1,
            "CORNERS",
            OrbitRandomizationConstraints {
                permutation: Some(OrbitPermutationConstraint::OddParity),
                orientation: Some(OrbitOrientationConstraint::SumToZero),
                first_piece: Some(ConstraintForFirstPiece::KeepSolved),
                ..Default::default()
            },
        )
        .unwrap();
        assert_eq!(order[0], 0);
        assert_eq!(sorted(order.clone()), (0..8).collect::<Vec<u8>>());
        assert_eq!(basic_parity(&order), BasicParity::Odd);
        assert_eq!(pieces(&pattern, 1), order);
        let sum: u32 = orientations(&pattern, 1).iter().map(|found| found.0 as u32).sum();
        assert_eq!(sum % 3, 0);
    }
}

#[test]
fn orbit_that_cannot_be_randomized_is_left() {
    let kpuzzle = cube3x3x3_kpuzzle();
    let solved = kpuzzle.default_pattern();
    let refused = |orbit: usize, name: &str, constraints: OrbitRandomizationConstraints| {
        let mut pattern = solved.clone();
        let outcome = try_randomize_orbit(&mut pattern, orbit, name, constraints);
        assert_eq!(pattern, solved);
        outcome.is_none()
    };
    // No such orbit, and an orbit of another name.
    assert!(refused(3, "CORNERS", Default::default()));
    assert!(refused(1, "EDGES", Default::default()));
    // An empty list, and a list that names a slot outside the orbit.
    assert!(refused(
        1,
        "CORNERS",
        OrbitRandomizationConstraints { subset: Some(vec![]), ..Default::default() }
    ));
    assert!(refused(
        1,
        "CORNERS",
        OrbitRandomizationConstraints { subset: Some(vec![0, 8]), ..Default::default() }
    ));
    // Odd parity with fewer than two free pieces.
    assert!(refused(
        1,
        "CORNERS",
        OrbitRandomizationConstraints {
            permutation: Some(OrbitPermutationConstraint::OddParity),
            subset: Some(vec![5]),
            ..Default::default()
        }
    ));
    assert!(refused(
        1,
        "CORNERS",
        OrbitRandomizationConstraints {
            permutation: Some(OrbitPermutationConstraint::OddParity),
            first_piece: Some(ConstraintForFirstPiece::KeepSolved),
            subset: Some(vec![5, 6]),
            ..Default::default()
        }
    ));
    // Even parity on one piece is met.
    let mut pattern = solved.clone();
    let order = try_randomize_orbit(
        &mut pattern,
        1,
        "CORNERS",
        OrbitRandomizationConstraints {
            permutation: Some(OrbitPermutationConstraint::EvenParity),
            subset: Some(vec![5]),
            ..Default::default()
        },
    );
    assert_eq!(order, Some(vec![5]));
}

#[test]
fn orientations_of_listed_slots_sum_to_zero() {
    let kpuzzle = cube3x3x3_kpuzzle();
    for _ in 0..500 {
        let mut pattern = kpuzzle.default_pattern();
        let order = try_randomize_orbit(
            &mut pattern,
            1,
            "CORNERS",
            OrbitRandomizationConstraints {
                permutation: Some(OrbitPermutationConstraint::EvenParity),
                orientation: Some(OrbitOrientationConstraint::SumToZero),
                first_piece: Some(ConstraintForFirstPiece::KeepSolved),
                subset: Some(vec![1, 4, 6, 7]),
                ..Default::default()
            },
        )
        .unwrap();
        assert_eq!(order[0], 1);
        assert_eq!(basic_parity(&order), BasicParity::Even);
        let found = orientations(&pattern, 1);
        let sum: u32 = [1usize, 4, 6, 7].iter().map(|slot| found[*slot].0 as u32).sum();
        assert_eq!(sum % 3, 0);
        for slot in [0usize, 2, 3, 5] {
            assert_eq!(found[slot], (0, 0));
        }
    }
}
