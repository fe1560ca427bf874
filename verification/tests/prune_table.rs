use cubing::alg::Move;
use cubing::kpuzzle::{KPattern, KPuzzle};
use cubing::puzzles::cube2x2x2_kpuzzle;
use puzzle_search::prune_table::{HashPruneTable, SearchError};
use puzzle_search::puzzle_traits::{Depth, MoveTag, MoveTransformationInfo, SemiGroupActionPuzzle};
use std::collections::{HashMap, VecDeque};

fn generators(kpuzzle: &KPuzzle, families: &[&str]) -> Vec<MoveTransformationInfo<KPuzzle>> {
    let mut list = vec![];
    for (axis, family) in families.iter().enumerate() {
        for suffix in ["", "2", "'"] {
            let name = format!("{}{}", family, suffix);
            let transformation =
                kpuzzle.transformation_from_move(&name.parse::<Move>().unwrap()).unwrap();
            list.push(MoveTransformationInfo {
                inverse_transformation: transformation.invert(),
                transformation,
                flat_move_index: list.len(),
                tag: MoveTag { axis, family: 0 },
            });
        }
    }
    list
}

/// The least number of generator moves from each pattern within `radius`
/// moves of `target` to `target`.
fn distances(
    generators: &[MoveTransformationInfo<KPuzzle>],
    target: &KPattern,
    radius: usize,
) -> HashMap<KPattern, usize> {
    let mut found = HashMap::new();
    let mut queue = VecDeque::new();
    found.insert(target.clone(), 0);
    queue.push_back(target.clone());
    while let Some(pattern) = queue.pop_front() {
        let distance = found[&pattern];
        if distance == radius {
            continue;
        }
        for generator in generators {
            let before = pattern.apply_transformation(&generator.inverse_transformation);
            if !found.contains_key(&before) {
                found.insert(before.clone(), distance + 1);
                queue.push_back(before);
            }
        }
    }
    found
}

#[test]
fn bounds_never_exceed_the_distance() {
    let kpuzzle = cube2x2x2_kpuzzle();
    let generators = generators(kpuzzle, &["U", "R", "F"]);
    let target = kpuzzle.default_pattern();
    let table = match HashPruneTable::build(kpuzzle, &generators, &target, Depth(3), usize::MAX) {
        Ok(table) => table,
        Err(_) => panic!("the cube is consistent"),
    };
    assert_eq!(table.radius, 3);
    let distances = distances(&generators, &target, 5);
    assert_eq!(distances.len(), 1 + 9 + 54 + 321 + 1847 + 9992);
    for (pattern, distance) in &distances {
        let bound = table.lookup(kpuzzle, pattern).0;
        assert!(bound <= *distance);
        // Within the radius the bound is the distance; beyond it, the radius.
        assert_eq!(bound, (*distance).min(3));
    }
    assert_eq!(table.patterns.len(), 1 + 9 + 54 + 321);
}

#[test]
fn build_stops_at_the_wanted_size() {
    let kpuzzle = cube2x2x2_kpuzzle();
    let generators = generators(kpuzzle, &["U", "R", "F"]);
    let target = kpuzzle.default_pattern();
    let table = match HashPruneTable::build(kpuzzle, &generators, &target, Depth(10), 50) {
        Ok(table) => table,
        Err(_) => panic!("the cube is consistent"),
    };
    // One level has 10 entries, two levels have 64.
    assert_eq!(table.radius, 2);
    assert_eq!(table.patterns.len(), 64);
    let none = match HashPruneTable::build(kpuzzle, &generators, &target, Depth(0), 50) {
        Ok(table) => table,
        Err(_) => panic!("the cube is consistent"),
    };
    assert_eq!(none.radius, 0);
    assert_eq!(none.patterns.len(), 1);
    assert_eq!(none.lookup(kpuzzle, &target), Depth(0));
    let turned = target.apply_transformation(&generators[0].transformation);
    assert_eq!(none.lookup(kpuzzle, &turned), Depth(0));
}

#[test]
fn build_stops_once_every_pattern_is_found() {
    let definition = r#"{
        "name": "ring",
        "orbits": [{ "orbitName": "PIECES", "numPieces": 3, "numOrientations": 1 }],
        "defaultPattern": { "PIECES": { "pieces": [0, 1, 2], "orientation": [0, 0, 0] } },
        "moves": { "T": { "PIECES": { "permutation": [1, 2, 0], "orientationDelta": [0, 0, 0] } } },
        "derivedMoves": null
    }"#;
    let kpuzzle = KPuzzle::try_from_json(definition.as_bytes()).unwrap();
    let turn = kpuzzle.transformation_from_move(&"T".parse::<Move>().unwrap()).unwrap();
    let generators = vec![
        MoveTransformationInfo {
            inverse_transformation: turn.invert(),
            transformation: turn.clone(),
            flat_move_index: 0,
            tag: MoveTag { axis: 0, family: 0 },
        },
        MoveTransformationInfo {
            inverse_transformation: turn.clone(),
            transformation: turn.invert(),
            flat_move_index: 1,
            tag: MoveTag { axis: 0, family: 0 },
        },
    ];
    let target = kpuzzle.default_pattern();
    let table = match HashPruneTable::build(&kpuzzle, &generators, &target, Depth(100), 100) {
        Ok(table) => table,
        Err(_) => panic!("the ring is consistent"),
    };
    // The three patterns are found after one level; the second level is empty.
    assert_eq!(table.patterns.len(), 3);
    assert_eq!(table.radius, 2);
    assert_eq!(table.lookup(&kpuzzle, &target), Depth(0));
    assert_eq!(table.lookup(&kpuzzle, &target.apply_transformation(&turn)), Depth(1));
    assert_eq!(table.lookup(&kpuzzle, &target.apply_transformation(&turn.invert())), Depth(1));
}

#[test]
fn wrong_inverse_is_reported() {
    let kpuzzle = cube2x2x2_kpuzzle();
    let mut generators = generators(kpuzzle, &["U", "R"]);
    // The inverse of R is not R.
    generators[3].inverse_transformation = generators[3].transformation.clone();
    let target = kpuzzle.default_pattern();
    let outcome = HashPruneTable::build(kpuzzle, &generators, &target, Depth(3), usize::MAX);
    assert!(matches!(outcome, Err(SearchError::InconsistentPuzzle)));
}

/// A puzzle all of whose patterns have the same fingerprint.
struct Colliding;

impl SemiGroupActionPuzzle for Colliding {
    type Pattern = u8;
    type Transformation = u8;
    type Key = u8;

    fn pattern_key(pattern: &u8) -> u8 {
        *pattern
    }

    fn key_after(&self, key: u8, transformation: &u8) -> Option<u8> {
        self.pattern_apply_transformation(&key, transformation)
    }

    fn key_fingerprint(_key: u8) -> u64 {
        7
    }

    fn pattern_apply_transformation(&self, pattern: &u8, turn: &u8) -> Option<u8> {
        Some((pattern + turn) % 10)
    }

    fn patterns_equal(&self, a: &u8, b: &u8) -> bool {
        a == b
    }

    fn pattern_hash_u64(&self, _pattern: &u8) -> u64 {
        7
    }

    fn pattern_clone(&self, pattern: &u8) -> u8 {
        *pattern
    }
}

#[test]
fn patterns_of_one_fingerprint_are_told_apart() {
    // A ring of ten places, turned by one place either way.
    let generators = vec![
        MoveTransformationInfo {
            transformation: 1,
            inverse_transformation: 9,
            flat_move_index: 0,
            tag: MoveTag { axis: 0, family: 0 },
        },
        MoveTransformationInfo {
            transformation: 9,
            inverse_transformation: 1,
            flat_move_index: 1,
            tag: MoveTag { axis: 0, family: 0 },
        },
    ];
    let table = match HashPruneTable::build(&Colliding, &generators, &0, Depth(3), usize::MAX) {
        Ok(table) => table,
        Err(_) => panic!("the ring is consistent"),
    };
    assert_eq!(table.radius, 3);
    assert_eq!(table.patterns.len(), 7);
    let expected = [0, 1, 2, 3, 3, 3, 3, 3, 2, 1];
    for place in 0..10u8 {
        assert_eq!(table.lookup(&Colliding, &place), Depth(expected[place as usize]));
    }
}

#[test]
fn fingerprints_tell_patterns_apart() {
    let kpuzzle = cube2x2x2_kpuzzle();
    let generators = generators(kpuzzle, &["U", "R", "F"]);
    let distances = distances(&generators, &kpuzzle.default_pattern(), 4);
    let mut seen = HashMap::new();
    for pattern in distances.keys() {
        let fingerprint = kpuzzle.pattern_hash_u64(pattern);
        assert!(seen.insert(fingerprint, pattern.clone()).is_none());
    }
}
