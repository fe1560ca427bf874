use puzzle_search::idf_search::{IDFSearch, IndividualSearchOptions};
use puzzle_search::prune_table::SearchError;
use puzzle_search::puzzle_traits::{Depth, MoveTag, MoveTransformationInfo, SemiGroupActionPuzzle};

/// Three pieces in a ring; a transformation turns the ring by a number of
/// places.
struct Ring;

impl SemiGroupActionPuzzle for Ring {
    type Pattern = [u8; 3];
    type Transformation = usize;
    type Key = [u8; 3];

    fn pattern_key(pattern: &[u8; 3]) -> [u8; 3] {
        *pattern
    }

    fn key_after(&self, key: [u8; 3], transformation: &usize) -> Option<[u8; 3]> {
        self.pattern_apply_transformation(&key, transformation)
    }

    fn key_fingerprint(key: [u8; 3]) -> u64 {
        (key[0] as u64) * 9 + (key[1] as u64) * 3 + key[2] as u64
    }

    fn pattern_apply_transformation(&self, pattern: &[u8; 3], turn: &usize) -> Option<[u8; 3]> {
        let mut next = [0u8; 3];
        for i in 0..3 {
            next[i] = pattern[(i + turn) % 3];
        }
        Some(next)
    }

    fn patterns_equal(&self, a: &[u8; 3], b: &[u8; 3]) -> bool {
        a == b
    }

    fn pattern_hash_u64(&self, pattern: &[u8; 3]) -> u64 {
        Self::key_fingerprint(*pattern)
    }

    fn pattern_clone(&self, pattern: &[u8; 3]) -> [u8; 3] {
        *pattern
    }
}

fn ring_generators() -> Vec<MoveTransformationInfo<Ring>> {
    vec![
        MoveTransformationInfo {
            transformation: 1,
            inverse_transformation: 2,
            flat_move_index: 0,
            tag: MoveTag { axis: 0, family: 0 },
        },
        MoveTransformationInfo {
            transformation: 2,
            inverse_transformation: 1,
            flat_move_index: 1,
            tag: MoveTag { axis: 0, family: 0 },
        },
    ]
}

fn ring_search() -> IDFSearch<Ring> {
    match IDFSearch::try_new(Ring, ring_generators(), [0, 1, 2], Depth(8), 100) {
        Ok(search) => search,
        Err(_) => panic!("the ring is consistent"),
    }
}

fn all_solutions(search: &IDFSearch<Ring>, start: [u8; 3], max_depth: usize) -> Vec<Vec<usize>> {
    let mut found = search.search(
        &start,
        IndividualSearchOptions {
            min_num_solutions: Some(10),
            max_depth: Some(Depth(max_depth)),
            ..Default::default()
        },
    );
    let mut all = vec![];
    while let Some(solution) = found.next() {
        all.push(solution);
    }
    assert_eq!(found.next(), None);
    all
}

#[test]
fn one_move_away_is_solved_by_the_inverse_move() {
    let search = ring_search();
    // The solved ring turned by one place.
    let start = [1, 2, 0];
    assert_eq!(all_solutions(&search, start, 1), vec![vec![1]]);
    assert_eq!(all_solutions(&search, start, 0), Vec::<Vec<usize>>::new());
}

#[test]
fn solved_pattern_has_the_empty_solution() {
    let search = ring_search();
    assert_eq!(all_solutions(&search, [0, 1, 2], 0), vec![Vec::<usize>::new()]);
}

#[test]
fn empty_generator_set_is_refused() {
    let outcome = IDFSearch::try_new(Ring, vec![], [0, 1, 2], Depth(8), 100);
    assert!(matches!(outcome, Err(SearchError::MalformedGenerators)));
}
