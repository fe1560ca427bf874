use cubing::alg::Move;
use cubing::kpuzzle::{KPattern, KPuzzle};
use cubing::puzzles::cube2x2x2_kpuzzle;
use puzzle_search::idf_search::{IDFSearch, IndividualSearchOptions};
use puzzle_search::prune_table::SearchError;
use puzzle_search::puzzle_traits::{
    apply_moves, Depth, MoveTag, MoveTransformationInfo, SemiGroupActionPuzzle,
};
use puzzle_search::traversal_filters::{PatternTraversalFilter, TransformationTraversalFilter};

const NAMES: [&str; 9] = ["U", "U2", "U'", "R", "R2", "R'", "F", "F2", "F'"];

fn cube_generators(kpuzzle: &KPuzzle) -> Vec<MoveTransformationInfo<KPuzzle>> {
    let mut list = vec![];
    for (index, name) in NAMES.iter().enumerate() {
        let transformation =
            kpuzzle.transformation_from_move(&name.parse::<Move>().unwrap()).unwrap();
        list.push(MoveTransformationInfo {
            inverse_transformation: transformation.invert(),
            transformation,
            flat_move_index: index,
            tag: MoveTag { axis: index / 3, family: 0 },
        });
    }
    list
}

fn cube_search() -> IDFSearch<KPuzzle> {
    let kpuzzle = cube2x2x2_kpuzzle();
    match IDFSearch::try_new(
        kpuzzle.clone(),
        cube_generators(kpuzzle),
        kpuzzle.default_pattern(),
        Depth(4),
        usize::MAX,
    ) {
        Ok(search) => search,
        Err(_) => panic!("the cube is consistent"),
    }
}

fn turned(moves: &str) -> KPattern {
    cube2x2x2_kpuzzle().default_pattern().apply_alg(&moves.parse().unwrap()).unwrap()
}

fn names(solution: &[usize]) -> Vec<&'static str> {
    solution.iter().map(|index| NAMES[*index]).collect()
}

fn collect(search: &IDFSearch<KPuzzle>, start: &KPattern, options: IndividualSearchOptions) -> Vec<Vec<usize>> {
    let mut found = search.search(start, options);
    let mut all = vec![];
    while let Some(solution) = found.next() {
        all.push(solution);
    }
    assert_eq!(found.next(), None);
    assert_eq!(found.next(), None);
    all
}

#[test]
fn solution_of_the_distance_is_found_at_every_greater_depth() {
    let search = cube_search();
    // Six moves from solved, and no fewer.
    let start = turned("R U F R' U2 F'");
    for max_depth in 0..6 {
        let options = IndividualSearchOptions {
            max_depth: Some(Depth(max_depth)),
            ..Default::default()
        };
        assert_eq!(collect(&search, &start, options), Vec::<Vec<usize>>::new());
    }
    for max_depth in 6..9 {
        let options = IndividualSearchOptions {
            max_depth: Some(Depth(max_depth)),
            ..Default::default()
        };
        let found = collect(&search, &start, options);
        assert_eq!(found.len(), 1);
        assert_eq!(found[0].len(), 6);
        let reached = apply_moves(&search.puzzle, &search.generators, &start, &found[0]).unwrap();
        assert_eq!(reached, search.target_pattern);
    }
}

#[test]
fn unbounded_search_finds_the_inverse() {
    let search = cube_search();
    let found = collect(&search, &turned("R U F"), IndividualSearchOptions::default());
    assert_eq!(found.len(), 1);
    assert_eq!(names(&found[0]), vec!["F'", "U'", "R'"]);
}

#[test]
fn solutions_come_shallowest_first() {
    let search = cube_search();
    let start = turned("R U");
    let options = IndividualSearchOptions {
        min_num_solutions: Some(4),
        max_depth: Some(Depth(7)),
        ..Default::default()
    };
    let found = collect(&search, &start, options);
    assert_eq!(found.len(), 4);
    assert_eq!(names(&found[0]), vec!["U'", "R'"]);
    for pair in found.windows(2) {
        assert!(pair[0].len() <= pair[1].len());
        assert_ne!(pair[0], pair[1]);
    }
    for solution in &found {
        let reached = apply_moves(&search.puzzle, &search.generators, &start, solution).unwrap();
        assert_eq!(reached, search.target_pattern);
        // No axis is turned twice in a row.
        assert!(solution.windows(2).all(|pair| pair[0] / 3 != pair[1] / 3));
    }
}

#[test]
fn least_depth_skips_the_shorter_solutions() {
    let search = cube_search();
    let start = turned("R U");
    let options = IndividualSearchOptions {
        min_depth: Some(Depth(3)),
        max_depth: Some(Depth(8)),
        ..Default::default()
    };
    let found = collect(&search, &start, options);
    assert_eq!(found.len(), 1);
    assert!(found[0].len() >= 3);
    let reached = apply_moves(&search.puzzle, &search.generators, &start, &found[0]).unwrap();
    assert_eq!(reached, search.target_pattern);
}

#[test]
fn least_depth_above_greatest_depth_finds_nothing() {
    let search = cube_search();
    let options = IndividualSearchOptions {
        min_depth: Some(Depth(3)),
        max_depth: Some(Depth(2)),
        ..Default::default()
    };
    assert_eq!(collect(&search, &turned("R U"), options), Vec::<Vec<usize>>::new());
}

#[test]
fn no_solution_is_wanted_none_is_found() {
    let search = cube_search();
    let options = IndividualSearchOptions {
        min_num_solutions: Some(0),
        max_depth: Some(Depth(3)),
        ..Default::default()
    };
    assert_eq!(collect(&search, &turned("R"), options), Vec::<Vec<usize>>::new());
}

#[test]
fn forced_moves_exclude_their_axis() {
    let search = cube_search();
    let start = turned("R U");
    // A move of the axis of U is forced before the solution: U' may not begin it.
    let options = IndividualSearchOptions {
        max_depth: Some(Depth(2)),
        canonical_fsm_pre_moves: Some(vec![MoveTag { axis: 0, family: 0 }]),
        ..Default::default()
    };
    assert_eq!(collect(&search, &start, options), Vec::<Vec<usize>>::new());
    // A move of the axis of R is forced after the solution: R' may not end it.
    let options = IndividualSearchOptions {
        max_depth: Some(Depth(2)),
        canonical_fsm_post_moves: Some(vec![MoveTag { axis: 1, family: 0 }]),
        ..Default::default()
    };
    assert_eq!(collect(&search, &start, options), Vec::<Vec<usize>>::new());
    // A move of the axis of F is forced on both sides: the solution stands.
    let options = IndividualSearchOptions {
        max_depth: Some(Depth(2)),
        canonical_fsm_pre_moves: Some(vec![MoveTag { axis: 2, family: 0 }]),
        canonical_fsm_post_moves: Some(vec![MoveTag { axis: 2, family: 0 }]),
        ..Default::default()
    };
    assert_eq!(collect(&search, &start, options).len(), 1);
}

/// Keeps quarter turns only, but for the last move.
struct QuarterTurnsFirst;

impl TransformationTraversalFilter<KPuzzle> for QuarterTurnsFirst {
    fn keeps(info: &MoveTransformationInfo<KPuzzle>, remaining_depth: Depth) -> bool {
        Self::keep_move(info, remaining_depth)
    }

    fn keep_move(info: &MoveTransformationInfo<KPuzzle>, remaining_depth: Depth) -> bool {
        remaining_depth.0 == 0 || info.flat_move_index % 3 != 1
    }
}

/// Accepts the patterns whose corner of slot 4 is in its place.
struct CornerFourHome;

impl PatternTraversalFilter<KPuzzle> for CornerFourHome {
    fn key_is_valid(_key: <KPuzzle as SemiGroupActionPuzzle>::Key) -> bool {
        unreachable!()
    }

    fn is_valid(pattern: &KPattern) -> bool {
        let info = &pattern.kpuzzle().data.ordered_orbit_info[0];
        pattern.get_piece(info, 4) == 4
    }
}

struct KeepAll;

impl TransformationTraversalFilter<KPuzzle> for KeepAll {
    fn keeps(_info: &MoveTransformationInfo<KPuzzle>, _remaining_depth: Depth) -> bool {
        true
    }

    fn keep_move(_info: &MoveTransformationInfo<KPuzzle>, _remaining_depth: Depth) -> bool {
        true
    }
}

struct AcceptAll;

impl PatternTraversalFilter<KPuzzle> for AcceptAll {
    fn key_is_valid(_key: <KPuzzle as SemiGroupActionPuzzle>::Key) -> bool {
        true
    }

    fn is_valid(_pattern: &KPattern) -> bool {
        true
    }
}

#[test]
fn transformation_filter_rejects_moves() {
    let search = cube_search();
    let start = turned("R2 U");
    let options = IndividualSearchOptions {
        max_depth: Some(Depth(2)),
        ..Default::default()
    };
    // In U' R2 the half turn is the last move, so it is kept.
    let mut found = search.search_with_filters::<QuarterTurnsFirst, AcceptAll>(&start, options);
    assert_eq!(found.next().map(|solution| names(&solution)), Some(vec!["U'", "R2"]));
    // From U R2 the solution R2 U' begins with a half turn, which is refused.
    let start = turned("U R2");
    let options = IndividualSearchOptions {
        max_depth: Some(Depth(2)),
        ..Default::default()
    };
    let mut found = search.search_with_filters::<QuarterTurnsFirst, AcceptAll>(&start, options);
    assert_eq!(found.next(), None);
    let options = IndividualSearchOptions {
        max_depth: Some(Depth(2)),
        ..Default::default()
    };
    let mut found = search.search_with_filters::<KeepAll, AcceptAll>(&start, options);
    assert_eq!(found.next().map(|solution| names(&solution)), Some(vec!["R2", "U'"]));
}

#[test]
fn pattern_filter_rejects_patterns() {
    let search = cube_search();
    // U leaves the corner of slot 4 in its place, R does not.
    assert!(CornerFourHome::is_valid(&turned("U")));
    assert!(!CornerFourHome::is_valid(&turned("R")));
    // From U R, the solution R' U' passes the pattern U.
    let options = IndividualSearchOptions {
        max_depth: Some(Depth(2)),
        ..Default::default()
    };
    let mut found = search.search_with_filters::<KeepAll, CornerFourHome>(&turned("U R"), options);
    assert_eq!(found.next().map(|solution| names(&solution)), Some(vec!["R'", "U'"]));
    // From R U, the solution U' R' passes the pattern R, which is refused.
    let options = IndividualSearchOptions {
        max_depth: Some(Depth(2)),
        ..Default::default()
    };
    let mut found = search.search_with_filters::<KeepAll, CornerFourHome>(&turned("R U"), options);
    assert_eq!(found.next(), None);
}

#[test]
fn misplaced_generator_is_refused() {
    let kpuzzle = cube2x2x2_kpuzzle();
    let mut generators = cube_generators(kpuzzle);
    generators[4].flat_move_index = 5;
    let outcome = IDFSearch::try_new(
        kpuzzle.clone(),
        generators,
        kpuzzle.default_pattern(),
        Depth(2),
        usize::MAX,
    );
    assert!(matches!(outcome, Err(SearchError::MalformedGenerators)));
}

#[test]
fn wrong_inverse_is_refused() {
    let kpuzzle = cube2x2x2_kpuzzle();
    let mut generators = cube_generators(kpuzzle);
    generators[0].inverse_transformation = generators[1].transformation.clone();
    let outcome = IDFSearch::try_new(
        kpuzzle.clone(),
        generators,
        kpuzzle.default_pattern(),
        Depth(2),
        usize::MAX,
    );
    assert!(matches!(outcome, Err(SearchError::InconsistentPuzzle)));
}

#[test]
fn apply_moves_refuses_a_move_that_is_no_generator() {
    let search = cube_search();
    let start = turned("R");
    assert_eq!(apply_moves(&search.puzzle, &search.generators, &start, &vec![5]), Some(turned("")));
    assert_eq!(apply_moves(&search.puzzle, &search.generators, &start, &vec![]), Some(turned("R")));
    assert_eq!(apply_moves(&search.puzzle, &search.generators, &start, &vec![5, 9]), None);
}
