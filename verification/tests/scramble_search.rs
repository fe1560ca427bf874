use cubing::alg::Move;
use cubing::kpuzzle::{KPattern, KPuzzle};
use cubing::puzzles::cube2x2x2_kpuzzle;
use puzzle_search::idf_search::{IDFSearch, IndividualSearchOptions};
use puzzle_search::puzzle_traits::{apply_moves, Depth, MoveTag, MoveTransformationInfo};
use puzzle_search::scramble_search::{filtered_search, first_solution, is_far_enough};
use puzzle_search::traversal_filters::{
    PatternTraversalFilterNoOp, TransformationTraversalFilter, TransformationTraversalFilterNoOp,
};

const NAMES: [&str; 9] = ["U", "U2", "U'", "R", "R2", "R'", "F", "F2", "F'"];

fn cube_search() -> IDFSearch<KPuzzle> {
    let kpuzzle = cube2x2x2_kpuzzle();
    let mut generators = vec![];
    for (index, name) in NAMES.iter().enumerate() {
        let transformation =
            kpuzzle.transformation_from_move(&name.parse::<Move>().unwrap()).unwrap();
        generators.push(MoveTransformationInfo {
            inverse_transformation: transformation.invert(),
            transformation,
            flat_move_index: index,
            tag: MoveTag { axis: index / 3, family: 0 },
        });
    }
    match IDFSearch::try_new(kpuzzle.clone(), generators, kpuzzle.default_pattern(), Depth(4), usize::MAX)
    {
        Ok(search) => search,
        Err(_) => panic!("the cube is consistent"),
    }
}

fn turned(moves: &str) -> KPattern {
    cube2x2x2_kpuzzle().default_pattern().apply_alg(&moves.parse().unwrap()).unwrap()
}

#[test]
fn no_op_filter_keeps_every_move() {
    let search = cube_search();
    for generator in &search.generators {
        for depth in [0, 1, 7, usize::MAX] {
            assert!(<TransformationTraversalFilterNoOp as TransformationTraversalFilter<KPuzzle>>::keep_move(
                generator,
                Depth(depth)
            ));
        }
    }
}

#[test]
fn first_solution_is_the_first_of_the_search() {
    let search = cube_search();
    let start = turned("R U F");
    let options = IndividualSearchOptions {
        min_num_solutions: Some(3),
        max_depth: Some(Depth(5)),
        ..Default::default()
    };
    let first = first_solution::<KPuzzle, TransformationTraversalFilterNoOp, PatternTraversalFilterNoOp>(
        &search, &start, options,
    );
    assert_eq!(first, Some(vec![8, 2, 5]));
    let options = IndividualSearchOptions {
        max_depth: Some(Depth(2)),
        ..Default::default()
    };
    let none = first_solution::<KPuzzle, TransformationTraversalFilterNoOp, PatternTraversalFilterNoOp>(
        &search, &start, options,
    );
    assert_eq!(none, None);
}

#[test]
fn pattern_is_far_enough_from_its_distance_on() {
    let search = cube_search();
    let start = turned("R U F");
    assert!(is_far_enough(&search, &start, 0));
    assert!(is_far_enough(&search, &start, 1));
    assert!(is_far_enough(&search, &start, 3));
    assert!(!is_far_enough(&search, &start, 4));
    assert!(!is_far_enough(&search, &start, 6));
    assert!(is_far_enough(&search, &turned(""), 0));
    assert!(!is_far_enough(&search, &turned(""), 1));
}

#[test]
fn filtered_search_gives_a_long_enough_solution() {
    let search = cube_search();
    let start = turned("R U F");
    assert_eq!(filtered_search(&search, &start, 4, Some(5)), None);
    assert_eq!(filtered_search(&search, &start, 3, None), Some(vec![8, 2, 5]));
    assert_eq!(filtered_search(&search, &start, 3, Some(3)), Some(vec![8, 2, 5]));
    let long = filtered_search(&search, &start, 3, Some(5)).unwrap();
    assert!(long.len() >= 5);
    let reached = apply_moves(&search.puzzle, &search.generators, &start, &long).unwrap();
    assert_eq!(reached, search.target_pattern);
}
