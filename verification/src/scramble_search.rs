use crate::canonical_fsm::state_after_forced;
use crate::canonical_paths::can_be_solved_within;
use crate::canonical_paths::lemma_search_tells_whether_target_is_near;
use crate::canonical_paths::tags_are_sound;
use crate::idf_search::is_accepted_path;
use crate::idf_search::search_result;
use crate::idf_search::sequences;
use crate::idf_search::IDFSearch;
use crate::idf_search::IndividualSearchOptions;
use crate::idf_search::SearchBounds;
use crate::puzzle_traits::Depth;
use crate::puzzle_traits::MoveTransformationInfo;
use crate::puzzle_traits::SemiGroupActionPuzzle;
use crate::traversal_filters::PatternTraversalFilter;
use crate::traversal_filters::PatternTraversalFilterNoOp;
use crate::traversal_filters::TransformationTraversalFilter;
use crate::traversal_filters::TransformationTraversalFilterNoOp;
use vstd::prelude::*;

verus! {

/// The bounds of a search for one solution of a length from `min_depth`
/// to `max_depth`, with no forced moves.
pub open spec fn depth_bounds(min_depth: usize, max_depth: Option<usize>) -> SearchBounds {
    SearchBounds {
        limit: 1,
        least_depth: min_depth as nat,
        greatest_depth: match max_depth {
            Some(depth) => depth as nat,
            None => usize::MAX as nat,
        },
        pre_moves: Seq::empty(),
        post_moves: Seq::empty(),
    }
}

/// Runs a search and takes the first solution that it hands out.
///
/// A solution returned is an accepted path from `pattern` of a length
/// within the depths of the options. Where the prune table is admissible,
/// it is the first of [`search_result`], and `None` is returned exactly
/// where that is empty.
pub fn first_solution<
    TPuzzle: SemiGroupActionPuzzle,
    TFilter: TransformationTraversalFilter<TPuzzle>,
    PFilter: PatternTraversalFilter<TPuzzle>,
>(search: &IDFSearch<TPuzzle>, pattern: &TPuzzle::Pattern, options: IndividualSearchOptions) -> (first:
    Option<Vec<usize>>)
    requires
        search.wf(),
    ensures
        first matches Some(moves) ==> {
            &&& options.least_depth() <= moves@.len() <= options.greatest_depth()
            &&& is_accepted_path::<TPuzzle, TFilter, PFilter>(
                &search.puzzle,
                search.generators@,
                search.target(),
                options.post_moves(),
                TPuzzle::pattern_key(pattern),
                state_after_forced(options.pre_moves()),
                moves@,
            )
        },
        search.prunes_admissibly() ==> match first {
            Some(moves) => search_result::<TPuzzle, TFilter, PFilter>(
                &search.puzzle,
                search.generators@,
                search.target(),
                TPuzzle::pattern_key(pattern),
                options.bounds(),
            ).len() > 0 && moves@ == search_result::<TPuzzle, TFilter, PFilter>(
                &search.puzzle,
                search.generators@,
                search.target(),
                TPuzzle::pattern_key(pattern),
                options.bounds(),
            )[0],
            None => search_result::<TPuzzle, TFilter, PFilter>(
                &search.puzzle,
                search.generators@,
                search.target(),
                TPuzzle::pattern_key(pattern),
                options.bounds(),
            ).len() == 0,
        },
{
    let mut found = search.search_with_filters::<TFilter, PFilter>(pattern, options);
    let ghost all = sequences(found.solutions@);
    assert(found.pending() =~= all);
    found.next()
}

/// Whether a pattern is far enough from the target to be handed out:
/// whether the search finds no solution of fewer than `min_optimal_moves`
/// moves.
///
/// Where it returns `false`, an accepted path of fewer than
/// `min_optimal_moves` moves exists. Where the prune table is admissible,
/// it returns `true` exactly where no such path is found; where the tags
/// of the generators are sound as well, that is exactly where the target
/// is at least `min_optimal_moves` moves away.
pub fn is_far_enough<TPuzzle: SemiGroupActionPuzzle>(
    search: &IDFSearch<TPuzzle>,
    pattern: &TPuzzle::Pattern,
    min_optimal_moves: usize,
) -> (far: bool)
    requires
        search.wf(),
    ensures
        !far ==> min_optimal_moves > 0 && exists|moves: Seq<usize>|
            moves.len() < min_optimal_moves && #[trigger] is_accepted_path::<
                TPuzzle,
                TransformationTraversalFilterNoOp,
                PatternTraversalFilterNoOp,
            >(
                &search.puzzle,
                search.generators@,
                search.target(),
                Seq::empty(),
                TPuzzle::pattern_key(pattern),
                state_after_forced(Seq::empty()),
                moves,
            ),
        search.prunes_admissibly() ==> far == (min_optimal_moves == 0 || search_result::<
            TPuzzle,
            TransformationTraversalFilterNoOp,
            PatternTraversalFilterNoOp,
        >(
            &search.puzzle,
            search.generators@,
            search.target(),
            TPuzzle::pattern_key(pattern),
            depth_bounds(0, Some((min_optimal_moves - 1) as usize)),
        ).len() == 0),
        search.prunes_admissibly() && tags_are_sound(&search.puzzle, search.generators@) ==> far
            == (min_optimal_moves == 0 || !can_be_solved_within(
            &search.puzzle,
            search.generators@,
            TPuzzle::pattern_key(pattern),
            search.target(),
            (min_optimal_moves - 1) as nat,
        )),
{
    if min_optimal_moves == 0 {
        return true;
    }
    proof {
        if tags_are_sound(&search.puzzle, search.generators@) {
            assert(search.generators@.len() == search.generators.len());
            lemma_search_tells_whether_target_is_near(
                &search.puzzle,
                search.generators@,
                search.target(),
                TPuzzle::pattern_key(pattern),
                depth_bounds(0, Some((min_optimal_moves - 1) as usize)),
            );
        }
    }
    let options = IndividualSearchOptions {
        min_num_solutions: Some(1),
        min_depth: Some(Depth(0)),
        max_depth: Some(Depth(min_optimal_moves - 1)),
        canonical_fsm_pre_moves: None,
        canonical_fsm_post_moves: None,
    };
    assert(options.bounds() == depth_bounds(0, Some((min_optimal_moves - 1) as usize)));
    let first = first_solution::<
        TPuzzle,
        TransformationTraversalFilterNoOp,
        PatternTraversalFilterNoOp,
    >(search, pattern, options);
    first.is_none()
}

/// What [`filtered_search`] finds from a start, where the prune table is
/// admissible: nothing where the search finds a solution of fewer than
/// `min_optimal_moves` moves, else the first solution of at least
/// `min_scramble_moves` moves, or of any length where that is `None`.
pub open spec fn filtered_result<TPuzzle: SemiGroupActionPuzzle>(
    puzzle: &TPuzzle,
    generators: Seq<MoveTransformationInfo<TPuzzle>>,
    target: TPuzzle::Key,
    start: TPuzzle::Key,
    min_optimal_moves: usize,
    min_scramble_moves: Option<usize>,
) -> Option<Seq<usize>> {
    let too_close = min_optimal_moves > 0 && search_result::<
        TPuzzle,
        TransformationTraversalFilterNoOp,
        PatternTraversalFilterNoOp,
    >(
        puzzle,
        generators,
        target,
        start,
        depth_bounds(0, Some((min_optimal_moves - 1) as usize)),
    ).len() > 0;
    let long_enough = search_result::<
        TPuzzle,
        TransformationTraversalFilterNoOp,
        PatternTraversalFilterNoOp,
    >(
        puzzle,
        generators,
        target,
        start,
        depth_bounds(
            match min_scramble_moves {
                Some(least) => least,
                None => 0,
            },
            None,
        ),
    );
    if too_close || long_enough.len() == 0 {
        None
    } else {
        Some(long_enough[0])
    }
}

/// A solution of at least `min_scramble_moves` moves for a pattern that is
/// far enough from the target: `None` where the search finds a solution of
/// fewer than `min_optimal_moves` moves, else the first solution of at
/// least `min_scramble_moves` moves, or of any length where that is `None`.
pub fn filtered_search<TPuzzle: SemiGroupActionPuzzle>(
    search: &IDFSearch<TPuzzle>,
    scramble_pattern: &TPuzzle::Pattern,
    min_optimal_moves: usize,
    min_scramble_moves: Option<usize>,
) -> (scramble: Option<Vec<usize>>)
    requires
        search.wf(),
    ensures
        scramble matches Some(moves) ==> {
            &&& min_scramble_moves matches Some(least) ==> moves@.len() >= least
            &&& is_accepted_path::<
                TPuzzle,
                TransformationTraversalFilterNoOp,
                PatternTraversalFilterNoOp,
            >(
                &search.puzzle,
                search.generators@,
                search.target(),
                Seq::empty(),
                TPuzzle::pattern_key(scramble_pattern),
                state_after_forced(Seq::empty()),
                moves@,
            )
        },
        search.prunes_admissibly() ==> (match scramble {
            Some(moves) => Some(moves@),
            None => None,
        }) == filtered_result(
            &search.puzzle,
            search.generators@,
            search.target(),
            TPuzzle::pattern_key(scramble_pattern),
            min_optimal_moves,
            min_scramble_moves,
        ),
{
    if !is_far_enough(search, scramble_pattern, min_optimal_moves) {
        return None;
    }
    let least: usize = match min_scramble_moves {
        Some(least) => least,
        None => 0,
    };
    let options = IndividualSearchOptions {
        min_num_solutions: Some(1),
        min_depth: Some(Depth(least)),
        max_depth: None,
        canonical_fsm_pre_moves: None,
        canonical_fsm_post_moves: None,
    };
    assert(options.bounds() == depth_bounds(least, None));
    first_solution::<TPuzzle, TransformationTraversalFilterNoOp, PatternTraversalFilterNoOp>(
        search,
        scramble_pattern,
        options,
    )
}

} // verus!
