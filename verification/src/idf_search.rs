use crate::canonical_fsm::accepts_before_forced;
use crate::canonical_fsm::state_after_forced;
use crate::canonical_fsm::step;
use crate::canonical_fsm::CanonicalFSM;
use crate::canonical_fsm::CanonicalFSMState;
use crate::prune_table::is_admissible;
use crate::prune_table::HashPruneTable;
use crate::prune_table::SearchError;
use crate::puzzle_traits::inverses_undo;
use crate::puzzle_traits::solves;
use crate::puzzle_traits::Depth;
use crate::puzzle_traits::MoveTag;
use crate::puzzle_traits::MoveTransformationInfo;
use crate::puzzle_traits::SemiGroupActionPuzzle;
use crate::traversal_filters::PatternTraversalFilter;
use crate::traversal_filters::PatternTraversalFilterNoOp;
use crate::traversal_filters::TransformationTraversalFilter;
use crate::traversal_filters::TransformationTraversalFilterNoOp;
use vstd::prelude::*;

verus! {

/// Whether the search accepts `moves` as a way from a node to the target:
/// from the pattern of key `key`, reached in machine state `state`, every
/// move names a generator, is accepted by the canonical-order machine and
/// kept by the transformation filter, can be applied and leads to a pattern
/// that the pattern filter accepts; and after the last move the pattern is
/// the target and the machine accepts the forced moves `post_moves`.
pub open spec fn is_accepted_path<
    TPuzzle: SemiGroupActionPuzzle,
    TFilter: TransformationTraversalFilter<TPuzzle>,
    PFilter: PatternTraversalFilter<TPuzzle>,
>(
    puzzle: &TPuzzle,
    generators: Seq<MoveTransformationInfo<TPuzzle>>,
    target: TPuzzle::Key,
    post_moves: Seq<MoveTag>,
    key: TPuzzle::Key,
    state: CanonicalFSMState,
    moves: Seq<usize>,
) -> bool
    decreases moves.len(),
{
    if moves.len() == 0 {
        key == target && accepts_before_forced(state, post_moves)
    } else if moves[0] >= generators.len() {
        false
    } else {
        let info = generators[moves[0] as int];
        match (step(state, info.tag), puzzle.key_after(key, &info.transformation)) {
            (Some(next_state), Some(next_key)) => {
                &&& TFilter::keeps(&info, Depth((moves.len() - 1) as usize))
                &&& PFilter::key_is_valid(next_key)
                &&& is_accepted_path::<TPuzzle, TFilter, PFilter>(
                    puzzle,
                    generators,
                    target,
                    post_moves,
                    next_key,
                    next_state,
                    moves.skip(1),
                )
            },
            _ => false,
        }
    }
}

/// The solutions that a depth-first search finds below a node, in the
/// order in which it finds them: the node is the pattern of key `key`,
/// reached by the moves `path` in machine state `state`, and `remaining`
/// moves are left. Generators are tried in the order of the list.
pub open spec fn node_solutions<
    TPuzzle: SemiGroupActionPuzzle,
    TFilter: TransformationTraversalFilter<TPuzzle>,
    PFilter: PatternTraversalFilter<TPuzzle>,
>(
    puzzle: &TPuzzle,
    generators: Seq<MoveTransformationInfo<TPuzzle>>,
    target: TPuzzle::Key,
    post_moves: Seq<MoveTag>,
    key: TPuzzle::Key,
    state: CanonicalFSMState,
    remaining: nat,
    path: Seq<usize>,
) -> Seq<Seq<usize>>
    decreases remaining, generators.len() + 1,
{
    if remaining == 0 {
        if key == target && accepts_before_forced(state, post_moves) {
            seq![path]
        } else {
            Seq::empty()
        }
    } else {
        children_solutions::<TPuzzle, TFilter, PFilter>(
            puzzle,
            generators,
            target,
            post_moves,
            key,
            state,
            remaining,
            path,
            generators.len(),
        )
    }
}

/// The solutions found below a node through its first `count` generators.
pub open spec fn children_solutions<
    TPuzzle: SemiGroupActionPuzzle,
    TFilter: TransformationTraversalFilter<TPuzzle>,
    PFilter: PatternTraversalFilter<TPuzzle>,
>(
    puzzle: &TPuzzle,
    generators: Seq<MoveTransformationInfo<TPuzzle>>,
    target: TPuzzle::Key,
    post_moves: Seq<MoveTag>,
    key: TPuzzle::Key,
    state: CanonicalFSMState,
    remaining: nat,
    path: Seq<usize>,
    count: nat,
) -> Seq<Seq<usize>>
    decreases remaining, count,
{
    if remaining == 0 || count == 0 || count > generators.len() {
        Seq::empty()
    } else {
        children_solutions::<TPuzzle, TFilter, PFilter>(
            puzzle,
            generators,
            target,
            post_moves,
            key,
            state,
            remaining,
            path,
            (count - 1) as nat,
        ) + child_solutions::<TPuzzle, TFilter, PFilter>(
            puzzle,
            generators,
            target,
            post_moves,
            key,
            state,
            remaining,
            path,
            (count - 1) as nat,
        )
    }
}

/// The solutions found below a node through the generator at position
/// `generator`.
pub open spec fn child_solutions<
    TPuzzle: SemiGroupActionPuzzle,
    TFilter: TransformationTraversalFilter<TPuzzle>,
    PFilter: PatternTraversalFilter<TPuzzle>,
>(
    puzzle: &TPuzzle,
    generators: Seq<MoveTransformationInfo<TPuzzle>>,
    target: TPuzzle::Key,
    post_moves: Seq<MoveTag>,
    key: TPuzzle::Key,
    state: CanonicalFSMState,
    remaining: nat,
    path: Seq<usize>,
    generator: nat,
) -> Seq<Seq<usize>>
    decreases remaining, 0nat,
{
    if remaining == 0 || generator >= generators.len() {
        Seq::empty()
    } else {
        let info = generators[generator as int];
        match (step(state, info.tag), puzzle.key_after(key, &info.transformation)) {
            (Some(next_state), Some(next_key)) => {
                if TFilter::keeps(&info, Depth((remaining - 1) as usize)) && PFilter::key_is_valid(
                    next_key,
                ) {
                    node_solutions::<TPuzzle, TFilter, PFilter>(
                        puzzle,
                        generators,
                        target,
                        post_moves,
                        next_key,
                        next_state,
                        (remaining - 1) as nat,
                        path.push(generator as usize),
                    )
                } else {
                    Seq::empty()
                }
            },
            _ => Seq::empty(),
        }
    }
}

/// The solutions of every depth from `from` up to, not including, `to`,
/// shallowest first.
pub open spec fn solutions_in_depths<
    TPuzzle: SemiGroupActionPuzzle,
    TFilter: TransformationTraversalFilter<TPuzzle>,
    PFilter: PatternTraversalFilter<TPuzzle>,
>(
    puzzle: &TPuzzle,
    generators: Seq<MoveTransformationInfo<TPuzzle>>,
    target: TPuzzle::Key,
    pre_moves: Seq<MoveTag>,
    post_moves: Seq<MoveTag>,
    start: TPuzzle::Key,
    from: nat,
    to: nat,
) -> Seq<Seq<usize>>
    decreases to,
{
    if to <= from {
        Seq::empty()
    } else {
        solutions_in_depths::<TPuzzle, TFilter, PFilter>(
            puzzle,
            generators,
            target,
            pre_moves,
            post_moves,
            start,
            from,
            (to - 1) as nat,
        ) + node_solutions::<TPuzzle, TFilter, PFilter>(
            puzzle,
            generators,
            target,
            post_moves,
            start,
            state_after_forced(pre_moves),
            (to - 1) as nat,
            Seq::empty(),
        )
    }
}

/// The first `limit` of `all`, or all of them where they are fewer.
pub open spec fn first_solutions(all: Seq<Seq<usize>>, limit: nat) -> Seq<Seq<usize>> {
    if all.len() <= limit {
        all
    } else {
        all.take(limit as int)
    }
}

/// Cutting off, appending and cutting off again is appending and cutting
/// off once.
pub proof fn lemma_first_solutions_twice(
    found: Seq<Seq<usize>>,
    more: Seq<Seq<usize>>,
    limit: nat,
)
    ensures
        first_solutions(first_solutions(found, limit) + more, limit) == first_solutions(
            found + more,
            limit,
        ),
{
    assert(first_solutions(first_solutions(found, limit) + more, limit) =~= first_solutions(
        found + more,
        limit,
    ));
}

/// An entry of a concatenation is an entry of one of its parts.
proof fn lemma_contains_in_concat(first: Seq<Seq<usize>>, second: Seq<Seq<usize>>, entry: Seq<usize>)
    ensures
        (first + second).contains(entry) <==> first.contains(entry) || second.contains(entry),
{
    let both = first + second;
    if both.contains(entry) {
        let k = choose|k: int| 0 <= k < both.len() && both[k] == entry;
        if k < first.len() {
            assert(first[k] == entry);
        } else {
            assert(second[k - first.len()] == entry);
        }
    }
    if first.contains(entry) {
        let k = choose|k: int| 0 <= k < first.len() && first[k] == entry;
        assert(both[k] == entry);
    }
    if second.contains(entry) {
        let k = choose|k: int| 0 <= k < second.len() && second[k] == entry;
        assert(both[k + first.len()] == entry);
    }
}

/// An accepted path leads to the target.
pub proof fn lemma_accepted_path_solves<
    TPuzzle: SemiGroupActionPuzzle,
    TFilter: TransformationTraversalFilter<TPuzzle>,
    PFilter: PatternTraversalFilter<TPuzzle>,
>(
    puzzle: &TPuzzle,
    generators: Seq<MoveTransformationInfo<TPuzzle>>,
    target: TPuzzle::Key,
    post_moves: Seq<MoveTag>,
    key: TPuzzle::Key,
    state: CanonicalFSMState,
    moves: Seq<usize>,
)
    requires
        is_accepted_path::<TPuzzle, TFilter, PFilter>(
            puzzle,
            generators,
            target,
            post_moves,
            key,
            state,
            moves,
        ),
    ensures
        solves(puzzle, generators, key, moves, target),
    decreases moves.len(),
{
    if moves.len() > 0 {
        let info = generators[moves[0] as int];
        let next_state = step(state, info.tag).unwrap();
        let next_key = puzzle.key_after(key, &info.transformation).unwrap();
        lemma_accepted_path_solves::<TPuzzle, TFilter, PFilter>(
            puzzle,
            generators,
            target,
            post_moves,
            next_key,
            next_state,
            moves.skip(1),
        );
    }
}

/// Every solution found below a node is the node's path followed by
/// `remaining` moves that are an accepted path from the node.
pub proof fn lemma_node_solutions_are_accepted<
    TPuzzle: SemiGroupActionPuzzle,
    TFilter: TransformationTraversalFilter<TPuzzle>,
    PFilter: PatternTraversalFilter<TPuzzle>,
>(
    puzzle: &TPuzzle,
    generators: Seq<MoveTransformationInfo<TPuzzle>>,
    target: TPuzzle::Key,
    post_moves: Seq<MoveTag>,
    key: TPuzzle::Key,
    state: CanonicalFSMState,
    remaining: nat,
    path: Seq<usize>,
    solution: Seq<usize>,
)
    requires
        generators.len() <= usize::MAX,
        node_solutions::<TPuzzle, TFilter, PFilter>(
            puzzle,
            generators,
            target,
            post_moves,
            key,
            state,
            remaining,
            path,
        ).contains(solution),
    ensures
        solution.len() == path.len() + remaining,
        solution.take(path.len() as int) == path,
        is_accepted_path::<TPuzzle, TFilter, PFilter>(
            puzzle,
            generators,
            target,
            post_moves,
            key,
            state,
            solution.skip(path.len() as int),
        ),
    decreases remaining, generators.len() + 1,
{
    if remaining == 0 {
        assert(solution == path);
        assert(solution.take(path.len() as int) =~= path);
        assert(solution.skip(path.len() as int) =~= Seq::<usize>::empty());
    } else {
        lemma_children_solutions_are_accepted::<TPuzzle, TFilter, PFilter>(
            puzzle,
            generators,
            target,
            post_moves,
            key,
            state,
            remaining,
            path,
            generators.len(),
            solution,
        );
    }
}

/// Every solution found through the first `count` generators of a node is
/// the node's path followed by an accepted path from the node.
proof fn lemma_children_solutions_are_accepted<
    TPuzzle: SemiGroupActionPuzzle,
    TFilter: TransformationTraversalFilter<TPuzzle>,
    PFilter: PatternTraversalFilter<TPuzzle>,
>(
    puzzle: &TPuzzle,
    generators: Seq<MoveTransformationInfo<TPuzzle>>,
    target: TPuzzle::Key,
    post_moves: Seq<MoveTag>,
    key: TPuzzle::Key,
    state: CanonicalFSMState,
    remaining: nat,
    path: Seq<usize>,
    count: nat,
    solution: Seq<usize>,
)
    requires
        generators.len() <= usize::MAX,
        children_solutions::<TPuzzle, TFilter, PFilter>(
            puzzle,
            generators,
            target,
            post_moves,
            key,
            state,
            remaining,
            path,
            count,
        ).contains(solution),
    ensures
        solution.len() == path.len() + remaining,
        solution.take(path.len() as int) == path,
        is_accepted_path::<TPuzzle, TFilter, PFilter>(
            puzzle,
            generators,
            target,
            post_moves,
            key,
            state,
            solution.skip(path.len() as int),
        ),
    decreases remaining, count,
{
    if remaining == 0 || count == 0 || count > generators.len() {
    } else {
        let earlier = children_solutions::<TPuzzle, TFilter, PFilter>(
            puzzle,
            generators,
            target,
            post_moves,
            key,
            state,
            remaining,
            path,
            (count - 1) as nat,
        );
        let last = child_solutions::<TPuzzle, TFilter, PFilter>(
            puzzle,
            generators,
            target,
            post_moves,
            key,
            state,
            remaining,
            path,
            (count - 1) as nat,
        );
        lemma_contains_in_concat(earlier, last, solution);
        if earlier.contains(solution) {
            lemma_children_solutions_are_accepted::<TPuzzle, TFilter, PFilter>(
                puzzle,
                generators,
                target,
                post_moves,
                key,
                state,
                remaining,
                path,
                (count - 1) as nat,
                solution,
            );
        } else {
            lemma_child_solutions_are_accepted::<TPuzzle, TFilter, PFilter>(
                puzzle,
                generators,
                target,
                post_moves,
                key,
                state,
                remaining,
                path,
                (count - 1) as nat,
                solution,
            );
        }
    }
}

/// Every solution found through one generator of a node is the node's path
/// followed by an accepted path from the node that begins with that
/// generator.
proof fn lemma_child_solutions_are_accepted<
    TPuzzle: SemiGroupActionPuzzle,
    TFilter: TransformationTraversalFilter<TPuzzle>,
    PFilter: PatternTraversalFilter<TPuzzle>,
>(
    puzzle: &TPuzzle,
    generators: Seq<MoveTransformationInfo<TPuzzle>>,
    target: TPuzzle::Key,
    post_moves: Seq<MoveTag>,
    key: TPuzzle::Key,
    state: CanonicalFSMState,
    remaining: nat,
    path: Seq<usize>,
    generator: nat,
    solution: Seq<usize>,
)
    requires
        generators.len() <= usize::MAX,
        child_solutions::<TPuzzle, TFilter, PFilter>(
            puzzle,
            generators,
            target,
            post_moves,
            key,
            state,
            remaining,
            path,
            generator,
        ).contains(solution),
    ensures
        solution.len() == path.len() + remaining,
        solution.take(path.len() as int) == path,
        solution[path.len() as int] == generator,
        is_accepted_path::<TPuzzle, TFilter, PFilter>(
            puzzle,
            generators,
            target,
            post_moves,
            key,
            state,
            solution.skip(path.len() as int),
        ),
    decreases remaining, 0nat,
{
    let info = generators[generator as int];
    let next_state = step(state, info.tag).unwrap();
    let next_key = puzzle.key_after(key, &info.transformation).unwrap();
    let longer = path.push(generator as usize);
    lemma_node_solutions_are_accepted::<TPuzzle, TFilter, PFilter>(
        puzzle,
        generators,
        target,
        post_moves,
        next_key,
        next_state,
        (remaining - 1) as nat,
        longer,
        solution,
    );
    let moves = solution.skip(path.len() as int);
    assert(solution.take(path.len() as int) =~= longer.take(path.len() as int));
    assert(longer.take(path.len() as int) =~= path);
    assert(solution.take(longer.len() as int)[path.len() as int] == generator);
    assert(moves[0] == generator);
    assert(moves.skip(1) =~= solution.skip(longer.len() as int));
}

/// What one generator of a node finds is among what the first `count`
/// generators find, where the generator is one of them.
proof fn lemma_child_is_among_children<
    TPuzzle: SemiGroupActionPuzzle,
    TFilter: TransformationTraversalFilter<TPuzzle>,
    PFilter: PatternTraversalFilter<TPuzzle>,
>(
    puzzle: &TPuzzle,
    generators: Seq<MoveTransformationInfo<TPuzzle>>,
    target: TPuzzle::Key,
    post_moves: Seq<MoveTag>,
    key: TPuzzle::Key,
    state: CanonicalFSMState,
    remaining: nat,
    path: Seq<usize>,
    generator: nat,
    count: nat,
    solution: Seq<usize>,
)
    requires
        remaining > 0,
        generator < count <= generators.len(),
        child_solutions::<TPuzzle, TFilter, PFilter>(
            puzzle,
            generators,
            target,
            post_moves,
            key,
            state,
            remaining,
            path,
            generator,
        ).contains(solution),
    ensures
        children_solutions::<TPuzzle, TFilter, PFilter>(
            puzzle,
            generators,
            target,
            post_moves,
            key,
            state,
            remaining,
            path,
            count,
        ).contains(solution),
    decreases count,
{
    let earlier = children_solutions::<TPuzzle, TFilter, PFilter>(
        puzzle,
        generators,
        target,
        post_moves,
        key,
        state,
        remaining,
        path,
        (count - 1) as nat,
    );
    let last = child_solutions::<TPuzzle, TFilter, PFilter>(
        puzzle,
        generators,
        target,
        post_moves,
        key,
        state,
        remaining,
        path,
        (count - 1) as nat,
    );
    lemma_contains_in_concat(earlier, last, solution);
    if generator < count - 1 {
        lemma_child_is_among_children::<TPuzzle, TFilter, PFilter>(
            puzzle,
            generators,
            target,
            post_moves,
            key,
            state,
            remaining,
            path,
            generator,
            (count - 1) as nat,
            solution,
        );
    }
}

/// Every accepted path from a node is found below it.
pub proof fn lemma_accepted_path_is_found<
    TPuzzle: SemiGroupActionPuzzle,
    TFilter: TransformationTraversalFilter<TPuzzle>,
    PFilter: PatternTraversalFilter<TPuzzle>,
>(
    puzzle: &TPuzzle,
    generators: Seq<MoveTransformationInfo<TPuzzle>>,
    target: TPuzzle::Key,
    post_moves: Seq<MoveTag>,
    key: TPuzzle::Key,
    state: CanonicalFSMState,
    path: Seq<usize>,
    moves: Seq<usize>,
)
    requires
        is_accepted_path::<TPuzzle, TFilter, PFilter>(
            puzzle,
            generators,
            target,
            post_moves,
            key,
            state,
            moves,
        ),
    ensures
        node_solutions::<TPuzzle, TFilter, PFilter>(
            puzzle,
            generators,
            target,
            post_moves,
            key,
            state,
            moves.len(),
            path,
        ).contains(path + moves),
    decreases moves.len(),
{
    if moves.len() == 0 {
        assert(path + moves =~= path);
        assert(seq![path][0] == path);
    } else {
        let generator = moves[0];
        let info = generators[generator as int];
        let next_state = step(state, info.tag).unwrap();
        let next_key = puzzle.key_after(key, &info.transformation).unwrap();
        let longer = path.push(generator);
        lemma_accepted_path_is_found::<TPuzzle, TFilter, PFilter>(
            puzzle,
            generators,
            target,
            post_moves,
            next_key,
            next_state,
            longer,
            moves.skip(1),
        );
        assert(longer + moves.skip(1) =~= path + moves);
        lemma_child_is_among_children::<TPuzzle, TFilter, PFilter>(
            puzzle,
            generators,
            target,
            post_moves,
            key,
            state,
            moves.len(),
            path,
            generator as nat,
            generators.len(),
            path + moves,
        );
    }
}

/// The solutions of the depths up to `to` begin with those of the depths
/// up to `middle`, so the first `limit` of them are the same once the
/// latter are `limit` or more.
pub proof fn lemma_deeper_search_keeps_first<
    TPuzzle: SemiGroupActionPuzzle,
    TFilter: TransformationTraversalFilter<TPuzzle>,
    PFilter: PatternTraversalFilter<TPuzzle>,
>(
    puzzle: &TPuzzle,
    generators: Seq<MoveTransformationInfo<TPuzzle>>,
    target: TPuzzle::Key,
    pre_moves: Seq<MoveTag>,
    post_moves: Seq<MoveTag>,
    start: TPuzzle::Key,
    from: nat,
    middle: nat,
    to: nat,
    limit: nat,
)
    requires
        middle <= to,
        solutions_in_depths::<TPuzzle, TFilter, PFilter>(
            puzzle,
            generators,
            target,
            pre_moves,
            post_moves,
            start,
            from,
            middle,
        ).len() >= limit,
    ensures
        first_solutions(
            solutions_in_depths::<TPuzzle, TFilter, PFilter>(
                puzzle,
                generators,
                target,
                pre_moves,
                post_moves,
                start,
                from,
                to,
            ),
            limit,
        ) == first_solutions(
            solutions_in_depths::<TPuzzle, TFilter, PFilter>(
                puzzle,
                generators,
                target,
                pre_moves,
                post_moves,
                start,
                from,
                middle,
            ),
            limit,
        ),
    decreases to,
{
    if middle < to {
        lemma_deeper_search_keeps_first::<TPuzzle, TFilter, PFilter>(
            puzzle,
            generators,
            target,
            pre_moves,
            post_moves,
            start,
            from,
            middle,
            (to - 1) as nat,
            limit,
        );
        let shallow = solutions_in_depths::<TPuzzle, TFilter, PFilter>(
            puzzle,
            generators,
            target,
            pre_moves,
            post_moves,
            start,
            from,
            middle,
        );
        let before = solutions_in_depths::<TPuzzle, TFilter, PFilter>(
            puzzle,
            generators,
            target,
            pre_moves,
            post_moves,
            start,
            from,
            (to - 1) as nat,
        );
        let all = solutions_in_depths::<TPuzzle, TFilter, PFilter>(
            puzzle,
            generators,
            target,
            pre_moves,
            post_moves,
            start,
            from,
            to,
        );
        if from < to {
            assert(before.len() >= limit) by {
                if before.len() < limit {
                    assert(first_solutions(before, limit) == before);
                    assert(first_solutions(shallow, limit).len() >= limit);
                }
            }
            assert(first_solutions(all, limit) =~= first_solutions(before, limit));
        }
    }
}

/// What bounds a search: the number of solutions after which it ends, the
/// least and the greatest length of a solution, and the tags of the moves
/// that are forced before and after every solution.
pub struct SearchBounds {
    pub limit: nat,
    pub least_depth: nat,
    pub greatest_depth: nat,
    pub pre_moves: Seq<MoveTag>,
    pub post_moves: Seq<MoveTag>,
}

/// What a search hands out: the first solutions, up to the limit, of the
/// depths from the least to the greatest, shallowest
/// first and within a depth in the order of the depth-first search.
pub open spec fn search_result<
    TPuzzle: SemiGroupActionPuzzle,
    TFilter: TransformationTraversalFilter<TPuzzle>,
    PFilter: PatternTraversalFilter<TPuzzle>,
>(
    puzzle: &TPuzzle,
    generators: Seq<MoveTransformationInfo<TPuzzle>>,
    target: TPuzzle::Key,
    start: TPuzzle::Key,
    bounds: SearchBounds,
) -> Seq<Seq<usize>> {
    first_solutions(
        solutions_in_depths::<TPuzzle, TFilter, PFilter>(
            puzzle,
            generators,
            target,
            bounds.pre_moves,
            bounds.post_moves,
            start,
            bounds.least_depth,
            bounds.greatest_depth + 1,
        ),
        bounds.limit,
    )
}

/// Every solution of the depths from `from` up to `to` is an accepted path
/// from the start, of a length in that range.
pub proof fn lemma_solutions_in_depths_are_accepted<
    TPuzzle: SemiGroupActionPuzzle,
    TFilter: TransformationTraversalFilter<TPuzzle>,
    PFilter: PatternTraversalFilter<TPuzzle>,
>(
    puzzle: &TPuzzle,
    generators: Seq<MoveTransformationInfo<TPuzzle>>,
    target: TPuzzle::Key,
    pre_moves: Seq<MoveTag>,
    post_moves: Seq<MoveTag>,
    start: TPuzzle::Key,
    from: nat,
    to: nat,
    solution: Seq<usize>,
)
    requires
        generators.len() <= usize::MAX,
        solutions_in_depths::<TPuzzle, TFilter, PFilter>(
            puzzle,
            generators,
            target,
            pre_moves,
            post_moves,
            start,
            from,
            to,
        ).contains(solution),
    ensures
        from <= solution.len() < to,
        is_accepted_path::<TPuzzle, TFilter, PFilter>(
            puzzle,
            generators,
            target,
            post_moves,
            start,
            state_after_forced(pre_moves),
            solution,
        ),
    decreases to,
{
    if to > from {
        let before = solutions_in_depths::<TPuzzle, TFilter, PFilter>(
            puzzle,
            generators,
            target,
            pre_moves,
            post_moves,
            start,
            from,
            (to - 1) as nat,
        );
        let deepest = node_solutions::<TPuzzle, TFilter, PFilter>(
            puzzle,
            generators,
            target,
            post_moves,
            start,
            state_after_forced(pre_moves),
            (to - 1) as nat,
            Seq::empty(),
        );
        lemma_contains_in_concat(before, deepest, solution);
        if before.contains(solution) {
            lemma_solutions_in_depths_are_accepted::<TPuzzle, TFilter, PFilter>(
                puzzle,
                generators,
                target,
                pre_moves,
                post_moves,
                start,
                from,
                (to - 1) as nat,
                solution,
            );
        } else {
            lemma_node_solutions_are_accepted::<TPuzzle, TFilter, PFilter>(
                puzzle,
                generators,
                target,
                post_moves,
                start,
                state_after_forced(pre_moves),
                (to - 1) as nat,
                Seq::empty(),
                solution,
            );
            assert(solution.skip(0) =~= solution);
        }
    }
}

/// Where an accepted path from the start has a length from `from` up to
/// `to`, the solutions of these depths are not empty, and the first of them
/// is no longer than that path.
pub proof fn lemma_solutions_in_depths_begin_shortest<
    TPuzzle: SemiGroupActionPuzzle,
    TFilter: TransformationTraversalFilter<TPuzzle>,
    PFilter: PatternTraversalFilter<TPuzzle>,
>(
    puzzle: &TPuzzle,
    generators: Seq<MoveTransformationInfo<TPuzzle>>,
    target: TPuzzle::Key,
    pre_moves: Seq<MoveTag>,
    post_moves: Seq<MoveTag>,
    start: TPuzzle::Key,
    from: nat,
    to: nat,
    moves: Seq<usize>,
)
    requires
        generators.len() <= usize::MAX,
        from <= moves.len() < to,
        is_accepted_path::<TPuzzle, TFilter, PFilter>(
            puzzle,
            generators,
            target,
            post_moves,
            start,
            state_after_forced(pre_moves),
            moves,
        ),
    ensures
        solutions_in_depths::<TPuzzle, TFilter, PFilter>(
            puzzle,
            generators,
            target,
            pre_moves,
            post_moves,
            start,
            from,
            to,
        ).len() > 0,
        solutions_in_depths::<TPuzzle, TFilter, PFilter>(
            puzzle,
            generators,
            target,
            pre_moves,
            post_moves,
            start,
            from,
            to,
        )[0].len() <= moves.len(),
    decreases to,
{
    let all = solutions_in_depths::<TPuzzle, TFilter, PFilter>(
        puzzle,
        generators,
        target,
        pre_moves,
        post_moves,
        start,
        from,
        to,
    );
    let before = solutions_in_depths::<TPuzzle, TFilter, PFilter>(
        puzzle,
        generators,
        target,
        pre_moves,
        post_moves,
        start,
        from,
        (to - 1) as nat,
    );
    let deepest = node_solutions::<TPuzzle, TFilter, PFilter>(
        puzzle,
        generators,
        target,
        post_moves,
        start,
        state_after_forced(pre_moves),
        (to - 1) as nat,
        Seq::empty(),
    );
    assert(all == before + deepest);
    if moves.len() < to - 1 {
        lemma_solutions_in_depths_begin_shortest::<TPuzzle, TFilter, PFilter>(
            puzzle,
            generators,
            target,
            pre_moves,
            post_moves,
            start,
            from,
            (to - 1) as nat,
            moves,
        );
        assert(all[0] == before[0]);
    } else {
        lemma_accepted_path_is_found::<TPuzzle, TFilter, PFilter>(
            puzzle,
            generators,
            target,
            post_moves,
            start,
            state_after_forced(pre_moves),
            Seq::empty(),
            moves,
        );
        assert(Seq::<usize>::empty() + moves =~= moves);
        assert(deepest.contains(moves));
        if before.len() > 0 {
            assert(before.contains(before[0]));
            lemma_solutions_in_depths_are_accepted::<TPuzzle, TFilter, PFilter>(
                puzzle,
                generators,
                target,
                pre_moves,
                post_moves,
                start,
                from,
                (to - 1) as nat,
                before[0],
            );
            assert(all[0] == before[0]);
        } else {
            assert(all[0] == deepest[0]);
            assert(deepest.contains(deepest[0]));
            lemma_node_solutions_are_accepted::<TPuzzle, TFilter, PFilter>(
                puzzle,
                generators,
                target,
                post_moves,
                start,
                state_after_forced(pre_moves),
                (to - 1) as nat,
                Seq::empty(),
                deepest[0],
            );
        }
    }
}

/// The move sequences that a list of solutions holds.
pub open spec fn sequences(solutions: Seq<Vec<usize>>) -> Seq<Seq<usize>> {
    Seq::new(solutions.len(), |j: int| solutions[j]@)
}

/// The options of one search.
pub struct IndividualSearchOptions {
    /// The search ends once it has found this many solutions; 1 if `None`.
    pub min_num_solutions: Option<usize>,
    /// The length of the shortest solutions looked for; 0 if `None`.
    pub min_depth: Option<Depth>,
    /// The length of the longest solutions looked for; unbounded if `None`.
    pub max_depth: Option<Depth>,
    /// The tags of moves that are taken to stand before every solution.
    pub canonical_fsm_pre_moves: Option<Vec<MoveTag>>,
    /// The tags of moves that are taken to follow every solution.
    pub canonical_fsm_post_moves: Option<Vec<MoveTag>>,
}

impl Default for IndividualSearchOptions {
    fn default() -> (options: Self)
        ensures
            options.min_num_solutions is None,
            options.min_depth is None,
            options.max_depth is None,
            options.canonical_fsm_pre_moves is None,
            options.canonical_fsm_post_moves is None,
    {
        IndividualSearchOptions {
            min_num_solutions: None,
            min_depth: None,
            max_depth: None,
            canonical_fsm_pre_moves: None,
            canonical_fsm_post_moves: None,
        }
    }
}

impl IndividualSearchOptions {
    /// What the options bound a search by.
    pub open spec fn bounds(self) -> SearchBounds {
        SearchBounds {
            limit: self.limit(),
            least_depth: self.least_depth(),
            greatest_depth: self.greatest_depth(),
            pre_moves: self.pre_moves(),
            post_moves: self.post_moves(),
        }
    }

    /// The number of solutions after which the search ends.
    pub open spec fn limit(self) -> nat {
        match self.min_num_solutions {
            Some(limit) => limit as nat,
            None => 1,
        }
    }

    /// The least length of a solution.
    pub open spec fn least_depth(self) -> nat {
        match self.min_depth {
            Some(depth) => depth.0 as nat,
            None => 0,
        }
    }

    /// The greatest length of a solution.
    pub open spec fn greatest_depth(self) -> nat {
        match self.max_depth {
            Some(depth) => depth.0 as nat,
            None => usize::MAX as nat,
        }
    }

    /// The tags of the moves forced before a solution.
    pub open spec fn pre_moves(self) -> Seq<MoveTag> {
        match self.canonical_fsm_pre_moves {
            Some(moves) => moves@,
            None => Seq::empty(),
        }
    }

    /// The tags of the moves forced after a solution.
    pub open spec fn post_moves(self) -> Seq<MoveTag> {
        match self.canonical_fsm_post_moves {
            Some(moves) => moves@,
            None => Seq::empty(),
        }
    }
}

/// The solutions of one search, handed out one at a time and once only.
pub struct SearchSolutions {
    pub solutions: Vec<Vec<usize>>,
    pub position: usize,
}

impl SearchSolutions {
    /// The solutions that have not been handed out yet.
    pub open spec fn pending(&self) -> Seq<Seq<usize>> {
        if self.position <= self.solutions@.len() {
            sequences(self.solutions@).skip(self.position as int)
        } else {
            Seq::empty()
        }
    }

    /// Hands out the next solution, as the positions of its moves in the
    /// list of generators; `None` once all are handed out, however often it
    /// is asked.
    pub fn next(&mut self) -> (solution: Option<Vec<usize>>)
        ensures
            match solution {
                Some(moves) => old(self).pending().len() > 0 && moves@ == old(self).pending()[0]
                    && final(self).pending() == old(self).pending().skip(1),
                None => old(self).pending().len() == 0 && final(self).pending().len() == 0,
            },
    {
        if self.position < self.solutions.len() {
            let moves = copy_moves(&self.solutions[self.position]);
            self.position += 1;
            assert(self.pending() =~= old(self).pending().skip(1));
            Some(moves)
        } else {
            None
        }
    }
}

/// A copy of a list of moves.
fn copy_moves(moves: &Vec<usize>) -> (copy: Vec<usize>)
    ensures
        copy@ == moves@,
{
    let copy = moves.clone();
    assert(copy@ =~= moves@);
    copy
}

/// A search for move sequences that lead from a pattern to the target
/// pattern, by iterative deepening.
pub struct IDFSearch<TPuzzle: SemiGroupActionPuzzle> {
    pub puzzle: TPuzzle,
    pub generators: Vec<MoveTransformationInfo<TPuzzle>>,
    pub target_pattern: TPuzzle::Pattern,
    pub prune_table: HashPruneTable<TPuzzle>,
}

/// Whether the list of generators is not empty and each generator holds its
/// own position in it.
pub open spec fn generators_are_listed<TPuzzle: SemiGroupActionPuzzle>(
    generators: Seq<MoveTransformationInfo<TPuzzle>>,
) -> bool {
    &&& generators.len() > 0
    &&& forall|i: int| 0 <= i < generators.len() ==> (#[trigger] generators[i]).flat_move_index == i
}

/// Whether the list of generators is not empty and each generator holds its
/// own position in it.
pub fn are_generators_listed<TPuzzle: SemiGroupActionPuzzle>(
    generators: &Vec<MoveTransformationInfo<TPuzzle>>,
) -> (listed: bool)
    ensures
        listed == generators_are_listed(generators@),
{
    if generators.len() == 0 {
        return false;
    }
    let mut i: usize = 0;
    while i < generators.len()
        invariant
            i <= generators@.len(),
            forall|j: int| 0 <= j < i ==> (#[trigger] generators@[j]).flat_move_index == j,
        decreases generators@.len() - i,
    {
        if generators[i].flat_move_index != i {
            return false;
        }
        i += 1;
    }
    true
}

impl<TPuzzle: SemiGroupActionPuzzle> IDFSearch<TPuzzle> {
    /// The key of the target pattern.
    pub open spec fn target(&self) -> TPuzzle::Key {
        TPuzzle::pattern_key(&self.target_pattern)
    }

    /// Whether the prune table never gives more than the length of a path
    /// to the target.
    pub open spec fn prunes_admissibly(&self) -> bool {
        is_admissible(
            &self.puzzle,
            self.generators@,
            self.target(),
            self.prune_table.keys(),
            self.prune_table.depths@,
            self.prune_table.radius,
        )
    }

    /// What holds of a search that [`IDFSearch::try_new`] made: the
    /// generators are listed, the prune table was built for the target, and
    /// it is admissible where the inverses undo the generators.
    pub open spec fn wf(&self) -> bool {
        &&& generators_are_listed(self.generators@)
        &&& self.prune_table.is_built_for(&self.puzzle, self.generators@, self.target())
        &&& inverses_undo(&self.puzzle, self.generators@, self.target())
            ==> self.prunes_admissibly()
    }

    /// Sets up a search for `target_pattern` over `generators`, with a
    /// prune table built to at most `max_prune_depth` levels and until it
    /// holds `min_prune_table_size` entries.
    pub fn try_new(
        puzzle: TPuzzle,
        generators: Vec<MoveTransformationInfo<TPuzzle>>,
        target_pattern: TPuzzle::Pattern,
        max_prune_depth: Depth,
        min_prune_table_size: usize,
    ) -> (outcome: Result<Self, SearchError>)
        ensures
            match outcome {
                Ok(search) => {
                    &&& search.wf()
                    &&& search.puzzle == puzzle
                    &&& search.generators == generators
                    &&& search.target_pattern == target_pattern
                    &&& search.prune_table.radius <= max_prune_depth.0
                },
                Err(SearchError::MalformedGenerators) => !generators_are_listed(generators@),
                Err(SearchError::InconsistentPuzzle) => generators_are_listed(generators@)
                    && !inverses_undo(&puzzle, generators@, TPuzzle::pattern_key(&target_pattern)),
            },
    {
        if !are_generators_listed(&generators) {
            return Err(SearchError::MalformedGenerators);
        }
        match HashPruneTable::build(
            &puzzle,
            &generators,
            &target_pattern,
            max_prune_depth,
            min_prune_table_size,
        ) {
            Ok(prune_table) => Ok(IDFSearch { puzzle, generators, target_pattern, prune_table }),
            Err(error) => Err(error),
        }
    }

    /// Searches for move sequences that lead from `search_pattern` to the
    /// target, with filters that keep every move and accept every pattern.
    /// See [`IDFSearch::search_with_filters`].
    pub fn search(&self, search_pattern: &TPuzzle::Pattern, options: IndividualSearchOptions) -> (found:
        SearchSolutions)
        requires
            self.wf(),
        ensures
            found.position == 0,
            found.solutions@.len() <= options.limit(),
            forall|j: int|
                0 <= j < found.solutions@.len() ==> {
                    &&& options.least_depth() <= (#[trigger] sequences(found.solutions@)[j]).len()
                        <= options.greatest_depth()
                    &&& is_accepted_path::<
                        TPuzzle,
                        TransformationTraversalFilterNoOp,
                        PatternTraversalFilterNoOp,
                    >(
                        &self.puzzle,
                        self.generators@,
                        self.target(),
                        options.post_moves(),
                        TPuzzle::pattern_key(search_pattern),
                        state_after_forced(options.pre_moves()),
                        sequences(found.solutions@)[j],
                    )
                },
            self.prunes_admissibly() ==> sequences(found.solutions@) == search_result::<
                TPuzzle,
                TransformationTraversalFilterNoOp,
                PatternTraversalFilterNoOp,
            >(
                &self.puzzle,
                self.generators@,
                self.target(),
                TPuzzle::pattern_key(search_pattern),
                options.bounds(),
            ),
    {
        self.search_with_filters::<TransformationTraversalFilterNoOp, PatternTraversalFilterNoOp>(
            search_pattern,
            options,
        )
    }

    /// Searches for move sequences that lead from `search_pattern` to the
    /// target: depth by depth from the least depth of the options to the
    /// greatest, and depth-first within a depth, until the limit of the
    /// options is reached. The whole search is run before it returns.
    ///
    /// Every solution handed out is an accepted path of a length within
    /// the depths of the options. Where the prune table is admissible, the
    /// solutions are exactly [`search_result`].
    pub fn search_with_filters<
        TFilter: TransformationTraversalFilter<TPuzzle>,
        PFilter: PatternTraversalFilter<TPuzzle>,
    >(&self, search_pattern: &TPuzzle::Pattern, options: IndividualSearchOptions) -> (found:
        SearchSolutions)
        requires
            self.wf(),
        ensures
            found.position == 0,
            found.solutions@.len() <= options.limit(),
            forall|j: int|
                0 <= j < found.solutions@.len() ==> {
                    &&& options.least_depth() <= (#[trigger] sequences(found.solutions@)[j]).len()
                        <= options.greatest_depth()
                    &&& is_accepted_path::<TPuzzle, TFilter, PFilter>(
                        &self.puzzle,
                        self.generators@,
                        self.target(),
                        options.post_moves(),
                        TPuzzle::pattern_key(search_pattern),
                        state_after_forced(options.pre_moves()),
                        sequences(found.solutions@)[j],
                    )
                },
            self.prunes_admissibly() ==> sequences(found.solutions@) == search_result::<
                TPuzzle,
                TFilter,
                PFilter,
            >(
                &self.puzzle,
                self.generators@,
                self.target(),
                TPuzzle::pattern_key(search_pattern),
                options.bounds(),
            ),
    {
        let ghost start = TPuzzle::pattern_key(search_pattern);
        let ghost pre_moves = options.pre_moves();
        let ghost post_moves = options.post_moves();
        let ghost least = options.least_depth();
        let ghost greatest = options.greatest_depth();
        let ghost wanted = options.limit();
        let IndividualSearchOptions {
            min_num_solutions,
            min_depth,
            max_depth,
            canonical_fsm_pre_moves,
            canonical_fsm_post_moves,
        } = options;
        let limit: usize = match min_num_solutions {
            Some(limit) => limit,
            None => 1,
        };
        let min_depth: usize = match min_depth {
            Some(depth) => depth.0,
            None => 0,
        };
        let max_depth: usize = match max_depth {
            Some(depth) => depth.0,
            None => usize::MAX,
        };
        let generator_count: usize = self.generators.len();
        let fsm = CanonicalFSM::new(canonical_fsm_pre_moves, canonical_fsm_post_moves);
        let initial_state = fsm.initial_state();
        let mut solutions: Vec<Vec<usize>> = Vec::new();
        let mut path: Vec<usize> = Vec::new();
        let mut depth: usize = min_depth;
        let mut done: bool = min_depth > max_depth;
        assert(sequences(solutions@) =~= Seq::<Seq<usize>>::empty());
        while !done
            invariant
                self.wf(),
                generator_count == self.generators@.len(),
                start == TPuzzle::pattern_key(search_pattern),
                fsm.pre_moves@ == pre_moves,
                fsm.post_moves@ == post_moves,
                initial_state == state_after_forced(pre_moves),
                least == min_depth,
                greatest == max_depth,
                wanted == limit,
                min_depth <= depth,
                !done ==> depth <= max_depth,
                path@.len() == 0,
                solutions@.len() <= limit,
                forall|j: int|
                    0 <= j < solutions@.len() ==> {
                        &&& least <= (#[trigger] sequences(solutions@)[j]).len() <= greatest
                        &&& is_accepted_path::<TPuzzle, TFilter, PFilter>(
                            &self.puzzle,
                            self.generators@,
                            self.target(),
                            post_moves,
                            start,
                            initial_state,
                            sequences(solutions@)[j],
                        )
                    },
                self.prunes_admissibly() ==> sequences(solutions@) == first_solutions(
                    solutions_in_depths::<TPuzzle, TFilter, PFilter>(
                        &self.puzzle,
                        self.generators@,
                        self.target(),
                        pre_moves,
                        post_moves,
                        start,
                        least,
                        if done {
                            greatest + 1
                        } else {
                            depth as nat
                        },
                    ),
                    wanted,
                ),
            decreases
                    max_depth - depth + if done {
                        0int
                    } else {
                        1int
                    },
        {
            let ghost found_before = sequences(solutions@);
            let ghost shallower = solutions_in_depths::<TPuzzle, TFilter, PFilter>(
                &self.puzzle,
                self.generators@,
                self.target(),
                pre_moves,
                post_moves,
                start,
                least,
                depth as nat,
            );
            let ghost at_depth = node_solutions::<TPuzzle, TFilter, PFilter>(
                &self.puzzle,
                self.generators@,
                self.target(),
                post_moves,
                start,
                initial_state,
                depth as nat,
                path@,
            );
            self.search_node::<TFilter, PFilter>(
                &fsm,
                search_pattern,
                initial_state,
                depth,
                &mut path,
                limit,
                &mut solutions,
            );
            proof {
                let found_now = sequences(solutions@);
                assert(path@ =~= Seq::<usize>::empty());
                assert forall|j: int| 0 <= j < solutions@.len() implies {
                    &&& least <= (#[trigger] found_now[j]).len() <= greatest
                    &&& is_accepted_path::<TPuzzle, TFilter, PFilter>(
                        &self.puzzle,
                        self.generators@,
                        self.target(),
                        post_moves,
                        start,
                        initial_state,
                        found_now[j],
                    )
                } by {
                    if j < found_before.len() {
                        assert(found_now.take(found_before.len() as int)[j] == found_now[j]);
                        assert(found_now[j] == found_before[j]);
                    } else {
                        lemma_node_solutions_are_accepted::<TPuzzle, TFilter, PFilter>(
                            &self.puzzle,
                            self.generators@,
                            self.target(),
                            post_moves,
                            start,
                            initial_state,
                            depth as nat,
                            path@,
                            found_now[j],
                        );
                        assert(found_now[j].skip(0) =~= found_now[j]);
                    }
                }
                if self.prunes_admissibly() {
                    lemma_first_solutions_twice(shallower, at_depth, wanted);
                }
            }
            if solutions.len() >= limit || depth >= max_depth {
                proof {
                    if self.prunes_admissibly() {
                        if depth < max_depth {
                            lemma_deeper_search_keeps_first::<TPuzzle, TFilter, PFilter>(
                                &self.puzzle,
                                self.generators@,
                                self.target(),
                                pre_moves,
                                post_moves,
                                start,
                                least,
                                (depth + 1) as nat,
                                greatest + 1,
                                wanted,
                            );
                        }
                    }
                }
                done = true;
            } else {
                depth += 1;
            }
        }
        SearchSolutions { solutions, position: 0 }
    }

    /// Searches below one node and appends what it finds to `solutions`,
    /// up to `limit` solutions in all.
    fn search_node<
        TFilter: TransformationTraversalFilter<TPuzzle>,
        PFilter: PatternTraversalFilter<TPuzzle>,
    >(
        &self,
        fsm: &CanonicalFSM,
        pattern: &TPuzzle::Pattern,
        state: CanonicalFSMState,
        remaining: usize,
        path: &mut Vec<usize>,
        limit: usize,
        solutions: &mut Vec<Vec<usize>>,
    )
        requires
            self.wf(),
            old(solutions)@.len() <= limit,
        ensures
            final(path)@ == old(path)@,
            final(solutions)@.len() <= limit,
            old(solutions)@.len() <= final(solutions)@.len(),
            sequences(final(solutions)@).take(old(solutions)@.len() as int) == sequences(
                old(solutions)@,
            ),
            forall|j: int|
                old(solutions)@.len() <= j < final(solutions)@.len() ==> node_solutions::<
                    TPuzzle,
                    TFilter,
                    PFilter,
                >(
                    &self.puzzle,
                    self.generators@,
                    self.target(),
                    fsm.post_moves@,
                    TPuzzle::pattern_key(pattern),
                    state,
                    remaining as nat,
                    old(path)@,
                ).contains(#[trigger] sequences(final(solutions)@)[j]),
            self.prunes_admissibly() ==> sequences(final(solutions)@) == first_solutions(
                sequences(old(solutions)@) + node_solutions::<TPuzzle, TFilter, PFilter>(
                    &self.puzzle,
                    self.generators@,
                    self.target(),
                    fsm.post_moves@,
                    TPuzzle::pattern_key(pattern),
                    state,
                    remaining as nat,
                    old(path)@,
                ),
                limit as nat,
            ),
        decreases remaining,
    {
        let generator_count: usize = self.generators.len();
        let ghost key = TPuzzle::pattern_key(pattern);
        let ghost found_before = sequences(solutions@);
        let ghost below = node_solutions::<TPuzzle, TFilter, PFilter>(
            &self.puzzle,
            self.generators@,
            self.target(),
            fsm.post_moves@,
            key,
            state,
            remaining as nat,
            path@,
        );
        if solutions.len() >= limit {
            assert(sequences(solutions@).take(solutions@.len() as int) =~= sequences(solutions@));
            assert(first_solutions(found_before + below, limit as nat) =~= found_before);
            return ;
        }
        if self.prune_table.lookup(&self.puzzle, pattern).0 > remaining {
            proof {
                assert(sequences(solutions@).take(solutions@.len() as int) =~= sequences(
                    solutions@,
                ));
                if self.prunes_admissibly() {
                    if below.len() > 0 {
                        let solution = below[0];
                        assert(below.contains(solution));
                        lemma_node_solutions_are_accepted::<TPuzzle, TFilter, PFilter>(
                            &self.puzzle,
                            self.generators@,
                            self.target(),
                            fsm.post_moves@,
                            key,
                            state,
                            remaining as nat,
                            path@,
                            solution,
                        );
                        lemma_accepted_path_solves::<TPuzzle, TFilter, PFilter>(
                            &self.puzzle,
                            self.generators@,
                            self.target(),
                            fsm.post_moves@,
                            key,
                            state,
                            solution.skip(path@.len() as int),
                        );
                    }
                    assert(found_before + below =~= found_before);
                }
            }
            return ;
        }
        if remaining == 0 {
            if self.puzzle.patterns_equal(pattern, &self.target_pattern) && fsm.is_accepting(state) {
                solutions.push(copy_moves(path));
                proof {
                    assert(sequences(solutions@) =~= found_before + below);
                    assert(sequences(solutions@).take(found_before.len() as int) =~= found_before);
                    assert(below[0] == path@);
                }
            } else {
                assert(sequences(solutions@).take(solutions@.len() as int) =~= sequences(
                    solutions@,
                ));
                assert(found_before + below =~= found_before);
            }
            return ;
        }
        let mut i: usize = 0;
        proof {
            assert(sequences(solutions@).take(solutions@.len() as int) =~= sequences(solutions@));
            assert(found_before + Seq::<Seq<usize>>::empty() =~= found_before);
        }
        while i < generator_count
            invariant
                i <= generator_count == self.generators@.len(),
                self.wf(),
                remaining > 0,
                key == TPuzzle::pattern_key(pattern),
                path@ == old(path)@,
                found_before == sequences(old(solutions)@),
                found_before.len() <= limit,
                solutions@.len() <= limit,
                found_before.len() <= solutions@.len(),
                sequences(solutions@).take(found_before.len() as int) == found_before,
                forall|j: int|
                    found_before.len() <= j < solutions@.len() ==> children_solutions::<
                        TPuzzle,
                        TFilter,
                        PFilter,
                    >(
                        &self.puzzle,
                        self.generators@,
                        self.target(),
                        fsm.post_moves@,
                        key,
                        state,
                        remaining as nat,
                        path@,
                        i as nat,
                    ).contains(#[trigger] sequences(solutions@)[j]),
                self.prunes_admissibly() ==> sequences(solutions@) == first_solutions(
                    found_before + children_solutions::<TPuzzle, TFilter, PFilter>(
                        &self.puzzle,
                        self.generators@,
                        self.target(),
                        fsm.post_moves@,
                        key,
                        state,
                        remaining as nat,
                        path@,
                        i as nat,
                    ),
                    limit as nat,
                ),
            decreases self.generators@.len() - i,
        {
            let ghost found_so_far = sequences(solutions@);
            let ghost earlier = children_solutions::<TPuzzle, TFilter, PFilter>(
                &self.puzzle,
                self.generators@,
                self.target(),
                fsm.post_moves@,
                key,
                state,
                remaining as nat,
                path@,
                i as nat,
            );
            let ghost last = child_solutions::<TPuzzle, TFilter, PFilter>(
                &self.puzzle,
                self.generators@,
                self.target(),
                fsm.post_moves@,
                key,
                state,
                remaining as nat,
                path@,
                i as nat,
            );
            let info = &self.generators[i];
            let ghost mut descended: bool = false;
            match fsm.next_state(state, info.tag) {
                None => {},
                Some(next_state) => {
                    if TFilter::keep_move(info, Depth(remaining - 1)) {
                        match self.puzzle.pattern_apply_transformation(pattern, &info.transformation) {
                            None => {},
                            Some(next_pattern) => {
                                if PFilter::is_valid(&next_pattern) {
                                    path.push(i);
                                    self.search_node::<TFilter, PFilter>(
                                        fsm,
                                        &next_pattern,
                                        next_state,
                                        remaining - 1,
                                        path,
                                        limit,
                                        solutions,
                                    );
                                    path.pop();
                                    proof {
                                        descended = true;
                                        assert(path@ =~= old(path)@);
                                    }
                                }
                            },
                        }
                    }
                },
            }
            proof {
                let found_now = sequences(solutions@);
                if !descended {
                    assert(last =~= Seq::<Seq<usize>>::empty());
                    assert(found_now == found_so_far);
                    assert(earlier + last =~= earlier);
                }
                assert(found_now.take(found_before.len() as int) =~= found_before) by {
                    assert(found_now.take(found_so_far.len() as int) == found_so_far);
                    assert forall|j: int| 0 <= j < found_before.len() implies found_now[j]
                        == found_before[j] by {
                        assert(found_now.take(found_so_far.len() as int)[j] == found_now[j]);
                        assert(found_so_far.take(found_before.len() as int)[j] == found_so_far[j]);
                    }
                }
                assert forall|j: int| found_before.len() <= j < found_now.len() implies (earlier
                    + last).contains(#[trigger] found_now[j]) by {
                    lemma_contains_in_concat(earlier, last, found_now[j]);
                    if j < found_so_far.len() {
                        assert(found_now.take(found_so_far.len() as int)[j] == found_now[j]);
                        assert(earlier.contains(found_so_far[j]));
                    }
                }
                if self.prunes_admissibly() {
                    lemma_first_solutions_twice(found_before + earlier, last, limit as nat);
                    assert((found_before + earlier) + last =~= found_before + (earlier + last));
                }
            }
            i += 1;
        }
    }
}

/// Every solution that a search hands out is an accepted path from the
/// start, and so leads to the target, and its length is within the depths
/// of the bounds.
pub proof fn lemma_search_result_is_accepted<
    TPuzzle: SemiGroupActionPuzzle,
    TFilter: TransformationTraversalFilter<TPuzzle>,
    PFilter: PatternTraversalFilter<TPuzzle>,
>(
    puzzle: &TPuzzle,
    generators: Seq<MoveTransformationInfo<TPuzzle>>,
    target: TPuzzle::Key,
    start: TPuzzle::Key,
    bounds: SearchBounds,
    j: int,
)
    requires
        generators.len() <= usize::MAX,
        0 <= j < search_result::<TPuzzle, TFilter, PFilter>(
            puzzle,
            generators,
            target,
            start,
            bounds,
        ).len(),
    ensures
        bounds.least_depth <= search_result::<TPuzzle, TFilter, PFilter>(
            puzzle,
            generators,
            target,
            start,
            bounds,
        )[j].len() <= bounds.greatest_depth,
        is_accepted_path::<TPuzzle, TFilter, PFilter>(
            puzzle,
            generators,
            target,
            bounds.post_moves,
            start,
            state_after_forced(bounds.pre_moves),
            search_result::<TPuzzle, TFilter, PFilter>(puzzle, generators, target, start, bounds)[j],
        ),
        solves(
            puzzle,
            generators,
            start,
            search_result::<TPuzzle, TFilter, PFilter>(puzzle, generators, target, start, bounds)[j],
            target,
        ),
{
    let all = solutions_in_depths::<TPuzzle, TFilter, PFilter>(
        puzzle,
        generators,
        target,
        bounds.pre_moves,
        bounds.post_moves,
        start,
        bounds.least_depth,
        bounds.greatest_depth + 1,
    );
    let found = search_result::<TPuzzle, TFilter, PFilter>(
        puzzle,
        generators,
        target,
        start,
        bounds,
    );
    assert(found[j] == all[j]);
    assert(all.contains(found[j]));
    lemma_solutions_in_depths_are_accepted::<TPuzzle, TFilter, PFilter>(
        puzzle,
        generators,
        target,
        bounds.pre_moves,
        bounds.post_moves,
        start,
        bounds.least_depth,
        bounds.greatest_depth + 1,
        found[j],
    );
    lemma_accepted_path_solves::<TPuzzle, TFilter, PFilter>(
        puzzle,
        generators,
        target,
        bounds.post_moves,
        start,
        state_after_forced(bounds.pre_moves),
        found[j],
    );
}

/// A search hands out nothing where the target is farther from the start
/// than the greatest depth: where no sequence of at most that many
/// generator moves leads from the start to the target.
pub proof fn lemma_search_finds_nothing_below_distance<
    TPuzzle: SemiGroupActionPuzzle,
    TFilter: TransformationTraversalFilter<TPuzzle>,
    PFilter: PatternTraversalFilter<TPuzzle>,
>(
    puzzle: &TPuzzle,
    generators: Seq<MoveTransformationInfo<TPuzzle>>,
    target: TPuzzle::Key,
    start: TPuzzle::Key,
    bounds: SearchBounds,
)
    requires
        generators.len() <= usize::MAX,
        forall|moves: Seq<usize>|
            moves.len() <= bounds.greatest_depth ==> !#[trigger] solves(
                puzzle,
                generators,
                start,
                moves,
                target,
            ),
    ensures
        search_result::<TPuzzle, TFilter, PFilter>(puzzle, generators, target, start, bounds).len()
            == 0,
{
    let found = search_result::<TPuzzle, TFilter, PFilter>(
        puzzle,
        generators,
        target,
        start,
        bounds,
    );
    if found.len() > 0 {
        lemma_search_result_is_accepted::<TPuzzle, TFilter, PFilter>(
            puzzle,
            generators,
            target,
            start,
            bounds,
            0,
        );
    }
}

/// A search that is asked for at least one solution finds one wherever an
/// accepted path of a length within the depths of the bounds exists, and
/// the first solution it hands out is no longer than that path. So the
/// first solution is a shortest accepted path of at least the least depth.
pub proof fn lemma_search_finds_shortest<
    TPuzzle: SemiGroupActionPuzzle,
    TFilter: TransformationTraversalFilter<TPuzzle>,
    PFilter: PatternTraversalFilter<TPuzzle>,
>(
    puzzle: &TPuzzle,
    generators: Seq<MoveTransformationInfo<TPuzzle>>,
    target: TPuzzle::Key,
    start: TPuzzle::Key,
    bounds: SearchBounds,
    moves: Seq<usize>,
)
    requires
        generators.len() <= usize::MAX,
        bounds.limit >= 1,
        bounds.least_depth <= moves.len() <= bounds.greatest_depth,
        is_accepted_path::<TPuzzle, TFilter, PFilter>(
            puzzle,
            generators,
            target,
            bounds.post_moves,
            start,
            state_after_forced(bounds.pre_moves),
            moves,
        ),
    ensures
        search_result::<TPuzzle, TFilter, PFilter>(puzzle, generators, target, start, bounds).len()
            >= 1,
        bounds.least_depth <= search_result::<TPuzzle, TFilter, PFilter>(
            puzzle,
            generators,
            target,
            start,
            bounds,
        )[0].len() <= moves.len(),
{
    lemma_solutions_in_depths_begin_shortest::<TPuzzle, TFilter, PFilter>(
        puzzle,
        generators,
        target,
        bounds.pre_moves,
        bounds.post_moves,
        start,
        bounds.least_depth,
        bounds.greatest_depth + 1,
        moves,
    );
    lemma_search_result_is_accepted::<TPuzzle, TFilter, PFilter>(
        puzzle,
        generators,
        target,
        start,
        bounds,
        0,
    );
}

/// For a start that is exactly `moves.len()` moves from the target, a
/// search from depth 0 to at least that depth, asked for at least one
/// solution, hands out a solution of exactly that length first, wherever
/// `moves` is an accepted path.
pub proof fn lemma_search_finds_solution_of_the_distance<
    TPuzzle: SemiGroupActionPuzzle,
    TFilter: TransformationTraversalFilter<TPuzzle>,
    PFilter: PatternTraversalFilter<TPuzzle>,
>(
    puzzle: &TPuzzle,
    generators: Seq<MoveTransformationInfo<TPuzzle>>,
    target: TPuzzle::Key,
    start: TPuzzle::Key,
    bounds: SearchBounds,
    moves: Seq<usize>,
)
    requires
        generators.len() <= usize::MAX,
        bounds.limit >= 1,
        bounds.least_depth == 0,
        moves.len() <= bounds.greatest_depth,
        is_accepted_path::<TPuzzle, TFilter, PFilter>(
            puzzle,
            generators,
            target,
            bounds.post_moves,
            start,
            state_after_forced(bounds.pre_moves),
            moves,
        ),
        forall|shorter: Seq<usize>|
            shorter.len() < moves.len() ==> !#[trigger] solves(
                puzzle,
                generators,
                start,
                shorter,
                target,
            ),
    ensures
        search_result::<TPuzzle, TFilter, PFilter>(puzzle, generators, target, start, bounds).len()
            >= 1,
        search_result::<TPuzzle, TFilter, PFilter>(puzzle, generators, target, start, bounds)[0].len()
            == moves.len(),
{
    lemma_search_finds_shortest::<TPuzzle, TFilter, PFilter>(
        puzzle,
        generators,
        target,
        start,
        bounds,
        moves,
    );
    lemma_search_result_is_accepted::<TPuzzle, TFilter, PFilter>(
        puzzle,
        generators,
        target,
        start,
        bounds,
        0,
    );
}

} // verus!
