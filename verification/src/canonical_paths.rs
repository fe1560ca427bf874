use crate::canonical_fsm::may_follow;
use crate::canonical_fsm::step;
use crate::canonical_fsm::CanonicalFSMState;
use crate::idf_search::is_accepted_path;
use crate::idf_search::lemma_search_finds_shortest;
use crate::idf_search::lemma_search_result_is_accepted;
use crate::idf_search::search_result;
use crate::idf_search::SearchBounds;
use crate::puzzle_traits::solves;
use crate::puzzle_traits::MoveTag;
use crate::puzzle_traits::MoveTransformationInfo;
use crate::puzzle_traits::SemiGroupActionPuzzle;
use crate::traversal_filters::PatternTraversalFilterNoOp;
use crate::traversal_filters::TransformationTraversalFilterNoOp;
use vstd::prelude::*;

verus! {

/// The key that generator `i`, then generator `j` lead to from `key`.
pub open spec fn key_after_pair<TPuzzle: SemiGroupActionPuzzle>(
    puzzle: &TPuzzle,
    generators: Seq<MoveTransformationInfo<TPuzzle>>,
    key: TPuzzle::Key,
    i: int,
    j: int,
) -> Option<TPuzzle::Key> {
    match puzzle.key_after(key, &generators[i].transformation) {
        None => None,
        Some(middle) => puzzle.key_after(middle, &generators[j].transformation),
    }
}

/// Whether two generators on one axis lead to the same key in either
/// order, from every key.
pub open spec fn moves_on_an_axis_commute<TPuzzle: SemiGroupActionPuzzle>(
    puzzle: &TPuzzle,
    generators: Seq<MoveTransformationInfo<TPuzzle>>,
) -> bool {
    forall|key: TPuzzle::Key, i: int, j: int|
        0 <= i < generators.len() && 0 <= j < generators.len() && generators[i].tag.axis
            == generators[j].tag.axis ==> #[trigger] key_after_pair(puzzle, generators, key, i, j)
            == key_after_pair(puzzle, generators, key, j, i)
}

/// Whether two generators of one family on one axis, one after the other,
/// cancel or do what a single generator of that family does, from every
/// key.
pub open spec fn moves_of_a_family_join<TPuzzle: SemiGroupActionPuzzle>(
    puzzle: &TPuzzle,
    generators: Seq<MoveTransformationInfo<TPuzzle>>,
) -> bool {
    forall|key: TPuzzle::Key, i: int, j: int|
        0 <= i < generators.len() && 0 <= j < generators.len() && generators[i].tag
            == generators[j].tag ==> (#[trigger] key_after_pair(puzzle, generators, key, i, j)
            matches Some(reached) ==> reached == key || exists|joined: int|
            0 <= joined < generators.len() && generators[joined].tag == generators[i].tag
                && #[trigger] puzzle.key_after(key, &generators[joined].transformation) == Some(
                reached,
            ))
}

/// Whether the tags of the generators say what is true of them: moves on
/// one axis commute, and moves of one family join.
pub open spec fn tags_are_sound<TPuzzle: SemiGroupActionPuzzle>(
    puzzle: &TPuzzle,
    generators: Seq<MoveTransformationInfo<TPuzzle>>,
) -> bool {
    moves_on_an_axis_commute(puzzle, generators) && moves_of_a_family_join(puzzle, generators)
}

/// Whether `moves` is a canonical sequence that leads from `key` to
/// `target`, where the machine is in `state` before it, no filter is set
/// and no move is forced after it.
pub open spec fn is_canonical_solution<TPuzzle: SemiGroupActionPuzzle>(
    puzzle: &TPuzzle,
    generators: Seq<MoveTransformationInfo<TPuzzle>>,
    target: TPuzzle::Key,
    key: TPuzzle::Key,
    state: CanonicalFSMState,
    moves: Seq<usize>,
) -> bool {
    is_accepted_path::<TPuzzle, TransformationTraversalFilterNoOp, PatternTraversalFilterNoOp>(
        puzzle,
        generators,
        target,
        Seq::empty(),
        key,
        state,
        moves,
    )
}

/// Whether `moves` is a canonical solution from `key` directly after a move
/// of tag `previous`.
pub open spec fn is_canonical_solution_after<TPuzzle: SemiGroupActionPuzzle>(
    puzzle: &TPuzzle,
    generators: Seq<MoveTransformationInfo<TPuzzle>>,
    target: TPuzzle::Key,
    key: TPuzzle::Key,
    previous: MoveTag,
    moves: Seq<usize>,
) -> bool {
    is_canonical_solution(
        puzzle,
        generators,
        target,
        key,
        CanonicalFSMState { last: Some(previous) },
        moves,
    )
}

/// Of the state before a canonical solution only this matters: whether the
/// machine accepts the first move in it.
pub proof fn lemma_first_move_decides<TPuzzle: SemiGroupActionPuzzle>(
    puzzle: &TPuzzle,
    generators: Seq<MoveTransformationInfo<TPuzzle>>,
    target: TPuzzle::Key,
    key: TPuzzle::Key,
    state: CanonicalFSMState,
    other: CanonicalFSMState,
    moves: Seq<usize>,
)
    requires
        is_canonical_solution(puzzle, generators, target, key, state, moves),
        moves.len() > 0 ==> step(other, generators[moves[0] as int].tag) is Some,
    ensures
        is_canonical_solution(puzzle, generators, target, key, other, moves),
{
    if moves.len() > 0 {
        let tag = generators[moves[0] as int].tag;
        assert(step(state, tag) == step(other, tag));
    }
}

/// A move followed by a canonical solution can be brought into canonical
/// order without growing longer. The sequence returned may also follow any
/// move of the first move's axis and of a lesser family that the solution
/// itself may follow.
proof fn lemma_move_before_canonical_solution<TPuzzle: SemiGroupActionPuzzle>(
    puzzle: &TPuzzle,
    generators: Seq<MoveTransformationInfo<TPuzzle>>,
    target: TPuzzle::Key,
    key: TPuzzle::Key,
    first: usize,
    rest: Seq<usize>,
) -> (canonical: Seq<usize>)
    requires
        tags_are_sound(puzzle, generators),
        generators.len() <= usize::MAX,
        first < generators.len(),
        puzzle.key_after(key, &generators[first as int].transformation) matches Some(next)
            && is_canonical_solution(
            puzzle,
            generators,
            target,
            next,
            CanonicalFSMState { last: None },
            rest,
        ),
    ensures
        canonical.len() <= rest.len() + 1,
        is_canonical_solution(
            puzzle,
            generators,
            target,
            key,
            CanonicalFSMState { last: None },
            canonical,
        ),
        forall|previous: MoveTag|
            previous.axis == generators[first as int].tag.axis && previous.family
                < generators[first as int].tag.family && (rest.len() > 0 ==> may_follow(
                previous,
                generators[rest[0] as int].tag,
            )) ==> #[trigger] is_canonical_solution_after(
                puzzle,
                generators,
                target,
                key,
                previous,
                canonical,
            ),
    decreases rest.len(),
{
    let initial = CanonicalFSMState { last: None };
    let tag = generators[first as int].tag;
    let after_first = CanonicalFSMState { last: Some(tag) };
    let next = puzzle.key_after(key, &generators[first as int].transformation).unwrap();
    if rest.len() == 0 {
        let canonical = seq![first];
        assert(canonical.skip(1) =~= rest);
        lemma_first_move_decides(puzzle, generators, target, next, initial, after_first, rest);
        canonical
    } else {
        let second = rest[0];
        let second_tag = generators[second as int].tag;
        let after_second = CanonicalFSMState { last: Some(second_tag) };
        let reached = puzzle.key_after(next, &generators[second as int].transformation).unwrap();
        let tail = rest.skip(1);
        assert(is_canonical_solution(puzzle, generators, target, reached, after_second, tail));
        assert(key_after_pair(puzzle, generators, key, first as int, second as int) == Some(
            reached,
        ));
        if may_follow(tag, second_tag) {
            let canonical = seq![first] + rest;
            assert(canonical.skip(1) =~= rest);
            lemma_first_move_decides(puzzle, generators, target, next, initial, after_first, rest);
            canonical
        } else if tag == second_tag {
            let canonical = if reached == key {
                tail
            } else {
                let joined = choose|joined: int|
                    0 <= joined < generators.len() && generators[joined].tag == tag
                        && #[trigger] puzzle.key_after(key, &generators[joined].transformation)
                        == Some(reached);
                seq![joined as usize] + tail
            };
            if reached != key {
                assert(canonical.skip(1) =~= tail);
            }
            lemma_first_move_decides(
                puzzle,
                generators,
                target,
                reached,
                after_second,
                initial,
                tail,
            );
            assert forall|previous: MoveTag|
                previous.axis == tag.axis && previous.family < tag.family && may_follow(
                    previous,
                    second_tag,
                ) implies #[trigger] is_canonical_solution_after(
                puzzle,
                generators,
                target,
                key,
                previous,
                canonical,
            ) by {
                if reached == key {
                    if tail.len() > 0 {
                        let third_tag = generators[tail[0] as int].tag;
                        assert(step(after_second, third_tag) is Some);
                        assert(may_follow(second_tag, third_tag));
                        assert(may_follow(previous, third_tag));
                    }
                    lemma_first_move_decides(
                        puzzle,
                        generators,
                        target,
                        reached,
                        after_second,
                        CanonicalFSMState { last: Some(previous) },
                        tail,
                    );
                }
            }
            canonical
        } else {
            assert(key_after_pair(puzzle, generators, key, second as int, first as int) == Some(
                reached,
            ));
            let aside = puzzle.key_after(key, &generators[second as int].transformation).unwrap();
            lemma_first_move_decides(
                puzzle,
                generators,
                target,
                reached,
                after_second,
                initial,
                tail,
            );
            let inner = lemma_move_before_canonical_solution(
                puzzle,
                generators,
                target,
                aside,
                first,
                tail,
            );
            assert(is_canonical_solution_after(
                puzzle,
                generators,
                target,
                aside,
                second_tag,
                inner,
            ));
            let canonical = seq![second] + inner;
            assert(canonical.skip(1) =~= inner);
            canonical
        }
    }
}

/// Where the tags are sound, every sequence of moves that leads to the
/// target has a canonical sequence that does so and is no longer.
pub proof fn lemma_solution_has_canonical_order<TPuzzle: SemiGroupActionPuzzle>(
    puzzle: &TPuzzle,
    generators: Seq<MoveTransformationInfo<TPuzzle>>,
    target: TPuzzle::Key,
    key: TPuzzle::Key,
    moves: Seq<usize>,
) -> (canonical: Seq<usize>)
    requires
        tags_are_sound(puzzle, generators),
        generators.len() <= usize::MAX,
        solves(puzzle, generators, key, moves, target),
    ensures
        canonical.len() <= moves.len(),
        is_canonical_solution(
            puzzle,
            generators,
            target,
            key,
            CanonicalFSMState { last: None },
            canonical,
        ),
    decreases moves.len(),
{
    if moves.len() == 0 {
        moves
    } else {
        let next = puzzle.key_after(key, &generators[moves[0] as int].transformation).unwrap();
        let rest = lemma_solution_has_canonical_order(
            puzzle,
            generators,
            target,
            next,
            moves.skip(1),
        );
        lemma_move_before_canonical_solution(puzzle, generators, target, key, moves[0], rest)
    }
}

/// Whether some sequence of at most `most` generator moves leads from
/// `start` to `target`: whether the target is at most `most` moves away.
pub open spec fn can_be_solved_within<TPuzzle: SemiGroupActionPuzzle>(
    puzzle: &TPuzzle,
    generators: Seq<MoveTransformationInfo<TPuzzle>>,
    start: TPuzzle::Key,
    target: TPuzzle::Key,
    most: nat,
) -> bool {
    exists|moves: Seq<usize>|
        moves.len() <= most && #[trigger] solves(puzzle, generators, start, moves, target)
}

/// Whether a search with these bounds looks for at least one solution, of
/// any length up to its greatest depth, with no forced moves.
pub open spec fn is_plain_search(bounds: SearchBounds) -> bool {
    &&& bounds.limit >= 1
    &&& bounds.least_depth == 0
    &&& bounds.pre_moves.len() == 0
    &&& bounds.post_moves.len() == 0
}

/// Where the tags are sound, a plain search without filters finds a
/// solution wherever any sequence of moves within its depth leads to the
/// target, and the first solution it hands out is no longer than that
/// sequence: it is a shortest way to the target.
pub proof fn lemma_search_finds_a_shortest_way<TPuzzle: SemiGroupActionPuzzle>(
    puzzle: &TPuzzle,
    generators: Seq<MoveTransformationInfo<TPuzzle>>,
    target: TPuzzle::Key,
    start: TPuzzle::Key,
    bounds: SearchBounds,
    moves: Seq<usize>,
)
    requires
        tags_are_sound(puzzle, generators),
        generators.len() <= usize::MAX,
        is_plain_search(bounds),
        moves.len() <= bounds.greatest_depth,
        solves(puzzle, generators, start, moves, target),
    ensures
        search_result::<TPuzzle, TransformationTraversalFilterNoOp, PatternTraversalFilterNoOp>(
            puzzle,
            generators,
            target,
            start,
            bounds,
        ).len() >= 1,
        search_result::<TPuzzle, TransformationTraversalFilterNoOp, PatternTraversalFilterNoOp>(
            puzzle,
            generators,
            target,
            start,
            bounds,
        )[0].len() <= moves.len(),
{
    let canonical = lemma_solution_has_canonical_order(puzzle, generators, target, start, moves);
    assert(bounds.post_moves =~= Seq::empty());
    lemma_search_finds_shortest::<
        TPuzzle,
        TransformationTraversalFilterNoOp,
        PatternTraversalFilterNoOp,
    >(puzzle, generators, target, start, bounds, canonical);
}

/// Where the tags are sound and the target is exactly `moves.len()` moves
/// from the start, so that `moves` leads there and no shorter sequence
/// does, a plain search without filters to at least that depth hands out a
/// solution of exactly that length first.
pub proof fn lemma_search_finds_the_distance<TPuzzle: SemiGroupActionPuzzle>(
    puzzle: &TPuzzle,
    generators: Seq<MoveTransformationInfo<TPuzzle>>,
    target: TPuzzle::Key,
    start: TPuzzle::Key,
    bounds: SearchBounds,
    moves: Seq<usize>,
)
    requires
        tags_are_sound(puzzle, generators),
        generators.len() <= usize::MAX,
        is_plain_search(bounds),
        moves.len() <= bounds.greatest_depth,
        solves(puzzle, generators, start, moves, target),
        forall|shorter: Seq<usize>|
            shorter.len() < moves.len() ==> !#[trigger] solves(
                puzzle,
                generators,
                start,
                shorter,
                target,
            ),
    ensures
        search_result::<TPuzzle, TransformationTraversalFilterNoOp, PatternTraversalFilterNoOp>(
            puzzle,
            generators,
            target,
            start,
            bounds,
        ).len() >= 1,
        search_result::<TPuzzle, TransformationTraversalFilterNoOp, PatternTraversalFilterNoOp>(
            puzzle,
            generators,
            target,
            start,
            bounds,
        )[0].len() == moves.len(),
{
    lemma_search_finds_a_shortest_way(puzzle, generators, target, start, bounds, moves);
    lemma_search_result_is_accepted::<
        TPuzzle,
        TransformationTraversalFilterNoOp,
        PatternTraversalFilterNoOp,
    >(puzzle, generators, target, start, bounds, 0);
}

/// Where the tags are sound, a plain search without filters finds a
/// solution exactly where the target is no farther from the start than its
/// greatest depth.
pub proof fn lemma_search_tells_whether_target_is_near<TPuzzle: SemiGroupActionPuzzle>(
    puzzle: &TPuzzle,
    generators: Seq<MoveTransformationInfo<TPuzzle>>,
    target: TPuzzle::Key,
    start: TPuzzle::Key,
    bounds: SearchBounds,
)
    requires
        tags_are_sound(puzzle, generators),
        generators.len() <= usize::MAX,
        is_plain_search(bounds),
    ensures
        search_result::<TPuzzle, TransformationTraversalFilterNoOp, PatternTraversalFilterNoOp>(
            puzzle,
            generators,
            target,
            start,
            bounds,
        ).len() > 0 <==> can_be_solved_within(
            puzzle,
            generators,
            start,
            target,
            bounds.greatest_depth,
        ),
{
    let found = search_result::<
        TPuzzle,
        TransformationTraversalFilterNoOp,
        PatternTraversalFilterNoOp,
    >(puzzle, generators, target, start, bounds);
    if found.len() > 0 {
        lemma_search_result_is_accepted::<
            TPuzzle,
            TransformationTraversalFilterNoOp,
            PatternTraversalFilterNoOp,
        >(puzzle, generators, target, start, bounds, 0);
        assert(solves(puzzle, generators, start, found[0], target));
    }
    if can_be_solved_within(puzzle, generators, start, target, bounds.greatest_depth) {
        let moves = choose|moves: Seq<usize>|
            moves.len() <= bounds.greatest_depth && #[trigger] solves(
                puzzle,
                generators,
                start,
                moves,
                target,
            );
        lemma_search_finds_a_shortest_way(puzzle, generators, target, start, bounds, moves);
    }
}

} // verus!
