use crate::puzzle_traits::Depth;
use crate::puzzle_traits::MoveTransformationInfo;
use crate::puzzle_traits::SemiGroupActionPuzzle;
use vstd::prelude::*;

verus! {

/// A filter on candidate moves, asked before the move is applied to a
/// pattern. Its answer is a function of the move and of the number of moves
/// that remain after it.
pub trait TransformationTraversalFilter<TPuzzle: SemiGroupActionPuzzle> {
    /// Whether the filter keeps the move.
    spec fn keeps(
        move_transformation_info: &MoveTransformationInfo<TPuzzle>,
        remaining_depth: Depth,
    ) -> bool;

    fn keep_move(
        move_transformation_info: &MoveTransformationInfo<TPuzzle>,
        remaining_depth: Depth,
    ) -> (keep: bool)
        ensures
            keep == Self::keeps(move_transformation_info, remaining_depth),
    ;
}

/// The transformation filter that keeps every move.
pub struct TransformationTraversalFilterNoOp;

impl<TPuzzle: SemiGroupActionPuzzle> TransformationTraversalFilter<
    TPuzzle,
> for TransformationTraversalFilterNoOp {
    open spec fn keeps(
        move_transformation_info: &MoveTransformationInfo<TPuzzle>,
        remaining_depth: Depth,
    ) -> bool {
        true
    }

    fn keep_move(
        _move_transformation_info: &MoveTransformationInfo<TPuzzle>,
        _remaining_depth: Depth,
    ) -> (keep: bool) {
        true
    }
}

/// A filter on the patterns that the search reaches. Its answer is a
/// function of the pattern's key.
pub trait PatternTraversalFilter<TPuzzle: SemiGroupActionPuzzle> {
    /// Whether the filter accepts the patterns of key `key`.
    spec fn key_is_valid(key: TPuzzle::Key) -> bool;

    fn is_valid(pattern: &TPuzzle::Pattern) -> (valid: bool)
        ensures
            valid == Self::key_is_valid(TPuzzle::pattern_key(pattern)),
    ;
}

/// The pattern filter that accepts every pattern.
pub struct PatternTraversalFilterNoOp;

impl<TPuzzle: SemiGroupActionPuzzle> PatternTraversalFilter<TPuzzle> for PatternTraversalFilterNoOp {
    open spec fn key_is_valid(key: TPuzzle::Key) -> bool {
        true
    }

    fn is_valid(_pattern: &TPuzzle::Pattern) -> (valid: bool) {
        true
    }
}

} // verus!
