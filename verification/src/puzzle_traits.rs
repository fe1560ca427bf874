use vstd::prelude::*;

verus! {

/// What the search needs of a puzzle: patterns, transformations that act
/// on them, equality and a fingerprint of patterns.
///
/// Every pattern stands for a mathematical value, its key. Two patterns are
/// the same state of the puzzle exactly if their keys are equal, and what a
/// transformation does to a pattern is a function of the pattern's key.
/// The contracts of the methods name their results over keys; an
/// implementation is trusted to meet them.
pub trait SemiGroupActionPuzzle {
    type Pattern;

    type Transformation;

    /// The mathematical value of a pattern.
    type Key;

    /// The key of a pattern.
    spec fn pattern_key(pattern: &Self::Pattern) -> Self::Key;

    /// The key of the pattern that `transformation` leads to from a pattern
    /// of key `key`, or `None` where the transformation cannot be applied
    /// there.
    spec fn key_after(&self, key: Self::Key, transformation: &Self::Transformation) -> Option<
        Self::Key,
    >;

    /// The fingerprint of the patterns of key `key`.
    spec fn key_fingerprint(key: Self::Key) -> u64;

    /// Applies a transformation to a pattern. `None` where the
    /// transformation cannot be applied to the pattern.
    fn pattern_apply_transformation(
        &self,
        pattern: &Self::Pattern,
        transformation_to_apply: &Self::Transformation,
    ) -> (next: Option<Self::Pattern>)
        ensures
            match next {
                Some(next) => self.key_after(Self::pattern_key(pattern), transformation_to_apply)
                    == Some(Self::pattern_key(&next)),
                None => self.key_after(Self::pattern_key(pattern), transformation_to_apply)
                    is None,
            },
    ;

    /// Whether two patterns are the same state.
    fn patterns_equal(&self, a: &Self::Pattern, b: &Self::Pattern) -> (same: bool)
        ensures
            same == (Self::pattern_key(a) == Self::pattern_key(b)),
    ;

    /// A fixed-size fingerprint of a pattern.
    fn pattern_hash_u64(&self, pattern: &Self::Pattern) -> (hash: u64)
        ensures
            hash == Self::key_fingerprint(Self::pattern_key(pattern)),
    ;

    /// A copy of a pattern.
    fn pattern_clone(&self, pattern: &Self::Pattern) -> (copy: Self::Pattern)
        ensures
            Self::pattern_key(&copy) == Self::pattern_key(pattern),
    ;
}

/// The tag of a move: the axis it turns about and its family on that axis.
/// Moves on one axis commute; moves of one family on one axis combine into
/// a single move of that family or cancel.
#[derive(PartialEq, Eq, Structural, Clone, Copy, Debug)]
pub struct MoveTag {
    pub axis: usize,
    pub family: usize,
}

/// A number of moves.
#[derive(PartialEq, Eq, Structural, Clone, Copy, Debug)]
pub struct Depth(pub usize);

/// A generator move: its transformation, the transformation that undoes
/// it, its position in the list of generators and its tag.
pub struct MoveTransformationInfo<TPuzzle: SemiGroupActionPuzzle> {
    pub transformation: TPuzzle::Transformation,
    pub inverse_transformation: TPuzzle::Transformation,
    pub flat_move_index: usize,
    pub tag: MoveTag,
}

/// The key that a sequence of generator moves, given by their positions in
/// `generators`, leads to from `key`; `None` where a move of the sequence
/// cannot be applied or names no generator.
pub open spec fn key_after_moves<TPuzzle: SemiGroupActionPuzzle>(
    puzzle: &TPuzzle,
    generators: Seq<MoveTransformationInfo<TPuzzle>>,
    key: TPuzzle::Key,
    moves: Seq<usize>,
) -> Option<TPuzzle::Key>
    decreases moves.len(),
{
    if moves.len() == 0 {
        Some(key)
    } else if moves[0] >= generators.len() {
        None
    } else {
        match puzzle.key_after(key, &generators[moves[0] as int].transformation) {
            None => None,
            Some(next) => key_after_moves(puzzle, generators, next, moves.skip(1)),
        }
    }
}

/// Whether `moves` leads from `key` to `target`.
pub open spec fn solves<TPuzzle: SemiGroupActionPuzzle>(
    puzzle: &TPuzzle,
    generators: Seq<MoveTransformationInfo<TPuzzle>>,
    key: TPuzzle::Key,
    moves: Seq<usize>,
    target: TPuzzle::Key,
) -> bool {
    key_after_moves(puzzle, generators, key, moves) == Some(target)
}

/// Whether the stored inverse of every generator undoes it, and the
/// generator undoes its inverse, on the ways to `target`: where a
/// generator leads from a key to a key from which the target can be
/// reached, its inverse leads back; and where the inverse of a generator
/// leads away from a key from which the target can be reached, the
/// generator leads back.
pub open spec fn inverses_undo<TPuzzle: SemiGroupActionPuzzle>(
    puzzle: &TPuzzle,
    generators: Seq<MoveTransformationInfo<TPuzzle>>,
    target: TPuzzle::Key,
) -> bool {
    &&& forall|key: TPuzzle::Key, next: TPuzzle::Key, i: int, rest: Seq<usize>|
        0 <= i < generators.len() && #[trigger] puzzle.key_after(
            key,
            &generators[i].transformation,
        ) == Some(next) && #[trigger] solves(puzzle, generators, next, rest, target)
            ==> puzzle.key_after(next, &generators[i].inverse_transformation) == Some(key)
    &&& forall|key: TPuzzle::Key, i: int, rest: Seq<usize>|
        0 <= i < generators.len() && #[trigger] solves(puzzle, generators, key, rest, target) ==> (
        #[trigger] puzzle.key_after(key, &generators[i].inverse_transformation) matches Some(next)
            ==> puzzle.key_after(next, &generators[i].transformation) == Some(key))
}

/// Applies the generator moves `moves`, given by their positions in
/// `generators`, to `pattern`, one after the other. `None` where a move
/// names no generator or cannot be applied.
pub fn apply_moves<TPuzzle: SemiGroupActionPuzzle>(
    puzzle: &TPuzzle,
    generators: &Vec<MoveTransformationInfo<TPuzzle>>,
    pattern: &TPuzzle::Pattern,
    moves: &Vec<usize>,
) -> (reached: Option<TPuzzle::Pattern>)
    ensures
        match reached {
            Some(reached) => key_after_moves(
                puzzle,
                generators@,
                TPuzzle::pattern_key(pattern),
                moves@,
            ) == Some(TPuzzle::pattern_key(&reached)),
            None => key_after_moves(puzzle, generators@, TPuzzle::pattern_key(pattern), moves@)
                is None,
        },
{
    let mut current = puzzle.pattern_clone(pattern);
    let mut done: usize = 0;
    assert(moves@.skip(0) =~= moves@);
    while done < moves.len()
        invariant
            done <= moves@.len(),
            key_after_moves(puzzle, generators@, TPuzzle::pattern_key(pattern), moves@)
                == key_after_moves(
                puzzle,
                generators@,
                TPuzzle::pattern_key(&current),
                moves@.skip(done as int),
            ),
        decreases moves@.len() - done,
    {
        let generator = moves[done];
        let ghost rest = moves@.skip(done as int);
        assert(rest[0] == generator);
        assert(rest.skip(1) =~= moves@.skip(done + 1));
        if generator >= generators.len() {
            return None;
        }
        match puzzle.pattern_apply_transformation(&current, &generators[generator].transformation) {
            Some(next) => {
                current = next;
            },
            None => {
                return None;
            },
        }
        done += 1;
    }
    assert(moves@.skip(moves@.len() as int).len() == 0);
    Some(current)
}

} // verus!
