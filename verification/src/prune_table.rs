use crate::puzzle_traits::inverses_undo;
use crate::puzzle_traits::solves;
use crate::puzzle_traits::Depth;
use crate::puzzle_traits::MoveTransformationInfo;
use crate::puzzle_traits::SemiGroupActionPuzzle;
use std::collections::HashMap;
use vstd::prelude::*;

verus! {

/// Why a search could not be set up.
#[derive(PartialEq, Eq, Structural, Clone, Copy, Debug)]
pub enum SearchError {
    /// The generator set is empty or malformed: a generator's index is not
    /// its position in the list.
    MalformedGenerators,
    /// The puzzle is inconsistent: the stored inverse of a generator did
    /// not lead back to the pattern it was applied to.
    InconsistentPuzzle,
}

/// Whether some sequence of exactly `length` generator moves leads from
/// `key` to `target`.
pub open spec fn has_path<TPuzzle: SemiGroupActionPuzzle>(
    puzzle: &TPuzzle,
    generators: Seq<MoveTransformationInfo<TPuzzle>>,
    target: TPuzzle::Key,
    key: TPuzzle::Key,
    length: nat,
) -> bool {
    exists|moves: Seq<usize>|
        #[trigger] solves(puzzle, generators, key, moves, target) && moves.len() == length
}

/// The keys of a list of patterns.
pub open spec fn keys_of<TPuzzle: SemiGroupActionPuzzle>(patterns: Seq<TPuzzle::Pattern>) -> Seq<
    TPuzzle::Key,
> {
    Seq::new(patterns.len(), |j: int| TPuzzle::pattern_key(&patterns[j]))
}

/// Whether `keys` holds `key` with a depth of at most `limit`.
pub open spec fn has_entry_within<Key>(
    keys: Seq<Key>,
    depths: Seq<usize>,
    key: Key,
    limit: nat,
) -> bool {
    exists|i: int| 0 <= i < keys.len() && #[trigger] keys[i] == key && depths[i] <= limit
}

/// Whether every depth is the length of a path to `target` from its key.
pub open spec fn depths_have_paths<TPuzzle: SemiGroupActionPuzzle>(
    puzzle: &TPuzzle,
    generators: Seq<MoveTransformationInfo<TPuzzle>>,
    target: TPuzzle::Key,
    keys: Seq<TPuzzle::Key>,
    depths: Seq<usize>,
) -> bool {
    forall|i: int|
        0 <= i < keys.len() ==> has_path(
            puzzle,
            generators,
            target,
            #[trigger] keys[i],
            depths[i] as nat,
        )
}

/// Whether no depth exceeds `depth`.
pub open spec fn depths_within(depths: Seq<usize>, depth: usize) -> bool {
    forall|i: int| 0 <= i < depths.len() ==> #[trigger] depths[i] <= depth
}

/// Whether the entries from `from` on are those of depth `depth`.
pub open spec fn is_last_level(depths: Seq<usize>, from: int, depth: usize) -> bool {
    forall|i: int| 0 <= i < depths.len() ==> (from <= i <==> #[trigger] depths[i] == depth)
}

/// Whether the keys cover every key within `radius` moves of `target`,
/// none with a depth of more than the length of any of its paths.
pub open spec fn covers_radius<TPuzzle: SemiGroupActionPuzzle>(
    puzzle: &TPuzzle,
    generators: Seq<MoveTransformationInfo<TPuzzle>>,
    target: TPuzzle::Key,
    keys: Seq<TPuzzle::Key>,
    depths: Seq<usize>,
    radius: nat,
) -> bool {
    forall|key: TPuzzle::Key, moves: Seq<usize>|
        #[trigger] solves(puzzle, generators, key, moves, target) && moves.len() <= radius
            ==> has_entry_within(keys, depths, key, moves.len())
}

/// The lower bound that a table of these keys, depths and radius gives for
/// a key: its depth, or the radius where the table does not hold it.
pub open spec fn bound_of<Key>(keys: Seq<Key>, depths: Seq<usize>, radius: usize, key: Key) -> usize {
    if keys.contains(key) {
        depths[keys.index_of(key)]
    } else {
        radius
    }
}

/// Whether the bounds never exceed the length of a path to `target`.
pub open spec fn is_admissible<TPuzzle: SemiGroupActionPuzzle>(
    puzzle: &TPuzzle,
    generators: Seq<MoveTransformationInfo<TPuzzle>>,
    target: TPuzzle::Key,
    keys: Seq<TPuzzle::Key>,
    depths: Seq<usize>,
    radius: usize,
) -> bool {
    forall|key: TPuzzle::Key, moves: Seq<usize>|
        #[trigger] solves(puzzle, generators, key, moves, target) ==> bound_of(
            keys,
            depths,
            radius,
            key,
        ) <= moves.len()
}

/// Whether the keys hold every key that the inverse of one of the first
/// `count` generators leads to from `key`.
pub open spec fn is_expanded<TPuzzle: SemiGroupActionPuzzle>(
    puzzle: &TPuzzle,
    generators: Seq<MoveTransformationInfo<TPuzzle>>,
    keys: Seq<TPuzzle::Key>,
    key: TPuzzle::Key,
    count: int,
) -> bool {
    forall|i: int|
        0 <= i < count ==> (#[trigger] puzzle.key_after(key, &generators[i].inverse_transformation)
            matches Some(reached) ==> keys.contains(reached))
}

/// Whether `longer` begins with `shorter`.
pub open spec fn begins_with<A>(longer: Seq<A>, shorter: Seq<A>) -> bool {
    shorter.len() <= longer.len() && longer.take(shorter.len() as int) == shorter
}

/// In a list without duplicates, an entry is found at its own position.
pub proof fn lemma_position_is_unique<Key>(keys: Seq<Key>, i: int)
    requires
        keys.no_duplicates(),
        0 <= i < keys.len(),
    ensures
        keys.contains(keys[i]),
        keys.index_of(keys[i]) == i,
{
    assert(keys.contains(keys[i]));
    let found = keys.index_of(keys[i]);
    assert(0 <= found < keys.len() && keys[found] == keys[i]);
}

/// A path from the key that a generator leads to is, with that generator
/// before it, a path from the key that the generator was applied to.
pub proof fn lemma_path_extends<TPuzzle: SemiGroupActionPuzzle>(
    puzzle: &TPuzzle,
    generators: Seq<MoveTransformationInfo<TPuzzle>>,
    target: TPuzzle::Key,
    from: TPuzzle::Key,
    generator: usize,
    to: TPuzzle::Key,
    moves: Seq<usize>,
)
    requires
        generator < generators.len(),
        puzzle.key_after(from, &generators[generator as int].transformation) == Some(to),
        solves(puzzle, generators, to, moves, target),
    ensures
        solves(puzzle, generators, from, seq![generator] + moves, target),
{
    let longer = seq![generator] + moves;
    assert(longer[0] == generator);
    assert(longer.skip(1) =~= moves);
}

/// A path of at least one move goes through the key that its first move
/// leads to.
pub proof fn lemma_path_splits<TPuzzle: SemiGroupActionPuzzle>(
    puzzle: &TPuzzle,
    generators: Seq<MoveTransformationInfo<TPuzzle>>,
    target: TPuzzle::Key,
    from: TPuzzle::Key,
    moves: Seq<usize>,
)
    requires
        moves.len() > 0,
        solves(puzzle, generators, from, moves, target),
    ensures
        moves[0] < generators.len(),
        puzzle.key_after(from, &generators[moves[0] as int].transformation) is Some,
        solves(
            puzzle,
            generators,
            puzzle.key_after(from, &generators[moves[0] as int].transformation).unwrap(),
            moves.skip(1),
            target,
        ),
{
}

/// A table that covers its radius, holds no key twice and has no depth
/// above the radius is admissible.
pub proof fn lemma_covering_table_is_admissible<TPuzzle: SemiGroupActionPuzzle>(
    puzzle: &TPuzzle,
    generators: Seq<MoveTransformationInfo<TPuzzle>>,
    target: TPuzzle::Key,
    keys: Seq<TPuzzle::Key>,
    depths: Seq<usize>,
    radius: usize,
)
    requires
        keys.len() == depths.len(),
        keys.no_duplicates(),
        covers_radius(puzzle, generators, target, keys, depths, radius as nat),
        depths_within(depths, radius),
    ensures
        is_admissible(puzzle, generators, target, keys, depths, radius),
{
    assert forall|key: TPuzzle::Key, moves: Seq<usize>| #[trigger]
        solves(puzzle, generators, key, moves, target) implies bound_of(keys, depths, radius, key)
        <= moves.len() by {
        if moves.len() <= radius {
            assert(has_entry_within(keys, depths, key, moves.len()));
            let i = choose|i: int|
                0 <= i < keys.len() && #[trigger] keys[i] == key && depths[i] <= moves.len();
            lemma_position_is_unique(keys, i);
        } else if keys.contains(key) {
            assert(depths[keys.index_of(key)] <= radius);
        }
    }
}

/// Once every key of the last level is expanded, the keys cover one move
/// more.
proof fn lemma_level_covers<TPuzzle: SemiGroupActionPuzzle>(
    puzzle: &TPuzzle,
    generators: Seq<MoveTransformationInfo<TPuzzle>>,
    target: TPuzzle::Key,
    keys: Seq<TPuzzle::Key>,
    depths: Seq<usize>,
    from: int,
    depth: usize,
    later_keys: Seq<TPuzzle::Key>,
    later_depths: Seq<usize>,
)
    requires
        depth < usize::MAX,
        keys.len() == depths.len(),
        later_keys.len() == later_depths.len(),
        inverses_undo(puzzle, generators, target),
        covers_radius(puzzle, generators, target, keys, depths, depth as nat),
        depths_have_paths(puzzle, generators, target, keys, depths),
        depths_within(depths, depth),
        is_last_level(depths, from, depth),
        begins_with(later_keys, keys),
        begins_with(later_depths, depths),
        depths_within(later_depths, (depth + 1) as usize),
        forall|j: int|
            from <= j < keys.len() ==> is_expanded(
                puzzle,
                generators,
                later_keys,
                #[trigger] keys[j],
                generators.len() as int,
            ),
    ensures
        covers_radius(puzzle, generators, target, later_keys, later_depths, (depth + 1) as nat),
{
    assert forall|key: TPuzzle::Key, moves: Seq<usize>| #[trigger]
        solves(puzzle, generators, key, moves, target) && moves.len() <= depth
            + 1 implies has_entry_within(later_keys, later_depths, key, moves.len()) by {
        if moves.len() <= depth {
            assert(has_entry_within(keys, depths, key, moves.len()));
            let i = choose|i: int|
                0 <= i < keys.len() && #[trigger] keys[i] == key && depths[i] <= moves.len();
            assert(later_keys.take(keys.len() as int)[i] == later_keys[i]);
            assert(later_depths.take(depths.len() as int)[i] == later_depths[i]);
            assert(later_keys[i] == key && later_depths[i] <= moves.len());
        } else {
            lemma_path_splits(puzzle, generators, target, key, moves);
            let first = moves[0];
            let middle = puzzle.key_after(key, &generators[first as int].transformation).unwrap();
            let rest = moves.skip(1);
            assert(solves(puzzle, generators, middle, rest, target));
            assert(has_entry_within(keys, depths, middle, rest.len()));
            let at = choose|at: int|
                0 <= at < keys.len() && #[trigger] keys[at] == middle && depths[at] <= rest.len();
            if depths[at] < depth {
                assert(has_path(puzzle, generators, target, keys[at], depths[at] as nat));
                let shorter = choose|shorter: Seq<usize>| #[trigger]
                    solves(puzzle, generators, middle, shorter, target) && shorter.len()
                        == depths[at];
                lemma_path_extends(puzzle, generators, target, key, first, middle, shorter);
                let detour = seq![first] + shorter;
                assert(solves(puzzle, generators, key, detour, target) && detour.len() <= depth);
                assert(has_entry_within(keys, depths, key, detour.len()));
                let i = choose|i: int|
                    0 <= i < keys.len() && #[trigger] keys[i] == key && depths[i] <= detour.len();
                assert(later_keys.take(keys.len() as int)[i] == later_keys[i]);
                assert(later_depths.take(depths.len() as int)[i] == later_depths[i]);
                assert(later_keys[i] == key && later_depths[i] <= moves.len());
            } else {
                assert(from <= at);
                assert(is_expanded(puzzle, generators, later_keys, keys[at], generators.len() as int));
                assert(puzzle.key_after(middle, &generators[first as int].inverse_transformation)
                    == Some(key));
                assert(later_keys.contains(key));
                let i = later_keys.index_of(key);
                assert(later_keys[i] == key && later_depths[i] <= depth + 1);
            }
        }
    }
}

/// A table of lower bounds on the number of moves from a pattern to the
/// target. It holds the patterns within `radius` moves of the target, in
/// the order in which a breadth-first search from the target finds them,
/// each with its least number of moves; the bound of every other pattern
/// is `radius`. The patterns are found by their fingerprint.
pub struct HashPruneTable<TPuzzle: SemiGroupActionPuzzle> {
    /// For each fingerprint, the positions of the patterns that have it.
    pub buckets: HashMap<u64, Vec<usize>>,
    pub patterns: Vec<TPuzzle::Pattern>,
    /// The least number of moves of each pattern.
    pub depths: Vec<usize>,
    pub radius: usize,
}

impl<TPuzzle: SemiGroupActionPuzzle> HashPruneTable<TPuzzle> {
    /// The keys of the patterns that the table holds.
    pub open spec fn keys(&self) -> Seq<TPuzzle::Key> {
        keys_of::<TPuzzle>(self.patterns@)
    }

    /// The bound that the table gives for a key.
    pub open spec fn bound(&self, key: TPuzzle::Key) -> usize {
        bound_of(self.keys(), self.depths@, self.radius, key)
    }

    /// Whether the table finds what it holds: it holds no key twice, every
    /// pattern has a depth and stands under its fingerprint, and nothing
    /// else stands under a fingerprint.
    pub open spec fn is_indexed(&self) -> bool {
        &&& self.patterns@.len() == self.depths@.len()
        &&& self.keys().no_duplicates()
        &&& forall|i: int|
            0 <= i < self.keys().len() ==> {
                &&& self.buckets@.contains_key(TPuzzle::key_fingerprint(#[trigger] self.keys()[i]))
                &&& self.buckets@[TPuzzle::key_fingerprint(self.keys()[i])]@.contains(i as usize)
            }
        &&& forall|fingerprint: u64, j: int|
            self.buckets@.contains_key(fingerprint) && 0 <= j < self.buckets@[fingerprint]@.len()
                ==> (#[trigger] self.buckets@[fingerprint]@[j]) < self.patterns@.len()
    }

    /// What a table is that was built for `target` over `generators`: it
    /// finds what it holds, every depth is the length of a path to the
    /// target from its pattern, no depth exceeds the radius, and the target
    /// comes first, with depth 0.
    pub open spec fn is_built_for(
        &self,
        puzzle: &TPuzzle,
        generators: Seq<MoveTransformationInfo<TPuzzle>>,
        target: TPuzzle::Key,
    ) -> bool {
        &&& self.is_indexed()
        &&& depths_have_paths(puzzle, generators, target, self.keys(), self.depths@)
        &&& depths_within(self.depths@, self.radius)
        &&& self.keys().len() > 0
        &&& self.keys()[0] == target
        &&& self.depths@[0] == 0
    }

    /// The position of a pattern in the table, if the table holds it.
    fn find(&self, puzzle: &TPuzzle, pattern: &TPuzzle::Pattern) -> (found: Option<usize>)
        requires
            self.is_indexed(),
        ensures
            match found {
                Some(at) => at < self.keys().len() && self.keys()[at as int] == TPuzzle::pattern_key(
                    pattern,
                ),
                None => !self.keys().contains(TPuzzle::pattern_key(pattern)),
            },
    {
        broadcast use vstd::std_specs::hash::group_hash_axioms;

        let ghost key = TPuzzle::pattern_key(pattern);
        let count = self.patterns.len();
        let fingerprint = puzzle.pattern_hash_u64(pattern);
        match self.buckets.get(&fingerprint) {
            None => {
                assert forall|i: int| 0 <= i < self.keys().len() implies self.keys()[i] != key by {
                    assert(self.buckets@.contains_key(TPuzzle::key_fingerprint(self.keys()[i])));
                }
                None
            },
            Some(bucket) => {
                let mut j: usize = 0;
                while j < bucket.len()
                    invariant
                        j <= bucket@.len(),
                        self.is_indexed(),
                        count == self.keys().len(),
                        fingerprint == TPuzzle::key_fingerprint(key),
                        key == TPuzzle::pattern_key(pattern),
                        self.buckets@.contains_key(fingerprint),
                        *bucket == self.buckets@[fingerprint],
                        forall|tried: int|
                            0 <= tried < j ==> self.keys()[(#[trigger] bucket@[tried]) as int] != key,
                    decreases bucket@.len() - j,
                {
                    let at = bucket[j];
                    if puzzle.patterns_equal(&self.patterns[at], pattern) {
                        return Some(at);
                    }
                    j += 1;
                }
                assert forall|i: int| 0 <= i < self.keys().len() implies self.keys()[i] != key by {
                    if self.keys()[i] == key {
                        assert(i < count);
                        assert(TPuzzle::key_fingerprint(self.keys()[i]) == fingerprint);
                        assert(bucket@.contains(i as usize));
                        let tried = choose|tried: int|
                            0 <= tried < bucket@.len() && bucket@[tried] == i as usize;
                        assert(self.keys()[bucket@[tried] as int] != key);
                    }
                }
                None
            },
        }
    }

    /// Enters a pattern that the table does not hold yet, with its depth.
    fn insert(&mut self, puzzle: &TPuzzle, pattern: TPuzzle::Pattern, depth: usize)
        requires
            old(self).is_indexed(),
            !old(self).keys().contains(TPuzzle::pattern_key(&pattern)),
        ensures
            final(self).is_indexed(),
            final(self).patterns@ == old(self).patterns@.push(pattern),
            final(self).keys() == old(self).keys().push(TPuzzle::pattern_key(&pattern)),
            final(self).depths@ == old(self).depths@.push(depth),
            final(self).radius == old(self).radius,
    {
        broadcast use vstd::std_specs::hash::group_hash_axioms;

        let ghost key = TPuzzle::pattern_key(&pattern);
        let ghost keys_before = self.keys();
        let ghost buckets_before = self.buckets@;
        let fingerprint = puzzle.pattern_hash_u64(&pattern);
        let at = self.patterns.len();
        let mut bucket: Vec<usize> = match self.buckets.get(&fingerprint) {
            Some(bucket) => copy_positions(bucket),
            None => Vec::new(),
        };
        let ghost bucket_before = bucket@;
        bucket.push(at);
        self.buckets.insert(fingerprint, bucket);
        self.patterns.push(pattern);
        self.depths.push(depth);
        proof {
            let keys = self.keys();
            assert(keys =~= keys_before.push(key));
            assert forall|i: int, j: int|
                0 <= i < keys.len() && 0 <= j < keys.len() && i != j implies keys[i] != keys[j] by {
                if i < keys_before.len() && j < keys_before.len() {
                    assert(keys_before[i] != keys_before[j]);
                } else if i < keys_before.len() {
                    assert(keys_before.contains(keys_before[i]));
                } else {
                    assert(keys_before.contains(keys_before[j]));
                }
            }
            assert forall|i: int| 0 <= i < keys.len() implies {
                &&& self.buckets@.contains_key(TPuzzle::key_fingerprint(#[trigger] keys[i]))
                &&& self.buckets@[TPuzzle::key_fingerprint(keys[i])]@.contains(i as usize)
            } by {
                let own = TPuzzle::key_fingerprint(keys[i]);
                if i < keys_before.len() {
                    assert(keys[i] == keys_before[i]);
                    assert(buckets_before[own]@.contains(i as usize));
                    if own == fingerprint {
                        let found = choose|found: int|
                            0 <= found < bucket_before.len() && bucket_before[found] == i as usize;
                        assert(self.buckets@[own]@[found] == i as usize);
                    }
                } else {
                    assert(self.buckets@[own]@[bucket_before.len() as int] == i as usize);
                }
            }
            assert forall|other: u64, j: int|
                self.buckets@.contains_key(other) && 0 <= j < self.buckets@[other]@.len() implies (
            #[trigger] self.buckets@[other]@[j]) < self.patterns@.len() by {
                if other == fingerprint {
                    if j < bucket_before.len() {
                        assert(buckets_before[other]@[j] < keys_before.len());
                    }
                } else {
                    assert(buckets_before[other]@[j] < keys_before.len());
                }
            }
        }
    }

    /// Applies the inverse of every generator to the pattern at position
    /// `at`, a pattern `depth` moves from the target, and enters each
    /// pattern reached that the table does not hold yet, with `depth + 1`.
    fn expand_pattern(
        &mut self,
        puzzle: &TPuzzle,
        generators: &Vec<MoveTransformationInfo<TPuzzle>>,
        Ghost(target): Ghost<TPuzzle::Key>,
        at: usize,
        depth: usize,
    ) -> (outcome: Result<(), SearchError>)
        requires
            depth < usize::MAX,
            old(self).is_indexed(),
            at < old(self).keys().len(),
            depths_have_paths(puzzle, generators@, target, old(self).keys(), old(self).depths@),
            old(self).depths@[at as int] == depth,
        ensures
            outcome is Ok ==> {
                &&& final(self).is_indexed()
                &&& final(self).radius == old(self).radius
                &&& begins_with(final(self).keys(), old(self).keys())
                &&& begins_with(final(self).depths@, old(self).depths@)
                &&& depths_have_paths(
                    puzzle,
                    generators@,
                    target,
                    final(self).keys(),
                    final(self).depths@,
                )
                &&& forall|i: int|
                    old(self).depths@.len() <= i < final(self).depths@.len() ==> (
                    #[trigger] final(self).depths@[i]) == depth + 1
                &&& is_expanded(
                    puzzle,
                    generators@,
                    final(self).keys(),
                    old(self).keys()[at as int],
                    generators@.len() as int,
                )
            },
            outcome matches Err(error) ==> error == SearchError::InconsistentPuzzle
                && !inverses_undo(puzzle, generators@, target),
    {
        let ghost key = self.keys()[at as int];
        let ghost path = choose|moves: Seq<usize>| #[trigger]
            solves(puzzle, generators@, key, moves, target) && moves.len() == depth;
        proof {
            assert(self.keys().take(self.keys().len() as int) =~= self.keys());
            assert(self.depths@.take(self.depths@.len() as int) =~= self.depths@);
            assert(has_path(puzzle, generators@, target, self.keys()[at as int], depth as nat));
        }
        let mut i: usize = 0;
        while i < generators.len()
            invariant
                i <= generators@.len(),
                depth < usize::MAX,
                self.is_indexed(),
                self.radius == old(self).radius,
                at < old(self).keys().len(),
                key == old(self).keys()[at as int],
                solves(puzzle, generators@, key, path, target),
                path.len() == depth,
                begins_with(self.keys(), old(self).keys()),
                begins_with(self.depths@, old(self).depths@),
                depths_have_paths(puzzle, generators@, target, self.keys(), self.depths@),
                forall|j: int|
                    old(self).depths@.len() <= j < self.depths@.len() ==> (#[trigger] self.depths@[j])
                        == depth + 1,
                is_expanded(puzzle, generators@, self.keys(), key, i as int),
            decreases generators@.len() - i,
        {
            let info = &generators[i];
            assert(self.keys().take(old(self).keys().len() as int)[at as int] == self.keys()[at as int]);
            let reached = puzzle.pattern_apply_transformation(
                &self.patterns[at],
                &info.inverse_transformation,
            );
            match reached {
                None => {},
                Some(reached) => {
                    let ghost reached_key = TPuzzle::pattern_key(&reached);
                    let consistent = match puzzle.pattern_apply_transformation(
                        &reached,
                        &info.transformation,
                    ) {
                        Some(back) => puzzle.patterns_equal(&back, &self.patterns[at]),
                        None => false,
                    };
                    if !consistent {
                        assert(puzzle.key_after(key, &generators@[i as int].inverse_transformation)
                            == Some(reached_key));
                        assert(puzzle.key_after(reached_key, &generators@[i as int].transformation)
                            != Some(key));
                        return Err(SearchError::InconsistentPuzzle);
                    }
                    proof {
                        lemma_path_extends(puzzle, generators@, target, reached_key, i, key, path);
                        let longer = seq![i] + path;
                        assert(solves(puzzle, generators@, reached_key, longer, target)
                            && longer.len() == depth + 1);
                    }
                    let ghost keys_before = self.keys();
                    let ghost depths_before = self.depths@;
                    if self.find(puzzle, &reached).is_none() {
                        self.insert(puzzle, reached, depth + 1);
                        proof {
                            let keys = self.keys();
                            assert(keys[keys_before.len() as int] == reached_key);
                            assert(keys.contains(reached_key));
                            assert(keys.take(old(self).keys().len() as int) =~= keys_before.take(
                                old(self).keys().len() as int,
                            ));
                            assert(self.depths@.take(old(self).depths@.len() as int)
                                =~= depths_before.take(old(self).depths@.len() as int));
                            assert forall|j: int| 0 <= j < keys.len() implies has_path(
                                puzzle,
                                generators@,
                                target,
                                #[trigger] keys[j],
                                self.depths@[j] as nat,
                            ) by {
                                if j < keys_before.len() {
                                    assert(keys[j] == keys_before[j]);
                                }
                            }
                            assert forall|g: int| 0 <= g < i implies (#[trigger] puzzle.key_after(
                                key,
                                &generators@[g].inverse_transformation,
                            ) matches Some(found) ==> keys.contains(found)) by {
                                match puzzle.key_after(key, &generators@[g].inverse_transformation) {
                                    Some(found) => {
                                        let before = keys_before.index_of(found);
                                        assert(keys[before] == found);
                                    },
                                    None => {},
                                }
                            }
                        }
                    }
                },
            }
            i += 1;
        }
        Ok(())
    }

    /// Builds the table for `target` by breadth-first search backwards from
    /// it: level by level, the inverse of every generator is applied to
    /// every pattern of the level. A level is added as long as the radius
    /// is below `max_depth`, the table holds fewer than `min_size` patterns
    /// and the last level found a new pattern.
    ///
    /// Each step back is checked by taking it forward again; the build
    /// fails where that does not lead back. Where the inverses undo the
    /// generators, the table covers its radius and is admissible.
    pub fn build(
        puzzle: &TPuzzle,
        generators: &Vec<MoveTransformationInfo<TPuzzle>>,
        target: &TPuzzle::Pattern,
        max_depth: Depth,
        min_size: usize,
    ) -> (outcome: Result<Self, SearchError>)
        ensures
            outcome matches Ok(table) ==> {
                &&& table.is_built_for(puzzle, generators@, TPuzzle::pattern_key(target))
                &&& table.radius <= max_depth.0
                &&& table.radius == max_depth.0 || table.patterns@.len() >= min_size || forall|
                    i: int,
                |
                    0 <= i < table.depths@.len() ==> #[trigger] table.depths@[i] < table.radius
                &&& inverses_undo(puzzle, generators@, TPuzzle::pattern_key(target)) ==> {
                    &&& covers_radius(
                        puzzle,
                        generators@,
                        TPuzzle::pattern_key(target),
                        table.keys(),
                        table.depths@,
                        table.radius as nat,
                    )
                    &&& is_admissible(
                        puzzle,
                        generators@,
                        TPuzzle::pattern_key(target),
                        table.keys(),
                        table.depths@,
                        table.radius,
                    )
                }
            },
            outcome matches Err(error) ==> error == SearchError::InconsistentPuzzle
                && !inverses_undo(puzzle, generators@, TPuzzle::pattern_key(target)),
    {
        let ghost target_key = TPuzzle::pattern_key(target);
        let mut table = HashPruneTable {
            buckets: HashMap::new(),
            patterns: Vec::new(),
            depths: Vec::new(),
            radius: 0,
        };
        proof {
            broadcast use vstd::std_specs::hash::group_hash_axioms;

            assert(table.keys() =~= Seq::<TPuzzle::Key>::empty());
        }
        table.insert(puzzle, puzzle.pattern_clone(target), 0);
        let mut level_start: usize = 0;
        proof {
            let empty = Seq::<usize>::empty();
            assert(solves(puzzle, generators@, target_key, empty, target_key));
            assert(table.keys()[0] == target_key);
            assert forall|key: TPuzzle::Key, moves: Seq<usize>| #[trigger]
                solves(puzzle, generators@, key, moves, target_key) && moves.len()
                    <= 0 implies has_entry_within(table.keys(), table.depths@, key, moves.len()) by {
                assert(key == target_key);
                assert(table.keys()[0] == key && table.depths@[0] <= moves.len());
            }
        }
        while table.radius < max_depth.0 && table.patterns.len() < min_size && level_start
            < table.patterns.len()
            invariant
                table.radius <= max_depth.0,
                target_key == TPuzzle::pattern_key(target),
                table.is_built_for(puzzle, generators@, target_key),
                level_start <= table.patterns@.len(),
                is_last_level(table.depths@, level_start as int, table.radius),
                inverses_undo(puzzle, generators@, target_key) ==> covers_radius(
                    puzzle,
                    generators@,
                    target_key,
                    table.keys(),
                    table.depths@,
                    table.radius as nat,
                ),
            decreases max_depth.0 - table.radius,
        {
            let ghost keys = table.keys();
            let ghost depths = table.depths@;
            let depth = table.radius;
            let level_end = table.patterns.len();
            let mut at: usize = level_start;
            proof {
                assert(keys.take(keys.len() as int) =~= keys);
                assert(depths.take(depths.len() as int) =~= depths);
            }
            while at < level_end
                invariant
                    level_start <= at <= level_end == keys.len() == depths.len(),
                    target_key == TPuzzle::pattern_key(target),
                    depth < max_depth.0,
                    depth == table.radius,
                    table.is_indexed(),
                    is_last_level(depths, level_start as int, depth),
                    begins_with(table.keys(), keys),
                    begins_with(table.depths@, depths),
                    depths_have_paths(puzzle, generators@, target_key, table.keys(), table.depths@),
                    forall|i: int|
                        depths.len() <= i < table.depths@.len() ==> (#[trigger] table.depths@[i])
                            == depth + 1,
                    forall|j: int|
                        level_start <= j < at ==> is_expanded(
                            puzzle,
                            generators@,
                            table.keys(),
                            #[trigger] keys[j],
                            generators@.len() as int,
                        ),
                decreases level_end - at,
            {
                let ghost keys_before = table.keys();
                let ghost depths_before = table.depths@;
                proof {
                    assert(keys_before.take(keys.len() as int)[at as int] == keys_before[at as int]);
                    assert(depths_before.take(depths.len() as int)[at as int] == depths_before[at as int]);
                }
                match table.expand_pattern(puzzle, generators, Ghost(target_key), at, depth) {
                    Ok(()) => {},
                    Err(error) => {
                        return Err(error);
                    },
                }
                proof {
                    let keys_now = table.keys();
                    assert(keys_now.take(keys.len() as int) =~= keys_before.take(keys.len() as int));
                    assert(table.depths@.take(depths.len() as int) =~= depths_before.take(
                        depths.len() as int,
                    ));
                    assert forall|j: int| level_start <= j < at + 1 implies is_expanded(
                        puzzle,
                        generators@,
                        keys_now,
                        #[trigger] keys[j],
                        generators@.len() as int,
                    ) by {
                        if j < at {
                            assert(is_expanded(
                                puzzle,
                                generators@,
                                keys_before,
                                keys[j],
                                generators@.len() as int,
                            ));
                            assert forall|g: int| 0 <= g < generators@.len() implies (
                            #[trigger] puzzle.key_after(
                                keys[j],
                                &generators@[g].inverse_transformation,
                            ) matches Some(found) ==> keys_now.contains(found)) by {
                                match puzzle.key_after(
                                    keys[j],
                                    &generators@[g].inverse_transformation,
                                ) {
                                    Some(found) => {
                                        let before = keys_before.index_of(found);
                                        assert(keys_now.take(keys_before.len() as int)[before]
                                            == keys_now[before]);
                                    },
                                    None => {},
                                }
                            }
                        }
                    }
                    assert forall|i: int|
                        depths.len() <= i < table.depths@.len() implies (
                    #[trigger] table.depths@[i]) == depth + 1 by {
                        if i < depths_before.len() {
                            assert(table.depths@.take(depths_before.len() as int)[i]
                                == table.depths@[i]);
                        }
                    }
                }
                at += 1;
            }
            proof {
                let later_keys = table.keys();
                let later_depths = table.depths@;
                assert forall|i: int| 0 <= i < later_depths.len() implies #[trigger] later_depths[i]
                    <= depth + 1 by {
                    if i < depths.len() {
                        assert(later_depths.take(depths.len() as int)[i] == later_depths[i]);
                    }
                }
                assert forall|i: int| 0 <= i < later_depths.len() implies (level_end <= i
                    <==> #[trigger] later_depths[i] == depth + 1) by {
                    if i < depths.len() {
                        assert(later_depths.take(depths.len() as int)[i] == later_depths[i]);
                    }
                }
                assert(later_keys.take(keys.len() as int)[0] == later_keys[0]);
                assert(later_depths.take(depths.len() as int)[0] == later_depths[0]);
                if inverses_undo(puzzle, generators@, target_key) {
                    lemma_level_covers(
                        puzzle,
                        generators@,
                        target_key,
                        keys,
                        depths,
                        level_start as int,
                        depth,
                        later_keys,
                        later_depths,
                    );
                }
            }
            level_start = level_end;
            table.radius = depth + 1;
        }
        proof {
            if inverses_undo(puzzle, generators@, target_key) {
                lemma_covering_table_is_admissible(
                    puzzle,
                    generators@,
                    target_key,
                    table.keys(),
                    table.depths@,
                    table.radius,
                );
            }
        }
        Ok(table)
    }

    /// The table's lower bound for `pattern`.
    pub fn lookup(&self, puzzle: &TPuzzle, pattern: &TPuzzle::Pattern) -> (depth: Depth)
        requires
            self.is_indexed(),
        ensures
            depth.0 == self.bound(TPuzzle::pattern_key(pattern)),
    {
        match self.find(puzzle, pattern) {
            Some(at) => {
                proof {
                    lemma_position_is_unique(self.keys(), at as int);
                }
                Depth(self.depths[at])
            },
            None => Depth(self.radius),
        }
    }
}

/// A copy of a list of positions.
fn copy_positions(positions: &Vec<usize>) -> (copy: Vec<usize>)
    ensures
        copy@ == positions@,
{
    let copy = positions.clone();
    assert(copy@ =~= positions@);
    copy
}

} // verus!
