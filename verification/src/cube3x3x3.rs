use crate::canonical_fsm::state_after_forced;
use crate::collapse::collapse_adjacent_moves;
use crate::collapse::collapsed_moves;
use crate::canonical_paths::can_be_solved_within;
use crate::canonical_paths::lemma_search_finds_a_shortest_way;
use crate::canonical_paths::tags_are_sound;
use crate::collapse::has_no_adjacent_family;
use crate::collapse::lemma_collapse_keeps_what_cannot_be_joined;
use crate::collapse::CountedMove;
use crate::idf_search::generators_are_listed;
use crate::idf_search::is_accepted_path;
use crate::idf_search::lemma_search_result_is_accepted;
use crate::idf_search::search_result;
use crate::idf_search::IDFSearch;
use crate::kpuzzle_inverses::inverses_are_stored;
use crate::kpuzzle_inverses::orbits_are_sound;
use crate::kpuzzle_inverses::try_new_with_checked_inverses;
use crate::idf_search::IndividualSearchOptions;
use crate::idf_search::SearchBounds;
use crate::mask_pattern::apply_mask;
use crate::orbits::are_orientations_packable;
use crate::orbits::clone_pattern;
use crate::orbits::orientations_are_packable;
use crate::orbits::num_orientations;
use crate::orbits::num_pieces;
use crate::orbits::orbit_count;
use crate::orbits::orbit_layout;
use crate::orbits::orbit_name_is;
use crate::orbits::orbit_num_orientations;
use crate::orbits::orbit_num_pieces;
use crate::orbits::orbit_slots;
use crate::puzzle_traits::apply_moves;
use crate::prune_table::SearchError;
use crate::puzzle_traits::key_after_moves;
use crate::puzzle_traits::Depth;
use crate::puzzle_traits::MoveTransformationInfo;
use crate::transformations::pattern_orbits;
use crate::puzzle_traits::solves;
use crate::puzzle_traits::MoveTag;
use crate::puzzle_traits::SemiGroupActionPuzzle;
use crate::random::gen_below;
use crate::random::thread_rng;
use crate::randomize::basic_parity;
use crate::randomize::is_randomized_orbit;
use crate::randomize::lemma_identity_order_has_no_duplicates;
use crate::randomize::lemma_orbit_is_randomized;
use crate::randomize::parity_of;
use crate::randomize::pieces_of;
use crate::randomize::randomize_orbit_naive;
use crate::randomize::BasicParity;
use crate::randomize::OrbitOrientationConstraint;
use crate::randomize::OrbitPermutationConstraint;
use crate::randomize::OrbitRandomizationConstraints;
use crate::scramble_search::depth_bounds;
use crate::scramble_search::first_solution;
use crate::scramble_search::is_far_enough;
use crate::traversal_filters::PatternTraversalFilterNoOp;
use crate::traversal_filters::TransformationTraversalFilterNoOp;
use cubing::kpuzzle::KPattern;
use cubing::kpuzzle::KPuzzle;
use vstd::prelude::*;

verus! {

/// Whether a pattern is one that [`random_3x3x3_pattern`] can randomize:
/// its first orbit is named `EDGES` and its second `CORNERS`, both have a
/// piece and orientations that are packable, and the corners are at least
/// two where the edges are.
pub open spec fn can_randomize_cube(pattern: KPattern) -> bool {
    &&& orbit_layout(pattern).len() >= 2
    &&& orbit_layout(pattern)[0].0 == "EDGES"@
    &&& orbit_layout(pattern)[1].0 == "CORNERS"@
    &&& num_pieces(pattern, 0) > 0
    &&& num_pieces(pattern, 1) > 0
    &&& orientations_are_packable(num_orientations(pattern, 0))
    &&& orientations_are_packable(num_orientations(pattern, 1))
    &&& num_pieces(pattern, 0) >= 2 ==> num_pieces(pattern, 1) >= 2
}

/// Whether `scramble_pattern` is a random pattern made from `pattern`: a
/// pattern of the same puzzle whose edges and corners are each in a random
/// state, the corners in an order of the same parity as the edges, and
/// whose other orbits are those of `pattern`.
pub open spec fn is_randomized_cube(pattern: KPattern, scramble_pattern: KPattern) -> bool {
    &&& orbit_layout(scramble_pattern) == orbit_layout(pattern)
    &&& orbit_slots(scramble_pattern).len() == orbit_slots(pattern).len()
    &&& forall|other: int|
        2 <= other < orbit_slots(pattern).len() ==> #[trigger] orbit_slots(scramble_pattern)[other]
            == orbit_slots(pattern)[other]
    &&& is_randomized_orbit(
        orbit_slots(scramble_pattern)[0],
        num_pieces(pattern, 0),
        num_orientations(pattern, 0),
    )
    &&& is_randomized_orbit(
        orbit_slots(scramble_pattern)[1],
        num_pieces(pattern, 1),
        num_orientations(pattern, 1),
    )
    &&& parity_of(pieces_of(orbit_slots(scramble_pattern)[1])) == parity_of(
        pieces_of(orbit_slots(scramble_pattern)[0]),
    )
}

/// A random pattern of the cube, made from a pattern of it, most often the
/// solved one: the edges are put in a random order with random
/// orientations that sum to zero, then the corners in a random order of
/// the same parity as the edges, with random orientations that sum to
/// zero. Every other orbit is left as it is.
///
/// `None` where the pattern cannot be randomized so.
pub fn random_3x3x3_pattern(pattern: KPattern) -> (randomized: Option<KPattern>)
    ensures
        match randomized {
            Some(scramble_pattern) => can_randomize_cube(pattern) && is_randomized_cube(
                pattern,
                scramble_pattern,
            ),
            None => !can_randomize_cube(pattern),
        },
{
    if orbit_count(&pattern) < 2 {
        return None;
    }
    if !orbit_name_is(&pattern, 0, "EDGES") || !orbit_name_is(&pattern, 1, "CORNERS") {
        return None;
    }
    let edges: u8 = orbit_num_pieces(&pattern, 0);
    let corners: u8 = orbit_num_pieces(&pattern, 1);
    let corner_orientations: u8 = orbit_num_orientations(&pattern, 1);
    if edges == 0 || corners == 0 || !are_orientations_packable(orbit_num_orientations(&pattern, 0))
        || !are_orientations_packable(corner_orientations) || (edges >= 2 && corners < 2) {
        return None;
    }
    let mut scramble_pattern = pattern;
    let edge_constraints = OrbitRandomizationConstraints {
        permutation: None,
        orientation: Some(OrbitOrientationConstraint::SumToZero),
        first_piece: None,
        subset: None,
    };
    let ghost edges_before = orbit_slots(scramble_pattern)[0];
    let edge_order = randomize_orbit_naive(&mut scramble_pattern, 0, "EDGES", edge_constraints);
    let ghost edge_slots = orbit_slots(scramble_pattern)[0];
    proof {
        lemma_identity_order_has_no_duplicates(edges);
        assert(edge_order@.skip(0) =~= edge_order@);
        lemma_orbit_is_randomized(
            edge_constraints,
            edges_before,
            edge_slots,
            edges,
            num_orientations(pattern, 0),
            edge_order@,
        );
        if edges < 2 {
            crate::randomize::lemma_short_order_is_even(edge_order@);
        }
    }
    let each_orbit_parity = basic_parity(edge_order.as_slice());
    let corner_constraints = OrbitRandomizationConstraints {
        permutation: Some(
            match each_orbit_parity {
                BasicParity::Even => OrbitPermutationConstraint::EvenParity,
                BasicParity::Odd => OrbitPermutationConstraint::OddParity,
            },
        ),
        orientation: Some(OrbitOrientationConstraint::SumToZero),
        first_piece: None,
        subset: None,
    };
    let ghost corners_before = orbit_slots(scramble_pattern)[1];
    let corner_order = randomize_orbit_naive(
        &mut scramble_pattern,
        1,
        "CORNERS",
        corner_constraints,
    );
    proof {
        lemma_identity_order_has_no_duplicates(corners);
        assert(corner_order@.skip(0) =~= corner_order@);
        lemma_orbit_is_randomized(
            corner_constraints,
            corners_before,
            orbit_slots(scramble_pattern)[1],
            corners,
            corner_orientations,
            corner_order@,
        );
        assert(orbit_slots(scramble_pattern)[0] == edge_slots);
    }
    Some(scramble_pattern)
}

/// The moves that are forced around a solution.
#[derive(Clone, Copy, Debug)]
pub enum PrefixOrSuffixConstraints {
    /// No move is forced.
    Unconstrained,
    /// The solution stands between fixed moves: `pre_move` is the tag of
    /// the last move before it, `post_move` that of the first move after
    /// it.
    ForFMC { pre_move: MoveTag, post_move: MoveTag },
}

/// A solution in two phases, each as the positions of its moves in the
/// generators of its phase.
pub struct TwoPhaseSolution {
    pub phase1: Vec<usize>,
    pub phase2: Vec<usize>,
}

/// The searches of the two-phase solver of the cube: one that tells
/// whether a pattern is too close to solved, one for each phase, and the
/// target of the first phase, which is the mask of that phase as well.
pub struct Scramble3x3x3TwoPhase {
    pub filtering_idfs: IDFSearch<KPuzzle>,
    pub phase1_target_pattern: KPattern,
    pub phase1_idfs: IDFSearch<KPuzzle>,
    pub phase2_idfs: IDFSearch<KPuzzle>,
}

/// The bounds of the search of the first phase: one solution of any
/// length, between the forced moves.
pub open spec fn phase1_bounds(constraints: PrefixOrSuffixConstraints) -> SearchBounds {
    SearchBounds {
        limit: 1,
        least_depth: 0,
        greatest_depth: usize::MAX as nat,
        pre_moves: match constraints {
            PrefixOrSuffixConstraints::Unconstrained => Seq::empty(),
            PrefixOrSuffixConstraints::ForFMC { pre_move, post_move } => seq![pre_move],
        },
        post_moves: match constraints {
            PrefixOrSuffixConstraints::Unconstrained => Seq::empty(),
            PrefixOrSuffixConstraints::ForFMC { pre_move, post_move } => seq![post_move],
        },
    }
}

/// The bounds of the search of the second phase: one solution of any
/// length, with no forced moves.
pub open spec fn phase2_bounds() -> SearchBounds {
    SearchBounds {
        limit: 1,
        least_depth: 0,
        greatest_depth: usize::MAX as nat,
        pre_moves: Seq::empty(),
        post_moves: Seq::empty(),
    }
}

/// The number of entries from which on the prune table of the filtering
/// search grows no more.
pub const FILTERING_PRUNE_TABLE_SIZE: usize = 32;

/// The number of entries from which on the prune table of a phase grows
/// no more.
pub const PHASE_PRUNE_TABLE_SIZE: usize = 16_777_216;

impl Scramble3x3x3TwoPhase {
    /// Whether each of the three searches is well formed.
    pub open spec fn wf(&self) -> bool {
        &&& self.filtering_idfs.wf()
        &&& self.phase1_idfs.wf()
        &&& self.phase2_idfs.wf()
    }

    /// Sets up the three searches: the filtering search and the search of
    /// the second phase for `solved`, the search of the first phase for
    /// `phase1_target_pattern`. Each takes its own copy of the puzzle and
    /// its own list of generators, whose inverses are checked, so that the
    /// prune table of each search is admissible.
    pub fn try_new(
        filtering: (KPuzzle, Vec<MoveTransformationInfo<KPuzzle>>),
        phase1: (KPuzzle, Vec<MoveTransformationInfo<KPuzzle>>),
        phase2: (KPuzzle, Vec<MoveTransformationInfo<KPuzzle>>),
        solved: &KPattern,
        phase1_target_pattern: KPattern,
    ) -> (outcome: Result<Self, SearchError>)
        ensures
            match outcome {
                Ok(solver) => {
                    &&& solver.wf()
                    &&& solver.filtering_idfs.prunes_admissibly()
                    &&& solver.phase1_idfs.prunes_admissibly()
                    &&& solver.phase2_idfs.prunes_admissibly()
                    &&& solver.filtering_idfs.generators == filtering.1
                    &&& solver.phase1_idfs.generators == phase1.1
                    &&& solver.phase2_idfs.generators == phase2.1
                    &&& solver.filtering_idfs.target() == pattern_orbits(*solved)
                    &&& solver.phase1_idfs.target() == pattern_orbits(phase1_target_pattern)
                    &&& solver.phase2_idfs.target() == pattern_orbits(*solved)
                    &&& solver.phase1_target_pattern == phase1_target_pattern
                },
                Err(SearchError::MalformedGenerators) => !generators_are_listed(filtering.1@)
                    || !generators_are_listed(phase1.1@) || !generators_are_listed(phase2.1@),
                Err(SearchError::InconsistentPuzzle) => {
                    ||| !orbits_are_sound(pattern_orbits(*solved))
                    ||| !orbits_are_sound(pattern_orbits(phase1_target_pattern))
                    ||| !inverses_are_stored(filtering.1@, pattern_orbits(*solved))
                    ||| !inverses_are_stored(phase1.1@, pattern_orbits(phase1_target_pattern))
                    ||| !inverses_are_stored(phase2.1@, pattern_orbits(*solved))
                },
            },
    {
        let filtering_idfs = match try_new_with_checked_inverses(
            filtering.0,
            filtering.1,
            clone_pattern(solved),
            Depth(usize::MAX),
            FILTERING_PRUNE_TABLE_SIZE,
        ) {
            Ok(search) => search,
            Err(error) => {
                return Err(error);
            },
        };
        let phase1_idfs = match try_new_with_checked_inverses(
            phase1.0,
            phase1.1,
            clone_pattern(&phase1_target_pattern),
            Depth(usize::MAX),
            PHASE_PRUNE_TABLE_SIZE,
        ) {
            Ok(search) => search,
            Err(error) => {
                return Err(error);
            },
        };
        let phase2_idfs = match try_new_with_checked_inverses(
            phase2.0,
            phase2.1,
            clone_pattern(solved),
            Depth(usize::MAX),
            PHASE_PRUNE_TABLE_SIZE,
        ) {
            Ok(search) => search,
            Err(error) => {
                return Err(error);
            },
        };
        Ok(Scramble3x3x3TwoPhase { filtering_idfs, phase1_target_pattern, phase1_idfs, phase2_idfs })
    }

    /// Whether `solution` solves `pattern` in two phases: its first phase
    /// is an accepted path of the first search from `pattern` under the
    /// mask of the first phase, and its second phase is an accepted path of
    /// the second search from the pattern that the moves of the first
    /// phase lead to from `pattern` itself.
    pub open spec fn is_solved_by(
        &self,
        pattern: KPattern,
        constraints: PrefixOrSuffixConstraints,
        phase1: Seq<usize>,
        phase2: Seq<usize>,
    ) -> bool {
        &&& is_accepted_path::<
            KPuzzle,
            TransformationTraversalFilterNoOp,
            PatternTraversalFilterNoOp,
        >(
            &self.phase1_idfs.puzzle,
            self.phase1_idfs.generators@,
            self.phase1_idfs.target(),
            phase1_bounds(constraints).post_moves,
            crate::mask_pattern::masked_orbits(pattern, self.phase1_target_pattern),
            state_after_forced(phase1_bounds(constraints).pre_moves),
            phase1,
        )
        &&& key_after_moves(
            &self.phase1_idfs.puzzle,
            self.phase1_idfs.generators@,
            KPuzzle::pattern_key(&pattern),
            phase1,
        ) matches Some(middle) && is_accepted_path::<
            KPuzzle,
            TransformationTraversalFilterNoOp,
            PatternTraversalFilterNoOp,
        >(
            &self.phase2_idfs.puzzle,
            self.phase2_idfs.generators@,
            self.phase2_idfs.target(),
            Seq::empty(),
            middle,
            state_after_forced(Seq::empty()),
            phase2,
        )
    }

    /// What the two searches find for `pattern`, where their prune tables
    /// are admissible: the first solution of each phase, or `None` where
    /// the mask does not fit the pattern, a phase has no solution or the
    /// moves of the first phase cannot be applied to the pattern.
    pub open spec fn two_phase_result(
        &self,
        pattern: KPattern,
        constraints: PrefixOrSuffixConstraints,
    ) -> Option<(Seq<usize>, Seq<usize>)> {
        let first = search_result::<
            KPuzzle,
            TransformationTraversalFilterNoOp,
            PatternTraversalFilterNoOp,
        >(
            &self.phase1_idfs.puzzle,
            self.phase1_idfs.generators@,
            self.phase1_idfs.target(),
            crate::mask_pattern::masked_orbits(pattern, self.phase1_target_pattern),
            phase1_bounds(constraints),
        );
        if !crate::mask_pattern::mask_fits(pattern, self.phase1_target_pattern)
            || first.len() == 0 {
            None
        } else {
            match key_after_moves(
                &self.phase1_idfs.puzzle,
                self.phase1_idfs.generators@,
                KPuzzle::pattern_key(&pattern),
                first[0],
            ) {
                None => None,
                Some(middle) => {
                    let second = search_result::<
                        KPuzzle,
                        TransformationTraversalFilterNoOp,
                        PatternTraversalFilterNoOp,
                    >(
                        &self.phase2_idfs.puzzle,
                        self.phase2_idfs.generators@,
                        self.phase2_idfs.target(),
                        middle,
                        phase2_bounds(),
                    );
                    if second.len() == 0 {
                        None
                    } else {
                        Some((first[0], second[0]))
                    }
                },
            }
        }
    }

    /// Solves `pattern` in two phases: a search from the pattern under the
    /// mask of the first phase to the target of that phase, then a search
    /// from the pattern that the moves found lead to, to the target of the
    /// second phase.
    pub fn solve_3x3x3_pattern(
        &self,
        pattern: &KPattern,
        constraints: PrefixOrSuffixConstraints,
    ) -> (solution: Option<TwoPhaseSolution>)
        requires
            self.wf(),
        ensures
            solution matches Some(found) ==> self.is_solved_by(
                *pattern,
                constraints,
                found.phase1@,
                found.phase2@,
            ),
            self.phase1_idfs.prunes_admissibly() && self.phase2_idfs.prunes_admissibly() ==> (
            match solution {
                Some(found) => Some((found.phase1@, found.phase2@)),
                None => None,
            }) == self.two_phase_result(*pattern, constraints),
    {
        let (canonical_fsm_pre_moves, canonical_fsm_post_moves) = match constraints {
            PrefixOrSuffixConstraints::Unconstrained => (None, None),
            PrefixOrSuffixConstraints::ForFMC { pre_move, post_move } => {
                let mut pre_moves: Vec<MoveTag> = Vec::new();
                pre_moves.push(pre_move);
                let mut post_moves: Vec<MoveTag> = Vec::new();
                post_moves.push(post_move);
                (Some(pre_moves), Some(post_moves))
            },
        };
        let options = IndividualSearchOptions {
            min_num_solutions: Some(1),
            min_depth: None,
            max_depth: None,
            canonical_fsm_pre_moves,
            canonical_fsm_post_moves,
        };
        proof {
            match constraints {
                PrefixOrSuffixConstraints::Unconstrained => {},
                PrefixOrSuffixConstraints::ForFMC { pre_move, post_move } => {
                    assert(canonical_fsm_pre_moves.unwrap()@ =~= seq![pre_move]);
                    assert(canonical_fsm_post_moves.unwrap()@ =~= seq![post_move]);
                },
            }
            assert(options.bounds() == phase1_bounds(constraints));
        }
        let phase1_search_pattern = match apply_mask(pattern, &self.phase1_target_pattern) {
            Ok(masked) => masked,
            Err(_) => {
                return None;
            },
        };
        let phase1 = match first_solution::<
            KPuzzle,
            TransformationTraversalFilterNoOp,
            PatternTraversalFilterNoOp,
        >(&self.phase1_idfs, &phase1_search_pattern, options) {
            Some(moves) => moves,
            None => {
                return None;
            },
        };
        let phase2_search_pattern = match apply_moves(
            &self.phase1_idfs.puzzle,
            &self.phase1_idfs.generators,
            pattern,
            &phase1,
        ) {
            Some(reached) => reached,
            None => {
                return None;
            },
        };
        let phase2_options = IndividualSearchOptions {
            min_num_solutions: Some(1),
            min_depth: None,
            max_depth: None,
            canonical_fsm_pre_moves: None,
            canonical_fsm_post_moves: None,
        };
        let phase2 = match first_solution::<
            KPuzzle,
            TransformationTraversalFilterNoOp,
            PatternTraversalFilterNoOp,
        >(&self.phase2_idfs, &phase2_search_pattern, phase2_options) {
            Some(moves) => moves,
            None => {
                return None;
            },
        };
        Some(TwoPhaseSolution { phase1, phase2 })
    }

    /// Whether the prune table of each of the three searches is admissible.
    pub open spec fn prunes_admissibly(&self) -> bool {
        &&& self.filtering_idfs.prunes_admissibly()
        &&& self.phase1_idfs.prunes_admissibly()
        &&& self.phase2_idfs.prunes_admissibly()
    }

    /// Whether the filtering search, its prune table being admissible,
    /// finds no solution of at most two moves for `pattern`.
    pub open spec fn is_far_from_solved(&self, pattern: KPattern) -> bool {
        search_result::<KPuzzle, TransformationTraversalFilterNoOp, PatternTraversalFilterNoOp>(
            &self.filtering_idfs.puzzle,
            self.filtering_idfs.generators@,
            self.filtering_idfs.target(),
            KPuzzle::pattern_key(&pattern),
            depth_bounds(0, Some(2usize)),
        ).len() == 0
    }

    /// Whether every random pattern that can be made from `solved` is far
    /// from solved and is solved by the two phases.
    pub open spec fn every_pattern_has_scramble(
        &self,
        solved: KPattern,
        constraints: PrefixOrSuffixConstraints,
    ) -> bool {
        forall|scramble_pattern: KPattern| #[trigger]
            is_randomized_cube(solved, scramble_pattern) ==> self.is_far_from_solved(
                scramble_pattern,
            ) && self.two_phase_result(scramble_pattern, constraints) is Some
    }

    /// Makes random patterns from `solved` until one is far enough from
    /// solved, and solves it: returns the pattern and its solution. At most
    /// `max_attempts` patterns are made.
    ///
    /// `None` where `solved` cannot be randomized, where no attempt gave a
    /// pattern that may be handed out, or where the pattern found has no
    /// solution. Which patterns the attempts give is a matter of chance;
    /// where the prune tables are admissible, the pattern returned is far
    /// from solved and the solution returned is what
    /// [`Scramble3x3x3TwoPhase::two_phase_result`] gives for it, and a
    /// scramble is owed where at least one attempt is made and every
    /// pattern that an attempt can give has one.
    pub fn scramble_3x3x3(
        &self,
        solved: &KPattern,
        constraints: PrefixOrSuffixConstraints,
        max_attempts: usize,
    ) -> (scramble: Option<(KPattern, TwoPhaseSolution)>)
        requires
            self.wf(),
        ensures
            scramble matches Some((scramble_pattern, solution)) ==> {
                &&& can_randomize_cube(*solved)
                &&& is_randomized_cube(*solved, scramble_pattern)
                &&& self.is_solved_by(
                    scramble_pattern,
                    constraints,
                    solution.phase1@,
                    solution.phase2@,
                )
                &&& self.filtering_idfs.prunes_admissibly() ==> self.is_far_from_solved(
                    scramble_pattern,
                )
                &&& self.phase1_idfs.prunes_admissibly() && self.phase2_idfs.prunes_admissibly()
                    ==> self.two_phase_result(scramble_pattern, constraints) == Some(
                    (solution.phase1@, solution.phase2@),
                )
            },
            !can_randomize_cube(*solved) || max_attempts == 0 ==> scramble is None,
            self.prunes_admissibly() && can_randomize_cube(*solved) && max_attempts > 0
                && self.every_pattern_has_scramble(*solved, constraints) ==> scramble is Some,
    {
        let mut attempts: usize = 0;
        while attempts < max_attempts
            invariant
                self.wf(),
                self.prunes_admissibly() && can_randomize_cube(*solved)
                    && self.every_pattern_has_scramble(*solved, constraints) ==> attempts == 0,
            decreases max_attempts - attempts,
        {
            attempts += 1;
            let scramble_pattern = match random_3x3x3_pattern(clone_pattern(solved)) {
                Some(scramble_pattern) => scramble_pattern,
                None => {
                    return None;
                },
            };
            assert(is_randomized_cube(*solved, scramble_pattern));
            if !self.is_valid_scramble_pattern(&scramble_pattern) {
                continue ;
            }
            return match self.solve_3x3x3_pattern(&scramble_pattern, constraints) {
                Some(solution) => Some((scramble_pattern, solution)),
                None => None,
            };
        }
        None
    }

    /// Whether a pattern may be handed out as a scramble: whether the
    /// filtering search finds no solution of at most two moves for it.
    /// Where the tags of its generators are sound, that is whether the
    /// pattern is more than two moves from solved.
    pub fn is_valid_scramble_pattern(&self, pattern: &KPattern) -> (valid: bool)
        requires
            self.wf(),
        ensures
            !valid ==> exists|moves: Seq<usize>|
                moves.len() <= 2 && #[trigger] is_accepted_path::<
                    KPuzzle,
                    TransformationTraversalFilterNoOp,
                    PatternTraversalFilterNoOp,
                >(
                    &self.filtering_idfs.puzzle,
                    self.filtering_idfs.generators@,
                    self.filtering_idfs.target(),
                    Seq::empty(),
                    KPuzzle::pattern_key(pattern),
                    state_after_forced(Seq::empty()),
                    moves,
                ),
            self.filtering_idfs.prunes_admissibly() ==> valid == self.is_far_from_solved(*pattern),
            self.filtering_idfs.prunes_admissibly() && tags_are_sound(
                &self.filtering_idfs.puzzle,
                self.filtering_idfs.generators@,
            ) ==> valid == !can_be_solved_within(
                &self.filtering_idfs.puzzle,
                self.filtering_idfs.generators@,
                KPuzzle::pattern_key(pattern),
                self.filtering_idfs.target(),
                2,
            ),
    {
        is_far_enough(&self.filtering_idfs, pattern, 3)
    }
}

/// Where the tags of the generators of a phase are sound, the solution
/// that the two phases find is a shortest way to the target in each phase:
/// no sequence `other` of moves of the phase that leads there is shorter.
/// For the first phase this holds where no move is forced.
pub proof fn lemma_phases_are_shortest(
    solver: &Scramble3x3x3TwoPhase,
    pattern: KPattern,
    constraints: PrefixOrSuffixConstraints,
    phase1: Seq<usize>,
    phase2: Seq<usize>,
    other: Seq<usize>,
)
    requires
        solver.two_phase_result(pattern, constraints) == Some((phase1, phase2)),
    ensures
        constraints is Unconstrained && tags_are_sound(
            &solver.phase1_idfs.puzzle,
            solver.phase1_idfs.generators@,
        ) && solves(
            &solver.phase1_idfs.puzzle,
            solver.phase1_idfs.generators@,
            crate::mask_pattern::masked_orbits(pattern, solver.phase1_target_pattern),
            other,
            solver.phase1_idfs.target(),
        ) ==> phase1.len() <= other.len(),
        tags_are_sound(&solver.phase2_idfs.puzzle, solver.phase2_idfs.generators@) && (
        key_after_moves(
            &solver.phase1_idfs.puzzle,
            solver.phase1_idfs.generators@,
            KPuzzle::pattern_key(&pattern),
            phase1,
        ) matches Some(middle) && solves(
            &solver.phase2_idfs.puzzle,
            solver.phase2_idfs.generators@,
            middle,
            other,
            solver.phase2_idfs.target(),
        )) ==> phase2.len() <= other.len(),
{
    let masked = crate::mask_pattern::masked_orbits(pattern, solver.phase1_target_pattern);
    assert(solver.phase1_idfs.generators@.len() == solver.phase1_idfs.generators.len());
    assert(solver.phase2_idfs.generators@.len() == solver.phase2_idfs.generators.len());
    lemma_search_result_is_accepted::<
        KPuzzle,
        TransformationTraversalFilterNoOp,
        PatternTraversalFilterNoOp,
    >(
        &solver.phase1_idfs.puzzle,
        solver.phase1_idfs.generators@,
        solver.phase1_idfs.target(),
        masked,
        phase1_bounds(constraints),
        0,
    );
    if constraints is Unconstrained && other.len() <= usize::MAX && tags_are_sound(
        &solver.phase1_idfs.puzzle,
        solver.phase1_idfs.generators@,
    ) && solves(
        &solver.phase1_idfs.puzzle,
        solver.phase1_idfs.generators@,
        masked,
        other,
        solver.phase1_idfs.target(),
    ) {
        lemma_search_finds_a_shortest_way(
            &solver.phase1_idfs.puzzle,
            solver.phase1_idfs.generators@,
            solver.phase1_idfs.target(),
            masked,
            phase1_bounds(constraints),
            other,
        );
    }
    let middle = key_after_moves(
        &solver.phase1_idfs.puzzle,
        solver.phase1_idfs.generators@,
        KPuzzle::pattern_key(&pattern),
        phase1,
    ).unwrap();
    lemma_search_result_is_accepted::<
        KPuzzle,
        TransformationTraversalFilterNoOp,
        PatternTraversalFilterNoOp,
    >(
        &solver.phase2_idfs.puzzle,
        solver.phase2_idfs.generators@,
        solver.phase2_idfs.target(),
        middle,
        phase2_bounds(),
        0,
    );
    if other.len() <= usize::MAX && tags_are_sound(
        &solver.phase2_idfs.puzzle,
        solver.phase2_idfs.generators@,
    ) && solves(
        &solver.phase2_idfs.puzzle,
        solver.phase2_idfs.generators@,
        middle,
        other,
        solver.phase2_idfs.target(),
    ) {
        lemma_search_finds_a_shortest_way(
            &solver.phase2_idfs.puzzle,
            solver.phase2_idfs.generators@,
            solver.phase2_idfs.target(),
            middle,
            phase2_bounds(),
            other,
        );
    }
}

/// The number of turns of a face of the cube that bring it back.
pub const TURNS_PER_FACE: i32 = 4;

/// The least amount that a collapsed turn of a face is written with: a
/// quarter turn back.
pub const LEAST_TURN: i32 = -1;

/// The number of endings that a scramble for blindfolded solving can get
/// first: none, or one of five wide moves.
pub const BLD_FIRST_SUFFIXES: u8 = 6;

/// The number of endings that a scramble for blindfolded solving can get
/// after the first: none, or one of three wide moves.
pub const BLD_SECOND_SUFFIXES: u8 = 4;

/// The moves of a scramble for fewest moves: `affix`, then `scramble`,
/// then `affix` again, with neighbouring turns of one face joined. Where
/// no two neighbours are turns of one face, the affix stands unchanged at
/// both ends.
pub fn scramble_3x3x3_fmc(affix: &Vec<CountedMove>, scramble: &Vec<CountedMove>) -> (moves: Vec<
    CountedMove,
>)
    ensures
        moves@ == collapsed_moves(
            affix@ + scramble@ + affix@,
            (2 * affix@.len() + scramble@.len()) as int,
            TURNS_PER_FACE as int,
            LEAST_TURN as int,
        ),
        has_no_adjacent_family(moves@),
        has_no_adjacent_family(affix@ + scramble@ + affix@) ==> moves@ == affix@ + scramble@
            + affix@,
{
    let mut nodes: Vec<CountedMove> = Vec::new();
    append_moves(&mut nodes, affix);
    append_moves(&mut nodes, scramble);
    append_moves(&mut nodes, affix);
    proof {
        if has_no_adjacent_family(nodes@) {
            lemma_collapse_keeps_what_cannot_be_joined(
                nodes@,
                nodes@.len() as int,
                TURNS_PER_FACE as int,
                LEAST_TURN as int,
            );
            assert(nodes@.take(nodes@.len() as int) =~= nodes@);
        }
    }
    collapse_adjacent_moves(&nodes, TURNS_PER_FACE, LEAST_TURN)
}

/// Appends `more` to `moves`.
fn append_moves(moves: &mut Vec<CountedMove>, more: &Vec<CountedMove>)
    ensures
        final(moves)@ == old(moves)@ + more@,
{
    let mut done: usize = 0;
    while done < more.len()
        invariant
            done <= more@.len(),
            moves@ == old(moves)@ + more@.take(done as int),
        decreases more@.len() - done,
    {
        moves.push(more[done]);
        done += 1;
        assert(moves@ =~= old(moves)@ + more@.take(done as int));
    }
    assert(more@.take(more@.len() as int) =~= more@);
}

/// The endings of a scramble for blindfolded solving, drawn at random:
/// which of the first endings and which of the second, 0 standing for
/// none.
pub fn scramble_3x3x3_bld() -> (endings: (u8, u8))
    ensures
        endings.0 < BLD_FIRST_SUFFIXES,
        endings.1 < BLD_SECOND_SUFFIXES,
{
    let mut rng = thread_rng();
    let first = gen_below(&mut rng, BLD_FIRST_SUFFIXES);
    let second = gen_below(&mut rng, BLD_SECOND_SUFFIXES);
    (first, second)
}

} // verus!
