use crate::canonical_fsm::state_after_forced;
use crate::idf_search::is_accepted_path;
use crate::idf_search::IDFSearch;
use crate::orbits::are_orientations_packable;
use crate::orbits::clone_pattern;
use crate::orbits::orientations_are_packable;
use crate::orbits::num_orientations;
use crate::orbits::num_pieces;
use crate::orbits::orbit_count;
use crate::orbits::orbit_layout;
use crate::orbits::orbit_name_is;
use crate::orbits::orbit_num_orientations;
use crate::orbits::orbit_num_pieces;
use crate::orbits::orbit_slots;
use crate::orbits::IGNORED_ORIENTATION_MOD;
use crate::puzzle_traits::SemiGroupActionPuzzle;
use crate::randomize::assignment_follows;
use crate::randomize::entry_follows;
use crate::randomize::identity_order;
use crate::randomize::is_randomized_orbit;
use crate::randomize::lemma_identity_order_has_no_duplicates;
use crate::randomize::lemma_orbit_is_randomized;
use crate::randomize::lemma_whole_orbit_is_written;
use crate::randomize::parity_of;
use crate::randomize::pieces_of;
use crate::randomize::randomize_orbit_naive;
use crate::randomize::write_slots;
use crate::randomize::BasicParity;
use crate::randomize::ConstraintForFirstPiece;
use crate::randomize::OrbitOrientationConstraint;
use crate::randomize::OrbitPermutationConstraint;
use crate::randomize::OrbitRandomizationConstraints;
use crate::scramble_search::filtered_result;
use crate::scramble_search::filtered_search;
use crate::traversal_filters::PatternTraversalFilterNoOp;
use crate::traversal_filters::TransformationTraversalFilterNoOp;
use cubing::kpuzzle::KPattern;
use cubing::kpuzzle::KPuzzle;
use vstd::prelude::*;

verus! {

/// The least number of moves that a scramble pattern must be away from
/// solved.
pub const MIN_OPTIMAL_MOVES: usize = 7;

/// The least number of moves of a scramble.
pub const MIN_SCRAMBLE_MOVES: usize = 11;

/// Whether a pattern is one that [`random_skewb_pattern`] can randomize:
/// its first three orbits are named `CORNERS1`, `CORNERS2` and `CENTERS`,
/// and each has a piece and orientations that are packable.
pub open spec fn can_randomize_skewb(pattern: KPattern) -> bool {
    &&& orbit_layout(pattern).len() >= 3
    &&& orbit_layout(pattern)[0].0 == "CORNERS1"@
    &&& orbit_layout(pattern)[1].0 == "CORNERS2"@
    &&& orbit_layout(pattern)[2].0 == "CENTERS"@
    &&& forall|orbit: int|
        #![trigger orbit_layout(pattern)[orbit]]
        0 <= orbit < 3 ==> num_pieces(pattern, orbit) > 0 && orientations_are_packable(
            num_orientations(pattern, orbit),
        )
}

/// Whether the slots of an orbit hold a random state whose first piece has
/// an ignored orientation: every piece of the orbit once, piece 0 with the
/// ignored orientation and every other piece with an orientation of the
/// orbit.
pub open spec fn is_randomized_orbit_but_first(
    slots: Seq<(u8, u8, u8)>,
    pieces: u8,
    orientations: u8,
) -> bool {
    &&& slots.len() == pieces
    &&& pieces_of(slots).to_multiset() == identity_order(pieces as nat).to_multiset()
    &&& forall|slot: int|
        0 <= slot < slots.len() ==> if (#[trigger] slots[slot]).0 == 0 {
            slots[slot].1 == 0 && slots[slot].2 == IGNORED_ORIENTATION_MOD
        } else {
            slots[slot].1 < orientations && slots[slot].2 == 0
        }
}

/// Whether `scramble_pattern` is a random pattern made from `pattern`: a
/// pattern of the same puzzle whose two corner orbits are in a random
/// state with the orientation of piece 0 ignored, whose centers are in a
/// random state, each of the three in an order of even parity, and whose
/// other orbits are those of `pattern`.
pub open spec fn is_randomized_skewb(pattern: KPattern, scramble_pattern: KPattern) -> bool {
    &&& orbit_layout(scramble_pattern) == orbit_layout(pattern)
    &&& orbit_slots(scramble_pattern).len() == orbit_slots(pattern).len()
    &&& forall|other: int|
        3 <= other < orbit_slots(pattern).len() ==> #[trigger] orbit_slots(scramble_pattern)[other]
            == orbit_slots(pattern)[other]
    &&& is_randomized_orbit_but_first(
        orbit_slots(scramble_pattern)[0],
        num_pieces(pattern, 0),
        num_orientations(pattern, 0),
    )
    &&& is_randomized_orbit_but_first(
        orbit_slots(scramble_pattern)[1],
        num_pieces(pattern, 1),
        num_orientations(pattern, 1),
    )
    &&& is_randomized_orbit(
        orbit_slots(scramble_pattern)[2],
        num_pieces(pattern, 2),
        num_orientations(pattern, 2),
    )
    &&& forall|orbit: int|
        0 <= orbit < 3 ==> parity_of(pieces_of(#[trigger] orbit_slots(scramble_pattern)[orbit]))
            == BasicParity::Even
}

/// What a call that randomizes a whole orbit and marks the orientation of
/// its first piece as ignored leaves in the orbit.
proof fn lemma_orbit_is_randomized_but_first(
    constraints: OrbitRandomizationConstraints,
    before: Seq<(u8, u8, u8)>,
    after: Seq<(u8, u8, u8)>,
    pieces: u8,
    orientations: u8,
    order: Seq<u8>,
)
    requires
        pieces > 0,
        constraints.subset is None,
        constraints.first_piece == Some(ConstraintForFirstPiece::IgnoredOrientation),
        constraints.orientation is None,
        before.len() == pieces,
        order.len() == pieces,
        order.to_multiset() == identity_order(pieces as nat).to_multiset(),
        pieces_of(after) == order,
        exists|values: Seq<(u8, u8, u8)>|
            {
                &&& #[trigger] assignment_follows(
                    constraints,
                    orientations,
                    identity_order(pieces as nat)[0],
                    order,
                    values,
                )
                &&& after == write_slots(before, identity_order(pieces as nat), values)
            },
    ensures
        is_randomized_orbit_but_first(after, pieces, orientations),
{
    let values = choose|values: Seq<(u8, u8, u8)>|
        {
            &&& #[trigger] assignment_follows(
                constraints,
                orientations,
                identity_order(pieces as nat)[0],
                order,
                values,
            )
            &&& after == write_slots(before, identity_order(pieces as nat), values)
        };
    lemma_whole_orbit_is_written(before, values);
    assert forall|slot: int| 0 <= slot < after.len() implies if (#[trigger] after[slot]).0 == 0 {
        after[slot].1 == 0 && after[slot].2 == IGNORED_ORIENTATION_MOD
    } else {
        after[slot].1 < orientations && after[slot].2 == 0
    } by {
        assert(entry_follows(
            constraints,
            orientations,
            identity_order(pieces as nat)[0],
            order,
            values,
            slot,
        ));
    }
}

/// A random pattern of the Skewb, made from a pattern of it, most often
/// the solved one. Each corner orbit is put in a random order of even
/// parity, with random orientations but for piece 0, whose orientation is
/// marked as ignored: it follows from the other orbit. The centers are put
/// in a random order of even parity, with orientations that sum to zero.
///
/// `None` where the pattern cannot be randomized so.
pub fn random_skewb_pattern(pattern: KPattern) -> (randomized: Option<KPattern>)
    ensures
        match randomized {
            Some(scramble_pattern) => can_randomize_skewb(pattern) && is_randomized_skewb(
                pattern,
                scramble_pattern,
            ),
            None => !can_randomize_skewb(pattern),
        },
{
    if orbit_count(&pattern) < 3 {
        return None;
    }
    if !orbit_name_is(&pattern, 0, "CORNERS1") || !orbit_name_is(&pattern, 1, "CORNERS2")
        || !orbit_name_is(&pattern, 2, "CENTERS") {
        return None;
    }
    let mut orbit: usize = 0;
    while orbit < 3
        invariant
            orbit <= 3 <= orbit_layout(pattern).len(),
            forall|checked: int|
                #![trigger orbit_layout(pattern)[checked]]
                0 <= checked < orbit ==> num_pieces(pattern, checked) > 0
                    && orientations_are_packable(num_orientations(pattern, checked))
                    && orbit_slots(pattern)[checked].len() == num_pieces(pattern, checked),
        decreases 3 - orbit,
    {
        if orbit_num_pieces(&pattern, orbit) == 0 || !are_orientations_packable(
            orbit_num_orientations(&pattern, orbit),
        ) {
            return None;
        }
        orbit += 1;
    }
    let mut scramble_pattern = pattern;

    let corner_constraints = OrbitRandomizationConstraints {
        permutation: Some(OrbitPermutationConstraint::SingleOrbitEvenParity),
        orientation: None,
        first_piece: Some(ConstraintForFirstPiece::IgnoredOrientation),
        subset: None,
    };
    let ghost pieces1 = num_pieces(pattern, 0);
    let ghost before1 = orbit_slots(scramble_pattern)[0];
    let order1 = randomize_orbit_naive(&mut scramble_pattern, 0, "CORNERS1", corner_constraints);
    let ghost slots1 = orbit_slots(scramble_pattern)[0];
    proof {
        lemma_identity_order_has_no_duplicates(pieces1);
        assert(order1@.skip(0) =~= order1@);
        lemma_orbit_is_randomized_but_first(
            corner_constraints,
            before1,
            slots1,
            pieces1,
            num_orientations(pattern, 0),
            order1@,
        );
    }

    let corner_constraints = OrbitRandomizationConstraints {
        permutation: Some(OrbitPermutationConstraint::SingleOrbitEvenParity),
        orientation: None,
        first_piece: Some(ConstraintForFirstPiece::IgnoredOrientation),
        subset: None,
    };
    let ghost pieces2 = num_pieces(pattern, 1);
    let ghost before2 = orbit_slots(scramble_pattern)[1];
    let order2 = randomize_orbit_naive(&mut scramble_pattern, 1, "CORNERS2", corner_constraints);
    let ghost slots2 = orbit_slots(scramble_pattern)[1];
    proof {
        lemma_identity_order_has_no_duplicates(pieces2);
        assert(order2@.skip(0) =~= order2@);
        lemma_orbit_is_randomized_but_first(
            corner_constraints,
            before2,
            slots2,
            pieces2,
            num_orientations(pattern, 1),
            order2@,
        );
    }

    let center_constraints = OrbitRandomizationConstraints {
        permutation: Some(OrbitPermutationConstraint::SingleOrbitEvenParity),
        orientation: Some(OrbitOrientationConstraint::SumToZero),
        first_piece: None,
        subset: None,
    };
    let ghost pieces3 = num_pieces(pattern, 2);
    let ghost before3 = orbit_slots(scramble_pattern)[2];
    let order3 = randomize_orbit_naive(&mut scramble_pattern, 2, "CENTERS", center_constraints);
    proof {
        lemma_identity_order_has_no_duplicates(pieces3);
        assert(order3@.skip(0) =~= order3@);
        lemma_orbit_is_randomized(
            center_constraints,
            before3,
            orbit_slots(scramble_pattern)[2],
            pieces3,
            num_orientations(pattern, 2),
            order3@,
        );
        assert(orbit_slots(scramble_pattern)[0] == slots1);
        assert(orbit_slots(scramble_pattern)[1] == slots2);
    }
    Some(scramble_pattern)
}

/// Whether every random pattern that can be made from `solved` is at least
/// [`MIN_OPTIMAL_MOVES`] moves from the target of `search` and has a
/// solution of at least [`MIN_SCRAMBLE_MOVES`] moves.
pub open spec fn every_pattern_has_scramble(search: IDFSearch<KPuzzle>, solved: KPattern) -> bool {
    forall|scramble_pattern: KPattern| #[trigger]
        is_randomized_skewb(solved, scramble_pattern) ==> filtered_result(
            &search.puzzle,
            search.generators@,
            search.target(),
            KPuzzle::pattern_key(&scramble_pattern),
            MIN_OPTIMAL_MOVES,
            Some(MIN_SCRAMBLE_MOVES),
        ) is Some
}

/// Makes random patterns from `solved` until one is at least
/// [`MIN_OPTIMAL_MOVES`] moves from solved, and returns it with a solution
/// of at least [`MIN_SCRAMBLE_MOVES`] moves. At most `max_attempts`
/// patterns are made.
///
/// `None` where `solved` cannot be randomized or no attempt gave such a
/// pattern with such a solution. Which patterns the attempts give is a
/// matter of chance; where the prune table is admissible, the moves
/// returned are what [`filtered_result`] gives for the pattern returned,
/// and a scramble is owed where at least one attempt is made and every
/// pattern that an attempt can give has one.
pub fn scramble_skewb(search: &IDFSearch<KPuzzle>, solved: &KPattern, max_attempts: usize) -> (scramble:
    Option<(KPattern, Vec<usize>)>)
    requires
        search.wf(),
    ensures
        scramble matches Some((scramble_pattern, moves)) ==> {
            &&& can_randomize_skewb(*solved)
            &&& is_randomized_skewb(*solved, scramble_pattern)
            &&& moves@.len() >= MIN_SCRAMBLE_MOVES
            &&& is_accepted_path::<
                KPuzzle,
                TransformationTraversalFilterNoOp,
                PatternTraversalFilterNoOp,
            >(
                &search.puzzle,
                search.generators@,
                search.target(),
                Seq::empty(),
                KPuzzle::pattern_key(&scramble_pattern),
                state_after_forced(Seq::empty()),
                moves@,
            )
            &&& search.prunes_admissibly() ==> filtered_result(
                &search.puzzle,
                search.generators@,
                search.target(),
                KPuzzle::pattern_key(&scramble_pattern),
                MIN_OPTIMAL_MOVES,
                Some(MIN_SCRAMBLE_MOVES),
            ) == Some(moves@)
        },
        !can_randomize_skewb(*solved) || max_attempts == 0 ==> scramble is None,
        search.prunes_admissibly() && can_randomize_skewb(*solved) && max_attempts > 0
            && every_pattern_has_scramble(*search, *solved) ==> scramble is Some,
{
    let mut attempts: usize = 0;
    while attempts < max_attempts
        invariant
            search.wf(),
            search.prunes_admissibly() && can_randomize_skewb(*solved) && every_pattern_has_scramble(
                *search,
                *solved,
            ) ==> attempts == 0,
        decreases max_attempts - attempts,
    {
        attempts += 1;
        let scramble_pattern = match random_skewb_pattern(clone_pattern(solved)) {
            Some(scramble_pattern) => scramble_pattern,
            None => {
                return None;
            },
        };
        assert(is_randomized_skewb(*solved, scramble_pattern));
        match filtered_search(
            search,
            &scramble_pattern,
            MIN_OPTIMAL_MOVES,
            Some(MIN_SCRAMBLE_MOVES),
        ) {
            Some(moves) => {
                return Some((scramble_pattern, moves));
            },
            None => {},
        }
    }
    None
}

} // verus!
