use crate::mask_pattern::apply_mask;
use crate::mask_pattern::MaskError;
use crate::mask_pattern::masked_orbits;
use crate::mask_pattern::mask_fits;
use crate::orbits::are_orientations_packable;
use crate::orbits::clone_pattern;
use crate::orbits::orientations_are_packable;
use crate::orbits::get_piece;
use crate::orbits::num_orientations;
use crate::orbits::num_pieces;
use crate::orbits::orbit_count;
use crate::orbits::orbit_layout;
use crate::orbits::orbit_name_is;
use crate::orbits::orbit_num_orientations;
use crate::orbits::orbit_num_pieces;
use crate::orbits::orbit_slots;
use crate::orbits::set_piece;
use crate::random::shuffle;
use crate::random::thread_rng;
use crate::randomize::assignment_follows;
use crate::randomize::entry_follows;
use crate::randomize::identity_order;
use crate::randomize::lemma_whole_orbit_is_written;
use crate::randomize::pieces_of;
use crate::randomize::randomize_orbit_naive;
use crate::randomize::write_slots;
use crate::randomize::ConstraintForFirstPiece;
use crate::randomize::OrbitRandomizationConstraints;
use crate::traversal_filters::PatternTraversalFilter;
use cubing::kpuzzle::KPattern;
use cubing::kpuzzle::KPuzzle;
use vstd::prelude::*;

verus! {

/// The kinds of wedges of the puzzle. A corner is two wedges wide: its
/// lower wedge comes first in the order of the slots, its upper wedge
/// after it.
#[derive(PartialEq, Eq, Structural, Clone, Copy, Debug)]
pub enum WedgeType {
    CornerLower,
    CornerUpper,
    Edge,
}

/// The number of wedges of the puzzle.
pub const NUM_WEDGES: u8 = 24;

/// The number of wedge groups of the puzzle: its corners and edges.
pub const NUM_WEDGE_GROUPS: u8 = 16;

/// The kind of a wedge. The twelve wedges of the top layer are four times
/// a corner and an edge, those of the bottom layer four times an edge and
/// a corner.
pub open spec fn wedge_type_of(wedge: u8) -> WedgeType {
    if wedge < 12 {
        if wedge % 3 == 0 {
            WedgeType::CornerLower
        } else if wedge % 3 == 1 {
            WedgeType::CornerUpper
        } else {
            WedgeType::Edge
        }
    } else {
        if wedge % 3 == 0 {
            WedgeType::Edge
        } else if wedge % 3 == 1 {
            WedgeType::CornerLower
        } else {
            WedgeType::CornerUpper
        }
    }
}

/// The kind of a wedge, or `None` for a number that is no wedge.
pub fn wedge_type(wedge: u8) -> (kind: Option<WedgeType>)
    ensures
        kind == if wedge < NUM_WEDGES {
            Some(wedge_type_of(wedge))
        } else {
            None
        },
{
    if wedge >= NUM_WEDGES {
        None
    } else if wedge < 12 {
        if wedge % 3 == 0 {
            Some(WedgeType::CornerLower)
        } else if wedge % 3 == 1 {
            Some(WedgeType::CornerUpper)
        } else {
            Some(WedgeType::Edge)
        }
    } else {
        if wedge % 3 == 0 {
            Some(WedgeType::Edge)
        } else if wedge % 3 == 1 {
            Some(WedgeType::CornerLower)
        } else {
            Some(WedgeType::CornerUpper)
        }
    }
}

/// Whether a wedge may sit in a slot that follows a slice: it is a wedge
/// and not the upper wedge of a corner, which the slice would cut.
pub open spec fn may_follow_slice(wedge: u8) -> bool {
    wedge < NUM_WEDGES && wedge_type_of(wedge) != WedgeType::CornerUpper
}

/// The pattern filter that accepts the patterns whose shape can be
/// sliced: those whose first orbit holds, in each of the four slots that
/// follow a slice, a wedge that may follow it.
pub struct Square1ShapeTraversalFilter;

/// Whether the wedge in slot `slot` of the first orbit may follow a slice.
fn slot_may_follow_slice(pattern: &KPattern, slot: u8) -> (may: bool)
    requires
        orbit_layout(*pattern).len() > 0,
        slot < num_pieces(*pattern, 0),
    ensures
        may == may_follow_slice(orbit_slots(*pattern)[0][slot as int].0),
{
    match wedge_type(get_piece(pattern, 0, slot)) {
        Some(WedgeType::CornerUpper) => false,
        Some(_) => true,
        None => false,
    }
}

impl PatternTraversalFilter<KPuzzle> for Square1ShapeTraversalFilter {
    open spec fn key_is_valid(key: Seq<(u8, Seq<(u8, u8, u8)>)>) -> bool {
        &&& key.len() > 0
        &&& key[0].1.len() > 18
        &&& may_follow_slice(key[0].1[0].0)
        &&& may_follow_slice(key[0].1[6].0)
        &&& may_follow_slice(key[0].1[12].0)
        &&& may_follow_slice(key[0].1[18].0)
    }

    fn is_valid(pattern: &KPattern) -> (valid: bool) {
        if orbit_count(pattern) == 0 {
            return false;
        }
        if orbit_num_pieces(pattern, 0) <= 18 {
            return false;
        }
        slot_may_follow_slice(pattern, 0) && slot_may_follow_slice(pattern, 6)
            && slot_may_follow_slice(pattern, 12) && slot_may_follow_slice(pattern, 18)
    }
}

/// The first wedge of a wedge group: in the top layer the groups are, in
/// turn, a corner and an edge; in the bottom layer an edge and a corner.
pub open spec fn group_start(group: u8) -> u8 {
    if group < 8 {
        (3 * (group / 2) + 2 * (group % 2)) as u8
    } else {
        (12 + 3 * ((group - 8) / 2) + (group % 2)) as u8
    }
}

/// The number of wedges of a wedge group: 2 for a corner, 1 for an edge.
pub open spec fn group_size(group: u8) -> u8 {
    if group < 8 {
        (2 - group % 2) as u8
    } else {
        (1 + group % 2) as u8
    }
}

/// The wedges of a wedge group, in the order of the slots.
pub open spec fn group_wedges(group: u8) -> Seq<u8> {
    Seq::new(group_size(group) as nat, |k: int| (group_start(group) + k) as u8)
}

/// The wedges of a list of wedge groups, group after group.
pub open spec fn wedges_of(groups: Seq<u8>) -> Seq<u8>
    decreases groups.len(),
{
    if groups.len() == 0 {
        Seq::empty()
    } else {
        wedges_of(groups.drop_last()) + group_wedges(groups.last())
    }
}

/// The function that adds the size of a group to a count.
pub open spec fn add_group_size() -> spec_fn(int, u8) -> int {
    |count: int, group: u8| count + group_size(group)
}

/// The wedges of a list of groups are as many as the sizes of the groups
/// add up to.
proof fn lemma_wedges_of_len(groups: Seq<u8>)
    ensures
        wedges_of(groups).len() == groups.fold_left(0int, add_group_size()),
    decreases groups.len(),
{
    if groups.len() > 0 {
        lemma_wedges_of_len(groups.drop_last());
    }
}

/// The sizes of the first groups of a list add up to no more than those of
/// the whole list.
proof fn lemma_group_sizes_grow(groups: Seq<u8>, count: int)
    requires
        0 <= count <= groups.len(),
    ensures
        0 <= groups.take(count).fold_left(0int, add_group_size()) <= groups.fold_left(
            0int,
            add_group_size(),
        ),
    decreases groups.len() - count,
{
    if count == groups.len() {
        assert(groups.take(count) =~= groups);
        lemma_wedges_of_len(groups);
    } else {
        lemma_group_sizes_grow(groups, count + 1);
        assert(groups.take(count + 1).drop_last() =~= groups.take(count));
        lemma_wedges_of_len(groups.take(count));
    }
}

/// The sixteen groups hold the twenty-four wedges, in whatever order the
/// groups come.
proof fn lemma_all_groups_hold_all_wedges(groups: Seq<u8>)
    requires
        groups.to_multiset() == identity_order(NUM_WEDGE_GROUPS as nat).to_multiset(),
    ensures
        groups.fold_left(0int, add_group_size()) == NUM_WEDGES,
{
    let all = identity_order(NUM_WEDGE_GROUPS as nat);
    assert(vstd::seq_lib::commutative_foldl(add_group_size()));
    vstd::seq_lib::lemma_fold_left_permutation(groups, all, add_group_size(), 0int);
    assert(all.fold_left(0int, add_group_size()) == NUM_WEDGES) by {
        reveal_with_fuel(Seq::fold_left, 17);
        assert(all.len() == 16);
        let s15 = all.drop_last();
        let s14 = s15.drop_last();
        let s13 = s14.drop_last();
        let s12 = s13.drop_last();
        let s11 = s12.drop_last();
        let s10 = s11.drop_last();
        let s9 = s10.drop_last();
        let s8 = s9.drop_last();
        let s7 = s8.drop_last();
        let s6 = s7.drop_last();
        let s5 = s6.drop_last();
        let s4 = s5.drop_last();
        let s3 = s4.drop_last();
        let s2 = s3.drop_last();
        let s1 = s2.drop_last();
        let s0 = s1.drop_last();
        assert(s0.len() == 0);
        assert(all.last() == 15 && s15.last() == 14 && s14.last() == 13 && s13.last() == 12);
        assert(s12.last() == 11 && s11.last() == 10 && s10.last() == 9 && s9.last() == 8);
        assert(s8.last() == 7 && s7.last() == 6 && s6.last() == 5 && s5.last() == 4);
        assert(s4.last() == 3 && s3.last() == 2 && s2.last() == 1 && s1.last() == 0);
    }
}

/// Every group of a list that holds the sixteen groups is one of them.
proof fn lemma_groups_are_groups(groups: Seq<u8>)
    requires
        groups.to_multiset() == identity_order(NUM_WEDGE_GROUPS as nat).to_multiset(),
    ensures
        groups.len() == NUM_WEDGE_GROUPS,
        forall|g: int| 0 <= g < groups.len() ==> #[trigger] groups[g] < NUM_WEDGE_GROUPS,
{
    let all = identity_order(NUM_WEDGE_GROUPS as nat);
    vstd::seq_lib::to_multiset_len(groups);
    vstd::seq_lib::to_multiset_len(all);
    assert forall|g: int| 0 <= g < groups.len() implies #[trigger] groups[g]
        < NUM_WEDGE_GROUPS by {
        vstd::seq_lib::to_multiset_contains(groups, groups[g]);
        vstd::seq_lib::to_multiset_contains(all, groups[g]);
        assert(groups.contains(groups[g]));
        assert(all.contains(groups[g]));
        let at = choose|at: int| 0 <= at < all.len() && all[at] == groups[g];
        assert(all[at] == at as u8);
    }
}

/// The first wedge and the number of wedges of a group.
fn group_bounds(group: u8) -> (bounds: (u8, u8))
    requires
        group < NUM_WEDGE_GROUPS,
    ensures
        bounds.0 == group_start(group),
        bounds.1 == group_size(group),
        bounds.0 + bounds.1 <= NUM_WEDGES,
{
    if group < 8 {
        (3 * (group / 2) + 2 * (group % 2), 2 - group % 2)
    } else {
        (12 + 3 * ((group - 8) / 2) + group % 2, 1 + group % 2)
    }
}

/// Whether the slots `after` are the slots `before` with the wedges of the
/// wedge groups `groups` written, group after group, as the pieces of the
/// first slots.
pub open spec fn holds_wedges_of(
    before: Seq<(u8, u8, u8)>,
    after: Seq<(u8, u8, u8)>,
    groups: Seq<u8>,
) -> bool {
    &&& after.len() == before.len()
    &&& wedges_of(groups).len() <= after.len()
    &&& pieces_of(after).take(wedges_of(groups).len() as int) == wedges_of(groups)
    &&& forall|slot: int|
        0 <= slot < after.len() ==> (#[trigger] after[slot]).1 == before[slot].1 && after[slot].2
            == before[slot].2
    &&& forall|slot: int|
        wedges_of(groups).len() <= slot < after.len() ==> (#[trigger] after[slot]).0
            == before[slot].0
}

/// Writes the wedges of the wedge groups `groups`, group after group, as
/// the pieces of the first slots of the first orbit.
fn write_wedges(pattern: &mut KPattern, groups: &Vec<u8>)
    requires
        orbit_layout(*old(pattern)).len() > 0,
        num_pieces(*old(pattern), 0) >= NUM_WEDGES,
        orbit_slots(*old(pattern))[0].len() == num_pieces(*old(pattern), 0),
        groups@.to_multiset() == identity_order(NUM_WEDGE_GROUPS as nat).to_multiset(),
    ensures
        orbit_layout(*final(pattern)) == orbit_layout(*old(pattern)),
        orbit_slots(*final(pattern)).len() == orbit_slots(*old(pattern)).len(),
        forall|other: int|
            1 <= other < orbit_slots(*old(pattern)).len() ==> #[trigger] orbit_slots(
                *final(pattern),
            )[other] == orbit_slots(*old(pattern))[other],
        holds_wedges_of(orbit_slots(*old(pattern))[0], orbit_slots(*final(pattern))[0], groups@),
        wedges_of(groups@).len() == NUM_WEDGES,
{
    let ghost before = orbit_slots(*pattern)[0];
    proof {
        lemma_groups_are_groups(groups@);
        lemma_all_groups_hold_all_wedges(groups@);
        lemma_wedges_of_len(groups@);
        assert(groups@.take(0) =~= Seq::<u8>::empty());
        assert(pieces_of(before).take(0) =~= wedges_of(groups@.take(0)));
    }
    let mut slot: u8 = 0;
    let mut g: usize = 0;
    while g < groups.len()
        invariant
            g <= groups@.len() == NUM_WEDGE_GROUPS,
            forall|i: int| 0 <= i < groups@.len() ==> #[trigger] groups@[i] < NUM_WEDGE_GROUPS,
            groups@.fold_left(0int, add_group_size()) == NUM_WEDGES,
            before == orbit_slots(*old(pattern))[0],
            orbit_layout(*pattern) == orbit_layout(*old(pattern)),
            orbit_layout(*pattern).len() > 0,
            num_pieces(*pattern, 0) >= NUM_WEDGES,
            orbit_slots(*pattern).len() == orbit_slots(*old(pattern)).len(),
            forall|other: int|
                1 <= other < orbit_slots(*old(pattern)).len() ==> #[trigger] orbit_slots(
                    *pattern,
                )[other] == orbit_slots(*old(pattern))[other],
            slot == wedges_of(groups@.take(g as int)).len(),
            holds_wedges_of(before, orbit_slots(*pattern)[0], groups@.take(g as int)),
            before.len() == num_pieces(*pattern, 0),
        decreases groups@.len() - g,
    {
        let (start, size) = group_bounds(groups[g]);
        let ghost done = groups@.take(g as int);
        let ghost group = groups@[g as int];
        proof {
            lemma_group_sizes_grow(groups@, g + 1);
            lemma_wedges_of_len(groups@.take(g + 1));
            lemma_wedges_of_len(done);
            assert(groups@.take(g + 1).drop_last() =~= done);
            assert(group_wedges(group).take(0) =~= Seq::<u8>::empty());
            assert(wedges_of(done) + Seq::<u8>::empty() =~= wedges_of(done));
        }
        let mut k: u8 = 0;
        while k < size
            invariant
                k <= size == group_size(group),
                start == group_start(group),
                start + size <= NUM_WEDGES,
                done == groups@.take(g as int),
                slot == wedges_of(done).len() + k,
                wedges_of(done).len() + size <= NUM_WEDGES,
                before == orbit_slots(*old(pattern))[0],
                before.len() == num_pieces(*pattern, 0),
                orbit_layout(*pattern) == orbit_layout(*old(pattern)),
                orbit_layout(*pattern).len() > 0,
                num_pieces(*pattern, 0) >= NUM_WEDGES,
                orbit_slots(*pattern).len() == orbit_slots(*old(pattern)).len(),
                forall|other: int|
                    1 <= other < orbit_slots(*old(pattern)).len() ==> #[trigger] orbit_slots(
                        *pattern,
                    )[other] == orbit_slots(*old(pattern))[other],
                orbit_slots(*pattern)[0].len() == before.len(),
                pieces_of(orbit_slots(*pattern)[0]).take(slot as int) == wedges_of(done)
                    + group_wedges(group).take(k as int),
                forall|at: int|
                    0 <= at < before.len() ==> (#[trigger] orbit_slots(*pattern)[0][at]).1
                        == before[at].1 && orbit_slots(*pattern)[0][at].2 == before[at].2,
                forall|at: int|
                    slot <= at < before.len() ==> (#[trigger] orbit_slots(*pattern)[0][at]).0
                        == before[at].0,
            decreases size - k,
        {
            let ghost slots_now = orbit_slots(*pattern)[0];
            set_piece(pattern, 0, slot, start + k);
            proof {
                let slots_next = orbit_slots(*pattern)[0];
                assert(pieces_of(slots_next).take(slot + 1) =~= pieces_of(slots_now).take(
                    slot as int,
                ).push((start + k) as u8));
                assert(group_wedges(group).take(k + 1) =~= group_wedges(group).take(k as int).push(
                    (start + k) as u8,
                ));
                assert((wedges_of(done) + group_wedges(group).take(k as int)).push(
                    (start + k) as u8,
                ) =~= wedges_of(done) + group_wedges(group).take(k + 1));
            }
            slot += 1;
            k += 1;
        }
        proof {
            assert(group_wedges(group).take(size as int) =~= group_wedges(group));
            assert(groups@.take(g + 1).last() == group);
        }
        g += 1;
    }
    proof {
        assert(groups@.take(groups@.len() as int) =~= groups@);
    }
}

/// Whether a pattern is one that [`random_pattern`] can randomize: its
/// first orbit is named `WEDGES` and holds the wedges, its second is named
/// `EQUATOR` and has a piece and orientations that are packable.
pub open spec fn can_randomize_square1(pattern: KPattern) -> bool {
    &&& orbit_layout(pattern).len() >= 2
    &&& orbit_layout(pattern)[0].0 == "WEDGES"@
    &&& orbit_layout(pattern)[1].0 == "EQUATOR"@
    &&& num_pieces(pattern, 0) >= NUM_WEDGES
    &&& num_pieces(pattern, 1) > 0
    &&& orientations_are_packable(num_orientations(pattern, 1))
}

/// Whether the slots of an orbit hold a random state whose first piece is
/// solved: every piece of the orbit once, piece 0 in slot 0 with
/// orientation 0, and every piece with an orientation of the orbit.
pub open spec fn is_randomized_orbit_after_first(
    slots: Seq<(u8, u8, u8)>,
    pieces: u8,
    orientations: u8,
) -> bool {
    &&& slots.len() == pieces
    &&& pieces_of(slots).to_multiset() == identity_order(pieces as nat).to_multiset()
    &&& slots[0] == (0u8, 0u8, 0u8)
    &&& forall|slot: int|
        0 <= slot < slots.len() ==> (#[trigger] slots[slot]).1 < orientations && slots[slot].2 == 0
}

/// Whether `scramble_pattern` is a random pattern made from `pattern`: a
/// pattern of the same puzzle whose wedges are those of the sixteen wedge
/// groups in some order, whose equator is in a random state with its first
/// piece solved, and whose other orbits are those of `pattern`.
pub open spec fn is_randomized_square1(pattern: KPattern, scramble_pattern: KPattern) -> bool {
    &&& orbit_layout(scramble_pattern) == orbit_layout(pattern)
    &&& orbit_slots(scramble_pattern).len() == orbit_slots(pattern).len()
    &&& forall|other: int|
        2 <= other < orbit_slots(pattern).len() ==> #[trigger] orbit_slots(scramble_pattern)[other]
            == orbit_slots(pattern)[other]
    &&& exists|groups: Seq<u8>|
        groups.to_multiset() == identity_order(NUM_WEDGE_GROUPS as nat).to_multiset()
            && #[trigger] holds_wedges_of(
            orbit_slots(pattern)[0],
            orbit_slots(scramble_pattern)[0],
            groups,
        )
    &&& is_randomized_orbit_after_first(
        orbit_slots(scramble_pattern)[1],
        num_pieces(pattern, 1),
        num_orientations(pattern, 1),
    )
}

/// What a call that randomizes a whole orbit and keeps its first piece
/// solved leaves in the orbit.
proof fn lemma_orbit_is_randomized_after_first(
    constraints: OrbitRandomizationConstraints,
    before: Seq<(u8, u8, u8)>,
    after: Seq<(u8, u8, u8)>,
    pieces: u8,
    orientations: u8,
    order: Seq<u8>,
)
    requires
        pieces > 0,
        orientations > 0,
        constraints.subset is None,
        constraints.first_piece == Some(ConstraintForFirstPiece::KeepSolved),
        constraints.orientation is None,
        before.len() == pieces,
        order.len() == pieces,
        order.take(1) == identity_order(pieces as nat).take(1),
        order.skip(1).to_multiset() == identity_order(pieces as nat).skip(1).to_multiset(),
        pieces_of(after) == order,
        exists|values: Seq<(u8, u8, u8)>|
            {
                &&& #[trigger] assignment_follows(
                    constraints,
                    orientations,
                    identity_order(pieces as nat)[0],
                    order,
                    values,
                )
                &&& after == write_slots(before, identity_order(pieces as nat), values)
            },
    ensures
        is_randomized_orbit_after_first(after, pieces, orientations),
{
    let all = identity_order(pieces as nat);
    let values = choose|values: Seq<(u8, u8, u8)>|
        {
            &&& #[trigger] assignment_follows(constraints, orientations, all[0], order, values)
            &&& after == write_slots(before, all, values)
        };
    lemma_whole_orbit_is_written(before, values);
    assert(order.take(1)[0] == all.take(1)[0]);
    assert(order[0] == 0);
    assert forall|slot: int| 0 <= slot < after.len() implies (#[trigger] after[slot]).1
        < orientations && after[slot].2 == 0 by {
        assert(entry_follows(constraints, orientations, all[0], order, values, slot));
    }
    assert(entry_follows(constraints, orientations, all[0], order, values, 0));
    vstd::seq_lib::lemma_multiset_commutative(order.take(1), order.skip(1));
    vstd::seq_lib::lemma_multiset_commutative(all.take(1), all.skip(1));
    assert(order.take(1) + order.skip(1) =~= order);
    assert(all.take(1) + all.skip(1) =~= all);
}

/// Whether the shape filter accepts every random pattern that can be made
/// from `solved`, under `shape_mask`.
pub open spec fn every_shape_is_accepted<TShapeFilter: PatternTraversalFilter<KPuzzle>>(
    solved: KPattern,
    shape_mask: KPattern,
) -> bool {
    forall|scramble_pattern: KPattern| #[trigger]
        is_randomized_square1(solved, scramble_pattern) ==> TShapeFilter::key_is_valid(
            masked_orbits(scramble_pattern, shape_mask),
        )
}

/// Whether the shape of a pattern, the pattern under `shape_mask`, is
/// accepted by the shape filter. Fails where the mask does not fit the
/// pattern.
pub fn is_shape_accepted<TShapeFilter: PatternTraversalFilter<KPuzzle>>(
    scramble_pattern: &KPattern,
    shape_mask: &KPattern,
) -> (outcome: Result<bool, MaskError>)
    ensures
        match outcome {
            Ok(accepted) => mask_fits(*scramble_pattern, *shape_mask) && accepted
                == TShapeFilter::key_is_valid(masked_orbits(*scramble_pattern, *shape_mask)),
            Err(error) => !mask_fits(*scramble_pattern, *shape_mask),
        },
{
    match apply_mask(scramble_pattern, shape_mask) {
        Ok(phase1_start_pattern) => Ok(TShapeFilter::is_valid(&phase1_start_pattern)),
        Err(error) => Err(error),
    }
}

/// A random pattern of the puzzle, made from patterns of it, most often
/// from the solved one: the sixteen wedge groups are shuffled and their
/// wedges written to the slots of the first orbit, and the equator is
/// randomized with its first piece kept solved. A pattern is handed out
/// once its shape, the pattern under `shape_mask`, is accepted by the
/// shape filter. At most `max_attempts` patterns are made.
///
/// `None` where `solved` cannot be randomized, where the mask does not fit
/// it, or where no attempt gave a pattern that the shape filter accepts.
/// Which patterns the attempts give is a matter of chance; a pattern is
/// owed where at least one attempt is made and the shape filter accepts
/// every pattern that an attempt can give.
pub fn random_pattern<TShapeFilter: PatternTraversalFilter<KPuzzle>>(
    solved: &KPattern,
    shape_mask: &KPattern,
    max_attempts: usize,
) -> (randomized: Option<KPattern>)
    ensures
        randomized matches Some(scramble_pattern) ==> {
            &&& can_randomize_square1(*solved)
            &&& is_randomized_square1(*solved, scramble_pattern)
            &&& mask_fits(scramble_pattern, *shape_mask)
            &&& TShapeFilter::key_is_valid(masked_orbits(scramble_pattern, *shape_mask))
        },
        !can_randomize_square1(*solved) || !mask_fits(*solved, *shape_mask)
            || max_attempts == 0 ==> randomized is None,
        can_randomize_square1(*solved) && mask_fits(*solved, *shape_mask) && max_attempts
            > 0 && every_shape_is_accepted::<TShapeFilter>(*solved, *shape_mask)
            ==> randomized is Some,
{
    if orbit_count(solved) < 2 {
        return None;
    }
    if !orbit_name_is(solved, 0, "WEDGES") || !orbit_name_is(solved, 1, "EQUATOR") {
        return None;
    }
    let equator_pieces = orbit_num_pieces(solved, 1);
    let equator_orientations = orbit_num_orientations(solved, 1);
    if orbit_num_pieces(solved, 0) < NUM_WEDGES || equator_pieces == 0 || !are_orientations_packable(
        equator_orientations,
    ) {
        return None;
    }
    let mut rng = thread_rng();
    let mut attempts: usize = 0;
    while attempts < max_attempts
        invariant
            can_randomize_square1(*solved),
            orbit_slots(*solved).len() >= 2,
            orbit_slots(*solved)[0].len() == num_pieces(*solved, 0),
            orbit_slots(*solved)[1].len() == num_pieces(*solved, 1),
            equator_pieces == num_pieces(*solved, 1),
            equator_orientations == num_orientations(*solved, 1),
            mask_fits(*solved, *shape_mask) && every_shape_is_accepted::<TShapeFilter>(
                *solved,
                *shape_mask,
            ) ==> attempts == 0,
        decreases max_attempts - attempts,
    {
        attempts += 1;
        let mut scramble_pattern = clone_pattern(solved);

        let mut deep_wedges: Vec<u8> = wedge_groups();
        shuffle(deep_wedges.as_mut_slice(), &mut rng);
        write_wedges(&mut scramble_pattern, &deep_wedges);
        let ghost wedge_slots = orbit_slots(scramble_pattern)[0];

        let equator_constraints = OrbitRandomizationConstraints {
            permutation: None,
            orientation: None,
            first_piece: Some(ConstraintForFirstPiece::KeepSolved),
            subset: None,
        };
        let ghost equator_before = orbit_slots(scramble_pattern)[1];
        let equator_order = randomize_orbit_naive(
            &mut scramble_pattern,
            1,
            "EQUATOR",
            equator_constraints,
        );
        proof {
            lemma_orbit_is_randomized_after_first(
                equator_constraints,
                equator_before,
                orbit_slots(scramble_pattern)[1],
                equator_pieces,
                equator_orientations,
                equator_order@,
            );
            assert(orbit_slots(scramble_pattern)[0] == wedge_slots);
            assert(holds_wedges_of(orbit_slots(*solved)[0], wedge_slots, deep_wedges@));
            assert(is_randomized_square1(*solved, scramble_pattern));
            lemma_same_layout_same_structure(*solved, scramble_pattern, *shape_mask);
        }

        match is_shape_accepted::<TShapeFilter>(&scramble_pattern, shape_mask) {
            Ok(true) => {
                return Some(scramble_pattern);
            },
            Ok(false) => {},
            Err(_) => {
                return None;
            },
        }
    }
    None
}

/// Two patterns of one layout fit the same masks.
proof fn lemma_same_layout_same_structure(pattern: KPattern, other: KPattern, mask: KPattern)
    requires
        orbit_layout(other) == orbit_layout(pattern),
    ensures
        mask_fits(other, mask) == mask_fits(pattern, mask),
{
}

/// The sixteen wedge groups, in the order of the solved puzzle.
fn wedge_groups() -> (groups: Vec<u8>)
    ensures
        groups@ == identity_order(NUM_WEDGE_GROUPS as nat),
{
    let mut groups: Vec<u8> = Vec::new();
    let mut group: u8 = 0;
    while group < NUM_WEDGE_GROUPS
        invariant
            group <= NUM_WEDGE_GROUPS,
            groups@ == identity_order(group as nat),
        decreases NUM_WEDGE_GROUPS - group,
    {
        groups.push(group);
        group += 1;
        assert(groups@ =~= identity_order(group as nat));
    }
    groups
}

} // verus!
