use crate::orbits::has_orbit;
use crate::orbits::num_orientations;
use crate::orbits::num_pieces;
use crate::orbits::orbit_layout;
use crate::orbits::orbit_num_orientations;
use crate::orbits::orbit_num_pieces;
use crate::orbits::are_orientations_packable;
use crate::orbits::orbit_count;
use crate::orbits::orbit_name_is;
use crate::orbits::orbit_slots;
use crate::orbits::orientations_are_packable;
use crate::orbits::set_orientation_with_mod;
use crate::orbits::set_piece;
use crate::orbits::IGNORED_ORIENTATION_MOD;
use crate::random::gen_below;
use crate::random::shuffle;
use crate::random::thread_rng;
use cubing::kpuzzle::KPattern;
use rand::rngs::ThreadRng;
use vstd::prelude::*;

verus! {

/// What the shuffled order of an orbit's pieces must satisfy.
#[derive(PartialEq, Eq, Structural, Clone, Copy, Debug)]
pub enum OrbitPermutationConstraint {
    /// The free pieces end in an order of even parity.
    EvenParity,
    /// The free pieces end in an order of odd parity.
    OddParity,
    /// The pieces stay in the order they were given in.
    IdentityPermutation,
    /// The parity of this orbit alone must be even; no other orbit is made
    /// to follow it.
    SingleOrbitEvenParity,
}

/// What the orientations assigned to an orbit must satisfy.
#[derive(PartialEq, Eq, Structural, Clone, Copy, Debug)]
pub enum OrbitOrientationConstraint {
    /// The orientations add up to a multiple of the orbit's number of
    /// orientations.
    SumToZero,
}

/// What happens to the first piece of the randomized list: the piece that
/// sits at the head of the list before it is shuffled, wherever it ends up.
#[derive(PartialEq, Eq, Structural, Clone, Copy, Debug)]
pub enum ConstraintForFirstPiece {
    /// The piece keeps its place at the head of the list and gets
    /// orientation 0.
    KeepSolved,
    /// The piece is shuffled like the others and its orientation is marked
    /// as ignored.
    IgnoredOrientation,
}

/// The constraints of one call of [`randomize_orbit_naive`]. Each field
/// left at `None` constrains nothing.
pub struct OrbitRandomizationConstraints {
    pub permutation: Option<OrbitPermutationConstraint>,
    pub orientation: Option<OrbitOrientationConstraint>,
    pub first_piece: Option<ConstraintForFirstPiece>,
    /// The slots to randomize, in place of the whole orbit.
    pub subset: Option<Vec<u8>>,
}

impl Default for OrbitRandomizationConstraints {
    fn default() -> (constraints: Self)
        ensures
            constraints.permutation is None,
            constraints.orientation is None,
            constraints.first_piece is None,
            constraints.subset is None,
    {
        OrbitRandomizationConstraints {
            permutation: None,
            orientation: None,
            first_piece: None,
            subset: None,
        }
    }
}

/// Parity of a piece order: whether it has an even or an odd number of
/// inversions.
#[derive(PartialEq, Eq, Structural, Hash, Clone, Copy, Debug)]
pub enum BasicParity {
    Even,
    Odd,
}

impl BasicParity {
    /// The other parity.
    pub open spec fn flipped(self) -> BasicParity {
        match self {
            BasicParity::Even => BasicParity::Odd,
            BasicParity::Odd => BasicParity::Even,
        }
    }

    /// Turns even into odd and odd into even.
    pub fn flip(&mut self)
        ensures
            *final(self) == old(self).flipped(),
    {
        let new_value = match self {
            BasicParity::Even => BasicParity::Odd,
            BasicParity::Odd => BasicParity::Even,
        };
        *self = new_value
    }
}

/// How many entries of `s` are greater than `x`.
pub open spec fn count_greater(s: Seq<u8>, x: u8) -> nat
    decreases s.len(),
{
    if s.len() == 0 {
        0
    } else {
        count_greater(s.drop_last(), x) + if s.last() > x {
            1nat
        } else {
            0nat
        }
    }
}

/// How many pairs of positions `i < j` hold `s[i] > s[j]`.
pub open spec fn inversions(s: Seq<u8>) -> nat
    decreases s.len(),
{
    if s.len() == 0 {
        0
    } else {
        inversions(s.drop_last()) + count_greater(s.drop_last(), s.last())
    }
}

/// The parity of a count.
pub open spec fn parity_of_count(n: nat) -> BasicParity {
    if n % 2 == 0 {
        BasicParity::Even
    } else {
        BasicParity::Odd
    }
}

/// The parity of a piece order: that of its number of inversions.
pub open spec fn parity_of(s: Seq<u8>) -> BasicParity {
    parity_of_count(inversions(s))
}

/// `s` with its first two entries exchanged.
pub open spec fn swap_first_two(s: Seq<u8>) -> Seq<u8>
    recommends
        s.len() >= 2,
{
    s.update(0, s[1]).update(1, s[0])
}

/// `(v1 + v2) mod modulus`, computed without overflow.
pub fn add_u8_mod(v1: u8, v2: u8, modulus: u8) -> (sum: u8)
    requires
        modulus > 0,
    ensures
        sum == (v1 + v2) % (modulus as int),
{
    (((v1 as u32) + (v2 as u32)) % (modulus as u32)) as u8
}

/// `(v1 - v2) mod modulus`, in `0..modulus` also where `v2 > v1`.
pub fn subtract_u8_mod(v1: u8, v2: u8, modulus: u8) -> (difference: u8)
    requires
        modulus > 0,
    ensures
        difference == (v1 - v2) % (modulus as int),
{
    let m: u32 = modulus as u32;
    let reduced: u32 = (v2 as u32) % m;
    proof {
        let a = v1 as int;
        let b = v2 as int;
        let d = modulus as int;
        vstd::arithmetic::div_mod::lemma_sub_mod_noop_right(a, b, d);
        vstd::arithmetic::div_mod::lemma_mod_add_multiples_vanish(a - b % d, d);
        assert(d + (a - b % d) == a + d - b % d);
    }
    (((v1 as u32) + m - reduced) % m) as u8
}

/// Counts the inversions of `permutation` and returns their parity.
pub fn basic_parity(permutation: &[u8]) -> (parity: BasicParity)
    ensures
        parity == parity_of(permutation@),
{
    let mut parity = BasicParity::Even;
    let mut i: usize = 0;
    while i < permutation.len()
        invariant
            i <= permutation@.len(),
            parity == parity_of(permutation@.take(i as int)),
        decreases permutation@.len() - i,
    {
        let later: u8 = permutation[i];
        let mut j: usize = 0;
        while j < i
            invariant
                j <= i < permutation@.len(),
                later == permutation@[i as int],
                parity == parity_of_count(
                    inversions(permutation@.take(i as int)) + count_greater(
                        permutation@.take(j as int),
                        later,
                    ),
                ),
            decreases i - j,
        {
            proof {
                let next = permutation@.take(j + 1);
                assert(next.drop_last() == permutation@.take(j as int));
                assert(next.last() == permutation@[j as int]);
            }
            if permutation[j] > later {
                parity.flip();
            }
            j += 1;
        }
        proof {
            let next = permutation@.take(i + 1);
            assert(next.drop_last() == permutation@.take(i as int));
            assert(next.last() == later);
        }
        i += 1;
    }
    assert(permutation@.take(permutation@.len() as int) == permutation@);
    parity
}

/// Exchanging the first two entries leaves every count of greater entries
/// as it was.
proof fn lemma_swap_keeps_count_greater(s: Seq<u8>, x: u8)
    requires
        s.len() >= 2,
    ensures
        count_greater(swap_first_two(s), x) == count_greater(s, x),
    decreases s.len(),
{
    let t = swap_first_two(s);
    if s.len() == 2 {
        assert(s.drop_last().drop_last() =~= Seq::<u8>::empty());
        assert(t.drop_last().drop_last() =~= Seq::<u8>::empty());
        assert(count_greater(s.drop_last(), x) == count_greater(s.drop_last().drop_last(), x) + if s[0] > x {
            1nat
        } else {
            0nat
        });
        assert(count_greater(t.drop_last(), x) == count_greater(t.drop_last().drop_last(), x) + if s[1] > x {
            1nat
        } else {
            0nat
        });
    } else {
        assert(t.drop_last() =~= swap_first_two(s.drop_last()));
        lemma_swap_keeps_count_greater(s.drop_last(), x);
    }
}

/// Exchanging two distinct first entries changes the number of inversions
/// by exactly one.
proof fn lemma_swap_changes_inversions(s: Seq<u8>)
    requires
        s.len() >= 2,
        s[0] != s[1],
    ensures
        s[0] < s[1] ==> inversions(swap_first_two(s)) == inversions(s) + 1,
        s[0] > s[1] ==> inversions(swap_first_two(s)) + 1 == inversions(s),
    decreases s.len(),
{
    let t = swap_first_two(s);
    if s.len() == 2 {
        let s1 = s.drop_last();
        let t1 = t.drop_last();
        assert(s1.drop_last() =~= Seq::<u8>::empty());
        assert(t1.drop_last() =~= Seq::<u8>::empty());
        assert(inversions(s1) == inversions(s1.drop_last()) + count_greater(s1.drop_last(), s1.last()));
        assert(inversions(t1) == inversions(t1.drop_last()) + count_greater(t1.drop_last(), t1.last()));
        assert(count_greater(s1, s[1]) == count_greater(s1.drop_last(), s[1]) + if s[0] > s[1] {
            1nat
        } else {
            0nat
        });
        assert(count_greater(t1, s[0]) == count_greater(t1.drop_last(), s[0]) + if s[1] > s[0] {
            1nat
        } else {
            0nat
        });
    } else {
        assert(t.drop_last() =~= swap_first_two(s.drop_last()));
        lemma_swap_changes_inversions(s.drop_last());
        lemma_swap_keeps_count_greater(s.drop_last(), s.last());
    }
}

/// A single transposition of two distinct leading entries flips the parity
/// of a piece order.
pub proof fn lemma_swap_first_two_flips_parity(s: Seq<u8>)
    requires
        s.len() >= 2,
        s[0] != s[1],
    ensures
        parity_of(swap_first_two(s)) == parity_of(s).flipped(),
{
    lemma_swap_changes_inversions(s);
}

/// An order of fewer than two pieces has no inversion.
pub proof fn lemma_short_order_is_even(s: Seq<u8>)
    requires
        s.len() < 2,
    ensures
        parity_of(s) == BasicParity::Even,
{
    if s.len() == 1 {
        assert(s.drop_last() =~= Seq::<u8>::empty());
        assert(inversions(s) == inversions(s.drop_last()) + count_greater(s.drop_last(), s.last()));
    }
}

/// Exchanging the first two entries keeps the entries, counted with
/// multiplicity.
pub proof fn lemma_swap_first_two_keeps_entries(s: Seq<u8>)
    requires
        s.len() >= 2,
    ensures
        swap_first_two(s).to_multiset() == s.to_multiset(),
{
    broadcast use vstd::multiset::group_multiset_axioms;

    let mid = s.update(0, s[1]);
    vstd::seq_lib::to_multiset_update(s, 0, s[1]);
    vstd::seq_lib::to_multiset_update(mid, 1, s[0]);
    vstd::seq_lib::to_multiset_contains(s, s[0]);
    vstd::seq_lib::to_multiset_contains(s, s[1]);
    assert(s.contains(s[0]));
    assert(s.contains(s[1]));
    let m = s.to_multiset();
    assert forall|x: u8|
        m.insert(s[1]).remove(s[0]).insert(s[0]).remove(s[1]).count(x) == m.count(x) by {}
    assert(swap_first_two(s).to_multiset() =~= s.to_multiset());
}

/// Brings `permutation` to `target_parity`: where its parity differs, the
/// first two entries are exchanged.
pub fn set_parity(permutation: &mut [u8], target_parity: BasicParity)
    requires
        parity_of(old(permutation)@) != target_parity ==> old(permutation)@.len() >= 2,
    ensures
        final(permutation)@ == if parity_of(old(permutation)@) == target_parity {
            old(permutation)@
        } else {
            swap_first_two(old(permutation)@)
        },
        final(permutation)@.to_multiset() == old(permutation)@.to_multiset(),
        parity_of(final(permutation)@) == target_parity <==> (parity_of(old(permutation)@)
            == target_parity || old(permutation)@[0] != old(permutation)@[1]),
{
    let parity = basic_parity(permutation);
    if parity != target_parity {
        proof {
            lemma_swap_first_two_keeps_entries(permutation@);
            if permutation@[0] != permutation@[1] {
                lemma_swap_first_two_flips_parity(permutation@);
            } else {
                assert(swap_first_two(permutation@) =~= permutation@);
            }
        }
        let first: u8 = permutation[0];
        let second: u8 = permutation[1];
        permutation[0] = second;
        permutation[1] = first;
    }
}

/// The slots `0, 1, ..` of an orbit of `pieces` pieces.
pub open spec fn identity_order(pieces: nat) -> Seq<u8> {
    Seq::new(pieces, |i: int| i as u8)
}

impl OrbitRandomizationConstraints {
    /// The slots that a call randomizes, in the order in which it walks
    /// them: the subset if one is given, else the whole orbit.
    pub open spec fn requested_order(self, pieces: u8) -> Seq<u8> {
        match self.subset {
            Some(subset) => subset@,
            None => identity_order(pieces as nat),
        }
    }

    /// How many leading entries of the list the shuffle leaves in place.
    pub open spec fn pinned(self) -> int {
        if self.first_piece == Some(ConstraintForFirstPiece::KeepSolved) {
            1
        } else {
            0
        }
    }

    /// The parity that the shuffled free pieces are brought to, if any.
    pub open spec fn target_parity(self) -> Option<BasicParity> {
        match self.permutation {
            Some(OrbitPermutationConstraint::EvenParity) => Some(BasicParity::Even),
            Some(OrbitPermutationConstraint::SingleOrbitEvenParity) => Some(BasicParity::Even),
            Some(OrbitPermutationConstraint::OddParity) => Some(BasicParity::Odd),
            _ => None,
        }
    }
}

/// The sum of the orientations of the first `count` entries.
pub open spec fn orientation_sum(values: Seq<(u8, u8, u8)>, count: int) -> int
    decreases count,
{
    if count <= 0 {
        0
    } else {
        orientation_sum(values, count - 1) + values[count - 1].1
    }
}

/// `slots` after `values[0]` was written to slot `positions[0]`, then
/// `values[1]` to slot `positions[1]`, and so on.
pub open spec fn write_slots(
    slots: Seq<(u8, u8, u8)>,
    positions: Seq<u8>,
    values: Seq<(u8, u8, u8)>,
) -> Seq<(u8, u8, u8)>
    decreases positions.len(),
{
    if positions.len() == 0 {
        slots
    } else {
        write_slots(slots, positions.drop_last(), values.drop_last()).update(
            positions.last() as int,
            values.last(),
        )
    }
}

/// Whether an orientation and its modulus are what the constraints ask
/// for of a piece, where the orientations before it add up to
/// `sum_before`: the orientation is
/// - the one that brings the sum to a multiple of `orientations`, where the
///   sum is constrained and the piece is the last;
/// - else 0 for a first piece that is kept solved;
/// - else 0 with the ignored modulus for a first piece whose orientation is
///   ignored;
/// - else any orientation of the orbit.
pub open spec fn orientation_follows(
    constraints: OrbitRandomizationConstraints,
    orientations: u8,
    is_first_piece: bool,
    is_last: bool,
    sum_before: int,
    orientation: u8,
    orientation_mod: u8,
) -> bool {
    if constraints.orientation is Some && is_last {
        orientation == (0 - sum_before) % (orientations as int) && orientation_mod == 0
    } else if constraints.first_piece == Some(ConstraintForFirstPiece::KeepSolved)
        && is_first_piece {
        orientation == 0 && orientation_mod == 0
    } else if constraints.first_piece == Some(ConstraintForFirstPiece::IgnoredOrientation)
        && is_first_piece {
        orientation == 0 && orientation_mod == IGNORED_ORIENTATION_MOD
    } else {
        orientation < orientations && orientation_mod == 0
    }
}

/// Whether the entry written at step `step` is what the constraints ask
/// for: the piece is the one that the shuffled order has there, with an
/// orientation that follows the constraints.
pub open spec fn entry_follows(
    constraints: OrbitRandomizationConstraints,
    orientations: u8,
    first_piece: u8,
    order: Seq<u8>,
    values: Seq<(u8, u8, u8)>,
    step: int,
) -> bool {
    let (piece, orientation, orientation_mod) = values[step];
    &&& piece == order[step]
    &&& orientation_follows(
        constraints,
        orientations,
        piece == first_piece,
        step == order.len() - 1,
        orientation_sum(values, step),
        orientation,
        orientation_mod,
    )
}

/// Whether `values`, one entry for each step, is an assignment that the
/// constraints allow for the shuffled order `order`.
pub open spec fn assignment_follows(
    constraints: OrbitRandomizationConstraints,
    orientations: u8,
    first_piece: u8,
    order: Seq<u8>,
    values: Seq<(u8, u8, u8)>,
) -> bool {
    &&& values.len() == order.len()
    &&& forall|step: int|
        0 <= step < order.len() ==> #[trigger] entry_follows(
            constraints,
            orientations,
            first_piece,
            order,
            values,
            step,
        )
}

/// Whether `order` is a shuffle that the constraints allow of the list
/// `original`: the pinned head stays, the rest holds the same pieces, an
/// identity constraint keeps the list, and a parity constraint is met by
/// the free pieces wherever no piece occurs twice among them.
pub open spec fn order_follows(
    constraints: OrbitRandomizationConstraints,
    original: Seq<u8>,
    order: Seq<u8>,
) -> bool {
    let pinned = constraints.pinned();
    &&& order.len() == original.len()
    &&& order.take(pinned) == original.take(pinned)
    &&& order.skip(pinned).to_multiset() == original.skip(pinned).to_multiset()
    &&& constraints.permutation == Some(OrbitPermutationConstraint::IdentityPermutation) ==> order
        == original
    &&& constraints.target_parity() is Some && original.skip(pinned).no_duplicates() ==> Some(
        parity_of(order.skip(pinned)),
    ) == constraints.target_parity()
}

/// The pieces that a list of slots holds.
pub open spec fn pieces_of(slots: Seq<(u8, u8, u8)>) -> Seq<u8> {
    Seq::new(slots.len(), |slot: int| slots[slot].0)
}

/// Writing one value to each slot of an orbit, in the order of the slots,
/// leaves the orbit holding exactly the values.
pub proof fn lemma_whole_orbit_is_written(slots: Seq<(u8, u8, u8)>, values: Seq<(u8, u8, u8)>)
    requires
        slots.len() == values.len() <= u8::MAX,
    ensures
        write_slots(slots, identity_order(slots.len()), values) == values,
{
    lemma_orbit_prefix_is_written(slots, values, slots.len());
    assert(identity_order(slots.len()).take(slots.len() as int) =~= identity_order(slots.len()));
    assert(values.take(slots.len() as int) =~= values);
    assert(values.take(slots.len() as int) + slots.skip(slots.len() as int) =~= values);
}

/// Writing one value to each of the first `count` slots of an orbit
/// replaces these slots by the values and leaves the others.
proof fn lemma_orbit_prefix_is_written(
    slots: Seq<(u8, u8, u8)>,
    values: Seq<(u8, u8, u8)>,
    count: nat,
)
    requires
        count <= slots.len() == values.len() <= u8::MAX,
    ensures
        write_slots(
            slots,
            identity_order(slots.len()).take(count as int),
            values.take(count as int),
        ) == values.take(count as int) + slots.skip(count as int),
    decreases count,
{
    let positions = identity_order(slots.len()).take(count as int);
    let written = values.take(count as int);
    if count == 0 {
        assert(written + slots.skip(0) =~= slots);
    } else {
        lemma_orbit_prefix_is_written(slots, values, (count - 1) as nat);
        assert(positions.drop_last() =~= identity_order(slots.len()).take(count - 1));
        assert(written.drop_last() =~= values.take(count - 1));
        assert(positions.last() == (count - 1) as u8);
        assert((values.take(count - 1) + slots.skip(count - 1)).update(
            count - 1,
            written.last(),
        ) =~= written + slots.skip(count as int));
    }
}

/// The orientation sum of a prefix does not depend on what follows it.
proof fn lemma_orientation_sum_prefix(values: Seq<(u8, u8, u8)>, longer: Seq<(u8, u8, u8)>, count: int)
    requires
        count <= values.len() <= longer.len(),
        forall|i: int| 0 <= i < values.len() ==> values[i] == longer[i],
    ensures
        orientation_sum(values, count) == orientation_sum(longer, count),
    decreases count,
{
    if count > 0 {
        lemma_orientation_sum_prefix(values, longer, count - 1);
    }
}

/// An entry that follows the constraints still does once more entries are
/// appended.
proof fn lemma_entry_follows_prefix(
    constraints: OrbitRandomizationConstraints,
    orientations: u8,
    first_piece: u8,
    order: Seq<u8>,
    values: Seq<(u8, u8, u8)>,
    longer: Seq<(u8, u8, u8)>,
    step: int,
)
    requires
        0 <= step < values.len() <= longer.len(),
        forall|i: int| 0 <= i < values.len() ==> values[i] == longer[i],
        entry_follows(constraints, orientations, first_piece, order, values, step),
    ensures
        entry_follows(constraints, orientations, first_piece, order, longer, step),
{
    lemma_orientation_sum_prefix(values, longer, step);
}

/// A list that holds the same entries as a list without duplicates has
/// none either.
proof fn lemma_rearrangement_has_no_duplicates(original: Seq<u8>, order: Seq<u8>)
    requires
        original.no_duplicates(),
        order.to_multiset() == original.to_multiset(),
    ensures
        order.no_duplicates(),
{
    original.lemma_multiset_has_no_duplicates();
    order.lemma_multiset_has_no_duplicates_conv();
}

/// An assignment that follows the constraints still does with one more
/// entry that follows them, and the orientation sum grows by the entry's
/// orientation: to a multiple of `orientations` where the sum is
/// constrained and the entry is the last.
proof fn lemma_assignment_grows(
    constraints: OrbitRandomizationConstraints,
    orientations: u8,
    first_piece: u8,
    order: Seq<u8>,
    values: Seq<(u8, u8, u8)>,
    entry: (u8, u8, u8),
)
    requires
        orientations > 0,
        values.len() < order.len(),
        forall|step: int|
            0 <= step < values.len() ==> #[trigger] entry_follows(
                constraints,
                orientations,
                first_piece,
                order,
                values,
                step,
            ),
        entry.0 == order[values.len() as int],
        orientation_follows(
            constraints,
            orientations,
            entry.0 == first_piece,
            values.len() == order.len() - 1,
            orientation_sum(values, values.len() as int),
            entry.1,
            entry.2,
        ),
    ensures
        forall|step: int|
            0 <= step < values.len() + 1 ==> #[trigger] entry_follows(
                constraints,
                orientations,
                first_piece,
                order,
                values.push(entry),
                step,
            ),
        orientation_sum(values.push(entry), (values.len() + 1) as int) == orientation_sum(
            values,
            values.len() as int,
        ) + entry.1,
        constraints.orientation is Some && values.len() == order.len() - 1 ==> orientation_sum(
            values.push(entry),
            (values.len() + 1) as int,
        ) % (orientations as int) == 0,
{
    let longer = values.push(entry);
    let count = values.len() as int;
    lemma_orientation_sum_prefix(values, longer, count);
    assert forall|step: int| 0 <= step < count + 1 implies #[trigger] entry_follows(
        constraints,
        orientations,
        first_piece,
        order,
        longer,
        step,
    ) by {
        if step < count {
            lemma_entry_follows_prefix(
                constraints,
                orientations,
                first_piece,
                order,
                values,
                longer,
                step,
            );
        }
    }
    if constraints.orientation is Some && count == order.len() - 1 {
        let sum = orientation_sum(values, count);
        let modulus = orientations as int;
        vstd::arithmetic::div_mod::lemma_add_mod_noop_right(sum, 0 - sum, modulus);
        vstd::arithmetic::div_mod::lemma_small_mod(0, modulus as nat);
        assert((sum + (0 - sum) % modulus) % modulus == (sum + (0 - sum)) % modulus);
    }
}

/// The orientation and the modulus for one piece: computed where the sum
/// is constrained and the piece is the last, fixed for a first piece with
/// a constraint, drawn at random else. `total_orientation` is the sum of
/// the orientations before, reduced.
fn pick_orientation(
    rng: &mut ThreadRng,
    constraints: &OrbitRandomizationConstraints,
    orientations: u8,
    is_first_piece: bool,
    is_last_shuffled_piece: bool,
    total_orientation: u8,
    Ghost(sum_before): Ghost<int>,
) -> (picked: (u8, u8))
    requires
        orientations > 0,
        total_orientation == sum_before % (orientations as int),
    ensures
        orientation_follows(
            *constraints,
            orientations,
            is_first_piece,
            is_last_shuffled_piece,
            sum_before,
            picked.0,
            picked.1,
        ),
        picked.0 < orientations,
        picked.1 == 0 || picked == (0u8, IGNORED_ORIENTATION_MOD),
{
    let summed: bool = match constraints.orientation {
        Some(OrbitOrientationConstraint::SumToZero) => true,
        None => false,
    };
    if summed && is_last_shuffled_piece {
        proof {
            vstd::arithmetic::div_mod::lemma_sub_mod_noop_right(
                0,
                sum_before,
                orientations as int,
            );
            vstd::arithmetic::div_mod::lemma_mod_bound(0 - sum_before, orientations as int);
        }
        (subtract_u8_mod(0, total_orientation, orientations), 0)
    } else if is_first_piece && matches!(
        constraints.first_piece,
        Some(ConstraintForFirstPiece::KeepSolved)
    ) {
        (0, 0)
    } else if is_first_piece && matches!(
        constraints.first_piece,
        Some(ConstraintForFirstPiece::IgnoredOrientation)
    ) {
        (0, IGNORED_ORIENTATION_MOD)
    } else {
        (gen_below(rng, orientations), 0)
    }
}

/// Whether an orbit of a pattern can be randomized under `constraints`:
/// the pattern has the orbit, under the name `orbit_name`, the orbit's
/// orientations are packable, the list of slots to randomize is not empty
/// and names slots of the orbit only, and where odd parity is asked for at
/// least two entries of the list are free.
pub open spec fn can_randomize_orbit(
    pattern: KPattern,
    orbit_idx: int,
    orbit_name: Seq<char>,
    constraints: OrbitRandomizationConstraints,
) -> bool {
    let requested = constraints.requested_order(num_pieces(pattern, orbit_idx));
    &&& has_orbit(pattern, orbit_idx)
    &&& orbit_layout(pattern)[orbit_idx].0 == orbit_name
    &&& orientations_are_packable(num_orientations(pattern, orbit_idx))
    &&& requested.len() > 0
    &&& forall|i: int|
        0 <= i < requested.len() ==> #[trigger] requested[i] < num_pieces(pattern, orbit_idx)
    &&& constraints.target_parity() == Some(BasicParity::Odd) ==> requested.len()
        - constraints.pinned() >= 2
}

/// Whether `after` is `before` with the orbit `orbit_idx` randomized under
/// `constraints`, and `order` the order of the randomized pieces: the
/// order follows the constraints, every other orbit is as it was, and the
/// slots of the orbit, one for each of its pieces, are written, in the
/// order of the list, with the pieces of `order` and orientations that
/// follow the constraints.
pub open spec fn orbit_is_randomized(
    before: KPattern,
    after: KPattern,
    orbit_idx: int,
    constraints: OrbitRandomizationConstraints,
    order: Seq<u8>,
) -> bool {
    let requested = constraints.requested_order(num_pieces(before, orbit_idx));
    let orientations = num_orientations(before, orbit_idx);
    &&& order_follows(constraints, requested, order)
    &&& orbit_layout(after) == orbit_layout(before)
    &&& orbit_slots(after).len() == orbit_slots(before).len()
    &&& orbit_slots(before)[orbit_idx].len() == num_pieces(before, orbit_idx)
    &&& forall|other: int|
        0 <= other < orbit_slots(before).len() && other != orbit_idx ==> #[trigger] orbit_slots(
            after,
        )[other] == orbit_slots(before)[other]
    &&& exists|values: Seq<(u8, u8, u8)>|
        {
            &&& #[trigger] assignment_follows(
                constraints,
                orientations,
                requested[0],
                order,
                values,
            )
            &&& orbit_slots(after)[orbit_idx] == write_slots(
                orbit_slots(before)[orbit_idx],
                requested,
                values,
            )
            &&& constraints.orientation is Some ==> orientation_sum(values, values.len() as int) % (
            orientations as int) == 0
        }
    &&& constraints.subset is None ==> {
        &&& pieces_of(orbit_slots(after)[orbit_idx]) == order
        &&& constraints.orientation is Some ==> orientation_sum(
            orbit_slots(after)[orbit_idx],
            order.len() as int,
        ) % (orientations as int) == 0
    }
}

/// Selects a random order for the pieces of one orbit and a random
/// orientation for each piece, subject to `constraints`, and writes both
/// into `pattern`. Returns the order of the randomized pieces.
///
/// The list of slots is shuffled, but for a pinned first entry, and
/// brought to the requested parity by exchanging its first two free
/// entries. Entry `k` of the shuffled list is then written to the slot
/// that entry `k` of the list named before the shuffle, together with an
/// orientation; the last orientation is computed, not drawn, where the sum
/// is constrained.
///
/// [`try_randomize_orbit`] tests what this function requires.
#[verifier::rlimit(60)]
pub fn randomize_orbit_naive(
    pattern: &mut KPattern,
    orbit_idx: usize,
    orbit_name: &str,
    constraints: OrbitRandomizationConstraints,
) -> (order: Vec<u8>)
    requires
        can_randomize_orbit(*old(pattern), orbit_idx as int, orbit_name@, constraints),
    ensures
        orbit_is_randomized(*old(pattern), *final(pattern), orbit_idx as int, constraints, order@),
        constraints_are_met(*old(pattern), *final(pattern), orbit_idx as int, constraints, order@),
{
    let pieces: u8 = orbit_num_pieces(pattern, orbit_idx);
    let orientations: u8 = orbit_num_orientations(pattern, orbit_idx);
    let ghost original = constraints.requested_order(pieces);
    let ghost pinned = constraints.pinned();

    let mut rng = thread_rng();
    let piece_order_original: Vec<u8> = match &constraints.subset {
        Some(subset) => copy_order(subset),
        None => whole_orbit(pieces),
    };
    let mut piece_order_shuffled: Vec<u8> = copy_order(&piece_order_original);
    let first_randomized_piece: u8 = piece_order_shuffled[0];
    let first_shuffled_piece_order_index: usize = if matches!(
        constraints.first_piece,
        Some(ConstraintForFirstPiece::KeepSolved)
    ) {
        1
    } else {
        0
    };
    let ghost shuffled_tail: Seq<u8> = Seq::empty();
    {
        let (kept, shuffling_slice) = piece_order_shuffled.as_mut_slice().split_at_mut(
            first_shuffled_piece_order_index,
        );
        assert(shuffling_slice@ == original.skip(pinned));
        match constraints.permutation {
            None => {
                shuffle(shuffling_slice, &mut rng);
            },
            Some(OrbitPermutationConstraint::EvenParity) => {
                shuffle(shuffling_slice, &mut rng);
                proof {
                    lemma_shuffle_can_be_brought_to_parity(original.skip(pinned), shuffling_slice@);
                }
                set_parity(shuffling_slice, BasicParity::Even);
            },
            Some(OrbitPermutationConstraint::SingleOrbitEvenParity) => {
                shuffle(shuffling_slice, &mut rng);
                proof {
                    lemma_shuffle_can_be_brought_to_parity(original.skip(pinned), shuffling_slice@);
                }
                set_parity(shuffling_slice, BasicParity::Even);
            },
            Some(OrbitPermutationConstraint::OddParity) => {
                shuffle(shuffling_slice, &mut rng);
                proof {
                    lemma_shuffle_can_be_brought_to_parity(original.skip(pinned), shuffling_slice@);
                }
                set_parity(shuffling_slice, BasicParity::Odd);
            },
            Some(OrbitPermutationConstraint::IdentityPermutation) => {},
        }
        proof {
            shuffled_tail = shuffling_slice@;
            vstd::seq_lib::to_multiset_len(shuffled_tail);
            vstd::seq_lib::to_multiset_len(original.skip(pinned));
        }
        assert(kept@ == original.take(pinned));
    }
    proof {
        let order = piece_order_shuffled@;
        assert(order == original.take(pinned) + shuffled_tail);
        assert(order.take(pinned) =~= original.take(pinned));
        assert(order.skip(pinned) =~= shuffled_tail);
        if constraints.permutation == Some(OrbitPermutationConstraint::IdentityPermutation) {
            assert(order =~= original);
        }
        assert(order_follows(constraints, original, order));
        vstd::arithmetic::div_mod::lemma_small_mod(0, orientations as nat);
    }

    let ghost slots_before = orbit_slots(*pattern)[orbit_idx as int];
    let ghost values: Seq<(u8, u8, u8)> = Seq::empty();
    let mut total_orientation: u8 = 0;
    let mut shuffled_i: usize = 0;
    while shuffled_i < piece_order_original.len()
        invariant
            shuffled_i <= piece_order_original@.len(),
            piece_order_original@ == original,
            piece_order_shuffled@.len() == original.len(),
            original.len() > 0,
            first_randomized_piece == original[0],
            forall|i: int| 0 <= i < original.len() ==> #[trigger] original[i] < pieces,
            has_orbit(*pattern, orbit_idx as int),
            orbit_layout(*pattern) == orbit_layout(*old(pattern)),
            pieces == num_pieces(*pattern, orbit_idx as int),
            orientations == num_orientations(*pattern, orbit_idx as int),
            orientations > 0,
            orientations_are_packable(orientations),
            orbit_slots(*pattern).len() == orbit_slots(*old(pattern)).len(),
            forall|other: int|
                0 <= other < orbit_slots(*old(pattern)).len() && other != orbit_idx
                    ==> #[trigger] orbit_slots(*pattern)[other] == orbit_slots(*old(pattern))[other],
            slots_before == orbit_slots(*old(pattern))[orbit_idx as int],
            slots_before.len() == pieces,
            values.len() == shuffled_i,
            orbit_slots(*pattern)[orbit_idx as int] == write_slots(
                slots_before,
                original.take(shuffled_i as int),
                values,
            ),
            orbit_slots(*pattern)[orbit_idx as int].len() == pieces,
            forall|step: int|
                0 <= step < shuffled_i ==> #[trigger] entry_follows(
                    constraints,
                    orientations,
                    first_randomized_piece,
                    piece_order_shuffled@,
                    values,
                    step,
                ),
            total_orientation == orientation_sum(values, shuffled_i as int) % (orientations as int),
            constraints.orientation is Some && shuffled_i == original.len() ==> orientation_sum(
                values,
                shuffled_i as int,
            ) % (orientations as int) == 0,
        decreases piece_order_original@.len() - shuffled_i,
    {
        let p: u8 = piece_order_shuffled[shuffled_i];
        let original_i: u8 = piece_order_original[shuffled_i];
        let ghost slots_now = orbit_slots(*pattern)[orbit_idx as int];
        set_piece(pattern, orbit_idx, original_i, p);
        let is_last_shuffled_piece: bool = shuffled_i == piece_order_original.len() - 1;
        let picked = pick_orientation(
            &mut rng,
            &constraints,
            orientations,
            p == first_randomized_piece,
            is_last_shuffled_piece,
            total_orientation,
            Ghost(orientation_sum(values, shuffled_i as int)),
        );
        total_orientation = add_u8_mod(total_orientation, picked.0, orientations);
        set_orientation_with_mod(pattern, orbit_idx, original_i, picked.0, picked.1);
        proof {
            let entry = (p, picked.0, picked.1);
            lemma_assignment_grows(
                constraints,
                orientations,
                first_randomized_piece,
                piece_order_shuffled@,
                values,
                entry,
            );
            vstd::arithmetic::div_mod::lemma_add_mod_noop(
                orientation_sum(values, shuffled_i as int),
                picked.0 as int,
                orientations as int,
            );
            vstd::arithmetic::div_mod::lemma_small_mod(picked.0 as nat, orientations as nat);
            let next = original.take(shuffled_i + 1);
            assert(next.drop_last() =~= original.take(shuffled_i as int));
            assert(values.push(entry).drop_last() =~= values);
            assert(orbit_slots(*pattern)[orbit_idx as int] =~= slots_now.update(
                original_i as int,
                entry,
            ));
            values = values.push(entry);
        }
        shuffled_i += 1;
    }
    proof {
        assert(original.take(original.len() as int) =~= original);
        assert(assignment_follows(
            constraints,
            orientations,
            first_randomized_piece,
            piece_order_shuffled@,
            values,
        ));
        if constraints.subset is None {
            lemma_whole_orbit_is_written(slots_before, values);
            assert forall|slot: int| 0 <= slot < values.len() implies values[slot].0
                == piece_order_shuffled@[slot] by {
                assert(entry_follows(
                    constraints,
                    orientations,
                    first_randomized_piece,
                    piece_order_shuffled@,
                    values,
                    slot,
                ));
            }
            assert(pieces_of(values) =~= piece_order_shuffled@);
        }
        assert(orbit_is_randomized(
            *old(pattern),
            *pattern,
            orbit_idx as int,
            constraints,
            piece_order_shuffled@,
        ));
        lemma_randomized_orbit_meets_constraints(
            *old(pattern),
            *pattern,
            orbit_idx as int,
            orbit_name@,
            constraints,
            piece_order_shuffled@,
        );
    }
    piece_order_shuffled
}

/// Whether every entry of a list is less than the entries after it.
pub open spec fn is_ascending(list: Seq<u8>) -> bool {
    forall|i: int, j: int| 0 <= i < j < list.len() ==> #[trigger] list[i] < #[trigger] list[j]
}

/// The sum of the orientations of the slots that the first `count` entries
/// of `listed` name.
pub open spec fn listed_orientation_sum(
    slots: Seq<(u8, u8, u8)>,
    listed: Seq<u8>,
    count: int,
) -> int
    decreases count,
{
    if count <= 0 {
        0
    } else {
        listed_orientation_sum(slots, listed, count - 1) + slots[listed[count - 1] as int].1
    }
}

/// Whether the constraints on parity and on the sum of the orientations
/// are met by a randomized orbit as a whole: the whole order has the parity
/// asked for, where the list of slots is ascending, and the orientations
/// of the listed slots add up to a multiple of the orbit's number of
/// orientations, where the sum is constrained and no slot is listed twice.
pub open spec fn constraints_are_met(
    before: KPattern,
    after: KPattern,
    orbit_idx: int,
    constraints: OrbitRandomizationConstraints,
    order: Seq<u8>,
) -> bool {
    let requested = constraints.requested_order(num_pieces(before, orbit_idx));
    &&& constraints.target_parity() is Some && requested.len() > 0 && is_ascending(requested)
        ==> Some(parity_of(order)) == constraints.target_parity()
    &&& constraints.orientation is Some && requested.no_duplicates() ==> listed_orientation_sum(
        orbit_slots(after)[orbit_idx],
        requested,
        requested.len() as int,
    ) % (num_orientations(before, orbit_idx) as int) == 0
}

/// The list of all slots of an orbit is ascending.
pub proof fn lemma_identity_order_is_ascending(pieces: u8)
    ensures
        is_ascending(identity_order(pieces as nat)),
{
}

/// The entries of a list that are greater than a value are those of the
/// list without its head, and the head where it is greater.
proof fn lemma_count_greater_without_head(list: Seq<u8>, value: u8)
    requires
        list.len() >= 1,
    ensures
        count_greater(list, value) == count_greater(list.skip(1), value) + if list[0] > value {
            1nat
        } else {
            0nat
        },
    decreases list.len(),
{
    if list.len() == 1 {
        assert(list.drop_last() =~= Seq::<u8>::empty());
        assert(list.skip(1) =~= Seq::<u8>::empty());
        assert(count_greater(list.drop_last(), value) == 0);
    } else {
        lemma_count_greater_without_head(list.drop_last(), value);
        assert(list.skip(1).drop_last() =~= list.drop_last().skip(1));
        assert(list.skip(1).last() == list.last());
    }
}

/// A head that no later entry is less than is in no inversion.
proof fn lemma_least_head_adds_no_inversion(list: Seq<u8>)
    requires
        list.len() >= 1,
        forall|i: int| 1 <= i < list.len() ==> list[0] <= #[trigger] list[i],
    ensures
        inversions(list) == inversions(list.skip(1)),
    decreases list.len(),
{
    if list.len() == 1 {
        assert(list.drop_last() =~= Seq::<u8>::empty());
        assert(list.skip(1) =~= Seq::<u8>::empty());
        assert(inversions(list.drop_last()) == 0);
        assert(count_greater(list.drop_last(), list.last()) == 0);
    } else {
        let shorter = list.drop_last();
        lemma_least_head_adds_no_inversion(shorter);
        lemma_count_greater_without_head(shorter, list.last());
        assert(list.skip(1).drop_last() =~= shorter.skip(1));
        assert(list.skip(1).last() == list.last());
        assert(shorter[0] <= list[list.len() - 1]);
    }
}

/// The order that a randomization returns for an ascending list of slots
/// has, as a whole, the parity that the constraints ask for, whether or
/// not its first entry is pinned.
pub proof fn lemma_order_of_ascending_list_has_requested_parity(
    constraints: OrbitRandomizationConstraints,
    requested: Seq<u8>,
    order: Seq<u8>,
)
    requires
        order_follows(constraints, requested, order),
        constraints.target_parity() is Some,
        requested.len() >= constraints.pinned(),
        is_ascending(requested),
    ensures
        Some(parity_of(order)) == constraints.target_parity(),
{
    let pinned = constraints.pinned();
    let free = requested.skip(pinned);
    assert(free.no_duplicates()) by {
        assert forall|i: int, j: int| 0 <= i < free.len() && 0 <= j < free.len() && i != j implies free[i]
            != free[j] by {
            if i < j {
                assert(requested[i + pinned] < requested[j + pinned]);
            } else {
                assert(requested[j + pinned] < requested[i + pinned]);
            }
        }
    }
    if pinned == 0 || order.len() == 0 {
        assert(order.skip(pinned) =~= order);
    } else {
        assert(order.take(1)[0] == requested.take(1)[0]);
        assert forall|i: int| 1 <= i < order.len() implies order[0] <= #[trigger] order[i] by {
            let rest = order.skip(1);
            assert(rest[i - 1] == order[i]);
            vstd::seq_lib::to_multiset_contains(rest, order[i]);
            vstd::seq_lib::to_multiset_contains(free, order[i]);
            assert(rest.contains(order[i]));
            assert(free.contains(order[i]));
            let at = choose|at: int| 0 <= at < free.len() && free[at] == order[i];
            assert(requested[0] < requested[at + 1]);
        }
        lemma_least_head_adds_no_inversion(order);
    }
}

/// Where no slot is listed twice, every listed slot holds, after the
/// writing, the value that was written to it.
pub proof fn lemma_listed_slots_hold_their_values(
    slots: Seq<(u8, u8, u8)>,
    listed: Seq<u8>,
    values: Seq<(u8, u8, u8)>,
)
    requires
        listed.no_duplicates(),
        listed.len() == values.len(),
        forall|j: int| 0 <= j < listed.len() ==> #[trigger] listed[j] < slots.len(),
    ensures
        write_slots(slots, listed, values).len() == slots.len(),
        forall|j: int|
            0 <= j < listed.len() ==> write_slots(slots, listed, values)[(#[trigger] listed[j]) as int]
                == values[j],
    decreases listed.len(),
{
    if listed.len() > 0 {
        let earlier = listed.drop_last();
        let written = write_slots(slots, earlier, values.drop_last());
        assert(earlier.no_duplicates()) by {
            assert forall|i: int, j: int|
                0 <= i < earlier.len() && 0 <= j < earlier.len() && i != j implies earlier[i]
                != earlier[j] by {
                assert(listed[i] != listed[j]);
            }
        }
        assert forall|j: int| 0 <= j < earlier.len() implies #[trigger] earlier[j] < slots.len() by {
            assert(listed[j] < slots.len());
        }
        lemma_listed_slots_hold_their_values(slots, earlier, values.drop_last());
        assert forall|j: int| 0 <= j < listed.len() implies write_slots(slots, listed, values)[(
        #[trigger] listed[j]) as int] == values[j] by {
            if j < listed.len() - 1 {
                assert(earlier[j] == listed[j]);
                assert(listed[j] != listed[listed.len() - 1]);
                assert(written[earlier[j] as int] == values.drop_last()[j]);
            } else {
                assert(listed[j] < slots.len());
            }
        }
    }
}

/// The orientations of the listed slots add up to what the orientations
/// written to them add up to, where no slot is listed twice.
pub proof fn lemma_listed_orientations_add_up(
    slots: Seq<(u8, u8, u8)>,
    listed: Seq<u8>,
    values: Seq<(u8, u8, u8)>,
    count: int,
)
    requires
        listed.no_duplicates(),
        listed.len() == values.len(),
        0 <= count <= listed.len(),
        forall|j: int| 0 <= j < listed.len() ==> #[trigger] listed[j] < slots.len(),
    ensures
        listed_orientation_sum(write_slots(slots, listed, values), listed, count) == orientation_sum(
            values,
            count,
        ),
    decreases count,
{
    if count > 0 {
        lemma_listed_orientations_add_up(slots, listed, values, count - 1);
        lemma_listed_slots_hold_their_values(slots, listed, values);
        assert(write_slots(slots, listed, values)[listed[count - 1] as int] == values[count - 1]);
    }
}

/// Whatever is drawn, a randomized orbit meets the constraints as a
/// whole: the order returned has the parity asked for, where the list of
/// slots is ascending, and the orientations of the listed slots add up to
/// a multiple of the orbit's number of orientations, where the sum is
/// constrained and no slot is listed twice.
pub proof fn lemma_randomized_orbit_meets_constraints(
    before: KPattern,
    after: KPattern,
    orbit_idx: int,
    orbit_name: Seq<char>,
    constraints: OrbitRandomizationConstraints,
    order: Seq<u8>,
)
    requires
        can_randomize_orbit(before, orbit_idx, orbit_name, constraints),
        orbit_is_randomized(before, after, orbit_idx, constraints, order),
    ensures
        constraints_are_met(before, after, orbit_idx, constraints, order),
{
    let requested = constraints.requested_order(num_pieces(before, orbit_idx));
    let slots_before = orbit_slots(before)[orbit_idx];
    if constraints.target_parity() is Some && is_ascending(requested) {
        lemma_order_of_ascending_list_has_requested_parity(constraints, requested, order);
    }
    if constraints.orientation is Some && requested.no_duplicates() {
        let orientations = num_orientations(before, orbit_idx);
        let values = choose|values: Seq<(u8, u8, u8)>|
            {
                &&& #[trigger] assignment_follows(
                    constraints,
                    orientations,
                    requested[0],
                    order,
                    values,
                )
                &&& orbit_slots(after)[orbit_idx] == write_slots(slots_before, requested, values)
                &&& constraints.orientation is Some ==> orientation_sum(
                    values,
                    values.len() as int,
                ) % (orientations as int) == 0
            };
        lemma_listed_orientations_add_up(slots_before, requested, values, requested.len() as int);
    }
}

/// Randomizes an orbit as [`randomize_orbit_naive`] does, where the orbit
/// can be randomized under `constraints`; else the pattern is left as it
/// is and `None` is returned. Whatever is drawn, the order returned has
/// the parity asked for and the orientations written add up as asked for.
pub fn try_randomize_orbit(
    pattern: &mut KPattern,
    orbit_idx: usize,
    orbit_name: &str,
    constraints: OrbitRandomizationConstraints,
) -> (randomized: Option<Vec<u8>>)
    ensures
        match randomized {
            Some(order) => can_randomize_orbit(
                *old(pattern),
                orbit_idx as int,
                orbit_name@,
                constraints,
            ) && orbit_is_randomized(
                *old(pattern),
                *final(pattern),
                orbit_idx as int,
                constraints,
                order@,
            ) && constraints_are_met(
                *old(pattern),
                *final(pattern),
                orbit_idx as int,
                constraints,
                order@,
            ),
            None => !can_randomize_orbit(*old(pattern), orbit_idx as int, orbit_name@, constraints)
                && *final(pattern) == *old(pattern),
        },
{
    if orbit_idx >= orbit_count(pattern) {
        return None;
    }
    if !orbit_name_is(pattern, orbit_idx, orbit_name) {
        return None;
    }
    let pieces = orbit_num_pieces(pattern, orbit_idx);
    if !are_orientations_packable(orbit_num_orientations(pattern, orbit_idx)) {
        return None;
    }
    let ghost requested = constraints.requested_order(pieces);
    let listed: usize = match &constraints.subset {
        Some(subset) => {
            let mut i: usize = 0;
            while i < subset.len()
                invariant
                    i <= subset@.len(),
                    requested == subset@,
                    requested == constraints.requested_order(pieces),
                    pieces == num_pieces(*pattern, orbit_idx as int),
                    forall|j: int| 0 <= j < i ==> #[trigger] subset@[j] < pieces,
                decreases subset@.len() - i,
            {
                if subset[i] >= pieces {
                    assert(!(requested[i as int] < pieces));
                    return None;
                }
                i += 1;
            }
            subset.len()
        },
        None => pieces as usize,
    };
    assert(listed == requested.len());
    if listed == 0 {
        return None;
    }
    let pinned: usize = match constraints.first_piece {
        Some(ConstraintForFirstPiece::KeepSolved) => 1,
        _ => 0,
    };
    let odd: bool = match constraints.permutation {
        Some(OrbitPermutationConstraint::OddParity) => true,
        _ => false,
    };
    if odd && listed - pinned < 2 {
        return None;
    }
    let order = randomize_orbit_naive(pattern, orbit_idx, orbit_name, constraints);
    Some(order)
}

/// After a shuffle of a list without duplicates the first two entries
/// differ, so bringing the list to a parity succeeds.
proof fn lemma_shuffle_can_be_brought_to_parity(original: Seq<u8>, shuffled: Seq<u8>)
    requires
        shuffled.to_multiset() == original.to_multiset(),
    ensures
        shuffled.len() == original.len(),
        original.no_duplicates() && shuffled.len() >= 2 ==> shuffled[0] != shuffled[1],
        shuffled.len() < 2 ==> parity_of(shuffled) == BasicParity::Even,
{
    vstd::seq_lib::to_multiset_len(original);
    vstd::seq_lib::to_multiset_len(shuffled);
    if original.no_duplicates() {
        lemma_rearrangement_has_no_duplicates(original, shuffled);
    }
    if shuffled.len() < 2 {
        lemma_short_order_is_even(shuffled);
    }
}

/// The list of all slots of an orbit of `pieces` pieces.
fn whole_orbit(pieces: u8) -> (order: Vec<u8>)
    ensures
        order@ == identity_order(pieces as nat),
{
    let mut order: Vec<u8> = Vec::new();
    let mut slot: u8 = 0;
    while slot < pieces
        invariant
            slot <= pieces,
            order@ == identity_order(slot as nat),
        decreases pieces - slot,
    {
        order.push(slot);
        slot += 1;
        assert(order@ =~= identity_order(slot as nat));
    }
    order
}

/// A copy of a list of pieces.
fn copy_order(order: &Vec<u8>) -> (copy: Vec<u8>)
    ensures
        copy@ == order@,
{
    let copy = order.clone();
    assert(copy@ =~= order@);
    copy
}

/// Whether the slots of an orbit hold a random state: every piece of the
/// orbit once, each with an orientation of the orbit, and the orientations
/// add up to a multiple of the orbit's number of orientations.
pub open spec fn is_randomized_orbit(slots: Seq<(u8, u8, u8)>, pieces: u8, orientations: u8) -> bool {
    &&& slots.len() == pieces
    &&& pieces_of(slots).to_multiset() == identity_order(pieces as nat).to_multiset()
    &&& forall|slot: int|
        0 <= slot < slots.len() ==> (#[trigger] slots[slot]).1 < orientations && slots[slot].2 == 0
    &&& orientation_sum(slots, pieces as int) % (orientations as int) == 0
}

/// The list of all slots of an orbit names no slot twice.
pub proof fn lemma_identity_order_has_no_duplicates(pieces: u8)
    ensures
        identity_order(pieces as nat).no_duplicates(),
        identity_order(pieces as nat).skip(0) == identity_order(pieces as nat),
{
    assert(identity_order(pieces as nat).skip(0) =~= identity_order(pieces as nat));
}

/// What a call that randomizes a whole orbit, with orientations that sum
/// to zero and no constraint on the first piece, leaves in the orbit.
pub proof fn lemma_orbit_is_randomized(
    constraints: OrbitRandomizationConstraints,
    before: Seq<(u8, u8, u8)>,
    after: Seq<(u8, u8, u8)>,
    pieces: u8,
    orientations: u8,
    order: Seq<u8>,
)
    requires
        orientations > 0,
        constraints.subset is None,
        constraints.first_piece is None,
        constraints.orientation is Some,
        before.len() == pieces,
        order.len() == pieces,
        order.to_multiset() == identity_order(pieces as nat).to_multiset(),
        pieces_of(after) == order,
        orientation_sum(after, pieces as int) % (orientations as int) == 0,
        exists|values: Seq<(u8, u8, u8)>|
            {
                &&& #[trigger] assignment_follows(
                    constraints,
                    orientations,
                    identity_order(pieces as nat)[0],
                    order,
                    values,
                )
                &&& after == write_slots(before, identity_order(pieces as nat), values)
            },
    ensures
        is_randomized_orbit(after, pieces, orientations),
{
    let values = choose|values: Seq<(u8, u8, u8)>|
        {
            &&& #[trigger] assignment_follows(
                constraints,
                orientations,
                identity_order(pieces as nat)[0],
                order,
                values,
            )
            &&& after == write_slots(before, identity_order(pieces as nat), values)
        };
    lemma_whole_orbit_is_written(before, values);
    assert forall|slot: int| 0 <= slot < after.len() implies (#[trigger] after[slot]).1
        < orientations && after[slot].2 == 0 by {
        assert(entry_follows(
            constraints,
            orientations,
            identity_order(pieces as nat)[0],
            order,
            values,
            slot,
        ));
        if slot == order.len() - 1 {
            vstd::arithmetic::div_mod::lemma_mod_bound(
                0 - orientation_sum(values, slot),
                orientations as int,
            );
        }
    }
}

} // verus!
