use cubing::kpuzzle::KPattern;
use cubing::kpuzzle::OrientationWithMod;
use vstd::prelude::*;

verus! {

/// `cubing::kpuzzle::KPattern`: a pattern of a puzzle, which knows its
/// puzzle. Its contents are read and written through the functions below.
#[verifier::external_type_specification]
#[verifier::external_body]
pub struct ExKPattern(KPattern);

/// The orbits of the puzzle that a pattern belongs to, in the puzzle's own
/// order: each orbit's name, its number of pieces and its number of
/// orientations.
pub uninterp spec fn orbit_layout(pattern: KPattern) -> Seq<(Seq<char>, u8, u8)>;

/// What a pattern holds: for each orbit, for each slot, the piece in it,
/// its orientation and its orientation modulus.
pub uninterp spec fn orbit_slots(pattern: KPattern) -> Seq<Seq<(u8, u8, u8)>>;

/// The orientation modulus that marks a slot's orientation as ignored.
pub const IGNORED_ORIENTATION_MOD: u8 = 1;

/// Whether `orbit` is an orbit of the pattern's puzzle.
pub open spec fn has_orbit(pattern: KPattern, orbit: int) -> bool {
    0 <= orbit < orbit_layout(pattern).len()
}

/// The number of pieces, and so of slots, of an orbit.
pub open spec fn num_pieces(pattern: KPattern, orbit: int) -> u8 {
    orbit_layout(pattern)[orbit].1
}

/// The number of orientations of the pieces of an orbit.
pub open spec fn num_orientations(pattern: KPattern, orbit: int) -> u8 {
    orbit_layout(pattern)[orbit].2
}

/// Whether an orientation and its modulus may be stored in an orbit of
/// `orientations` orientations.
pub open spec fn orientation_fits(orientations: u8, orientation: u8, orientation_mod: u8) -> bool {
    if orientation_mod == 0 {
        orientation < orientations
    } else {
        orientation < orientation_mod && orientations % orientation_mod == 0
    }
}

/// The sum of the divisors of `number` that are at most `upto`.
pub open spec fn divisor_sum(number: int, upto: int) -> int
    decreases upto,
{
    if upto <= 0 {
        0
    } else {
        divisor_sum(number, upto - 1) + if number % upto == 0 {
            upto
        } else {
            0
        }
    }
}

/// The greatest number of orientations of an orbit of a puzzle.
pub const MAX_NUM_ORIENTATIONS: u8 = 107;

/// The greatest number of pairs of an orientation and a modulus that a
/// pattern can tell apart in one slot.
pub const MAX_PACKED_ORIENTATIONS: u16 = 255;

/// Whether a pattern can hold the orientations of an orbit of
/// `orientations` orientations. A pattern keeps an orientation and its
/// modulus in one byte, which must tell apart every pair that fits the
/// orbit: the orientations of modulus 0, as many as the orbit has, and for
/// each divisor of that number as many as the divisor.
pub open spec fn orientations_are_packable(orientations: u8) -> bool {
    &&& 1 <= orientations <= MAX_NUM_ORIENTATIONS
    &&& orientations + divisor_sum(orientations as int, orientations as int)
        <= MAX_PACKED_ORIENTATIONS
}

/// Whether a pattern can hold the orientations of every one of its orbits.
pub open spec fn orbits_are_packable(pattern: KPattern) -> bool {
    forall|orbit: int|
        0 <= orbit < orbit_layout(pattern).len() ==> orientations_are_packable(
            (#[trigger] orbit_layout(pattern)[orbit]).2,
        )
}

/// Whether a pattern can hold the orientations of an orbit of
/// `orientations` orientations.
pub fn are_orientations_packable(orientations: u8) -> (packable: bool)
    ensures
        packable == orientations_are_packable(orientations),
{
    if orientations == 0 || orientations > MAX_NUM_ORIENTATIONS {
        return false;
    }
    let mut sum: u16 = 0;
    let mut divisor: u8 = 0;
    while divisor < orientations
        invariant
            divisor <= orientations <= MAX_NUM_ORIENTATIONS,
            sum == divisor_sum(orientations as int, divisor as int),
            sum <= MAX_NUM_ORIENTATIONS * divisor,
        decreases orientations - divisor,
    {
        divisor += 1;
        if orientations % divisor == 0 {
            sum += divisor as u16;
        }
    }
    orientations as u16 + sum <= MAX_PACKED_ORIENTATIONS
}

/// Whether a pattern can hold the orientations of every one of its orbits.
pub fn are_orbits_packable(pattern: &KPattern) -> (packable: bool)
    ensures
        packable == orbits_are_packable(*pattern),
{
    let count = orbit_count(pattern);
    let mut orbit: usize = 0;
    while orbit < count
        invariant
            orbit <= count == orbit_layout(*pattern).len(),
            forall|done: int|
                0 <= done < orbit ==> orientations_are_packable(
                    (#[trigger] orbit_layout(*pattern)[done]).2,
                ),
        decreases count - orbit,
    {
        if !are_orientations_packable(orbit_num_orientations(pattern, orbit)) {
            return false;
        }
        orbit += 1;
    }
    true
}

/// The number of orbits, read from the puzzle's ordered orbit list. The
/// pattern holds one list of slots per orbit.
#[verifier::external_body]
pub(crate) fn orbit_count(pattern: &KPattern) -> (count: usize)
    ensures
        count == orbit_layout(*pattern).len(),
        count == orbit_slots(*pattern).len(),
{
    pattern.kpuzzle().data.ordered_orbit_info.len()
}

/// `num_pieces` of the orbit's info. The pattern holds that many slots for
/// the orbit.
#[verifier::external_body]
pub(crate) fn orbit_num_pieces(pattern: &KPattern, orbit: usize) -> (pieces: u8)
    requires
        has_orbit(*pattern, orbit as int),
    ensures
        pieces == num_pieces(*pattern, orbit as int),
        pieces == orbit_slots(*pattern)[orbit as int].len(),
{
    pattern.kpuzzle().data.ordered_orbit_info[orbit].num_pieces
}

/// `num_orientations` of the orbit's info.
#[verifier::external_body]
pub(crate) fn orbit_num_orientations(pattern: &KPattern, orbit: usize) -> (orientations: u8)
    requires
        has_orbit(*pattern, orbit as int),
    ensures
        orientations == num_orientations(*pattern, orbit as int),
{
    pattern.kpuzzle().data.ordered_orbit_info[orbit].num_orientations
}

/// Compares the orbit's name with `name`.
#[verifier::external_body]
pub(crate) fn orbit_name_is(pattern: &KPattern, orbit: usize, name: &str) -> (same: bool)
    requires
        has_orbit(*pattern, orbit as int),
    ensures
        same == (orbit_layout(*pattern)[orbit as int].0 == name@),
{
    pattern.kpuzzle().data.ordered_orbit_info[orbit].name.0 == name
}

/// `KPattern::get_piece`, which panics for a slot outside the orbit.
#[verifier::external_body]
pub(crate) fn get_piece(pattern: &KPattern, orbit: usize, slot: u8) -> (piece: u8)
    requires
        has_orbit(*pattern, orbit as int),
        slot < num_pieces(*pattern, orbit as int),
    ensures
        piece == orbit_slots(*pattern)[orbit as int][slot as int].0,
{
    pattern.get_piece(&pattern.kpuzzle().data.ordered_orbit_info[orbit], slot)
}

/// `KPattern::get_orientation_with_mod`, which panics for a slot outside
/// the orbit: the slot's orientation and orientation modulus.
#[verifier::external_body]
pub(crate) fn get_orientation_with_mod(pattern: &KPattern, orbit: usize, slot: u8) -> (found: (
    u8,
    u8,
))
    requires
        has_orbit(*pattern, orbit as int),
        slot < num_pieces(*pattern, orbit as int),
    ensures
        found.0 == orbit_slots(*pattern)[orbit as int][slot as int].1,
        found.1 == orbit_slots(*pattern)[orbit as int][slot as int].2,
{
    let info = &pattern.kpuzzle().data.ordered_orbit_info[orbit];
    let found = pattern.get_orientation_with_mod(info, slot);
    (found.orientation, found.orientation_mod)
}

/// `KPattern::set_piece`, which panics for a slot outside the orbit. It
/// writes the slot's piece and nothing else.
#[verifier::external_body]
pub(crate) fn set_piece(pattern: &mut KPattern, orbit: usize, slot: u8, piece: u8)
    requires
        has_orbit(*old(pattern), orbit as int),
        slot < num_pieces(*old(pattern), orbit as int),
    ensures
        orbit_layout(*final(pattern)) == orbit_layout(*old(pattern)),
        orbit_slots(*final(pattern)).len() == orbit_slots(*old(pattern)).len(),
        orbit_slots(*final(pattern))[orbit as int] == orbit_slots(*old(pattern))[orbit as int].update(
            slot as int,
            (
                piece,
                orbit_slots(*old(pattern))[orbit as int][slot as int].1,
                orbit_slots(*old(pattern))[orbit as int][slot as int].2,
            ),
        ),
        forall|other: int|
            0 <= other < orbit_slots(*old(pattern)).len() && other != orbit
                ==> #[trigger] orbit_slots(*final(pattern))[other] == orbit_slots(
                *old(pattern),
            )[other],
{
    let kpuzzle = pattern.kpuzzle().clone();
    pattern.set_piece(&kpuzzle.data.ordered_orbit_info[orbit], slot, piece)
}

/// `KPattern::set_orientation_with_mod`, which panics for a slot outside
/// the orbit and for an orientation that does not fit the orbit. It writes
/// the slot's orientation and modulus, as one byte, and nothing else; the
/// byte gives both back where the orbit's orientations are packable.
#[verifier::external_body]
pub(crate) fn set_orientation_with_mod(
    pattern: &mut KPattern,
    orbit: usize,
    slot: u8,
    orientation: u8,
    orientation_mod: u8,
)
    requires
        has_orbit(*old(pattern), orbit as int),
        slot < num_pieces(*old(pattern), orbit as int),
        orientations_are_packable(num_orientations(*old(pattern), orbit as int)),
        orientation_fits(num_orientations(*old(pattern), orbit as int), orientation, orientation_mod),
    ensures
        orbit_layout(*final(pattern)) == orbit_layout(*old(pattern)),
        orbit_slots(*final(pattern)).len() == orbit_slots(*old(pattern)).len(),
        orbit_slots(*final(pattern))[orbit as int] == orbit_slots(*old(pattern))[orbit as int].update(
            slot as int,
            (
                orbit_slots(*old(pattern))[orbit as int][slot as int].0,
                orientation,
                orientation_mod,
            ),
        ),
        forall|other: int|
            0 <= other < orbit_slots(*old(pattern)).len() && other != orbit
                ==> #[trigger] orbit_slots(*final(pattern))[other] == orbit_slots(
                *old(pattern),
            )[other],
{
    let kpuzzle = pattern.kpuzzle().clone();
    let value = OrientationWithMod { orientation, orientation_mod };
    pattern.set_orientation_with_mod(&kpuzzle.data.ordered_orbit_info[orbit], slot, &value)
}

/// `KPattern::clone`: a pattern of the same puzzle with the same slots.
#[verifier::external_body]
pub(crate) fn clone_pattern(pattern: &KPattern) -> (copy: KPattern)
    ensures
        orbit_layout(copy) == orbit_layout(*pattern),
        orbit_slots(copy) == orbit_slots(*pattern),
{
    pattern.clone()
}

} // verus!
