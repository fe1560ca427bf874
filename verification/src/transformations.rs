use crate::orbits::orbit_layout;
use crate::orbits::orientation_fits;
use crate::orbits::orientations_are_packable;
use crate::orbits::orbit_slots;
use cubing::kpuzzle::KPattern;
use cubing::kpuzzle::KPuzzle;
use cubing::kpuzzle::KTransformation;
use vstd::prelude::*;

verus! {

/// `cubing::kpuzzle::KPuzzle`: the definition of a puzzle.
#[verifier::external_type_specification]
#[verifier::external_body]
pub struct ExKPuzzle(KPuzzle);

/// `cubing::kpuzzle::KTransformation`: a transformation of the patterns of
/// a puzzle, which knows its puzzle.
#[verifier::external_type_specification]
#[verifier::external_body]
pub struct ExKTransformation(KTransformation);

/// What a transformation holds: for each orbit of its puzzle, for each
/// slot, the slot that the piece comes from and the orientation that the
/// piece gains.
pub uninterp spec fn transformation_entries(transformation: KTransformation) -> Seq<Seq<(u8, u8)>>;

/// The orbits of a pattern: the number of orientations of each orbit and
/// the slots that the pattern holds for it.
pub open spec fn pattern_orbits(pattern: KPattern) -> Seq<(u8, Seq<(u8, u8, u8)>)> {
    Seq::new(
        orbit_layout(pattern).len(),
        |orbit: int| (orbit_layout(pattern)[orbit].2, orbit_slots(pattern)[orbit]),
    )
}

/// Whether a transformation of the entries `entries` can be applied to a
/// pattern of the orbits `orbits`: the orientations of every orbit are
/// packable, the transformation has the same orbits with as many slots,
/// every piece comes from a slot of its orbit, every gain is an
/// orientation of the orbit, and every orientation of the pattern fits its
/// orbit.
pub open spec fn transformation_fits(
    orbits: Seq<(u8, Seq<(u8, u8, u8)>)>,
    entries: Seq<Seq<(u8, u8)>>,
) -> bool {
    &&& entries.len() == orbits.len()
    &&& forall|orbit: int|
        0 <= orbit < orbits.len() ==> orientations_are_packable((#[trigger] orbits[orbit]).0)
    &&& forall|orbit: int|
        0 <= orbit < orbits.len() ==> (#[trigger] entries[orbit]).len() == orbits[orbit].1.len()
    &&& forall|orbit: int, slot: int|
        0 <= orbit < orbits.len() && 0 <= slot < orbits[orbit].1.len() ==> {
            &&& (#[trigger] entries[orbit][slot]).0 < orbits[orbit].1.len()
            &&& entries[orbit][slot].1 < orbits[orbit].0
            &&& orientation_fits(
                orbits[orbit].0,
                orbits[orbit].1[slot].1,
                orbits[orbit].1[slot].2,
            )
        }
}

/// What a slot becomes that receives the piece of the slot `source` with
/// the gain `gain`, in an orbit of `orientations` orientations: the piece
/// keeps its orientation modulus, and its orientation grows by the gain,
/// modulo its modulus or, where that is 0, the orbit's number of
/// orientations.
pub open spec fn turned_slot(orientations: u8, source: (u8, u8, u8), gain: u8) -> (u8, u8, u8) {
    let modulus = if source.2 == 0 {
        orientations
    } else {
        source.2
    };
    (source.0, ((source.1 + gain) % (modulus as int)) as u8, source.2)
}

/// The orbits of the pattern that a transformation of the entries
/// `entries` makes of a pattern of the orbits `orbits`: each slot receives
/// the piece of the slot that its entry names, turned by the entry's gain.
pub open spec fn applied_orbits(
    orbits: Seq<(u8, Seq<(u8, u8, u8)>)>,
    entries: Seq<Seq<(u8, u8)>>,
) -> Seq<(u8, Seq<(u8, u8, u8)>)> {
    Seq::new(
        orbits.len(),
        |orbit: int|
            (
                orbits[orbit].0,
                Seq::new(
                    orbits[orbit].1.len(),
                    |slot: int|
                        turned_slot(
                            orbits[orbit].0,
                            orbits[orbit].1[entries[orbit][slot].0 as int],
                            entries[orbit][slot].1,
                        ),
                ),
            ),
    )
}

/// The number of orbits of the transformation's puzzle. The transformation
/// holds one list of entries per orbit.
#[verifier::external_body]
pub(crate) fn transformation_orbit_count(transformation: &KTransformation) -> (count: usize)
    ensures
        count == transformation_entries(*transformation).len(),
{
    transformation.kpuzzle().data.ordered_orbit_info.len()
}

/// `num_pieces` of an orbit of the transformation's puzzle. The
/// transformation holds that many entries for the orbit.
#[verifier::external_body]
pub(crate) fn transformation_num_pieces(transformation: &KTransformation, orbit: usize) -> (pieces:
    u8)
    requires
        orbit < transformation_entries(*transformation).len(),
    ensures
        pieces == transformation_entries(*transformation)[orbit as int].len(),
{
    transformation.kpuzzle().data.ordered_orbit_info[orbit].num_pieces
}

/// `KTransformation::get_permutation_idx`, which panics for a slot outside
/// the orbit.
#[verifier::external_body]
pub(crate) fn get_permutation_idx(transformation: &KTransformation, orbit: usize, slot: u8) -> (from:
    u8)
    requires
        orbit < transformation_entries(*transformation).len(),
        slot < transformation_entries(*transformation)[orbit as int].len(),
    ensures
        from == transformation_entries(*transformation)[orbit as int][slot as int].0,
{
    let info = &transformation.kpuzzle().data.ordered_orbit_info[orbit];
    transformation.get_permutation_idx(info, slot)
}

/// `KTransformation::get_orientation_delta`, which panics for a slot
/// outside the orbit.
#[verifier::external_body]
pub(crate) fn get_orientation_delta(
    transformation: &KTransformation,
    orbit: usize,
    slot: u8,
) -> (gain: u8)
    requires
        orbit < transformation_entries(*transformation).len(),
        slot < transformation_entries(*transformation)[orbit as int].len(),
    ensures
        gain == transformation_entries(*transformation)[orbit as int][slot as int].1,
{
    let info = &transformation.kpuzzle().data.ordered_orbit_info[orbit];
    transformation.get_orientation_delta(info, slot)
}

/// `KPattern::apply_transformation`. It walks the orbits of the pattern's
/// puzzle and reads the transformation at the same places without a check,
/// and turns orientations by a table over their bytes, so the
/// transformation must fit the pattern. The result is a pattern of
/// the same puzzle: each slot holds the piece of the slot that the
/// transformation names for it, with its orientation grown by the gain and
/// reduced by the piece's orientation modulus, or by the orbit's number of
/// orientations where that modulus is 0.
#[verifier::external_body]
pub(crate) fn apply_transformation(pattern: &KPattern, transformation: &KTransformation) -> (next:
    KPattern)
    requires
        transformation_fits(pattern_orbits(*pattern), transformation_entries(*transformation)),
    ensures
        orbit_layout(next) == orbit_layout(*pattern),
        pattern_orbits(next) == applied_orbits(
            pattern_orbits(*pattern),
            transformation_entries(*transformation),
        ),
{
    pattern.apply_transformation(transformation)
}

} // verus!
