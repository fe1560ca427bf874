use crate::orbits::are_orbits_packable;
use crate::orbits::are_orientations_packable;
use crate::orbits::clone_pattern;
use crate::orbits::orbits_are_packable;
use crate::orbits::orientations_are_packable;
use crate::orbits::get_orientation_with_mod;
use crate::orbits::get_piece;
use crate::orbits::num_orientations;
use crate::orbits::num_pieces;
use crate::orbits::orbit_count;
use crate::orbits::orbit_layout;
use crate::orbits::orbit_num_orientations;
use crate::orbits::orbit_num_pieces;
use crate::orbits::orbit_slots;
use crate::orbits::set_orientation_with_mod;
use crate::orbits::set_piece;
use crate::orbits::IGNORED_ORIENTATION_MOD;
use cubing::kpuzzle::KPattern;
use vstd::prelude::*;

verus! {

/// Why a pattern could not be masked.
#[derive(PartialEq, Eq, Structural, Clone, Copy, Debug)]
pub enum MaskError {
    /// The mask does not fit the pattern: they differ in their number of
    /// orbits, or in the number of pieces or of orientations of an orbit,
    /// or the orientations of an orbit are not packable, so that no slot
    /// of it can be marked as ignored.
    IncompatibleOrbits,
}

/// Whether two patterns have as many orbits, with as many pieces and as
/// many orientations in each.
pub open spec fn same_orbit_structure(a: KPattern, b: KPattern) -> bool {
    &&& orbit_layout(a).len() == orbit_layout(b).len()
    &&& forall|orbit: int|
        #![trigger orbit_layout(a)[orbit]]
        0 <= orbit < orbit_layout(a).len() ==> num_pieces(a, orbit) == num_pieces(b, orbit)
            && num_orientations(a, orbit) == num_orientations(b, orbit)
}

/// Whether `mask` can be laid over `pattern`: the two have the same orbit
/// structure, and the orientations of every orbit of the pattern are
/// packable.
pub open spec fn mask_fits(pattern: KPattern, mask: KPattern) -> bool {
    same_orbit_structure(pattern, mask) && orbits_are_packable(pattern)
}

/// Whether a slot of a mask is marked as ignored.
pub open spec fn is_ignored(slot: (u8, u8, u8)) -> bool {
    slot.2 == IGNORED_ORIENTATION_MOD
}

/// What a slot of a pattern becomes under a slot of a mask: the mask's
/// piece with an ignored orientation where the mask ignores the slot, else
/// the pattern's slot as it is.
pub open spec fn masked_slot(slot: (u8, u8, u8), mask: (u8, u8, u8)) -> (u8, u8, u8) {
    if is_ignored(mask) {
        (mask.0, 0u8, IGNORED_ORIENTATION_MOD)
    } else {
        slot
    }
}

/// Whether `masked` is `pattern` under `mask`, slot by slot.
pub open spec fn is_masked(pattern: KPattern, mask: KPattern, masked: KPattern) -> bool {
    &&& orbit_layout(masked) == orbit_layout(pattern)
    &&& orbit_slots(masked).len() == orbit_slots(pattern).len()
    &&& forall|orbit: int|
        0 <= orbit < orbit_slots(pattern).len() ==> (#[trigger] orbit_slots(masked)[orbit]).len()
            == orbit_slots(pattern)[orbit].len()
    &&& forall|orbit: int, slot: int|
        0 <= orbit < orbit_slots(pattern).len() && 0 <= slot < orbit_slots(pattern)[orbit].len()
            ==> #[trigger] orbit_slots(masked)[orbit][slot] == masked_slot(
            orbit_slots(pattern)[orbit][slot],
            orbit_slots(mask)[orbit][slot],
        )
}

/// Whether the first `orbits` orbits of two patterns have as many pieces
/// and as many orientations.
spec fn structure_agrees(a: KPattern, b: KPattern, orbits: int) -> bool {
    forall|orbit: int|
        #![trigger orbit_layout(a)[orbit]]
        0 <= orbit < orbits ==> num_pieces(a, orbit) == num_pieces(b, orbit) && num_orientations(
            a,
            orbit,
        ) == num_orientations(b, orbit)
}

/// Compares the orbit structures of two patterns.
fn have_same_orbit_structure(a: &KPattern, b: &KPattern) -> (same: bool)
    ensures
        same == same_orbit_structure(*a, *b),
{
    let count = orbit_count(a);
    if orbit_count(b) != count {
        return false;
    }
    let mut orbit: usize = 0;
    while orbit < count
        invariant
            orbit <= count == orbit_layout(*a).len() == orbit_layout(*b).len(),
            structure_agrees(*a, *b, orbit as int),
        decreases count - orbit,
    {
        if orbit_num_pieces(a, orbit) != orbit_num_pieces(b, orbit) || orbit_num_orientations(
            a,
            orbit,
        ) != orbit_num_orientations(b, orbit) {
            return false;
        }
        orbit += 1;
    }
    true
}

/// Combines `pattern` with `mask`: a slot that the mask marks as ignored
/// is ignored in the result, with the mask's piece; every other slot holds
/// the piece and the orientation that `pattern` has there.
///
/// Fails where the mask does not fit the pattern.
pub fn apply_mask(pattern: &KPattern, mask: &KPattern) -> (outcome: Result<KPattern, MaskError>)
    ensures
        match outcome {
            Ok(masked) => mask_fits(*pattern, *mask) && is_masked(*pattern, *mask, masked)
                && crate::transformations::pattern_orbits(masked) == masked_orbits(*pattern, *mask),
            Err(error) => !mask_fits(*pattern, *mask),
        },
{
    if !have_same_orbit_structure(pattern, mask) || !are_orbits_packable(pattern) {
        return Err(MaskError::IncompatibleOrbits);
    }
    let count = orbit_count(pattern);
    let mut masked = clone_pattern(pattern);
    let mut orbit: usize = 0;
    while orbit < count
        invariant
            orbit <= count == orbit_layout(*pattern).len() == orbit_slots(*pattern).len(),
            same_orbit_structure(*pattern, *mask),
            orbits_are_packable(*pattern),
            orbit_layout(masked) == orbit_layout(*pattern),
            orbit_slots(masked).len() == orbit_slots(*pattern).len(),
            forall|done: int|
                0 <= done < orbit ==> (#[trigger] orbit_slots(masked)[done]).len() == orbit_slots(
                    *pattern,
                )[done].len(),
            forall|done: int, slot: int|
                0 <= done < orbit && 0 <= slot < orbit_slots(*pattern)[done].len()
                    ==> #[trigger] orbit_slots(masked)[done][slot] == masked_slot(
                    orbit_slots(*pattern)[done][slot],
                    orbit_slots(*mask)[done][slot],
                ),
            forall|later: int|
                orbit <= later < count ==> #[trigger] orbit_slots(masked)[later] == orbit_slots(
                    *pattern,
                )[later],
        decreases count - orbit,
    {
        let pieces = orbit_num_pieces(pattern, orbit);
        let ghost before_orbit = orbit_slots(masked);
        let mut slot: u8 = 0;
        while slot < pieces
            invariant
                slot <= pieces,
                orbit < count == orbit_layout(*pattern).len(),
                pieces == num_pieces(*pattern, orbit as int),
                pieces == num_pieces(*mask, orbit as int),
                pieces == orbit_slots(*pattern)[orbit as int].len(),
                orbit_layout(*mask).len() == count,
                orbit_layout(masked) == orbit_layout(*pattern),
                orientations_are_packable(num_orientations(masked, orbit as int)),
                orbit_slots(masked).len() == orbit_slots(*pattern).len(),
                orbit_slots(masked).len() == before_orbit.len(),
                orbit_slots(masked)[orbit as int].len() == pieces,
                forall|other: int|
                    0 <= other < before_orbit.len() && other != orbit ==> #[trigger] orbit_slots(
                        masked,
                    )[other] == before_orbit[other],
                forall|done: int|
                    0 <= done < slot ==> #[trigger] orbit_slots(masked)[orbit as int][done]
                        == masked_slot(
                        orbit_slots(*pattern)[orbit as int][done],
                        orbit_slots(*mask)[orbit as int][done],
                    ),
                forall|later: int|
                    slot <= later < pieces ==> #[trigger] orbit_slots(masked)[orbit as int][later]
                        == orbit_slots(*pattern)[orbit as int][later],
            decreases pieces - slot,
        {
            let mask_orientation = get_orientation_with_mod(mask, orbit, slot);
            if mask_orientation.1 == IGNORED_ORIENTATION_MOD {
                let mask_piece = get_piece(mask, orbit, slot);
                set_piece(&mut masked, orbit, slot, mask_piece);
                set_orientation_with_mod(&mut masked, orbit, slot, 0, IGNORED_ORIENTATION_MOD);
            }
            slot += 1;
        }
        orbit += 1;
    }
    proof {
        lemma_masked_pattern_has_masked_orbits(*pattern, *mask, masked);
    }
    Ok(masked)
}

/// Marks a slot of `mask` as ignored: the slot gets piece 0 and the
/// ignored orientation, so that all slots marked so look alike. Returns
/// whether the pattern has such a slot, in an orbit whose orientations are
/// packable; it is unchanged where it has not.
pub fn mark_ignored(mask: &mut KPattern, orbit_idx: usize, slot: u8) -> (marked: bool)
    ensures
        marked == (orbit_idx < orbit_layout(*old(mask)).len() && slot < num_pieces(
            *old(mask),
            orbit_idx as int,
        ) && orientations_are_packable(num_orientations(*old(mask), orbit_idx as int))),
        !marked ==> *final(mask) == *old(mask),
        marked ==> {
            &&& orbit_layout(*final(mask)) == orbit_layout(*old(mask))
            &&& orbit_slots(*final(mask)).len() == orbit_slots(*old(mask)).len()
            &&& orbit_slots(*final(mask))[orbit_idx as int] == orbit_slots(
                *old(mask),
            )[orbit_idx as int].update(slot as int, (0u8, 0u8, IGNORED_ORIENTATION_MOD))
            &&& forall|other: int|
                0 <= other < orbit_slots(*old(mask)).len() && other != orbit_idx
                    ==> #[trigger] orbit_slots(*final(mask))[other] == orbit_slots(
                    *old(mask),
                )[other]
        },
{
    if orbit_idx >= orbit_count(mask) {
        return false;
    }
    if slot >= orbit_num_pieces(mask, orbit_idx) {
        return false;
    }
    if !are_orientations_packable(orbit_num_orientations(mask, orbit_idx)) {
        return false;
    }
    set_piece(mask, orbit_idx, slot, 0);
    set_orientation_with_mod(mask, orbit_idx, slot, 0, IGNORED_ORIENTATION_MOD);
    true
}

/// Masking reproduces the pattern on every slot that the mask does not
/// ignore.
pub proof fn lemma_mask_keeps_unignored_slots(
    pattern: KPattern,
    mask: KPattern,
    masked: KPattern,
    orbit: int,
    slot: int,
)
    requires
        is_masked(pattern, mask, masked),
        0 <= orbit < orbit_slots(pattern).len(),
        0 <= slot < orbit_slots(pattern)[orbit].len(),
        !is_ignored(orbit_slots(mask)[orbit][slot]),
    ensures
        orbit_slots(masked)[orbit][slot] == orbit_slots(pattern)[orbit][slot],
{
}

/// The orbits of the pattern that masking `pattern` with `mask` gives:
/// the number of orientations of each orbit of `pattern`, with its slots
/// under the slots of `mask`.
pub open spec fn masked_orbits(pattern: KPattern, mask: KPattern) -> Seq<(u8, Seq<(u8, u8, u8)>)> {
    Seq::new(
        orbit_layout(pattern).len(),
        |orbit: int|
            (
                num_orientations(pattern, orbit),
                Seq::new(
                    orbit_slots(pattern)[orbit].len(),
                    |slot: int|
                        masked_slot(
                            orbit_slots(pattern)[orbit][slot],
                            orbit_slots(mask)[orbit][slot],
                        ),
                ),
            ),
    )
}

/// A masked pattern has the orbits [`masked_orbits`].
pub proof fn lemma_masked_pattern_has_masked_orbits(pattern: KPattern, mask: KPattern, masked: KPattern)
    requires
        is_masked(pattern, mask, masked),
        orbit_slots(pattern).len() == orbit_layout(pattern).len(),
    ensures
        crate::transformations::pattern_orbits(masked) == masked_orbits(pattern, mask),
{
    let found = crate::transformations::pattern_orbits(masked);
    let wanted = masked_orbits(pattern, mask);
    assert(found.len() == wanted.len());
    assert forall|orbit: int| 0 <= orbit < found.len() implies found[orbit] == wanted[orbit] by {
        assert(orbit_slots(masked)[orbit].len() == orbit_slots(pattern)[orbit].len());
        assert(found[orbit].1 =~= wanted[orbit].1);
    }
    assert(found =~= wanted);
}

} // verus!
