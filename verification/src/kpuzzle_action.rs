use crate::orbits::clone_pattern;
use crate::orbits::get_orientation_with_mod;
use crate::orbits::get_piece;
use crate::orbits::orbit_count;
use crate::orbits::orbit_layout;
use crate::orbits::orbit_num_orientations;
use crate::orbits::orbit_num_pieces;
use crate::orbits::orbit_slots;
use crate::orbits::are_orientations_packable;
use crate::orbits::orientation_fits;
use crate::orbits::orientations_are_packable;
use crate::puzzle_traits::SemiGroupActionPuzzle;
use crate::transformations::apply_transformation;
use crate::transformations::get_orientation_delta;
use crate::transformations::get_permutation_idx;
use crate::transformations::pattern_orbits;
use crate::transformations::transformation_entries;
use crate::transformations::transformation_fits;
use crate::transformations::transformation_num_pieces;
use crate::transformations::transformation_orbit_count;
use crate::transformations::applied_orbits;
use cubing::kpuzzle::KPattern;
use cubing::kpuzzle::KPuzzle;
use cubing::kpuzzle::KTransformation;
use vstd::prelude::*;

verus! {

/// The value that a fingerprint starts from.
pub const FINGERPRINT_OFFSET: u64 = 0xcbf29ce484222325;

/// The factor of a fingerprint step.
pub const FINGERPRINT_PRIME: u64 = 0x100000001b3;

/// A fingerprint after one more value.
pub open spec fn mixed(hash: u64, value: u8) -> u64 {
    (hash ^ (value as u64)).wrapping_mul(FINGERPRINT_PRIME)
}

/// A fingerprint after the first `count` slots of an orbit: after the
/// piece, the orientation and the orientation modulus of each.
pub open spec fn mixed_slots(hash: u64, slots: Seq<(u8, u8, u8)>, count: int) -> u64
    decreases count,
{
    if count <= 0 {
        hash
    } else {
        let (piece, orientation, orientation_mod) = slots[count - 1];
        mixed(mixed(mixed(mixed_slots(hash, slots, count - 1), piece), orientation), orientation_mod)
    }
}

/// A fingerprint after the first `count` orbits: after the number of
/// orientations and the slots of each.
pub open spec fn mixed_orbits(hash: u64, orbits: Seq<(u8, Seq<(u8, u8, u8)>)>, count: int) -> u64
    decreases count,
{
    if count <= 0 {
        hash
    } else {
        let (orientations, slots) = orbits[count - 1];
        mixed_slots(
            mixed(mixed_orbits(hash, orbits, count - 1), orientations),
            slots,
            slots.len() as int,
        )
    }
}

fn mix(hash: u64, value: u8) -> (next: u64)
    ensures
        next == mixed(hash, value),
{
    (hash ^ (value as u64)).wrapping_mul(FINGERPRINT_PRIME)
}

/// Whether an orientation and its modulus may be stored in an orbit of
/// `orientations` orientations.
pub fn orientation_is_valid(orientations: u8, orientation: u8, orientation_mod: u8) -> (valid: bool)
    ensures
        valid == orientation_fits(orientations, orientation, orientation_mod),
{
    if orientation_mod == 0 {
        orientation < orientations
    } else {
        orientation < orientation_mod && orientations % orientation_mod == 0
    }
}

/// Whether a transformation can be applied to a pattern.
pub fn transformation_fits_pattern(pattern: &KPattern, transformation: &KTransformation) -> (fits:
    bool)
    ensures
        fits == transformation_fits(
            pattern_orbits(*pattern),
            transformation_entries(*transformation),
        ),
{
    let ghost orbits = pattern_orbits(*pattern);
    let ghost entries = transformation_entries(*transformation);
    let count = orbit_count(pattern);
    if transformation_orbit_count(transformation) != count {
        return false;
    }
    let mut orbit: usize = 0;
    while orbit < count
        invariant
            orbit <= count == orbits.len() == entries.len(),
            orbits == pattern_orbits(*pattern),
            entries == transformation_entries(*transformation),
            orbit_slots(*pattern).len() == count,
            forall|done: int|
                0 <= done < orbit ==> orientations_are_packable((#[trigger] orbits[done]).0),
            forall|done: int|
                0 <= done < orbit ==> (#[trigger] entries[done]).len() == orbits[done].1.len(),
            forall|done: int, slot: int|
                0 <= done < orbit && 0 <= slot < orbits[done].1.len() ==> {
                    &&& (#[trigger] entries[done][slot]).0 < orbits[done].1.len()
                    &&& entries[done][slot].1 < orbits[done].0
                    &&& orientation_fits(
                        orbits[done].0,
                        orbits[done].1[slot].1,
                        orbits[done].1[slot].2,
                    )
                },
        decreases count - orbit,
    {
        let pieces = orbit_num_pieces(pattern, orbit);
        let orientations = orbit_num_orientations(pattern, orbit);
        if !are_orientations_packable(orientations) {
            assert(!orientations_are_packable(orbits[orbit as int].0));
            return false;
        }
        if transformation_num_pieces(transformation, orbit) != pieces {
            assert(entries[orbit as int].len() != orbits[orbit as int].1.len());
            return false;
        }
        let mut slot: u8 = 0;
        while slot < pieces
            invariant
                slot <= pieces,
                orbit < count == orbits.len() == entries.len(),
                orbits == pattern_orbits(*pattern),
                entries == transformation_entries(*transformation),
                pieces == orbits[orbit as int].1.len(),
                pieces == entries[orbit as int].len(),
                pieces == orbit_layout(*pattern)[orbit as int].1,
                orientations == orbits[orbit as int].0,
                forall|done: int|
                    0 <= done < slot ==> {
                        &&& (#[trigger] entries[orbit as int][done]).0 < pieces
                        &&& entries[orbit as int][done].1 < orientations
                        &&& orientation_fits(
                            orientations,
                            orbits[orbit as int].1[done].1,
                            orbits[orbit as int].1[done].2,
                        )
                    },
            decreases pieces - slot,
        {
            let found = get_orientation_with_mod(pattern, orbit, slot);
            if get_permutation_idx(transformation, orbit, slot) >= pieces || get_orientation_delta(
                transformation,
                orbit,
                slot,
            ) >= orientations || !orientation_is_valid(orientations, found.0, found.1) {
                assert(!({
                    &&& entries[orbit as int][slot as int].0 < orbits[orbit as int].1.len()
                    &&& entries[orbit as int][slot as int].1 < orbits[orbit as int].0
                    &&& orientation_fits(
                        orbits[orbit as int].0,
                        orbits[orbit as int].1[slot as int].1,
                        orbits[orbit as int].1[slot as int].2,
                    )
                }));
                return false;
            }
            slot += 1;
        }
        orbit += 1;
    }
    true
}

impl SemiGroupActionPuzzle for KPuzzle {
    type Pattern = KPattern;

    type Transformation = KTransformation;

    type Key = Seq<(u8, Seq<(u8, u8, u8)>)>;

    open spec fn pattern_key(pattern: &KPattern) -> Seq<(u8, Seq<(u8, u8, u8)>)> {
        pattern_orbits(*pattern)
    }

    open spec fn key_after(
        &self,
        key: Seq<(u8, Seq<(u8, u8, u8)>)>,
        transformation: &KTransformation,
    ) -> Option<Seq<(u8, Seq<(u8, u8, u8)>)>> {
        if transformation_fits(key, transformation_entries(*transformation)) {
            Some(applied_orbits(key, transformation_entries(*transformation)))
        } else {
            None
        }
    }

    open spec fn key_fingerprint(key: Seq<(u8, Seq<(u8, u8, u8)>)>) -> u64 {
        mixed_orbits(FINGERPRINT_OFFSET, key, key.len() as int)
    }

    /// Applies the transformation where it fits the pattern.
    fn pattern_apply_transformation(
        &self,
        pattern: &KPattern,
        transformation_to_apply: &KTransformation,
    ) -> (next: Option<KPattern>) {
        if transformation_fits_pattern(pattern, transformation_to_apply) {
            Some(apply_transformation(pattern, transformation_to_apply))
        } else {
            None
        }
    }

    /// Compares two patterns orbit by orbit and slot by slot.
    fn patterns_equal(&self, a: &KPattern, b: &KPattern) -> (same: bool) {
        let ghost key_a = pattern_orbits(*a);
        let ghost key_b = pattern_orbits(*b);
        let count = orbit_count(a);
        if orbit_count(b) != count {
            assert(key_a.len() != key_b.len());
            return false;
        }
        let mut orbit: usize = 0;
        while orbit < count
            invariant
                orbit <= count == key_a.len() == key_b.len(),
                key_a == pattern_orbits(*a),
                key_b == pattern_orbits(*b),
                forall|done: int| 0 <= done < orbit ==> key_a[done] == key_b[done],
            decreases count - orbit,
        {
            if orbit_num_orientations(a, orbit) != orbit_num_orientations(b, orbit) {
                assert(key_a[orbit as int] != key_b[orbit as int]);
                return false;
            }
            let pieces = orbit_num_pieces(a, orbit);
            if orbit_num_pieces(b, orbit) != pieces {
                assert(key_a[orbit as int].1.len() != key_b[orbit as int].1.len());
                return false;
            }
            let mut slot: u8 = 0;
            while slot < pieces
                invariant
                    slot <= pieces,
                    orbit < count == key_a.len() == key_b.len(),
                    key_a == pattern_orbits(*a),
                    key_b == pattern_orbits(*b),
                    pieces == key_a[orbit as int].1.len() == key_b[orbit as int].1.len(),
                    pieces == orbit_layout(*a)[orbit as int].1,
                    pieces == orbit_layout(*b)[orbit as int].1,
                    forall|done: int|
                        0 <= done < slot ==> key_a[orbit as int].1[done] == key_b[orbit as int].1[done],
                decreases pieces - slot,
            {
                let orientation_a = get_orientation_with_mod(a, orbit, slot);
                let orientation_b = get_orientation_with_mod(b, orbit, slot);
                if get_piece(a, orbit, slot) != get_piece(b, orbit, slot) || orientation_a.0
                    != orientation_b.0 || orientation_a.1 != orientation_b.1 {
                    assert(key_a[orbit as int].1[slot as int] != key_b[orbit as int].1[slot as int]);
                    return false;
                }
                slot += 1;
            }
            assert(key_a[orbit as int].1 =~= key_b[orbit as int].1);
            orbit += 1;
        }
        assert(key_a =~= key_b);
        true
    }

    /// Mixes every value of the pattern into a fingerprint.
    fn pattern_hash_u64(&self, pattern: &KPattern) -> (hash: u64) {
        let ghost key = pattern_orbits(*pattern);
        let count = orbit_count(pattern);
        let mut hash: u64 = FINGERPRINT_OFFSET;
        let mut orbit: usize = 0;
        while orbit < count
            invariant
                orbit <= count == key.len(),
                key == pattern_orbits(*pattern),
                hash == mixed_orbits(FINGERPRINT_OFFSET, key, orbit as int),
            decreases count - orbit,
        {
            let pieces = orbit_num_pieces(pattern, orbit);
            hash = mix(hash, orbit_num_orientations(pattern, orbit));
            let ghost before = hash;
            let mut slot: u8 = 0;
            while slot < pieces
                invariant
                    slot <= pieces,
                    orbit < count == key.len(),
                    key == pattern_orbits(*pattern),
                    pieces == key[orbit as int].1.len(),
                    pieces == orbit_layout(*pattern)[orbit as int].1,
                    hash == mixed_slots(before, key[orbit as int].1, slot as int),
                decreases pieces - slot,
            {
                let orientation = get_orientation_with_mod(pattern, orbit, slot);
                hash = mix(hash, get_piece(pattern, orbit, slot));
                hash = mix(hash, orientation.0);
                hash = mix(hash, orientation.1);
                slot += 1;
            }
            orbit += 1;
        }
        hash
    }

    fn pattern_clone(&self, pattern: &KPattern) -> (copy: KPattern) {
        clone_pattern(pattern)
    }
}

} // verus!
