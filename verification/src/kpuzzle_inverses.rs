use crate::idf_search::are_generators_listed;
use crate::idf_search::generators_are_listed;
use crate::idf_search::IDFSearch;
use crate::kpuzzle_action::orientation_is_valid;
use crate::orbits::get_orientation_with_mod;
use crate::orbits::orbit_count;
use crate::orbits::orbit_layout;
use crate::orbits::orbit_num_orientations;
use crate::orbits::orbit_num_pieces;
use crate::orbits::are_orientations_packable;
use crate::orbits::orientation_fits;
use crate::orbits::orientations_are_packable;
use crate::prune_table::SearchError;
use crate::puzzle_traits::inverses_undo;
use crate::puzzle_traits::solves;
use crate::puzzle_traits::Depth;
use crate::puzzle_traits::MoveTransformationInfo;
use crate::puzzle_traits::SemiGroupActionPuzzle;
use crate::transformations::applied_orbits;
use crate::transformations::get_orientation_delta;
use crate::transformations::get_permutation_idx;
use crate::transformations::pattern_orbits;
use crate::transformations::transformation_entries;
use crate::transformations::transformation_fits;
use crate::transformations::transformation_num_pieces;
use crate::transformations::transformation_orbit_count;
use crate::transformations::turned_slot;
use cubing::kpuzzle::KPattern;
use cubing::kpuzzle::KPuzzle;
use cubing::kpuzzle::KTransformation;
use vstd::prelude::*;

verus! {

/// Whether two lists of orbits have the same shape: as many orbits, with
/// as many orientations and as many slots in each.
pub open spec fn same_shape(a: Seq<(u8, Seq<(u8, u8, u8)>)>, b: Seq<(u8, Seq<(u8, u8, u8)>)>) -> bool {
    &&& a.len() == b.len()
    &&& forall|orbit: int|
        0 <= orbit < a.len() ==> (#[trigger] a[orbit]).0 == b[orbit].0 && a[orbit].1.len()
            == b[orbit].1.len()
}

/// Whether the entries `back` send every piece back from where the entries
/// `forth` take it, with a gain that makes up for the gain it got, in
/// orbits of the shape of `orbits`.
pub open spec fn entries_lead_back(
    orbits: Seq<(u8, Seq<(u8, u8, u8)>)>,
    forth: Seq<Seq<(u8, u8)>>,
    back: Seq<Seq<(u8, u8)>>,
) -> bool {
    &&& forth.len() == orbits.len()
    &&& back.len() == orbits.len()
    &&& forall|orbit: int|
        0 <= orbit < orbits.len() ==> (#[trigger] forth[orbit]).len() == orbits[orbit].1.len()
    &&& forall|orbit: int|
        0 <= orbit < orbits.len() ==> (#[trigger] back[orbit]).len() == orbits[orbit].1.len()
    &&& forall|orbit: int, slot: int|
        0 <= orbit < orbits.len() && 0 <= slot < orbits[orbit].1.len() ==> {
            let (from, gain) = #[trigger] forth[orbit][slot];
            &&& from < orbits[orbit].1.len()
            &&& gain < orbits[orbit].0
            &&& back[orbit][from as int].0 == slot
            &&& back[orbit][from as int].1 < orbits[orbit].0
            &&& (gain + back[orbit][from as int].1) % (orbits[orbit].0 as int) == 0
        }
}

/// Whether the entries `inverse` undo the entries `entries` and are undone
/// by them, in orbits of the shape of `orbits`.
pub open spec fn entries_are_inverse(
    orbits: Seq<(u8, Seq<(u8, u8, u8)>)>,
    entries: Seq<Seq<(u8, u8)>>,
    inverse: Seq<Seq<(u8, u8)>>,
) -> bool {
    entries_lead_back(orbits, entries, inverse) && entries_lead_back(orbits, inverse, entries)
}

/// Whether a list of orbits can be the orbits of a pattern: the
/// orientations of every orbit are packable, and every orientation fits
/// its orbit.
pub open spec fn orbits_are_sound(orbits: Seq<(u8, Seq<(u8, u8, u8)>)>) -> bool {
    &&& forall|orbit: int|
        0 <= orbit < orbits.len() ==> orientations_are_packable((#[trigger] orbits[orbit]).0)
    &&& forall|orbit: int, slot: int|
        0 <= orbit < orbits.len() && 0 <= slot < orbits[orbit].1.len() ==> orientation_fits(
            orbits[orbit].0,
            (#[trigger] orbits[orbit].1[slot]).1,
            orbits[orbit].1[slot].2,
        )
}

/// Two gains of an orbit that add up to a multiple of its number of
/// orientations add up to none or to that number.
proof fn lemma_gains_make_up(orientations: int, gain: int, back: int)
    requires
        0 <= gain < orientations,
        0 <= back < orientations,
        (gain + back) % orientations == 0,
    ensures
        gain + back == 0 || gain + back == orientations,
{
    let both = gain + back;
    if both < orientations {
        vstd::arithmetic::div_mod::lemma_small_mod(both as nat, orientations as nat);
    } else {
        vstd::arithmetic::div_mod::lemma_mod_sub_multiples_vanish(both, orientations);
        vstd::arithmetic::div_mod::lemma_small_mod(
            (both - orientations) as nat,
            orientations as nat,
        );
    }
}

/// Turning a slot by a gain and then by a gain that makes up for it gives
/// the slot back.
proof fn lemma_turned_back(orientations: u8, slot: (u8, u8, u8), gain: u8, back: u8)
    requires
        orientation_fits(orientations, slot.1, slot.2),
        gain < orientations,
        back < orientations,
        (gain + back) % (orientations as int) == 0,
    ensures
        orientation_fits(
            orientations,
            turned_slot(orientations, slot, gain).1,
            turned_slot(orientations, slot, gain).2,
        ),
        turned_slot(orientations, turned_slot(orientations, slot, gain), back) == slot,
{
    let count = orientations as int;
    let modulus = if slot.2 == 0 {
        count
    } else {
        slot.2 as int
    };
    let orientation = slot.1 as int;
    let first = (orientation + gain) % modulus;
    vstd::arithmetic::div_mod::lemma_mod_bound(orientation + gain, modulus);
    vstd::arithmetic::div_mod::lemma_add_mod_noop_right(back as int, orientation + gain, modulus);
    assert((first + back) % modulus == (orientation + gain + back) % modulus);
    lemma_gains_make_up(count, gain as int, back as int);
    vstd::arithmetic::div_mod::lemma_small_mod(orientation as nat, modulus as nat);
    if gain + back == count {
        if slot.2 != 0 {
            let times = count / modulus;
            vstd::arithmetic::div_mod::lemma_fundamental_div_mod(count, modulus);
            vstd::arithmetic::div_mod::lemma_mod_multiples_vanish(times, orientation, modulus);
            assert(modulus * times + orientation == orientation + gain + back);
        } else {
            vstd::arithmetic::div_mod::lemma_mod_add_multiples_vanish(orientation, modulus);
            assert(modulus + orientation == orientation + gain + back);
        }
    }
    assert((first + back) % modulus == orientation);
}

/// A transformation that fits leads to orbits of the same shape whose
/// orientations fit.
pub proof fn lemma_applied_orbits_keep_shape(
    orbits: Seq<(u8, Seq<(u8, u8, u8)>)>,
    entries: Seq<Seq<(u8, u8)>>,
)
    requires
        transformation_fits(orbits, entries),
    ensures
        same_shape(applied_orbits(orbits, entries), orbits),
        orbits_are_sound(orbits),
        orbits_are_sound(applied_orbits(orbits, entries)),
{
    let applied = applied_orbits(orbits, entries);
    assert forall|orbit: int, slot: int|
        0 <= orbit < orbits.len() && 0 <= slot < orbits[orbit].1.len() implies orientation_fits(
        orbits[orbit].0,
        (#[trigger] orbits[orbit].1[slot]).1,
        orbits[orbit].1[slot].2,
    ) by {
        assert(entries[orbit][slot].0 < orbits[orbit].1.len());
    }
    assert forall|orbit: int, slot: int|
        0 <= orbit < applied.len() && 0 <= slot < applied[orbit].1.len() implies orientation_fits(
        applied[orbit].0,
        (#[trigger] applied[orbit].1[slot]).1,
        applied[orbit].1[slot].2,
    ) by {
        let (from, gain) = entries[orbit][slot];
        assert(entries[orbit][slot].0 < orbits[orbit].1.len());
        let source = orbits[orbit].1[from as int];
        assert(orientation_fits(orbits[orbit].0, source.1, source.2));
        let modulus = if source.2 == 0 {
            orbits[orbit].0 as int
        } else {
            source.2 as int
        };
        vstd::arithmetic::div_mod::lemma_mod_bound(source.1 + gain, modulus);
        assert(applied[orbit].1[slot] == turned_slot(orbits[orbit].0, source, gain));
    }
}

/// Where the entries `back` lead back from where the entries `forth`
/// lead, and lead there themselves, applying `forth` and then `back` gives
/// the orbits back.
pub proof fn lemma_inverse_entries_undo(
    orbits: Seq<(u8, Seq<(u8, u8, u8)>)>,
    forth: Seq<Seq<(u8, u8)>>,
    back: Seq<Seq<(u8, u8)>>,
)
    requires
        orbits_are_sound(orbits),
        entries_are_inverse(orbits, forth, back),
    ensures
        transformation_fits(orbits, forth),
        transformation_fits(applied_orbits(orbits, forth), back),
        applied_orbits(applied_orbits(orbits, forth), back) == orbits,
{
    assert(transformation_fits(orbits, forth));
    lemma_applied_orbits_keep_shape(orbits, forth);
    let middle = applied_orbits(orbits, forth);
    assert(transformation_fits(middle, back)) by {
        assert forall|orbit: int, slot: int|
            0 <= orbit < middle.len() && 0 <= slot < middle[orbit].1.len() implies {
            &&& (#[trigger] back[orbit][slot]).0 < middle[orbit].1.len()
            &&& back[orbit][slot].1 < middle[orbit].0
            &&& orientation_fits(middle[orbit].0, middle[orbit].1[slot].1, middle[orbit].1[slot].2)
        } by {
            assert(orientation_fits(
                middle[orbit].0,
                middle[orbit].1[slot].1,
                middle[orbit].1[slot].2,
            ));
        }
    }
    let end = applied_orbits(middle, back);
    assert forall|orbit: int| 0 <= orbit < orbits.len() implies end[orbit] == orbits[orbit] by {
        assert forall|slot: int| 0 <= slot < orbits[orbit].1.len() implies end[orbit].1[slot]
            == orbits[orbit].1[slot] by {
            let (to, gain_back) = back[orbit][slot];
            let (from, gain) = forth[orbit][to as int];
            assert(from == slot);
            lemma_turned_back(orbits[orbit].0, orbits[orbit].1[slot], gain, gain_back);
        }
        assert(end[orbit].1 =~= orbits[orbit].1);
    }
    assert(end =~= orbits);
}

/// Whether the entries lead back depends on the shape of the orbits only.
proof fn lemma_lead_back_in_same_shape(
    orbits: Seq<(u8, Seq<(u8, u8, u8)>)>,
    other: Seq<(u8, Seq<(u8, u8, u8)>)>,
    forth: Seq<Seq<(u8, u8)>>,
    back: Seq<Seq<(u8, u8)>>,
)
    requires
        same_shape(other, orbits),
        entries_lead_back(orbits, forth, back),
    ensures
        entries_lead_back(other, forth, back),
{
    assert(forth.len() == other.len() && back.len() == other.len());
    assert forall|orbit: int| 0 <= orbit < other.len() implies (#[trigger] forth[orbit]).len()
        == other[orbit].1.len() by {
        assert(other[orbit].0 == orbits[orbit].0 && other[orbit].1.len() == orbits[orbit].1.len());
    }
    assert forall|orbit: int| 0 <= orbit < other.len() implies (#[trigger] back[orbit]).len()
        == other[orbit].1.len() by {
        assert(other[orbit].0 == orbits[orbit].0 && other[orbit].1.len() == orbits[orbit].1.len());
    }
    assert forall|orbit: int, slot: int|
        0 <= orbit < other.len() && 0 <= slot < other[orbit].1.len() implies {
        let (from, gain) = #[trigger] forth[orbit][slot];
        &&& from < other[orbit].1.len()
        &&& gain < other[orbit].0
        &&& back[orbit][from as int].0 == slot
        &&& back[orbit][from as int].1 < other[orbit].0
        &&& (gain + back[orbit][from as int].1) % (other[orbit].0 as int) == 0
    } by {
        assert(other[orbit].0 == orbits[orbit].0 && other[orbit].1.len() == orbits[orbit].1.len());
        let (from, gain) = forth[orbit][slot];
        assert(from < orbits[orbit].1.len());
    }
}

/// The keys from which generator moves of a puzzle lead to a target have
/// the shape of the target, and their orientations fit where the
/// orientations of the target do.
pub proof fn lemma_paths_keep_shape(
    puzzle: &KPuzzle,
    generators: Seq<MoveTransformationInfo<KPuzzle>>,
    key: Seq<(u8, Seq<(u8, u8, u8)>)>,
    moves: Seq<usize>,
    target: Seq<(u8, Seq<(u8, u8, u8)>)>,
)
    requires
        solves(puzzle, generators, key, moves, target),
        orbits_are_sound(target),
    ensures
        same_shape(key, target),
        orbits_are_sound(key),
    decreases moves.len(),
{
    if moves.len() > 0 {
        let entries = transformation_entries(generators[moves[0] as int].transformation);
        let next = puzzle.key_after(key, &generators[moves[0] as int].transformation).unwrap();
        lemma_applied_orbits_keep_shape(key, entries);
        lemma_paths_keep_shape(puzzle, generators, next, moves.skip(1), target);
        assert forall|orbit: int| 0 <= orbit < key.len() implies (#[trigger] key[orbit]).0
            == target[orbit].0 && key[orbit].1.len() == target[orbit].1.len() by {
            assert(next[orbit].0 == key[orbit].0);
        }
    }
}

/// Whether the stored inverse of every generator has the entries that
/// undo those of the generator, in orbits of the shape of `target`.
pub open spec fn inverses_are_stored(
    generators: Seq<MoveTransformationInfo<KPuzzle>>,
    target: Seq<(u8, Seq<(u8, u8, u8)>)>,
) -> bool {
    forall|i: int|
        0 <= i < generators.len() ==> entries_are_inverse(
            target,
            transformation_entries((#[trigger] generators[i]).transformation),
            transformation_entries(generators[i].inverse_transformation),
        )
}

/// For a puzzle of the `cubing` crate, inverses that are stored undo their
/// generators on the ways to a target whose orientations fit.
pub proof fn lemma_stored_inverses_undo(
    puzzle: &KPuzzle,
    generators: Seq<MoveTransformationInfo<KPuzzle>>,
    target: Seq<(u8, Seq<(u8, u8, u8)>)>,
)
    requires
        orbits_are_sound(target),
        inverses_are_stored(generators, target),
    ensures
        inverses_undo(puzzle, generators, target),
{
    assert forall|
        key: Seq<(u8, Seq<(u8, u8, u8)>)>,
        next: Seq<(u8, Seq<(u8, u8, u8)>)>,
        i: int,
        rest: Seq<usize>,
    |
        0 <= i < generators.len() && #[trigger] puzzle.key_after(
            key,
            &generators[i].transformation,
        ) == Some(next) && #[trigger] solves(
            puzzle,
            generators,
            next,
            rest,
            target,
        ) implies puzzle.key_after(next, &generators[i].inverse_transformation) == Some(key) by {
        let forth = transformation_entries(generators[i].transformation);
        let back = transformation_entries(generators[i].inverse_transformation);
        lemma_paths_keep_shape(puzzle, generators, next, rest, target);
        lemma_applied_orbits_keep_shape(key, forth);
        assert(same_shape(key, target)) by {
            assert forall|orbit: int| 0 <= orbit < key.len() implies (#[trigger] key[orbit]).0
                == target[orbit].0 && key[orbit].1.len() == target[orbit].1.len() by {
                assert(next[orbit].0 == key[orbit].0);
            }
        }
        lemma_lead_back_in_same_shape(target, key, forth, back);
        lemma_lead_back_in_same_shape(target, key, back, forth);
        lemma_inverse_entries_undo(key, forth, back);
    }
    assert forall|key: Seq<(u8, Seq<(u8, u8, u8)>)>, i: int, rest: Seq<usize>|
        0 <= i < generators.len() && #[trigger] solves(
            puzzle,
            generators,
            key,
            rest,
            target,
        ) implies (#[trigger] puzzle.key_after(key, &generators[i].inverse_transformation)
        matches Some(next) ==> puzzle.key_after(next, &generators[i].transformation) == Some(
        key,
    )) by {
        let forth = transformation_entries(generators[i].transformation);
        let back = transformation_entries(generators[i].inverse_transformation);
        lemma_paths_keep_shape(puzzle, generators, key, rest, target);
        lemma_lead_back_in_same_shape(target, key, forth, back);
        lemma_lead_back_in_same_shape(target, key, back, forth);
        if puzzle.key_after(key, &generators[i].inverse_transformation) is Some {
            lemma_inverse_entries_undo(key, back, forth);
        }
    }
}

/// Whether the orientations of every orbit of a pattern are packable and
/// every orientation of the pattern fits its orbit.
pub fn are_orbits_sound(pattern: &KPattern) -> (fit: bool)
    ensures
        fit == orbits_are_sound(pattern_orbits(*pattern)),
{
    let ghost orbits = pattern_orbits(*pattern);
    let count = orbit_count(pattern);
    let mut orbit: usize = 0;
    while orbit < count
        invariant
            orbit <= count == orbits.len(),
            orbits == pattern_orbits(*pattern),
            forall|done: int|
                0 <= done < orbit ==> orientations_are_packable((#[trigger] orbits[done]).0),
            forall|done: int, slot: int|
                0 <= done < orbit && 0 <= slot < orbits[done].1.len() ==> orientation_fits(
                    orbits[done].0,
                    (#[trigger] orbits[done].1[slot]).1,
                    orbits[done].1[slot].2,
                ),
        decreases count - orbit,
    {
        let pieces = orbit_num_pieces(pattern, orbit);
        let orientations = orbit_num_orientations(pattern, orbit);
        if !are_orientations_packable(orientations) {
            assert(!orientations_are_packable(orbits[orbit as int].0));
            return false;
        }
        let mut slot: u8 = 0;
        while slot < pieces
            invariant
                slot <= pieces,
                orbit < count == orbits.len(),
                orbits == pattern_orbits(*pattern),
                pieces == orbits[orbit as int].1.len(),
                pieces == orbit_layout(*pattern)[orbit as int].1,
                orientations == orbits[orbit as int].0,
                forall|done: int|
                    0 <= done < slot ==> orientation_fits(
                        orientations,
                        (#[trigger] orbits[orbit as int].1[done]).1,
                        orbits[orbit as int].1[done].2,
                    ),
            decreases pieces - slot,
        {
            let found = get_orientation_with_mod(pattern, orbit, slot);
            if !orientation_is_valid(orientations, found.0, found.1) {
                assert(!orientation_fits(
                    orbits[orbit as int].0,
                    orbits[orbit as int].1[slot as int].1,
                    orbits[orbit as int].1[slot as int].2,
                ));
                return false;
            }
            slot += 1;
        }
        orbit += 1;
    }
    true
}

/// Whether the transformation `back` sends every piece back from where
/// the transformation `forth` takes it, with a gain that makes up for the
/// gain it got, on patterns of the shape of `pattern`.
pub fn transformation_leads_back(
    pattern: &KPattern,
    forth: &KTransformation,
    back: &KTransformation,
) -> (leads_back: bool)
    ensures
        leads_back == entries_lead_back(
            pattern_orbits(*pattern),
            transformation_entries(*forth),
            transformation_entries(*back),
        ),
{
    let ghost orbits = pattern_orbits(*pattern);
    let ghost forth_entries = transformation_entries(*forth);
    let ghost back_entries = transformation_entries(*back);
    let count = orbit_count(pattern);
    if transformation_orbit_count(forth) != count || transformation_orbit_count(back) != count {
        return false;
    }
    let mut orbit: usize = 0;
    while orbit < count
        invariant
            orbit <= count == orbits.len() == forth_entries.len() == back_entries.len(),
            orbits == pattern_orbits(*pattern),
            forth_entries == transformation_entries(*forth),
            back_entries == transformation_entries(*back),
            forall|done: int|
                0 <= done < orbit ==> (#[trigger] forth_entries[done]).len() == orbits[done].1.len(),
            forall|done: int|
                0 <= done < orbit ==> (#[trigger] back_entries[done]).len() == orbits[done].1.len(),
            forall|done: int, slot: int|
                0 <= done < orbit && 0 <= slot < orbits[done].1.len() ==> {
                    let (from, gain) = #[trigger] forth_entries[done][slot];
                    &&& from < orbits[done].1.len()
                    &&& gain < orbits[done].0
                    &&& back_entries[done][from as int].0 == slot
                    &&& back_entries[done][from as int].1 < orbits[done].0
                    &&& (gain + back_entries[done][from as int].1) % (orbits[done].0 as int) == 0
                },
        decreases count - orbit,
    {
        let pieces = orbit_num_pieces(pattern, orbit);
        let orientations = orbit_num_orientations(pattern, orbit);
        if transformation_num_pieces(forth, orbit) != pieces || transformation_num_pieces(
            back,
            orbit,
        ) != pieces {
            assert(!(forth_entries[orbit as int].len() == orbits[orbit as int].1.len()
                && back_entries[orbit as int].len() == orbits[orbit as int].1.len()));
            return false;
        }
        let mut slot: u8 = 0;
        while slot < pieces
            invariant
                slot <= pieces,
                orbit < count == orbits.len() == forth_entries.len() == back_entries.len(),
                orbits == pattern_orbits(*pattern),
                forth_entries == transformation_entries(*forth),
                back_entries == transformation_entries(*back),
                pieces == orbits[orbit as int].1.len(),
                pieces == forth_entries[orbit as int].len(),
                pieces == back_entries[orbit as int].len(),
                orientations == orbits[orbit as int].0,
                forall|done: int|
                    0 <= done < slot ==> {
                        let (from, gain) = #[trigger] forth_entries[orbit as int][done];
                        &&& from < pieces
                        &&& gain < orientations
                        &&& back_entries[orbit as int][from as int].0 == done
                        &&& back_entries[orbit as int][from as int].1 < orientations
                        &&& (gain + back_entries[orbit as int][from as int].1) % (
                        orientations as int) == 0
                    },
            decreases pieces - slot,
        {
            let from = get_permutation_idx(forth, orbit, slot);
            let gain = get_orientation_delta(forth, orbit, slot);
            let ghost entry = forth_entries[orbit as int][slot as int];
            if from >= pieces || gain >= orientations {
                assert(!(entry.0 < orbits[orbit as int].1.len() && entry.1 < orbits[orbit as int].0));
                return false;
            }
            let to = get_permutation_idx(back, orbit, from);
            let gain_back = get_orientation_delta(back, orbit, from);
            if to != slot || gain_back >= orientations || (gain as u16 + gain_back as u16) % (
            orientations as u16) != 0 {
                assert(!({
                    &&& back_entries[orbit as int][entry.0 as int].0 == slot
                    &&& back_entries[orbit as int][entry.0 as int].1 < orbits[orbit as int].0
                    &&& (entry.1 + back_entries[orbit as int][entry.0 as int].1) % (
                    orbits[orbit as int].0 as int) == 0
                }));
                return false;
            }
            slot += 1;
        }
        proof {
            let done = orbit as int;
            assert(forth_entries[done].len() == orbits[done].1.len() && back_entries[done].len()
                == orbits[done].1.len());
            assert forall|at: int| 0 <= at < orbits[done].1.len() implies {
                let (from, gain) = #[trigger] forth_entries[done][at];
                &&& from < orbits[done].1.len()
                &&& gain < orbits[done].0
                &&& back_entries[done][from as int].0 == at
                &&& back_entries[done][from as int].1 < orbits[done].0
                &&& (gain + back_entries[done][from as int].1) % (orbits[done].0 as int) == 0
            } by {}
        }
        orbit += 1;
    }
    true
}

/// Sets up a search on a puzzle of the `cubing` crate, after checking that
/// the orientations of the target fit and that the stored inverse of every
/// generator undoes it on patterns of the shape of the target. The prune
/// table of such a search is admissible, so the search hands out exactly
/// [`crate::idf_search::search_result`].
pub fn try_new_with_checked_inverses(
    puzzle: KPuzzle,
    generators: Vec<MoveTransformationInfo<KPuzzle>>,
    target_pattern: KPattern,
    max_prune_depth: Depth,
    min_prune_table_size: usize,
) -> (outcome: Result<IDFSearch<KPuzzle>, SearchError>)
    ensures
        match outcome {
            Ok(search) => {
                &&& search.wf()
                &&& search.prunes_admissibly()
                &&& search.puzzle == puzzle
                &&& search.generators == generators
                &&& search.target_pattern == target_pattern
                &&& search.prune_table.radius <= max_prune_depth.0
            },
            Err(SearchError::MalformedGenerators) => !generators_are_listed(generators@),
            Err(SearchError::InconsistentPuzzle) => generators_are_listed(generators@) && !(
            orbits_are_sound(pattern_orbits(target_pattern)) && inverses_are_stored(
                generators@,
                pattern_orbits(target_pattern),
            )),
        },
{
    if !are_generators_listed(&generators) {
        return Err(SearchError::MalformedGenerators);
    }
    if !are_orbits_sound(&target_pattern) {
        return Err(SearchError::InconsistentPuzzle);
    }
    let ghost target = pattern_orbits(target_pattern);
    let mut i: usize = 0;
    while i < generators.len()
        invariant
            i <= generators@.len(),
            generators_are_listed(generators@),
            target == pattern_orbits(target_pattern),
            forall|j: int|
                0 <= j < i ==> entries_are_inverse(
                    target,
                    transformation_entries((#[trigger] generators@[j]).transformation),
                    transformation_entries(generators@[j].inverse_transformation),
                ),
        decreases generators@.len() - i,
    {
        let info = &generators[i];
        if !transformation_leads_back(
            &target_pattern,
            &info.transformation,
            &info.inverse_transformation,
        ) || !transformation_leads_back(
            &target_pattern,
            &info.inverse_transformation,
            &info.transformation,
        ) {
            proof {
                assert(!entries_are_inverse(
                    target,
                    transformation_entries(generators@[i as int].transformation),
                    transformation_entries(generators@[i as int].inverse_transformation),
                ));
            }
            return Err(SearchError::InconsistentPuzzle);
        }
        i += 1;
    }
    proof {
        lemma_stored_inverses_undo(&puzzle, generators@, target);
    }
    IDFSearch::try_new(puzzle, generators, target_pattern, max_prune_depth, min_prune_table_size)
}

} // verus!
