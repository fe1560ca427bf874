use puzzle_search::canonical_fsm::{CanonicalFSM, CanonicalFSMState};
use puzzle_search::puzzle_traits::MoveTag;
use std::collections::HashSet;

fn tag(axis: usize, family: usize) -> MoveTag {
    MoveTag { axis, family }
}

fn accepts(fsm: &CanonicalFSM, tags: &[MoveTag]) -> bool {
    let mut state = fsm.initial_state();
    for tag in tags {
        match fsm.next_state(state, *tag) {
            Some(next) => state = next,
            None => return false,
        }
    }
    fsm.is_accepting(state)
}

/// All sequences of `length` moves over `moves`.
fn sequences(moves: &[MoveTag], length: usize) -> Vec<Vec<MoveTag>> {
    let mut all = vec![vec![]];
    for _ in 0..length {
        let mut longer = vec![];
        for sequence in &all {
            for tag in moves {
                let mut next = sequence.clone();
                next.push(*tag);
                longer.push(next);
            }
        }
        all = longer;
    }
    all
}

/// The sequence with every run of moves on one axis put in ascending order
/// of family: one name for all sequences that differ only by the order of
/// commuting moves.
fn class_of(sequence: &[MoveTag]) -> Vec<(usize, usize)> {
    let mut class: Vec<(usize, usize)> = vec![];
    let mut start = 0;
    while start < sequence.len() {
        let mut end = start;
        while end < sequence.len() && sequence[end].axis == sequence[start].axis {
            end += 1;
        }
        let mut run: Vec<(usize, usize)> =
            sequence[start..end].iter().map(|tag| (tag.axis, tag.family)).collect();
        run.sort();
        class.extend(run);
        start = end;
    }
    class
}

#[test]
fn initial_state_has_no_last_move() {
    let fsm = CanonicalFSM::new(None, None);
    assert_eq!(fsm.initial_state(), CanonicalFSMState { last: None });
    assert!(fsm.is_accepting(fsm.initial_state()));
}

#[test]
fn same_family_is_not_repeated() {
    let fsm = CanonicalFSM::new(None, None);
    let state = fsm.next_state(fsm.initial_state(), tag(0, 0)).unwrap();
    assert_eq!(state, CanonicalFSMState { last: Some(tag(0, 0)) });
    assert_eq!(fsm.next_state(state, tag(0, 0)), None);
    assert_eq!(
        fsm.next_state(state, tag(1, 0)),
        Some(CanonicalFSMState { last: Some(tag(1, 0)) })
    );
}

#[test]
fn commuting_moves_come_in_ascending_order() {
    let fsm = CanonicalFSM::new(None, None);
    assert!(accepts(&fsm, &[tag(0, 0), tag(0, 1)]));
    assert!(!accepts(&fsm, &[tag(0, 1), tag(0, 0)]));
    assert!(accepts(&fsm, &[tag(0, 1), tag(1, 0), tag(0, 0)]));
    assert!(!accepts(&fsm, &[tag(0, 0), tag(0, 1), tag(0, 0)]));
}

#[test]
fn one_canonical_sequence_per_class() {
    // Two axes: one with three families of commuting moves, one with two.
    let moves = [tag(0, 0), tag(0, 1), tag(0, 2), tag(1, 0), tag(1, 1)];
    let fsm = CanonicalFSM::new(None, None);
    for length in 0..=5 {
        let mut classes_of_accepted = HashSet::new();
        let mut classes_without_repeat = HashSet::new();
        for sequence in sequences(&moves, length) {
            let class = class_of(&sequence);
            if accepts(&fsm, &sequence) {
                // No two accepted sequences are in one class.
                assert!(classes_of_accepted.insert(class.clone()));
            }
            if class.windows(2).all(|pair| pair[0] != pair[1]) {
                classes_without_repeat.insert(class);
            }
        }
        // Every class that does not repeat a family on an axis has its sequence.
        assert_eq!(classes_of_accepted, classes_without_repeat);
    }
}

#[test]
fn forced_moves_constrain_the_ends() {
    let fsm = CanonicalFSM::new(Some(vec![tag(2, 0), tag(0, 1)]), Some(vec![tag(1, 0), tag(2, 0)]));
    assert_eq!(fsm.initial_state(), CanonicalFSMState { last: Some(tag(0, 1)) });
    // After the forced move of family 1 on axis 0, family 0 of that axis is rejected.
    assert!(!accepts(&fsm, &[tag(0, 0)]));
    assert!(accepts(&fsm, &[tag(0, 2)]));
    // Before the forced move of family 0 on axis 1, no move of that axis may stand.
    assert!(!accepts(&fsm, &[tag(0, 2), tag(1, 0)]));
    assert!(!accepts(&fsm, &[tag(0, 2), tag(1, 1)]));
    assert!(accepts(&fsm, &[tag(0, 2), tag(2, 0)]));
    assert!(accepts(&fsm, &[]));
}
