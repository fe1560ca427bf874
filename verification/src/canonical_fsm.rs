use crate::puzzle_traits::MoveTag;
use vstd::prelude::*;

verus! {

/// The state of the canonical-order machine: the tag of the move that was
/// applied last, or `None` before the first move.
#[derive(PartialEq, Eq, Structural, Clone, Copy, Debug)]
pub struct CanonicalFSMState {
    pub last: Option<MoveTag>,
}

/// Whether a move of tag `tag` may follow a move of tag `previous` in a
/// canonical sequence: on another axis always, on the same axis only with a
/// greater family. So a family is not repeated, and moves on one axis,
/// which commute, come in ascending order of family.
pub open spec fn may_follow(previous: MoveTag, tag: MoveTag) -> bool {
    previous.axis != tag.axis || previous.family < tag.family
}

/// The state after a move of tag `tag` in state `state`, or `None` where
/// the machine rejects the move.
pub open spec fn step(state: CanonicalFSMState, tag: MoveTag) -> Option<CanonicalFSMState> {
    match state.last {
        Some(previous) if !may_follow(previous, tag) => None,
        _ => Some(CanonicalFSMState { last: Some(tag) }),
    }
}

/// The state after the moves `tags` from `state`, or `None` where the
/// machine rejects one of them.
pub open spec fn run(state: CanonicalFSMState, tags: Seq<MoveTag>) -> Option<CanonicalFSMState>
    decreases tags.len(),
{
    if tags.len() == 0 {
        Some(state)
    } else {
        match step(state, tags[0]) {
            None => None,
            Some(next) => run(next, tags.skip(1)),
        }
    }
}

/// The state that a search starts in after the forced moves `pre_moves`:
/// that of the last of them.
pub open spec fn state_after_forced(pre_moves: Seq<MoveTag>) -> CanonicalFSMState {
    if pre_moves.len() == 0 {
        CanonicalFSMState { last: None }
    } else {
        CanonicalFSMState { last: Some(pre_moves.last()) }
    }
}

/// Whether a sequence may end in `state` where the moves `post_moves` are
/// forced to follow it: the first of them may follow.
pub open spec fn accepts_before_forced(state: CanonicalFSMState, post_moves: Seq<MoveTag>) -> bool {
    post_moves.len() == 0 || step(state, post_moves[0]) is Some
}

/// Whether the moves `tags` are a canonical sequence between the forced
/// moves `pre_moves` before it and `post_moves` after it.
pub open spec fn is_canonical(
    pre_moves: Seq<MoveTag>,
    tags: Seq<MoveTag>,
    post_moves: Seq<MoveTag>,
) -> bool {
    match run(state_after_forced(pre_moves), tags) {
        None => false,
        Some(end) => accepts_before_forced(end, post_moves),
    }
}

/// The canonical-order machine of one search: it rejects a move that
/// repeats the family of the move before it, and a move that commutes with
/// the move before it and belongs before it.
pub struct CanonicalFSM {
    pub pre_moves: Vec<MoveTag>,
    pub post_moves: Vec<MoveTag>,
}

impl CanonicalFSM {
    /// A machine for a search whose sequences stand between the forced
    /// moves `pre_moves` and `post_moves`; `None` forces no move.
    pub fn new(pre_moves: Option<Vec<MoveTag>>, post_moves: Option<Vec<MoveTag>>) -> (fsm: Self)
        ensures
            fsm.pre_moves@ == match pre_moves {
                Some(moves) => moves@,
                None => Seq::empty(),
            },
            fsm.post_moves@ == match post_moves {
                Some(moves) => moves@,
                None => Seq::empty(),
            },
    {
        CanonicalFSM {
            pre_moves: match pre_moves {
                Some(moves) => moves,
                None => Vec::new(),
            },
            post_moves: match post_moves {
                Some(moves) => moves,
                None => Vec::new(),
            },
        }
    }

    /// The state before the first move of a sequence.
    pub fn initial_state(&self) -> (state: CanonicalFSMState)
        ensures
            state == state_after_forced(self.pre_moves@),
    {
        let count = self.pre_moves.len();
        if count == 0 {
            CanonicalFSMState { last: None }
        } else {
            CanonicalFSMState { last: Some(self.pre_moves[count - 1]) }
        }
    }

    /// The state after a move of tag `tag`, or `None` where the move is
    /// rejected.
    pub fn next_state(&self, state: CanonicalFSMState, tag: MoveTag) -> (next: Option<
        CanonicalFSMState,
    >)
        ensures
            next == step(state, tag),
    {
        match state.last {
            Some(previous) => {
                if previous.axis == tag.axis && previous.family >= tag.family {
                    None
                } else {
                    Some(CanonicalFSMState { last: Some(tag) })
                }
            },
            None => Some(CanonicalFSMState { last: Some(tag) }),
        }
    }

    /// Whether a sequence may end in `state`.
    pub fn is_accepting(&self, state: CanonicalFSMState) -> (accepting: bool)
        ensures
            accepting == accepts_before_forced(state, self.post_moves@),
    {
        if self.post_moves.len() == 0 {
            true
        } else {
            self.next_state(state, self.post_moves[0]).is_some()
        }
    }
}

/// Running a sequence is running its first part, then the rest from where
/// the first part ended.
pub proof fn lemma_run_concat(state: CanonicalFSMState, first: Seq<MoveTag>, rest: Seq<MoveTag>)
    ensures
        run(state, first + rest) == match run(state, first) {
            None => None,
            Some(middle) => run(middle, rest),
        },
    decreases first.len(),
{
    if first.len() == 0 {
        assert(first + rest =~= rest);
    } else {
        assert((first + rest)[0] == first[0]);
        assert((first + rest).skip(1) =~= first.skip(1) + rest);
        match step(state, first[0]) {
            None => {},
            Some(next) => lemma_run_concat(next, first.skip(1), rest),
        }
    }
}

/// A move is rejected directly after a move of its own family on its own
/// axis.
pub proof fn lemma_repeated_family_is_rejected(state: CanonicalFSMState, tag: MoveTag)
    ensures
        step(state, tag) matches Some(next) ==> step(next, tag) is None,
{
}

/// Of two moves on one axis with different families, exactly one may
/// follow the other.
pub proof fn lemma_one_order_of_commuting_pair(a: MoveTag, b: MoveTag)
    requires
        a.axis == b.axis,
        a.family != b.family,
    ensures
        may_follow(a, b) != may_follow(b, a),
{
}

/// No two canonical sequences differ only by the order of two adjacent
/// moves on one axis: of `before, a, b, after` and `before, b, a, after`
/// at most one is canonical, and neither where `a` and `b` share a family.
pub proof fn lemma_exchange_of_commuting_neighbours(
    pre_moves: Seq<MoveTag>,
    post_moves: Seq<MoveTag>,
    before: Seq<MoveTag>,
    a: MoveTag,
    b: MoveTag,
    after: Seq<MoveTag>,
)
    requires
        a.axis == b.axis,
    ensures
        !(is_canonical(pre_moves, before + seq![a, b] + after, post_moves) && is_canonical(
            pre_moves,
            before + seq![b, a] + after,
            post_moves,
        )),
        a.family == b.family ==> !is_canonical(pre_moves, before + seq![a, b] + after, post_moves),
{
    let start = state_after_forced(pre_moves);
    lemma_run_concat(start, before + seq![a, b], after);
    lemma_run_concat(start, before + seq![b, a], after);
    lemma_run_concat(start, before, seq![a, b]);
    lemma_run_concat(start, before, seq![b, a]);
    match run(start, before) {
        None => {},
        Some(middle) => {
            lemma_run_pair(middle, a, b);
            lemma_run_pair(middle, b, a);
        },
    }
}

/// What the machine does on a sequence of two moves.
proof fn lemma_run_pair(state: CanonicalFSMState, a: MoveTag, b: MoveTag)
    ensures
        run(state, seq![a, b]) == match step(state, a) {
            None => None,
            Some(next) => step(next, b),
        },
{
    let pair = seq![a, b];
    assert(pair[0] == a);
    assert(pair.skip(1) =~= seq![b]);
    assert(seq![b][0] == b);
    assert(seq![b].skip(1) =~= Seq::<MoveTag>::empty());
    match step(state, a) {
        None => {},
        Some(next) => {
            assert(run(next, seq![b]) == match step(next, b) {
                None => None,
                Some(end) => run(end, seq![b].skip(1)),
            });
        },
    }
}

/// Whether all of `tags` are on one axis.
pub open spec fn on_one_axis(tags: Seq<MoveTag>) -> bool {
    forall|i: int, j: int|
        0 <= i < tags.len() && 0 <= j < tags.len() ==> (#[trigger] tags[i]).axis == (
        #[trigger] tags[j]).axis
}

/// The order of tags by axis, then by family.
pub open spec fn tag_order() -> spec_fn(MoveTag, MoveTag) -> bool {
    |a: MoveTag, b: MoveTag| a.axis < b.axis || (a.axis == b.axis && a.family <= b.family)
}

/// The moves of an accepted run on one axis are in ascending order of
/// family.
proof fn lemma_accepted_run_ascends(state: CanonicalFSMState, tags: Seq<MoveTag>)
    requires
        on_one_axis(tags),
        run(state, tags) is Some,
    ensures
        forall|i: int, j: int|
            0 <= i < j < tags.len() ==> (#[trigger] tags[i]).family < (#[trigger] tags[j]).family,
    decreases tags.len(),
{
    if tags.len() > 1 {
        let next = step(state, tags[0]).unwrap();
        let rest = tags.skip(1);
        assert(forall|i: int| 0 <= i < rest.len() ==> rest[i] == tags[i + 1]);
        lemma_accepted_run_ascends(next, rest);
        assert(step(next, rest[0]) is Some);
        assert(tags[0].family < tags[1].family);
        assert forall|i: int, j: int| 0 <= i < j < tags.len() implies (#[trigger] tags[i]).family
            < (#[trigger] tags[j]).family by {
            if i > 0 {
                assert(rest[i - 1].family < rest[j - 1].family);
            } else if j > 1 {
                assert(rest[0].family < rest[j - 1].family);
            }
        }
    }
}

/// No two canonical sequences differ only by the order of a run of moves
/// on one axis: where `before, block, after` and `before, other, after` are
/// both canonical, `block` is a run on one axis and `other` holds the same
/// moves, the two runs are the same.
pub proof fn lemma_canonical_order_of_a_run_is_unique(
    pre_moves: Seq<MoveTag>,
    post_moves: Seq<MoveTag>,
    before: Seq<MoveTag>,
    block: Seq<MoveTag>,
    other: Seq<MoveTag>,
    after: Seq<MoveTag>,
)
    requires
        on_one_axis(block),
        other.to_multiset() == block.to_multiset(),
        is_canonical(pre_moves, before + block + after, post_moves),
        is_canonical(pre_moves, before + other + after, post_moves),
    ensures
        block == other,
{
    let start = state_after_forced(pre_moves);
    lemma_run_concat(start, before + block, after);
    lemma_run_concat(start, before + other, after);
    lemma_run_concat(start, before, block);
    lemma_run_concat(start, before, other);
    let middle = run(start, before).unwrap();
    assert forall|i: int, j: int| 0 <= i < other.len() && 0 <= j < other.len() implies (
    #[trigger] other[i]).axis == (#[trigger] other[j]).axis by {
        vstd::seq_lib::to_multiset_contains(other, other[i]);
        vstd::seq_lib::to_multiset_contains(other, other[j]);
        vstd::seq_lib::to_multiset_contains(block, other[i]);
        vstd::seq_lib::to_multiset_contains(block, other[j]);
        assert(other.contains(other[i]) && other.contains(other[j]));
        let at_i = choose|at: int| 0 <= at < block.len() && block[at] == other[i];
        let at_j = choose|at: int| 0 <= at < block.len() && block[at] == other[j];
        assert(block[at_i].axis == block[at_j].axis);
    }
    lemma_accepted_run_ascends(middle, block);
    lemma_accepted_run_ascends(middle, other);
    let order = tag_order();
    assert(vstd::relations::sorted_by(block, order)) by {
        assert forall|i: int, j: int| 0 <= i < j < block.len() implies #[trigger] order(
            block[i],
            block[j],
        ) by {
            assert(block[i].family < block[j].family);
        }
    }
    assert(vstd::relations::sorted_by(other, order)) by {
        assert forall|i: int, j: int| 0 <= i < j < other.len() implies #[trigger] order(
            other[i],
            other[j],
        ) by {
            assert(other[i].family < other[j].family);
        }
    }
    assert(vstd::relations::total_ordering(order)) by {
        assert(vstd::relations::reflexive(order));
        assert(vstd::relations::antisymmetric(order)) by {
            assert forall|a: MoveTag, b: MoveTag| #[trigger]
                order(a, b) && #[trigger] order(b, a) implies a == b by {}
        }
        assert(vstd::relations::transitive(order));
        assert(vstd::relations::strongly_connected(order));
    }
    vstd::seq_lib::lemma_sorted_unique(block, other, order);
}

} // verus!
