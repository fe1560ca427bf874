use vstd::prelude::*;

verus! {

/// A move for collapsing: the family it belongs to and how often it is
/// made, negative for the other direction.
#[derive(PartialEq, Eq, Structural, Clone, Copy, Debug)]
pub struct CountedMove {
    pub family: usize,
    pub amount: i32,
}

/// The amount in `mod_offset .. mod_offset + modulus` that is `amount`
/// but for a multiple of `modulus`.
pub open spec fn reduced_amount(amount: int, modulus: int, mod_offset: int) -> int {
    (amount - mod_offset) % modulus + mod_offset
}

/// The moves `collapsed` with `next` after them: where the last of them is
/// of the family of `next`, the two become one move of the reduced sum of
/// their amounts, or no move where that is zero.
pub open spec fn with_move(
    collapsed: Seq<CountedMove>,
    next: CountedMove,
    modulus: int,
    mod_offset: int,
) -> Seq<CountedMove> {
    if collapsed.len() > 0 && collapsed.last().family == next.family {
        let amount = reduced_amount(collapsed.last().amount + next.amount, modulus, mod_offset);
        if amount == 0 {
            collapsed.drop_last()
        } else {
            collapsed.drop_last().push(CountedMove { family: next.family, amount: amount as i32 })
        }
    } else {
        collapsed.push(next)
    }
}

/// The first `count` of `moves`, collapsed: each move is joined to what
/// the moves before it have collapsed to.
pub open spec fn collapsed_moves(
    moves: Seq<CountedMove>,
    count: int,
    modulus: int,
    mod_offset: int,
) -> Seq<CountedMove>
    decreases count,
{
    if count <= 0 {
        Seq::empty()
    } else {
        with_move(
            collapsed_moves(moves, count - 1, modulus, mod_offset),
            moves[count - 1],
            modulus,
            mod_offset,
        )
    }
}

/// Whether no two neighbours of a sequence of moves share a family.
pub open spec fn has_no_adjacent_family(moves: Seq<CountedMove>) -> bool {
    forall|i: int| 0 <= i < moves.len() - 1 ==> (#[trigger] moves[i]).family != moves[i + 1].family
}

/// Joins neighbouring moves of one family, and again the moves that come
/// to stand side by side when a pair cancels. Amounts of joined moves are
/// reduced to `mod_offset .. mod_offset + modulus`.
pub fn collapse_adjacent_moves(moves: &Vec<CountedMove>, modulus: i32, mod_offset: i32) -> (collapsed:
    Vec<CountedMove>)
    requires
        modulus > 0,
        i32::MIN <= mod_offset + modulus <= i32::MAX,
    ensures
        collapsed@ == collapsed_moves(
            moves@,
            moves@.len() as int,
            modulus as int,
            mod_offset as int,
        ),
        has_no_adjacent_family(collapsed@),
{
    let mut collapsed: Vec<CountedMove> = Vec::new();
    let mut done: usize = 0;
    while done < moves.len()
        invariant
            done <= moves@.len(),
            modulus > 0,
            i32::MIN <= mod_offset + modulus <= i32::MAX,
            collapsed@ == collapsed_moves(moves@, done as int, modulus as int, mod_offset as int),
            has_no_adjacent_family(collapsed@),
        decreases moves@.len() - done,
    {
        let next = moves[done];
        let ghost before = collapsed@;
        let count = collapsed.len();
        if count > 0 && collapsed[count - 1].family == next.family {
            let sum: i64 = collapsed[count - 1].amount as i64 + next.amount as i64;
            let shifted: i64 = sum - mod_offset as i64;
            proof {
                vstd::arithmetic::div_mod::lemma_mod_bound(shifted as int, modulus as int);
            }
            collapsed.pop();
            // The modulus is positive, so the remainder exists.
            if let Some(remainder) = shifted.checked_rem_euclid(modulus as i64) {
                let amount: i64 = remainder + mod_offset as i64;
                if amount != 0 {
                    collapsed.push(CountedMove { family: next.family, amount: amount as i32 });
                }
            }
        } else {
            collapsed.push(next);
        }
        proof {
            assert(collapsed@ =~= with_move(before, next, modulus as int, mod_offset as int));
        }
        done += 1;
    }
    collapsed
}

/// Moves of which no two neighbours share a family collapse to
/// themselves.
pub proof fn lemma_collapse_keeps_what_cannot_be_joined(
    moves: Seq<CountedMove>,
    count: int,
    modulus: int,
    mod_offset: int,
)
    requires
        has_no_adjacent_family(moves),
        0 <= count <= moves.len(),
    ensures
        collapsed_moves(moves, count, modulus, mod_offset) == moves.take(count),
    decreases count,
{
    if count > 0 {
        lemma_collapse_keeps_what_cannot_be_joined(moves, count - 1, modulus, mod_offset);
        let before = moves.take(count - 1);
        if count > 1 {
            assert(before.last() == moves[count - 2]);
            assert(moves[count - 2].family != moves[count - 2 + 1].family);
        }
        assert(before.push(moves[count - 1]) =~= moves.take(count));
    } else {
        assert(moves.take(0) =~= Seq::<CountedMove>::empty());
    }
}

} // verus!
