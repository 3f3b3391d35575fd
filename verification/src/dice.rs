//! Six-sided dice and the arithmetic of "roll four, keep the best three".
//!
//! Everything here works on dice that have already been thrown: a sequence of
//! faces goes in, a number comes out. Where the faces come from is the business
//! of [`crate::source`].

use vstd::prelude::*;
use vstd::seq_lib::{to_multiset_contains, to_multiset_len, to_multiset_remove, to_multiset_update};

verus! {

/// How many dice are thrown for one ability score.
pub const DICE_PER_SCORE: usize = 4;

/// The lowest ability score that four dice can give.
pub const MIN_SCORE: u8 = 3;

/// The highest ability score that four dice can give.
pub const MAX_SCORE: u8 = 18;

/// Whether `face` is a face of a six-sided die.
pub open spec fn is_face(face: u8) -> bool {
    1 <= face <= 6
}

/// Whether every element of `dice` is a face of a six-sided die.
pub open spec fn all_faces(dice: Seq<u8>) -> bool {
    forall|i: int| 0 <= i < dice.len() ==> is_face(#[trigger] dice[i])
}

/// Whether `score` is a value that an ability can have.
pub open spec fn is_score(score: u8) -> bool {
    MIN_SCORE <= score <= MAX_SCORE
}

/// The sum of all the dice.
pub open spec fn total(dice: Seq<u8>) -> int
    decreases dice.len(),
{
    if dice.len() == 0 {
        0
    } else {
        total(dice.drop_last()) + dice.last()
    }
}

/// The smallest face among the dice (of at least one die).
pub open spec fn lowest(dice: Seq<u8>) -> int
    recommends
        dice.len() > 0,
    decreases dice.len(),
{
    if dice.len() <= 1 {
        dice[0] as int
    } else if dice.last() < lowest(dice.drop_last()) {
        dice.last() as int
    } else {
        lowest(dice.drop_last())
    }
}

/// The sum of the dice once a single die showing the smallest face is set
/// aside. Dice that tie for the smallest face lose only one of their number.
pub open spec fn drop_lowest(dice: Seq<u8>) -> int
    recommends
        dice.len() > 0,
{
    total(dice) - lowest(dice)
}

/// Whether the dice stand in ascending order.
pub open spec fn is_ascending(dice: Seq<u8>) -> bool {
    forall|i: int, j: int| 0 <= i <= j < dice.len() ==> dice[i] <= dice[j]
}

/// Whether `face` is a face of a six-sided die.
pub fn check_face(face: u8) -> (ok: bool)
    ensures
        ok == is_face(face),
{
    1 <= face && face <= 6
}

/// Whether every element of `dice` is a face of a six-sided die.
pub fn check_faces(dice: &Vec<u8>) -> (ok: bool)
    ensures
        ok == all_faces(dice@),
{
    let mut i: usize = 0;
    while i < dice.len()
        invariant
            i <= dice.len(),
            all_faces(dice@.take(i as int)),
        decreases dice.len() - i,
    {
        if !check_face(dice[i]) {
            return false;
        }
        proof {
            let seen = dice@.take(i + 1);
            assert forall|k: int| 0 <= k < seen.len() implies is_face(#[trigger] seen[k]) by {
                assert(k < i ==> seen[k] == dice@.take(i as int)[k]);
            }
        }
        i = i + 1;
    }
    assert(dice@.take(i as int) == dice@);
    true
}

/// Removing one die lowers the total by the face it shows.
proof fn lemma_total_remove(dice: Seq<u8>, at: int)
    requires
        0 <= at < dice.len(),
    ensures
        total(dice) == total(dice.remove(at)) + dice[at],
    decreases dice.len(),
{
    if at == dice.len() - 1 {
        assert(dice.remove(at) == dice.drop_last());
    } else {
        lemma_total_remove(dice.drop_last(), at);
        assert(dice.remove(at).drop_last() == dice.drop_last().remove(at));
    }
}

/// Two throws that differ only in the order of the dice have as many dice,
/// and a face that one of them shows is shown by the other too.
proof fn lemma_same_dice(left: Seq<u8>, right: Seq<u8>, face: u8)
    requires
        left.to_multiset() == right.to_multiset(),
    ensures
        left.len() == right.len(),
        left.contains(face) == right.contains(face),
{
    to_multiset_len(left);
    to_multiset_len(right);
    to_multiset_contains(left, face);
    to_multiset_contains(right, face);
}

/// Exchanging two dice changes their order and nothing else.
proof fn lemma_swap_keeps_dice(dice: Seq<u8>, i: int, j: int)
    requires
        0 <= i < dice.len(),
        0 <= j < dice.len(),
    ensures
        dice.update(i, dice[j]).update(j, dice[i]).to_multiset() == dice.to_multiset(),
{
    broadcast use vstd::multiset::group_multiset_axioms;

    let halfway = dice.update(i, dice[j]);
    to_multiset_update(dice, i, dice[j]);
    to_multiset_update(halfway, j, dice[i]);
    to_multiset_contains(dice, dice[i]);
}

/// The total does not depend on the order of the dice.
pub proof fn lemma_total_ignores_order(left: Seq<u8>, right: Seq<u8>)
    requires
        left.to_multiset() == right.to_multiset(),
    ensures
        total(left) == total(right),
    decreases left.len(),
{
    if left.len() == 0 {
        lemma_same_dice(left, right, 0);
    } else {
        let face = left.last();
        let last = left.len() - 1;
        lemma_same_dice(left, right, face);
        let at = right.index_of(face);
        to_multiset_remove(left, last);
        to_multiset_remove(right, at);
        lemma_total_ignores_order(left.drop_last(), right.remove(at));
        lemma_total_remove(right, at);
    }
}

/// The lowest face is shown by one of the dice, and no die shows less.
pub proof fn lemma_lowest_is_least(dice: Seq<u8>)
    requires
        dice.len() > 0,
    ensures
        exists|i: int| 0 <= i < dice.len() && dice[i] == lowest(dice),
        forall|i: int| 0 <= i < dice.len() ==> lowest(dice) <= dice[i],
    decreases dice.len(),
{
    if dice.len() == 1 {
        assert(dice[0] == lowest(dice));
    } else {
        let front = dice.drop_last();
        lemma_lowest_is_least(front);
        let at = choose|i: int| 0 <= i < front.len() && front[i] == lowest(front);
        assert(dice[at] == front[at]);
        assert forall|i: int| 0 <= i < dice.len() implies lowest(dice) <= dice[i] by {
            assert(i < front.len() ==> front[i] == dice[i]);
        }
    }
}

/// The lowest face does not depend on the order of the dice.
pub proof fn lemma_lowest_ignores_order(left: Seq<u8>, right: Seq<u8>)
    requires
        left.len() > 0,
        left.to_multiset() == right.to_multiset(),
    ensures
        lowest(left) == lowest(right),
{
    lemma_same_dice(left, right, 0);
    lemma_lowest_is_least(left);
    lemma_lowest_is_least(right);
    let i = choose|i: int| 0 <= i < left.len() && left[i] == lowest(left);
    let j = choose|j: int| 0 <= j < right.len() && right[j] == lowest(right);
    lemma_same_dice(left, right, left[i]);
    lemma_same_dice(left, right, right[j]);
}

/// In a throw that stands in ascending order the first die shows the lowest
/// face, so the score is the sum of all the dice after the first.
pub proof fn lemma_ascending_drops_first(dice: Seq<u8>)
    requires
        dice.len() > 0,
        is_ascending(dice),
    ensures
        lowest(dice) == dice[0],
        drop_lowest(dice) == total(dice.drop_first()),
{
    lemma_lowest_is_least(dice);
    lemma_total_remove(dice, 0);
}

/// Of `n` dice, the `n - 1` that are kept sum to at least `n - 1` and to at
/// most `6 * (n - 1)`: for four dice that is the range from 3 to 18. The die
/// that is set aside shows a face like any other.
pub proof fn lemma_drop_lowest_bounds(dice: Seq<u8>)
    requires
        dice.len() > 0,
        all_faces(dice),
    ensures
        dice.len() - 1 <= drop_lowest(dice) <= 6 * (dice.len() - 1),
        1 <= lowest(dice) <= 6,
    decreases dice.len(),
{
    if dice.len() == 1 {
        assert(total(dice.drop_last()) == 0);
    } else {
        let front = dice.drop_last();
        assert(all_faces(front)) by {
            assert forall|i: int| 0 <= i < front.len() implies is_face(#[trigger] front[i]) by {
                assert(front[i] == dice[i]);
            }
        }
        lemma_drop_lowest_bounds(front);
    }
}

/// Sorts the dice into ascending order, in place.
pub fn sort_ascending(dice: &mut Vec<u8>)
    ensures
        is_ascending(final(dice)@),
        final(dice)@.to_multiset() == old(dice)@.to_multiset(),
{
    let ghost start = dice@;
    let n: usize = dice.len();
    let mut i: usize = 1;
    while i < n
        invariant
            1 <= i,
            dice.len() == n,
            dice@.to_multiset() == start.to_multiset(),
            forall|a: int, b: int| 0 <= a <= b < i && b < n ==> dice[a] <= dice[b],
        decreases n - i,
    {
        let mut j: usize = i;
        while j > 0 && dice[j - 1] > dice[j]
            invariant
                j <= i < n,
                dice.len() == n,
                dice@.to_multiset() == start.to_multiset(),
                forall|a: int, b: int| 0 <= a <= b <= i && a != j && b != j ==> dice[a] <= dice[b],
                forall|b: int| j < b <= i ==> dice[j as int] <= dice[b],
            decreases j,
        {
            let ghost before = dice@;
            let upper: u8 = dice[j - 1];
            let lower: u8 = dice[j];
            dice[j - 1] = lower;
            dice[j] = upper;
            proof {
                lemma_swap_keeps_dice(before, j - 1, j as int);
            }
            j = j - 1;
        }
        i = i + 1;
    }
}

/// The ability score that four thrown dice give: put the dice in ascending
/// order, set the first one aside and add up the other three.
pub fn ability_score(dice: [u8; DICE_PER_SCORE]) -> (score: u8)
    requires
        all_faces(dice@),
    ensures
        score == drop_lowest(dice@),
        is_score(score),
{
    let mut sorted: Vec<u8> = Vec::with_capacity(DICE_PER_SCORE);
    let mut i: usize = 0;
    while i < DICE_PER_SCORE
        invariant
            i <= DICE_PER_SCORE,
            sorted@ == dice@.take(i as int),
        decreases DICE_PER_SCORE - i,
    {
        sorted.push(dice[i]);
        i = i + 1;
    }
    assert(sorted@ == dice@);
    sort_ascending(&mut sorted);
    proof {
        lemma_same_dice(sorted@, dice@, 0);
        lemma_total_ignores_order(sorted@, dice@);
        lemma_lowest_ignores_order(sorted@, dice@);
        lemma_ascending_drops_first(sorted@);
        reveal_with_fuel(total, 4);
        lemma_drop_lowest_bounds(dice@);
    }
    sorted[1] + sorted[2] + sorted[3]
}

} // verus!
