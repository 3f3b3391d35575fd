//! Throwing dice for ability scores.

use vstd::prelude::*;
use vstd::pervasive::unreached;
use crate::dice::{
    ability_score, all_faces, drop_lowest, is_face, is_score, lemma_drop_lowest_bounds,
    DICE_PER_SCORE, MAX_SCORE, MIN_SCORE,
};
use crate::source::{
    dice_between, gave, lemma_gave_in_turn, lemma_gave_is_between, lemma_gave_nothing, DieSource,
    Supply, ThreadDice,
};

verus! {

/// How many abilities a character has.
pub const ABILITIES: usize = 6;

/// How many dice it takes to roll every ability once.
pub const DICE_PER_CHARACTER: usize = 24;

/// Why a roll was given up.
#[derive(Debug, Clone, Copy, PartialEq, Eq)]
pub enum RollError {
    /// The source had no die left for a draw that the roll needed.
    RandomSourceExhausted,
}

/// Whether every element of `scores` is a value that an ability can have.
pub open spec fn all_scores(scores: Seq<u8>) -> bool {
    forall|k: int| 0 <= k < scores.len() ==> is_score(#[trigger] scores[k])
}

/// The score that `dice` give to the ability in slot `slot`: the first four
/// dice make the score of slot 0, the next four that of slot 1, and so on.
pub open spec fn slot_score(dice: Seq<u8>, slot: int) -> int
    recommends
        0 <= slot,
        DICE_PER_SCORE * (slot + 1) <= dice.len(),
{
    drop_lowest(dice.subrange(DICE_PER_SCORE * slot, DICE_PER_SCORE * (slot + 1)))
}

/// Whether `scores` are the six scores that twenty-four dice give, four dice
/// to a slot in the order of the slots.
pub open spec fn scored(dice: Seq<u8>, scores: Seq<u8>) -> bool {
    &&& dice.len() == DICE_PER_CHARACTER
    &&& scores.len() == ABILITIES
    &&& forall|k: int| 0 <= k < ABILITIES ==> #[trigger] scores[k] == slot_score(dice, k)
}

/// What rolling one ability score does: `before` is the supply that the roll
/// found, `outcome` what it returned and `after` the supply that it left.
///
/// A roll that succeeds took four dice, and its score is what they give. A
/// roll fails only where a script of fewer than four faces was left, and has
/// used up that script then.
pub open spec fn rolled(before: Supply, outcome: Result<u8, RollError>, after: Supply) -> bool {
    let dice = dice_between(before, after);
    &&& gave(before, dice, after)
    &&& match outcome {
        Ok(score) => dice.len() == DICE_PER_SCORE && score == drop_lowest(dice),
        Err(error) => {
            &&& error == RollError::RandomSourceExhausted
            &&& dice.len() < DICE_PER_SCORE
            &&& before.script == Some(dice)
        },
    }
}

/// What rolling all six ability scores does: `before` is the supply that the
/// rolls found, `outcome` what came back and `after` the supply that was left.
///
/// Rolls that succeed took twenty-four dice, four to a slot in the order of
/// the slots, and each score is what its four dice give. The rolls fail only
/// where a script of fewer than twenty-four faces was left, and have used up
/// that script then.
pub open spec fn generated(
    before: Supply,
    outcome: Result<[u8; ABILITIES], RollError>,
    after: Supply,
) -> bool {
    let dice = dice_between(before, after);
    &&& gave(before, dice, after)
    &&& match outcome {
        Ok(scores) => scored(dice, scores@),
        Err(error) => {
            &&& error == RollError::RandomSourceExhausted
            &&& dice.len() < DICE_PER_CHARACTER
            &&& before.script == Some(dice)
        },
    }
}

/// Rolls one ability score: four dice from `source`, the lowest set aside,
/// the other three added up.
pub fn roll_ability_score<S: DieSource>(source: &mut S) -> (outcome: Result<u8, RollError>)
    ensures
        rolled(old(source).supply(), outcome, final(source).supply()),
        outcome matches Ok(score) ==> is_score(score),
{
    let ghost before = source.supply();
    let mut dice: [u8; DICE_PER_SCORE] = [0; DICE_PER_SCORE];
    let mut i: usize = 0;
    proof {
        lemma_gave_nothing(before);
        assert(dice@.take(0) == Seq::<u8>::empty());
    }
    while i < DICE_PER_SCORE
        invariant
            i <= DICE_PER_SCORE,
            before == old(source).supply(),
            gave(before, dice@.take(i as int), source.supply()),
        decreases DICE_PER_SCORE - i,
    {
        let ghost found = source.supply();
        let ghost taken = dice@.take(i as int);
        match source.draw() {
            Some(face) => {
                dice[i] = face;
                proof {
                    lemma_gave_in_turn(before, taken, found, seq![face], source.supply());
                    assert(dice@.take(i + 1) == taken + seq![face]);
                }
            },
            None => {
                proof {
                    lemma_gave_is_between(before, taken, found);
                    let faces = before.script->0;
                    assert(faces.skip(i as int).len() == 0);
                    assert(faces.take(i as int) == faces);
                }
                return Err(RollError::RandomSourceExhausted);
            },
        }
        i = i + 1;
    }
    proof {
        assert(dice@.take(DICE_PER_SCORE as int) == dice@);
        lemma_gave_is_between(before, dice@, source.supply());
    }
    Ok(ability_score(dice))
}

/// Rolls the six ability scores, one after the other, slot 0 first.
pub fn generate_all_scores<S: DieSource>(
    source: &mut S,
) -> (outcome: Result<[u8; ABILITIES], RollError>)
    ensures
        generated(old(source).supply(), outcome, final(source).supply()),
        outcome matches Ok(scores) ==> all_scores(scores@),
{
    let ghost before = source.supply();
    let ghost mut thrown: Seq<u8> = Seq::empty();
    let mut scores: [u8; ABILITIES] = [0; ABILITIES];
    let mut i: usize = 0;
    proof {
        lemma_gave_nothing(before);
    }
    while i < ABILITIES
        invariant
            i <= ABILITIES,
            before == old(source).supply(),
            thrown.len() == DICE_PER_SCORE * i,
            gave(before, thrown, source.supply()),
            forall|k: int| 0 <= k < i ==> #[trigger] scores@[k] == slot_score(thrown, k),
        decreases ABILITIES - i,
    {
        let ghost found = source.supply();
        let ghost earlier = thrown;
        let roll = roll_ability_score(source);
        proof {
            let four = dice_between(found, source.supply());
            lemma_gave_in_turn(before, earlier, found, four, source.supply());
            thrown = earlier + four;
            lemma_gave_is_between(before, thrown, source.supply());
        }
        match roll {
            Ok(score) => {
                scores[i] = score;
                proof {
                    let four = dice_between(found, source.supply());
                    assert(thrown.subrange(DICE_PER_SCORE * i, DICE_PER_SCORE * (i + 1)) == four);
                    assert forall|k: int| 0 <= k < i implies #[trigger] scores@[k] == slot_score(
                        thrown,
                        k,
                    ) by {
                        assert(thrown.subrange(DICE_PER_SCORE * k, DICE_PER_SCORE * (k + 1))
                            == earlier.subrange(DICE_PER_SCORE * k, DICE_PER_SCORE * (k + 1)));
                    }
                }
            },
            Err(error) => {
                proof {
                    let faces = before.script->0;
                    assert(faces == faces.take(earlier.len() as int) + faces.skip(
                        earlier.len() as int,
                    ));
                }
                return Err(error);
            },
        }
        i = i + 1;
    }
    proof {
        lemma_gave_is_between(before, thrown, source.supply());
        lemma_generated_scores_in_range(before, Ok(scores), source.supply());
    }
    Ok(scores)
}

/// Rolls one ability score with the thread's dice: four are thrown and the top
/// three added up. This roll cannot fail.
pub fn roll_4_add_top_3(dice: &mut ThreadDice) -> (score: u8)
    ensures
        rolled(old(dice).supply(), Ok(score), final(dice).supply()),
        is_score(score),
{
    match roll_ability_score(dice) {
        Ok(score) => score,
        Err(_) => unreached(),
    }
}

/// A roll from a script is settled by the script: where at least four faces
/// are left, it succeeds with the score of the first four and leaves the
/// others; where fewer are left, it fails and leaves none.
pub proof fn lemma_scripted_roll(before: Supply, outcome: Result<u8, RollError>, after: Supply)
    requires
        before.script is Some,
        rolled(before, outcome, after),
    ensures
        ({
            let faces = before.script->0;
            if faces.len() >= DICE_PER_SCORE {
                &&& outcome matches Ok(score)
                &&& score == slot_score(faces, 0)
                &&& after.script == Some(faces.skip(DICE_PER_SCORE as int))
            } else {
                &&& outcome == Err::<u8, RollError>(RollError::RandomSourceExhausted)
                &&& after.script == Some(Seq::<u8>::empty())
                &&& after.given == before.given + faces
            }
        }),
{
}

/// A roll from a source without a script cannot fail.
pub proof fn lemma_unscripted_roll(before: Supply, outcome: Result<u8, RollError>, after: Supply)
    requires
        before.script is None,
        rolled(before, outcome, after),
    ensures
        outcome is Ok,
        after.script is None,
{
}

/// Every score that a roll returns lies between 3 and 18.
pub proof fn lemma_rolled_score_in_range(
    before: Supply,
    outcome: Result<u8, RollError>,
    after: Supply,
)
    requires
        rolled(before, outcome, after),
    ensures
        outcome matches Ok(score) ==> is_score(score),
{
    if outcome is Ok {
        lemma_drop_lowest_bounds(dice_between(before, after));
    }
}

/// The six scores of a roll of all abilities lie between 3 and 18, each of
/// them.
pub proof fn lemma_generated_scores_in_range(
    before: Supply,
    outcome: Result<[u8; ABILITIES], RollError>,
    after: Supply,
)
    requires
        generated(before, outcome, after),
    ensures
        outcome matches Ok(scores) ==> all_scores(scores@),
{
    if let Ok(scores) = outcome {
        let dice = dice_between(before, after);
        assert forall|k: int| 0 <= k < scores@.len() implies is_score(#[trigger] scores@[k]) by {
            lemma_slot_score_in_range(dice, k);
        }
    }
}

/// The score of a slot lies between 3 and 18.
pub proof fn lemma_slot_score_in_range(dice: Seq<u8>, slot: int)
    requires
        all_faces(dice),
        0 <= slot,
        DICE_PER_SCORE * (slot + 1) <= dice.len(),
    ensures
        MIN_SCORE <= slot_score(dice, slot) <= MAX_SCORE,
{
    let four = dice.subrange(DICE_PER_SCORE * slot, DICE_PER_SCORE * (slot + 1));
    assert(all_faces(four)) by {
        assert forall|i: int| 0 <= i < four.len() implies is_face(#[trigger] four[i]) by {
            assert(four[i] == dice[DICE_PER_SCORE * slot + i]);
        }
    }
    lemma_drop_lowest_bounds(four);
}

} // verus!
