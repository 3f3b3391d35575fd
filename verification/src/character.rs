//! The character: six ability scores, and the two commands that change them.
//!
//! A character starts with every score at the baseline. `Roll` throws dice for
//! all six scores at once, `Reset` puts all six back to the baseline. Neither
//! ever leaves some scores changed and others not.

use vstd::prelude::*;
use crate::dice::{all_faces, is_score};
use crate::roller::{
    all_scores, generate_all_scores, lemma_slot_score_in_range, scored, RollError, ABILITIES,
    DICE_PER_CHARACTER,
};
use crate::source::{dice_between, gave, DieSource, Supply};

verus! {

/// The score that every ability has at the start and after a reset.
pub const BASELINE: u8 = 10;

/// The six abilities, in the order in which they are shown.
#[derive(Debug, Clone, Copy, PartialEq, Eq, Hash)]
pub enum Ability {
    Strength,
    Dexterity,
    Constitution,
    Intelligence,
    Wisdom,
    Charisma,
}

impl Ability {
    /// The place of the ability among the six, counted from 0.
    pub open spec fn slot(self) -> int {
        match self {
            Ability::Strength => 0,
            Ability::Dexterity => 1,
            Ability::Constitution => 2,
            Ability::Intelligence => 3,
            Ability::Wisdom => 4,
            Ability::Charisma => 5,
        }
    }

    /// The place of the ability among the six, counted from 0.
    pub fn index(self) -> (index: usize)
        ensures
            index == self.slot(),
            index < ABILITIES,
    {
        match self {
            Ability::Strength => 0,
            Ability::Dexterity => 1,
            Ability::Constitution => 2,
            Ability::Intelligence => 3,
            Ability::Wisdom => 4,
            Ability::Charisma => 5,
        }
    }

    /// The six abilities in their order: each stands at its own slot.
    pub fn all() -> (abilities: [Ability; ABILITIES])
        ensures
            forall|k: int| 0 <= k < ABILITIES ==> (#[trigger] abilities@[k]).slot() == k,
    {
        [
            Ability::Strength,
            Ability::Dexterity,
            Ability::Constitution,
            Ability::Intelligence,
            Ability::Wisdom,
            Ability::Charisma,
        ]
    }
}

/// A command to the character.
#[derive(Debug, Clone, Copy, PartialEq, Eq)]
pub enum Message {
    /// Throw dice anew for all six scores.
    Roll,
    /// Put all six scores back to the baseline.
    Reset,
}

/// The scores of a character at the start and after a reset: six times the
/// baseline.
pub open spec fn baseline() -> Seq<u8> {
    Seq::new(ABILITIES as nat, |k: int| BASELINE)
}

/// What one command does to a character.
///
/// `before` are the scores and `supply` the books of the dice that the
/// command found, `after` and `left` the scores and the books when it was
/// done, and `outcome` is what it returned.
///
/// * `Reset` always succeeds, takes no dice and leaves the baseline.
/// * A `Roll` that succeeds took twenty-four dice and leaves the six scores
///   that they give, four dice to a slot.
/// * A `Roll` fails only where a script of fewer than twenty-four faces was
///   left. It has used up that script then, and the scores are as they were.
pub open spec fn stepped(
    before: Seq<u8>,
    supply: Supply,
    message: Message,
    outcome: Result<(), RollError>,
    after: Seq<u8>,
    left: Supply,
) -> bool {
    match message {
        Message::Reset => {
            &&& outcome is Ok
            &&& after == baseline()
            &&& left == supply
        },
        Message::Roll => {
            let dice = dice_between(supply, left);
            &&& gave(supply, dice, left)
            &&& match outcome {
                Ok(_) => scored(dice, after),
                Err(error) => {
                    &&& error == RollError::RandomSourceExhausted
                    &&& dice.len() < DICE_PER_CHARACTER
                    &&& supply.script == Some(dice)
                    &&& after == before
                },
            }
        },
    }
}

/// A character: one score for each of the six abilities, each of them from 3
/// to 18.
#[derive(Debug, Clone, Copy, PartialEq, Eq)]
pub struct Character {
    scores: [u8; ABILITIES],
}

impl View for Character {
    type V = Seq<u8>;

    /// The six scores, in the order of the abilities.
    closed spec fn view(&self) -> Seq<u8> {
        self.scores@
    }
}

impl Character {
    #[verifier::type_invariant]
    spec fn well_formed(self) -> bool {
        all_scores(self.scores@)
    }

    /// A character with every score at the baseline.
    pub fn new() -> (character: Character)
        ensures
            character@ == baseline(),
    {
        Character { scores: [BASELINE; ABILITIES] }
    }

    /// The six scores, in the order of the abilities.
    pub fn scores(&self) -> (scores: [u8; ABILITIES])
        ensures
            scores@ == self@,
            all_scores(scores@),
    {
        proof {
            use_type_invariant(self);
        }
        self.scores
    }

    /// The score of one ability.
    pub fn score(&self, ability: Ability) -> (score: u8)
        ensures
            score == self@[ability.slot()],
            is_score(score),
    {
        proof {
            use_type_invariant(self);
        }
        self.scores[ability.index()]
    }

    /// The abilities with their scores, in the order in which they are shown.
    pub fn snapshot(&self) -> (pairs: Vec<(Ability, u8)>)
        ensures
            pairs@.len() == ABILITIES,
            forall|k: int|
                0 <= k < ABILITIES ==> (#[trigger] pairs@[k]).0.slot() == k && pairs@[k].1
                    == self@[k],
    {
        let abilities = Ability::all();
        let mut pairs: Vec<(Ability, u8)> = Vec::with_capacity(ABILITIES);
        let mut i: usize = 0;
        while i < ABILITIES
            invariant
                i <= ABILITIES,
                pairs@.len() == i,
                forall|k: int| 0 <= k < ABILITIES ==> (#[trigger] abilities@[k]).slot() == k,
                forall|k: int|
                    0 <= k < i ==> (#[trigger] pairs@[k]).0.slot() == k && pairs@[k].1 == self@[k],
            decreases ABILITIES - i,
        {
            let ability = abilities[i];
            pairs.push((ability, self.score(ability)));
            i = i + 1;
        }
        pairs
    }

    /// Carries out one command. A roll takes its dice from `source`.
    ///
    /// A roll that fails leaves every score as it was.
    pub fn update<S: DieSource>(
        &mut self,
        message: Message,
        source: &mut S,
    ) -> (outcome: Result<(), RollError>)
        ensures
            stepped(
                old(self)@,
                old(source).supply(),
                message,
                outcome,
                final(self)@,
                final(source).supply(),
            ),
            outcome is Err ==> final(self)@ == old(self)@,
            final(self)@.len() == ABILITIES,
            all_scores(final(self)@),
    {
        proof {
            use_type_invariant(&*self);
        }
        match message {
            Message::Roll => {
                match generate_all_scores(source) {
                    Ok(scores) => {
                        self.scores = scores;
                        Ok(())
                    },
                    Err(error) => Err(error),
                }
            },
            Message::Reset => {
                self.scores = [BASELINE; ABILITIES];
                assert(self@ == baseline());
                Ok(())
            },
        }
    }
}

/// Whether `states` is a run of resets: each state after the first is what a
/// reset made of the state before it.
pub open spec fn is_reset_run(states: Seq<Seq<u8>>, supply: Supply) -> bool {
    forall|i: int|
        0 < i < states.len() ==> stepped(
            states[i - 1],
            supply,
            Message::Reset,
            Ok(()),
            #[trigger] states[i],
            supply,
        )
}

/// Resetting is idempotent: however many resets follow one another, and
/// whatever the scores were before the first of them, the scores after each
/// are six times the baseline.
pub proof fn lemma_reset_is_idempotent(states: Seq<Seq<u8>>, supply: Supply)
    requires
        is_reset_run(states, supply),
    ensures
        forall|i: int| 0 < i < states.len() ==> #[trigger] states[i] == baseline(),
{
}

/// A roll is all or nothing: one that fails leaves every score as it was. It
/// fails if and only if its dice come from a script of fewer than twenty-four
/// faces.
pub proof fn lemma_failed_roll_keeps_scores(
    before: Seq<u8>,
    supply: Supply,
    outcome: Result<(), RollError>,
    after: Seq<u8>,
    left: Supply,
)
    requires
        stepped(before, supply, Message::Roll, outcome, after, left),
    ensures
        outcome is Err ==> after == before,
        outcome is Err <==> (supply.script matches Some(faces) && faces.len()
            < DICE_PER_CHARACTER),
{
}

/// A roll from a script of twenty-four faces or more leaves the six scores
/// that the first twenty-four give, and leaves the script without them.
pub proof fn lemma_scripted_roll_is_settled(
    before: Seq<u8>,
    supply: Supply,
    outcome: Result<(), RollError>,
    after: Seq<u8>,
    left: Supply,
)
    requires
        supply.script matches Some(faces) && faces.len() >= DICE_PER_CHARACTER,
        stepped(before, supply, Message::Roll, outcome, after, left),
    ensures
        outcome is Ok,
        scored(supply.script->0.take(DICE_PER_CHARACTER as int), after),
        left.script == Some(supply.script->0.skip(DICE_PER_CHARACTER as int)),
{
}

/// Every command leaves six scores from 3 to 18 where it found six such
/// scores.
pub proof fn lemma_step_keeps_scores_valid(
    before: Seq<u8>,
    supply: Supply,
    message: Message,
    outcome: Result<(), RollError>,
    after: Seq<u8>,
    left: Supply,
)
    requires
        before.len() == ABILITIES,
        all_scores(before),
        stepped(before, supply, message, outcome, after, left),
    ensures
        after.len() == ABILITIES,
        all_scores(after),
{
    if message == Message::Roll && outcome is Ok {
        let dice = dice_between(supply, left);
        assert forall|k: int| 0 <= k < after.len() implies is_score(#[trigger] after[k]) by {
            lemma_slot_score_in_range(dice, k);
        }
    }
}

/// Rolls from a source without a script are not tied to one another: whatever
/// the scores were, the next roll may take any twenty-four dice, and so may
/// the roll that follows it. The two rolls need not leave the same scores.
pub proof fn lemma_unscripted_rolls_are_independent(
    start: Seq<u8>,
    given: Seq<u8>,
    first_dice: Seq<u8>,
    first: Seq<u8>,
    second_dice: Seq<u8>,
    second: Seq<u8>,
)
    requires
        all_faces(first_dice),
        scored(first_dice, first),
        all_faces(second_dice),
        scored(second_dice, second),
    ensures
        stepped(
            start,
            Supply { given, script: None },
            Message::Roll,
            Ok(()),
            first,
            Supply { given: given + first_dice, script: None },
        ),
        stepped(
            first,
            Supply { given: given + first_dice, script: None },
            Message::Roll,
            Ok(()),
            second,
            Supply { given: given + first_dice + second_dice, script: None },
        ),
{
    assert((given + first_dice).skip(given.len() as int) == first_dice);
    assert((given + first_dice + second_dice).skip((given + first_dice).len() as int)
        == second_dice);
}

} // verus!
