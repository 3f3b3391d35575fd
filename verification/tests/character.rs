use character_roller::character::{Ability, Character, Message, BASELINE};
use character_roller::roller::RollError;
use character_roller::source::{ScriptedDice, ThreadDice};

fn script(faces: &[u8]) -> ScriptedDice {
    ScriptedDice::new(faces.to_vec()).unwrap()
}

#[test]
fn a_new_character_has_every_score_at_ten() {
    let character = Character::new();
    assert_eq!(BASELINE, 10);
    assert_eq!(character.scores(), [10, 10, 10, 10, 10, 10]);
}

#[test]
fn roll_then_reset() {
    let mut rng = ThreadDice::new();
    let mut character = Character::new();
    assert_eq!(character.scores(), [10; 6]);

    assert_eq!(character.update(Message::Roll, &mut rng), Ok(()));
    for score in character.scores() {
        assert!((3..=18).contains(&score));
    }

    assert_eq!(character.update(Message::Reset, &mut rng), Ok(()));
    assert_eq!(character.scores(), [10; 6]);
}

#[test]
fn reset_any_number_of_times_gives_the_baseline() {
    let mut rng = ThreadDice::new();
    let mut character = Character::new();
    character.update(Message::Roll, &mut rng).unwrap();
    for _ in 0..25 {
        assert_eq!(character.update(Message::Reset, &mut rng), Ok(()));
        assert_eq!(character.scores(), [10, 10, 10, 10, 10, 10]);
    }
}

#[test]
fn reset_of_a_new_character_changes_nothing() {
    let mut dice = script(&[]);
    let mut character = Character::new();
    assert_eq!(character.update(Message::Reset, &mut dice), Ok(()));
    assert_eq!(character, Character::new());
}

#[test]
fn a_scripted_roll_fills_the_slots_in_order() {
    let mut dice = script(&[
        6, 6, 6, 6, // strength 18
        1, 1, 1, 1, // dexterity 3
        2, 3, 4, 5, // constitution 12
        6, 5, 6, 5, // intelligence 17
        1, 2, 1, 2, // wisdom 5
        3, 4, 3, 4, // charisma 11
    ]);
    let mut character = Character::new();
    assert_eq!(character.update(Message::Roll, &mut dice), Ok(()));
    assert_eq!(character.scores(), [18, 3, 12, 17, 5, 11]);
    assert_eq!(character.score(Ability::Strength), 18);
    assert_eq!(character.score(Ability::Dexterity), 3);
    assert_eq!(character.score(Ability::Constitution), 12);
    assert_eq!(character.score(Ability::Intelligence), 17);
    assert_eq!(character.score(Ability::Wisdom), 5);
    assert_eq!(character.score(Ability::Charisma), 11);
    assert_eq!(dice.remaining(), 0);
}

#[test]
fn a_roll_that_runs_out_of_dice_changes_no_score() {
    let mut full = script(&[6, 5, 4, 3, 6, 5, 4, 3, 6, 5, 4, 3, 2, 2, 2, 2, 1, 1, 1, 1, 4, 4, 4, 4]);
    let mut character = Character::new();
    character.update(Message::Roll, &mut full).unwrap();
    let before = character;
    assert_eq!(before.scores(), [15, 15, 15, 6, 3, 12]);

    // Enough dice for two scores and a half.
    let mut short = script(&[6, 6, 6, 6, 1, 1, 1, 1, 3, 3]);
    assert_eq!(character.update(Message::Roll, &mut short), Err(RollError::RandomSourceExhausted));
    assert_eq!(character, before);
    assert_eq!(character.scores(), [15, 15, 15, 6, 3, 12]);
}

#[test]
fn a_roll_fails_on_every_script_shorter_than_twenty_four() {
    for len in 0..24usize {
        let mut dice = script(&vec![6; len]);
        let mut character = Character::new();
        assert_eq!(character.update(Message::Roll, &mut dice), Err(RollError::RandomSourceExhausted));
        assert_eq!(character.scores(), [10; 6]);
    }
    let mut dice = script(&[6; 24]);
    let mut character = Character::new();
    assert_eq!(character.update(Message::Roll, &mut dice), Ok(()));
    assert_eq!(character.scores(), [18; 6]);
}

#[test]
fn reset_takes_no_dice() {
    let mut dice = script(&[1, 2, 3]);
    let mut character = Character::new();
    assert_eq!(character.update(Message::Reset, &mut dice), Ok(()));
    assert_eq!(dice.remaining(), 3);
}

#[test]
fn reset_after_a_failed_roll_still_works() {
    let mut dice = script(&[1, 2, 3]);
    let mut character = Character::new();
    assert!(character.update(Message::Roll, &mut dice).is_err());
    assert_eq!(character.update(Message::Reset, &mut dice), Ok(()));
    assert_eq!(character.scores(), [10; 6]);
}

#[test]
fn consecutive_live_rolls_each_stay_in_range() {
    let mut rng = ThreadDice::new();
    let mut character = Character::new();
    for _ in 0..200 {
        assert_eq!(character.update(Message::Roll, &mut rng), Ok(()));
        let first = character.scores();
        assert_eq!(character.update(Message::Roll, &mut rng), Ok(()));
        let second = character.scores();
        for score in first.into_iter().chain(second) {
            assert!((3..=18).contains(&score));
        }
    }
}

#[test]
fn snapshot_lists_the_abilities_in_order() {
    let mut dice = script(&[
        6, 6, 6, 6, 1, 1, 1, 1, 2, 3, 4, 5, 6, 5, 6, 5, 1, 2, 1, 2, 3, 4, 3, 4,
    ]);
    let mut character = Character::new();
    character.update(Message::Roll, &mut dice).unwrap();
    assert_eq!(
        character.snapshot(),
        vec![
            (Ability::Strength, 18),
            (Ability::Dexterity, 3),
            (Ability::Constitution, 12),
            (Ability::Intelligence, 17),
            (Ability::Wisdom, 5),
            (Ability::Charisma, 11),
        ]
    );
}

#[test]
fn abilities_stand_at_their_slots() {
    let all = Ability::all();
    assert_eq!(
        all,
        [
            Ability::Strength,
            Ability::Dexterity,
            Ability::Constitution,
            Ability::Intelligence,
            Ability::Wisdom,
            Ability::Charisma,
        ]
    );
    for (slot, ability) in all.into_iter().enumerate() {
        assert_eq!(ability.index(), slot);
    }
}
