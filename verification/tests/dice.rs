use character_roller::dice::{
    ability_score, check_face, check_faces, sort_ascending, DICE_PER_SCORE, MAX_SCORE, MIN_SCORE,
};

#[test]
fn four_sixes_score_eighteen() {
    assert_eq!(ability_score([6, 6, 6, 6]), 18);
}

#[test]
fn four_ones_score_three() {
    assert_eq!(ability_score([1, 1, 1, 1]), 3);
}

#[test]
fn sorted_dice_lose_their_first() {
    assert_eq!(ability_score([2, 3, 4, 5]), 12);
}

#[test]
fn order_of_the_dice_does_not_matter() {
    assert_eq!(ability_score([5, 2, 4, 3]), 12);
    assert_eq!(ability_score([3, 4, 5, 2]), 12);
    assert_eq!(ability_score([5, 4, 3, 2]), 12);
    assert_eq!(ability_score([4, 2, 5, 3]), 12);
}

#[test]
fn a_tie_for_the_lowest_drops_one_die_only() {
    assert_eq!(ability_score([1, 1, 6, 6]), 13);
    assert_eq!(ability_score([6, 1, 6, 1]), 13);
    assert_eq!(ability_score([2, 2, 2, 5]), 9);
    assert_eq!(ability_score([3, 3, 3, 3]), 9);
}

#[test]
fn the_lowest_die_is_dropped_wherever_it_lies() {
    assert_eq!(ability_score([1, 6, 6, 6]), 18);
    assert_eq!(ability_score([6, 1, 6, 6]), 18);
    assert_eq!(ability_score([6, 6, 1, 6]), 18);
    assert_eq!(ability_score([6, 6, 6, 1]), 18);
    assert_eq!(ability_score([6, 1, 1, 1]), 8);
}

#[test]
fn every_throw_of_four_dice_scores_from_three_to_eighteen() {
    let mut lowest_seen = u8::MAX;
    let mut highest_seen = u8::MIN;
    for a in 1..=6u8 {
        for b in 1..=6u8 {
            for c in 1..=6u8 {
                for d in 1..=6u8 {
                    let score = ability_score([a, b, c, d]);
                    let least = a.min(b).min(c).min(d);
                    assert_eq!(score, a + b + c + d - least);
                    assert!(MIN_SCORE <= score && score <= MAX_SCORE);
                    lowest_seen = lowest_seen.min(score);
                    highest_seen = highest_seen.max(score);
                }
            }
        }
    }
    assert_eq!(lowest_seen, 3);
    assert_eq!(highest_seen, 18);
}

#[test]
fn score_limits_are_three_and_eighteen() {
    assert_eq!(MIN_SCORE, 3);
    assert_eq!(MAX_SCORE, 18);
    assert_eq!(DICE_PER_SCORE, 4);
}

#[test]
fn faces_run_from_one_to_six() {
    assert!(!check_face(0));
    assert!(check_face(1));
    assert!(check_face(2));
    assert!(check_face(3));
    assert!(check_face(4));
    assert!(check_face(5));
    assert!(check_face(6));
    assert!(!check_face(7));
    assert!(!check_face(255));
}

#[test]
fn check_faces_wants_every_die_to_be_a_face() {
    assert!(check_faces(&vec![]));
    assert!(check_faces(&vec![1, 2, 3, 4, 5, 6]));
    assert!(!check_faces(&vec![0]));
    assert!(!check_faces(&vec![1, 2, 7, 4]));
    assert!(!check_faces(&vec![1, 2, 3, 0]));
    assert!(!check_faces(&vec![9, 2, 3, 4]));
}

#[test]
fn sort_ascending_orders_the_dice() {
    let mut dice = vec![5, 2, 4, 3];
    sort_ascending(&mut dice);
    assert_eq!(dice, vec![2, 3, 4, 5]);
}

#[test]
fn sort_ascending_keeps_equal_dice() {
    let mut dice = vec![6, 1, 6, 1, 3, 3];
    sort_ascending(&mut dice);
    assert_eq!(dice, vec![1, 1, 3, 3, 6, 6]);
}

#[test]
fn sort_ascending_handles_short_and_sorted_input() {
    let mut none: Vec<u8> = vec![];
    sort_ascending(&mut none);
    assert_eq!(none, Vec::<u8>::new());

    let mut one = vec![4];
    sort_ascending(&mut one);
    assert_eq!(one, vec![4]);

    let mut sorted = vec![1, 2, 3, 4, 5, 6];
    sort_ascending(&mut sorted);
    assert_eq!(sorted, vec![1, 2, 3, 4, 5, 6]);

    let mut reversed = vec![6, 5, 4, 3, 2, 1];
    sort_ascending(&mut reversed);
    assert_eq!(reversed, vec![1, 2, 3, 4, 5, 6]);
}

#[test]
fn sort_ascending_agrees_with_the_standard_sort() {
    let mut seed: u32 = 12345;
    for _ in 0..200 {
        let mut dice: Vec<u8> = Vec::new();
        seed = seed.wrapping_mul(1103515245).wrapping_add(12345);
        let len = (seed >> 16) % 9;
        for _ in 0..len {
            seed = seed.wrapping_mul(1103515245).wrapping_add(12345);
            dice.push(((seed >> 16) % 256) as u8);
        }
        let mut expected = dice.clone();
        expected.sort();
        sort_ascending(&mut dice);
        assert_eq!(dice, expected);
    }
}
