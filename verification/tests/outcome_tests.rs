use std::collections::VecDeque;
use war::card::{Card, PlayerStacks, Suite};
use war::outcome::{count_kings, create_stacks_play_game, game_outcome, GameResult, KingsDecisive};

#[test]
fn test_game_outcome_both_have_no_cards() {
    let left_player = PlayerStacks::new(VecDeque::new());
    let right_player = PlayerStacks::new(VecDeque::new());

    let result = game_outcome(&left_player, &right_player);

    assert_eq!(result, GameResult::Draw);
}

#[test]
fn test_game_outcome_left_wins() {
    let left_player = PlayerStacks::new(VecDeque::from([Card::create(Suite::Club, 1).unwrap()]));
    let right_player = PlayerStacks::new(VecDeque::from([]));

    let result = game_outcome(&left_player, &right_player);

    assert_eq!(result, GameResult::LeftWins);
}

#[test]
fn test_game_outcome_right_wins() {
    let right_player = PlayerStacks::new(VecDeque::from([Card::create(Suite::Club, 1).unwrap()]));
    let left_player = PlayerStacks::new(VecDeque::from([]));

    let result = game_outcome(&left_player, &right_player);

    assert_eq!(result, GameResult::RightWins);
}

#[test]
fn test_game_aborted_means_draw() {
    let left_player = PlayerStacks::new(VecDeque::from([Card::create(Suite::Heart, 12).unwrap()]));
    let right_player = PlayerStacks::new(VecDeque::from([Card::create(Suite::Club, 1).unwrap()]));

    let result = game_outcome(&left_player, &right_player);

    assert_eq!(result, GameResult::Draw);
}

#[test]
fn test_count_kings_counts_only_kings() {
    let stack = VecDeque::from([
        Card::create(Suite::Club, 13).unwrap(),
        Card::create(Suite::Heart, 12).unwrap(),
        Card::create(Suite::Heart, 13).unwrap(),
        Card::create(Suite::Spade, 1).unwrap(),
    ]);

    assert_eq!(count_kings(&stack), 2);
    assert_eq!(count_kings(&VecDeque::new()), 0);
}

#[test]
fn test_single_game_reports_consistent_statistics() {
    let (result, rounds, kings_decisive) = create_stacks_play_game();

    assert!(rounds >= 1);
    assert!(rounds <= 100_000);
    if result == GameResult::Draw {
        assert_eq!(kings_decisive, KingsDecisive::No);
    }
}
