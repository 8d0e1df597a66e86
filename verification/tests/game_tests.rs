use std::collections::VecDeque;
use war::card::{create_default_stacks, Card, PlayerStacks, Suite};
use war::game::{play_game, play_round, RoundResult};

#[test]
fn test_first_stack_wins_round() {
    let mut stack1 = PlayerStacks::new(VecDeque::from([Card::create(Suite::Club, 13).unwrap()]));
    let mut stack2 = PlayerStacks::new(VecDeque::from([Card::create(Suite::Club, 1).unwrap()]));

    play_round(&mut stack1, &mut stack2);

    assert_eq!(stack1.won_stack().len(), 2);
    assert_eq!(stack2.won_stack().len(), 0);
}

#[test]
fn test_second_stack_wins_round() {
    let mut stack1 = PlayerStacks::new(VecDeque::from([Card::create(Suite::Club, 1).unwrap()]));
    let mut stack2 = PlayerStacks::new(VecDeque::from([Card::create(Suite::Club, 2).unwrap()]));

    play_round(&mut stack1, &mut stack2);

    assert_eq!(stack1.won_stack().len(), 0);
    assert_eq!(stack2.won_stack().len(), 2);
}

#[test]
fn test_tie_broken_by_next_card() {
    let mut stack1 = PlayerStacks::new(VecDeque::from([
        Card::create(Suite::Club, 1).unwrap(),
        Card::create(Suite::Club, 13).unwrap(),
        Card::create(Suite::Club, 10).unwrap(),
    ]));
    let mut stack2 = PlayerStacks::new(VecDeque::from([
        Card::create(Suite::Club, 1).unwrap(),
        Card::create(Suite::Club, 12).unwrap(),
        Card::create(Suite::Club, 11).unwrap(),
        Card::create(Suite::Club, 12).unwrap(),
    ]));

    play_round(&mut stack1, &mut stack2);

    assert_eq!(stack1.total_cards(), 5);
    assert_eq!(stack2.total_cards(), 2);
}

#[test]
fn test_complete_tie_results_in_gameover_with_empty_stacks() {
    let mut stack1 = PlayerStacks::new(create_deck());
    let mut stack2 = PlayerStacks::new(create_deck());

    let result = play_round(&mut stack1, &mut stack2);

    assert_eq!(result, RoundResult::GameOver);
    assert_eq!(stack1.total_cards(), 0);
    assert_eq!(stack2.total_cards(), 0);
}

fn create_deck() -> VecDeque<Card> {
    VecDeque::from([
        Card::create(Suite::Club, 1).unwrap(),
        Card::create(Suite::Club, 13).unwrap(),
        Card::create(Suite::Club, 10).unwrap(),
    ])
}

#[test]
fn test_left_has_a_winning_game() {
    let mut stack1 = PlayerStacks::new(VecDeque::from([
        Card::create(Suite::Club, 13).unwrap(),
        Card::create(Suite::Club, 10).unwrap(),
        Card::create(Suite::Heart, 8).unwrap(),
    ]));
    let mut stack2 = PlayerStacks::new(VecDeque::from([
        Card::create(Suite::Spade, 10).unwrap(),
        Card::create(Suite::Diamond, 10).unwrap(),
        Card::create(Suite::Diamond, 9).unwrap(),
    ]));

    let rounds = play_game(&mut stack1, &mut stack2);

    assert!(!stack1.is_empty());
    assert!(stack2.is_empty());
    assert!(rounds > 2);
}

#[test]
fn test_round_conserves_cards_between_players() {
    let mut stack1 = PlayerStacks::new(VecDeque::from([
        Card::create(Suite::Club, 5).unwrap(),
        Card::create(Suite::Heart, 9).unwrap(),
    ]));
    let mut stack2 = PlayerStacks::new(VecDeque::from([
        Card::create(Suite::Spade, 5).unwrap(),
        Card::create(Suite::Diamond, 2).unwrap(),
    ]));

    let result = play_round(&mut stack1, &mut stack2);

    assert_eq!(result, RoundResult::Continue);
    assert_eq!(stack1.total_cards() + stack2.total_cards(), 4);
    assert_eq!(stack1.total_cards(), 4);
    assert_eq!(stack2.total_cards(), 0);
}

#[test]
fn test_mid_tie_exhaustion_discards_equally() {
    let mut stack1 = PlayerStacks::new(VecDeque::from([
        Card::create(Suite::Club, 1).unwrap(),
        Card::create(Suite::Club, 13).unwrap(),
        Card::create(Suite::Club, 10).unwrap(),
    ]));
    let mut stack2 = PlayerStacks::new(VecDeque::from([
        Card::create(Suite::Heart, 1).unwrap(),
        Card::create(Suite::Heart, 13).unwrap(),
    ]));

    let result = play_round(&mut stack1, &mut stack2);

    assert_eq!(result, RoundResult::GameOver);
    assert_eq!(stack1.total_cards(), 1);
    assert_eq!(stack2.total_cards(), 0);
}

#[test]
fn test_full_game_terminates_within_cap() {
    let (mut left_player, mut right_player) = create_default_stacks();

    let rounds = play_game(&mut left_player, &mut right_player);

    assert!(rounds <= 100_000);
    let left_total = left_player.total_cards();
    let right_total = right_player.total_cards();
    assert!(left_total + right_total <= 52);
    if left_total > 0 && right_total > 0 {
        assert_eq!(rounds, 100_000);
    } else {
        assert!(left_total == 0 || right_total == 0);
    }
}
