use std::collections::VecDeque;
use war::card::{create_default_stacks, deck, shuffle_deck, Card, Suite};

const DECK_SIZE: usize = 52;
const SUITE_SIZE: usize = 13;

fn count_unique_suites(deck: &VecDeque<Card>) -> usize {
    let mut seen: Vec<Suite> = vec![];
    for card in deck.iter() {
        if !seen.contains(&card.suite) {
            seen.push(card.suite);
        }
    }
    seen.len()
}

fn count_unique_numbers(deck: &VecDeque<Card>) -> usize {
    let mut seen: Vec<u8> = vec![];
    for card in deck.iter() {
        if !seen.contains(&card.number) {
            seen.push(card.number);
        }
    }
    seen.len()
}

#[test]
fn test_create_deck() {
    let deck = deck(SUITE_SIZE);

    assert_eq!(deck.len(), DECK_SIZE);
    assert_eq!(count_unique_suites(&deck), 4);
    assert_eq!(count_unique_numbers(&deck), SUITE_SIZE);
}

#[test]
fn test_ordered_deck() {
    let deck = deck(SUITE_SIZE);
    assert!(is_ordered_deck(&deck))
}

#[test]
fn test_shuffled_deck_is_not_ordered() {
    let mut deck = deck(SUITE_SIZE);
    shuffle_deck(&mut deck);

    assert_eq!(deck.len(), DECK_SIZE);
    assert!(!is_ordered_deck(&deck));
}

#[test]
fn test_stacks_are_shuffled() {
    let (left_player, right_player) = create_default_stacks();

    assert_eq!(left_player.draw_stack().len(), right_player.draw_stack().len());
    assert!(!is_ordered_deck(left_player.draw_stack()));
    assert!(!is_ordered_deck(right_player.draw_stack()));
}

fn is_ordered_deck(deck: &VecDeque<Card>) -> bool {
    let mut previous_card = deck.front().unwrap();
    let mut ordered = true;

    for card in deck.iter().skip(1) {
        if card.suite != previous_card.suite {
            if card.number != 1 {
                ordered = false;
                break;
            }
        } else {
            if card.number <= previous_card.number {
                ordered = false;
                break;
            }
        }
        previous_card = card;
    }

    ordered
}

#[test]
fn test_card_create_rejects_bad_ranks() {
    assert!(Card::create(Suite::Heart, 0).is_none());
    assert!(Card::create(Suite::Heart, 14).is_none());
    let card = Card::create(Suite::Heart, 13).unwrap();
    assert_eq!(card.number, 13);
    assert!(card.is_king());
    assert!(!Card::create(Suite::Club, 1).unwrap().is_king());
}

#[test]
fn test_pop_front_counts_down_and_runs_dry() {
    let mut player = war::card::PlayerStacks::new(VecDeque::from([
        Card::create(Suite::Club, 3).unwrap(),
        Card::create(Suite::Club, 7).unwrap(),
    ]));
    assert_eq!(player.total_cards(), 2);
    assert!(!player.is_empty());

    let first = player.pop_front().unwrap();
    assert_eq!(first.number, 3);
    assert_eq!(player.total_cards(), 1);

    let second = player.pop_front().unwrap();
    assert_eq!(second.number, 7);
    assert_eq!(player.total_cards(), 0);
    assert!(player.is_empty());

    assert!(player.pop_front().is_none());
}
