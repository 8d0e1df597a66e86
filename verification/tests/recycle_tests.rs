use std::collections::VecDeque;
use war::card::{Card, PlayerStacks, Suite};

fn suite_tag(suite: Suite) -> u8 {
    match suite {
        Suite::Heart => 0,
        Suite::Club => 1,
        Suite::Diamond => 2,
        Suite::Spade => 3,
    }
}

fn tagged(cards: &[(Suite, u8)]) -> Vec<(u8, u8)> {
    let mut tags: Vec<(u8, u8)> = cards.iter().map(|(s, n)| (suite_tag(*s), *n)).collect();
    tags.sort();
    tags
}

/// Builds a player whose draw stack is empty and whose won stack holds two
/// full suites in rank order, then pops once to force a recycle.
fn recycled_order() -> (Vec<(Suite, u8)>, Vec<(Suite, u8)>) {
    let mut player = PlayerStacks::new(VecDeque::new());
    let mut batch: VecDeque<Card> = VecDeque::new();
    for number in 1..=13u8 {
        batch.push_back(Card::create(Suite::Heart, number).unwrap());
    }
    for number in 1..=13u8 {
        batch.push_back(Card::create(Suite::Spade, number).unwrap());
    }
    let before: Vec<(Suite, u8)> = batch.iter().map(|c| (c.suite, c.number)).collect();

    player.append(&mut batch);
    assert_eq!(player.total_cards(), 26);
    assert_eq!(player.draw_stack().len(), 0);

    let first = player.pop_front().unwrap();
    assert_eq!(player.total_cards(), 25);
    assert_eq!(player.won_stack().len(), 0);

    let mut after: Vec<(Suite, u8)> = vec![(first.suite, first.number)];
    while let Some(card) = player.pop_front() {
        after.push((card.suite, card.number));
    }
    assert!(player.is_empty());
    (before, after)
}

#[test]
fn test_recycle_conserves_cards() {
    let (before, after) = recycled_order();
    assert_eq!(after.len(), 26);
    assert_eq!(tagged(&before), tagged(&after));
}

#[test]
fn test_recycle_randomizes_order() {
    let mut some_order_differed = false;
    for _ in 0..20 {
        let (before, after) = recycled_order();
        if before != after {
            some_order_differed = true;
            break;
        }
    }
    assert!(some_order_differed);
}
