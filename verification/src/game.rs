//! The round-resolution engine: comparing the two front cards, escalating
//! ties until a strict winner appears or a player runs dry, and the outer
//! game loop that repeats rounds up to a safety cap.

use std::collections::VecDeque;
use vstd::multiset::Multiset;
use vstd::prelude::*;

use crate::card::Card;
use crate::card::PlayerStacks;

verus! {

broadcast use vstd::seq_lib::group_to_multiset_ensures, vstd::multiset::group_multiset_axioms;

/// What one played round means for the game: it goes on, or a player has
/// run out of cards.
#[derive(Debug, PartialEq, Eq, Structural)]
pub enum RoundResult {
    Continue,
    GameOver,
}

/// Who collects the contested cards of a round, or that the tie chain ended
/// because a player ran dry.
#[derive(Debug, PartialEq, Eq, Structural)]
pub enum ResolutionResult {
    LeftWins,
    RightWins,
    GameOver,
}

/// How the front cards of a round compare, by rank alone.
#[derive(Debug, PartialEq, Eq, Structural)]
pub enum CompareResult {
    Equal,
    LeftWins,
    RightWins,
}

/// How many cards each side reveals in the round that starts with the draw
/// stacks `a` and `b`: one for the deciding comparison, plus one per tie
/// before it, stopping early when a side has no card left.
pub open spec fn chain_len(a: Seq<Card>, b: Seq<Card>) -> nat
    decreases a.len(),
{
    if a.len() == 0 || b.len() == 0 {
        0
    } else if a[0].number == b[0].number {
        1 + chain_len(a.drop_first(), b.drop_first())
    } else {
        1
    }
}

/// Who wins the round that starts with the draw stacks `a` and `b`: ties
/// draw the next pair, and a side running dry ends the game.
pub open spec fn chain_outcome(a: Seq<Card>, b: Seq<Card>) -> ResolutionResult
    decreases a.len(),
{
    if a.len() == 0 || b.len() == 0 {
        ResolutionResult::GameOver
    } else if a[0].number > b[0].number {
        ResolutionResult::LeftWins
    } else if a[0].number < b[0].number {
        ResolutionResult::RightWins
    } else {
        chain_outcome(a.drop_first(), b.drop_first())
    }
}

/// The contested cards of the round that starts with the draw stacks `a` and
/// `b`, in the order they are revealed: left card first in each pair.
pub open spec fn chain_cards(a: Seq<Card>, b: Seq<Card>) -> Seq<Card>
    decreases a.len(),
{
    if a.len() == 0 || b.len() == 0 {
        Seq::empty()
    } else if a[0].number != b[0].number {
        seq![a[0], b[0]]
    } else {
        seq![a[0], b[0]] + chain_cards(a.drop_first(), b.drop_first())
    }
}

/// The cards the left player revealed into a contested sequence: rounds
/// collect one card from each side per comparison, the left card first, so
/// these are the even positions.
pub open spec fn left_reveals(collected: Seq<Card>) -> Seq<Card> {
    Seq::new(collected.len() / 2, |i: int| collected[2 * i])
}

/// The cards the right player revealed into a contested sequence: the odd
/// positions.
pub open spec fn right_reveals(collected: Seq<Card>) -> Seq<Card> {
    Seq::new(collected.len() / 2, |i: int| collected[2 * i + 1])
}

/// Whether the revealed pair that starts at position `j` of a contested
/// sequence tied on rank.
pub open spec fn pair_tied(collected: Seq<Card>, j: int) -> bool {
    collected[j].number == collected[j + 1].number
}

/// The shape every resolved round leaves behind, reshuffles included: the
/// contested sequence is whole revealed pairs, every pair before the last
/// tied on rank, and the outcome is decided by the last pair alone: a
/// strict comparison names the winner, while a chain that ended by
/// exhaustion tied on every pair it managed to reveal.
pub open spec fn tie_chain_shape(collected: Seq<Card>, res: ResolutionResult) -> bool {
    &&& collected.len() % 2 == 0
    &&& forall|j: int|
        0 <= j && j % 2 == 0 && j + 2 < collected.len() ==> #[trigger] pair_tied(collected, j)
    &&& match res {
        ResolutionResult::LeftWins => collected.len() >= 2
            && collected[collected.len() - 2].number > collected[collected.len() - 1].number,
        ResolutionResult::RightWins => collected.len() >= 2
            && collected[collected.len() - 2].number < collected[collected.len() - 1].number,
        ResolutionResult::GameOver => forall|j: int|
            0 <= j && j % 2 == 0 && j + 1 < collected.len() ==> #[trigger] pair_tied(collected, j),
    }
}

/// Prepending one revealed pair to a contested sequence prepends one card
/// to each side's revealed cards.
proof fn lemma_reveals_unfold(front_left: Card, front_right: Card, rest: Seq<Card>)
    ensures
        left_reveals(seq![front_left, front_right] + rest) == seq![front_left] + left_reveals(
            rest,
        ),
        right_reveals(seq![front_left, front_right] + rest) == seq![front_right] + right_reveals(
            rest,
        ),
{
    assert(left_reveals(seq![front_left, front_right] + rest) =~= seq![front_left] + left_reveals(
        rest,
    ));
    assert(right_reveals(seq![front_left, front_right] + rest) =~= seq![front_right]
        + right_reveals(rest));
}

/// The revealed cards of a one-pair contested sequence.
proof fn lemma_reveals_of_pair(front_left: Card, front_right: Card)
    ensures
        left_reveals(seq![front_left, front_right]) == seq![front_left],
        right_reveals(seq![front_left, front_right]) == seq![front_right],
{
    assert(left_reveals(seq![front_left, front_right]) =~= seq![front_left]);
    assert(right_reveals(seq![front_left, front_right]) =~= seq![front_right]);
}

/// Prepending a tied pair to a contested sequence keeps the chain shape:
/// the new pair is one more tie before the deciding comparison.
proof fn lemma_chain_shape_extends(
    front_left: Card,
    front_right: Card,
    rest: Seq<Card>,
    res: ResolutionResult,
)
    requires
        front_left.number == front_right.number,
        tie_chain_shape(rest, res),
        res == ResolutionResult::LeftWins || res == ResolutionResult::RightWins ==> rest.len()
            >= 2,
    ensures
        tie_chain_shape(seq![front_left, front_right] + rest, res),
{
    let cc = seq![front_left, front_right] + rest;
    assert(cc.len() == 2 + rest.len());
    assert(cc[0] == front_left && cc[1] == front_right);
    assert forall|j: int|
        0 <= j && j % 2 == 0 && j + 2 < cc.len() implies #[trigger] pair_tied(cc, j) by {
        if j >= 2 {
            assert(cc[j] == rest[j - 2]);
            assert(cc[j + 1] == rest[j - 1]);
            assert(pair_tied(rest, j - 2));
        }
    }
    if res == ResolutionResult::GameOver {
        assert forall|j: int|
            0 <= j && j % 2 == 0 && j + 1 < cc.len() implies #[trigger] pair_tied(cc, j) by {
            if j >= 2 {
                assert(cc[j] == rest[j - 2]);
                assert(cc[j + 1] == rest[j - 1]);
                assert(pair_tied(rest, j - 2));
            }
        }
    } else {
        assert(cc[cc.len() - 2] == rest[rest.len() - 2]);
        assert(cc[cc.len() - 1] == rest[rest.len() - 1]);
    }
}

/// The multiset of a one-card sequence.
proof fn lemma_to_multiset_of_singleton(card: Card)
    ensures
        seq![card].to_multiset() == Multiset::<Card>::empty().insert(card),
{
    assert(seq![card] =~= Seq::<Card>::empty().push(card));
    crate::card::lemma_to_multiset_of_empty(Seq::<Card>::empty());
    assert(seq![card].to_multiset() =~= Multiset::<Card>::empty().insert(card));
}

/// Card conservation over one tie chain: the contested cards, together with
/// what the two draw stacks keep, account for every card the round started
/// with. A round neither creates nor destroys a card; it only moves the
/// revealed pairs off the fronts of the two stacks.
pub proof fn lemma_chain_conservation(a: Seq<Card>, b: Seq<Card>)
    ensures
        chain_cards(a, b).to_multiset().add(
            a.skip(chain_len(a, b) as int).to_multiset(),
        ).add(b.skip(chain_len(a, b) as int).to_multiset()) == a.to_multiset().add(b.to_multiset()),
    decreases a.len(),
{
    let k = chain_len(a, b) as int;
    if a.len() == 0 || b.len() == 0 {
        assert(a.skip(0) =~= a);
        assert(b.skip(0) =~= b);
        crate::card::lemma_to_multiset_of_empty(chain_cards(a, b));
        assert(chain_cards(a, b).to_multiset().add(a.to_multiset()).add(b.to_multiset())
            =~= a.to_multiset().add(b.to_multiset()));
    } else {
        assert(a.drop_first() =~= a.remove(0));
        assert(b.drop_first() =~= b.remove(0));
        lemma_chain_len_le(a, b);
        if a[0].number == b[0].number {
            lemma_chain_conservation(a.drop_first(), b.drop_first());
            vstd::seq_lib::lemma_multiset_commutative(
                seq![a[0], b[0]],
                chain_cards(a.drop_first(), b.drop_first()),
            );
            assert(seq![a[0], b[0]].to_multiset()
                =~= Multiset::<Card>::empty().insert(a[0]).insert(b[0])) by {
                assert(seq![a[0], b[0]] =~= Seq::<Card>::empty().push(a[0]).push(b[0]));
                crate::card::lemma_to_multiset_of_empty(Seq::<Card>::empty());
            }
            let k_sub = chain_len(a.drop_first(), b.drop_first()) as int;
            let cc_sub = chain_cards(a.drop_first(), b.drop_first());
            assert(chain_len(a, b) == 1 + chain_len(a.drop_first(), b.drop_first()));
            assert(chain_cards(a, b) == seq![a[0], b[0]] + cc_sub);
            assert(a.drop_first().skip(k_sub) =~= a.skip(k));
            assert(b.drop_first().skip(k_sub) =~= b.skip(k));
            assert(cc_sub.to_multiset().add(a.drop_first().skip(k_sub).to_multiset()).add(
                b.drop_first().skip(k_sub).to_multiset(),
            ) == a.drop_first().to_multiset().add(b.drop_first().to_multiset()));
            assert(chain_cards(a, b).to_multiset() == seq![a[0], b[0]].to_multiset().add(
                cc_sub.to_multiset(),
            ));
            assert(a.contains(a[0]) && b.contains(b[0]));
            assert(a.to_multiset().count(a[0]) > 0 && b.to_multiset().count(b[0]) > 0);
            assert(a.drop_first().to_multiset() == a.to_multiset().remove(a[0]));
            assert(b.drop_first().to_multiset() == b.to_multiset().remove(b[0]));
            assert forall|x: Card|
                chain_cards(a, b).to_multiset().add(a.skip(k).to_multiset()).add(
                    b.skip(k).to_multiset(),
                ).count(x) == a.to_multiset().add(b.to_multiset()).count(x) by {
                let pair_count: nat = (if x == a[0] {
                    1nat
                } else {
                    0nat
                }) + (if x == b[0] {
                    1nat
                } else {
                    0nat
                });
                assert(Multiset::<Card>::empty().insert(a[0]).insert(b[0]).count(x) == pair_count);
                assert(seq![a[0], b[0]].to_multiset().count(x) == pair_count);
                assert(chain_cards(a, b).to_multiset().count(x) == pair_count
                    + cc_sub.to_multiset().count(x));
                assert(cc_sub.to_multiset().add(a.skip(k).to_multiset()).add(
                    b.skip(k).to_multiset(),
                ) == a.drop_first().to_multiset().add(b.drop_first().to_multiset()));
                assert(cc_sub.to_multiset().add(a.skip(k).to_multiset()).add(
                    b.skip(k).to_multiset(),
                ).count(x) == cc_sub.to_multiset().count(x) + a.skip(k).to_multiset().count(x)
                    + b.skip(k).to_multiset().count(x));
                assert(a.drop_first().to_multiset().add(b.drop_first().to_multiset()).count(x)
                    == a.drop_first().to_multiset().count(x) + b.drop_first().to_multiset().count(
                    x,
                ));
                assert(a.drop_first().to_multiset().count(x) + (if x == a[0] {
                    1nat
                } else {
                    0nat
                }) == a.to_multiset().count(x));
                assert(b.drop_first().to_multiset().count(x) + (if x == b[0] {
                    1nat
                } else {
                    0nat
                }) == b.to_multiset().count(x));
            }
            assert(chain_cards(a, b).to_multiset().add(a.skip(k).to_multiset()).add(
                b.skip(k).to_multiset(),
            ) =~= a.to_multiset().add(b.to_multiset()));
        } else {
            assert(seq![a[0], b[0]] =~= Seq::<Card>::empty().push(a[0]).push(b[0]));
            crate::card::lemma_to_multiset_of_empty(Seq::<Card>::empty());
            assert(a.skip(1) =~= a.drop_first());
            assert(b.skip(1) =~= b.drop_first());
            assert(chain_cards(a, b).to_multiset().add(a.skip(k).to_multiset()).add(
                b.skip(k).to_multiset(),
            ) =~= a.to_multiset().add(b.to_multiset()));
        }
    }
}

/// A round never reveals more cards from a side than that side's draw stack
/// holds.
pub proof fn lemma_chain_len_le(a: Seq<Card>, b: Seq<Card>)
    ensures
        chain_len(a, b) <= a.len(),
        chain_len(a, b) <= b.len(),
    decreases a.len(),
{
    if a.len() > 0 && b.len() > 0 && a[0].number == b[0].number {
        lemma_chain_len_le(a.drop_first(), b.drop_first());
    }
}

/// What one round does to the two players when neither won stack held a
/// card beforehand, so that no reshuffle could happen: the round is fully
/// determined by the two initial draw stacks `pre_left` and `pre_right`.
///
/// The winner of the chain takes every contested card into their won stack;
/// if a side ran dry mid-chain the game is over and the contested cards are
/// discarded, belonging to neither player.
pub open spec fn no_recycle_round(
    pre_left: Seq<Card>,
    pre_right: Seq<Card>,
    post_left: PlayerStacks,
    post_right: PlayerStacks,
    r: RoundResult,
) -> bool {
    let k = chain_len(pre_left, pre_right) as int;
    post_left.draw() == pre_left.skip(k) && post_right.draw() == pre_right.skip(k) && match chain_outcome(
        pre_left,
        pre_right,
    ) {
        ResolutionResult::LeftWins => r == RoundResult::Continue && post_left.won() == chain_cards(
            pre_left,
            pre_right,
        ) && post_right.won().len() == 0,
        ResolutionResult::RightWins => r == RoundResult::Continue && post_right.won()
            == chain_cards(pre_left, pre_right) && post_left.won().len() == 0,
        ResolutionResult::GameOver => r == RoundResult::GameOver && post_left.won().len() == 0
            && post_right.won().len() == 0,
    }
}

/// Plays one round of highest-wins: reveals the front card of both stacks
/// (escalating ties) and places the contested cards at the back of the
/// winner's won stack.
///
/// A round that ends the game moves no card to either player: the contested
/// cards of a tie chain cut short by exhaustion are discarded.
pub fn play_round(left: &mut PlayerStacks, right: &mut PlayerStacks) -> (r: RoundResult)
    requires
        old(left).total() + old(right).total() <= usize::MAX,
    ensures
        r == RoundResult::Continue
            ==> final(left).cards().add(final(right).cards())
                == old(left).cards().add(old(right).cards())
                && final(left).total() + final(right).total()
                    == old(left).total() + old(right).total(),
        r == RoundResult::Continue
            ==> (final(left).total() > old(left).total()
                && final(right).total() < old(right).total())
                || (final(left).total() < old(left).total()
                && final(right).total() > old(right).total()),
        r == RoundResult::GameOver
            ==> final(left).total() == 0 || final(right).total() == 0,
        r == RoundResult::GameOver
            ==> old(left).total() - final(left).total()
                == old(right).total() - final(right).total(),
        final(left).total() + final(right).total() <= old(left).total() + old(right).total(),
        old(left).total() == 0 || old(right).total() == 0
            ==> r == RoundResult::GameOver
                && final(left).draw() == old(left).draw()
                && final(left).won() == old(left).won()
                && final(right).draw() == old(right).draw()
                && final(right).won() == old(right).won(),
        old(left).won().len() == 0 && old(right).won().len() == 0
            ==> no_recycle_round(old(left).draw(), old(right).draw(), *final(left), *final(right), r),
{
    let (mut won_cards, winner) = resolve_round(left, right);

    match winner {
        ResolutionResult::LeftWins => {
            left.append(&mut won_cards);
            proof {
                assert(final(left).cards().add(final(right).cards())
                    == old(left).cards().add(old(right).cards())) by {
                    assert(final(left).cards().add(final(right).cards()) =~= old(left).cards().add(
                        old(right).cards(),
                    ));
                }
                if old(left).won().len() == 0 && old(right).won().len() == 0 {
                    assert(final(left).won() =~= chain_cards(old(left).draw(), old(right).draw()));
                }
            }
            RoundResult::Continue
        }
        ResolutionResult::RightWins => {
            right.append(&mut won_cards);
            proof {
                assert(final(left).cards().add(final(right).cards())
                    == old(left).cards().add(old(right).cards())) by {
                    assert(final(left).cards().add(final(right).cards()) =~= old(left).cards().add(
                        old(right).cards(),
                    ));
                }
                if old(left).won().len() == 0 && old(right).won().len() == 0 {
                    assert(final(right).won() =~= chain_cards(old(left).draw(), old(right).draw()));
                }
            }
            RoundResult::Continue
        }
        ResolutionResult::GameOver => RoundResult::GameOver,
    }
}

/// Plays a game with two stacks of cards to completion.
///
/// This is a higher-wins game: each round the front cards are compared and
/// the higher one wins all contested cards. Ties are broken by revealing
/// more cards. The game ends when a player runs out of cards, or after
/// 100 000 rounds as a safety cap against cyclic play; a cap-ended game is a
/// draw, never a win. Returns the number of rounds played.
pub fn play_game(left_player: &mut PlayerStacks, right_player: &mut PlayerStacks) -> (rounds: u32)
    requires
        old(left_player).total() + old(right_player).total() <= usize::MAX,
    ensures
        rounds <= 100_000,
        final(left_player).total() + final(right_player).total()
            <= old(left_player).total() + old(right_player).total(),
        final(left_player).total() > 0 && final(right_player).total() > 0 ==> rounds == 100_000,
        old(left_player).total() == 0 || old(right_player).total() == 0
            ==> rounds == 0
                && final(left_player).draw() == old(left_player).draw()
                && final(left_player).won() == old(left_player).won()
                && final(right_player).draw() == old(right_player).draw()
                && final(right_player).won() == old(right_player).won(),
        old(left_player).total() > 0 && old(right_player).total() > 0 ==> rounds >= 1,
        final(left_player).total() + final(right_player).total()
            < old(left_player).total() + old(right_player).total()
            ==> final(left_player).total() == 0 || final(right_player).total() == 0,
        old(left_player).won().len() == 0 && old(right_player).won().len() == 0
            && old(left_player).total() > 0 && old(right_player).total() > 0 && chain_outcome(
            old(left_player).draw(),
            old(right_player).draw(),
        ) == ResolutionResult::GameOver ==> rounds == 1 && no_recycle_round(
            old(left_player).draw(),
            old(right_player).draw(),
            *final(left_player),
            *final(right_player),
            RoundResult::GameOver,
        ),
{
    let ghost initial_left = *left_player;
    let ghost initial_right = *right_player;
    let mut round_counter: u32 = 0;
    let mut game_state: RoundResult = RoundResult::Continue;

    if left_player.is_empty() || right_player.is_empty() {
        game_state = RoundResult::GameOver;
    }

    while game_state == RoundResult::Continue && round_counter < 100_000
        invariant
            round_counter <= 100_000,
            initial_left.total() + initial_right.total() <= usize::MAX,
            left_player.total() + right_player.total()
                <= initial_left.total() + initial_right.total(),
            game_state == RoundResult::GameOver
                ==> left_player.total() == 0 || right_player.total() == 0,
            round_counter == 0
                ==> left_player.draw() == initial_left.draw()
                    && left_player.won() == initial_left.won()
                    && right_player.draw() == initial_right.draw()
                    && right_player.won() == initial_right.won(),
            round_counter == 0 && game_state == RoundResult::GameOver
                ==> initial_left.total() == 0 || initial_right.total() == 0,
            initial_left.total() == 0 || initial_right.total() == 0
                ==> game_state == RoundResult::GameOver && round_counter == 0,
            game_state == RoundResult::Continue
                ==> left_player.total() + right_player.total()
                    == initial_left.total() + initial_right.total(),
            left_player.total() + right_player.total()
                < initial_left.total() + initial_right.total()
                ==> left_player.total() == 0 || right_player.total() == 0,
            initial_left.won().len() == 0 && initial_right.won().len() == 0
                && initial_left.total() > 0 && initial_right.total() > 0 && chain_outcome(
                initial_left.draw(),
                initial_right.draw(),
            ) == ResolutionResult::GameOver ==> (round_counter == 0 && game_state
                == RoundResult::Continue) || (round_counter == 1 && game_state
                == RoundResult::GameOver && no_recycle_round(
                initial_left.draw(),
                initial_right.draw(),
                *left_player,
                *right_player,
                RoundResult::GameOver,
            )),
        decreases 100_000 - round_counter,
    {
        round_counter += 1;
        game_state = play_round(left_player, right_player);
    }

    round_counter
}

/// Compares two cards by rank; suites play no part.
pub fn compare_cards(left_card: &Card, right_card: &Card) -> (r: CompareResult)
    ensures
        r == CompareResult::Equal <==> left_card.number == right_card.number,
        r == CompareResult::LeftWins <==> left_card.number > right_card.number,
        r == CompareResult::RightWins <==> left_card.number < right_card.number,
{
    if left_card.number == right_card.number {
        CompareResult::Equal
    } else if left_card.number > right_card.number {
        CompareResult::LeftWins
    } else {
        CompareResult::RightWins
    }
}

/// Resolves one round: reveals a card from each side, and on a tie keeps
/// revealing, collecting every contested card; returns the collected cards
/// and who gets them (or that the game is over because a side ran dry).
///
/// Every card that leaves a player's stacks ends up in the returned
/// sequence: nothing is created, lost or handed over yet. Reshuffles or
/// not, the collected cards are the revealed pairs in reveal order, the
/// left player's card at the even positions and the right player's at the
/// odd ones, and the outcome follows the last pair's comparison as
/// [`tie_chain_shape`] states.
///
/// When neither won stack holds a card, no reshuffle can happen and the
/// round is moreover fully determined by the two draw stacks, as the chain
/// spec functions describe.
pub fn resolve_round(left: &mut PlayerStacks, right: &mut PlayerStacks) -> (r: (
    VecDeque<Card>,
    ResolutionResult,
))
    ensures
        old(left).cards().add(old(right).cards())
            == final(left).cards().add(final(right).cards()).add(r.0@.to_multiset()),
        old(left).cards() == final(left).cards().add(left_reveals(r.0@).to_multiset()),
        old(right).cards() == final(right).cards().add(right_reveals(r.0@).to_multiset()),
        2 * final(left).total() + r.0@.len() == 2 * old(left).total(),
        2 * final(right).total() + r.0@.len() == 2 * old(right).total(),
        tie_chain_shape(r.0@, r.1),
        r.1 == ResolutionResult::GameOver
            ==> final(left).total() == 0 || final(right).total() == 0,
        r.1 == ResolutionResult::LeftWins || r.1 == ResolutionResult::RightWins
            ==> r.0@.len() >= 2,
        old(left).total() == 0 || old(right).total() == 0
            ==> r.0@.len() == 0 && r.1 == ResolutionResult::GameOver
                && final(left).draw() == old(left).draw()
                && final(left).won() == old(left).won()
                && final(right).draw() == old(right).draw()
                && final(right).won() == old(right).won(),
        old(left).won().len() == 0 && old(right).won().len() == 0
            ==> r.1 == chain_outcome(old(left).draw(), old(right).draw())
                && r.0@ == chain_cards(old(left).draw(), old(right).draw())
                && final(left).draw()
                    == old(left).draw().skip(chain_len(old(left).draw(), old(right).draw()) as int)
                && final(right).draw()
                    == old(right).draw().skip(chain_len(old(left).draw(), old(right).draw()) as int)
                && final(left).won().len() == 0
                && final(right).won().len() == 0,
    decreases old(left).total() + old(right).total(),
{
    let ghost a = left.draw();
    let ghost b = right.draw();
    if left.is_empty() || right.is_empty() {
        let deque: VecDeque<Card> = VecDeque::new();
        proof {
            crate::card::lemma_to_multiset_of_empty(deque@);
            assert(old(left).cards().add(old(right).cards()) =~= left.cards().add(
                right.cards(),
            ).add(deque@.to_multiset()));
            assert(left_reveals(deque@) =~= Seq::<Card>::empty());
            assert(right_reveals(deque@) =~= Seq::<Card>::empty());
            crate::card::lemma_to_multiset_of_empty(Seq::<Card>::empty());
            assert(old(left).cards() =~= left.cards().add(left_reveals(deque@).to_multiset()));
            assert(old(right).cards() =~= right.cards().add(right_reveals(deque@).to_multiset()));
            assert(a.skip(0) =~= a);
            assert(b.skip(0) =~= b);
        }
        return (deque, ResolutionResult::GameOver);
    }

    let mut collected_cards: VecDeque<Card> = VecDeque::new();

    let left_card = left.pop_front().unwrap();
    let right_card = right.pop_front().unwrap();

    let comparison_result = compare_cards(&left_card, &right_card);

    collected_cards.push_back(left_card);
    collected_cards.push_back(right_card);

    let ghost lc = left_card;
    let ghost rc = right_card;
    let ghost mid_l = *left;
    let ghost mid_r = *right;

    proof {
        crate::card::lemma_to_multiset_of_empty(Seq::<Card>::empty());
        assert(collected_cards@ =~= seq![lc, rc]);
        assert(old(left).cards().add(old(right).cards()) =~= mid_l.cards().add(mid_r.cards()).add(
            collected_cards@.to_multiset(),
        ));
        lemma_reveals_of_pair(lc, rc);
        lemma_to_multiset_of_singleton(lc);
        lemma_to_multiset_of_singleton(rc);
        assert(collected_cards@[0] == lc && collected_cards@[1] == rc);
        assert(old(left).cards() =~= mid_l.cards().add(seq![lc].to_multiset()));
        assert(old(right).cards() =~= mid_r.cards().add(seq![rc].to_multiset()));
    }

    match comparison_result {
        CompareResult::LeftWins => {
            proof {
                assert(tie_chain_shape(collected_cards@, ResolutionResult::LeftWins));
                if old(left).won().len() == 0 && old(right).won().len() == 0 {
                    assert(a.skip(1) =~= a.drop_first());
                    assert(b.skip(1) =~= b.drop_first());
                    assert(collected_cards@ =~= chain_cards(a, b));
                }
            }
            (collected_cards, ResolutionResult::LeftWins)
        }
        CompareResult::RightWins => {
            proof {
                assert(tie_chain_shape(collected_cards@, ResolutionResult::RightWins));
                if old(left).won().len() == 0 && old(right).won().len() == 0 {
                    assert(a.skip(1) =~= a.drop_first());
                    assert(b.skip(1) =~= b.drop_first());
                    assert(collected_cards@ =~= chain_cards(a, b));
                }
            }
            (collected_cards, ResolutionResult::RightWins)
        }
        CompareResult::Equal => {
            let (mut resolved_cards, round_result) = resolve_round(left, right);
            let ghost sub = resolved_cards@;
            collected_cards.append(&mut resolved_cards);
            proof {
                vstd::seq_lib::lemma_multiset_commutative(seq![lc, rc], sub);
                assert(collected_cards@ =~= seq![lc, rc] + sub);
                assert(old(left).cards().add(old(right).cards()) =~= left.cards().add(
                    right.cards(),
                ).add(collected_cards@.to_multiset()));
                lemma_reveals_unfold(lc, rc, sub);
                vstd::seq_lib::lemma_multiset_commutative(seq![lc], left_reveals(sub));
                vstd::seq_lib::lemma_multiset_commutative(seq![rc], right_reveals(sub));
                assert(old(left).cards() =~= left.cards().add(
                    left_reveals(collected_cards@).to_multiset(),
                ));
                assert(old(right).cards() =~= right.cards().add(
                    right_reveals(collected_cards@).to_multiset(),
                ));
                lemma_chain_shape_extends(lc, rc, sub, round_result);
                if old(left).won().len() == 0 && old(right).won().len() == 0 {
                    let k = chain_len(a.drop_first(), b.drop_first()) as int;
                    lemma_chain_len_le(a.drop_first(), b.drop_first());
                    assert(mid_l.draw() == a.drop_first());
                    assert(mid_r.draw() == b.drop_first());
                    assert(collected_cards@ =~= chain_cards(a, b));
                    assert(a.drop_first().skip(k) =~= a.skip(k + 1));
                    assert(b.drop_first().skip(k) =~= b.skip(k + 1));
                }
            }
            (collected_cards, round_result)
        }
    }
}

} // verus!
