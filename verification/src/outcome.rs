//! Classifying a finished game, and running a single full game from a fresh
//! deck: the layer that consumes what the round-resolution engine reports.

use vstd::prelude::*;

use crate::card::Card;
use crate::card::PlayerStacks;
use crate::card::Stack;
use crate::card::create_default_stacks;
use crate::game::play_game;

verus! {

/// The end result of a game: left wins, right wins, or it is a draw.
#[derive(Debug, PartialEq, Eq, Structural)]
pub enum GameResult {
    LeftWins,
    RightWins,
    Draw,
}

/// Whether the player that started with more kings won the game: yes, the
/// king counts were level, or no.
#[derive(Debug, PartialEq, Eq, Structural)]
pub enum KingsDecisive {
    Yes,
    Drawn,
    No,
}

/// How many rounds one game took.
pub type NumberOfRounds = u32;

/// How many kings a sequence of cards holds.
pub open spec fn king_count(s: Seq<Card>) -> nat
    decreases s.len(),
{
    if s.len() == 0 {
        0
    } else {
        king_count(s.drop_last()) + if s.last().number == 13 {
            1nat
        } else {
            0nat
        }
    }
}

/// A sequence holds no more kings than cards.
pub proof fn lemma_king_count_le_len(s: Seq<Card>)
    ensures
        king_count(s) <= s.len(),
    decreases s.len(),
{
    if s.len() > 0 {
        lemma_king_count_le_len(s.drop_last());
    }
}

/// A prefix of a sequence holds no more kings than the whole.
proof fn lemma_king_count_take_le(s: Seq<Card>, j: int)
    requires
        0 <= j <= s.len(),
    ensures
        king_count(s.take(j)) <= king_count(s),
    decreases s.len() - j,
{
    if j == s.len() {
        assert(s.take(j) =~= s);
    } else {
        assert(s.take(j + 1).drop_last() =~= s.take(j));
        lemma_king_count_take_le(s, j + 1);
    }
}

/// Counts the kings in a stack of cards.
pub fn count_kings(stack: &Stack) -> (r: u8)
    requires
        king_count(stack@) <= 255,
    ensures
        r == king_count(stack@),
{
    let mut king_counter: u8 = 0;
    let mut i: usize = 0;
    let n = stack.len();
    while i < n
        invariant
            i <= n,
            n == stack@.len(),
            king_count(stack@) <= 255,
            king_counter == king_count(stack@.take(i as int)),
        decreases n - i,
    {
        proof {
            assert(stack@.take(i + 1).drop_last() =~= stack@.take(i as int));
            lemma_king_count_take_le(stack@, i + 1);
        }
        if stack[i].is_king() {
            king_counter += 1;
        }
        i += 1;
    }
    proof {
        assert(stack@.take(n as int) =~= stack@);
    }
    king_counter
}

/// Decides on the GameResult based on the number of cards each player has.
///
/// The player that doesn't have any cards left has lost. In any other
/// constellation the game was ended because the maximum number of rounds was
/// exceeded, and it counts as a draw, never as a win.
pub fn game_outcome(left_player: &PlayerStacks, right_player: &PlayerStacks) -> (r: GameResult)
    ensures
        left_player.total() == 0 && right_player.total() == 0 ==> r == GameResult::Draw,
        left_player.total() == 0 && right_player.total() > 0 ==> r == GameResult::RightWins,
        left_player.total() > 0 && right_player.total() == 0 ==> r == GameResult::LeftWins,
        left_player.total() > 0 && right_player.total() > 0 ==> r == GameResult::Draw,
{
    match (left_player.total_cards(), right_player.total_cards()) {
        (0, 0) => GameResult::Draw,
        (0, _) => GameResult::RightWins,
        (_, 0) => GameResult::LeftWins,
        _ => GameResult::Draw,
    }
}

/// Creates stacks for two players, plays one full game, and reports the
/// result, the number of rounds played, and whether the player that started
/// with more kings won.
///
/// A drawn game never counts the kings as decisive.
pub fn create_stacks_play_game() -> (r: (GameResult, NumberOfRounds, KingsDecisive))
    ensures
        1 <= r.1 <= 100_000,
        r.0 == GameResult::Draw ==> r.2 == KingsDecisive::No,
{
    let (mut left_player, mut right_player) = create_default_stacks();

    proof {
        lemma_king_count_le_len(left_player.draw());
        lemma_king_count_le_len(right_player.draw());
    }
    let left_kings = count_kings(left_player.draw_stack());
    let right_kings = count_kings(right_player.draw_stack());

    let number_of_rounds = play_game(&mut left_player, &mut right_player);

    let result = game_outcome(&left_player, &right_player);

    let kings_decisive = match result {
        GameResult::LeftWins => {
            if left_kings > right_kings {
                KingsDecisive::Yes
            } else if left_kings == right_kings {
                KingsDecisive::Drawn
            } else {
                KingsDecisive::No
            }
        }
        GameResult::RightWins => {
            if left_kings < right_kings {
                KingsDecisive::Yes
            } else if left_kings == right_kings {
                KingsDecisive::Drawn
            } else {
                KingsDecisive::No
            }
        }
        GameResult::Draw => KingsDecisive::No,
    };

    (result, number_of_rounds, kings_decisive)
}

} // verus!
