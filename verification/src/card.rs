//! Cards, and the pair of stacks (draw stack and won stack) that holds one
//! player's cards during a game.

use std::collections::VecDeque;
use vstd::prelude::*;
use vstd::multiset::Multiset;

verus! {

broadcast use vstd::seq_lib::group_to_multiset_ensures, vstd::multiset::group_multiset_axioms;

/// Number of ranks in one suite of the default deck: 1 to 10, jack (11),
/// queen (12) and king (13).
const SUITE_SIZE: usize = 13;

/// A playing card: a suite (the symbol on the card) and a rank within that
/// suite.
///
/// Gameplay compares ranks only; the suite is informational. Cards carry no
/// comparison of their own, as different games order them differently.
#[derive(Clone, Copy, Debug)]
pub struct Card {
    pub suite: Suite,
    pub number: u8,
}

impl Card {
    /// Builds a card, rejecting ranks outside 1..=13.
    pub fn create(suite: Suite, number: u8) -> (r: Option<Card>)
        ensures
            1 <= number <= 13 <==> r is Some,
            r matches Some(c) ==> c.suite == suite && c.number == number,
    {
        if number < 1 || number > SUITE_SIZE as u8 {
            None
        } else {
            Some(Card { suite, number })
        }
    }

    /// Whether this card is a king, the highest rank.
    pub fn is_king(&self) -> (r: bool)
        ensures
            r <==> self.number == 13,
    {
        self.number == 13
    }
}

/// One of the four suites of a standard deck.
#[derive(Debug, PartialEq, Eq, Hash, Copy, Clone)]
pub enum Suite {
    Heart,
    Club,
    Diamond,
    Spade,
}

/// A Stack is a sequence of cards: the front is the next card to play, the
/// back is where newly won cards are appended.
pub type Stack = VecDeque<Card>;

/// One player's cards: a draw stack (still to be played) and a won stack
/// (captured in earlier rounds, not yet playable).
///
/// When the draw stack runs dry, the won stack is shuffled and becomes the
/// new draw stack. The only mutations are [`PlayerStacks::pop_front`] and
/// [`PlayerStacks::append`]; together they never create or destroy a card.
#[derive(Debug)]
pub struct PlayerStacks {
    draw_stack: Stack,
    won_stack: Stack,
}

impl PlayerStacks {
    /// The draw stack, as the sequence of cards from front to back.
    pub closed spec fn draw(self) -> Seq<Card> {
        self.draw_stack@
    }

    /// The won stack, as the sequence of cards from front to back.
    pub closed spec fn won(self) -> Seq<Card> {
        self.won_stack@
    }

    /// How many cards the player holds over both stacks.
    pub open spec fn total(self) -> nat {
        self.draw().len() + self.won().len()
    }

    /// All cards the player holds, with order forgotten.
    pub open spec fn cards(self) -> Multiset<Card> {
        self.draw().to_multiset().add(self.won().to_multiset())
    }

    #[verifier::type_invariant]
    spec fn well_formed(self) -> bool {
        self.draw_stack@.len() + self.won_stack@.len() <= usize::MAX
    }

    /// Creates a new pair of stacks from a deck of cards and an empty won
    /// stack.
    pub fn new(stack: VecDeque<Card>) -> (r: PlayerStacks)
        ensures
            r.draw() == stack@,
            r.won() == Seq::<Card>::empty(),
            r.total() == stack@.len(),
            r.cards() == stack@.to_multiset(),
    {
        let card_count = stack.len();
        let r = PlayerStacks { draw_stack: stack, won_stack: VecDeque::new() };
        proof {
            lemma_to_multiset_of_empty(r.won());
            assert(r.total() == card_count);
            assert(r.cards() =~= stack@.to_multiset());
        }
        r
    }

    /// A reference to the draw stack of this player.
    pub fn draw_stack(&self) -> (r: &Stack)
        ensures
            r@ == self.draw(),
    {
        &self.draw_stack
    }

    /// A reference to the won stack of this player.
    pub fn won_stack(&self) -> (r: &Stack)
        ensures
            r@ == self.won(),
    {
        &self.won_stack
    }

    /// Checks whether both stacks are empty.
    pub fn is_empty(&self) -> (r: bool)
        ensures
            r <==> self.total() == 0,
    {
        self.draw_stack.len() == 0 && self.won_stack.len() == 0
    }

    /// The total number of cards in both the draw and won stacks.
    pub fn total_cards(&self) -> (r: usize)
        ensures
            r == self.total(),
    {
        proof {
            use_type_invariant(&*self);
        }
        self.draw_stack.len() + self.won_stack.len()
    }

    /// Retrieves (and removes) the first card of the draw stack, reshuffling
    /// the won stack into the draw stack first if the draw stack is empty.
    ///
    /// Returns `None` exactly when the player holds no card at all; running
    /// dry is a normal terminal state, not an error.
    pub fn pop_front(&mut self) -> (r: Option<Card>)
        ensures
            r is Some <==> old(self).total() > 0,
            r is None ==> final(self).draw() == old(self).draw()
                && final(self).won() == old(self).won(),
            r matches Some(c) ==> final(self).cards().insert(c) == old(self).cards()
                && final(self).total() == old(self).total() - 1,
            old(self).draw().len() > 0 ==> r == Some(old(self).draw()[0]) && final(self).draw()
                == old(self).draw().drop_first() && final(self).won() == old(self).won(),
            old(self).draw().len() == 0 ==> final(self).won().len() == 0,
            old(self).draw().len() == 0 && old(self).won().len() > 0 ==> (r matches Some(c)
                && final(self).draw().len() == old(self).won().len() - 1
                && final(self).draw().to_multiset().insert(c) == old(self).won().to_multiset()),
    {
        proof {
            use_type_invariant(&*self);
        }
        if self.draw_stack.len() == 0 && self.won_stack.len() > 0 {
            self.shuffle_won_stack();
        }
        let ghost mid = *self;
        let mut draw: VecDeque<Card> = VecDeque::new();
        std::mem::swap(&mut draw, &mut self.draw_stack);
        let r = draw.pop_front();
        self.draw_stack = draw;
        proof {
            if mid.draw().len() > 0 {
                let c = mid.draw()[0];
                assert(mid.draw().drop_first() =~= mid.draw().remove(0));
                assert(mid.draw().remove(0).to_multiset() == mid.draw().to_multiset().remove(c));
                assert(mid.draw().to_multiset().contains(c));
                assert(final(self).cards().insert(c) =~= mid.cards());
            }
        }
        r
    }

    /// Appends a batch of cards to the back of the won stack, preserving the
    /// batch's internal order, and leaves the batch empty.
    pub fn append(&mut self, cards: &mut VecDeque<Card>)
        requires
            old(self).total() + old(cards)@.len() <= usize::MAX,
        ensures
            final(self).draw() == old(self).draw(),
            final(self).won() == old(self).won() + old(cards)@,
            final(self).total() == old(self).total() + old(cards)@.len(),
            final(self).cards() == old(self).cards().add(old(cards)@.to_multiset()),
            final(cards)@ == Seq::<Card>::empty(),
    {
        proof {
            use_type_invariant(&*self);
        }
        let mut won: VecDeque<Card> = VecDeque::new();
        std::mem::swap(&mut won, &mut self.won_stack);
        won.append(cards);
        self.won_stack = won;
        proof {
            vstd::seq_lib::lemma_multiset_commutative(old(self).won(), old(cards)@);
            assert(final(self).cards() =~= old(self).cards().add(old(cards)@.to_multiset()));
        }
    }

    /// Shuffles the won stack and turns it into the new draw stack.
    ///
    /// Which permutation comes out is up to the random source; every card of
    /// the won stack moves to the draw stack exactly once.
    fn shuffle_won_stack(&mut self)
        requires
            old(self).draw().len() == 0,
        ensures
            final(self).draw().len() == old(self).won().len(),
            final(self).draw().to_multiset() == old(self).won().to_multiset(),
            final(self).won().len() == 0,
            final(self).cards() == old(self).cards(),
            final(self).total() == old(self).total(),
    {
        proof {
            use_type_invariant(&*self);
        }
        let mut won: VecDeque<Card> = VecDeque::new();
        std::mem::swap(&mut won, &mut self.won_stack);
        shuffle_cards(&mut won);
        let ghost shuffled: Seq<Card> = won@;
        let mut draw: VecDeque<Card> = VecDeque::new();
        std::mem::swap(&mut draw, &mut self.draw_stack);
        draw.append(&mut won);
        self.draw_stack = draw;
        proof {
            vstd::seq_lib::lemma_multiset_commutative(old(self).draw(), shuffled);
            lemma_to_multiset_of_empty(old(self).draw());
            lemma_to_multiset_of_empty(final(self).won());
            assert(final(self).draw().to_multiset() =~= old(self).won().to_multiset());
            assert(final(self).cards() =~= old(self).cards());
        }
    }
}

/// The cards of one suite, ranked 1 up to `n`, in rank order.
pub open spec fn suite_run(suite: Suite, n: nat) -> Seq<Card>
    decreases n,
{
    if n == 0 {
        Seq::empty()
    } else {
        suite_run(suite, (n - 1) as nat).push(Card { suite, number: n as u8 })
    }
}

/// A full ordered deck: each of the four suites in turn, each ranked 1 up to
/// `suite_size`.
pub open spec fn full_deck(suite_size: nat) -> Seq<Card> {
    suite_run(Suite::Heart, suite_size) + suite_run(Suite::Club, suite_size) + suite_run(
        Suite::Diamond,
        suite_size,
    ) + suite_run(Suite::Spade, suite_size)
}

/// Creates two PlayerStacks with default settings (4 suites; 13 cards per
/// suite).
///
/// The default deck of cards has 4 suites each with 13 cards. This function
/// creates a default deck of cards, shuffles it and deals it into two equal
/// draw stacks (one for each player). The won stacks of both players are
/// empty.
pub fn create_default_stacks() -> (r: (PlayerStacks, PlayerStacks))
    ensures
        r.0.won().len() == 0 && r.1.won().len() == 0,
        r.0.draw().len() == 26 && r.1.draw().len() == 26,
        r.0.cards().add(r.1.cards()) == full_deck(13).to_multiset(),
{
    create_stacks(SUITE_SIZE)
}

/// Creates two non-default PlayerStacks with 4 suites and the requested
/// number of cards per suite.
///
/// This function is mainly meant for debugging purposes.
pub fn create_stacks(suite_size: usize) -> (r: (PlayerStacks, PlayerStacks))
    requires
        suite_size <= 255,
    ensures
        r.0.won().len() == 0 && r.1.won().len() == 0,
        r.0.draw().len() == 2 * suite_size && r.1.draw().len() == 2 * suite_size,
        r.0.cards().add(r.1.cards()) == full_deck(suite_size as nat).to_multiset(),
{
    let mut dk = deck(suite_size);
    proof {
        lemma_suite_run_len(Suite::Heart, suite_size as nat);
        lemma_suite_run_len(Suite::Club, suite_size as nat);
        lemma_suite_run_len(Suite::Diamond, suite_size as nat);
        lemma_suite_run_len(Suite::Spade, suite_size as nat);
    }
    shuffle_cards(&mut dk);
    let ghost shuffled: Seq<Card> = dk@;
    let half = dk.len() / 2;
    let second = dk.split_off(half);
    proof {
        assert(shuffled =~= dk@ + second@);
        vstd::seq_lib::lemma_multiset_commutative(dk@, second@);
    }
    let left = PlayerStacks::new(dk);
    let right = PlayerStacks::new(second);
    proof {
        assert(left.cards().add(right.cards()) =~= full_deck(suite_size as nat).to_multiset());
    }
    (left, right)
}

/// Builds the full ordered deck of four suites, each ranked 1 up to
/// `suite_size`.
pub fn deck(suite_size: usize) -> (r: VecDeque<Card>)
    requires
        suite_size <= 255,
    ensures
        r@ == full_deck(suite_size as nat),
{
    let mut dk: VecDeque<Card> = VecDeque::new();
    push_suite(&mut dk, Suite::Heart, suite_size);
    push_suite(&mut dk, Suite::Club, suite_size);
    push_suite(&mut dk, Suite::Diamond, suite_size);
    push_suite(&mut dk, Suite::Spade, suite_size);
    proof {
        assert(dk@ =~= full_deck(suite_size as nat));
    }
    dk
}

/// Appends one suite's run of cards, ranked 1 up to `suite_size`, to the back
/// of the deck.
fn push_suite(dk: &mut VecDeque<Card>, suite: Suite, suite_size: usize)
    requires
        suite_size <= 255,
    ensures
        final(dk)@ == old(dk)@ + suite_run(suite, suite_size as nat),
{
    let ghost dk0: Seq<Card> = dk@;
    let mut number: usize = 1;
    proof {
        assert(dk@ =~= dk0 + suite_run(suite, 0));
    }
    while number <= suite_size
        invariant
            1 <= number <= suite_size + 1,
            suite_size <= 255,
            dk@ == dk0 + suite_run(suite, (number - 1) as nat),
        decreases suite_size + 1 - number,
    {
        dk.push_back(Card { suite, number: number as u8 });
        proof {
            assert(dk@ =~= dk0 + suite_run(suite, number as nat));
        }
        number += 1;
    }
}

/// One suite's run holds exactly one card per rank.
proof fn lemma_suite_run_len(suite: Suite, n: nat)
    ensures
        suite_run(suite, n).len() == n,
    decreases n,
{
    if n > 0 {
        lemma_suite_run_len(suite, (n - 1) as nat);
    }
}

/// Shuffles a deck of cards in place.
///
/// Which permutation comes out is up to the random source; the shuffle
/// neither adds nor removes a card.
pub fn shuffle_deck(deck: &mut VecDeque<Card>)
    ensures
        final(deck)@.len() == old(deck)@.len(),
        final(deck)@.to_multiset() == old(deck)@.to_multiset(),
{
    shuffle_cards(deck);
}

/// The multiset of an empty sequence of cards is the empty multiset.
pub(crate) proof fn lemma_to_multiset_of_empty(s: Seq<Card>)
    requires
        s.len() == 0,
    ensures
        s.to_multiset() == Multiset::<Card>::empty(),
{
    assert(s.to_multiset() =~= Multiset::<Card>::empty()) by {
        assert forall|c: Card| s.to_multiset().count(c) == 0 by {
            assert(!s.contains(c));
        }
    }
}

/// Relies on rand's `SliceRandom::shuffle`: a Fisher-Yates shuffle that
/// permutes the slice in place, neither adding nor removing cards.
#[verifier::external_body]
fn shuffle_cards(cards: &mut VecDeque<Card>)
    ensures
        final(cards)@.len() == old(cards)@.len(),
        final(cards)@.to_multiset() == old(cards)@.to_multiset(),
{
    let mut rng = rand::rng();
    rand::seq::SliceRandom::shuffle(cards.make_contiguous(), &mut rng);
}

} // verus!
