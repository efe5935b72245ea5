use vstd::prelude::*;

use crate::cards::Card;
use crate::cards::Rank;
use crate::cards::Suit;
use crate::cards::rank_index_spec;
use crate::cards::rank_of_index;
use crate::cards::rank_of_index_spec;
use crate::cards::suit_index_spec;
use crate::cards::suit_of_index;
use crate::cards::suit_of_index_spec;
use rand::SeedableRng;
use rand::seq::SliceRandom;

verus! {

/// Failure modes of deck operations.
#[derive(Clone, Copy, Debug, PartialEq, Eq, Structural)]
pub enum DeckError {
    /// A deal asked for more cards than remain in the deck.
    InsufficientCards,
}

/// The full 52-card deck in canonical order: suit-major, rank-minor
/// (all Hearts Two..Ace, then Diamonds, Clubs, Spades).
pub open spec fn canonical_deck() -> Seq<Card> {
    Seq::new(
        52,
        |i: int|
            Card {
                rank: rank_of_index_spec(i % 13),
                suit: suit_of_index_spec(i / 13),
            },
    )
}

/// Declares rand's StdRng so generator state can flow through verified
/// signatures; the value is opaque here and only the trusted wrappers
/// below touch it.
#[verifier::external_type_specification]
#[verifier::external_body]
pub struct ExStdRng(rand::rngs::StdRng);

/// A deterministic, seedable randomness source for shuffling; injected by
/// the caller so tests can fix the seed.
///
/// Relies on rand::rngs::StdRng::seed_from_u64 (SeedableRng): builds a
/// generator from the given seed. Nothing is promised of the values it
/// will produce.
#[verifier::external_body]
pub fn rng_from_seed(seed: u64) -> rand::rngs::StdRng {
    rand::rngs::StdRng::seed_from_u64(seed)
}

/// Relies on rand's SliceRandom::shuffle: a Fisher-Yates pass that swaps
/// elements of the slice in place, so the result is a permutation of the
/// input. Which permutation comes out depends on the generator's state,
/// so only the multiset of elements (and hence the length) is stated.
#[verifier::external_body]
fn shuffle_cards(cards: &mut Vec<Card>, rng: &mut rand::rngs::StdRng)
    ensures
        final(cards)@.to_multiset() == old(cards)@.to_multiset(),
        final(cards)@.len() == old(cards)@.len(),
{
    cards.shuffle(rng)
}

/// An ordered sequence of cards: reset to the full 52, shuffled in place,
/// drained from the front by dealing.
pub struct Deck {
    cards: Vec<Card>,
}

impl Deck {
    /// The deck as the mathematical sequence of its cards, front first
    /// (the front is dealt first).
    pub closed spec fn view(&self) -> Seq<Card> {
        self.cards@
    }

    /// An empty deck; `reset` fills it.
    pub fn new() -> (d: Deck)
        ensures
            d@ =~= Seq::<Card>::empty(),
    {
        Deck { cards: Vec::new() }
    }

    /// The cards currently in the deck, front first.
    pub fn cards(&self) -> (r: &Vec<Card>)
        ensures
            r@ == self@,
    {
        &self.cards
    }

    /// How many cards remain.
    pub fn len(&self) -> (n: usize)
        ensures
            n == self@.len(),
    {
        self.cards.len()
    }

    /// Rebuild the full 52-card deck in canonical order (suit-major,
    /// rank-minor), discarding whatever was there.
    pub fn reset(&mut self)
        ensures
            final(self)@ == canonical_deck(),
    {
        let mut cards: Vec<Card> = Vec::new();
        let mut i: usize = 0;
        while i < 52
            invariant
                i <= 52,
                cards@.len() == i,
                forall|k: int| 0 <= k < i ==> cards@[k] == canonical_deck()[k],
            decreases 52 - i,
        {
            let card = Card {
                rank: rank_of_index((i % 13) as u8),
                suit: suit_of_index((i / 13) as u8),
            };
            cards.push(card);
            i = i + 1;
        }
        self.cards = cards;
        assert(self@ =~= canonical_deck());
    }

    /// Reorder the deck in place by an unbiased shuffle driven by the
    /// injected randomness source. The same cards remain, in some order.
    pub fn shuffle(&mut self, rng: &mut rand::rngs::StdRng)
        ensures
            final(self)@.to_multiset() == old(self)@.to_multiset(),
            final(self)@.len() == old(self)@.len(),
    {
        shuffle_cards(&mut self.cards, rng);
    }

    /// Remove and return the first `n` cards. If fewer than `n` remain the
    /// deal fails with `InsufficientCards` and the deck is left unchanged;
    /// there is no partial deal.
    pub fn deal(&mut self, n: usize) -> (r: Result<Vec<Card>, DeckError>)
        ensures
            n <= old(self)@.len() ==> (r matches Ok(dealt) && dealt@ == old(self)@.take(n as int)
                && final(self)@ == old(self)@.skip(n as int)),
            n > old(self)@.len() ==> r == Err::<Vec<Card>, DeckError>(DeckError::InsufficientCards)
                && final(self)@ == old(self)@,
    {
        if n > self.cards.len() {
            return Err(DeckError::InsufficientCards);
        }
        let mut dealt: Vec<Card> = Vec::new();
        let mut i: usize = 0;
        while i < n
            invariant
                i <= n <= self.cards@.len(),
                self.cards@ == old(self)@,
                dealt@.len() == i,
                forall|k: int| 0 <= k < i ==> dealt@[k] == self.cards@[k],
            decreases n - i,
        {
            dealt.push(self.cards[i]);
            i = i + 1;
        }
        let mut rest: Vec<Card> = Vec::new();
        let mut j: usize = n;
        while j < self.cards.len()
            invariant
                n <= j <= self.cards@.len(),
                self.cards@ == old(self)@,
                rest@.len() == j - n,
                forall|k: int| 0 <= k < j - n ==> rest@[k] == self.cards@[k + n],
            decreases self.cards@.len() - j,
        {
            rest.push(self.cards[j]);
            j = j + 1;
        }
        self.cards = rest;
        assert(dealt@ =~= old(self)@.take(n as int));
        assert(self@ =~= old(self)@.skip(n as int));
        Ok(dealt)
    }
}

impl Default for Deck {
    /// An empty deck, as `new` gives.
    fn default() -> (d: Deck)
        ensures
            d@ =~= Seq::<Card>::empty(),
    {
        Deck::new()
    }
}

/// A freshly reset deck holds exactly 52 cards, no two alike, and every
/// (rank, suit) pair appears.
pub proof fn lemma_reset_deck_complete()
    ensures
        canonical_deck().len() == 52,
        canonical_deck().no_duplicates(),
        forall|r: Rank, s: Suit|
            #[trigger] canonical_deck().contains(Card { rank: r, suit: s }),
{
    let d = canonical_deck();
    assert forall|i: int, j: int| 0 <= i < j < d.len() implies d[i] != d[j] by {
        if i % 13 == j % 13 {
            crate::cards::lemma_suit_of_index_injective(i / 13, j / 13);
        } else {
            crate::cards::lemma_rank_of_index_injective(i % 13, j % 13);
        }
    }
    assert forall|r: Rank, s: Suit|
        #[trigger] d.contains(Card { rank: r, suit: s }) by {
        let i = suit_index_spec(s) * 13 + rank_index_spec(r);
        assert(d[i] == Card { rank: r, suit: s });
    }
}

/// After a successful deal from a deck without duplicate cards, none of the
/// dealt cards still appears among the cards that remain.
pub proof fn lemma_deal_removes_cards(s: Seq<Card>, n: int)
    requires
        0 <= n <= s.len(),
        s.no_duplicates(),
    ensures
        forall|k: int| 0 <= k < n ==> !s.skip(n).contains(#[trigger] s.take(n)[k]),
{
    assert forall|k: int| 0 <= k < n implies !s.skip(n).contains(s.take(n)[k]) by {
        if s.skip(n).contains(s.take(n)[k]) {
            let j = choose|j: int| 0 <= j < s.skip(n).len() && s.skip(n)[j] == s.take(n)[k];
            assert(s[n + j] == s[k]);
        }
    }
}

/// End to end: deal `n` cards from any shuffle of a freshly reset deck,
/// and none of them still appears among the cards that remain.
pub proof fn lemma_fresh_deal_is_clean(shuffled: Seq<Card>, n: int)
    requires
        shuffled.to_multiset() == canonical_deck().to_multiset(),
        0 <= n <= shuffled.len(),
    ensures
        forall|k: int|
            0 <= k < n ==> !shuffled.skip(n).contains(#[trigger] shuffled.take(n)[k]),
{
    lemma_reset_deck_complete();
    lemma_shuffle_keeps_no_duplicates(canonical_deck(), shuffled);
    lemma_deal_removes_cards(shuffled, n);
}

/// A shuffle keeps the deck free of duplicates: any reordering of a
/// sequence without duplicates is itself without duplicates.
pub proof fn lemma_shuffle_keeps_no_duplicates(s1: Seq<Card>, s2: Seq<Card>)
    requires
        s1.to_multiset() == s2.to_multiset(),
        s1.no_duplicates(),
    ensures
        s2.no_duplicates(),
{
    s1.lemma_multiset_has_no_duplicates();
    s2.lemma_multiset_has_no_duplicates_conv();
}

} // verus!
