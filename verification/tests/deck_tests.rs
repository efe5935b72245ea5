use tabletop_core::Card;
use tabletop_core::Deck;
use tabletop_core::DeckError;
use tabletop_core::Rank;
use tabletop_core::Suit;
use tabletop_core::deck::rng_from_seed;

const ALL_RANKS: [Rank; 13] = [
    Rank::Two,
    Rank::Three,
    Rank::Four,
    Rank::Five,
    Rank::Six,
    Rank::Seven,
    Rank::Eight,
    Rank::Nine,
    Rank::Ten,
    Rank::Jack,
    Rank::Queen,
    Rank::King,
    Rank::Ace,
];

const ALL_SUITS: [Suit; 4] = [Suit::Hearts, Suit::Diamonds, Suit::Clubs, Suit::Spades];

#[test]
fn reset_gives_all_52_unique_cards() {
    let mut deck = Deck::new();
    deck.reset();
    assert_eq!(deck.len(), 52);
    let cards = deck.cards();
    for i in 0..cards.len() {
        for j in 0..i {
            assert!(cards[i] != cards[j], "duplicate card in reset deck");
        }
    }
    for suit in ALL_SUITS {
        for rank in ALL_RANKS {
            let want = Card { rank, suit };
            assert!(cards.iter().any(|c| *c == want), "missing card in reset deck");
        }
    }
}

#[test]
fn shuffle_is_a_permutation() {
    let mut deck = Deck::new();
    deck.reset();
    let before: Vec<Card> = deck.cards().clone();
    let mut rng = rng_from_seed(7);
    deck.shuffle(&mut rng);
    assert_eq!(deck.len(), 52);
    let after = deck.cards();
    for c in &before {
        let n = after.iter().filter(|x| *x == c).count();
        assert_eq!(n, 1, "shuffle lost or duplicated a card");
    }
}

#[test]
fn shuffle_actually_reorders() {
    let mut deck = Deck::new();
    deck.reset();
    let before: Vec<Card> = deck.cards().clone();
    let mut rng = rng_from_seed(1);
    deck.shuffle(&mut rng);
    let after = deck.cards();
    let moved = (0..52).filter(|&i| after[i] != before[i]).count();
    assert!(moved > 0, "shuffle left the deck in canonical order");
}

#[test]
fn shuffle_same_seed_same_order() {
    let mut d1 = Deck::new();
    d1.reset();
    let mut r1 = rng_from_seed(42);
    d1.shuffle(&mut r1);
    let mut d2 = Deck::new();
    d2.reset();
    let mut r2 = rng_from_seed(42);
    d2.shuffle(&mut r2);
    assert_eq!(d1.cards(), d2.cards());
}

#[test]
fn shuffle_first_card_spreads_over_seeds() {
    // A light uniformity check: over many seeded shuffles the card that
    // lands on top should take many different values.
    let mut seen: Vec<Card> = Vec::new();
    for seed in 0..520u64 {
        let mut deck = Deck::new();
        deck.reset();
        let mut rng = rng_from_seed(seed);
        deck.shuffle(&mut rng);
        let top = deck.cards()[0];
        if !seen.iter().any(|c| *c == top) {
            seen.push(top);
        }
    }
    assert!(seen.len() >= 30, "top card took only {} values over 520 shuffles", seen.len());
}

#[test]
fn deal_removes_dealt_cards() {
    let mut deck = Deck::new();
    deck.reset();
    let mut rng = rng_from_seed(3);
    deck.shuffle(&mut rng);
    let before: Vec<Card> = deck.cards().clone();
    let dealt = deck.deal(5).expect("52 cards suffice for a deal of 5");
    assert_eq!(dealt.len(), 5);
    assert_eq!(deck.len(), 47);
    assert_eq!(&dealt[..], &before[..5], "dealing must take the first cards in order");
    assert_eq!(&deck.cards()[..], &before[5..], "the rest must keep their order");
    for c in &dealt {
        assert!(!deck.cards().iter().any(|x| x == c), "dealt card still in deck");
    }
}

#[test]
fn deal_too_many_fails_and_leaves_deck_unchanged() {
    let mut deck = Deck::new();
    deck.reset();
    let before: Vec<Card> = deck.cards().clone();
    assert_eq!(deck.deal(53), Err(DeckError::InsufficientCards));
    assert_eq!(deck.len(), 52);
    assert_eq!(deck.cards(), &before);

    let dealt = deck.deal(50).expect("50 of 52 is fine");
    assert_eq!(dealt.len(), 50);
    assert_eq!(deck.len(), 2);
    assert_eq!(deck.deal(3), Err(DeckError::InsufficientCards));
    assert_eq!(deck.len(), 2, "a failed deal must not drain the deck");
}

#[test]
fn deal_zero_is_empty_and_harmless() {
    let mut deck = Deck::new();
    deck.reset();
    let dealt = deck.deal(0).expect("dealing nothing always works");
    assert!(dealt.is_empty());
    assert_eq!(deck.len(), 52);
}
