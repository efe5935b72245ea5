use tabletop_core::Card;
use tabletop_core::EvalError;
use tabletop_core::HandValue;
use tabletop_core::PokerHand;
use tabletop_core::Rank;
use tabletop_core::Suit;
use tabletop_core::hand::evaluate;
use tabletop_core::hand::hand_le;

fn card(rank: Rank, suit: Suit) -> Card {
    Card { rank, suit }
}

fn eval(cards: Vec<Card>) -> HandValue {
    evaluate(&cards).expect("five or more cards evaluate")
}

fn key(v: &HandValue) -> [u8; 5] {
    [v.k0, v.k1, v.k2, v.k3, v.k4]
}

fn beats(a: &HandValue, b: &HandValue) -> bool {
    hand_le(b, a) && !hand_le(a, b)
}

#[test]
fn straight_flush_six_high() {
    let v = eval(vec![
        card(Rank::Two, Suit::Hearts),
        card(Rank::Three, Suit::Hearts),
        card(Rank::Four, Suit::Hearts),
        card(Rank::Five, Suit::Hearts),
        card(Rank::Six, Suit::Hearts),
    ]);
    assert_eq!(v.cat, PokerHand::StraightFlush);
    assert_eq!(key(&v), [6, 0, 0, 0, 0]);
}

#[test]
fn wheel_straight_flush_ranks_below_six_high() {
    let wheel = eval(vec![
        card(Rank::Ace, Suit::Spades),
        card(Rank::Two, Suit::Spades),
        card(Rank::Three, Suit::Spades),
        card(Rank::Four, Suit::Spades),
        card(Rank::Five, Suit::Spades),
    ]);
    assert_eq!(wheel.cat, PokerHand::StraightFlush);
    assert_eq!(key(&wheel), [5, 0, 0, 0, 0]);

    let six_high = eval(vec![
        card(Rank::Two, Suit::Hearts),
        card(Rank::Three, Suit::Hearts),
        card(Rank::Four, Suit::Hearts),
        card(Rank::Five, Suit::Hearts),
        card(Rank::Six, Suit::Hearts),
    ]);
    assert!(beats(&six_high, &wheel), "the wheel is the weakest straight flush");
}

#[test]
fn royal_flush_is_its_own_category() {
    let v = eval(vec![
        card(Rank::Ten, Suit::Diamonds),
        card(Rank::Jack, Suit::Diamonds),
        card(Rank::Queen, Suit::Diamonds),
        card(Rank::King, Suit::Diamonds),
        card(Rank::Ace, Suit::Diamonds),
    ]);
    assert_eq!(v.cat, PokerHand::RoyalFlush);
    assert_eq!(key(&v), [14, 0, 0, 0, 0]);
}

#[test]
fn full_house_tiebreak_is_triple_then_pair() {
    let v = eval(vec![
        card(Rank::Ace, Suit::Hearts),
        card(Rank::Ace, Suit::Diamonds),
        card(Rank::Ace, Suit::Clubs),
        card(Rank::King, Suit::Spades),
        card(Rank::King, Suit::Diamonds),
    ]);
    assert_eq!(v.cat, PokerHand::FullHouse);
    assert_eq!(key(&v), [14, 14, 14, 13, 13]);
}

#[test]
fn two_pair_higher_pair_wins() {
    let low = eval(vec![
        card(Rank::Two, Suit::Clubs),
        card(Rank::Two, Suit::Diamonds),
        card(Rank::Nine, Suit::Hearts),
        card(Rank::Nine, Suit::Spades),
        card(Rank::King, Suit::Clubs),
    ]);
    let high = eval(vec![
        card(Rank::Three, Suit::Clubs),
        card(Rank::Three, Suit::Diamonds),
        card(Rank::Nine, Suit::Hearts),
        card(Rank::Nine, Suit::Spades),
        card(Rank::King, Suit::Clubs),
    ]);
    assert_eq!(low.cat, PokerHand::TwoPair);
    assert_eq!(high.cat, PokerHand::TwoPair);
    assert_eq!(key(&low), [9, 9, 2, 2, 13]);
    assert_eq!(key(&high), [9, 9, 3, 3, 13]);
    assert!(beats(&high, &low), "the higher second pair must win");
}

#[test]
fn four_of_a_kind_key() {
    let v = eval(vec![
        card(Rank::Nine, Suit::Hearts),
        card(Rank::Nine, Suit::Diamonds),
        card(Rank::Nine, Suit::Clubs),
        card(Rank::Nine, Suit::Spades),
        card(Rank::King, Suit::Clubs),
    ]);
    assert_eq!(v.cat, PokerHand::FourOfAKind);
    assert_eq!(key(&v), [9, 9, 9, 9, 13]);
}

#[test]
fn plain_flush_key_is_ranks_descending() {
    let v = eval(vec![
        card(Rank::Two, Suit::Hearts),
        card(Rank::Five, Suit::Hearts),
        card(Rank::Seven, Suit::Hearts),
        card(Rank::Nine, Suit::Hearts),
        card(Rank::Jack, Suit::Hearts),
    ]);
    assert_eq!(v.cat, PokerHand::Flush);
    assert_eq!(key(&v), [11, 9, 7, 5, 2]);
}

#[test]
fn plain_straight_and_pairs() {
    let straight = eval(vec![
        card(Rank::Five, Suit::Hearts),
        card(Rank::Six, Suit::Diamonds),
        card(Rank::Seven, Suit::Clubs),
        card(Rank::Eight, Suit::Spades),
        card(Rank::Nine, Suit::Hearts),
    ]);
    assert_eq!(straight.cat, PokerHand::Straight);
    assert_eq!(key(&straight), [9, 0, 0, 0, 0]);

    let trips = eval(vec![
        card(Rank::Queen, Suit::Hearts),
        card(Rank::Queen, Suit::Diamonds),
        card(Rank::Queen, Suit::Clubs),
        card(Rank::Eight, Suit::Spades),
        card(Rank::Two, Suit::Hearts),
    ]);
    assert_eq!(trips.cat, PokerHand::ThreeOfAKind);
    assert_eq!(key(&trips), [12, 12, 12, 8, 2]);

    let pair = eval(vec![
        card(Rank::Four, Suit::Hearts),
        card(Rank::Four, Suit::Diamonds),
        card(Rank::Ace, Suit::Clubs),
        card(Rank::Eight, Suit::Spades),
        card(Rank::Two, Suit::Hearts),
    ]);
    assert_eq!(pair.cat, PokerHand::OnePair);
    assert_eq!(key(&pair), [4, 4, 14, 8, 2]);

    let high = eval(vec![
        card(Rank::Four, Suit::Hearts),
        card(Rank::Six, Suit::Diamonds),
        card(Rank::Ace, Suit::Clubs),
        card(Rank::Eight, Suit::Spades),
        card(Rank::Two, Suit::Hearts),
    ]);
    assert_eq!(high.cat, PokerHand::HighCard);
    assert_eq!(key(&high), [14, 8, 6, 4, 2]);
}

#[test]
fn evaluation_is_invariant_to_input_order() {
    let cards = vec![
        card(Rank::Ace, Suit::Hearts),
        card(Rank::Ace, Suit::Diamonds),
        card(Rank::Ace, Suit::Clubs),
        card(Rank::King, Suit::Spades),
        card(Rank::King, Suit::Diamonds),
    ];
    let forward = eval(cards.clone());
    let mut reversed = cards.clone();
    reversed.reverse();
    assert_eq!(forward, eval(reversed));
    let rotated = vec![cards[3], cards[1], cards[4], cards[0], cards[2]];
    assert_eq!(forward, eval(rotated));
}

#[test]
fn fewer_than_five_cards_is_invalid() {
    let cards = vec![
        card(Rank::Ace, Suit::Hearts),
        card(Rank::King, Suit::Hearts),
        card(Rank::Queen, Suit::Hearts),
        card(Rank::Jack, Suit::Hearts),
    ];
    assert_eq!(evaluate(&cards), Err(EvalError::InvalidHandSize));
    assert_eq!(evaluate(&Vec::new()), Err(EvalError::InvalidHandSize));
}

#[test]
fn seven_cards_pick_the_best_five() {
    let v = eval(vec![
        card(Rank::King, Suit::Spades),
        card(Rank::Two, Suit::Hearts),
        card(Rank::Three, Suit::Hearts),
        card(Rank::King, Suit::Hearts),
        card(Rank::Four, Suit::Hearts),
        card(Rank::Five, Suit::Hearts),
        card(Rank::Six, Suit::Hearts),
    ]);
    assert_eq!(v.cat, PokerHand::StraightFlush, "the straight flush beats the pair and flushes");
    assert_eq!(key(&v), [6, 0, 0, 0, 0]);

    let v2 = eval(vec![
        card(Rank::Ace, Suit::Spades),
        card(Rank::Ace, Suit::Hearts),
        card(Rank::Ace, Suit::Clubs),
        card(Rank::King, Suit::Hearts),
        card(Rank::King, Suit::Spades),
        card(Rank::Queen, Suit::Hearts),
        card(Rank::Two, Suit::Diamonds),
    ]);
    assert_eq!(v2.cat, PokerHand::FullHouse);
    assert_eq!(key(&v2), [14, 14, 14, 13, 13]);
}

#[test]
fn equal_hands_tie_exactly() {
    let a = eval(vec![
        card(Rank::Two, Suit::Clubs),
        card(Rank::Two, Suit::Diamonds),
        card(Rank::Nine, Suit::Hearts),
        card(Rank::Nine, Suit::Spades),
        card(Rank::King, Suit::Clubs),
    ]);
    let b = eval(vec![
        card(Rank::Two, Suit::Hearts),
        card(Rank::Two, Suit::Spades),
        card(Rank::Nine, Suit::Clubs),
        card(Rank::Nine, Suit::Diamonds),
        card(Rank::King, Suit::Diamonds),
    ]);
    assert!(hand_le(&a, &b) && hand_le(&b, &a), "same ranks in different suits tie");
}
