use vstd::prelude::*;

verus! {

/// The thirteen card ranks, ordered Two (weakest) to Ace (strongest).
#[derive(Clone, Copy, Debug, PartialEq, Eq, Structural)]
pub enum Rank {
    Two,
    Three,
    Four,
    Five,
    Six,
    Seven,
    Eight,
    Nine,
    Ten,
    Jack,
    Queen,
    King,
    Ace,
}

/// The four suits; no inherent ordering, used only for flush detection.
#[derive(Clone, Copy, Debug, PartialEq, Eq, Structural)]
pub enum Suit {
    Hearts,
    Diamonds,
    Clubs,
    Spades,
}

/// An immutable playing card: a (rank, suit) pair.
#[derive(Clone, Copy, Debug, PartialEq, Eq, Structural)]
pub struct Card {
    pub rank: Rank,
    pub suit: Suit,
}

/// Numeric strength of a rank: Two = 2 ... Ten = 10, Jack = 11,
/// Queen = 12, King = 13, Ace = 14 (Ace may also act as 1 in the
/// wheel straight, handled by the hand evaluator).
pub open spec fn rank_value_spec(r: Rank) -> int {
    match r {
        Rank::Two => 2,
        Rank::Three => 3,
        Rank::Four => 4,
        Rank::Five => 5,
        Rank::Six => 6,
        Rank::Seven => 7,
        Rank::Eight => 8,
        Rank::Nine => 9,
        Rank::Ten => 10,
        Rank::Jack => 11,
        Rank::Queen => 12,
        Rank::King => 13,
        Rank::Ace => 14,
    }
}

/// Rank at a given index of the canonical rank order, index 0 = Two ... 12 = Ace.
pub open spec fn rank_of_index_spec(i: int) -> Rank {
    if i == 0 {
        Rank::Two
    } else if i == 1 {
        Rank::Three
    } else if i == 2 {
        Rank::Four
    } else if i == 3 {
        Rank::Five
    } else if i == 4 {
        Rank::Six
    } else if i == 5 {
        Rank::Seven
    } else if i == 6 {
        Rank::Eight
    } else if i == 7 {
        Rank::Nine
    } else if i == 8 {
        Rank::Ten
    } else if i == 9 {
        Rank::Jack
    } else if i == 10 {
        Rank::Queen
    } else if i == 11 {
        Rank::King
    } else {
        Rank::Ace
    }
}

/// Suit at a given index of the canonical suit order,
/// index 0 = Hearts, 1 = Diamonds, 2 = Clubs, 3 = Spades.
pub open spec fn suit_of_index_spec(i: int) -> Suit {
    if i == 0 {
        Suit::Hearts
    } else if i == 1 {
        Suit::Diamonds
    } else if i == 2 {
        Suit::Clubs
    } else {
        Suit::Spades
    }
}

/// Index of a rank in the canonical rank order: the inverse of
/// `rank_of_index_spec`.
pub open spec fn rank_index_spec(r: Rank) -> int {
    rank_value_spec(r) - 2
}

/// Index of a suit in the canonical suit order: the inverse of
/// `suit_of_index_spec`.
pub open spec fn suit_index_spec(s: Suit) -> int {
    match s {
        Suit::Hearts => 0,
        Suit::Diamonds => 1,
        Suit::Clubs => 2,
        Suit::Spades => 3,
    }
}

/// Numeric strength of a rank, as executable code.
pub fn rank_value(r: Rank) -> (v: u8)
    ensures
        v as int == rank_value_spec(r),
        2 <= v <= 14,
{
    match r {
        Rank::Two => 2,
        Rank::Three => 3,
        Rank::Four => 4,
        Rank::Five => 5,
        Rank::Six => 6,
        Rank::Seven => 7,
        Rank::Eight => 8,
        Rank::Nine => 9,
        Rank::Ten => 10,
        Rank::Jack => 11,
        Rank::Queen => 12,
        Rank::King => 13,
        Rank::Ace => 14,
    }
}

/// Rank at a given index of the canonical rank order.
pub fn rank_of_index(i: u8) -> (r: Rank)
    requires
        i < 13,
    ensures
        r == rank_of_index_spec(i as int),
{
    if i == 0 {
        Rank::Two
    } else if i == 1 {
        Rank::Three
    } else if i == 2 {
        Rank::Four
    } else if i == 3 {
        Rank::Five
    } else if i == 4 {
        Rank::Six
    } else if i == 5 {
        Rank::Seven
    } else if i == 6 {
        Rank::Eight
    } else if i == 7 {
        Rank::Nine
    } else if i == 8 {
        Rank::Ten
    } else if i == 9 {
        Rank::Jack
    } else if i == 10 {
        Rank::Queen
    } else if i == 11 {
        Rank::King
    } else {
        Rank::Ace
    }
}

/// Suit at a given index of the canonical suit order.
pub fn suit_of_index(i: u8) -> (s: Suit)
    requires
        i < 4,
    ensures
        s == suit_of_index_spec(i as int),
{
    if i == 0 {
        Suit::Hearts
    } else if i == 1 {
        Suit::Diamonds
    } else if i == 2 {
        Suit::Clubs
    } else {
        Suit::Spades
    }
}

/// Index of a suit in the canonical suit order, as executable code.
pub fn suit_index(s: Suit) -> (i: u8)
    ensures
        i as int == suit_index_spec(s),
        i < 4,
{
    match s {
        Suit::Hearts => 0,
        Suit::Diamonds => 1,
        Suit::Clubs => 2,
        Suit::Spades => 3,
    }
}

/// Distinct rank indices name distinct ranks.
pub proof fn lemma_rank_of_index_injective(i: int, j: int)
    requires
        0 <= i < 13,
        0 <= j < 13,
        i != j,
    ensures
        rank_of_index_spec(i) != rank_of_index_spec(j),
{
}

/// Distinct suit indices name distinct suits.
pub proof fn lemma_suit_of_index_injective(i: int, j: int)
    requires
        0 <= i < 4,
        0 <= j < 4,
        i != j,
    ensures
        suit_of_index_spec(i) != suit_of_index_spec(j),
{
}

} // verus!
