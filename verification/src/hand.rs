use vstd::prelude::*;

use crate::cards::Card;
use crate::cards::Suit;
use crate::cards::rank_value;
use crate::cards::rank_value_spec;
use crate::cards::suit_index;

verus! {

/// The ten poker hand categories, weakest first; two hands compare by
/// category first, then by their tie-break keys.
#[derive(Clone, Copy, Debug, PartialEq, Eq, Structural, PartialOrd, Ord)]
pub enum PokerHand {
    HighCard,
    OnePair,
    TwoPair,
    ThreeOfAKind,
    Straight,
    Flush,
    FullHouse,
    FourOfAKind,
    StraightFlush,
    RoyalFlush,
}

/// Failure modes of hand evaluation.
#[derive(Clone, Copy, Debug, PartialEq, Eq, Structural)]
pub enum EvalError {
    /// Fewer than five cards were offered.
    InvalidHandSize,
}

/// A fully evaluated hand: its category and a five-slot tie-break key.
/// For straights (flush or not) the key is the straight's high rank
/// followed by zeros; for every other category it is the five chosen
/// ranks ordered by rank-multiplicity first (descending) and rank second
/// (descending), so that a lexicographic comparison of equal categories
/// picks the winner.
#[derive(Clone, Copy, Debug, PartialEq, Eq, Structural)]
pub struct HandValue {
    pub cat: PokerHand,
    pub k0: u8,
    pub k1: u8,
    pub k2: u8,
    pub k3: u8,
    pub k4: u8,
}

/// Numeric strength of a category.
pub open spec fn cat_value_spec(h: PokerHand) -> int {
    match h {
        PokerHand::HighCard => 0,
        PokerHand::OnePair => 1,
        PokerHand::TwoPair => 2,
        PokerHand::ThreeOfAKind => 3,
        PokerHand::Straight => 4,
        PokerHand::Flush => 5,
        PokerHand::FullHouse => 6,
        PokerHand::FourOfAKind => 7,
        PokerHand::StraightFlush => 8,
        PokerHand::RoyalFlush => 9,
    }
}

/// How many cards of the hand have the given rank value.
pub open spec fn count_rank(s: Seq<Card>, r: int) -> int {
    s.filter(|c: Card| rank_value_spec(c.rank) == r).len() as int
}

/// How many cards of the hand have the given suit.
pub open spec fn count_suit(s: Seq<Card>, su: Suit) -> int {
    s.filter(|c: Card| c.suit == su).len() as int
}

/// All five cards share one suit.
pub open spec fn is_flush(s: Seq<Card>) -> bool {
    count_suit(s, Suit::Hearts) == 5 || count_suit(s, Suit::Diamonds) == 5 || count_suit(
        s,
        Suit::Clubs,
    ) == 5 || count_suit(s, Suit::Spades) == 5
}

/// The hand is exactly the five consecutive ranks ending at `h`.
pub open spec fn straight_at(s: Seq<Card>, h: int) -> bool {
    forall|r: int| h - 4 <= r <= h ==> count_rank(s, r) == 1
}

/// The wheel: Ace playing low under 2-3-4-5.
pub open spec fn is_wheel(s: Seq<Card>) -> bool {
    count_rank(s, 14) == 1 && count_rank(s, 5) == 1 && count_rank(s, 4) == 1 && count_rank(s, 3)
        == 1 && count_rank(s, 2) == 1
}

/// High rank of the best straight ending at or below `h`; the wheel
/// counts as a five-high straight; 0 when there is no straight.
pub open spec fn straight_high_from(s: Seq<Card>, h: int) -> int
    decreases h,
{
    if h < 6 {
        if is_wheel(s) {
            5
        } else {
            0
        }
    } else if straight_at(s, h) {
        h
    } else {
        straight_high_from(s, h - 1)
    }
}

/// High rank of the hand's straight, or 0 if it has none.
pub open spec fn straight_high(s: Seq<Card>) -> int {
    straight_high_from(s, 14)
}

/// How many distinct rank values below `below` occur exactly `c` times in
/// the hand.
pub open spec fn num_with_count(s: Seq<Card>, c: int, below: int) -> int
    decreases below,
{
    if below <= 2 {
        0
    } else {
        num_with_count(s, c, below - 1) + (if count_rank(s, below - 1) == c {
            1int
        } else {
            0int
        })
    }
}

/// The largest rank value below `below` that occurs exactly `c` times in
/// the hand, or 0 if none does.
pub open spec fn best_rank(s: Seq<Card>, c: int, below: int) -> int
    decreases below,
{
    if below <= 2 {
        0
    } else if count_rank(s, below - 1) == c {
        below - 1
    } else {
        best_rank(s, c, below - 1)
    }
}

/// The category of a five-card hand. Straights that are also flushes come
/// first (ten-to-Ace being royal), then the rank-multiplicity categories,
/// then plain flushes and straights.
pub open spec fn spec_category(s: Seq<Card>) -> PokerHand {
    let fl = is_flush(s);
    let sh = straight_high(s);
    let n4 = num_with_count(s, 4, 15);
    let n3 = num_with_count(s, 3, 15);
    let n2 = num_with_count(s, 2, 15);
    if fl && sh > 0 {
        if sh == 14 {
            PokerHand::RoyalFlush
        } else {
            PokerHand::StraightFlush
        }
    } else if n4 > 0 {
        PokerHand::FourOfAKind
    } else if n3 > 0 && n2 > 0 {
        PokerHand::FullHouse
    } else if fl {
        PokerHand::Flush
    } else if sh > 0 {
        PokerHand::Straight
    } else if n3 > 0 {
        PokerHand::ThreeOfAKind
    } else if n2 >= 2 {
        PokerHand::TwoPair
    } else if n2 == 1 {
        PokerHand::OnePair
    } else {
        PokerHand::HighCard
    }
}

/// The tie-break key of a five-card hand, as five rank values: the
/// straight's high rank padded with zeros, or the five ranks ordered by
/// multiplicity-group (descending) then rank (descending).
pub open spec fn spec_key(s: Seq<Card>) -> Seq<int> {
    let cat = spec_category(s);
    if cat == PokerHand::RoyalFlush || cat == PokerHand::StraightFlush || cat
        == PokerHand::Straight {
        seq![straight_high(s), 0, 0, 0, 0]
    } else if cat == PokerHand::FourOfAKind {
        let q = best_rank(s, 4, 15);
        seq![q, q, q, q, best_rank(s, 1, 15)]
    } else if cat == PokerHand::FullHouse {
        let t = best_rank(s, 3, 15);
        let p = best_rank(s, 2, 15);
        seq![t, t, t, p, p]
    } else if cat == PokerHand::ThreeOfAKind {
        let t = best_rank(s, 3, 15);
        let k1 = best_rank(s, 1, 15);
        let k2 = best_rank(s, 1, k1);
        seq![t, t, t, k1, k2]
    } else if cat == PokerHand::TwoPair {
        let p1 = best_rank(s, 2, 15);
        let p2 = best_rank(s, 2, p1);
        seq![p1, p1, p2, p2, best_rank(s, 1, 15)]
    } else if cat == PokerHand::OnePair {
        let p = best_rank(s, 2, 15);
        let k1 = best_rank(s, 1, 15);
        let k2 = best_rank(s, 1, k1);
        let k3 = best_rank(s, 1, k2);
        seq![p, p, k1, k2, k3]
    } else {
        let k1 = best_rank(s, 1, 15);
        let k2 = best_rank(s, 1, k1);
        let k3 = best_rank(s, 1, k2);
        let k4 = best_rank(s, 1, k3);
        seq![k1, k2, k3, k4, best_rank(s, 1, k4)]
    }
}

/// A hand value's key as a mathematical sequence.
pub open spec fn key_seq(v: HandValue) -> Seq<int> {
    seq![v.k0 as int, v.k1 as int, v.k2 as int, v.k3 as int, v.k4 as int]
}

/// Category strength followed by the key: everything a comparison needs.
pub open spec fn value_tuple(v: HandValue) -> Seq<int> {
    seq![cat_value_spec(v.cat)] + key_seq(v)
}

/// The tuple a five-card hand evaluates to.
pub open spec fn hand_tuple(s: Seq<Card>) -> Seq<int> {
    seq![cat_value_spec(spec_category(s))] + spec_key(s)
}

/// Lexicographic order on six-entry tuples: category first, then the key
/// slots in order; equal tuples mean a true tie.
pub open spec fn tuple_le(a: Seq<int>, b: Seq<int>) -> bool {
    a[0] < b[0] || (a[0] == b[0] && (a[1] < b[1] || (a[1] == b[1] && (a[2] < b[2] || (a[2] == b[2]
        && (a[3] < b[3] || (a[3] == b[3] && (a[4] < b[4] || (a[4] == b[4] && a[5] <= b[5])))))))))
}

/// `v` is the evaluation of the five-card hand `s`.
pub open spec fn is_hand_value(s: Seq<Card>, v: HandValue) -> bool {
    v.cat == spec_category(s) && key_seq(v) == spec_key(s)
}

/// The per-rank counts table matches the hand.
pub open spec fn counts_match(counts: Seq<u8>, s: Seq<Card>) -> bool {
    counts.len() == 15 && (forall|r: int| 0 <= r < 15 ==> counts[r] as int == count_rank(s, r))
}

/// The per-suit counts table matches the hand.
pub open spec fn suit_counts_match(sc: Seq<u8>, s: Seq<Card>) -> bool {
    sc.len() == 4 && sc[0] as int == count_suit(s, Suit::Hearts) && sc[1] as int == count_suit(
        s,
        Suit::Diamonds,
    ) && sc[2] as int == count_suit(s, Suit::Clubs) && sc[3] as int == count_suit(s, Suit::Spades)
}

/// Appending one element extends a filtered sequence by that element
/// exactly when it satisfies the predicate.
pub proof fn lemma_filter_push<A>(s: Seq<A>, x: A, p: spec_fn(A) -> bool)
    ensures
        s.push(x).filter(p) == (if p(x) {
            s.filter(p).push(x)
        } else {
            s.filter(p)
        }),
{
    reveal(Seq::filter);
    assert(s.push(x).drop_last() =~= s);
    assert(s.push(x).last() == x);
}

/// Filtering the empty sequence leaves nothing.
pub proof fn lemma_filter_empty<A>(p: spec_fn(A) -> bool)
    ensures
        Seq::<A>::empty().filter(p).len() == 0,
{
    reveal(Seq::filter);
}

/// Numeric strength of a category, as executable code.
pub fn cat_value(h: PokerHand) -> (v: u8)
    ensures
        v as int == cat_value_spec(h),
{
    match h {
        PokerHand::HighCard => 0,
        PokerHand::OnePair => 1,
        PokerHand::TwoPair => 2,
        PokerHand::ThreeOfAKind => 3,
        PokerHand::Straight => 4,
        PokerHand::Flush => 5,
        PokerHand::FullHouse => 6,
        PokerHand::FourOfAKind => 7,
        PokerHand::StraightFlush => 8,
        PokerHand::RoyalFlush => 9,
    }
}

/// Does `a` rank at or below `b`? Category first, then the key slots.
pub fn hand_le(a: &HandValue, b: &HandValue) -> (r: bool)
    ensures
        r == tuple_le(value_tuple(*a), value_tuple(*b)),
{
    let ca = cat_value(a.cat);
    let cb = cat_value(b.cat);
    if ca != cb {
        ca < cb
    } else if a.k0 != b.k0 {
        a.k0 < b.k0
    } else if a.k1 != b.k1 {
        a.k1 < b.k1
    } else if a.k2 != b.k2 {
        a.k2 < b.k2
    } else if a.k3 != b.k3 {
        a.k3 < b.k3
    } else {
        a.k4 <= b.k4
    }
}

/// The hand is exactly the five consecutive ranks ending at `h`, read off
/// the counts table.
fn is_straight_at_exec(counts: &Vec<u8>, h: u8, Ghost(s): Ghost<Seq<Card>>) -> (b: bool)
    requires
        counts_match(counts@, s),
        6 <= h <= 14,
    ensures
        b == straight_at(s, h as int),
{
    let b = counts[h as usize] == 1 && counts[h as usize - 1] == 1 && counts[h as usize - 2] == 1
        && counts[h as usize - 3] == 1 && counts[h as usize - 4] == 1;
    proof {
        if b {
            assert forall|r: int| h - 4 <= r <= h implies count_rank(s, r) == 1 by {
                assert(counts@[r] as int == count_rank(s, r));
            }
        } else {
            if counts@[h as int] as int != 1 {
                assert(count_rank(s, h as int) != 1);
            } else if counts@[h as int - 1] as int != 1 {
                assert(count_rank(s, h as int - 1) != 1);
            } else if counts@[h as int - 2] as int != 1 {
                assert(count_rank(s, h as int - 2) != 1);
            } else if counts@[h as int - 3] as int != 1 {
                assert(count_rank(s, h as int - 3) != 1);
            } else {
                assert(count_rank(s, h as int - 4) != 1);
            }
        }
    }
    b
}

/// High rank of the best straight ending at or below `h`, read off the
/// counts table.
fn straight_high_from_exec(counts: &Vec<u8>, h: u8, Ghost(s): Ghost<Seq<Card>>) -> (r: u8)
    requires
        counts_match(counts@, s),
        h <= 14,
    ensures
        r as int == straight_high_from(s, h as int),
    decreases h,
{
    if h < 6 {
        if counts[14] == 1 && counts[5] == 1 && counts[4] == 1 && counts[3] == 1 && counts[2]
            == 1 {
            5
        } else {
            0
        }
    } else if is_straight_at_exec(counts, h, Ghost(s)) {
        h
    } else {
        straight_high_from_exec(counts, h - 1, Ghost(s))
    }
}

/// How many distinct rank values below `below` occur exactly `c` times,
/// read off the counts table.
fn num_with_count_exec(counts: &Vec<u8>, c: u8, below: u8, Ghost(s): Ghost<Seq<Card>>) -> (n: u8)
    requires
        counts_match(counts@, s),
        below <= 15,
    ensures
        n as int == num_with_count(s, c as int, below as int),
        n <= below,
    decreases below,
{
    if below <= 2 {
        0
    } else {
        let rest = num_with_count_exec(counts, c, below - 1, Ghost(s));
        if counts[below as usize - 1] == c {
            rest + 1
        } else {
            rest
        }
    }
}

/// The largest rank value below `below` occurring exactly `c` times, read
/// off the counts table.
fn best_rank_exec(counts: &Vec<u8>, c: u8, below: u8, Ghost(s): Ghost<Seq<Card>>) -> (r: u8)
    requires
        counts_match(counts@, s),
        below <= 15,
    ensures
        r as int == best_rank(s, c as int, below as int),
        r < 15,
    decreases below,
{
    if below <= 2 {
        0
    } else if counts[below as usize - 1] == c {
        below - 1
    } else {
        best_rank_exec(counts, c, below - 1, Ghost(s))
    }
}

/// Evaluate exactly five cards: their category and tie-break key.
pub fn eval_five(cards: &Vec<Card>) -> (v: HandValue)
    requires
        cards@.len() == 5,
    ensures
        is_hand_value(cards@, v),
{
    let ghost s = cards@;
    let mut counts: Vec<u8> = Vec::new();
    let mut z: usize = 0;
    while z < 15
        invariant
            z <= 15,
            counts@.len() == z,
            forall|k: int| 0 <= k < z ==> counts@[k] == 0u8,
        decreases 15 - z,
    {
        counts.push(0);
        z = z + 1;
    }
    let mut scount: Vec<u8> = Vec::new();
    let mut z2: usize = 0;
    while z2 < 4
        invariant
            z2 <= 4,
            scount@.len() == z2,
            forall|k: int| 0 <= k < z2 ==> scount@[k] == 0u8,
        decreases 4 - z2,
    {
        scount.push(0);
        z2 = z2 + 1;
    }
    proof {
        assert(s.take(0) =~= Seq::<Card>::empty());
        assert forall|r: int| 0 <= r < 15 implies counts@[r] as int == count_rank(s.take(0), r) by {
            lemma_filter_empty(|c: Card| rank_value_spec(c.rank) == r);
        }
        lemma_filter_empty(|c: Card| c.suit == Suit::Hearts);
        lemma_filter_empty(|c: Card| c.suit == Suit::Diamonds);
        lemma_filter_empty(|c: Card| c.suit == Suit::Clubs);
        lemma_filter_empty(|c: Card| c.suit == Suit::Spades);
    }
    let mut i: usize = 0;
    while i < 5
        invariant
            i <= 5,
            cards@ == s,
            s.len() == 5,
            counts@.len() == 15,
            scount@.len() == 4,
            counts_match(counts@, s.take(i as int)),
            suit_counts_match(scount@, s.take(i as int)),
            forall|r: int| 0 <= r < 15 ==> counts@[r] <= i as u8,
            forall|k: int| 0 <= k < 4 ==> scount@[k] <= i as u8,
        decreases 5 - i,
    {
        let c = cards[i];
        let rv = rank_value(c.rank);
        let old_rc = counts[rv as usize];
        counts.set(rv as usize, old_rc + 1);
        let si = suit_index(c.suit);
        let old_sc = scount[si as usize];
        scount.set(si as usize, old_sc + 1);
        proof {
            assert(s.take(i + 1) =~= s.take(i as int).push(c));
            assert forall|r: int| 0 <= r < 15 implies counts@[r] as int == count_rank(
                s.take(i + 1),
                r,
            ) by {
                lemma_filter_push(s.take(i as int), c, |cc: Card| rank_value_spec(cc.rank) == r);
            }
            lemma_filter_push(s.take(i as int), c, |cc: Card| cc.suit == Suit::Hearts);
            lemma_filter_push(s.take(i as int), c, |cc: Card| cc.suit == Suit::Diamonds);
            lemma_filter_push(s.take(i as int), c, |cc: Card| cc.suit == Suit::Clubs);
            lemma_filter_push(s.take(i as int), c, |cc: Card| cc.suit == Suit::Spades);
        }
        i = i + 1;
    }
    proof {
        assert(s.take(5) =~= s);
    }
    let fl: bool = scount[0] == 5 || scount[1] == 5 || scount[2] == 5 || scount[3] == 5;
    let sh = straight_high_from_exec(&counts, 14, Ghost(s));
    let n4 = num_with_count_exec(&counts, 4, 15, Ghost(s));
    let n3 = num_with_count_exec(&counts, 3, 15, Ghost(s));
    let n2 = num_with_count_exec(&counts, 2, 15, Ghost(s));
    proof {
        assert(fl == is_flush(s));
    }
    let cat: PokerHand = if fl && sh > 0 {
        if sh == 14 {
            PokerHand::RoyalFlush
        } else {
            PokerHand::StraightFlush
        }
    } else if n4 > 0 {
        PokerHand::FourOfAKind
    } else if n3 > 0 && n2 > 0 {
        PokerHand::FullHouse
    } else if fl {
        PokerHand::Flush
    } else if sh > 0 {
        PokerHand::Straight
    } else if n3 > 0 {
        PokerHand::ThreeOfAKind
    } else if n2 >= 2 {
        PokerHand::TwoPair
    } else if n2 == 1 {
        PokerHand::OnePair
    } else {
        PokerHand::HighCard
    };
    proof {
        assert(cat == spec_category(s));
    }
    let v: HandValue = if matches!(cat, PokerHand::RoyalFlush) || matches!(
        cat,
        PokerHand::StraightFlush,
    ) || matches!(cat, PokerHand::Straight) {
        HandValue { cat, k0: sh, k1: 0, k2: 0, k3: 0, k4: 0 }
    } else if matches!(cat, PokerHand::FourOfAKind) {
        let q = best_rank_exec(&counts, 4, 15, Ghost(s));
        let k = best_rank_exec(&counts, 1, 15, Ghost(s));
        HandValue { cat, k0: q, k1: q, k2: q, k3: q, k4: k }
    } else if matches!(cat, PokerHand::FullHouse) {
        let t = best_rank_exec(&counts, 3, 15, Ghost(s));
        let p = best_rank_exec(&counts, 2, 15, Ghost(s));
        HandValue { cat, k0: t, k1: t, k2: t, k3: p, k4: p }
    } else if matches!(cat, PokerHand::ThreeOfAKind) {
        let t = best_rank_exec(&counts, 3, 15, Ghost(s));
        let k1 = best_rank_exec(&counts, 1, 15, Ghost(s));
        let k2 = best_rank_exec(&counts, 1, k1, Ghost(s));
        HandValue { cat, k0: t, k1: t, k2: t, k3: k1, k4: k2 }
    } else if matches!(cat, PokerHand::TwoPair) {
        let p1 = best_rank_exec(&counts, 2, 15, Ghost(s));
        let p2 = best_rank_exec(&counts, 2, p1, Ghost(s));
        let k = best_rank_exec(&counts, 1, 15, Ghost(s));
        HandValue { cat, k0: p1, k1: p1, k2: p2, k3: p2, k4: k }
    } else if matches!(cat, PokerHand::OnePair) {
        let p = best_rank_exec(&counts, 2, 15, Ghost(s));
        let k1 = best_rank_exec(&counts, 1, 15, Ghost(s));
        let k2 = best_rank_exec(&counts, 1, k1, Ghost(s));
        let k3 = best_rank_exec(&counts, 1, k2, Ghost(s));
        HandValue { cat, k0: p, k1: p, k2: k1, k3: k2, k4: k3 }
    } else {
        let k1 = best_rank_exec(&counts, 1, 15, Ghost(s));
        let k2 = best_rank_exec(&counts, 1, k1, Ghost(s));
        let k3 = best_rank_exec(&counts, 1, k2, Ghost(s));
        let k4 = best_rank_exec(&counts, 1, k3, Ghost(s));
        let k5 = best_rank_exec(&counts, 1, k4, Ghost(s));
        HandValue { cat, k0: k1, k1: k2, k2: k3, k3: k4, k4: k5 }
    };
    proof {
        assert(key_seq(v) =~= spec_key(s));
    }
    v
}

/// Five strictly increasing indices into a hand of `n` cards.
pub open spec fn valid_choice(a: int, b: int, c: int, d: int, e: int, n: int) -> bool {
    0 <= a && a < b && b < c && c < d && d < e && e < n
}

/// The five cards a choice of indices picks, in order.
pub open spec fn pick5(s: Seq<Card>, a: int, b: int, c: int, d: int, e: int) -> Seq<Card> {
    seq![s[a], s[b], s[c], s[d], s[e]]
}

/// The choice (a, b, c, d, e) comes strictly before (j0, j1, j2, j3, j4)
/// in the order the subset scan visits choices.
pub open spec fn choice_before(
    a: int,
    b: int,
    c: int,
    d: int,
    e: int,
    j0: int,
    j1: int,
    j2: int,
    j3: int,
    j4: int,
) -> bool {
    a < j0 || (a == j0 && (b < j1 || (b == j1 && (c < j2 || (c == j2 && (d < j3 || (d == j3 && e
        < j4)))))))
}

/// `v` is the best hand any five of the cards can make: some choice of
/// five evaluates to it, and no choice evaluates above it.
pub open spec fn best_of(s: Seq<Card>, v: HandValue) -> bool {
    (exists|a: int, b: int, c: int, d: int, e: int|
        valid_choice(a, b, c, d, e, s.len() as int) && value_tuple(v) == hand_tuple(
            #[trigger] pick5(s, a, b, c, d, e),
        )) && (forall|a: int, b: int, c: int, d: int, e: int|
        valid_choice(a, b, c, d, e, s.len() as int) ==> tuple_le(
            hand_tuple(#[trigger] pick5(s, a, b, c, d, e)),
            value_tuple(v),
        ))
}

/// Evaluate the five cards a choice of indices picks.
fn eval_pick(cards: &Vec<Card>, a: usize, b: usize, c: usize, d: usize, e: usize) -> (v: HandValue)
    requires
        valid_choice(a as int, b as int, c as int, d as int, e as int, cards@.len() as int),
    ensures
        value_tuple(v) == hand_tuple(pick5(cards@, a as int, b as int, c as int, d as int, e as int)),
{
    let mut sub: Vec<Card> = Vec::new();
    sub.push(cards[a]);
    sub.push(cards[b]);
    sub.push(cards[c]);
    sub.push(cards[d]);
    sub.push(cards[e]);
    proof {
        assert(sub@ =~= pick5(cards@, a as int, b as int, c as int, d as int, e as int));
    }
    let v = eval_five(&sub);
    proof {
        assert(value_tuple(v) =~= hand_tuple(sub@));
    }
    v
}

/// Evaluate a hand of five or more cards: the best category any five of
/// them can make, with its tie-break key. Fewer than five cards fail fast
/// with `InvalidHandSize`. The scan visits every five-card choice, so the
/// result does not depend on the order the cards come in.
pub fn evaluate(cards: &Vec<Card>) -> (r: Result<HandValue, EvalError>)
    ensures
        cards@.len() < 5 ==> r == Err::<HandValue, EvalError>(EvalError::InvalidHandSize),
        cards@.len() >= 5 ==> (r matches Ok(v) && best_of(cards@, v)),
{
    let n = cards.len();
    if n < 5 {
        return Err(EvalError::InvalidHandSize);
    }
    let ghost s = cards@;
    let mut best = eval_pick(cards, 0, 1, 2, 3, 4);
    let mut i0: usize = 0;
    while i0 + 4 < n
        invariant
            n == s.len(),
            cards@ == s,
            5 <= n,
            i0 <= n - 4,
            exists|a: int, b: int, c: int, d: int, e: int|
                valid_choice(a, b, c, d, e, n as int) && value_tuple(best) == hand_tuple(
                    #[trigger] pick5(s, a, b, c, d, e),
                ),
            forall|a: int, b: int, c: int, d: int, e: int|
                valid_choice(a, b, c, d, e, n as int) && choice_before(
                    a,
                    b,
                    c,
                    d,
                    e,
                    i0 as int,
                    0,
                    0,
                    0,
                    0,
                ) ==> tuple_le(hand_tuple(#[trigger] pick5(s, a, b, c, d, e)), value_tuple(best)),
        decreases n - i0,
    {
        let mut i1: usize = i0 + 1;
        while i1 + 3 < n
            invariant
                n == s.len(),
                cards@ == s,
                5 <= n,
                i0 + 4 < n,
                i0 < i1 <= n - 3,
                exists|a: int, b: int, c: int, d: int, e: int|
                    valid_choice(a, b, c, d, e, n as int) && value_tuple(best) == hand_tuple(
                        #[trigger] pick5(s, a, b, c, d, e),
                    ),
                forall|a: int, b: int, c: int, d: int, e: int|
                    valid_choice(a, b, c, d, e, n as int) && choice_before(
                        a,
                        b,
                        c,
                        d,
                        e,
                        i0 as int,
                        i1 as int,
                        0,
                        0,
                        0,
                    ) ==> tuple_le(
                        hand_tuple(#[trigger] pick5(s, a, b, c, d, e)),
                        value_tuple(best),
                    ),
            decreases n - i1,
        {
            let mut i2: usize = i1 + 1;
            while i2 + 2 < n
                invariant
                    n == s.len(),
                    cards@ == s,
                    5 <= n,
                    i0 < i1,
                    i1 + 3 < n,
                    i1 < i2 <= n - 2,
                    exists|a: int, b: int, c: int, d: int, e: int|
                        valid_choice(a, b, c, d, e, n as int) && value_tuple(best) == hand_tuple(
                            #[trigger] pick5(s, a, b, c, d, e),
                        ),
                    forall|a: int, b: int, c: int, d: int, e: int|
                        valid_choice(a, b, c, d, e, n as int) && choice_before(
                            a,
                            b,
                            c,
                            d,
                            e,
                            i0 as int,
                            i1 as int,
                            i2 as int,
                            0,
                            0,
                        ) ==> tuple_le(
                            hand_tuple(#[trigger] pick5(s, a, b, c, d, e)),
                            value_tuple(best),
                        ),
                decreases n - i2,
            {
                let mut i3: usize = i2 + 1;
                while i3 + 1 < n
                    invariant
                        n == s.len(),
                        cards@ == s,
                        5 <= n,
                        i0 < i1,
                        i1 < i2,
                        i2 + 2 < n,
                        i2 < i3 <= n - 1,
                        exists|a: int, b: int, c: int, d: int, e: int|
                            valid_choice(a, b, c, d, e, n as int) && value_tuple(best)
                                == hand_tuple(#[trigger] pick5(s, a, b, c, d, e)),
                        forall|a: int, b: int, c: int, d: int, e: int|
                            valid_choice(a, b, c, d, e, n as int) && choice_before(
                                a,
                                b,
                                c,
                                d,
                                e,
                                i0 as int,
                                i1 as int,
                                i2 as int,
                                i3 as int,
                                0,
                            ) ==> tuple_le(
                                hand_tuple(#[trigger] pick5(s, a, b, c, d, e)),
                                value_tuple(best),
                            ),
                    decreases n - i3,
                {
                    let mut i4: usize = i3 + 1;
                    while i4 < n
                        invariant
                            n == s.len(),
                            cards@ == s,
                            5 <= n,
                            i0 < i1,
                            i1 < i2,
                            i2 < i3,
                            i3 + 1 < n,
                            i3 < i4 <= n,
                            exists|a: int, b: int, c: int, d: int, e: int|
                                valid_choice(a, b, c, d, e, n as int) && value_tuple(best)
                                    == hand_tuple(#[trigger] pick5(s, a, b, c, d, e)),
                            forall|a: int, b: int, c: int, d: int, e: int|
                                valid_choice(a, b, c, d, e, n as int) && choice_before(
                                    a,
                                    b,
                                    c,
                                    d,
                                    e,
                                    i0 as int,
                                    i1 as int,
                                    i2 as int,
                                    i3 as int,
                                    i4 as int,
                                ) ==> tuple_le(
                                    hand_tuple(#[trigger] pick5(s, a, b, c, d, e)),
                                    value_tuple(best),
                                ),
                        decreases n - i4,
                    {
                        let v = eval_pick(cards, i0, i1, i2, i3, i4);
                        if !hand_le(&v, &best) {
                            best = v;
                        }
                        proof {
                            assert forall|a: int, b: int, c: int, d: int, e: int|
                                valid_choice(a, b, c, d, e, n as int) && choice_before(
                                    a,
                                    b,
                                    c,
                                    d,
                                    e,
                                    i0 as int,
                                    i1 as int,
                                    i2 as int,
                                    i3 as int,
                                    i4 as int + 1,
                                ) implies tuple_le(
                                hand_tuple(#[trigger] pick5(s, a, b, c, d, e)),
                                value_tuple(best),
                            ) by {
                                if !choice_before(
                                    a,
                                    b,
                                    c,
                                    d,
                                    e,
                                    i0 as int,
                                    i1 as int,
                                    i2 as int,
                                    i3 as int,
                                    i4 as int,
                                ) {
                                    assert(a == i0 && b == i1 && c == i2 && d == i3 && e == i4);
                                }
                            }
                        }
                        i4 = i4 + 1;
                    }
                    proof {
                        assert forall|a: int, b: int, c: int, d: int, e: int|
                            valid_choice(a, b, c, d, e, n as int) && choice_before(
                                a,
                                b,
                                c,
                                d,
                                e,
                                i0 as int,
                                i1 as int,
                                i2 as int,
                                i3 as int + 1,
                                0,
                            ) implies tuple_le(
                            hand_tuple(#[trigger] pick5(s, a, b, c, d, e)),
                            value_tuple(best),
                        ) by {
                            assert(choice_before(
                                a,
                                b,
                                c,
                                d,
                                e,
                                i0 as int,
                                i1 as int,
                                i2 as int,
                                i3 as int,
                                i4 as int,
                            ));
                        }
                    }
                    i3 = i3 + 1;
                }
                proof {
                    assert forall|a: int, b: int, c: int, d: int, e: int|
                        valid_choice(a, b, c, d, e, n as int) && choice_before(
                            a,
                            b,
                            c,
                            d,
                            e,
                            i0 as int,
                            i1 as int,
                            i2 as int + 1,
                            0,
                            0,
                        ) implies tuple_le(
                        hand_tuple(#[trigger] pick5(s, a, b, c, d, e)),
                        value_tuple(best),
                    ) by {
                        assert(choice_before(
                            a,
                            b,
                            c,
                            d,
                            e,
                            i0 as int,
                            i1 as int,
                            i2 as int,
                            i3 as int,
                            0,
                        ));
                    }
                }
                i2 = i2 + 1;
            }
            proof {
                assert forall|a: int, b: int, c: int, d: int, e: int|
                    valid_choice(a, b, c, d, e, n as int) && choice_before(
                        a,
                        b,
                        c,
                        d,
                        e,
                        i0 as int,
                        i1 as int + 1,
                        0,
                        0,
                        0,
                    ) implies tuple_le(
                    hand_tuple(#[trigger] pick5(s, a, b, c, d, e)),
                    value_tuple(best),
                ) by {
                    assert(choice_before(a, b, c, d, e, i0 as int, i1 as int, i2 as int, 0, 0));
                }
            }
            i1 = i1 + 1;
        }
        proof {
            assert forall|a: int, b: int, c: int, d: int, e: int|
                valid_choice(a, b, c, d, e, n as int) && choice_before(
                    a,
                    b,
                    c,
                    d,
                    e,
                    i0 as int + 1,
                    0,
                    0,
                    0,
                    0,
                ) implies tuple_le(
                hand_tuple(#[trigger] pick5(s, a, b, c, d, e)),
                value_tuple(best),
            ) by {
                assert(choice_before(a, b, c, d, e, i0 as int, i1 as int, 0, 0, 0));
            }
        }
        i0 = i0 + 1;
    }
    proof {
        assert forall|a: int, b: int, c: int, d: int, e: int|
            valid_choice(a, b, c, d, e, n as int) implies tuple_le(
            hand_tuple(#[trigger] pick5(s, a, b, c, d, e)),
            value_tuple(best),
        ) by {
            assert(choice_before(a, b, c, d, e, i0 as int, 0, 0, 0, 0));
        }
    }
    Ok(best)
}

/// With exactly five cards there is only one choice of five, so the best
/// hand is the hand itself: its category and key are the sequence's own.
pub proof fn lemma_best_of_five(s: Seq<Card>, v: HandValue)
    requires
        s.len() == 5,
        best_of(s, v),
    ensures
        value_tuple(v) == hand_tuple(s),
{
    let (a, b, c, d, e) = choose|a: int, b: int, c: int, d: int, e: int|
        valid_choice(a, b, c, d, e, 5) && value_tuple(v) == hand_tuple(
            #[trigger] pick5(s, a, b, c, d, e),
        );
    assert(a == 0 && b == 1 && c == 2 && d == 3 && e == 4);
    assert(pick5(s, 0, 1, 2, 3, 4) =~= s);
}

/// Two sequences holding the same multiset of elements keep the same
/// number of elements under any filter.
pub proof fn lemma_filter_len_perm<A>(s1: Seq<A>, s2: Seq<A>, p: spec_fn(A) -> bool)
    requires
        s1.to_multiset() == s2.to_multiset(),
    ensures
        s1.filter(p).len() == s2.filter(p).len(),
    decreases s1.len(),
{
    broadcast use vstd::seq_lib::group_to_multiset_ensures;

    if s1.len() == 0 {
        assert(s1.to_multiset().len() == s1.len());
        assert(s2.to_multiset().len() == s2.len());
        assert(s2.len() == 0);
        assert(s1.filter(p).len() == 0) by {
            reveal(Seq::filter);
        }
        assert(s2.filter(p).len() == 0) by {
            reveal(Seq::filter);
        }
    } else {
        let x = s1.last();
        assert(s1.contains(x));
        assert(s2.to_multiset().count(x) > 0);
        assert(s2.contains(x));
        let j = choose|j: int| 0 <= j < s2.len() && s2[j] == x;
        assert(s1.remove(s1.len() - 1) =~= s1.drop_last());
        assert(s1.drop_last().to_multiset() =~= s1.to_multiset().remove(x));
        assert(s2.remove(j).to_multiset() =~= s2.to_multiset().remove(x));
        lemma_filter_len_perm(s1.drop_last(), s2.remove(j), p);
        lemma_filter_push(s1.drop_last(), x, p);
        assert(s1.drop_last().push(x) =~= s1);
        let front = s2.subrange(0, j);
        let back = s2.subrange(j, s2.len() as int);
        let tail = s2.subrange(j + 1, s2.len() as int);
        assert(s2 =~= front + back);
        assert(back =~= seq![x] + tail);
        assert(s2.remove(j) =~= front + tail);
        Seq::filter_distributes_over_add(front, back, p);
        Seq::filter_distributes_over_add(seq![x], tail, p);
        Seq::filter_distributes_over_add(front, tail, p);
        assert(seq![x].filter(p).len() == (if p(x) {
            1int
        } else {
            0int
        })) by {
            reveal_with_fuel(Seq::filter, 2);
            assert(seq![x].drop_last() =~= Seq::<A>::empty());
            assert(seq![x].last() == x);
        }
    }
}

/// Same multiset of cards, same per-rank and per-suit counts.
pub proof fn lemma_counts_perm(s1: Seq<Card>, s2: Seq<Card>)
    requires
        s1.to_multiset() == s2.to_multiset(),
    ensures
        forall|r: int| #[trigger] count_rank(s1, r) == count_rank(s2, r),
        forall|r: int| #[trigger] count_rank(s2, r) == count_rank(s1, r),
        forall|su: Suit| #[trigger] count_suit(s1, su) == count_suit(s2, su),
        forall|su: Suit| #[trigger] count_suit(s2, su) == count_suit(s1, su),
{
    assert forall|r: int| #[trigger] count_rank(s1, r) == count_rank(s2, r) by {
        lemma_filter_len_perm(s1, s2, |c: Card| rank_value_spec(c.rank) == r);
    }
    assert forall|su: Suit| #[trigger] count_suit(s1, su) == count_suit(s2, su) by {
        lemma_filter_len_perm(s1, s2, |c: Card| c.suit == su);
    }
}

/// Equal per-rank counts decide straights alike.
proof fn lemma_straight_at_perm(s1: Seq<Card>, s2: Seq<Card>, h: int)
    requires
        forall|r: int| #[trigger] count_rank(s1, r) == count_rank(s2, r),
    ensures
        straight_at(s1, h) == straight_at(s2, h),
{
    if straight_at(s1, h) {
        assert forall|r: int| h - 4 <= r <= h implies count_rank(s2, r) == 1 by {
            assert(count_rank(s1, r) == 1);
        }
    }
    if straight_at(s2, h) {
        assert forall|r: int| h - 4 <= r <= h implies count_rank(s1, r) == 1 by {
            assert(count_rank(s2, r) == 1);
        }
    }
}

/// Equal per-rank counts give the same straight high rank.
proof fn lemma_straight_high_perm(s1: Seq<Card>, s2: Seq<Card>, h: int)
    requires
        forall|r: int| #[trigger] count_rank(s1, r) == count_rank(s2, r),
    ensures
        straight_high_from(s1, h) == straight_high_from(s2, h),
    decreases h,
{
    if h >= 6 {
        lemma_straight_at_perm(s1, s2, h);
        lemma_straight_high_perm(s1, s2, h - 1);
    } else {
        assert(count_rank(s1, 14) == count_rank(s2, 14));
        assert(count_rank(s1, 5) == count_rank(s2, 5));
        assert(count_rank(s1, 4) == count_rank(s2, 4));
        assert(count_rank(s1, 3) == count_rank(s2, 3));
        assert(count_rank(s1, 2) == count_rank(s2, 2));
    }
}

/// Equal per-rank counts count multiplicity groups alike.
proof fn lemma_num_with_count_perm(s1: Seq<Card>, s2: Seq<Card>, c: int, below: int)
    requires
        forall|r: int| #[trigger] count_rank(s1, r) == count_rank(s2, r),
    ensures
        num_with_count(s1, c, below) == num_with_count(s2, c, below),
    decreases below,
{
    if below > 2 {
        lemma_num_with_count_perm(s1, s2, c, below - 1);
    }
}

/// Equal per-rank counts pick the same best ranks.
proof fn lemma_best_rank_perm(s1: Seq<Card>, s2: Seq<Card>, c: int, below: int)
    requires
        forall|r: int| #[trigger] count_rank(s1, r) == count_rank(s2, r),
    ensures
        best_rank(s1, c, below) == best_rank(s2, c, below),
    decreases below,
{
    if below > 2 {
        lemma_best_rank_perm(s1, s2, c, below - 1);
    }
}

/// The evaluator is invariant to input ordering: two hands holding the
/// same multiset of cards get the same category, the same tie-break key,
/// and so the same evaluation.
pub proof fn lemma_evaluate_order_invariant(s1: Seq<Card>, s2: Seq<Card>)
    requires
        s1.to_multiset() == s2.to_multiset(),
    ensures
        spec_category(s1) == spec_category(s2),
        spec_key(s1) == spec_key(s2),
        hand_tuple(s1) == hand_tuple(s2),
{
    lemma_counts_perm(s1, s2);
    lemma_straight_high_perm(s1, s2, 14);
    assert forall|c: int, below: int| #[trigger] num_with_count(s1, c, below) == num_with_count(
        s2,
        c,
        below,
    ) by {
        lemma_num_with_count_perm(s1, s2, c, below);
    }
    assert forall|c: int, below: int| #[trigger] best_rank(s1, c, below) == best_rank(
        s2,
        c,
        below,
    ) by {
        lemma_best_rank_perm(s1, s2, c, below);
    }
    assert(spec_category(s1) == spec_category(s2));
    assert(spec_key(s1) =~= spec_key(s2));
    assert(hand_tuple(s1) =~= hand_tuple(s2));
}

} // verus!
