//! The deck, the seeded shuffle, the pre-draw that finds the hokm chooser, and the deal.
//!
//! Table rules of this variant: before the real deal, cards are revealed round-robin
//! to seats 0, 1, 2, 3, 0, ...; the seat that receives the first Ace chooses hokm and
//! the dealer sits right before it. The real deal starts left of the dealer.
use vstd::prelude::*;
use crate::rng::{seed_state, xorshift_step, XorShift64};
use crate::sorting::{sort_cards, sorted_by, CardOrder};
use crate::types::{next_seat, Card, PlayerId, Rank, Suit};

verus! {

/// The k-th suit in deck order: Clubs, Diamonds, Hearts, Spades.
pub open spec fn suit_at(k: int) -> Suit {
    if k == 0 {
        Suit::Clubs
    } else if k == 1 {
        Suit::Diamonds
    } else if k == 2 {
        Suit::Hearts
    } else {
        Suit::Spades
    }
}

/// The k-th rank in deck order, Two (k = 0) up to Ace (k = 12).
pub open spec fn rank_at(k: int) -> Rank {
    if k == 0 {
        Rank::Two
    } else if k == 1 {
        Rank::Three
    } else if k == 2 {
        Rank::Four
    } else if k == 3 {
        Rank::Five
    } else if k == 4 {
        Rank::Six
    } else if k == 5 {
        Rank::Seven
    } else if k == 6 {
        Rank::Eight
    } else if k == 7 {
        Rank::Nine
    } else if k == 8 {
        Rank::Ten
    } else if k == 9 {
        Rank::Jack
    } else if k == 10 {
        Rank::Queen
    } else if k == 11 {
        Rank::King
    } else {
        Rank::Ace
    }
}

/// The ordered 52-card deck: suit by suit, each from Two to Ace.
pub open spec fn standard_deck() -> Seq<Card> {
    Seq::new(52, |i: int| Card { suit: suit_at(i / 13), rank: rank_at(i % 13) })
}

/// `s` with the entries at `i` and `j` exchanged.
pub open spec fn swapped(s: Seq<Card>, i: int, j: int) -> Seq<Card> {
    s.update(i, s[j]).update(j, s[i])
}

/// Fisher-Yates from position `i` down to 1, drawing from the xorshift state `state`:
/// position `i` is exchanged with a position in `0..=i`.
pub open spec fn shuffle_from(s: Seq<Card>, state: u64, i: int) -> Seq<Card>
    decreases i,
{
    if i <= 0 {
        s
    } else {
        let x = xorshift_step(state);
        let j = (x as usize) % ((i + 1) as usize);
        shuffle_from(swapped(s, i, j as int), x, i - 1)
    }
}

/// The deterministic shuffle of `s` for `seed`.
pub open spec fn shuffled(s: Seq<Card>, seed: u64) -> Seq<Card> {
    shuffle_from(s, seed_state(seed), s.len() - 1)
}

/// The deck after the shuffle for `seed`.
pub open spec fn shuffled_deck(seed: u64) -> Seq<Card> {
    shuffled(standard_deck(), seed)
}

/// Position of the first Ace in `d` (meaningful when `d` holds one).
pub open spec fn first_ace(d: Seq<Card>) -> int {
    choose|k: int|
        0 <= k < d.len() && d[k].rank == Rank::Ace && (forall|j: int|
            0 <= j < k ==> d[j].rank != Rank::Ace)
}

/// The seat that receives the first Ace in the pre-draw for `seed`.
pub open spec fn predraw_chooser(seed: u64) -> PlayerId {
    PlayerId((first_ace(shuffled_deck(seed)) % 4) as u8)
}

/// The first Ace revealed in the pre-draw for `seed`.
pub open spec fn predraw_ace(seed: u64) -> Card {
    shuffled_deck(seed)[first_ace(shuffled_deck(seed))]
}

/// The four suits in deck order.
pub fn all_suits() -> (r: [Suit; 4])
    ensures
        forall|k: int| 0 <= k < 4 ==> r@[k] == suit_at(k),
{
    [Suit::Clubs, Suit::Diamonds, Suit::Hearts, Suit::Spades]
}

/// The thirteen ranks in deck order, Two first.
pub fn all_ranks() -> (r: [Rank; 13])
    ensures
        forall|k: int| 0 <= k < 13 ==> r@[k] == rank_at(k),
{
    [
        Rank::Two,
        Rank::Three,
        Rank::Four,
        Rank::Five,
        Rank::Six,
        Rank::Seven,
        Rank::Eight,
        Rank::Nine,
        Rank::Ten,
        Rank::Jack,
        Rank::Queen,
        Rank::King,
        Rank::Ace,
    ]
}

/// Build the ordered 52-card deck.
pub fn build_deck() -> (deck: Vec<Card>)
    ensures
        deck@ == standard_deck(),
{
    let suits = all_suits();
    let ranks = all_ranks();
    let mut deck: Vec<Card> = Vec::with_capacity(52);
    let mut s: usize = 0;
    while s < 4
        invariant
            s <= 4,
            forall|k: int| 0 <= k < 4 ==> suits@[k] == suit_at(k),
            forall|k: int| 0 <= k < 13 ==> ranks@[k] == rank_at(k),
            deck@ == standard_deck().take(13 * s),
        decreases 4 - s,
    {
        let mut k: usize = 0;
        while k < 13
            invariant
                s < 4,
                k <= 13,
                forall|k: int| 0 <= k < 4 ==> suits@[k] == suit_at(k),
                forall|k: int| 0 <= k < 13 ==> ranks@[k] == rank_at(k),
                deck@ == standard_deck().take(13 * s + k),
            decreases 13 - k,
        {
            deck.push(Card { suit: suits[s], rank: ranks[k] });
            proof {
                let i = 13 * s + k;
                assert(i / 13 == s && i % 13 == k) by (nonlinear_arith)
                    requires
                        i == 13 * s + k,
                        0 <= k < 13,
                ;
                assert(deck@ =~= standard_deck().take(13 * s + k + 1));
            }
            k = k + 1;
        }
        s = s + 1;
    }
    proof {
        assert(deck@ =~= standard_deck());
    }
    deck
}

/// Shuffle `deck` in place (Fisher-Yates) with the deterministic generator seeded by `seed`.
pub fn shuffle_in_place(deck: &mut [Card], seed: u64)
    ensures
        final(deck)@ == shuffled(old(deck)@, seed),
        final(deck)@.to_multiset() == old(deck)@.to_multiset(),
{
    let mut rng = XorShift64::new(seed);
    let n = deck.len();
    proof {
        lemma_shuffled_same_cards(deck@, seed);
    }
    if n == 0 {
        return;
    }
    let mut i: usize = n - 1;
    while i >= 1
        invariant
            i < n,
            n == deck@.len(),
            shuffle_from(deck@, rng.state, i as int) == shuffled(old(deck)@, seed),
        decreases i,
    {
        let ghost pre = deck@;
        let ghost st = rng.state;
        let j = rng.gen_range(i + 1);
        let a = deck[i];
        let b = deck[j];
        deck[i] = b;
        deck[j] = a;
        proof {
            assert(deck@ =~= swapped(pre, i as int, j as int));
        }
        i = i - 1;
    }
}

/// Exchanging two entries keeps the same cards.
pub proof fn lemma_swapped_same_cards(s: Seq<Card>, i: int, j: int)
    requires
        0 <= i < s.len(),
        0 <= j < s.len(),
    ensures
        swapped(s, i, j).len() == s.len(),
        swapped(s, i, j).to_multiset() == s.to_multiset(),
{
    broadcast use vstd::seq_lib::group_to_multiset_ensures;
    broadcast use vstd::multiset::group_multiset_axioms;

    let s1 = s.update(i, s[j]);
    assert(s1[j] == s[j]);
    assert(s1.to_multiset() == s.to_multiset().insert(s[j]).remove(s[i]));
    assert(swapped(s, i, j).to_multiset() == s1.to_multiset().insert(s[i]).remove(s[j]));
    assert(s.to_multiset().count(s[i]) > 0);
    assert(swapped(s, i, j).to_multiset() =~= s.to_multiset());
}

/// The shuffle rearranges the cards without adding or losing any.
pub proof fn lemma_shuffle_from_same_cards(s: Seq<Card>, state: u64, i: int)
    requires
        i < s.len(),
        s.len() <= usize::MAX,
    ensures
        shuffle_from(s, state, i).len() == s.len(),
        shuffle_from(s, state, i).to_multiset() == s.to_multiset(),
    decreases i,
{
    if i > 0 {
        let x = xorshift_step(state);
        let j = (x as usize) % ((i + 1) as usize);
        assert((i + 1) as usize == i + 1);
        lemma_swapped_same_cards(s, i, j as int);
        lemma_shuffle_from_same_cards(swapped(s, i, j as int), x, i - 1);
    }
}

/// The shuffle for any seed is a permutation of its input.
pub proof fn lemma_shuffled_same_cards(s: Seq<Card>, seed: u64)
    requires
        s.len() <= usize::MAX,
    ensures
        shuffled(s, seed).len() == s.len(),
        shuffled(s, seed).to_multiset() == s.to_multiset(),
{
    lemma_shuffle_from_same_cards(s, seed_state(seed), s.len() - 1);
}

/// Position of a suit in deck order.
pub open spec fn suit_pos(s: Suit) -> int {
    match s {
        Suit::Clubs => 0,
        Suit::Diamonds => 1,
        Suit::Hearts => 2,
        Suit::Spades => 3,
    }
}

/// Position of a rank in deck order.
pub open spec fn rank_pos(r: Rank) -> int {
    crate::types::rank_num(r) - 2
}

/// The ordered deck holds every card, each exactly once.
pub proof fn lemma_standard_deck_complete(c: Card)
    ensures
        standard_deck().no_duplicates(),
        standard_deck().contains(c),
        standard_deck()[13 * suit_pos(c.suit) + rank_pos(c.rank)] == c,
{
    let d = standard_deck();
    let i = 13 * suit_pos(c.suit) + rank_pos(c.rank);
    assert(i / 13 == suit_pos(c.suit) && i % 13 == rank_pos(c.rank)) by (nonlinear_arith)
        requires
            i == 13 * suit_pos(c.suit) + rank_pos(c.rank),
            0 <= rank_pos(c.rank) < 13,
    ;
    assert(d[i] == c);
    assert forall|a: int, b: int| 0 <= a < d.len() && 0 <= b < d.len() && a != b implies d[a]
        != d[b] by {
        assert(a / 13 != b / 13 || a % 13 != b % 13) by (nonlinear_arith)
            requires
                a != b,
                0 <= a,
                0 <= b,
        ;
        assert(0 <= a / 13 < 4 && 0 <= b / 13 < 4) by (nonlinear_arith)
            requires
                0 <= a < 52,
                0 <= b < 52,
        ;
        assert(0 <= a % 13 < 13 && 0 <= b % 13 < 13) by (nonlinear_arith)
            requires
                0 <= a,
                0 <= b,
        ;
    }
}

/// Every shuffled deck holds an Ace.
pub proof fn lemma_shuffled_deck_has_ace(seed: u64)
    ensures
        exists|k: int| 0 <= k < shuffled_deck(seed).len() && #[trigger] shuffled_deck(seed)[k].rank
            == Rank::Ace,
        shuffled_deck(seed).len() == 52,
{
    broadcast use vstd::seq_lib::group_to_multiset_ensures;

    let ace = Card { suit: Suit::Clubs, rank: Rank::Ace };
    lemma_standard_deck_complete(ace);
    lemma_shuffled_same_cards(standard_deck(), seed);
    let d = shuffled_deck(seed);
    assert(standard_deck().to_multiset().count(ace) > 0);
    assert(d.to_multiset().count(ace) > 0);
    assert(d.contains(ace));
    let k = choose|k: int| 0 <= k < d.len() && d[k] == ace;
    assert(d[k].rank == Rank::Ace);
}

/// Pre-draw: shuffle a fresh deck for `seed` and reveal cards to seats 0, 1, 2, 3, 0, ...;
/// the seat that gets the first Ace is the hokm chooser. Returns that seat and the Ace.
pub fn chooser_by_first_ace(seed: u64) -> (r: (PlayerId, Card))
    ensures
        ({
            let d = shuffled_deck(seed);
            let k = first_ace(d);
            &&& 0 <= k < 52
            &&& r.1 == d[k]
            &&& r.1.rank == Rank::Ace
            &&& forall|j: int| 0 <= j < k ==> d[j].rank != Rank::Ace
            &&& r.0.0 == k % 4
        }),
        r == (predraw_chooser(seed), predraw_ace(seed)),
{
    let mut deck = build_deck();
    shuffle_in_place(deck.as_mut_slice(), seed);
    proof {
        lemma_shuffled_deck_has_ace(seed);
    }
    let ghost d = shuffled_deck(seed);
    let mut i: usize = 0;
    while deck[i].rank != Rank::Ace
        invariant
            deck@ == d,
            d.len() == 52,
            0 <= i < 52,
            forall|j: int| 0 <= j < i ==> d[j].rank != Rank::Ace,
            exists|k: int| i <= k < 52 && #[trigger] d[k].rank == Rank::Ace,
        decreases 52 - i,
    {
        i = i + 1;
    }
    proof {
        let k = first_ace(d);
        assert(0 <= i < d.len() && d[i as int].rank == Rank::Ace && (forall|j: int|
            0 <= j < i ==> d[j].rank != Rank::Ace));
        if k != i {
            assert(d[k].rank == Rank::Ace);
        }
    }
    (PlayerId((i % 4) as u8), deck[i])
}

/// Seat that receives the `r`-th card of every round of four when `dealer` deals.
pub open spec fn receiver(dealer: PlayerId, r: int) -> int {
    (next_seat(dealer).0 + r) % 4
}

/// The hand seat `p` receives when `dealer` deals the shuffled deck for `seed`.
pub open spec fn dealt_hand(seed: u64, dealer: PlayerId, p: int) -> Seq<Card> {
    Seq::new(13, |k: int| shuffled_deck(seed)[4 * k + (p + 4 - next_seat(dealer).0) % 4])
}

/// Deal the shuffled deck for `seed`, 13 cards each, one at a time around the table;
/// the first card goes to the seat left of the dealer (dealer 0: seat 1; dealer 2: seat 3).
pub fn deal_hands_with_dealer(seed: u64, dealer: PlayerId) -> (hands: [Vec<Card>; 4])
    requires
        dealer.0 < 255,
    ensures
        forall|p: int| 0 <= p < 4 ==> (#[trigger] hands@[p])@.len() == 13,
        forall|k: int, r: int|
            0 <= k < 13 && 0 <= r < 4 ==> #[trigger] hands@[receiver(dealer, r)]@[k]
                == shuffled_deck(seed)[4 * k + r],
        forall|p: int| 0 <= p < 4 ==> (#[trigger] hands@[p])@ == dealt_hand(seed, dealer, p),
{
    let mut deck = build_deck();
    shuffle_in_place(deck.as_mut_slice(), seed);
    proof {
        lemma_shuffled_same_cards(standard_deck(), seed);
    }
    let ghost d = shuffled_deck(seed);
    let mut hands: [Vec<Card>; 4] = [
        Vec::with_capacity(13),
        Vec::with_capacity(13),
        Vec::with_capacity(13),
        Vec::with_capacity(13),
    ];
    let start = dealer.next().0 as usize;
    let mut k: usize = 0;
    while k < 13
        invariant
            k <= 13,
            deck@ == d,
            d.len() == 52,
            start == next_seat(dealer).0,
            forall|p: int| 0 <= p < 4 ==> (#[trigger] hands@[p])@.len() == k,
            forall|k2: int, r: int|
                0 <= k2 < k && 0 <= r < 4 ==> #[trigger] hands@[receiver(dealer, r)]@[k2] == d[4
                    * k2 + r],
        decreases 13 - k,
    {
        let mut r: usize = 0;
        while r < 4
            invariant
                k < 13,
                r <= 4,
                deck@ == d,
                d.len() == 52,
                start == next_seat(dealer).0,
                forall|r2: int| 0 <= r2 < r ==> (#[trigger] hands@[receiver(dealer, r2)])@.len() == k + 1,
                forall|r2: int| r <= r2 < 4 ==> (#[trigger] hands@[receiver(dealer, r2)])@.len() == k,
                forall|k2: int, r2: int|
                    0 <= k2 < k && 0 <= r2 < 4 ==> #[trigger] hands@[receiver(dealer, r2)]@[k2]
                        == d[4 * k2 + r2],
                forall|r2: int| 0 <= r2 < r ==> #[trigger] hands@[receiver(dealer, r2)]@[k as int] == d[4 * k + r2],
            decreases 4 - r,
        {
            let p = (start + r) % 4;
            let card = deck[4 * k + r];
            let ghost before = hands@;
            hands[p].push(card);
            proof {
                assert forall|r2: int| 0 <= r2 < 4 && r2 != r implies receiver(dealer, r2) != p by {}
            }
            r = r + 1;
        }
        proof {
            assert forall|p: int| 0 <= p < 4 implies (#[trigger] hands@[p])@.len() == k + 1 by {
                let r2 = (p + 4 - start) % 4;
                assert(receiver(dealer, r2) == p);
            }
        }
        k = k + 1;
    }
    proof {
        assert forall|p: int| 0 <= p < 4 implies (#[trigger] hands@[p])@ == dealt_hand(seed, dealer, p) by {
            let r2 = (p + 4 - start) % 4;
            assert(receiver(dealer, r2) == p);
            assert(hands@[p]@ =~= dealt_hand(seed, dealer, p));
        }
    }
    hands
}

/// Deal as if seat 3 were the dealer, so that the first card goes to seat 0.
pub fn deal_hands(seed: u64) -> (hands: [Vec<Card>; 4])
    ensures
        forall|p: int| 0 <= p < 4 ==> (#[trigger] hands@[p])@.len() == 13,
        forall|k: int, r: int|
            0 <= k < 13 && 0 <= r < 4 ==> #[trigger] hands@[r]@[k] == shuffled_deck(seed)[4 * k + r],
{
    let hands = deal_hands_with_dealer(seed, PlayerId(3));
    proof {
        assert forall|k: int, r: int| 0 <= k < 13 && 0 <= r < 4 implies #[trigger] hands@[r]@[k]
            == shuffled_deck(seed)[4 * k + r] by {
            assert(receiver(PlayerId(3), r) == r);
        }
    }
    hands
}

/// Sort a hand by suit (Clubs, Diamonds, Hearts, Spades), low ranks first within a
/// suit. Presentation only: the hand keeps the same cards.
pub fn sort_hand(hand: &mut Vec<Card>)
    ensures
        sorted_by(final(hand)@, CardOrder::Dealt),
        final(hand)@.to_multiset() == old(hand)@.to_multiset(),
        final(hand)@.len() == old(hand)@.len(),
{
    sort_cards(hand.as_mut_slice(), CardOrder::Dealt);
}

} // verus!
