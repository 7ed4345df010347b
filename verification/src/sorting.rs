//! Orders for showing a hand. Sorting is presentation only: it never changes which
//! cards a hand holds.
use vstd::prelude::*;
use crate::deal::{lemma_swapped_same_cards, swapped};
use crate::types::{rank_num, Card, Suit};

verus! {

/// Position of a suit for sorting: Clubs, Diamonds, Hearts, Spades.
pub open spec fn suit_rank(s: Suit) -> u8 {
    match s {
        Suit::Clubs => 0,
        Suit::Diamonds => 1,
        Suit::Hearts => 2,
        Suit::Spades => 3,
    }
}

/// Black suits (Clubs, Spades) group before red ones (Diamonds, Hearts).
pub open spec fn color_rank(s: Suit) -> u8 {
    match s {
        Suit::Clubs | Suit::Spades => 0,
        Suit::Diamonds | Suit::Hearts => 1,
    }
}

/// How the player's hand is shown.
#[derive(Clone, Copy, Debug, PartialEq, Eq, Structural)]
pub enum HandSortMode {
    /// By suit, high ranks first within a suit.
    Suit,
    /// High ranks first, suit order breaking ties.
    Rank,
    /// Black suits, then red; by suit, high ranks first.
    Color,
}

/// The orders cards can be sorted in.
#[derive(Clone, Copy, Debug, PartialEq, Eq, Structural)]
pub enum CardOrder {
    /// By suit, then low ranks first (the order hands are dealt into).
    Dealt,
    Shown(HandSortMode),
}

/// Sort key of a card: smaller keys come first. Each order's key tells all cards apart.
pub open spec fn order_key(o: CardOrder, c: Card) -> int {
    let s = suit_rank(c.suit) as int;
    let r = rank_num(c.rank) as int;
    match o {
        CardOrder::Dealt => s * 100 + r,
        CardOrder::Shown(HandSortMode::Suit) => s * 100 + (20 - r),
        CardOrder::Shown(HandSortMode::Rank) => (20 - r) * 100 + s,
        CardOrder::Shown(HandSortMode::Color) => color_rank(c.suit) * 10000 + s * 100 + (20 - r),
    }
}

/// `s` lists its cards in order `o`.
pub open spec fn sorted_by(s: Seq<Card>, o: CardOrder) -> bool {
    forall|a: int, b: int| 0 <= a < b < s.len() ==> order_key(o, s[a]) <= order_key(o, s[b])
}

/// Position of a suit in display order: Clubs, Diamonds, Hearts, Spades.
pub fn suit_order(s: Suit) -> (r: u8)
    ensures
        r == suit_rank(s),
{
    match s {
        Suit::Clubs => 0,
        Suit::Diamonds => 1,
        Suit::Hearts => 2,
        Suit::Spades => 3,
    }
}

/// Colour group of a suit: black suits 0, red suits 1.
pub fn color_group(s: Suit) -> (r: u8)
    ensures
        r == color_rank(s),
{
    match s {
        Suit::Clubs | Suit::Spades => 0,
        Suit::Diamonds | Suit::Hearts => 1,
    }
}

/// Numeric value of a rank (2 to 14).
pub fn rank_value(r: crate::types::Rank) -> (v: u8)
    ensures
        v == rank_num(r),
{
    r.value()
}

fn key(o: CardOrder, c: Card) -> (k: u32)
    ensures
        k == order_key(o, c),
{
    let s = suit_order(c.suit) as u32;
    let r = c.rank.value() as u32;
    match o {
        CardOrder::Dealt => s * 100 + r,
        CardOrder::Shown(HandSortMode::Suit) => s * 100 + (20 - r),
        CardOrder::Shown(HandSortMode::Rank) => (20 - r) * 100 + s,
        CardOrder::Shown(HandSortMode::Color) => color_group(c.suit) as u32 * 10000 + s * 100 + (
        20 - r),
    }
}

/// Sort `cards` into order `o` (insertion sort, keeping the same cards).
pub fn sort_cards(cards: &mut [Card], o: CardOrder)
    ensures
        sorted_by(final(cards)@, o),
        final(cards)@.to_multiset() == old(cards)@.to_multiset(),
        final(cards)@.len() == old(cards)@.len(),
{
    let n = cards.len();
    let mut i: usize = 1;
    while i < n
        invariant
            n == cards@.len(),
            1 <= i || n == 0,
            i <= n || n == 0,
            forall|a: int, b: int|
                0 <= a < b < i ==> order_key(o, cards@[a]) <= order_key(o, cards@[b]),
            cards@.to_multiset() == old(cards)@.to_multiset(),
        decreases n - i,
    {
        let mut j: usize = i;
        while j > 0 && key(o, cards[j - 1]) > key(o, cards[j])
            invariant
                n == cards@.len(),
                0 <= j <= i < n,
                forall|a: int, b: int|
                    0 <= a < b <= i && a != j && b != j ==> order_key(o, cards@[a]) <= order_key(
                        o,
                        cards@[b],
                    ),
                forall|b: int| j < b <= i ==> order_key(o, cards@[j as int]) < order_key(o, cards@[b]),
                cards@.to_multiset() == old(cards)@.to_multiset(),
            decreases j,
        {
            let ghost pre = cards@;
            let a = cards[j - 1];
            let b = cards[j];
            cards[j - 1] = b;
            cards[j] = a;
            proof {
                assert(cards@ =~= swapped(pre, j - 1, j as int));
                lemma_swapped_same_cards(pre, j - 1, j as int);
            }
            j = j - 1;
        }
        i = i + 1;
    }
}

} // verus!
