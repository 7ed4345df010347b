//! A minimal card model: values and suits, without any behaviour.
use vstd::prelude::*;

verus! {

/// Card value, from two up to the ace (ordered as declared).
#[derive(PartialEq, Eq, PartialOrd, Ord)]
pub enum CardVal {
    N2,
    N3,
    N4,
    N5,
    N6,
    N7,
    N8,
    N9,
    N10,
    Jack,
    Queen,
    King,
    Ace,
}

/// Card suit.
#[derive(PartialEq, Eq)]
pub enum CardSuit {
    Club,
    Diamond,
    Heart,
    Spade,
}

/// A card: a suit and a value.
#[allow(dead_code)]
pub struct Card {
    suit: CardSuit,
    val: CardVal,
}

} // verus!
