use hokm::deal::{all_ranks, all_suits};
use hokm::{
    build_deck, chooser_by_first_ace, deal_hands, deal_hands_with_dealer, shuffle_in_place,
    sort_hand, Card, PlayerId, Rank, Suit,
};

fn c(suit: Suit, rank: Rank) -> Card {
    Card { suit, rank }
}

#[test]
fn deck_is_ordered_and_complete() {
    let deck = build_deck();
    assert_eq!(deck.len(), 52);
    assert_eq!(deck[0], c(Suit::Clubs, Rank::Two));
    assert_eq!(deck[12], c(Suit::Clubs, Rank::Ace));
    assert_eq!(deck[13], c(Suit::Diamonds, Rank::Two));
    assert_eq!(deck[51], c(Suit::Spades, Rank::Ace));
    for i in 0..52 {
        for j in (i + 1)..52 {
            assert_ne!(deck[i], deck[j]);
        }
    }
    assert_eq!(all_suits().len(), 4);
    assert_eq!(all_ranks()[12], Rank::Ace);
}

#[test]
fn shuffle_is_deterministic_permutation() {
    let mut a = build_deck();
    let mut b = build_deck();
    shuffle_in_place(&mut a, 42);
    shuffle_in_place(&mut b, 42);
    assert_eq!(a, b);
    assert_eq!(a[0], c(Suit::Spades, Rank::Seven));
    assert_eq!(a[1], c(Suit::Diamonds, Rank::Ten));
    assert_eq!(a[2], c(Suit::Spades, Rank::Four));
    let mut sorted = a.clone();
    sorted.sort_by_key(|x| (x.suit as u8, x.rank.value()));
    assert_eq!(sorted, build_deck());
    let mut z = build_deck();
    shuffle_in_place(&mut z, 0);
    assert_eq!(z[0], c(Suit::Spades, Rank::King));
    let mut empty: Vec<Card> = vec![];
    shuffle_in_place(&mut empty, 9);
    assert!(empty.is_empty());
}

#[test]
fn first_ace_names_the_chooser() {
    assert_eq!(chooser_by_first_ace(42), (PlayerId(3), c(Suit::Clubs, Rank::Ace)));
    assert_eq!(chooser_by_first_ace(1), (PlayerId(0), c(Suit::Spades, Rank::Ace)));
    assert_eq!(chooser_by_first_ace(0), (PlayerId(2), c(Suit::Hearts, Rank::Ace)));
    for seed in 0..50u64 {
        let (p, ace) = chooser_by_first_ace(seed);
        assert!(p.0 < 4);
        assert_eq!(ace.rank, Rank::Ace);
    }
}

#[test]
fn deal_starts_left_of_dealer() {
    let hands = deal_hands_with_dealer(42, PlayerId(0));
    for h in hands.iter() {
        assert_eq!(h.len(), 13);
    }
    // First card of the shuffled deck goes to seat 1, second to seat 2, ...
    assert_eq!(hands[1][0], c(Suit::Spades, Rank::Seven));
    assert_eq!(hands[2][0], c(Suit::Diamonds, Rank::Ten));
    assert_eq!(hands[0][0], c(Suit::Spades, Rank::Nine));
    let mut all: Vec<Card> = hands.iter().flatten().copied().collect();
    all.sort_by_key(|x| (x.suit as u8, x.rank.value()));
    assert_eq!(all, build_deck());
    let two = deal_hands_with_dealer(42, PlayerId(2));
    assert_eq!(two[3][0], c(Suit::Spades, Rank::Seven));
}

#[test]
fn deal_hands_gives_first_card_to_seat_zero() {
    assert_eq!(deal_hands(42), deal_hands_with_dealer(42, PlayerId(3)));
    assert_eq!(deal_hands(42)[0][0], c(Suit::Spades, Rank::Seven));
}

#[test]
fn sort_hand_orders_by_suit_then_rank() {
    let mut h = vec![
        c(Suit::Spades, Rank::Two),
        c(Suit::Clubs, Rank::Ace),
        c(Suit::Clubs, Rank::Three),
        c(Suit::Hearts, Rank::Ten),
    ];
    sort_hand(&mut h);
    assert_eq!(
        h,
        vec![
            c(Suit::Clubs, Rank::Three),
            c(Suit::Clubs, Rank::Ace),
            c(Suit::Hearts, Rank::Ten),
            c(Suit::Spades, Rank::Two),
        ]
    );
    let mut e: Vec<Card> = vec![];
    sort_hand(&mut e);
    assert!(e.is_empty());
}

#[test]
fn first_ace_reaches_the_chooser_in_the_deal() {
    for seed in [0u64, 1, 7, 42, 96, 1000042] {
        let (chooser, ace) = hokm::chooser_by_first_ace(seed);
        assert_eq!(ace.rank, Rank::Ace);
        let hands = hokm::deal_hands(seed);
        assert!(hands[chooser.idx()].contains(&ace));
    }
}
