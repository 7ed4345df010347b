use hokm::rules::{beats, current_winner, trick_winner};
use hokm::{Card, PlayerId, Rank, Suit};

fn c(suit: Suit, rank: Rank) -> Card {
    Card { suit, rank }
}

#[test]
fn highest_lead_card_wins_without_trump() {
    let trick = vec![
        (PlayerId(0), c(Suit::Clubs, Rank::Ten)),
        (PlayerId(1), c(Suit::Clubs, Rank::King)),
        (PlayerId(2), c(Suit::Diamonds, Rank::Ace)),
        (PlayerId(3), c(Suit::Clubs, Rank::Two)),
    ];
    assert_eq!(trick_winner(&trick, Suit::Hearts), PlayerId(1));
    assert_eq!(current_winner(&trick, Suit::Hearts), (PlayerId(1), c(Suit::Clubs, Rank::King)));
}

#[test]
fn hokm_beats_lead_suit() {
    let trick = vec![
        (PlayerId(2), c(Suit::Clubs, Rank::Ace)),
        (PlayerId(3), c(Suit::Hearts, Rank::Two)),
        (PlayerId(0), c(Suit::Hearts, Rank::Five)),
        (PlayerId(1), c(Suit::Clubs, Rank::King)),
    ];
    assert_eq!(trick_winner(&trick, Suit::Hearts), PlayerId(0));
}

#[test]
fn single_card_trick_and_beats() {
    assert_eq!(trick_winner(&[(PlayerId(3), c(Suit::Spades, Rank::Two))], Suit::Hearts), PlayerId(3));
    assert!(beats(c(Suit::Hearts, Rank::Two), c(Suit::Clubs, Rank::Ace), Suit::Clubs, Suit::Hearts));
    assert!(!beats(c(Suit::Spades, Rank::Ace), c(Suit::Clubs, Rank::Two), Suit::Clubs, Suit::Hearts));
    assert!(beats(c(Suit::Clubs, Rank::Three), c(Suit::Clubs, Rank::Two), Suit::Clubs, Suit::Hearts));
    assert!(!beats(c(Suit::Diamonds, Rank::Ace), c(Suit::Spades, Rank::Two), Suit::Clubs, Suit::Hearts));
}
