use hokm::ai::cheapest_card;
use hokm::{choose_action, Action, Card, Difficulty, GameState, PlayerId, Rank, Suit};

fn c(suit: Suit, rank: Rank) -> Card {
    Card { suit, rank }
}

fn play(g: &mut GameState, p: u8, card: Card) {
    g.apply_action(PlayerId(p), Action::PlayCard { card }).unwrap();
}

/// Seat 3 deals; seat 0, left of the dealer, names spades and leads.
fn game(hands: [Vec<Card>; 4]) -> GameState {
    let mut g = GameState::new_with_hands(PlayerId(3), hands);
    g.apply_action(PlayerId(0), Action::ChooseHokm { suit: Suit::Spades }).unwrap();
    g
}

#[test]
fn no_action_out_of_turn_or_phase() {
    let g = GameState::new_with_hands(
        PlayerId(3),
        [vec![c(Suit::Hearts, Rank::Two)], vec![], vec![], vec![]],
    );
    assert_eq!(choose_action(&g, PlayerId(3), Difficulty::Easy, 1), None);
    assert_eq!(choose_action(&g, PlayerId(0), Difficulty::Hard, 1), None);
    let g = game([vec![c(Suit::Hearts, Rank::Two)], vec![], vec![], vec![]]);
    assert_eq!(choose_action(&g, PlayerId(1), Difficulty::Medium, 1), None);
}

#[test]
fn medium_wins_cheaply() {
    let mut g = game([
        vec![c(Suit::Hearts, Rank::Five)],
        vec![c(Suit::Hearts, Rank::King), c(Suit::Hearts, Rank::Nine), c(Suit::Clubs, Rank::Two)],
        vec![],
        vec![],
    ]);
    play(&mut g, 0, c(Suit::Hearts, Rank::Five));
    assert_eq!(
        choose_action(&g, PlayerId(1), Difficulty::Medium, 7),
        Some(Action::PlayCard { card: c(Suit::Hearts, Rank::Nine) })
    );
    assert_eq!(
        choose_action(&g, PlayerId(1), Difficulty::Hard, 7),
        Some(Action::PlayCard { card: c(Suit::Hearts, Rank::Nine) })
    );
}

#[test]
fn medium_throws_cheapest_when_it_cannot_win() {
    let mut g = game([
        vec![c(Suit::Hearts, Rank::Ace)],
        vec![c(Suit::Hearts, Rank::King), c(Suit::Hearts, Rank::Three)],
        vec![],
        vec![],
    ]);
    play(&mut g, 0, c(Suit::Hearts, Rank::Ace));
    assert_eq!(
        choose_action(&g, PlayerId(1), Difficulty::Medium, 7),
        Some(Action::PlayCard { card: c(Suit::Hearts, Rank::Three) })
    );
}

#[test]
fn hard_does_not_overtake_partner() {
    let mut g = game([
        vec![c(Suit::Hearts, Rank::King)],
        vec![c(Suit::Hearts, Rank::Two)],
        vec![c(Suit::Hearts, Rank::Ace), c(Suit::Hearts, Rank::Three)],
        vec![],
    ]);
    play(&mut g, 0, c(Suit::Hearts, Rank::King));
    play(&mut g, 1, c(Suit::Hearts, Rank::Two));
    assert_eq!(
        choose_action(&g, PlayerId(2), Difficulty::Hard, 7),
        Some(Action::PlayCard { card: c(Suit::Hearts, Rank::Three) })
    );
    assert_eq!(
        choose_action(&g, PlayerId(2), Difficulty::Medium, 7),
        Some(Action::PlayCard { card: c(Suit::Hearts, Rank::Ace) })
    );
}

#[test]
fn hard_prefers_non_trump_win_and_lead() {
    let mut g = game([
        vec![c(Suit::Spades, Rank::Two), c(Suit::Hearts, Rank::Ace)],
        vec![c(Suit::Diamonds, Rank::Nine)],
        vec![],
        vec![],
    ]);
    // Leading: Hard saves the trump, Medium leads the lowest card.
    assert_eq!(
        choose_action(&g, PlayerId(0), Difficulty::Hard, 7),
        Some(Action::PlayCard { card: c(Suit::Hearts, Rank::Ace) })
    );
    assert_eq!(
        choose_action(&g, PlayerId(0), Difficulty::Medium, 7),
        Some(Action::PlayCard { card: c(Suit::Spades, Rank::Two) })
    );
    let mut g2 = game([
        vec![c(Suit::Diamonds, Rank::Five)],
        vec![c(Suit::Spades, Rank::Two), c(Suit::Hearts, Rank::Four)],
        vec![],
        vec![],
    ]);
    play(&mut g2, 0, c(Suit::Diamonds, Rank::Five));
    // No diamonds: only the trump wins.
    assert_eq!(
        choose_action(&g2, PlayerId(1), Difficulty::Hard, 7),
        Some(Action::PlayCard { card: c(Suit::Spades, Rank::Two) })
    );
}

#[test]
fn easy_picks_by_seed() {
    let g = game([
        vec![c(Suit::Hearts, Rank::Two), c(Suit::Clubs, Rank::Three)],
        vec![],
        vec![],
        vec![],
    ]);
    assert_eq!(
        choose_action(&g, PlayerId(0), Difficulty::Easy, 5),
        Some(Action::PlayCard { card: c(Suit::Clubs, Rank::Three) })
    );
    let legal = g.legal_actions(PlayerId(0));
    for seed in 0..20u64 {
        let a = choose_action(&g, PlayerId(0), Difficulty::Easy, seed).unwrap();
        assert!(legal.contains(&a));
    }
}

#[test]
fn cheapest_avoids_trump() {
    let cards = [c(Suit::Spades, Rank::Two), c(Suit::Hearts, Rank::Nine), c(Suit::Clubs, Rank::Nine)];
    assert_eq!(cheapest_card(&cards, Some(Suit::Spades)), c(Suit::Clubs, Rank::Nine));
    assert_eq!(cheapest_card(&cards, None), c(Suit::Spades, Rank::Two));
}

#[test]
fn bots_play_a_whole_round_legally() {
    let mut g = GameState::new_with_hands(PlayerId(0), hokm::deal_hands_with_dealer(11, PlayerId(0)));
    g.apply_action(PlayerId(1), Action::ChooseHokm { suit: Suit::Hearts }).unwrap();
    let mut moves = 0;
    while g.phase == hokm::Phase::Playing {
        let p = g.turn;
        let diff = [Difficulty::Easy, Difficulty::Medium, Difficulty::Hard][moves % 3];
        let a = choose_action(&g, p, diff, moves as u64).unwrap();
        assert!(g.legal_actions(p).contains(&a));
        g.apply_action(p, a).unwrap();
        moves += 1;
    }
    assert!(moves <= 52);
    assert!(g.tricks_taken[0] == 7 || g.tricks_taken[1] == 7);
}
