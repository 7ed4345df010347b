use hokm::{Action, Card, Error, Event, GameConfig, GameState, Phase, PlayerId, Rank, Suit, Team};

fn c(suit: Suit, rank: Rank) -> Card {
    Card { suit, rank }
}

fn small_hands() -> [Vec<Card>; 4] {
    [
        vec![c(Suit::Hearts, Rank::Ace), c(Suit::Spades, Rank::Two)],
        vec![c(Suit::Hearts, Rank::King), c(Suit::Clubs, Rank::Three)],
        vec![c(Suit::Clubs, Rank::Four), c(Suit::Spades, Rank::Five)],
        vec![c(Suit::Hearts, Rank::Two), c(Suit::Diamonds, Rank::Ace)],
    ]
}

#[test]
fn player_id_basics() {
    assert_eq!(PlayerId(2).idx(), 2);
    assert_eq!(PlayerId(0).team(), Team::A);
    assert_eq!(PlayerId(3).team(), Team::B);
    assert_eq!(PlayerId(3).next(), PlayerId(0));
    assert_eq!(Team::A.other(), Team::B);
    assert_eq!(Team::B.idx(), 1);
}

#[test]
fn new_state_waits_for_the_seat_left_of_the_dealer() {
    let g = GameState::new_with_hands(PlayerId(1), small_hands());
    assert_eq!(g.phase, Phase::ChoosingHokm { chooser: PlayerId(2) });
    assert_eq!(g.turn, PlayerId(2));
    assert_eq!(g.dealer, PlayerId(1));
    assert_eq!(g.config.target_round_wins, 7);
    assert_eq!(g.hokm, None);
    assert_eq!(g.legal_actions(PlayerId(1)), vec![]);
    assert_eq!(g.legal_actions(PlayerId(2)).len(), 4);
    let g = GameState::new_with_hands(PlayerId(3), small_hands());
    assert_eq!(g.phase, Phase::ChoosingHokm { chooser: PlayerId(0) });
}

#[test]
fn choose_hokm_then_play_follows_suit() {
    let mut g = GameState::new_with_hands(PlayerId(0), small_hands());
    // The dealer does not choose; the seat on its left does.
    assert_eq!(
        g.apply_action(PlayerId(0), Action::ChooseHokm { suit: Suit::Spades }),
        Err(Error::NotPlayersTurn)
    );
    let ev = g.apply_action(PlayerId(1), Action::ChooseHokm { suit: Suit::Spades }).unwrap();
    assert_eq!(ev, vec![Event::HokmChosen { suit: Suit::Spades }]);
    assert_eq!(g.phase, Phase::Playing);
    assert_eq!(g.turn, PlayerId(1));
    // Seat 1 leads hearts king.
    g.apply_action(PlayerId(1), Action::PlayCard { card: c(Suit::Hearts, Rank::King) }).unwrap();
    // Seat 2 has no hearts: any card is legal.
    assert_eq!(g.legal_actions(PlayerId(2)).len(), 2);
    // Seat 2 trumps.
    g.apply_action(PlayerId(2), Action::PlayCard { card: c(Suit::Spades, Rank::Five) }).unwrap();
    // Seat 3 must follow hearts.
    assert_eq!(
        g.apply_action(PlayerId(3), Action::PlayCard { card: c(Suit::Diamonds, Rank::Ace) }),
        Err(Error::MustFollowSuit { required: Suit::Hearts })
    );
    assert_eq!(
        g.legal_actions(PlayerId(3)),
        vec![Action::PlayCard { card: c(Suit::Hearts, Rank::Two) }]
    );
    g.apply_action(PlayerId(3), Action::PlayCard { card: c(Suit::Hearts, Rank::Two) }).unwrap();
    let ev = g
        .apply_action(PlayerId(0), Action::PlayCard { card: c(Suit::Hearts, Rank::Ace) })
        .unwrap();
    // The trump wins the trick.
    assert_eq!(
        ev,
        vec![
            Event::CardPlayed { player: PlayerId(0), card: c(Suit::Hearts, Rank::Ace) },
            Event::TrickEnded { winner: PlayerId(2) },
        ]
    );
    assert_eq!(g.turn, PlayerId(2));
    assert_eq!(g.tricks_taken, [1, 0]);
    assert!(g.current_trick.is_empty());
}

#[test]
fn error_messages() {
    assert_eq!(Error::NotPlayersTurn.message(), "not your turn");
    assert_eq!(
        Error::MustFollowSuit { required: Suit::Hearts }.message(),
        "must follow suit: Hearts"
    );
    let _ = GameConfig::default();
}

fn hands_for_round() -> [Vec<Card>; 4] {
    // Seat 0 and 2 (team A) hold all hearts high cards; hokm will be hearts.
    [
        vec![c(Suit::Hearts, Rank::Ace)],
        vec![c(Suit::Clubs, Rank::Two)],
        vec![c(Suit::Hearts, Rank::King)],
        vec![c(Suit::Clubs, Rank::Three)],
    ]
}

#[test]
fn round_and_match_end_with_kot() {
    // One round win ends the match; seven tricks end a round.
    let mut g = GameState::new_with_hands_config(
        PlayerId(3),
        hands_for_round(),
        GameConfig { target_round_wins: 1 },
    );
    g.apply_action(PlayerId(0), Action::ChooseHokm { suit: Suit::Hearts }).unwrap();
    assert_eq!(g.turn, PlayerId(0));
    g.tricks_taken = [6, 0];
    g.apply_action(PlayerId(0), Action::PlayCard { card: c(Suit::Hearts, Rank::Ace) }).unwrap();
    g.apply_action(PlayerId(1), Action::PlayCard { card: c(Suit::Clubs, Rank::Two) }).unwrap();
    g.apply_action(PlayerId(2), Action::PlayCard { card: c(Suit::Hearts, Rank::King) }).unwrap();
    let ev = g
        .apply_action(PlayerId(3), Action::PlayCard { card: c(Suit::Clubs, Rank::Three) })
        .unwrap();
    assert_eq!(
        ev,
        vec![
            Event::CardPlayed { player: PlayerId(3), card: c(Suit::Clubs, Rank::Three) },
            Event::TrickEnded { winner: PlayerId(0) },
            Event::RoundEnded { winner: Team::A, kot: true },
            Event::GameEnded { winner: Team::A },
        ]
    );
    assert_eq!(g.phase, Phase::GameOver { winner: Team::A });
    assert_eq!(g.rounds_won, [1, 0]);
    assert_eq!(g.tricks_taken, [7, 0]);
    // Nothing more can be played; the winner of the last trick still holds the turn.
    assert_eq!(g.turn, PlayerId(0));
    assert_eq!(
        g.apply_action(PlayerId(0), Action::ChooseHokm { suit: Suit::Clubs }),
        Err(Error::WrongPhase)
    );
    assert_eq!(g.legal_actions(PlayerId(0)), vec![]);
}

#[test]
fn round_over_without_kot_then_next_round() {
    let mut g = GameState::new_with_hands(PlayerId(3), hands_for_round());
    g.apply_action(PlayerId(0), Action::ChooseHokm { suit: Suit::Hearts }).unwrap();
    g.tricks_taken = [6, 2];
    for (p, card) in [
        (0, c(Suit::Hearts, Rank::Ace)),
        (1, c(Suit::Clubs, Rank::Two)),
        (2, c(Suit::Hearts, Rank::King)),
    ] {
        g.apply_action(PlayerId(p), Action::PlayCard { card }).unwrap();
    }
    let ev = g
        .apply_action(PlayerId(3), Action::PlayCard { card: c(Suit::Clubs, Rank::Three) })
        .unwrap();
    assert_eq!(ev[2], Event::RoundEnded { winner: Team::A, kot: false });
    assert_eq!(ev.len(), 3);
    assert_eq!(g.phase, Phase::RoundOver { winner: Team::A, kot: false });
    assert_eq!(
        g.apply_action(PlayerId(0), Action::PlayCard { card: c(Suit::Hearts, Rank::Ace) }),
        Err(Error::WrongPhase)
    );
    g.start_next_round(PlayerId(1), small_hands());
    assert_eq!(g.phase, Phase::ChoosingHokm { chooser: PlayerId(2) });
    assert_eq!(g.turn, PlayerId(2));
    assert_eq!(g.dealer, PlayerId(1));
    assert_eq!(g.tricks_taken, [0, 0]);
    assert_eq!(g.rounds_won, [1, 0]);
    assert_eq!(g.hokm, None);
    assert!(g.current_trick.is_empty());
}

#[test]
fn wrong_phase_and_missing_card() {
    let mut g = GameState::new_with_hands(PlayerId(0), small_hands());
    assert_eq!(
        g.apply_action(PlayerId(1), Action::PlayCard { card: c(Suit::Hearts, Rank::King) }),
        Err(Error::WrongPhase)
    );
    g.apply_action(PlayerId(1), Action::ChooseHokm { suit: Suit::Clubs }).unwrap();
    assert_eq!(
        g.apply_action(PlayerId(1), Action::ChooseHokm { suit: Suit::Clubs }),
        Err(Error::WrongPhase)
    );
    let before = g.hands.clone();
    assert_eq!(
        g.apply_action(PlayerId(1), Action::PlayCard { card: c(Suit::Hearts, Rank::Ace) }),
        Err(Error::CardNotInHand)
    );
    assert_eq!(g.hands, before);
}

#[test]
fn chooser_seat_can_differ_from_dealer() {
    let mut g = GameState::new_round_with_hands_config(
        PlayerId(1),
        PlayerId(2),
        small_hands(),
        GameConfig { target_round_wins: 7 },
    );
    assert_eq!(g.turn, PlayerId(2));
    assert_eq!(
        g.legal_actions(PlayerId(2)),
        vec![
            Action::ChooseHokm { suit: Suit::Clubs },
            Action::ChooseHokm { suit: Suit::Diamonds },
            Action::ChooseHokm { suit: Suit::Hearts },
            Action::ChooseHokm { suit: Suit::Spades },
        ]
    );
    g.apply_action(PlayerId(2), Action::ChooseHokm { suit: Suit::Diamonds }).unwrap();
    // Play starts left of the dealer.
    assert_eq!(g.turn, PlayerId(2));
    g.start_round_with_chooser(PlayerId(0), small_hands(), PlayerId(1));
    assert_eq!(g.phase, Phase::ChoosingHokm { chooser: PlayerId(1) });
    assert_eq!(g.dealer, PlayerId(0));
}

#[test]
fn swap_remove_moves_last_card_into_the_gap() {
    let mut hands = small_hands();
    hands[1] = vec![
        c(Suit::Clubs, Rank::Two),
        c(Suit::Clubs, Rank::Five),
        c(Suit::Clubs, Rank::Nine),
    ];
    let mut g = GameState::new_with_hands(PlayerId(0), hands);
    g.apply_action(PlayerId(1), Action::ChooseHokm { suit: Suit::Spades }).unwrap();
    g.apply_action(PlayerId(1), Action::PlayCard { card: c(Suit::Clubs, Rank::Two) }).unwrap();
    assert_eq!(g.hands[1], vec![c(Suit::Clubs, Rank::Nine), c(Suit::Clubs, Rank::Five)]);
    assert_eq!(g.current_trick, vec![(PlayerId(1), c(Suit::Clubs, Rank::Two))]);
    assert_eq!(g.turn, PlayerId(2));
}

#[test]
fn refused_actions_leave_the_whole_state_as_it_was() {
    let mut g = GameState::new_with_hands(PlayerId(0), small_hands());
    let before = g.clone();
    assert_eq!(
        g.apply_action(PlayerId(2), Action::ChooseHokm { suit: Suit::Hearts }),
        Err(Error::NotPlayersTurn)
    );
    assert_eq!(g.phase, before.phase);
    assert_eq!(g.turn, before.turn);
    assert_eq!(g.dealer, before.dealer);
    assert_eq!(g.hokm, before.hokm);
    assert_eq!(g.hands, before.hands);
    assert_eq!(g.current_trick, before.current_trick);
    assert_eq!(g.tricks_taken, before.tricks_taken);
    assert_eq!(g.rounds_won, before.rounds_won);
    assert_eq!(g.config.target_round_wins, before.config.target_round_wins);
}

#[test]
fn counters_only_grow_and_tricks_stay_small() {
    let mut g = GameState::new_with_hands(PlayerId(2), hokm::deal_hands_with_dealer(5, PlayerId(2)));
    g.apply_action(PlayerId(3), Action::ChooseHokm { suit: Suit::Diamonds }).unwrap();
    while g.phase == Phase::Playing {
        let before = g.clone();
        let a = g.legal_actions(g.turn)[0];
        g.apply_action(g.turn, a).unwrap();
        assert!(g.current_trick.len() <= 3);
        assert_eq!(g.dealer, PlayerId(2));
        assert_eq!(g.config.target_round_wins, 7);
        assert_eq!(g.hokm, Some(Suit::Diamonds));
        for i in 0..2 {
            assert!(g.tricks_taken[i] >= before.tricks_taken[i]);
            assert!(g.rounds_won[i] >= before.rounds_won[i]);
        }
    }
    assert_eq!(g.rounds_won[0] + g.rounds_won[1], 1);
}
