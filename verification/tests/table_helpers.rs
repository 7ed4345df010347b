use hokm::table::{played_line, trick_center_lines, trick_lines};
use hokm::deal::deal_hands_with_dealer;
use hokm::sorting::{color_group, rank_value, suit_order, HandSortMode};
use hokm::table::{
    card_in_trick, card_short, card_to_string, choose_hokm_for_bot, deal_sorted_for_ui,
    dummy_game_state, setup_round, sort_for_display, trump_count_per_player,
};
use hokm::{Action, Card, GameState, Phase, PlayerId, Rank, Suit};

fn c(suit: Suit, rank: Rank) -> Card {
    Card { suit, rank }
}

#[test]
fn card_labels() {
    assert_eq!(card_to_string(c(Suit::Hearts, Rank::Ten)), "10H");
    assert_eq!(card_to_string(c(Suit::Spades, Rank::Ace)), "AS");
    assert_eq!(card_to_string(c(Suit::Clubs, Rank::Four)), "4C");
    assert_eq!(card_to_string(c(Suit::Diamonds, Rank::Jack)), "JD");
    assert_eq!(card_short(c(Suit::Spades, Rank::Ace)), "A\u{2660}");
    assert_eq!(card_short(c(Suit::Hearts, Rank::Queen)), "Q\u{2665}");
    assert_eq!(card_short(c(Suit::Diamonds, Rank::King)), "K\u{2666}");
    assert_eq!(card_short(c(Suit::Clubs, Rank::Ten)), "10\u{2663}");
}

#[test]
fn bot_hokm_prefers_length_then_honors() {
    let hand = vec![
        c(Suit::Hearts, Rank::Two),
        c(Suit::Hearts, Rank::Three),
        c(Suit::Spades, Rank::Ace),
        c(Suit::Spades, Rank::Four),
        c(Suit::Clubs, Rank::King),
    ];
    // Hearts and spades tie on length; spades have the ace.
    assert_eq!(choose_hokm_for_bot(&hand), Suit::Spades);
    let hand2 = vec![c(Suit::Diamonds, Rank::Two), c(Suit::Hearts, Rank::Two)];
    // Full tie: the earlier suit wins.
    assert_eq!(choose_hokm_for_bot(&hand2), Suit::Diamonds);
    assert_eq!(choose_hokm_for_bot(&[]), Suit::Clubs);
}

#[test]
fn trump_counts() {
    let hands = [
        vec![c(Suit::Hearts, Rank::Two), c(Suit::Hearts, Rank::Three)],
        vec![c(Suit::Clubs, Rank::Two)],
        vec![],
        vec![c(Suit::Hearts, Rank::Ace), c(Suit::Spades, Rank::Ace), c(Suit::Hearts, Rank::Four)],
    ];
    assert_eq!(trump_count_per_player(&hands, Suit::Hearts), [2, 0, 0, 2]);
    assert_eq!(trump_count_per_player(&hands, Suit::Spades), [0, 0, 0, 1]);
}

#[test]
fn display_orders() {
    let base = vec![
        c(Suit::Hearts, Rank::Two),
        c(Suit::Clubs, Rank::Ace),
        c(Suit::Spades, Rank::King),
        c(Suit::Clubs, Rank::Three),
    ];
    let mut by_suit = base.clone();
    sort_for_display(&mut by_suit, HandSortMode::Suit);
    assert_eq!(
        by_suit,
        vec![
            c(Suit::Clubs, Rank::Ace),
            c(Suit::Clubs, Rank::Three),
            c(Suit::Hearts, Rank::Two),
            c(Suit::Spades, Rank::King),
        ]
    );
    let mut by_rank = base.clone();
    sort_for_display(&mut by_rank, HandSortMode::Rank);
    assert_eq!(
        by_rank,
        vec![
            c(Suit::Clubs, Rank::Ace),
            c(Suit::Spades, Rank::King),
            c(Suit::Clubs, Rank::Three),
            c(Suit::Hearts, Rank::Two),
        ]
    );
    let mut by_color = base.clone();
    sort_for_display(&mut by_color, HandSortMode::Color);
    assert_eq!(
        by_color,
        vec![
            c(Suit::Clubs, Rank::Ace),
            c(Suit::Clubs, Rank::Three),
            c(Suit::Spades, Rank::King),
            c(Suit::Hearts, Rank::Two),
        ]
    );
    assert_eq!(suit_order(Suit::Hearts), 2);
    assert_eq!(color_group(Suit::Diamonds), 1);
    assert_eq!(color_group(Suit::Spades), 0);
    assert_eq!(rank_value(Rank::Jack), 11);
}

#[test]
fn card_in_trick_finds_the_seat() {
    let mut g = GameState::new_with_hands(
        PlayerId(3),
        [vec![c(Suit::Hearts, Rank::Two)], vec![c(Suit::Hearts, Rank::Three)], vec![], vec![]],
    );
    g.apply_action(PlayerId(0), Action::ChooseHokm { suit: Suit::Clubs }).unwrap();
    g.apply_action(PlayerId(0), Action::PlayCard { card: c(Suit::Hearts, Rank::Two) }).unwrap();
    assert_eq!(card_in_trick(&g, 0), Some(c(Suit::Hearts, Rank::Two)));
    assert_eq!(card_in_trick(&g, 1), None);
}

#[test]
fn round_setup_from_seed() {
    let (chooser, dealer, hands, first5, logs) = setup_round(42, 0);
    assert_eq!(chooser, PlayerId(3));
    assert_eq!(dealer, PlayerId(2));
    assert_eq!(logs, vec!["Pre-draw: P3 got A\u{2663} -> chooser=P3".to_string(), "Dealer=P2".to_string()]);
    let dealt = deal_hands_with_dealer(43, PlayerId(2));
    assert_eq!(first5, dealt[3][..5].to_vec());
    for p in 0..4 {
        assert_eq!(hands[p].len(), 13);
        let mut expect = dealt[p].clone();
        hokm::sort_hand(&mut expect);
        assert_eq!(hands[p], expect);
    }
    assert_eq!(deal_sorted_for_ui(42, PlayerId(2), 0), hands);
    let redeal = deal_sorted_for_ui(42, PlayerId(2), 1);
    let mut expect = deal_hands_with_dealer(44, PlayerId(2));
    for h in expect.iter_mut() {
        hokm::sort_hand(h);
    }
    assert_eq!(redeal, expect);
}

#[test]
fn placeholder_state() {
    let g = dummy_game_state();
    assert_eq!(g.phase, Phase::ChoosingHokm { chooser: PlayerId(0) });
    assert!(g.hands.iter().all(|h| h.is_empty()));
    assert_eq!(g.config.target_round_wins, 7);
}

#[test]
fn trick_and_panel_texts() {
    let mut g = hokm::GameState::new_with_hands(
        hokm::PlayerId(3),
        [
            vec![hokm::Card { suit: hokm::Suit::Hearts, rank: hokm::Rank::Ten }],
            vec![hokm::Card { suit: hokm::Suit::Hearts, rank: hokm::Rank::Ace }],
            vec![],
            vec![],
        ],
    );
    g.apply_action(hokm::PlayerId(0), hokm::Action::ChooseHokm { suit: hokm::Suit::Spades })
        .unwrap();
    assert_eq!(trick_lines(&g), vec!["Current Trick".to_string(), "(empty)".to_string()]);
    assert_eq!(trick_center_lines(&g), vec!["Trick: (empty)".to_string()]);
    let ten = hokm::Card { suit: hokm::Suit::Hearts, rank: hokm::Rank::Ten };
    g.apply_action(hokm::PlayerId(0), hokm::Action::PlayCard { card: ten }).unwrap();
    assert_eq!(
        trick_lines(&g),
        vec!["Current Trick".to_string(), "P0: 10\u{2665}".to_string()]
    );
    assert_eq!(trick_center_lines(&g), vec!["Trick:".to_string(), "P0: 10H".to_string()]);
    assert_eq!(played_line(Some(ten), false), "Played: 10H");
    assert_eq!(played_line(Some(ten), true), "Played: 10\u{2665}");
    assert_eq!(played_line(None, false), "Played: -");
    assert_eq!(played_line(None, true), "Played: \u{2014}");
}
