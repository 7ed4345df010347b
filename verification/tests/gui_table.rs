use hokm::autoplay::SeatFlags;
use hokm::gui::{Banner, GuiApp, GuiLogEntry, Screen};
use hokm::sorting::HandSortMode;
use hokm::{Action, Card, Error, Phase, PlayerId, Rank, Suit, Team};

fn card(suit: Suit, rank: Rank) -> Card {
    Card { suit, rank }
}

fn setup_line(entry: &GuiLogEntry) -> String {
    match entry {
        GuiLogEntry::Setup(s) => s.clone(),
        other => panic!("not a setup line: {:?}", other),
    }
}

fn total_cards(app: &GuiApp) -> usize {
    app.game.hands.iter().map(|h| h.len()).sum()
}

#[test]
fn gui_new_starts_on_the_menu() {
    let app = GuiApp::new(9);
    assert_eq!(app.screen, Screen::MainMenu);
    assert_eq!(app.menu_msg, "Offline works. Online is locked for now.");
    assert_eq!(app.target_rounds, 7);
    assert_eq!(app.round_number, 1);
    assert_eq!(app.deal_attempt, 0);
    assert_eq!(app.human, PlayerId(0));
    assert_eq!(app.hand_sort, HandSortMode::Suit);
    assert!(app.logs.is_empty());
    assert!(app.fly_queue.is_empty());
    assert!(!app.pending_hokm_pick);
    assert_eq!(app.game.phase, Phase::ChoosingHokm { chooser: PlayerId(0) });
    assert!(app.game.hands.iter().all(|h| h.is_empty()));
}

#[test]
fn gui_human_chooser_waits_for_hokm() {
    let mut app = GuiApp::new(0);
    app.start_offline_match(42);
    assert_eq!(app.screen, Screen::InGame);
    assert_eq!(app.base_seed, 42);
    assert_eq!(app.chooser, PlayerId(0));
    assert_eq!(app.dealer, PlayerId(3));
    assert_eq!(setup_line(&app.logs[0]), "Pre-draw: P0 got A\u{2663} -> chooser=P0");
    assert_eq!(setup_line(&app.logs[1]), "Dealer=P3");
    assert_eq!(app.logs[2], GuiLogEntry::RoundHeader(1));
    assert_eq!(app.logs.len(), 3);
    assert!(app.pending_hokm_pick);
    assert_eq!(app.hokm, None);
    assert_eq!(
        app.chooser_first5,
        vec![
            card(Suit::Spades, Rank::Five),
            card(Suit::Spades, Rank::Ten),
            card(Suit::Diamonds, Rank::Eight),
            card(Suit::Spades, Rank::Jack),
            card(Suit::Hearts, Rank::King),
        ]
    );
    assert!(app.game.hands.iter().all(|h| h.len() == 13));
    assert_eq!(app.game.phase, Phase::ChoosingHokm { chooser: PlayerId(0) });
    assert!(app.fly_queue.is_empty());
}

#[test]
fn gui_bot_chooser_names_hokm_and_bots_play() {
    let mut app = GuiApp::new(0);
    app.start_offline_match(1);
    assert_eq!(app.chooser, PlayerId(1));
    assert_eq!(app.dealer, PlayerId(0));
    assert_eq!(app.hokm, Some(Suit::Clubs));
    assert_eq!(app.game.hokm, Some(Suit::Clubs));
    assert_eq!(app.deal_attempt, 0);
    assert!(!app.pending_hokm_pick);
    assert_eq!(app.logs[3], GuiLogEntry::HokmChosen { by_bot: true, suit: Suit::Clubs });
    // Seats 1, 2 and 3 play before the human.
    assert_eq!(app.game.turn, PlayerId(0));
    assert_eq!(app.game.current_trick.len(), 3);
    let seats: Vec<u8> = app.fly_queue.iter().map(|x| x.0).collect();
    assert_eq!(seats, vec![1, 2, 3]);
    for (k, (seat, c)) in app.fly_queue.iter().enumerate() {
        assert_eq!(app.logs[4 + k], GuiLogEntry::BotPlayed { seat: *seat, card: *c });
    }
    assert_eq!(app.logs.len(), 7);
    assert_eq!(total_cards(&app), 49);
    // The bots never play from the human's hand.
    assert_eq!(app.game.hands[0].len(), 13);
}

#[test]
fn gui_bot_chooser_redeals_until_every_seat_has_hokm() {
    let mut app = GuiApp::new(0);
    app.start_offline_match(25);
    assert_eq!(app.chooser, PlayerId(2));
    assert_eq!(app.dealer, PlayerId(1));
    assert_eq!(app.logs[3], GuiLogEntry::HokmChosen { by_bot: true, suit: Suit::Diamonds });
    assert_eq!(
        app.logs[4],
        GuiLogEntry::ZeroTrump {
            hokm: Suit::Diamonds,
            lacking: SeatFlags { p0: true, p1: false, p2: false, p3: false },
        }
    );
    assert_eq!(app.logs[5], GuiLogEntry::Redeal);
    assert_eq!(app.logs[6], GuiLogEntry::HokmChosen { by_bot: true, suit: Suit::Hearts });
    assert_eq!(app.deal_attempt, 1);
    assert_eq!(app.hokm, Some(Suit::Hearts));
    for hand in app.game.hands.iter() {
        assert!(hand.iter().any(|c| c.suit == Suit::Hearts));
    }
    // Seats 2 and 3 play before the human; the queue was cleared by the redeal.
    let seats: Vec<u8> = app.fly_queue.iter().map(|x| x.0).collect();
    assert_eq!(seats, vec![2, 3]);
    assert_eq!(app.game.turn, PlayerId(0));
}

#[test]
fn gui_human_hokm_without_trump_somewhere_redeals() {
    let mut app = GuiApp::new(0);
    app.start_offline_match(4);
    assert_eq!(app.chooser, PlayerId(0));
    let before = app.logs.len();
    app.apply_hokm_choice(Suit::Diamonds, false);
    assert_eq!(app.logs[before], GuiLogEntry::HokmChosen { by_bot: false, suit: Suit::Diamonds });
    assert_eq!(
        app.logs[before + 1],
        GuiLogEntry::ZeroTrump {
            hokm: Suit::Diamonds,
            lacking: SeatFlags { p0: false, p1: true, p2: false, p3: false },
        }
    );
    assert_eq!(app.logs[before + 2], GuiLogEntry::Redeal);
    assert_eq!(app.logs.len(), before + 3);
    assert_eq!(app.deal_attempt, 1);
    assert_eq!(app.hokm, None);
    assert!(app.pending_hokm_pick);
    assert_eq!(app.game.phase, Phase::ChoosingHokm { chooser: PlayerId(0) });
    assert!(app.game.hands.iter().all(|h| h.len() == 13));
    assert_eq!(app.chooser_first5.len(), 5);
}

#[test]
fn gui_hokm_naming_out_of_phase_is_refused() {
    let mut app = GuiApp::new(0);
    app.start_offline_match(1);
    let game_before = app.game.clone();
    let before = app.logs.len();
    app.apply_hokm_choice(Suit::Spades, false);
    // The chooser (seat 1) is not to move: the rules refuse.
    assert_eq!(app.logs[before], GuiLogEntry::HokmError(Error::NotPlayersTurn));
    assert_eq!(app.logs.len(), before + 1);
    assert_eq!(app.game.hands, game_before.hands);
    assert_eq!(app.game.phase, game_before.phase);
    assert_eq!(app.hokm, Some(Suit::Clubs));
}

#[test]
fn gui_play_refusals_change_nothing() {
    let mut app = GuiApp::new(0);
    app.start_offline_match(42);
    // Hokm not named yet: playing is refused.
    let c = app.game.hands[0][0];
    app.play_human_card(c);
    assert_eq!(app.logs.last(), Some(&GuiLogEntry::NotPlaying));
    app.apply_hokm_choice(Suit::Spades, false);
    assert_eq!(app.game.phase, Phase::Playing);
    // The dealer is seat 3, so the human leads.
    assert_eq!(app.game.turn, PlayerId(0));
    // A card the human does not hold.
    let missing = [Suit::Clubs, Suit::Diamonds, Suit::Hearts, Suit::Spades]
        .iter()
        .flat_map(|s| {
            [Rank::Two, Rank::Ace].iter().map(move |r| card(*s, *r)).collect::<Vec<_>>()
        })
        .find(|c| !app.game.hands[0].contains(c))
        .unwrap();
    let hands = app.game.hands.clone();
    app.play_human_card(missing);
    assert_eq!(app.logs.last(), Some(&GuiLogEntry::IllegalMove(Error::CardNotInHand)));
    assert_eq!(app.game.hands, hands);
}

#[test]
fn gui_human_play_is_answered_by_the_bots() {
    let mut app = GuiApp::new(0);
    app.start_offline_match(42);
    app.apply_hokm_choice(Suit::Spades, false);
    assert_eq!(app.hokm, Some(Suit::Spades));
    let legal = app.game.legal_actions(PlayerId(0));
    let c = match legal[0] {
        Action::PlayCard { card } => card,
        _ => panic!("expected a card"),
    };
    let before = app.logs.len();
    app.play_human_card(c);
    assert_eq!(app.logs[before], GuiLogEntry::YouPlayed(c));
    assert_eq!(app.fly_queue[0], (0, c));
    // Every played card was queued, and the bots played on until the human's turn.
    assert_eq!(app.fly_queue.len() + total_cards(&app), 52);
    assert!(app.fly_queue.len() >= 4);
    assert_eq!(app.game.turn, PlayerId(0));
    let bot_lines: Vec<GuiLogEntry> = app.logs[before..]
        .iter()
        .filter(|e| matches!(e, GuiLogEntry::BotPlayed { .. }))
        .cloned()
        .collect();
    let expected: Vec<GuiLogEntry> = app.fly_queue[1..]
        .iter()
        .map(|(seat, card)| GuiLogEntry::BotPlayed { seat: *seat, card: *card })
        .collect();
    assert_eq!(bot_lines, expected);
}

#[test]
fn gui_fly_queue_is_first_in_first_out() {
    let mut app = GuiApp::new(0);
    app.start_offline_match(1);
    let queued = app.fly_queue.clone();
    assert_eq!(app.pop_next_fly(), Some(queued[0]));
    assert_eq!(app.pop_next_fly(), Some(queued[1]));
    assert_eq!(app.pop_next_fly(), Some(queued[2]));
    assert_eq!(app.pop_next_fly(), None);
}

#[test]
fn gui_banner_is_shown_once_per_round() {
    let mut app = GuiApp::new(0);
    app.start_offline_match(1);
    assert_eq!(app.maybe_trigger_round_end_banner(), None);
    app.game.phase = Phase::RoundOver { winner: Team::B, kot: true };
    assert_eq!(
        app.maybe_trigger_round_end_banner(),
        Some(Banner::RoundOver { round: 1, winner: Team::B, kot: true })
    );
    assert_eq!(app.banner_round_number, 1);
    assert_eq!(app.maybe_trigger_round_end_banner(), None);
}

#[test]
fn gui_back_to_menu_keeps_the_table() {
    let mut app = GuiApp::new(0);
    app.start_offline_match(1);
    let hands = app.game.hands.clone();
    app.back_to_menu();
    assert_eq!(app.screen, Screen::MainMenu);
    assert_eq!(app.menu_msg, "Back to menu.");
    assert_eq!(app.game.hands, hands);
}

#[test]
fn gui_whole_round_then_next_round() {
    let mut app = GuiApp::new(0);
    app.start_offline_match(42);
    app.apply_hokm_choice(Suit::Spades, false);
    let mut guard = 0;
    while app.game.phase == Phase::Playing {
        guard += 1;
        assert!(guard < 20);
        assert_eq!(app.game.turn, PlayerId(0));
        let c = match app.game.legal_actions(PlayerId(0))[0] {
            Action::PlayCard { card } => card,
            _ => panic!("expected a card"),
        };
        let cards = total_cards(&app);
        app.play_human_card(c);
        assert!(total_cards(&app) < cards);
    }
    assert!(matches!(app.game.phase, Phase::RoundOver { .. }));
    let won = app.game.rounds_won;
    assert_eq!(won[0] + won[1], 1);
    assert!(matches!(
        app.maybe_trigger_round_end_banner(),
        Some(Banner::RoundOver { round: 1, .. })
    ));
    app.next_round();
    assert_eq!(app.round_number, 2);
    assert_eq!(app.logs[2], GuiLogEntry::RoundHeader(2));
    // Each round starts from a fresh game state.
    assert_eq!(app.game.rounds_won, [0, 0]);
    assert_eq!(app.deal_attempt, 0);
}

#[test]
fn gui_hand_display_helpers() {
    let mut app = GuiApp::new(0);
    app.start_offline_match(42);
    assert!(app.human_is_choosing_hokm());
    assert!(!app.hand_enabled());
    assert_eq!(app.hidden_cards(), 8);
    app.apply_hokm_choice(Suit::Spades, false);
    assert!(!app.human_is_choosing_hokm());
    assert!(app.hand_enabled());
    app.hand_sort = HandSortMode::Rank;
    let shown = app.hand_for_display();
    assert_eq!(shown.len(), 13);
    // Highest rank first.
    assert!(shown.windows(2).all(|w| w[0].rank.value() >= w[1].rank.value()));
    let mut a = shown.clone();
    let mut b = app.game.hands[0].clone();
    a.sort_by_key(|c| (c.suit as u8, c.rank.value()));
    b.sort_by_key(|c| (c.suit as u8, c.rank.value()));
    assert_eq!(a, b);
}
