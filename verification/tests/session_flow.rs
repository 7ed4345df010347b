use hokm::autoplay::SeatFlags;
use hokm::session::{App, LogEntry, SeatCounts};
use hokm::Suit;
use hokm::{Phase, PlayerId};

#[test]
fn bot_chooser_starts_the_game() {
    let app = App::new(42);
    assert_eq!(app.chooser, PlayerId(3));
    assert_eq!(app.dealer, PlayerId(2));
    assert_eq!(app.logs[0], LogEntry::Seed(42));
    assert_eq!(app.logs[2], LogEntry::Dealer(PlayerId(2)));
    assert!(app.hokm.is_some());
    assert_eq!(app.game.hokm, app.hokm);
    // Bots played until it is the human's turn.
    assert_eq!(app.game.turn, PlayerId(0));
    assert_eq!(app.game.phase, Phase::Playing);
    assert!(app.selected.is_some());
    let hokm = app.hokm.unwrap();
    assert!(app.game.hands.iter().all(|h| h.iter().any(|c| c.suit == hokm)));
    assert!(matches!(app.logs[3], LogEntry::BotChoseHokm(_)));
}

#[test]
fn human_chooser_names_hokm_with_enter() {
    let mut app = App::new(1);
    assert_eq!(app.chooser, PlayerId(0));
    assert_eq!(app.game.phase, Phase::ChoosingHokm { chooser: PlayerId(0) });
    assert_eq!(app.logs[3], LogEntry::YouAreChooser);
    let first = app.game.hands[0][0];
    let before = app.logs.len();
    app.try_play_selected_card();
    assert_eq!(app.logs[before], LogEntry::YouChoseHokm(first.suit));
    if let Some(h) = app.hokm {
        assert!(app.game.hands.iter().all(|hand| hand.iter().any(|c| c.suit == h)));
        assert_eq!(app.game.turn, PlayerId(0));
    } else {
        assert_eq!(app.game.phase, Phase::ChoosingHokm { chooser: PlayerId(0) });
        assert_eq!(*app.logs.last().unwrap(), LogEntry::HokmPickHint);
    }
}

#[test]
fn human_plays_and_bots_answer() {
    let mut app = App::new(42);
    let hand_before = app.game.hands[0].len();
    // The selected first card does not follow suit: refused, nothing changes.
    let before = app.game.clone();
    app.try_play_selected_card();
    assert!(matches!(app.logs.last().unwrap(), LogEntry::IllegalMove(hokm::Error::MustFollowSuit { .. })));
    assert_eq!(app.game.hands, before.hands);
    // Select a card of the lead suit.
    let lead = app.game.current_trick[0].1.suit;
    let idx = app.game.hands[0].iter().position(|c| c.suit == lead).unwrap();
    app.selected = Some(idx);
    let card = app.game.hands[0][idx];
    app.try_play_selected_card();
    assert!(app.logs.iter().any(|e| *e == LogEntry::YouPlayed(card)));
    assert_eq!(app.game.hands[0].len(), hand_before - 1);
    assert_eq!(app.game.turn, PlayerId(0));
}

#[test]
fn cursor_moves_and_refusals() {
    let mut app = App::new(42);
    app.selected = Some(0);
    app.hand_cursor_up();
    assert_eq!(app.selected, Some(0));
    app.hand_cursor_down();
    assert_eq!(app.selected, Some(1));
    let len = app.game.hands[0].len();
    app.selected = Some(len - 1);
    app.hand_cursor_down();
    assert_eq!(app.selected, Some(len - 1));
    // Not the human's turn after a forced change of turn: refusal leaves the game as is.
    app.game.turn = PlayerId(1);
    let g = app.game.clone();
    app.try_play_selected_card();
    assert_eq!(*app.logs.last().unwrap(), LogEntry::NotYourTurn);
    assert_eq!(app.game.hands, g.hands);
    let snapshot_len = app.logs.len();
    app.on_tick();
    assert_eq!(app.logs.len(), snapshot_len);
}

#[test]
fn reset_starts_a_new_match() {
    let mut app = App::new(42);
    app.try_play_selected_card();
    app.reset_match(7);
    assert_eq!(app.base_seed, 7);
    assert_eq!(app.chooser, PlayerId(1));
    assert_eq!(app.logs[0], LogEntry::Seed(7));
}

#[test]
fn bot_hokm_counts_are_logged() {
    let app = App::new(42);
    assert_eq!(app.logs[3], LogEntry::BotChoseHokm(Suit::Hearts));
    assert_eq!(
        app.logs[4],
        LogEntry::TrumpCounts { hokm: Suit::Hearts, counts: SeatCounts { p0: 2, p1: 2, p2: 5, p3: 4 } }
    );
    assert_eq!(app.logs[5], LogEntry::TrumpCheckOk);
    assert_eq!(app.deal_attempt, 0);
}

#[test]
fn bot_chooser_redeals_when_a_seat_lacks_hokm() {
    let app = App::new(3);
    assert_eq!(app.chooser, PlayerId(3));
    assert_eq!(app.dealer, PlayerId(2));
    assert_eq!(app.logs[3], LogEntry::BotChoseHokm(Suit::Clubs));
    assert_eq!(
        app.logs[4],
        LogEntry::TrumpCounts { hokm: Suit::Clubs, counts: SeatCounts { p0: 3, p1: 0, p2: 4, p3: 6 } }
    );
    assert_eq!(
        app.logs[5],
        LogEntry::Redeal { hokm: Suit::Clubs, seats: SeatFlags { p0: false, p1: true, p2: false, p3: false } }
    );
    assert_eq!(app.logs[6], LogEntry::BotChoseHokm(Suit::Diamonds));
    assert_eq!(
        app.logs[7],
        LogEntry::TrumpCounts { hokm: Suit::Diamonds, counts: SeatCounts { p0: 5, p1: 2, p2: 2, p3: 4 } }
    );
    assert_eq!(app.logs[8], LogEntry::TrumpCheckOk);
    assert_eq!(app.deal_attempt, 1);
    assert_eq!(app.hokm, Some(Suit::Diamonds));
    assert_eq!(app.selected, Some(0));
    // Where hokm settles, every seat holds it; the human's hand is untouched by the bots.
    assert!(app.game.hands.iter().all(|h| h.iter().any(|c| c.suit == Suit::Diamonds)));
    assert_eq!(app.game.hands[0].len(), 13);
}

#[test]
fn human_hokm_without_trump_somewhere_redeals() {
    let mut app = App::new(96);
    assert_eq!(app.chooser, PlayerId(0));
    assert_eq!(app.game.hands[0][0].suit, Suit::Clubs);
    let before = app.logs.len();
    app.try_play_selected_card();
    assert_eq!(app.logs[before], LogEntry::YouChoseHokm(Suit::Clubs));
    assert_eq!(
        app.logs[before + 1],
        LogEntry::TrumpCounts { hokm: Suit::Clubs, counts: SeatCounts { p0: 6, p1: 3, p2: 0, p3: 4 } }
    );
    assert_eq!(
        app.logs[before + 2],
        LogEntry::Redeal { hokm: Suit::Clubs, seats: SeatFlags { p0: false, p1: false, p2: true, p3: false } }
    );
    assert_eq!(app.logs[before + 3], LogEntry::MustChooseAgain);
    assert_eq!(app.logs[before + 4], LogEntry::HokmPickHint);
    assert_eq!(app.logs.len(), before + 5);
    assert_eq!(app.deal_attempt, 1);
    assert_eq!(app.hokm, None);
    assert_eq!(app.game.phase, Phase::ChoosingHokm { chooser: PlayerId(0) });
    assert_eq!(app.selected, Some(0));
    assert!(app.game.hands.iter().all(|h| h.len() == 13));
}

#[test]
fn seat_panels_name_roles() {
    let app = App::new(42);
    // Seat 3 chooses, seat 2 deals, and the human is to play.
    assert_eq!(app.seat_info(3), " (chooser)");
    assert_eq!(app.seat_info(2), " (dealer)");
    assert_eq!(app.seat_info(0), " <- turn");
    assert_eq!(app.seat_info(1), "");
}
