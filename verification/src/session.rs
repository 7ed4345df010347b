//! An offline match against three bots: seat 0 is the human, seats 1 to 3 are bots.
//!
//! Table rules on top of the core rules: if after hokm is chosen any seat holds no
//! hokm card, the round is redealt (a new deal attempt) and hokm is chosen again;
//! bots play automatically until it is the human's turn.
use vstd::prelude::*;
use crate::ai::{choose_action, Difficulty};
use crate::autoplay::{
    bot_move, bots_play, game_ok, lacking, lemma_bot_move_shrinks, lemma_bots_keep_human_hand,
    lemma_bots_play_next, lemma_bots_play_stop,
    lemma_next_round_overwrites, lemma_sorted_deal_sizes, lemma_sorted_deal_unique,
    lemma_table_step, sorted_deal, total_cards, trumps_ok, SeatFlags,
};
use crate::deal::{chooser_by_first_ace, predraw_ace, predraw_chooser};
use crate::game::{holds_suit, GameState, GameView};
use crate::laws::lemma_bot_choice_is_legal;
use crate::table::{
    bot_hokm, choose_hokm_for_bot, deal_sorted_for_ui, every_seat_has_trump, lemma_bot_hokm_unique,
    lemma_strength_bounded, suit_count, trump_count_per_player,
};
use crate::types::{Action, Card, Error, Event, GameConfig, Phase, PlayerId, Suit};

verus! {

/// Hokm cards held by each seat, seats 0 to 3.
#[derive(Clone, Copy, Debug, PartialEq, Eq, Structural)]
pub struct SeatCounts {
    pub p0: u8,
    pub p1: u8,
    pub p2: u8,
    pub p3: u8,
}

/// What happened at the table, in order. The client turns entries into text.
#[derive(Clone, Copy, Debug, PartialEq, Eq, Structural)]
pub enum LogEntry {
    Seed(u64),
    PreDraw { chooser: PlayerId, ace: Card },
    Dealer(PlayerId),
    /// The human is the chooser and must name hokm.
    YouAreChooser,
    /// Hint: Enter picks the suit of the first card in hand as hokm.
    HokmPickHint,
    /// The human has no card to take a hokm suit from.
    NoCardsToChooseFrom,
    YouChoseHokm(Suit),
    HokmChoiceRefused(Error),
    BotChoseHokm(Suit),
    BotHokmRefused(Error),
    TrumpCounts { hokm: Suit, counts: SeatCounts },
    TrumpCheckOk,
    /// The flagged seats hold no hokm card: the round is redealt.
    Redeal { hokm: Suit, seats: SeatFlags },
    /// No further deal attempt is possible: play goes on with this deal.
    RedealLimitReached,
    MustChooseAgain,
    NotYourTurn,
    NotPlayingPhase,
    HandEmpty,
    NoCardSelected,
    YouPlayed(Card),
    GameEvent(Event),
    IllegalMove(Error),
    RoundOver,
    BotHadNoAction(u8),
    BotReturnedNonPlay,
    BotPlayed { seat: u8, card: Card },
    BotMoveRefused(Error),
}

/// An offline match in progress.
pub struct App {
    pub bot_diff: Difficulty,
    pub game: GameState,
    /// Which card of the human's hand is highlighted.
    pub selected: Option<usize>,
    pub logs: Vec<LogEntry>,
    pub chooser: PlayerId,
    pub dealer: PlayerId,
    pub hokm: Option<Suit>,
    pub base_seed: u64,
    /// Deal attempt of the current round (each redeal uses the next one).
    pub deal_attempt: u32,
}

/// The selection after the hand changed: the same position clamped to the hand, or none.
pub open spec fn clamped_selection(sel: Option<usize>, len: int) -> Option<usize> {
    if len == 0 {
        None
    } else {
        match sel {
            Some(i) => Some(if i < len {
                i
            } else {
                (len - 1) as usize
            }),
            None => Some(0),
        }
    }
}

impl App {
    /// The table's invariant.
    pub open spec fn wf(&self) -> bool {
        &&& game_ok(self.game@)
        &&& self.chooser.0 < 4
        &&& self.dealer.0 < 4
        &&& self.game.dealer == self.dealer
        &&& self.hokm == self.game.hokm
        &&& (self.game.phase matches Phase::ChoosingHokm { chooser } ==> chooser == self.chooser)
        &&& (self.selected matches Some(i) ==> i < self.game.hands@[0]@.len())
        &&& (self.game.phase is ChoosingHokm ==> self.game@.hands == sorted_deal(
            self.base_seed,
            self.dealer,
            self.deal_attempt,
        ))
    }

    /// The fields that only a new match changes.
    pub open spec fn same_table(&self, other: &App) -> bool {
        &&& self.bot_diff == other.bot_diff
        &&& self.chooser == other.chooser
        &&& self.dealer == other.dealer
        &&& self.base_seed == other.base_seed
        &&& self.game.config == other.game.config
    }

    /// Every tick of the client clock: nothing to do.
    pub fn on_tick(&mut self)
        ensures
            *final(self) == *old(self),
    {
    }

    /// Keep the selection inside the human's hand after it changed.
    fn fix_hand_selection(&mut self)
        ensures
            final(self).selected == clamped_selection(old(self).selected, old(self).game.hands@[0]@.len() as int),
            final(self).game == old(self).game,
            final(self).logs == old(self).logs,
            final(self).hokm == old(self).hokm,
            final(self).same_table(old(self)),
            final(self).deal_attempt == old(self).deal_attempt,
    {
        let len = self.game.hands[0].len();
        if len == 0 {
            self.selected = None;
            return;
        }
        let cur = match self.selected {
            Some(i) => i,
            None => 0,
        };
        self.selected = Some(if cur < len - 1 { cur } else { len - 1 });
    }

    /// Move the highlight one card down (towards the end of the hand).
    pub fn hand_cursor_down(&mut self)
        requires
            old(self).wf(),
        ensures
            final(self).wf(),
            final(self).selected == ({
                let len = old(self).game.hands@[0]@.len();
                if len == 0 {
                    None
                } else {
                    let cur = match old(self).selected {
                        Some(i) => i as int,
                        None => 0,
                    };
                    Some(if cur + 1 < len { (cur + 1) as usize } else { (len - 1) as usize })
                }
            }),
            final(self).game == old(self).game,
            final(self).logs == old(self).logs,
            final(self).same_table(old(self)),
    {
        let len = self.game.hands[0].len();
        if len == 0 {
            self.selected = None;
            return;
        }
        let cur = match self.selected {
            Some(i) => i,
            None => 0,
        };
        self.selected = Some(if cur + 1 < len - 1 { cur + 1 } else { len - 1 });
    }

    /// Move the highlight one card up (towards the start of the hand).
    pub fn hand_cursor_up(&mut self)
        ensures
            old(self).wf() ==> final(self).wf(),
            final(self).selected == ({
                let len = old(self).game.hands@[0]@.len();
                if len == 0 {
                    None
                } else {
                    let cur = match old(self).selected {
                        Some(i) => i as int,
                        None => 0,
                    };
                    Some(if cur > 0 { (cur - 1) as usize } else { 0usize })
                }
            }),
            final(self).game == old(self).game,
            final(self).logs == old(self).logs,
            final(self).same_table(old(self)),
    {
        let len = self.game.hands[0].len();
        if len == 0 {
            self.selected = None;
            return;
        }
        let cur = match self.selected {
            Some(i) => i,
            None => 0,
        };
        self.selected = Some(cur.saturating_sub(1));
    }
}

/// Hokm cards held by each seat.
pub open spec fn counts_of(hands: Seq<Seq<Card>>, hokm: Suit) -> SeatCounts {
    SeatCounts {
        p0: suit_count(hands[0], hokm) as u8,
        p1: suit_count(hands[1], hokm) as u8,
        p2: suit_count(hands[2], hokm) as u8,
        p3: suit_count(hands[3], hokm) as u8,
    }
}

/// Log entries of the trump check of `hokm`: the counts, then either the check is
/// passed or the seats without hokm are named for a redeal.
pub open spec fn trump_logs(hands: Seq<Seq<Card>>, hokm: Suit) -> Seq<LogEntry> {
    seq![LogEntry::TrumpCounts { hokm, counts: counts_of(hands, hokm) }] + if every_seat_has_trump(hands, hokm) {
        seq![LogEntry::TrumpCheckOk]
    } else {
        seq![LogEntry::Redeal { hokm, seats: lacking(hands, hokm) }]
    }
}

/// The hokm a bot chooser names at deal attempt `a` (from its whole sorted hand).
pub open spec fn tui_pick(base: u64, dealer: PlayerId, chooser: PlayerId, a: u32) -> Suit {
    bot_hokm(sorted_deal(base, dealer, a)[chooser.0 as int])
}

/// The deal attempt, from `a` on, at which a bot chooser's hokm is held by every seat
/// (or the last attempt there is).
pub open spec fn tui_settles_at(base: u64, dealer: PlayerId, chooser: PlayerId, a: u32) -> u32
    decreases u32::MAX - a,
{
    if trumps_ok(base, dealer, a, tui_pick(base, dealer, chooser, a)) || a == u32::MAX {
        a
    } else {
        tui_settles_at(base, dealer, chooser, (a + 1) as u32)
    }
}

/// Log entries of a bot chooser naming hokm from deal attempt `a` on, redeal by redeal.
pub open spec fn tui_chain_logs(base: u64, dealer: PlayerId, chooser: PlayerId, a: u32) -> Seq<LogEntry>
    decreases u32::MAX - a,
{
    let h = tui_pick(base, dealer, chooser, a);
    seq![LogEntry::BotChoseHokm(h)] + trump_logs(sorted_deal(base, dealer, a), h) + if trumps_ok(
        base,
        dealer,
        a,
        h,
    ) {
        Seq::empty()
    } else if a == u32::MAX {
        seq![LogEntry::RedealLimitReached]
    } else {
        tui_chain_logs(base, dealer, chooser, (a + 1) as u32)
    }
}

/// The settling attempt is never before the first one tried.
pub proof fn lemma_tui_settles_at_ge(base: u64, dealer: PlayerId, chooser: PlayerId, a: u32)
    ensures
        tui_settles_at(base, dealer, chooser, a) >= a,
    decreases u32::MAX - a,
{
    if !(trumps_ok(base, dealer, a, tui_pick(base, dealer, chooser, a)) || a == u32::MAX) {
        lemma_tui_settles_at_ge(base, dealer, chooser, (a + 1) as u32);
    }
}

/// Where a bot chooser's hokm settles, every seat holds a card of it, unless no
/// further deal attempt was left.
pub proof fn lemma_tui_settled_hokm_held(base: u64, dealer: PlayerId, chooser: PlayerId, a: u32)
    ensures
        ({
            let af = tui_settles_at(base, dealer, chooser, a);
            trumps_ok(base, dealer, af, tui_pick(base, dealer, chooser, af)) || af == u32::MAX
        }),
    decreases u32::MAX - a,
{
    if !(trumps_ok(base, dealer, a, tui_pick(base, dealer, chooser, a)) || a == u32::MAX) {
        lemma_tui_settled_hokm_held(base, dealer, chooser, (a + 1) as u32);
    }
}

/// A bot chooser names hokm from deal attempt `a` on (each deal on top of game `g`),
/// redealing until its hokm is held by every seat ([`tui_settles_at`]); a redeal
/// moves the selection to the first card.
pub open spec fn bot_settled(o: &App, n: &App, g: GameView, a: u32, sel0: Option<usize>, logs0: Seq<LogEntry>) -> bool {
    let af = tui_settles_at(o.base_seed, o.dealer, o.chooser, a);
    let h = tui_pick(o.base_seed, o.dealer, o.chooser, af);
    &&& n.game@ == g.next_round(o.dealer, o.chooser, sorted_deal(o.base_seed, o.dealer, af)).after_hokm(h)
    &&& n.hokm == Some(h)
    &&& n.deal_attempt == af
    &&& n.logs@ == logs0 + tui_chain_logs(o.base_seed, o.dealer, o.chooser, a)
    &&& n.selected == if af == a {
        sel0
    } else {
        Some(0usize)
    }
}

impl App {
    /// Log the hokm count of every seat; returns whether every seat holds hokm
    /// (otherwise the seats without it are logged for a redeal).
    fn check_trumps(&mut self, hokm: Suit) -> (ok: bool)
        requires
            old(self).wf(),
        ensures
            ok == every_seat_has_trump(old(self).game@.hands, hokm),
            ok <==> (holds_suit(old(self).game@.hands[0], hokm) && holds_suit(old(self).game@.hands[1], hokm)
                && holds_suit(old(self).game@.hands[2], hokm) && holds_suit(old(self).game@.hands[3], hokm)),
            final(self).logs@ == old(self).logs@ + trump_logs(old(self).game@.hands, hokm),
            final(self).game == old(self).game,
            final(self).selected == old(self).selected,
            final(self).hokm == old(self).hokm,
            final(self).deal_attempt == old(self).deal_attempt,
            final(self).same_table(old(self)),
    {
        let ghost hv = self.game@.hands;
        proof {
            crate::laws::lemma_trump_check_all_four_seats(hv, hokm);
        }
        let counts = trump_count_per_player(&self.game.hands, hokm);
        proof {
            assert forall|p: int| 0 <= p < 4 implies #[trigger] counts@[p] == suit_count(hv[p], hokm) by {
                lemma_strength_bounded(hv[p], hokm);
                assert(hv[p] == self.game.hands@[p]@);
            }
        }
        let seat_counts = SeatCounts { p0: counts[0], p1: counts[1], p2: counts[2], p3: counts[3] };
        self.logs.push(LogEntry::TrumpCounts { hokm, counts: seat_counts });
        let seats = SeatFlags { p0: counts[0] == 0, p1: counts[1] == 0, p2: counts[2] == 0, p3: counts[3] == 0 };
        if seats.p0 || seats.p1 || seats.p2 || seats.p3 {
            self.logs.push(LogEntry::Redeal { hokm, seats });
            proof {
                assert(!every_seat_has_trump(hv, hokm));
                assert(self.logs@ =~= old(self).logs@ + trump_logs(hv, hokm));
            }
            false
        } else {
            proof {
                assert forall|p: int| 0 <= p < 4 implies suit_count(#[trigger] hv[p], hokm) > 0 by {
                    lemma_strength_bounded(hv[p], hokm);
                }
            }
            self.logs.push(LogEntry::TrumpCheckOk);
            proof {
                assert(self.logs@ =~= old(self).logs@ + trump_logs(hv, hokm));
            }
            true
        }
    }

    /// Redeal the round: next deal attempt, hands sorted for display, hokm to be
    /// chosen again by the same chooser.
    fn redeal_round(&mut self)
        requires
            old(self).wf(),
            old(self).game@.rounds_won[0] < 255 && old(self).game@.rounds_won[1] < 255,
            old(self).deal_attempt < u32::MAX,
        ensures
            final(self).wf(),
            final(self).same_table(old(self)),
            final(self).deal_attempt == old(self).deal_attempt + 1,
            final(self).game@ == old(self).game@.next_round(
                old(self).dealer,
                old(self).chooser,
                sorted_deal(old(self).base_seed, old(self).dealer, final(self).deal_attempt),
            ),
            final(self).hokm is None,
            final(self).selected == Some(0usize),
            final(self).logs == old(self).logs,
    {
        self.deal_attempt = self.deal_attempt + 1;
        let hands = deal_sorted_for_ui(self.base_seed, self.dealer, self.deal_attempt);
        proof {
            let hv = hands@.map_values(|h: Vec<Card>| h@);
            assert(hv[0] == hands@[0]@);
            lemma_sorted_deal_sizes(hv, self.base_seed, self.dealer, self.deal_attempt);
            lemma_sorted_deal_unique(hv, self.base_seed, self.dealer, self.deal_attempt);
        }
        self.game.start_round_with_chooser(self.dealer, hands, self.chooser);
        self.hokm = None;
        if !self.game.hands[0].is_empty() {
            self.selected = Some(0);
        } else {
            self.selected = None;
        }
        proof {
            assert forall|p: int| 0 <= p < 4 implies (#[trigger] self.game@.hands[p]).len() <= 13 by {
                assert(self.game@.hands[p] == hands@[p]@);
            }
        }
    }

    /// The bot chooser names hokm (see [`bot_hokm`]); while some seat then holds no
    /// hokm, the round is redealt and the bot chooses again (see [`bot_settled`]).
    fn bot_choose_hokm_and_validate(&mut self)
        requires
            old(self).wf(),
            old(self).game.phase == (Phase::ChoosingHokm { chooser: old(self).chooser }),
            old(self).chooser.0 != 0,
        ensures
            final(self).wf(),
            final(self).same_table(old(self)),
            bot_settled(
                old(self),
                final(self),
                old(self).game@,
                old(self).deal_attempt,
                old(self).selected,
                old(self).logs@,
            ),
    {
        let ghost o = *self;
        let ghost base = self.base_seed;
        let ghost d = self.dealer;
        let ghost c = self.chooser;
        proof {
            lemma_next_round_overwrites(o.game@, d, c, o.game@.hands, o.game@.hands, Suit::Clubs);
        }
        loop
            invariant
                self.wf(),
                self.same_table(&o),
                o == *old(self),
                base == o.base_seed && d == o.dealer && c == o.chooser,
                self.game.phase == (Phase::ChoosingHokm { chooser: c }),
                c.0 != 0,
                self.deal_attempt >= o.deal_attempt,
                self.game@ == o.game@.next_round(d, c, sorted_deal(base, d, self.deal_attempt)),
                tui_settles_at(base, d, c, o.deal_attempt) == tui_settles_at(base, d, c, self.deal_attempt),
                o.logs@ + tui_chain_logs(base, d, c, o.deal_attempt) == self.logs@ + tui_chain_logs(
                    base,
                    d,
                    c,
                    self.deal_attempt,
                ),
                self.selected == if self.deal_attempt == o.deal_attempt {
                    o.selected
                } else {
                    Some(0usize)
                },
            decreases u32::MAX - self.deal_attempt,
        {
            let ci = self.chooser.idx();
            let ghost a = self.deal_attempt;
            proof {
                assert(self.game@.hands[ci as int] == self.game.hands@[ci as int]@);
                assert forall|s: Suit| suit_count(self.game.hands@[ci as int]@, s) <= 255 by {
                    lemma_strength_bounded(self.game@.hands[ci as int], s);
                    assert(self.game@.hands[ci as int].len() <= 13);
                }
            }
            let suit = choose_hokm_for_bot(self.game.hands[ci].as_slice());
            proof {
                lemma_bot_hokm_unique(self.game.hands@[ci as int]@, suit);
                assert(suit == tui_pick(base, d, c, a));
                lemma_table_step(self.game@, self.chooser, Action::ChooseHokm { suit });
            }
            let ghost before = *self;
            match self.game.apply_action(self.chooser, Action::ChooseHokm { suit }) {
                Ok(_) => {
                    self.hokm = Some(suit);
                    self.logs.push(LogEntry::BotChoseHokm(suit));
                    proof {
                        assert(self.game.hands@[0]@ == self.game@.hands[0]);
                        assert(before.game.hands@[0]@ == before.game@.hands[0]);
                    }
                    if self.check_trumps(suit) {
                        proof {
                            assert(self.logs@ =~= before.logs@ + tui_chain_logs(base, d, c, a));
                        }
                        return;
                    }
                    if self.deal_attempt == u32::MAX {
                        self.logs.push(LogEntry::RedealLimitReached);
                        proof {
                            assert(self.logs@ =~= before.logs@ + tui_chain_logs(base, d, c, a));
                        }
                        return;
                    }
                    let ghost mid = self.logs@;
                    self.redeal_round();
                    proof {
                        let a1 = self.deal_attempt;
                        assert(mid =~= before.logs@.push(LogEntry::BotChoseHokm(suit)) + trump_logs(sorted_deal(base, d, a), suit));
                        assert(before.logs@ + tui_chain_logs(base, d, c, a) =~= self.logs@ + tui_chain_logs(base, d, c, a1));
                        lemma_next_round_overwrites(o.game@, d, c, sorted_deal(base, d, a), sorted_deal(base, d, a1), suit);
                        lemma_next_round_overwrites(o.game@.next_round(d, c, sorted_deal(base, d, a)), d, c, sorted_deal(base, d, a1), sorted_deal(base, d, a1), suit);
                    }
                },
                Err(e) => {
                    proof {
                        assert(false);
                    }
                    self.logs.push(LogEntry::BotHokmRefused(e));
                    return;
                },
            }
        }
    }
}

/// The events of the play of `card` by the seat to move in `v`.
pub open spec fn play_events(v: GameView, card: Card) -> Seq<Event> {
    v.step(v.turn, Action::PlayCard { card })->Ok_0.1
}

/// The log entry of a game event.
pub open spec fn event_entry(e: Event) -> LogEntry {
    LogEntry::GameEvent(e)
}

/// What the log says where the bots stopped: the round ended, or a bot had no card.
pub open spec fn stop_note(v: GameView) -> Seq<LogEntry> {
    if v.phase is RoundOver || v.phase is GameOver {
        seq![LogEntry::RoundOver]
    } else if v.phase == Phase::Playing && v.turn != PlayerId(0) {
        seq![LogEntry::BotHadNoAction(v.turn.0)]
    } else {
        Seq::empty()
    }
}

/// Log entries of the bots' run from `v` (see [`bots_play`]): each bot card with the
/// events it caused, then where they stopped.
#[verifier::opaque]
pub open spec fn tui_run_logs(v: GameView, diff: Difficulty, base: u64) -> Seq<LogEntry>
    decreases total_cards(v),
{
    if !v.wf() {
        Seq::empty()
    } else {
        match bot_move(v, PlayerId(0), diff, base) {
            Some((w, x)) => {
                proof {
                    lemma_bot_move_shrinks(v, PlayerId(0), diff, base);
                }
                seq![LogEntry::BotPlayed { seat: x.0, card: x.1 }] + play_events(v, x.1).map_values(
                    |e: Event| event_entry(e),
                ) + tui_run_logs(w, diff, base)
            },
            None => stop_note(v),
        }
    }
}

proof fn lemma_tui_run_stop(v: GameView, diff: Difficulty, base: u64)
    requires
        v.wf(),
        v.phase != Phase::Playing || v.turn == PlayerId(0) || crate::ai::bot_choice(
            v,
            v.turn,
            diff,
            crate::autoplay::bot_seed(base, v.turn),
        ) is None,
    ensures
        tui_run_logs(v, diff, base) == stop_note(v),
{
    reveal(bot_move);
    reveal(tui_run_logs);
}

#[verifier::rlimit(40)]
proof fn lemma_tui_run_next(v: GameView, diff: Difficulty, base: u64, card: Card)
    requires
        v.wf(),
        v.phase == Phase::Playing,
        v.turn != PlayerId(0),
        crate::ai::bot_choice(v, v.turn, diff, crate::autoplay::bot_seed(base, v.turn)) == Some(
            Action::PlayCard { card },
        ),
        v.step(v.turn, Action::PlayCard { card }) is Ok,
    ensures
        tui_run_logs(v, diff, base) == seq![LogEntry::BotPlayed { seat: v.turn.0, card }] + play_events(
            v,
            card,
        ).map_values(|e: Event| event_entry(e)) + tui_run_logs(
            v.step(v.turn, Action::PlayCard { card })->Ok_0.0,
            diff,
            base,
        ),
{
    let w = v.step(v.turn, Action::PlayCard { card })->Ok_0.0;
    assert(bot_move(v, PlayerId(0), diff, base) == Some((w, (v.turn.0, card)))) by {
        reveal(bot_move);
    }
    reveal(tui_run_logs);
}

/// A bot chooser still has to name hokm.
pub open spec fn bot_to_choose(app: &App) -> bool {
    app.game.phase is ChoosingHokm && app.chooser.0 != 0
}

/// The deal attempt at which a waiting bot chooser's hokm settles ([`tui_settles_at`]).
pub open spec fn settle_attempt(app: &App) -> u32 {
    tui_settles_at(app.base_seed, app.dealer, app.chooser, app.deal_attempt)
}

/// The game the bots start playing from: once a waiting bot chooser has named hokm
/// (see [`bot_settled`]), otherwise the game as it is.
pub open spec fn play_start(app: &App) -> GameView {
    if bot_to_choose(app) {
        let af = settle_attempt(app);
        app.game@.next_round(app.dealer, app.chooser, sorted_deal(app.base_seed, app.dealer, af)).after_hokm(
            tui_pick(app.base_seed, app.dealer, app.chooser, af),
        )
    } else {
        app.game@
    }
}

/// The log when the bots start playing (after a waiting bot chooser named hokm).
pub open spec fn start_logs(app: &App) -> Seq<LogEntry> {
    if bot_to_choose(app) {
        app.logs@ + tui_chain_logs(app.base_seed, app.dealer, app.chooser, app.deal_attempt)
    } else {
        app.logs@
    }
}

/// The selection when the bots start playing (a redeal moves it to the first card).
pub open spec fn start_selection(app: &App) -> Option<usize> {
    if bot_to_choose(app) && settle_attempt(app) != app.deal_attempt {
        Some(0usize)
    } else {
        app.selected
    }
}

/// The hokm when the bots start playing.
pub open spec fn start_hokm(app: &App) -> Option<Suit> {
    if bot_to_choose(app) {
        Some(tui_pick(app.base_seed, app.dealer, app.chooser, settle_attempt(app)))
    } else {
        app.hokm
    }
}

/// The deal attempt when the bots start playing.
pub open spec fn start_attempt(app: &App) -> u32 {
    if bot_to_choose(app) {
        settle_attempt(app)
    } else {
        app.deal_attempt
    }
}

/// A bot's play while the bots run: it is accepted, keeps the table facts and the
/// human's hand, takes a card out of the hands, and the run goes on from the state
/// after it.
proof fn lemma_bot_step(v: GameView, d: Difficulty, b: u64, card: Card)
    requires
        game_ok(v),
        v.phase == Phase::Playing,
        v.turn != PlayerId(0),
        crate::ai::bot_choice(v, v.turn, d, crate::autoplay::bot_seed(b, v.turn)) == Some(
            Action::PlayCard { card },
        ),
    ensures
        v.step(v.turn, Action::PlayCard { card }) is Ok,
        v.step_fits(v.turn, Action::PlayCard { card }),
        ({
            let w = v.step(v.turn, Action::PlayCard { card })->Ok_0.0;
            &&& game_ok(w)
            &&& !(w.phase is ChoosingHokm)
            &&& w.hands[0] == v.hands[0]
            &&& total_cards(w) < total_cards(v)
            &&& bots_play(v, PlayerId(0), d, b).0 == bots_play(w, PlayerId(0), d, b).0
            &&& tui_run_logs(v, d, b) == seq![LogEntry::BotPlayed { seat: v.turn.0, card }] + play_events(
                v,
                card,
            ).map_values(|e: Event| event_entry(e)) + tui_run_logs(w, d, b)
        }),
{
    lemma_bot_choice_is_legal(v, v.turn, d, crate::autoplay::bot_seed(b, v.turn));
    lemma_table_step(v, v.turn, Action::PlayCard { card });
    crate::laws::lemma_play_moves_card(v, v.turn, card);
    lemma_tui_run_next(v, d, b, card);
    lemma_bots_play_next(v, PlayerId(0), d, b, card);
}

impl App {
    /// Append one log entry per event, in order.
    fn log_events(&mut self, events: &Vec<Event>)
        ensures
            final(self).logs@ == old(self).logs@ + events@.map_values(|e: Event| event_entry(e)),
            final(self).game == old(self).game,
            final(self).selected == old(self).selected,
            final(self).hokm == old(self).hokm,
            final(self).deal_attempt == old(self).deal_attempt,
            final(self).same_table(old(self)),
    {
        let n = events.len();
        let mut i: usize = 0;
        while i < n
            invariant
                i <= n,
                n == events@.len(),
                self.logs@ == old(self).logs@ + events@.take(i as int).map_values(|e: Event| event_entry(e)),
                self.game == old(self).game,
                self.selected == old(self).selected,
                self.hokm == old(self).hokm,
                self.deal_attempt == old(self).deal_attempt,
                self.same_table(old(self)),
            decreases n - i,
        {
            self.logs.push(LogEntry::GameEvent(events[i]));
            i = i + 1;
            proof {
                assert(self.logs@ =~= old(self).logs@ + events@.take(i as int).map_values(|e: Event| event_entry(e)));
            }
        }
        proof {
            assert(events@.take(n as int) =~= events@);
        }
    }

    /// A bot chooser still waiting to name hokm names it first (redealing as
    /// [`bot_settled`] says); then bots play until [`bots_play`] stops. Each bot card
    /// is logged with its events, then where they stopped; the selection is clamped to
    /// the human's hand.
    fn run_bots_until_human_turn(&mut self)
        requires
            old(self).wf(),
        ensures
            final(self).wf(),
            final(self).same_table(old(self)),
            final(self).hokm == start_hokm(old(self)),
            final(self).deal_attempt == start_attempt(old(self)),
            final(self).game@ == bots_play(play_start(old(self)), PlayerId(0), old(self).bot_diff, old(self).base_seed).0,
            final(self).logs@ == start_logs(old(self)) + tui_run_logs(play_start(old(self)), old(self).bot_diff, old(self).base_seed),
            final(self).selected == clamped_selection(start_selection(old(self)), play_start(old(self)).hands[0].len() as int),
    {
        let ghost o = *self;
        let ghost g0 = play_start(&o);
        let ghost d = self.bot_diff;
        let ghost b = self.base_seed;
        loop
            invariant_except_break
                start_logs(&o) + tui_run_logs(g0, d, b) == start_logs(self) + tui_run_logs(play_start(self), d, b),
            invariant
                self.wf(),
                self.same_table(&o),
                o == *old(self),
                g0 == play_start(&o),
                d == self.bot_diff,
                b == self.base_seed,
                start_hokm(self) == start_hokm(&o),
                start_attempt(self) == start_attempt(&o),
                start_selection(self) == start_selection(&o),
                bots_play(g0, PlayerId(0), d, b).0 == bots_play(play_start(self), PlayerId(0), d, b).0,
                play_start(self).hands[0] == g0.hands[0],
            ensures
                self.wf(),
                self.same_table(&o),
                self.hokm == start_hokm(&o),
                self.deal_attempt == start_attempt(&o),
                self.selected == start_selection(&o),
                self.game@ == bots_play(g0, PlayerId(0), d, b).0,
                self.logs@ == start_logs(&o) + tui_run_logs(g0, d, b),
                self.game@.hands[0] == g0.hands[0],
            decreases (if bot_to_choose(self) {
                1int
            } else {
                0int
            }), total_cards(self.game@),
        {
            match self.game.phase {
                Phase::RoundOver { .. } | Phase::GameOver { .. } => {
                    proof {
                        lemma_tui_run_stop(self.game@, d, b);
                        lemma_bots_play_stop(self.game@, PlayerId(0), d, b);
                    }
                    self.logs.push(LogEntry::RoundOver);
                    break;
                },
                _ => {},
            }
            if self.game.turn.0 == 0 {
                proof {
                    lemma_tui_run_stop(self.game@, d, b);
                    lemma_bots_play_stop(self.game@, PlayerId(0), d, b);
                    assert(self.logs@ =~= self.logs@ + Seq::<LogEntry>::empty());
                }
                break;
            }
            if let Phase::ChoosingHokm { .. } = self.game.phase {
                // A bot chooser names hokm; the human chooser is waited for.
                if self.chooser.0 != 0 && self.hokm.is_none() {
                    let ghost before = *self;
                    self.bot_choose_hokm_and_validate();
                    proof {
                        assert(!bot_to_choose(self));
                        assert(play_start(self) == play_start(&before));
                    }
                    continue;
                }
                proof {
                    lemma_tui_run_stop(self.game@, d, b);
                    lemma_bots_play_stop(self.game@, PlayerId(0), d, b);
                    assert(self.logs@ =~= self.logs@ + Seq::<LogEntry>::empty());
                }
                break;
            }
            let pid = self.game.turn;
            let seed = self.base_seed.wrapping_add(pid.0 as u64 * 9999);
            proof {
                assert(seed == crate::autoplay::bot_seed(b, pid));
            }
            let action = match choose_action(&self.game, pid, self.bot_diff, seed) {
                Some(a) => a,
                None => {
                    proof {
                        lemma_tui_run_stop(self.game@, d, b);
                        lemma_bots_play_stop(self.game@, PlayerId(0), d, b);
                    }
                    self.logs.push(LogEntry::BotHadNoAction(pid.0));
                    break;
                },
            };
            let card = match action {
                Action::PlayCard { card } => card,
                _ => {
                    proof {
                        assert(false);
                    }
                    self.logs.push(LogEntry::BotReturnedNonPlay);
                    break;
                },
            };
            let ghost v = self.game@;
            proof {
                lemma_bot_step(v, d, b, card);
            }
            match self.game.apply_action(pid, action) {
                Ok(events) => {
                    self.logs.push(LogEntry::BotPlayed { seat: pid.0, card });
                    self.log_events(&events);
                    proof {
                        let w = self.game@;
                        assert(self.logs@ + tui_run_logs(w, d, b) =~= start_logs(&o) + tui_run_logs(g0, d, b));
                    }
                },
                Err(e) => {
                    proof {
                        assert(false);
                    }
                    self.logs.push(LogEntry::BotMoveRefused(e));
                    break;
                },
            }
        }
        proof {
            assert(self.game.hands@[0]@ == self.game@.hands[0]);
        }
        self.fix_hand_selection();
    }
}

impl App {
    /// Apply the redeal rule after hokm was named: when some seat holds no hokm card,
    /// redeal; a bot chooser then chooses again at once, while the human has to choose
    /// again (returns false). Returns true when play can go on.
    fn validate_or_redeal_after_hokm(&mut self) -> (r: bool)
        requires
            old(self).wf(),
            // A redeal starts the round again: a finished match's round counters must
            // still fit a further round win in their `u8`.
            old(self).game.phase is GameOver ==> old(self).game@.rounds_won[0] < 255
                && old(self).game@.rounds_won[1] < 255,
        ensures
            final(self).wf(),
            final(self).same_table(old(self)),
            old(self).hokm is None ==> !r && *final(self) == *old(self),
            old(self).hokm is Some ==> ({
                let o = *old(self);
                let n = *final(self);
                let hv = o.game@.hands;
                let h = o.hokm->0;
                let l1 = o.logs@ + trump_logs(hv, h);
                if every_seat_has_trump(hv, h) {
                    &&& r
                    &&& n.game == o.game && n.selected == o.selected && n.hokm == o.hokm
                    &&& n.deal_attempt == o.deal_attempt && n.logs@ == l1
                } else if o.deal_attempt == u32::MAX {
                    &&& r
                    &&& n.game == o.game && n.selected == o.selected && n.hokm == o.hokm
                    &&& n.deal_attempt == o.deal_attempt && n.logs@ == l1.push(LogEntry::RedealLimitReached)
                } else {
                    let a1 = (o.deal_attempt + 1) as u32;
                    if o.chooser.0 != 0 {
                        r && bot_settled(&o, &n, o.game@, a1, Some(0usize), l1)
                    } else {
                        &&& !r
                        &&& n.game@ == o.game@.next_round(o.dealer, o.chooser, sorted_deal(o.base_seed, o.dealer, a1))
                        &&& n.hokm is None
                        &&& n.deal_attempt == a1
                        &&& n.selected == Some(0usize)
                        &&& n.logs@ == l1 + seq![LogEntry::MustChooseAgain, LogEntry::HokmPickHint]
                    }
                }
            }),
    {
        let hokm = match self.hokm {
            Some(h) => h,
            None => return false,
        };
        if self.check_trumps(hokm) {
            return true;
        }
        if self.deal_attempt == u32::MAX {
            self.logs.push(LogEntry::RedealLimitReached);
            return true;
        }
        self.redeal_round();
        if self.chooser.0 != 0 {
            let ghost mid = *self;
            self.bot_choose_hokm_and_validate();
            proof {
                let o = old(self);
                let a1 = mid.deal_attempt;
                let af = tui_settles_at(o.base_seed, o.dealer, o.chooser, a1);
                lemma_next_round_overwrites(
                    o.game@,
                    o.dealer,
                    o.chooser,
                    sorted_deal(o.base_seed, o.dealer, a1),
                    sorted_deal(o.base_seed, o.dealer, af),
                    hokm,
                );
            }
            return true;
        }
        self.logs.push(LogEntry::MustChooseAgain);
        self.logs.push(LogEntry::HokmPickHint);
        proof {
            assert(self.logs@ =~= old(self).logs@ + trump_logs(old(self).game@.hands, hokm) + seq![
                LogEntry::MustChooseAgain,
                LogEntry::HokmPickHint,
            ]);
        }
        false
    }
}

/// The human chooser still has to name hokm.
pub open spec fn human_choosing(app: &App) -> bool {
    app.hokm is None && app.chooser.0 == 0 && app.game.phase is ChoosingHokm
}

/// The card the human's selection points at (clamped to the hand).
pub open spec fn selected_card(app: &App) -> Card {
    let hand = app.game@.hands[0];
    let i = app.selected->0 as int;
    hand[if i < hand.len() - 1 {
        i
    } else {
        hand.len() - 1
    }]
}

/// `n` is the table after the bots ran from game `v`, on top of log `logs0`.
pub open spec fn bots_ran(o: &App, n: &App, v: GameView, logs0: Seq<LogEntry>) -> bool {
    &&& n.game@ == bots_play(v, PlayerId(0), o.bot_diff, o.base_seed).0
    &&& n.logs@ == logs0 + tui_run_logs(v, o.bot_diff, o.base_seed)
    &&& n.selected == clamped_selection(o.selected, v.hands[0].len() as int)
}

/// What Enter does while the human must name hokm: the suit of the first card in
/// hand is named; when some seat holds none of it the round is redealt (if a further
/// attempt exists) and the human chooses again; otherwise the bots play on.
pub open spec fn human_choice_done(o: &App, n: &App) -> bool {
    if o.game@.hands[0].len() == 0 {
        &&& n.game@ == o.game@
        &&& n.logs@ == o.logs@.push(LogEntry::NoCardsToChooseFrom)
        &&& n.hokm == o.hokm
        &&& n.selected == o.selected
        &&& n.deal_attempt == o.deal_attempt
    } else {
        let suit = o.game@.hands[0][0].suit;
        let hv = o.game@.hands;
        let w0 = o.game@.after_hokm(suit);
        let l1 = o.logs@.push(LogEntry::YouChoseHokm(suit)) + trump_logs(hv, suit);
        if every_seat_has_trump(hv, suit) || o.deal_attempt == u32::MAX {
            &&& bots_ran(
                o,
                n,
                w0,
                if every_seat_has_trump(hv, suit) {
                    l1
                } else {
                    l1.push(LogEntry::RedealLimitReached)
                },
            )
            &&& n.hokm == Some(suit)
            &&& n.deal_attempt == o.deal_attempt
        } else {
            let a1 = (o.deal_attempt + 1) as u32;
            &&& n.game@ == o.game@.next_round(o.dealer, o.chooser, sorted_deal(o.base_seed, o.dealer, a1))
            &&& n.hokm is None
            &&& n.deal_attempt == a1
            &&& n.selected == Some(0usize)
            &&& n.logs@ == l1 + seq![LogEntry::MustChooseAgain, LogEntry::HokmPickHint]
        }
    }
}

/// What Enter does in play: refusals are logged and change nothing; an accepted card
/// is logged with its events and the bots answer.
pub open spec fn human_play_done(o: &App, n: &App) -> bool {
    let v = o.game@;
    if o.game.turn.0 != 0 {
        n.game@ == v && n.selected == o.selected && n.logs@ == o.logs@.push(LogEntry::NotYourTurn)
    } else if o.game.phase != Phase::Playing {
        n.game@ == v && n.selected == o.selected && n.logs@ == o.logs@.push(LogEntry::NotPlayingPhase)
    } else if v.hands[0].len() == 0 {
        n.game@ == v && n.selected is None && n.logs@ == o.logs@.push(LogEntry::HandEmpty)
    } else if o.selected is None {
        n.game@ == v && n.selected == o.selected && n.logs@ == o.logs@.push(LogEntry::NoCardSelected)
    } else {
        let card = selected_card(o);
        match v.step(PlayerId(0), Action::PlayCard { card }) {
            Err(e) => n.game@ == v && n.selected == o.selected && n.logs@ == o.logs@.push(LogEntry::IllegalMove(e)),
            Ok((w, evs)) => bots_ran(
                o,
                n,
                w,
                o.logs@.push(LogEntry::YouPlayed(card)) + evs.map_values(|e: Event| event_entry(e)),
            ),
        }
    }
}

impl App {
    /// Enter: while the human must name hokm, the suit of the first card in hand is
    /// named (then the redeal rule applies); otherwise the selected card is played and
    /// the bots answer. A refused move is logged and changes nothing.
    pub fn try_play_selected_card(&mut self)
        requires
            old(self).wf(),
        ensures
            final(self).wf(),
            final(self).same_table(old(self)),
            human_choosing(old(self)) ==> human_choice_done(old(self), final(self)),
            !human_choosing(old(self)) ==> human_play_done(old(self), final(self)),
            !human_choosing(old(self)) ==> final(self).hokm == old(self).hokm && final(self).deal_attempt == old(self).deal_attempt,
    {
        if self.hokm.is_none() && self.chooser.0 == 0 && matches!(self.game.phase, Phase::ChoosingHokm { .. }) {
            self.human_choose_hokm();
        } else {
            self.human_play();
        }
    }

    fn human_choose_hokm(&mut self)
        requires
            old(self).wf(),
            human_choosing(old(self)),
        ensures
            final(self).wf(),
            final(self).same_table(old(self)),
            human_choice_done(old(self), final(self)),
    {
        if self.game.hands[0].len() == 0 {
            self.logs.push(LogEntry::NoCardsToChooseFrom);
            return;
        }
        let suit = self.game.hands[0][0].suit;
        proof {
            lemma_table_step(self.game@, self.chooser, Action::ChooseHokm { suit });
            assert(self.game@.hands[0] == self.game.hands@[0]@);
            assert(self.game@.step(self.chooser, Action::ChooseHokm { suit }) is Ok);
        }
        let ghost before = *self;
        match self.game.apply_action(self.chooser, Action::ChooseHokm { suit }) {
            Ok(_) => {
                self.hokm = Some(suit);
                self.logs.push(LogEntry::YouChoseHokm(suit));
                proof {
                    let w = before.game@.step(before.chooser, Action::ChooseHokm { suit })->Ok_0.0;
                    assert(self.game@ == w);
                    assert(self.game.hands@[0]@ == self.game@.hands[0]);
                    assert(before.game.hands@[0]@ == before.game@.hands[0]);
                    lemma_next_round_overwrites(
                        before.game@,
                        before.dealer,
                        before.chooser,
                        before.game@.hands,
                        sorted_deal(before.base_seed, before.dealer, (before.deal_attempt + 1) as u32),
                        suit,
                    );
                }
                let ghost mid = *self;
                if !self.validate_or_redeal_after_hokm() {
                    proof {
                        assert(self.logs@ =~= before.logs@.push(LogEntry::YouChoseHokm(suit)) + trump_logs(before.game@.hands, suit) + seq![LogEntry::MustChooseAgain, LogEntry::HokmPickHint]);
                    }
                    return;
                }
                let ghost mid2 = *self;
                self.run_bots_until_human_turn();
                proof {
                    if every_seat_has_trump(before.game@.hands, suit) {
                        assert(mid2.logs@ =~= before.logs@.push(LogEntry::YouChoseHokm(suit)) + trump_logs(before.game@.hands, suit));
                    } else {
                        assert(mid2.logs@ =~= (before.logs@.push(LogEntry::YouChoseHokm(suit)) + trump_logs(before.game@.hands, suit)).push(LogEntry::RedealLimitReached));
                    }
                }
            },
            Err(e) => {
                proof {
                    assert(false);
                }
                self.logs.push(LogEntry::HokmChoiceRefused(e));
            },
        }
    }

    fn human_play(&mut self)
        requires
            old(self).wf(),
            !human_choosing(old(self)),
        ensures
            final(self).wf(),
            final(self).same_table(old(self)),
            final(self).hokm == old(self).hokm,
            final(self).deal_attempt == old(self).deal_attempt,
            human_play_done(old(self), final(self)),
    {
        if self.game.turn.0 != 0 {
            self.logs.push(LogEntry::NotYourTurn);
            return;
        }
        if self.game.phase != Phase::Playing {
            self.logs.push(LogEntry::NotPlayingPhase);
            return;
        }
        let len = self.game.hands[0].len();
        if len == 0 {
            self.selected = None;
            self.logs.push(LogEntry::HandEmpty);
            return;
        }
        let idx = match self.selected {
            Some(i) => if i < len - 1 {
                i
            } else {
                len - 1
            },
            None => {
                self.logs.push(LogEntry::NoCardSelected);
                return;
            },
        };
        let card = self.game.hands[0][idx];
        proof {
            assert(self.game.hands@[0]@ == self.game@.hands[0]);
            lemma_table_step(self.game@, PlayerId(0), Action::PlayCard { card });
        }
        let ghost before = *self;
        match self.game.apply_action(PlayerId(0), Action::PlayCard { card }) {
            Ok(events) => {
                self.logs.push(LogEntry::YouPlayed(card));
                self.log_events(&events);
                proof {
                    assert(self.game.hands@[0]@ == self.game@.hands[0]);
                }
                self.fix_hand_selection();
                let ghost mid = *self;
                self.run_bots_until_human_turn();
                proof {
                    let w = mid.game@;
                    assert(mid.selected == clamped_selection(before.selected, w.hands[0].len() as int));
                }
            },
            Err(e) => {
                self.logs.push(LogEntry::IllegalMove(e));
            },
        }
    }
}

/// A new offline match for `base`: the pre-draw names the chooser, the seat before
/// it deals, attempt 0 is dealt (sorted for display) and logged; a bot chooser names
/// hokm at once (redealing as [`tui_settles_at`] says), the human is told to choose
/// otherwise; then the bots play until it is the human's turn.
pub open spec fn new_match(app: &App, base: u64) -> bool {
    let c = predraw_chooser(base);
    let d = PlayerId(((c.0 + 3) % 4) as u8);
    let g = GameView::fresh(d, c, sorted_deal(base, d, 0), GameConfig { target_round_wins: 7 });
    let first = seq![LogEntry::Seed(base), LogEntry::PreDraw { chooser: c, ace: predraw_ace(base) }, LogEntry::Dealer(d)];
    &&& app.base_seed == base
    &&& app.bot_diff == Difficulty::Easy
    &&& app.chooser == c
    &&& app.dealer == d
    &&& app.selected == Some(0usize)
    &&& if c.0 == 0 {
        &&& app.game@ == g
        &&& app.hokm is None
        &&& app.deal_attempt == 0
        &&& app.logs@ == first + seq![LogEntry::YouAreChooser, LogEntry::HokmPickHint]
    } else {
        let af = tui_settles_at(base, d, c, 0);
        let h = tui_pick(base, d, c, af);
        let v = g.next_round(d, c, sorted_deal(base, d, af)).after_hokm(h);
        &&& app.game@ == bots_play(v, PlayerId(0), Difficulty::Easy, base).0
        &&& app.hokm == Some(h)
        &&& app.deal_attempt == af
        &&& app.logs@ == first + tui_chain_logs(base, d, c, 0) + tui_run_logs(v, Difficulty::Easy, base)
    }
}

impl App {
    /// A new offline match for `base_seed` (see [`new_match`]).
    pub fn new(base_seed: u64) -> (app: App)
        ensures
            app.wf(),
            new_match(&app, base_seed),
    {
        let bot_diff = Difficulty::Easy;
        // Pre-draw: the first Ace names the chooser; the dealer sits right before it.
        let (chooser, ace) = chooser_by_first_ace(base_seed);
        let dealer = PlayerId((chooser.0 + 3) % 4);
        let deal_attempt: u32 = 0;
        let config = GameConfig { target_round_wins: 7 };
        let hands = deal_sorted_for_ui(base_seed, dealer, deal_attempt);
        proof {
            let hv = hands@.map_values(|h: Vec<Card>| h@);
            lemma_sorted_deal_sizes(hv, base_seed, dealer, deal_attempt);
            lemma_sorted_deal_unique(hv, base_seed, dealer, deal_attempt);
        }
        let game = GameState::new_round_with_hands_config(dealer, chooser, hands, config);
        let mut logs: Vec<LogEntry> = Vec::new();
        logs.push(LogEntry::Seed(base_seed));
        logs.push(LogEntry::PreDraw { chooser, ace });
        logs.push(LogEntry::Dealer(dealer));
        proof {
            assert(game.hands@[0]@ == game@.hands[0]);
            assert forall|p: int| 0 <= p < 4 implies (#[trigger] game@.hands[p]).len() <= 13 by {
                assert(game@.hands[p] == hands@[p]@);
            }
        }
        let selected = if game.hands[0].len() > 0 {
            Some(0)
        } else {
            None
        };
        let mut app = App {
            bot_diff,
            game,
            selected,
            logs,
            chooser,
            dealer,
            hokm: None,
            base_seed,
            deal_attempt,
        };
        let ghost start = app;
        if app.chooser.0 != 0 {
            app.bot_choose_hokm_and_validate();
        } else {
            app.logs.push(LogEntry::YouAreChooser);
            app.logs.push(LogEntry::HokmPickHint);
        }
        let ghost mid = app;
        proof {
            lemma_next_round_overwrites(start.game@, dealer, chooser, start.game@.hands, start.game@.hands, Suit::Clubs);
            if chooser.0 == 0 {
                lemma_tui_run_stop(mid.game@, bot_diff, base_seed);
                lemma_bots_play_stop(mid.game@, PlayerId(0), bot_diff, base_seed);
            }
            lemma_bots_keep_human_hand(mid.game@, PlayerId(0), bot_diff, base_seed);
            assert(mid.game.hands@[0]@ == mid.game@.hands[0]);
        }
        app.run_bots_until_human_turn();
        proof {
            assert(app.game.hands@[0]@ == app.game@.hands[0]);
            let c = predraw_chooser(base_seed);
            let d = PlayerId(((c.0 + 3) % 4) as u8);
            let g = GameView::fresh(d, c, sorted_deal(base_seed, d, 0), GameConfig { target_round_wins: 7 });
            let first = seq![LogEntry::Seed(base_seed), LogEntry::PreDraw { chooser: c, ace: predraw_ace(base_seed) }, LogEntry::Dealer(d)];
            assert(start.game@ == g);
            assert(start.logs@ =~= first);
            assert(app.selected == Some(0usize));
            if chooser.0 == 0 {
                assert(app.logs@ =~= start.logs@ + seq![LogEntry::YouAreChooser, LogEntry::HokmPickHint]);
                assert(app.game@ == g);
            } else {
                let af = tui_settles_at(base_seed, d, c, 0);
                let h = tui_pick(base_seed, d, c, af);
                let v = g.next_round(d, c, sorted_deal(base_seed, d, af)).after_hokm(h);
                assert(mid.game@ == v);
                assert(app.game@ == bots_play(v, PlayerId(0), Difficulty::Easy, base_seed).0);
                assert(app.logs@ == first + tui_chain_logs(base_seed, d, c, 0) + tui_run_logs(v, Difficulty::Easy, base_seed));
            }
        }
        app
    }

    /// Start a new match (with a new seed) in place of this one.
    pub fn reset_match(&mut self, base_seed: u64)
        ensures
            final(self).wf(),
            new_match(final(self), base_seed),
    {
        *self = App::new(base_seed);
    }
}

/// The roles shown after a seat's name, in this order: " (chooser)", " (dealer)" and
/// " <- turn", each when the seat has it.
pub open spec fn seat_info_text(app: &App, pid: u8) -> Seq<char> {
    (if app.chooser.0 == pid {
        " (chooser)"@
    } else {
        ""@
    }) + (if app.dealer.0 == pid {
        " (dealer)"@
    } else {
        ""@
    }) + (if app.game.turn.0 == pid {
        " <- turn"@
    } else {
        ""@
    })
}

impl App {
    /// The roles of seat `pid` as shown on its panel (see [`seat_info_text`]).
    pub fn seat_info(&self, pid: u8) -> (s: String)
        ensures
            s@ == seat_info_text(self, pid),
    {
        proof {
            reveal_strlit(" (chooser)");
            reveal_strlit(" (dealer)");
            reveal_strlit(" <- turn");
            reveal_strlit("");
        }
        let mut s = String::new();
        if self.chooser.0 == pid {
            s.append(" (chooser)");
        }
        if self.dealer.0 == pid {
            s.append(" (dealer)");
        }
        if self.game.turn.0 == pid {
            s.append(" <- turn");
        }
        proof {
            assert(s@ =~= seat_info_text(self, pid));
        }
        s
    }
}

} // verus!
