//! The offline table behind the graphical client: seat 0 is the human, the others
//! are bots. Each round has its own seed; the chooser's first five dealt cards decide
//! a bot's hokm; when some seat then holds no hokm card the round is redealt. Played
//! cards are queued for the client's fly-in animation.
use vstd::prelude::*;
use crate::ai::{choose_action, Difficulty};
use crate::autoplay::{
    bot_seed, bot_stuck, bots_play, game_ok, is_sorted_deal, lacking, lemma_bots_play_fixpoint,
    lemma_bots_play_next, lemma_bots_play_stop, lemma_next_round_overwrites, lemma_play_shrinks,
    lemma_sorted_deal_sizes, lemma_sorted_deal_unique, lemma_table_step, sorted_deal, total_cards,
    trumps_ok, SeatFlags,
};
use crate::deal::{deal_hands_with_dealer, dealt_hand, predraw_ace, predraw_chooser, sort_hand};
use crate::game::{holds_suit, GameState, GameView};
use crate::laws::lemma_bot_choice_is_legal;
use crate::sorting::{sorted_by, CardOrder, HandSortMode};
use crate::table::{
    bot_hokm, choose_hokm_for_bot, deal_seed, dealer_log, dummy_game_state, every_seat_has_trump,
    lemma_bot_hokm_unique, lemma_strength_bounded, predraw_log, setup_round, sort_for_display,
    suit_count, trump_count_per_player,
};
use crate::types::{Action, Card, Error, Event, GameConfig, Phase, PlayerId, Suit, Team};

verus! {

/// Which screen the client shows.
#[derive(Clone, Copy, Debug, PartialEq, Eq, Structural)]
pub enum Screen {
    MainMenu,
    InGame,
}

/// What happened at the table, in order. The client turns entries into text.
#[derive(Clone, Debug, PartialEq, Eq)]
pub enum GuiLogEntry {
    /// A line of the round setup (pre-draw and dealer).
    Setup(String),
    RoundHeader(u32),
    HokmChosen { by_bot: bool, suit: Suit },
    /// The seats that hold no card of `hokm`.
    ZeroTrump { hokm: Suit, lacking: SeatFlags },
    Redeal,
    /// No further deal attempt is possible: play goes on with this deal.
    RedealLimitReached,
    HokmError(Error),
    NotYourTurn,
    NotPlaying,
    YouPlayed(Card),
    GameEvent(Event),
    IllegalMove(Error),
    BotNoAction,
    BotPlayed { seat: u8, card: Card },
}

/// What the end-of-round banner announces.
#[derive(Clone, Copy, Debug, PartialEq, Eq, Structural)]
pub enum Banner {
    RoundOver { round: u32, winner: Team, kot: bool },
    MatchOver { winner: Team, rounds_a: u8, rounds_b: u8 },
}

/// The graphical client's table state (drawing and animation timing stay in the client).
pub struct GuiApp {
    pub screen: Screen,
    pub menu_msg: String,
    pub bot_diff: Difficulty,
    pub target_rounds: u8,
    pub game: GameState,
    pub chooser: PlayerId,
    pub dealer: PlayerId,
    pub hokm: Option<Suit>,
    /// The chooser's first five cards in deal order (a bot names hokm from them).
    pub chooser_first5: Vec<Card>,
    pub logs: Vec<GuiLogEntry>,
    pub human: PlayerId,
    pub base_seed: u64,
    pub round_number: u32,
    pub deal_attempt: u32,
    /// The human has to name hokm.
    pub pending_hokm_pick: bool,
    pub hand_sort: HandSortMode,
    /// Round whose end banner was already shown.
    pub banner_round_number: u32,
    /// Played cards waiting for their fly-in animation: (seat, card).
    pub fly_queue: Vec<(u8, Card)>,
}

/// The log entry of one bot play.
pub open spec fn bot_played_entry(x: (u8, Card)) -> GuiLogEntry {
    GuiLogEntry::BotPlayed { seat: x.0, card: x.1 }
}

/// Log entries of the bots' run from `v`: one per card, then a note if a bot was stuck.
pub open spec fn run_logs(v: GameView, human: PlayerId, diff: Difficulty, base: u64) -> Seq<GuiLogEntry> {
    let r = bots_play(v, human, diff, base);
    r.1.map_values(|x: (u8, Card)| bot_played_entry(x)) + if bot_stuck(r.0, human) {
        seq![GuiLogEntry::BotNoAction]
    } else {
        Seq::empty()
    }
}

impl GuiApp {
    /// The table's invariant.
    pub open spec fn wf(&self) -> bool {
        &&& game_ok(self.game@)
        &&& self.chooser.0 < 4
        &&& self.dealer.0 < 4
        &&& self.human.0 < 4
        &&& self.game.dealer == self.dealer
        &&& self.hokm == self.game.hokm
        &&& (self.game.phase matches Phase::ChoosingHokm { chooser } ==> chooser == self.chooser)
        &&& self.chooser_first5@.len() <= 5
    }

    /// The fields that only the menu or a new match change.
    pub open spec fn same_match(&self, other: &GuiApp) -> bool {
        &&& self.screen == other.screen
        &&& self.menu_msg == other.menu_msg
        &&& self.bot_diff == other.bot_diff
        &&& self.target_rounds == other.target_rounds
        &&& self.human == other.human
        &&& self.base_seed == other.base_seed
        &&& self.round_number == other.round_number
        &&& self.hand_sort == other.hand_sort
        &&& self.banner_round_number == other.banner_round_number
    }

    /// The fields that only the menu or a new round change.
    pub open spec fn same_round(&self, other: &GuiApp) -> bool {
        &&& self.same_match(other)
        &&& self.chooser == other.chooser
        &&& self.dealer == other.dealer
    }

    /// Everything but the game, the hokm choice, the logs and the fly queue is unchanged.
    pub open spec fn same_deal(&self, other: &GuiApp) -> bool {
        &&& self.same_round(other)
        &&& self.chooser_first5 == other.chooser_first5
        &&& self.deal_attempt == other.deal_attempt
        &&& self.pending_hokm_pick == other.pending_hokm_pick
    }

    /// Queue a played card for its fly-in animation.
    fn queue_fly(&mut self, pid: u8, card: Card)
        ensures
            final(self).fly_queue@ == old(self).fly_queue@.push((pid, card)),
            final(self).same_deal(old(self)),
            final(self).game == old(self).game,
            final(self).hokm == old(self).hokm,
            final(self).logs == old(self).logs,
    {
        self.fly_queue.push((pid, card));
    }

    /// The next card to animate, taken from the front of the queue.
    pub fn pop_next_fly(&mut self) -> (r: Option<(u8, Card)>)
        ensures
            old(self).fly_queue@.len() == 0 ==> r is None && final(self).fly_queue@ == old(self).fly_queue@,
            old(self).fly_queue@.len() > 0 ==> r == Some(old(self).fly_queue@[0])
                && final(self).fly_queue@ == old(self).fly_queue@.drop_first(),
            final(self).same_deal(old(self)),
            final(self).game == old(self).game,
            final(self).hokm == old(self).hokm,
            final(self).logs == old(self).logs,
    {
        if self.fly_queue.len() == 0 {
            return None;
        }
        let first = self.fly_queue.remove(0);
        proof {
            assert(self.fly_queue@ =~= old(self).fly_queue@.drop_first());
        }
        Some(first)
    }

    /// Bots play until it is the human's turn, the round is over, or hokm is still
    /// to be named (see [`bots_play`]); each bot card is queued and logged.
    fn run_bots_until_human_turn(&mut self)
        requires
            old(self).wf(),
        ensures
            final(self).wf(),
            final(self).same_deal(old(self)),
            final(self).hokm == old(self).hokm,
            final(self).game@ == bots_play(old(self).game@, old(self).human, old(self).bot_diff, old(self).base_seed).0,
            final(self).fly_queue@ == old(self).fly_queue@ + bots_play(
                old(self).game@,
                old(self).human,
                old(self).bot_diff,
                old(self).base_seed,
            ).1,
            final(self).logs@ == old(self).logs@ + run_logs(
                old(self).game@,
                old(self).human,
                old(self).bot_diff,
                old(self).base_seed,
            ),
    {
        let ghost g0 = self.game@;
        let ghost h = self.human;
        let ghost d = self.bot_diff;
        let ghost b = self.base_seed;
        let ghost mut played: Seq<(u8, Card)> = Seq::empty();
        loop
            invariant_except_break
                self.logs@ == old(self).logs@ + played.map_values(|x: (u8, Card)| bot_played_entry(x)),
            invariant
                self.wf(),
                self.same_deal(old(self)),
                self.hokm == old(self).hokm,
                g0 == old(self).game@,
                h == self.human,
                d == self.bot_diff,
                b == self.base_seed,
                bots_play(g0, h, d, b).0 == bots_play(self.game@, h, d, b).0,
                bots_play(g0, h, d, b).1 == played + bots_play(self.game@, h, d, b).1,
                self.fly_queue@ == old(self).fly_queue@ + played,
                g0.wf(),
            ensures
                self.wf(),
                self.same_deal(old(self)),
                self.hokm == old(self).hokm,
                self.game@ == bots_play(g0, h, d, b).0,
                self.fly_queue@ == old(self).fly_queue@ + bots_play(g0, h, d, b).1,
                self.logs@ == old(self).logs@ + run_logs(g0, h, d, b),
            decreases total_cards(self.game@),
        {
            let stop = match self.game.phase {
                Phase::RoundOver { .. } | Phase::GameOver { .. } => true,
                _ => false,
            };
            if stop || self.game.turn.0 == self.human.0 || self.game.phase != Phase::Playing {
                proof {
                    lemma_bots_play_stop(self.game@, h, d, b);
                    assert(played + Seq::<(u8, Card)>::empty() =~= played);
                    assert(played.map_values(|x: (u8, Card)| bot_played_entry(x)) + Seq::<GuiLogEntry>::empty()
                        =~= played.map_values(|x: (u8, Card)| bot_played_entry(x)));
                }
                break;
            }
            let pid = self.game.turn;
            let seed = self.base_seed.wrapping_add(pid.0 as u64 * 9999);
            proof {
                assert(seed == bot_seed(b, pid));
            }
            let action = match choose_action(&self.game, pid, self.bot_diff, seed) {
                Some(a) => a,
                None => {
                    self.logs.push(GuiLogEntry::BotNoAction);
                    proof {
                        lemma_bots_play_stop(self.game@, h, d, b);
                        assert(played + Seq::<(u8, Card)>::empty() =~= played);
                        assert(self.logs@ =~= old(self).logs@ + run_logs(g0, h, d, b));
                    }
                    break;
                },
            };
            let card = match action {
                Action::PlayCard { card } => card,
                _ => {
                    proof {
                        assert(false);
                    }
                    break;
                },
            };
            let ghost v = self.game@;
            proof {
                assert(self.game.hands@[pid.0 as int]@ == self.game@.hands[pid.0 as int]);
                lemma_bot_choice_is_legal(self.game@, pid, self.bot_diff, seed);
                lemma_table_step(self.game@, pid, action);
                lemma_play_shrinks(self.game@, pid, card);
            }
            let _ = self.game.apply_action(pid, action);
            self.queue_fly(pid.0, card);
            self.logs.push(GuiLogEntry::BotPlayed { seat: pid.0, card });
            proof {
                let w = self.game@;
                lemma_bots_play_next(v, h, d, b, card);
                assert(played + bots_play(v, h, d, b).1 =~= played.push((pid.0, card)) + bots_play(w, h, d, b).1);
                assert(self.logs@ =~= old(self).logs@ + played.push((pid.0, card)).map_values(
                    |x: (u8, Card)| bot_played_entry(x),
                ));
                played = played.push((pid.0, card));
            }
        }
    }
}

/// The log entry of a game event.
pub open spec fn event_entry(e: Event) -> GuiLogEntry {
    GuiLogEntry::GameEvent(e)
}

/// What the human playing `card` does to the table `o`, giving `n`: a play out of
/// turn or out of the Playing phase is refused with a note, a play the rules refuse
/// is logged with the reason; an accepted card is queued and logged with its events,
/// and the bots answer.
pub open spec fn human_play_outcome(o: &GuiApp, n: &GuiApp, card: Card) -> bool {
    if o.game.turn != o.human {
        n.game@ == o.game@ && n.fly_queue == o.fly_queue && n.logs@ == o.logs@.push(GuiLogEntry::NotYourTurn)
    } else if o.game.phase != Phase::Playing {
        n.game@ == o.game@ && n.fly_queue == o.fly_queue && n.logs@ == o.logs@.push(GuiLogEntry::NotPlaying)
    } else {
        match o.game@.step(o.human, Action::PlayCard { card }) {
            Err(e) => n.game@ == o.game@ && n.fly_queue == o.fly_queue && n.logs@ == o.logs@.push(
                GuiLogEntry::IllegalMove(e),
            ),
            Ok((w, evs)) => {
                let r = bots_play(w, o.human, o.bot_diff, o.base_seed);
                &&& n.game@ == r.0
                &&& n.fly_queue@ == o.fly_queue@.push((o.human.0, card)) + r.1
                &&& n.logs@ == o.logs@.push(GuiLogEntry::YouPlayed(card)) + evs.map_values(
                    |e: Event| event_entry(e),
                ) + run_logs(w, o.human, o.bot_diff, o.base_seed)
            },
        }
    }
}

/// What the end-of-round check does: once per round, when the round or the match is
/// over, it returns the banner to show and remembers the round.
pub open spec fn banner_outcome(o: &GuiApp, n: &GuiApp, r: Option<Banner>) -> bool {
    match o.game.phase {
        Phase::RoundOver { winner, kot } => if o.banner_round_number != o.round_number {
            r == Some(Banner::RoundOver { round: o.round_number, winner, kot })
                && n.banner_round_number == o.round_number
        } else {
            r is None && n.banner_round_number == o.banner_round_number
        },
        Phase::GameOver { winner } => if o.banner_round_number != o.round_number {
            r == Some(
                Banner::MatchOver { winner, rounds_a: o.game.rounds_won[0], rounds_b: o.game.rounds_won[1] },
            ) && n.banner_round_number == o.round_number
        } else {
            r is None && n.banner_round_number == o.banner_round_number
        },
        _ => r is None && n.banner_round_number == o.banner_round_number,
    }
}

impl GuiApp {
    /// A table on the main menu, for `base_seed`: nothing dealt yet, easy bots,
    /// seven round wins to take the match.
    pub fn new(base_seed: u64) -> (app: GuiApp)
        ensures
            app.wf(),
            app.screen == Screen::MainMenu,
            app.menu_msg@ == "Offline works. Online is locked for now."@,
            app.bot_diff == Difficulty::Easy,
            app.target_rounds == 7,
            app.game@ == GameView::fresh(
                PlayerId(0),
                PlayerId(0),
                seq![Seq::<Card>::empty(), Seq::<Card>::empty(), Seq::<Card>::empty(), Seq::<Card>::empty()],
                GameConfig { target_round_wins: 7 },
            ),
            app.chooser == PlayerId(0),
            app.dealer == PlayerId(0),
            app.hokm is None,
            app.chooser_first5@.len() == 0,
            app.logs@.len() == 0,
            app.human == PlayerId(0),
            app.base_seed == base_seed,
            app.round_number == 1,
            app.deal_attempt == 0,
            !app.pending_hokm_pick,
            app.hand_sort == HandSortMode::Suit,
            app.banner_round_number == 0,
            app.fly_queue@.len() == 0,
    {
        GuiApp {
            screen: Screen::MainMenu,
            menu_msg: String::from_str("Offline works. Online is locked for now."),
            bot_diff: Difficulty::Easy,
            target_rounds: 7,
            game: dummy_game_state(),
            chooser: PlayerId(0),
            dealer: PlayerId(0),
            hokm: None,
            chooser_first5: Vec::new(),
            logs: Vec::new(),
            human: PlayerId(0),
            base_seed,
            round_number: 1,
            deal_attempt: 0,
            pending_hokm_pick: false,
            hand_sort: HandSortMode::Suit,
            banner_round_number: 0,
            fly_queue: Vec::new(),
        }
    }

    /// Back to the main menu; the table stays as it is.
    pub fn back_to_menu(&mut self)
        ensures
            final(self).screen == Screen::MainMenu,
            final(self).menu_msg@ == "Back to menu."@,
            final(self).game == old(self).game,
            final(self).hokm == old(self).hokm,
            final(self).logs == old(self).logs,
            final(self).fly_queue == old(self).fly_queue,
            final(self).chooser_first5 == old(self).chooser_first5,
            final(self).deal_attempt == old(self).deal_attempt,
            final(self).pending_hokm_pick == old(self).pending_hokm_pick,
            final(self).bot_diff == old(self).bot_diff,
            final(self).target_rounds == old(self).target_rounds,
            final(self).chooser == old(self).chooser,
            final(self).dealer == old(self).dealer,
            final(self).human == old(self).human,
            final(self).base_seed == old(self).base_seed,
            final(self).round_number == old(self).round_number,
            final(self).hand_sort == old(self).hand_sort,
            final(self).banner_round_number == old(self).banner_round_number,
    {
        self.screen = Screen::MainMenu;
        self.menu_msg = String::from_str("Back to menu.");
    }

    /// Append one log entry per event, in order.
    fn log_events(&mut self, events: &Vec<Event>)
        ensures
            final(self).logs@ == old(self).logs@ + events@.map_values(|e: Event| event_entry(e)),
            final(self).game == old(self).game,
            final(self).hokm == old(self).hokm,
            final(self).fly_queue == old(self).fly_queue,
            final(self).same_deal(old(self)),
    {
        let n = events.len();
        let mut i: usize = 0;
        while i < n
            invariant
                i <= n,
                n == events@.len(),
                self.logs@ == old(self).logs@ + events@.take(i as int).map_values(|e: Event| event_entry(e)),
                self.game == old(self).game,
                self.hokm == old(self).hokm,
                self.fly_queue == old(self).fly_queue,
                self.same_deal(old(self)),
            decreases n - i,
        {
            self.logs.push(GuiLogEntry::GameEvent(events[i]));
            i = i + 1;
            proof {
                assert(self.logs@ =~= old(self).logs@ + events@.take(i as int).map_values(|e: Event| event_entry(e)));
            }
        }
        proof {
            assert(events@.take(n as int) =~= events@);
        }
    }

    /// The human plays `card` (see [`human_play_outcome`]).
    pub fn play_human_card(&mut self, card: Card)
        requires
            old(self).wf(),
        ensures
            final(self).wf(),
            final(self).same_deal(old(self)),
            final(self).hokm == old(self).hokm,
            human_play_outcome(old(self), final(self), card),
    {
        if self.game.turn.0 != self.human.0 {
            self.logs.push(GuiLogEntry::NotYourTurn);
            return;
        }
        if self.game.phase != Phase::Playing {
            self.logs.push(GuiLogEntry::NotPlaying);
            return;
        }
        proof {
            lemma_table_step(self.game@, self.human, Action::PlayCard { card });
        }
        match self.game.apply_action(self.human, Action::PlayCard { card }) {
            Ok(events) => {
                self.queue_fly(self.human.0, card);
                self.logs.push(GuiLogEntry::YouPlayed(card));
                self.log_events(&events);
                self.run_bots_until_human_turn();
            },
            Err(e) => {
                self.logs.push(GuiLogEntry::IllegalMove(e));
            },
        }
    }

    /// Whether every seat holds a card of `hokm`; if not, the seats without one are logged.
    fn trump_check_ok(&mut self, hokm: Suit) -> (ok: bool)
        requires
            old(self).wf(),
        ensures
            ok == every_seat_has_trump(old(self).game@.hands, hokm),
            ok <==> (holds_suit(old(self).game@.hands[0], hokm) && holds_suit(old(self).game@.hands[1], hokm)
                && holds_suit(old(self).game@.hands[2], hokm) && holds_suit(old(self).game@.hands[3], hokm)),
            final(self).logs@ == if ok {
                old(self).logs@
            } else {
                old(self).logs@.push(GuiLogEntry::ZeroTrump { hokm, lacking: lacking(old(self).game@.hands, hokm) })
            },
            final(self).game == old(self).game,
            final(self).hokm == old(self).hokm,
            final(self).fly_queue == old(self).fly_queue,
            final(self).same_deal(old(self)),
    {
        let ghost hv = self.game@.hands;
        proof {
            crate::laws::lemma_trump_check_all_four_seats(hv, hokm);
        }
        let counts = trump_count_per_player(&self.game.hands, hokm);
        proof {
            assert forall|p: int| 0 <= p < 4 implies #[trigger] counts@[p] == suit_count(hv[p], hokm) by {
                lemma_strength_bounded(hv[p], hokm);
                assert(hv[p] == self.game.hands@[p]@);
            }
        }
        let lacking_seats = SeatFlags {
            p0: counts[0] == 0,
            p1: counts[1] == 0,
            p2: counts[2] == 0,
            p3: counts[3] == 0,
        };
        if lacking_seats.p0 || lacking_seats.p1 || lacking_seats.p2 || lacking_seats.p3 {
            self.logs.push(GuiLogEntry::ZeroTrump { hokm, lacking: lacking_seats });
            proof {
                assert(!every_seat_has_trump(hv, hokm));
            }
            false
        } else {
            proof {
                assert forall|p: int| 0 <= p < 4 implies suit_count(#[trigger] hv[p], hokm) > 0 by {
                    lemma_strength_bounded(hv[p], hokm);
                }
            }
            true
        }
    }

    /// Once per round, the banner to show when the round or the match is over.
    pub fn maybe_trigger_round_end_banner(&mut self) -> (r: Option<Banner>)
        ensures
            banner_outcome(old(self), final(self), r),
            final(self).game == old(self).game,
            final(self).hokm == old(self).hokm,
            final(self).logs == old(self).logs,
            final(self).fly_queue == old(self).fly_queue,
            final(self).chooser_first5 == old(self).chooser_first5,
            final(self).deal_attempt == old(self).deal_attempt,
            final(self).pending_hokm_pick == old(self).pending_hokm_pick,
            final(self).screen == old(self).screen,
            final(self).menu_msg == old(self).menu_msg,
            final(self).bot_diff == old(self).bot_diff,
            final(self).target_rounds == old(self).target_rounds,
            final(self).chooser == old(self).chooser,
            final(self).dealer == old(self).dealer,
            final(self).human == old(self).human,
            final(self).base_seed == old(self).base_seed,
            final(self).round_number == old(self).round_number,
            final(self).hand_sort == old(self).hand_sort,
    {
        match self.game.phase {
            Phase::RoundOver { winner, kot } => {
                if self.banner_round_number != self.round_number {
                    self.banner_round_number = self.round_number;
                    return Some(Banner::RoundOver { round: self.round_number, winner, kot });
                }
                None
            },
            Phase::GameOver { winner } => {
                if self.banner_round_number != self.round_number {
                    self.banner_round_number = self.round_number;
                    return Some(
                        Banner::MatchOver {
                            winner,
                            rounds_a: self.game.rounds_won[0],
                            rounds_b: self.game.rounds_won[1],
                        },
                    );
                }
                None
            },
            _ => None,
        }
    }
}

/// Seed of round `round` of a match: the match seed plus a million per round.
pub open spec fn round_seed(base: u64, round: u32) -> u64 {
    base.wrapping_add((round * 1000000) as u64)
}

/// Seed of the table's current round.
pub open spec fn app_seed(o: &GuiApp) -> u64 {
    round_seed(o.base_seed, o.round_number)
}

/// The chooser's first five cards of deal attempt `a`, in deal order.
pub open spec fn first_five(seed: u64, dealer: PlayerId, chooser: PlayerId, a: u32) -> Seq<Card> {
    dealt_hand(deal_seed(seed, a), dealer, chooser.0 as int).take(5)
}

/// The hokm a bot chooser names at deal attempt `a` (from its first five cards).
pub open spec fn bot_pick(seed: u64, dealer: PlayerId, chooser: PlayerId, a: u32) -> Suit {
    bot_hokm(first_five(seed, dealer, chooser, a))
}

/// The deal attempt, from `a` on, at which a bot chooser's hokm is held by every seat
/// (or the last attempt there is).
pub open spec fn bot_settles_at(seed: u64, dealer: PlayerId, chooser: PlayerId, a: u32) -> u32
    decreases u32::MAX - a,
{
    if trumps_ok(seed, dealer, a, bot_pick(seed, dealer, chooser, a)) || a == u32::MAX {
        a
    } else {
        bot_settles_at(seed, dealer, chooser, (a + 1) as u32)
    }
}

/// Log entries of a bot chooser naming hokm from deal attempt `a` on, redeal by redeal.
pub open spec fn bot_chain_logs(seed: u64, dealer: PlayerId, chooser: PlayerId, a: u32) -> Seq<
    GuiLogEntry,
>
    decreases u32::MAX - a,
{
    let h = bot_pick(seed, dealer, chooser, a);
    seq![GuiLogEntry::HokmChosen { by_bot: true, suit: h }] + if trumps_ok(seed, dealer, a, h) {
        Seq::empty()
    } else {
        seq![
            GuiLogEntry::ZeroTrump { hokm: h, lacking: lacking(sorted_deal(seed, dealer, a), h) },
            GuiLogEntry::Redeal,
        ] + if a == u32::MAX {
            seq![GuiLogEntry::RedealLimitReached]
        } else {
            bot_chain_logs(seed, dealer, chooser, (a + 1) as u32)
        }
    }
}

/// Where a bot chooser's hokm settles, every seat holds a card of it, unless no
/// further deal attempt was left.
pub proof fn lemma_bot_settled_hokm_held(seed: u64, dealer: PlayerId, chooser: PlayerId, a: u32)
    ensures
        ({
            let af = bot_settles_at(seed, dealer, chooser, a);
            trumps_ok(seed, dealer, af, bot_pick(seed, dealer, chooser, af)) || af == u32::MAX
        }),
    decreases u32::MAX - a,
{
    if !(trumps_ok(seed, dealer, a, bot_pick(seed, dealer, chooser, a)) || a == u32::MAX) {
        lemma_bot_settled_hokm_held(seed, dealer, chooser, (a + 1) as u32);
    }
}

/// The settling attempt is never before the first one tried.
pub proof fn lemma_bot_settles_at_ge(seed: u64, dealer: PlayerId, chooser: PlayerId, a: u32)
    ensures
        bot_settles_at(seed, dealer, chooser, a) >= a,
    decreases u32::MAX - a,
{
    if !(trumps_ok(seed, dealer, a, bot_pick(seed, dealer, chooser, a)) || a == u32::MAX) {
        lemma_bot_settles_at_ge(seed, dealer, chooser, (a + 1) as u32);
    }
}

/// `n` is `o` after the bots ran from `v`, on top of queue `fly0` and log `logs0`.
pub open spec fn bots_ran(o: &GuiApp, n: &GuiApp, v: GameView, fly0: Seq<(u8, Card)>, logs0: Seq<GuiLogEntry>) -> bool {
    let r = bots_play(v, o.human, o.bot_diff, o.base_seed);
    &&& game_ok(v)
    &&& n.game@ == r.0
    &&& n.fly_queue@ == fly0 + r.1
    &&& n.logs@ == logs0 + run_logs(v, o.human, o.bot_diff, o.base_seed)
}

/// Hokm is in force in game `v` on the current deal, and the bots ran.
pub open spec fn settled_here(o: &GuiApp, n: &GuiApp, v: GameView, logs0: Seq<GuiLogEntry>) -> bool {
    &&& bots_ran(o, n, v, o.fly_queue@, logs0)
    &&& n.hokm == v.hokm
    &&& !n.pending_hokm_pick
    &&& n.chooser_first5 == o.chooser_first5
    &&& n.deal_attempt == o.deal_attempt
}

/// A bot chooser names hokm from deal attempt `a` on (each deal on top of game `g`),
/// redealing until its hokm is held by every seat ([`bot_settles_at`]); then the bots ran.
pub open spec fn bot_settled(o: &GuiApp, n: &GuiApp, g: GameView, a: u32, logs0: Seq<GuiLogEntry>, fly0: Seq<(u8, Card)>) -> bool {
    let s = app_seed(o);
    let af = bot_settles_at(s, o.dealer, o.chooser, a);
    let h = bot_pick(s, o.dealer, o.chooser, af);
    let v = g.next_round(o.dealer, o.chooser, sorted_deal(s, o.dealer, af)).after_hokm(h);
    &&& bots_ran(
        o,
        n,
        v,
        if af == a {
            fly0
        } else {
            Seq::empty()
        },
        logs0 + bot_chain_logs(s, o.dealer, o.chooser, a),
    )
    &&& n.hokm == Some(h)
    &&& !n.pending_hokm_pick
    &&& n.chooser_first5@ == first_five(s, o.dealer, o.chooser, af)
    &&& n.deal_attempt == af
}

/// The round is dealt anew at attempt `a` (on top of game `g`) and waits for the
/// human chooser.
pub open spec fn dealt_anew(o: &GuiApp, n: &GuiApp, g: GameView, a: u32) -> bool {
    let s = app_seed(o);
    &&& n.game@ == g.next_round(o.dealer, o.chooser, sorted_deal(s, o.dealer, a))
    &&& n.hokm is None
    &&& n.pending_hokm_pick
    &&& n.chooser_first5@ == first_five(s, o.dealer, o.chooser, a)
    &&& n.deal_attempt == a
    &&& n.fly_queue@.len() == 0
}

/// After a redeal to attempt `a` (on top of game `g`): the human chooser is waited
/// for, a bot chooser names hokm at once.
pub open spec fn redealt(o: &GuiApp, n: &GuiApp, g: GameView, a: u32, logs0: Seq<GuiLogEntry>) -> bool {
    if o.chooser == o.human {
        dealt_anew(o, n, g, a) && n.logs@ == logs0
    } else {
        bot_settled(o, n, g, a, logs0, Seq::empty())
    }
}

/// What naming `suit` (accepted by the rules) does: when some seat holds none of it,
/// the round is redealt (when a further attempt exists); otherwise the bots play on.
pub open spec fn hokm_named(o: &GuiApp, n: &GuiApp, suit: Suit, by_bot: bool) -> bool {
    let w0 = o.game@.after_hokm(suit);
    let l1 = o.logs@.push(GuiLogEntry::HokmChosen { by_bot, suit });
    if every_seat_has_trump(o.game@.hands, suit) {
        settled_here(o, n, w0, l1)
    } else {
        let l2 = l1 + seq![
            GuiLogEntry::ZeroTrump { hokm: suit, lacking: lacking(o.game@.hands, suit) },
            GuiLogEntry::Redeal,
        ];
        if o.deal_attempt == u32::MAX {
            settled_here(o, n, w0, l2.push(GuiLogEntry::RedealLimitReached))
        } else {
            redealt(o, n, o.game@, (o.deal_attempt + 1) as u32, l2)
        }
    }
}

/// The current round's deal, attempt `attempt`: the hands sorted for display and
/// the chooser's first five cards in deal order.
fn deal_round(seed: u64, dealer: PlayerId, chooser: PlayerId, attempt: u32) -> (r: ([Vec<Card>; 4], Vec<Card>))
    requires
        dealer.0 < 4,
        chooser.0 < 4,
    ensures
        is_sorted_deal(r.0@.map_values(|h: Vec<Card>| h@), seed, dealer, attempt),
        r.1@ == first_five(seed, dealer, chooser, attempt),
{
    let mut hands = deal_hands_with_dealer(seed.wrapping_add(1 + attempt as u64), dealer);
    let ghost dealt = hands@;
    let ci = chooser.idx();
    let mut first5: Vec<Card> = Vec::new();
    let mut i: usize = 0;
    while i < 5
        invariant
            i <= 5,
            hands@ == dealt,
            ci == chooser.0,
            ci < 4,
            dealt[ci as int]@ == dealt_hand(deal_seed(seed, attempt), dealer, ci as int),
            dealt[ci as int]@.len() == 13,
            first5@ == dealt[ci as int]@.take(i as int),
        decreases 5 - i,
    {
        first5.push(hands[ci][i]);
        i = i + 1;
        proof {
            assert(first5@ =~= dealt[ci as int]@.take(i as int));
        }
    }
    let mut p: usize = 0;
    while p < 4
        invariant
            p <= 4,
            forall|q: int| 0 <= q < 4 ==> (#[trigger] hands@[q])@.to_multiset() == dealt[q]@.to_multiset(),
            forall|q: int| 0 <= q < 4 ==> dealt[q]@ == dealt_hand(deal_seed(seed, attempt), dealer, q),
            forall|q: int| 0 <= q < p ==> sorted_by(#[trigger] hands@[q]@, CardOrder::Dealt),
        decreases 4 - p,
    {
        sort_hand(&mut hands[p]);
        p = p + 1;
    }
    proof {
        let hv = hands@.map_values(|h: Vec<Card>| h@);
        assert forall|q: int| 0 <= q < 4 implies sorted_by(#[trigger] hv[q], CardOrder::Dealt) && hv[q].to_multiset()
            == dealt_hand(deal_seed(seed, attempt), dealer, q).to_multiset() by {
            assert(hv[q] == hands@[q]@);
        }
    }
    (hands, first5)
}

impl GuiApp {
    /// A bot chooser names hokm from its first five cards; a human chooser is waited for.
    fn maybe_bot_choose_hokm(&mut self)
        requires
            old(self).wf(),
            old(self).game.phase == (Phase::ChoosingHokm { chooser: old(self).chooser }),
            old(self).game@.hands == sorted_deal(app_seed(old(self)), old(self).dealer, old(self).deal_attempt),
            old(self).chooser_first5@ == first_five(
                app_seed(old(self)),
                old(self).dealer,
                old(self).chooser,
                old(self).deal_attempt,
            ),
        ensures
            final(self).wf(),
            final(self).same_round(old(self)),
            old(self).chooser == old(self).human ==> *final(self) == *old(self),
            old(self).chooser != old(self).human ==> bot_settled(
                old(self),
                final(self),
                old(self).game@,
                old(self).deal_attempt,
                old(self).logs@,
                old(self).fly_queue@,
            ),
        decreases u32::MAX - old(self).deal_attempt, 2int,
    {
        if self.hokm.is_some() {
            return;
        }
        if self.chooser.0 == self.human.0 {
            return;
        }
        proof {
            assert forall|s: Suit| suit_count(self.chooser_first5@, s) <= 255 by {
                lemma_strength_bounded(self.chooser_first5@, s);
            }
        }
        let suit = choose_hokm_for_bot(self.chooser_first5.as_slice());
        proof {
            lemma_bot_hokm_unique(self.chooser_first5@, suit);
        }
        let ghost o = *self;
        self.apply_hokm_choice(suit, true);
        proof {
            let s = app_seed(&o);
            let a0 = o.deal_attempt;
            assert(bot_pick(s, o.dealer, o.chooser, a0) == suit);
            assert(o.game@.step(o.chooser, Action::ChooseHokm { suit }) is Ok);
            lemma_next_round_overwrites(o.game@, o.dealer, o.chooser, o.game@.hands, o.game@.hands, suit);
            let l1 = o.logs@.push(GuiLogEntry::HokmChosen { by_bot: true, suit });
            if every_seat_has_trump(o.game@.hands, suit) {
                assert(o.logs@ + bot_chain_logs(s, o.dealer, o.chooser, a0) =~= l1);
            } else {
                let l2 = l1 + seq![
                    GuiLogEntry::ZeroTrump { hokm: suit, lacking: lacking(o.game@.hands, suit) },
                    GuiLogEntry::Redeal,
                ];
                if a0 == u32::MAX {
                    assert(o.logs@ + bot_chain_logs(s, o.dealer, o.chooser, a0) =~= l2.push(GuiLogEntry::RedealLimitReached));
                } else {
                    let a1 = (a0 + 1) as u32;
                    lemma_bot_settles_at_ge(s, o.dealer, o.chooser, a1);
                    assert(o.logs@ + bot_chain_logs(s, o.dealer, o.chooser, a0) =~= l2 + bot_chain_logs(s, o.dealer, o.chooser, a1));
                }
            }
        }
    }

    /// The chooser names `suit` as hokm (see [`hokm_named`]); a move the rules refuse
    /// is logged and changes nothing.
    pub fn apply_hokm_choice(&mut self, suit: Suit, by_bot: bool)
        requires
            old(self).wf(),
        ensures
            final(self).wf(),
            final(self).same_round(old(self)),
            match old(self).game@.step(old(self).chooser, Action::ChooseHokm { suit }) {
                Err(e) => {
                    &&& final(self).game@ == old(self).game@
                    &&& final(self).logs@ == old(self).logs@.push(GuiLogEntry::HokmError(e))
                    &&& final(self).same_deal(old(self))
                    &&& final(self).hokm == old(self).hokm
                    &&& final(self).fly_queue == old(self).fly_queue
                },
                Ok(_) => hokm_named(old(self), final(self), suit, by_bot),
            },
        decreases u32::MAX - old(self).deal_attempt, 1int,
    {
        proof {
            lemma_table_step(self.game@, self.chooser, Action::ChooseHokm { suit });
        }
        match self.game.apply_action(self.chooser, Action::ChooseHokm { suit }) {
            Ok(_) => {
                self.hokm = Some(suit);
                self.pending_hokm_pick = false;
                self.logs.push(GuiLogEntry::HokmChosen { by_bot, suit });
                if !self.trump_check_ok(suit) {
                    self.logs.push(GuiLogEntry::Redeal);
                    proof {
                        let o = old(self);
                        assert(self.logs@ =~= o.logs@.push(GuiLogEntry::HokmChosen { by_bot, suit }) + seq![
                            GuiLogEntry::ZeroTrump { hokm: suit, lacking: lacking(o.game@.hands, suit) },
                            GuiLogEntry::Redeal,
                        ]);
                        if o.deal_attempt < u32::MAX {
                            let s = app_seed(o);
                            let a1 = (o.deal_attempt + 1) as u32;
                            let af = bot_settles_at(s, o.dealer, o.chooser, a1);
                            lemma_next_round_overwrites(o.game@, o.dealer, o.chooser, o.game@.hands, sorted_deal(s, o.dealer, a1), suit);
                            lemma_next_round_overwrites(o.game@, o.dealer, o.chooser, o.game@.hands, sorted_deal(s, o.dealer, af), suit);
                        }
                    }
                    self.redeal_same_round();
                    return;
                }
                self.run_bots_until_human_turn();
            },
            Err(e) => {
                self.logs.push(GuiLogEntry::HokmError(e));
            },
        }
    }

    /// Redeal the round: the next deal attempt, hands sorted for display, hokm to be
    /// named again by the same chooser. When no further attempt exists, play goes on
    /// with this deal.
    fn redeal_same_round(&mut self)
        requires
            old(self).wf(),
            old(self).game.phase == Phase::Playing,
        ensures
            final(self).wf(),
            final(self).same_round(old(self)),
            old(self).deal_attempt == u32::MAX ==> {
                &&& bots_ran(
                    old(self),
                    final(self),
                    old(self).game@,
                    old(self).fly_queue@,
                    old(self).logs@.push(GuiLogEntry::RedealLimitReached),
                )
                &&& final(self).hokm == old(self).hokm
                &&& final(self).pending_hokm_pick == old(self).pending_hokm_pick
                &&& final(self).chooser_first5 == old(self).chooser_first5
                &&& final(self).deal_attempt == old(self).deal_attempt
            },
            old(self).deal_attempt < u32::MAX ==> redealt(
                old(self),
                final(self),
                old(self).game@,
                (old(self).deal_attempt + 1) as u32,
                old(self).logs@,
            ),
        decreases u32::MAX - old(self).deal_attempt, 0int,
    {
        if self.deal_attempt == u32::MAX {
            self.logs.push(GuiLogEntry::RedealLimitReached);
            self.run_bots_until_human_turn();
            return;
        }
        self.deal_attempt = self.deal_attempt + 1;
        let seed_for_round = self.base_seed.wrapping_add(self.round_number as u64 * 1_000_000);
        let (hands, first5) = deal_round(seed_for_round, self.dealer, self.chooser, self.deal_attempt);
        proof {
            let hv = hands@.map_values(|h: Vec<Card>| h@);
            lemma_sorted_deal_unique(hv, seed_for_round, self.dealer, self.deal_attempt);
            lemma_sorted_deal_sizes(hv, seed_for_round, self.dealer, self.deal_attempt);
            assert forall|p: int| 0 <= p < 4 implies (#[trigger] hands@[p])@.len() <= 13 by {
                assert(hv[p] == hands@[p]@);
            }
        }
        self.chooser_first5 = first5;
        self.game.start_round_with_chooser(self.dealer, hands, self.chooser);
        self.hokm = None;
        self.pending_hokm_pick = self.chooser.0 == self.human.0;
        self.fly_queue.clear();
        let ghost mid = *self;
        proof {
            assert(seed_for_round == app_seed(self));
            assert forall|p: int| 0 <= p < 4 implies (#[trigger] self.game@.hands[p]).len() <= 13 by {
                assert(self.game@.hands[p] == hands@[p]@);
            }
        }
        self.maybe_bot_choose_hokm();
        proof {
            let s = app_seed(old(self));
            let a1 = mid.deal_attempt;
            let af = bot_settles_at(s, old(self).dealer, old(self).chooser, a1);
            lemma_next_round_overwrites(
                old(self).game@,
                old(self).dealer,
                old(self).chooser,
                sorted_deal(s, old(self).dealer, a1),
                sorted_deal(s, old(self).dealer, af),
                Suit::Clubs,
            );
        }
    }
}

/// The start of a round for the table's seed and round number: the pre-draw names
/// the chooser, the dealer sits right before it, attempt 0 is dealt (sorted for
/// display) and logged; a bot chooser then names hokm at once (redealing as
/// [`bot_settles_at`] says) and the bots play until it is the human's turn.
pub open spec fn round_started(n: &GuiApp) -> bool {
    let s = app_seed(n);
    let c = predraw_chooser(s);
    let d = PlayerId(((c.0 + 3) % 4) as u8);
    let g = GameView::fresh(d, c, sorted_deal(s, d, 0), GameConfig { target_round_wins: n.target_rounds });
    &&& n.chooser == c
    &&& n.dealer == d
    &&& n.logs@.len() >= 3
    &&& (n.logs@[0] matches GuiLogEntry::Setup(l) && l@ == predraw_log(c, predraw_ace(s)))
    &&& (n.logs@[1] matches GuiLogEntry::Setup(l) && l@ == dealer_log(d))
    &&& n.logs@[2] == GuiLogEntry::RoundHeader(n.round_number)
    &&& if c == n.human {
        &&& n.game@ == g
        &&& n.hokm is None
        &&& n.pending_hokm_pick
        &&& n.chooser_first5@ == first_five(s, d, c, 0)
        &&& n.deal_attempt == 0
        &&& n.fly_queue@.len() == 0
        &&& n.logs@.len() == 3
    } else {
        let af = bot_settles_at(s, d, c, 0);
        let h = bot_pick(s, d, c, af);
        let v = g.next_round(d, c, sorted_deal(s, d, af)).after_hokm(h);
        let r = bots_play(v, n.human, n.bot_diff, n.base_seed);
        &&& n.game@ == r.0
        &&& n.fly_queue@ == r.1
        &&& n.logs@.skip(3) == bot_chain_logs(s, d, c, 0) + run_logs(v, n.human, n.bot_diff, n.base_seed) + if bot_stuck(
            r.0,
            n.human,
        ) {
            seq![GuiLogEntry::BotNoAction]
        } else {
            Seq::empty()
        }
        &&& n.hokm == Some(h)
        &&& !n.pending_hokm_pick
        &&& n.chooser_first5@ == first_five(s, d, c, af)
        &&& n.deal_attempt == af
    }
}

impl GuiApp {
    /// Deal the current round (see [`round_started`]).
    fn start_new_round(&mut self)
        requires
            old(self).wf(),
        ensures
            final(self).wf(),
            final(self).same_match(old(self)),
            round_started(final(self)),
    {
        self.deal_attempt = 0;
        let seed_for_round = self.base_seed.wrapping_add(self.round_number as u64 * 1_000_000);
        let (chooser, dealer, hands, chooser_first5, lines) = setup_round(seed_for_round, self.deal_attempt);
        let mut lines = lines;
        let dealer_line = lines.pop().unwrap();
        let predraw_line = lines.pop().unwrap();
        let mut logs: Vec<GuiLogEntry> = Vec::new();
        logs.push(GuiLogEntry::Setup(predraw_line));
        logs.push(GuiLogEntry::Setup(dealer_line));
        logs.push(GuiLogEntry::RoundHeader(self.round_number));
        let config = GameConfig { target_round_wins: self.target_rounds };
        proof {
            let hv = hands@.map_values(|h: Vec<Card>| h@);
            lemma_sorted_deal_unique(hv, seed_for_round, dealer, 0);
            lemma_sorted_deal_sizes(hv, seed_for_round, dealer, 0);
            assert(seed_for_round == app_seed(self));
        }
        self.chooser = chooser;
        self.dealer = dealer;
        self.hokm = None;
        self.chooser_first5 = chooser_first5;
        self.logs = logs;
        self.game = GameState::new_round_with_hands_config(dealer, chooser, hands, config);
        self.pending_hokm_pick = self.chooser.0 == self.human.0;
        self.fly_queue.clear();
        proof {
            assert forall|p: int| 0 <= p < 4 implies (#[trigger] self.game@.hands[p]).len() <= 13 by {
                assert(self.game@.hands[p] == hands@[p]@);
            }
        }
        let ghost mid = *self;
        self.maybe_bot_choose_hokm();
        let ghost mid2 = *self;
        proof {
            if mid.chooser == mid.human {
                lemma_bots_play_stop(mid.game@, mid.human, mid.bot_diff, mid.base_seed);
            } else {
                let s = app_seed(&mid);
                let af = bot_settles_at(s, mid.dealer, mid.chooser, 0);
                let h = bot_pick(s, mid.dealer, mid.chooser, af);
                let v = mid.game@.next_round(mid.dealer, mid.chooser, sorted_deal(s, mid.dealer, af)).after_hokm(h);
                lemma_bots_play_fixpoint(v, mid.human, mid.bot_diff, mid.base_seed);
            }
        }
        self.run_bots_until_human_turn();
        proof {
            assert(Seq::<(u8, Card)>::empty().map_values(|x: (u8, Card)| bot_played_entry(x)) =~= Seq::<GuiLogEntry>::empty());
            assert(self.logs@[0] == mid.logs@[0]);
            assert(self.logs@[1] == mid.logs@[1]);
            assert(self.logs@[2] == mid.logs@[2]);
            let s = app_seed(self);
            let c = predraw_chooser(s);
            let d = PlayerId(((c.0 + 3) % 4) as u8);
            let g = GameView::fresh(d, c, sorted_deal(s, d, 0), GameConfig { target_round_wins: self.target_rounds });
            assert(self.chooser == c);
            assert(self.dealer == d);
            assert(mid.game@ == g);
            assert(self.logs@[2] == GuiLogEntry::RoundHeader(self.round_number));
            assert(self.logs@[0] matches GuiLogEntry::Setup(l) && l@ == predraw_log(c, predraw_ace(s)));
            assert(self.logs@[1] matches GuiLogEntry::Setup(l) && l@ == dealer_log(d));
            if mid.chooser != mid.human {
                assert(mid.logs@.len() == 3);
                let af = bot_settles_at(s, d, c, 0);
                let h = bot_pick(s, d, c, af);
                let v = g.next_round(d, c, sorted_deal(s, d, af)).after_hokm(h);
                let r = bots_play(v, self.human, self.bot_diff, self.base_seed);
                assert(self.game@ == r.0);
                assert(self.fly_queue@ == r.1);
                assert(self.logs@.skip(3) =~= bot_chain_logs(s, d, c, 0) + run_logs(v, self.human, self.bot_diff, self.base_seed) + if bot_stuck(r.0, self.human) {
                    seq![GuiLogEntry::BotNoAction]
                } else {
                    Seq::empty()
                });
            } else {
                assert(self.game@ == g);
            }
        }
    }

    /// Start an offline match for `base_seed` at round one, and show the table.
    pub fn start_offline_match(&mut self, base_seed: u64)
        requires
            old(self).wf(),
        ensures
            final(self).wf(),
            final(self).base_seed == base_seed,
            final(self).round_number == 1,
            final(self).screen == Screen::InGame,
            round_started(final(self)),
            final(self).menu_msg == old(self).menu_msg,
            final(self).bot_diff == old(self).bot_diff,
            final(self).target_rounds == old(self).target_rounds,
            final(self).human == old(self).human,
            final(self).hand_sort == old(self).hand_sort,
            final(self).banner_round_number == old(self).banner_round_number,
    {
        self.base_seed = base_seed;
        self.round_number = 1;
        self.start_new_round();
        self.screen = Screen::InGame;
    }

    /// A new match in place of this one (see [`GuiApp::start_offline_match`]).
    pub fn reset_match(&mut self, base_seed: u64)
        requires
            old(self).wf(),
        ensures
            final(self).wf(),
            final(self).base_seed == base_seed,
            final(self).round_number == 1,
            final(self).screen == Screen::InGame,
            round_started(final(self)),
            final(self).menu_msg == old(self).menu_msg,
            final(self).bot_diff == old(self).bot_diff,
            final(self).target_rounds == old(self).target_rounds,
            final(self).human == old(self).human,
            final(self).hand_sort == old(self).hand_sort,
            final(self).banner_round_number == old(self).banner_round_number,
    {
        self.start_offline_match(base_seed);
    }

    /// Deal the next round, unless the match is over.
    pub fn next_round(&mut self)
        requires
            old(self).wf(),
            old(self).round_number < u32::MAX,
        ensures
            final(self).wf(),
            old(self).game.phase is GameOver ==> *final(self) == *old(self),
            !(old(self).game.phase is GameOver) ==> {
                &&& final(self).round_number == old(self).round_number + 1
                &&& round_started(final(self))
                &&& final(self).screen == old(self).screen
                &&& final(self).menu_msg == old(self).menu_msg
                &&& final(self).bot_diff == old(self).bot_diff
                &&& final(self).target_rounds == old(self).target_rounds
                &&& final(self).human == old(self).human
                &&& final(self).base_seed == old(self).base_seed
                &&& final(self).hand_sort == old(self).hand_sort
                &&& final(self).banner_round_number == old(self).banner_round_number
            },
    {
        if let Phase::GameOver { .. } = self.game.phase {
            return;
        }
        self.round_number = self.round_number + 1;
        self.start_new_round();
    }
}

impl GuiApp {
    /// The human is to name hokm: the table shows the suit buttons and, of the hand,
    /// only the first five cards.
    pub fn human_is_choosing_hokm(&self) -> (r: bool)
        ensures
            r == (self.pending_hokm_pick && self.hokm is None && self.chooser == self.human),
    {
        self.pending_hokm_pick && self.hokm.is_none() && self.chooser.0 == self.human.0
    }

    /// The human's cards can be played now: it is the human's turn in the Playing phase.
    pub fn hand_enabled(&self) -> (r: bool)
        ensures
            r == (self.game.turn == self.human && self.game.phase == Phase::Playing),
    {
        self.game.turn.0 == self.human.0 && self.game.phase == Phase::Playing
    }

    /// The human's hand as shown: the same cards, in the chosen display order (the
    /// hand itself keeps its order).
    pub fn hand_for_display(&self) -> (cards: Vec<Card>)
        requires
            self.human.0 < 4,
        ensures
            sorted_by(cards@, CardOrder::Shown(self.hand_sort)),
            cards@.to_multiset() == self.game.hands@[self.human.0 as int]@.to_multiset(),
    {
        let mut cards = self.game.hands[self.human.idx()].clone();
        sort_for_display(&mut cards, self.hand_sort);
        cards
    }

    /// How many face-down cards follow the first five while the human names hokm.
    pub fn hidden_cards(&self) -> (n: usize)
        ensures
            n == if self.chooser_first5@.len() < 13 {
                13 - self.chooser_first5@.len()
            } else {
                0
            },
    {
        13usize.saturating_sub(self.chooser_first5.len())
    }
}

} // verus!
