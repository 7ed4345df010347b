//! The game state machine: who may act, what an action does, and what events it reports.
use vstd::prelude::*;
use crate::rules::{best_play, lemma_best_play_in_trick, trick_winner};
use crate::types::{
    next_seat, other_team, team_index, team_of, Action, Card, Error, Event, GameConfig, Phase,
    PlayerId, Suit, Team,
};

verus! {

/// Full truth state of a match (all hands are visible here).
#[derive(Clone, Debug)]
pub struct GameState {
    /// Stays the same for the whole match.
    pub config: GameConfig,
    pub phase: Phase,
    pub dealer: PlayerId,
    pub turn: PlayerId,
    pub hokm: Option<Suit>,
    /// Hidden information: every seat's hand.
    pub hands: [Vec<Card>; 4],
    /// The trick being played, in play order (0 to 3 cards between actions).
    pub current_trick: Vec<(PlayerId, Card)>,
    /// Tricks taken in this round: [team A, team B].
    pub tricks_taken: [u8; 2],
    /// Rounds won in this match: [team A, team B].
    pub rounds_won: [u8; 2],
}

/// Mathematical picture of a [`GameState`].
#[verifier::ext_equal]
pub struct GameView {
    pub config: GameConfig,
    pub phase: Phase,
    pub dealer: PlayerId,
    pub turn: PlayerId,
    pub hokm: Option<Suit>,
    pub hands: Seq<Seq<Card>>,
    pub current_trick: Seq<(PlayerId, Card)>,
    pub tricks_taken: Seq<int>,
    pub rounds_won: Seq<int>,
}

impl View for GameState {
    type V = GameView;

    open spec fn view(&self) -> GameView {
        GameView {
            config: self.config,
            phase: self.phase,
            dealer: self.dealer,
            turn: self.turn,
            hokm: self.hokm,
            hands: self.hands@.map_values(|h: Vec<Card>| h@),
            current_trick: self.current_trick@,
            tricks_taken: self.tricks_taken@.map_values(|x: u8| x as int),
            rounds_won: self.rounds_won@.map_values(|x: u8| x as int),
        }
    }
}

/// Does `hand` hold a card of suit `s`?
pub open spec fn holds_suit(hand: Seq<Card>, s: Suit) -> bool {
    exists|i: int| 0 <= i < hand.len() && #[trigger] hand[i].suit == s
}

/// Cards of `hand` that follow suit `s`, in hand order.
pub open spec fn cards_of_suit(hand: Seq<Card>, s: Suit) -> Seq<Card> {
    hand.filter(suit_is(s))
}

/// The predicate "is of suit `s`".
pub open spec fn suit_is(s: Suit) -> spec_fn(Card) -> bool {
    |c: Card| c.suit == s
}

/// One play action per card, in the same order.
pub open spec fn plays(cards: Seq<Card>) -> Seq<Action> {
    cards.map_values(|c: Card| Action::PlayCard { card: c })
}

/// The four hokm choices, in suit order.
pub open spec fn hokm_choices() -> Seq<Action> {
    seq![
        Action::ChooseHokm { suit: Suit::Clubs },
        Action::ChooseHokm { suit: Suit::Diamonds },
        Action::ChooseHokm { suit: Suit::Hearts },
        Action::ChooseHokm { suit: Suit::Spades },
    ]
}

/// Index of the first occurrence of `card` in `hand` (meaningful when it occurs).
pub open spec fn first_index(hand: Seq<Card>, card: Card) -> int {
    choose|i: int|
        0 <= i < hand.len() && hand[i] == card && (forall|j: int| 0 <= j < i ==> hand[j] != card)
}

/// `Vec::swap_remove`: the last element takes the place of the removed one.
pub open spec fn swap_removed(s: Seq<Card>, i: int) -> Seq<Card> {
    s.update(i, s.last()).drop_last()
}

impl GameView {
    /// The state's invariant: kept by every operation of [`GameState`].
    pub open spec fn wf(self) -> bool {
        &&& self.hands.len() == 4
        &&& self.tricks_taken.len() == 2
        &&& self.rounds_won.len() == 2
        &&& self.dealer.0 < 4
        &&& self.turn.0 < 4
        &&& forall|i: int| 0 <= i < 2 ==> 0 <= #[trigger] self.tricks_taken[i] <= 7
        &&& forall|i: int| 0 <= i < 2 ==> 0 <= #[trigger] self.rounds_won[i] <= 255
        &&& match self.phase {
            Phase::ChoosingHokm { chooser } => {
                &&& chooser == self.turn
                &&& self.hokm is None
                &&& self.current_trick.len() == 0
                &&& self.tricks_taken[0] == 0
                &&& self.tricks_taken[1] == 0
            },
            Phase::Playing => {
                &&& self.hokm is Some
                &&& self.tricks_taken[0] < 7
                &&& self.tricks_taken[1] < 7
                &&& self.current_trick.len() < 4
                &&& self.trick_in_turn_order()
            },
            _ => self.current_trick.len() == 0,
        }
    }

    /// The cards of the current trick were played by consecutive seats ending just before `turn`.
    pub open spec fn trick_in_turn_order(self) -> bool {
        forall|i: int|
            0 <= i < self.current_trick.len() ==> (#[trigger] self.current_trick[i]).0.0 == (
            self.turn.0 + 4 - self.current_trick.len() + i) % 4
    }

    /// The hand of seat `p`.
    pub open spec fn hand_of(self, p: PlayerId) -> Seq<Card> {
        self.hands[p.0 as int]
    }

    /// The suit of the card that opened the current trick.
    pub open spec fn lead_suit(self) -> Suit {
        self.current_trick[0].1.suit
    }

    /// The cards `player` may play now (meaningful in the Playing phase, on `player`'s turn):
    /// any card when leading, otherwise cards of the lead suit if the hand holds one.
    pub open spec fn playable_cards(self, player: PlayerId) -> Seq<Card> {
        let hand = self.hand_of(player);
        if self.current_trick.len() == 0 {
            hand
        } else if holds_suit(hand, self.lead_suit()) {
            cards_of_suit(hand, self.lead_suit())
        } else {
            hand
        }
    }

    /// Every action that `player` may take now.
    pub open spec fn legal_actions(self, player: PlayerId) -> Seq<Action> {
        if player != self.turn {
            Seq::empty()
        } else {
            match self.phase {
                Phase::ChoosingHokm { chooser } => if chooser == player {
                    hokm_choices()
                } else {
                    Seq::empty()
                },
                Phase::Playing => plays(self.playable_cards(player)),
                _ => Seq::empty(),
            }
        }
    }

    /// Why `player` may not take `action` now, if it is refused.
    pub open spec fn action_error(self, player: PlayerId, action: Action) -> Option<Error> {
        if player != self.turn {
            Some(Error::NotPlayersTurn)
        } else {
            match (self.phase, action) {
                (Phase::ChoosingHokm { chooser }, Action::ChooseHokm { suit }) => {
                    if chooser != player {
                        Some(Error::WrongPhase)
                    } else if self.hokm is Some {
                        Some(Error::HokmAlreadyChosen)
                    } else {
                        None
                    }
                },
                (Phase::Playing, Action::PlayCard { card }) => {
                    let hand = self.hand_of(player);
                    if !hand.contains(card) {
                        Some(Error::CardNotInHand)
                    } else if self.current_trick.len() > 0 && card.suit != self.lead_suit()
                        && holds_suit(hand, self.lead_suit()) {
                        Some(Error::MustFollowSuit { required: self.lead_suit() })
                    } else {
                        None
                    }
                },
                _ => Some(Error::WrongPhase),
            }
        }
    }

    /// State after the chooser names the hokm: play starts left of the dealer.
    pub open spec fn after_hokm(self, suit: Suit) -> GameView {
        GameView { hokm: Some(suit), phase: Phase::Playing, turn: next_seat(self.dealer), ..self }
    }

    /// State and events after `player` plays `card` (an accepted play): the card moves
    /// from the hand (`Vec::swap_remove` of its first occurrence) to the trick; an
    /// incomplete trick passes the turn on, a complete one is closed.
    pub open spec fn after_play(self, player: PlayerId, card: Card) -> (GameView, Seq<Event>) {
        let placed = self.place_card(player, card);
        let played = Event::CardPlayed { player, card };
        if placed.current_trick.len() < 4 {
            (GameView { turn: next_seat(self.turn), ..placed }, seq![played])
        } else {
            let (w, ev) = placed.close_trick();
            (w, seq![played] + ev)
        }
    }

    /// The card leaves `player`'s hand and joins the trick.
    pub open spec fn place_card(self, player: PlayerId, card: Card) -> GameView {
        let hand = self.hand_of(player);
        GameView {
            hands: self.hands.update(player.0 as int, swap_removed(hand, first_index(hand, card))),
            current_trick: self.current_trick.push((player, card)),
            ..self
        }
    }

    /// A complete trick goes to its winner's team; the winner leads next. A team's
    /// seventh trick closes the round.
    pub open spec fn close_trick(self) -> (GameView, Seq<Event>) {
        let winner = best_play(self.current_trick, self.hokm->0).0;
        let t = team_of(winner);
        let ti = team_index(t);
        let tricks = self.tricks_taken.update(ti, self.tricks_taken[ti] + 1);
        let base = GameView {
            current_trick: Seq::empty(),
            turn: winner,
            tricks_taken: tricks,
            ..self
        };
        let ended = Event::TrickEnded { winner };
        if tricks[ti] >= 7 {
            let (w, ev) = base.close_round(t);
            (w, seq![ended] + ev)
        } else {
            (base, seq![ended])
        }
    }

    /// Team `t` wins the round (kot: the other team took no trick); enough round
    /// wins end the match.
    pub open spec fn close_round(self, t: Team) -> (GameView, Seq<Event>) {
        let ti = team_index(t);
        let kot = self.tricks_taken[team_index(other_team(t))] == 0;
        let rounds = self.rounds_won.update(ti, self.rounds_won[ti] + 1);
        let ended = Event::RoundEnded { winner: t, kot };
        if rounds[ti] >= self.config.target_round_wins {
            (
                GameView { rounds_won: rounds, phase: Phase::GameOver { winner: t }, ..self },
                seq![ended, Event::GameEnded { winner: t }],
            )
        } else {
            (GameView { rounds_won: rounds, phase: Phase::RoundOver { winner: t, kot }, ..self }, seq![ended])
        }
    }

    /// The rules: the outcome of `player` taking `action` in this state.
    pub open spec fn step(self, player: PlayerId, action: Action) -> Result<
        (GameView, Seq<Event>),
        Error,
    > {
        match self.action_error(player, action) {
            Some(e) => Err(e),
            None => match action {
                Action::ChooseHokm { suit } => Ok(
                    (self.after_hokm(suit), seq![Event::HokmChosen { suit }]),
                ),
                Action::PlayCard { card } => Ok(self.after_play(player, card)),
            },
        }
    }

    /// The round counters after the action still fit in a `u8`.
    pub open spec fn step_fits(self, player: PlayerId, action: Action) -> bool {
        self.step(player, action) matches Ok((v, _)) ==> v.rounds_won[0] <= 255
            && v.rounds_won[1] <= 255
    }
}

impl GameState {
    /// The state's invariant (see [`GameView::wf`]).
    pub open spec fn wf(&self) -> bool {
        self@.wf()
    }

    /// A new match with the default config (seven round wins); the seat left of the
    /// dealer chooses hokm.
    pub fn new_with_hands(dealer: PlayerId, hands: [Vec<Card>; 4]) -> (s: Self)
        requires
            dealer.0 < 4,
        ensures
            s.wf(),
            s@ == GameView::fresh(
                dealer,
                next_seat(dealer),
                hands@.map_values(|h: Vec<Card>| h@),
                GameConfig { target_round_wins: 7 },
            ),
    {
        Self::new_with_hands_config(dealer, hands, GameConfig::default())
    }

    /// A new match with a custom config; the seat left of the dealer chooses hokm.
    pub fn new_with_hands_config(dealer: PlayerId, hands: [Vec<Card>; 4], config: GameConfig) -> (s: Self)
        requires
            dealer.0 < 4,
        ensures
            s.wf(),
            s@ == GameView::fresh(dealer, next_seat(dealer), hands@.map_values(|h: Vec<Card>| h@), config),
    {
        Self::new_round_with_hands_config(dealer, dealer.next(), hands, config)
    }

    /// A new match in which `chooser` (normally the seat left of `dealer`) chooses hokm.
    pub fn new_round_with_hands_config(
        dealer: PlayerId,
        chooser: PlayerId,
        hands: [Vec<Card>; 4],
        config: GameConfig,
    ) -> (s: Self)
        requires
            dealer.0 < 4,
            chooser.0 < 4,
        ensures
            s.wf(),
            s@ == GameView::fresh(dealer, chooser, hands@.map_values(|h: Vec<Card>| h@), config),
    {
        let s = GameState {
            config,
            phase: Phase::ChoosingHokm { chooser },
            dealer,
            turn: chooser,
            hokm: None,
            hands,
            current_trick: Vec::with_capacity(4),
            tricks_taken: [0, 0],
            rounds_won: [0, 0],
        };
        proof {
            assert(s@ =~= GameView::fresh(dealer, chooser, hands@.map_values(|h: Vec<Card>| h@), config));
        }
        s
    }
}

impl GameState {
    /// Start the next round with a new dealer and newly dealt hands; the seat left of
    /// the new dealer chooses hokm. Config and round wins stay.
    pub fn start_next_round(&mut self, new_dealer: PlayerId, new_hands: [Vec<Card>; 4])
        requires
            new_dealer.0 < 4,
        ensures
            final(self).wf(),
            final(self)@ == old(self)@.next_round(
                new_dealer,
                next_seat(new_dealer),
                new_hands@.map_values(|h: Vec<Card>| h@),
            ),
    {
        self.start_round_with_chooser(new_dealer, new_hands, new_dealer.next())
    }

    /// Start the next round with a new dealer, newly dealt hands and the seat that
    /// chooses hokm. Config and round wins stay.
    pub fn start_round_with_chooser(&mut self, new_dealer: PlayerId, new_hands: [Vec<Card>; 4], chooser: PlayerId)
        requires
            new_dealer.0 < 4,
            chooser.0 < 4,
        ensures
            final(self).wf(),
            final(self)@ == old(self)@.next_round(new_dealer, chooser, new_hands@.map_values(|h: Vec<Card>| h@)),
    {
        self.dealer = new_dealer;
        self.hands = new_hands;
        self.hokm = None;
        self.current_trick.clear();
        self.tricks_taken = [0, 0];
        self.phase = Phase::ChoosingHokm { chooser };
        self.turn = chooser;
        proof {
            assert(self@ =~= old(self)@.next_round(new_dealer, chooser, new_hands@.map_values(|h: Vec<Card>| h@)));
        }
    }
}

impl GameView {
    /// A new round: new dealer and hands, no hokm, empty trick, no tricks taken;
    /// config and round wins stay; `chooser` chooses hokm.
    pub open spec fn next_round(self, dealer: PlayerId, chooser: PlayerId, hands: Seq<Seq<Card>>) -> GameView {
        GameView {
            phase: Phase::ChoosingHokm { chooser },
            dealer,
            turn: chooser,
            hokm: None,
            hands,
            current_trick: Seq::empty(),
            tricks_taken: seq![0, 0],
            ..self
        }
    }

    /// The start of a match: nothing played, no hokm, `chooser` to choose.
    pub open spec fn fresh(dealer: PlayerId, chooser: PlayerId, hands: Seq<Seq<Card>>, config: GameConfig) -> GameView {
        GameView {
            config,
            phase: Phase::ChoosingHokm { chooser },
            dealer,
            turn: chooser,
            hokm: None,
            hands,
            current_trick: Seq::empty(),
            tricks_taken: seq![0, 0],
            rounds_won: seq![0, 0],
        }
    }
}


/// Position of the first `card` in `hand`, if any.
fn find_card(hand: &Vec<Card>, card: Card) -> (r: Option<usize>)
    ensures
        match r {
            Some(i) => i < hand@.len() && i == first_index(hand@, card) && hand@[i as int] == card,
            None => !hand@.contains(card),
        },
{
    let n = hand.len();
    let mut i: usize = 0;
    while i < n
        invariant
            i <= n,
            n == hand@.len(),
            forall|j: int| 0 <= j < i ==> hand@[j] != card,
        decreases n - i,
    {
        if hand[i] == card {
            proof {
                let k = first_index(hand@, card);
                assert(0 <= i < hand@.len() && hand@[i as int] == card && (forall|j: int|
                    0 <= j < i ==> hand@[j] != card));
                if k != i {
                    assert(hand@[k] == card);
                }
            }
            return Some(i);
        }
        i = i + 1;
    }
    None
}

/// Does `hand` hold a card of suit `s`?
fn has_suit(hand: &Vec<Card>, s: Suit) -> (r: bool)
    ensures
        r == holds_suit(hand@, s),
{
    let n = hand.len();
    let mut i: usize = 0;
    while i < n
        invariant
            i <= n,
            n == hand@.len(),
            forall|j: int| 0 <= j < i ==> hand@[j].suit != s,
        decreases n - i,
    {
        if hand[i].suit == s {
            return true;
        }
        i = i + 1;
    }
    false
}

/// A play action for every card of `hand`, in order.
fn play_all(hand: &Vec<Card>) -> (r: Vec<Action>)
    ensures
        r@ == plays(hand@),
{
    let n = hand.len();
    let mut r: Vec<Action> = Vec::new();
    let mut i: usize = 0;
    while i < n
        invariant
            i <= n,
            n == hand@.len(),
            r@ == plays(hand@.take(i as int)),
        decreases n - i,
    {
        r.push(Action::PlayCard { card: hand[i] });
        i = i + 1;
        proof {
            assert(r@ =~= plays(hand@.take(i as int)));
        }
    }
    proof {
        assert(hand@.take(n as int) =~= hand@);
    }
    r
}

/// A play action for every card of suit `s` in `hand`, in order.
fn play_suit(hand: &Vec<Card>, s: Suit) -> (r: Vec<Action>)
    ensures
        r@ == plays(cards_of_suit(hand@, s)),
{
    let n = hand.len();
    let mut r: Vec<Action> = Vec::new();
    let mut i: usize = 0;
    proof {
        reveal(Seq::filter);
        assert(hand@.take(0).filter(suit_is(s)) =~= Seq::<Card>::empty());
        assert(r@ =~= plays(hand@.take(0).filter(suit_is(s))));
    }
    while i < n
        invariant
            i <= n,
            n == hand@.len(),
            r@ == plays(hand@.take(i as int).filter(suit_is(s))),
        decreases n - i,
    {
        let c = hand[i];
        proof {
            reveal(Seq::filter);
            assert(hand@.take(i + 1).drop_last() =~= hand@.take(i as int));
            assert(hand@.take(i + 1).last() == c);
        }
        if c.suit == s {
            r.push(Action::PlayCard { card: c });
        }
        i = i + 1;
        proof {
            assert(r@ =~= plays(hand@.take(i as int).filter(suit_is(s))));
        }
    }
    proof {
        assert(hand@.take(n as int) =~= hand@);
    }
    r
}

impl GameState {
    /// Legal actions for `player`: none unless it is `player`'s turn; the four hokm
    /// choices for the chooser; in play, any card to lead, otherwise the cards of the
    /// lead suit if the hand holds one, else any card.
    pub fn legal_actions(&self, player: PlayerId) -> (r: Vec<Action>)
        requires
            self.wf(),
        ensures
            r@ == self@.legal_actions(player),
    {
        if player != self.turn {
            return Vec::new();
        }
        match self.phase {
            Phase::ChoosingHokm { chooser } => {
                if chooser == player {
                    let r = vec![
                        Action::ChooseHokm { suit: Suit::Clubs },
                        Action::ChooseHokm { suit: Suit::Diamonds },
                        Action::ChooseHokm { suit: Suit::Hearts },
                        Action::ChooseHokm { suit: Suit::Spades },
                    ];
                    proof {
                        assert(r@ =~= hokm_choices());
                    }
                    r
                } else {
                    Vec::new()
                }
            },
            Phase::Playing => {
                let hand = &self.hands[player.idx()];
                proof {
                    assert(self@.hand_of(player) == hand@);
                }
                if hand.is_empty() {
                    proof {
                        assert(plays(self@.playable_cards(player)) =~= Seq::<Action>::empty());
                    }
                    return Vec::new();
                }
                if self.current_trick.is_empty() {
                    return play_all(hand);
                }
                let lead = self.current_trick[0].1.suit;
                if has_suit(hand, lead) {
                    play_suit(hand, lead)
                } else {
                    play_all(hand)
                }
            },
            _ => Vec::new(),
        }
    }
}

/// Conditions under which a complete trick may be closed.
pub open spec fn closable(v: GameView) -> bool {
    &&& v.hands.len() == 4
    &&& v.tricks_taken.len() == 2
    &&& v.rounds_won.len() == 2
    &&& v.dealer.0 < 4
    &&& v.tricks_taken[0] < 7 && v.tricks_taken[1] < 7
    &&& v.tricks_taken[0] >= 0 && v.tricks_taken[1] >= 0
    &&& v.rounds_won[0] >= 0 && v.rounds_won[1] >= 0
    &&& v.phase == Phase::Playing
    &&& v.hokm is Some
    &&& v.current_trick.len() == 4
    &&& forall|i: int| 0 <= i < 4 ==> (#[trigger] v.current_trick[i]).0.0 < 4
}

proof fn lemma_close_round_wf(v: GameView, t: Team)
    requires
        v.hands.len() == 4,
        v.tricks_taken.len() == 2,
        v.rounds_won.len() == 2,
        v.dealer.0 < 4,
        v.turn.0 < 4,
        forall|i: int| 0 <= i < 2 ==> 0 <= #[trigger] v.tricks_taken[i] <= 7,
        v.rounds_won[0] >= 0 && v.rounds_won[1] >= 0,
        v.current_trick.len() == 0,
        v.close_round(t).0.rounds_won[0] <= 255,
        v.close_round(t).0.rounds_won[1] <= 255,
    ensures
        v.close_round(t).0.wf(),
{
}

proof fn lemma_close_trick_wf(v: GameView)
    requires
        closable(v),
        v.close_trick().0.rounds_won[0] <= 255,
        v.close_trick().0.rounds_won[1] <= 255,
    ensures
        v.close_trick().0.wf(),
{
    let k = lemma_best_play_in_trick(v.current_trick, v.hokm->0);
    let winner = best_play(v.current_trick, v.hokm->0).0;
    assert(winner.0 < 4);
    let t = team_of(winner);
    let ti = team_index(t);
    let tricks = v.tricks_taken.update(ti, v.tricks_taken[ti] + 1);
    let base = GameView { current_trick: Seq::empty(), turn: winner, tricks_taken: tricks, ..v };
    if tricks[ti] >= 7 {
        lemma_close_round_wf(base, t);
    } else {
        assert(base.trick_in_turn_order());
    }
}

proof fn lemma_place_card(v: GameView, player: PlayerId, card: Card)
    requires
        v.wf(),
        v.phase == Phase::Playing,
        player == v.turn,
    ensures
        ({
            let p = v.place_card(player, card);
            &&& p.current_trick.len() < 4 ==> GameView { turn: next_seat(v.turn), ..p }.wf()
            &&& p.current_trick.len() == 4 ==> closable(p)
        }),
{
    let p = v.place_card(player, card);
    assert forall|i: int| 0 <= i < p.current_trick.len() implies (
    #[trigger] p.current_trick[i]).0.0 == (v.turn.0 + 4 - v.current_trick.len() + i) % 4 by {
        if i < v.current_trick.len() {
            assert(p.current_trick[i] == v.current_trick[i]);
        }
    }
    if p.current_trick.len() < 4 {
        let w = GameView { turn: next_seat(v.turn), ..p };
        assert forall|i: int| 0 <= i < w.current_trick.len() implies (
        #[trigger] w.current_trick[i]).0.0 == (w.turn.0 + 4 - w.current_trick.len() + i) % 4 by {
            assert(w.current_trick[i] == p.current_trick[i]);
        }
    }
}

/// Every accepted action keeps the state's invariant (given the round counters fit in a `u8`).
pub proof fn lemma_step_keeps_wf(v: GameView, player: PlayerId, action: Action)
    requires
        v.wf(),
        v.step_fits(player, action),
    ensures
        v.step(player, action) matches Ok((w, _)) ==> w.wf(),
{
    if let Ok((w, _)) = v.step(player, action) {
        match action {
            Action::ChooseHokm { suit } => {
                assert(w.trick_in_turn_order());
            },
            Action::PlayCard { card } => {
                lemma_place_card(v, player, card);
                let p = v.place_card(player, card);
                if p.current_trick.len() == 4 {
                    lemma_close_trick_wf(p);
                }
            },
        }
    }
}

impl GameState {
    /// Apply `action` for `player`. A refused action changes nothing and reports why;
    /// an accepted one changes the state as the rules ([`GameView::step`]) say and
    /// returns the events it caused, in order.
    pub fn apply_action(&mut self, player: PlayerId, action: Action) -> (r: Result<Vec<Event>, Error>)
        requires
            old(self).wf(),
            old(self)@.step_fits(player, action),
        ensures
            final(self).wf(),
            match old(self)@.step(player, action) {
                Ok((v, ev)) => r matches Ok(events) && events@ == ev && final(self)@ == v,
                Err(e) => r == Err::<Vec<Event>, Error>(e) && final(self)@ == old(self)@,
            },
            r is Ok ==> (final(self).phase matches Phase::GameOver { winner } ==> final(self)@.rounds_won[team_index(winner)]
                >= final(self).config.target_round_wins),
            r is Ok ==> (final(self).phase matches Phase::RoundOver { winner, .. } ==> final(self)@.rounds_won[team_index(winner)]
                < final(self).config.target_round_wins),
    {
        proof {
            lemma_step_keeps_wf(self@, player, action);
            if self@.step(player, action) is Ok {
                crate::laws::lemma_match_ends_at_target(self@, player, action);
            }
        }
        if player != self.turn {
            return Err(Error::NotPlayersTurn);
        }
        match (self.phase, action) {
            (Phase::ChoosingHokm { chooser }, Action::ChooseHokm { suit }) => {
                if chooser != player {
                    return Err(Error::WrongPhase);
                }
                if self.hokm.is_some() {
                    return Err(Error::HokmAlreadyChosen);
                }
                self.hokm = Some(suit);
                self.phase = Phase::Playing;
                // Play starts left of the dealer.
                self.turn = self.dealer.next();
                let events = vec![Event::HokmChosen { suit }];
                proof {
                    assert(self@ =~= old(self)@.after_hokm(suit));
                    assert(events@ =~= seq![Event::HokmChosen { suit }]);
                }
                Ok(events)
            },
            (Phase::Playing, Action::PlayCard { card }) => self.play_card(player, card),
            _ => Err(Error::WrongPhase),
        }
    }

    fn play_card(&mut self, player: PlayerId, card: Card) -> (r: Result<Vec<Event>, Error>)
        requires
            old(self).wf(),
            old(self)@.step_fits(player, Action::PlayCard { card }),
            old(self).phase == Phase::Playing,
            player == old(self).turn,
        ensures
            match old(self)@.step(player, Action::PlayCard { card }) {
                Ok((v, ev)) => r matches Ok(events) && events@ == ev && final(self)@ == v,
                Err(e) => r == Err::<Vec<Event>, Error>(e) && final(self)@ == old(self)@,
            },
    {
        let ghost old_v = self@;
        let pi = player.idx();
        proof {
            assert(old_v.hand_of(player) == self.hands[pi as int]@);
        }
        // 1) The player must hold the card.
        let pos = match find_card(&self.hands[pi], card) {
            Some(p) => p,
            None => return Err(Error::CardNotInHand),
        };
        // 2) Follow suit if possible.
        if !self.current_trick.is_empty() {
            let lead = self.current_trick[0].1.suit;
            if card.suit != lead {
                if has_suit(&self.hands[pi], lead) {
                    return Err(Error::MustFollowSuit { required: lead });
                }
            }
        }
        self.commit_play(player, card, pos)
    }

    fn commit_play(&mut self, player: PlayerId, card: Card, pos: usize) -> (r: Result<Vec<Event>, Error>)
        requires
            old(self).wf(),
            old(self).phase == Phase::Playing,
            player == old(self).turn,
            pos < old(self).hands[player.0 as int]@.len(),
            pos == first_index(old(self)@.hand_of(player), card),
            old(self)@.after_play(player, card).0.rounds_won[0] <= 255,
            old(self)@.after_play(player, card).0.rounds_won[1] <= 255,
        ensures
            r matches Ok(events) && events@ == old(self)@.after_play(player, card).1,
            final(self)@ == old(self)@.after_play(player, card).0,
    {
        let ghost old_v = self@;
        let pi = player.idx();
        proof {
            lemma_place_card(old_v, player, card);
        }
        // 3) Remove the card from the hand, 4) add it to the trick.
        self.hands[pi].swap_remove(pos);
        self.current_trick.push((player, card));
        let mut events = vec![Event::CardPlayed { player, card }];
        proof {
            assert(self.hands@.map_values(|h: Vec<Card>| h@) =~= old_v.place_card(player, card).hands);
            assert(self@ =~= old_v.place_card(player, card));
        }
        // 5) Trick not complete: the next seat plays.
        if self.current_trick.len() < 4 {
            self.turn = self.turn.next();
            proof {
                assert(self@ =~= old_v.after_play(player, card).0);
                assert(events@ =~= old_v.after_play(player, card).1);
            }
            return Ok(events);
        }
        // 6) Trick complete.
        let mut closing = self.close_trick();
        events.append(&mut closing);
        proof {
            assert(events@ =~= old_v.after_play(player, card).1);
        }
        Ok(events)
    }

    fn close_trick(&mut self) -> (r: Vec<Event>)
        requires
            closable(old(self)@),
            old(self)@.close_trick().0.rounds_won[0] <= 255,
            old(self)@.close_trick().0.rounds_won[1] <= 255,
        ensures
            final(self)@ == old(self)@.close_trick().0,
            r@ == old(self)@.close_trick().1,
    {
        let ghost old_v = self@;
        let hokm = self.hokm.unwrap();
        let winner = trick_winner(self.current_trick.as_slice(), hokm);
        proof {
            let k = lemma_best_play_in_trick(self.current_trick@, hokm);
        }
        let mut events = vec![Event::TrickEnded { winner }];
        // 7) Count the trick, 8) the winner leads the next one.
        let wteam = winner.team();
        let wi = wteam.idx();
        self.tricks_taken[wi] = self.tricks_taken[wi] + 1;
        self.current_trick.clear();
        self.turn = winner;
        let ghost base = self@;
        proof {
            assert(base =~= GameView {
                current_trick: Seq::empty(),
                turn: winner,
                tricks_taken: old_v.tricks_taken.update(wi as int, old_v.tricks_taken[wi as int] + 1),
                ..old_v
            });
        }
        // 9) Seven tricks win the round.
        if self.tricks_taken[wi] >= 7 {
            let mut round_events = self.close_round(wteam);
            events.append(&mut round_events);
        }
        proof {
            assert(events@ =~= old_v.close_trick().1);
        }
        events
    }

    fn close_round(&mut self, t: Team) -> (r: Vec<Event>)
        requires
            old(self).tricks_taken@.len() == 2,
            old(self)@.rounds_won[team_index(t)] < 255,
        ensures
            final(self)@ == old(self)@.close_round(t).0,
            r@ == old(self)@.close_round(t).1,
    {
        let ghost old_v = self@;
        let ti = t.idx();
        let kot = self.tricks_taken[t.other().idx()] == 0;
        self.rounds_won[ti] = self.rounds_won[ti] + 1;
        // 10) Enough round wins end the match.
        if self.rounds_won[ti] >= self.config.target_round_wins {
            self.phase = Phase::GameOver { winner: t };
            let events = vec![Event::RoundEnded { winner: t, kot }, Event::GameEnded { winner: t }];
            proof {
                assert(self@ =~= old_v.close_round(t).0);
                assert(events@ =~= old_v.close_round(t).1);
            }
            events
        } else {
            self.phase = Phase::RoundOver { winner: t, kot };
            let events = vec![Event::RoundEnded { winner: t, kot }];
            proof {
                assert(self@ =~= old_v.close_round(t).0);
                assert(events@ =~= old_v.close_round(t).1);
            }
            events
        }
    }
}

} // verus!
