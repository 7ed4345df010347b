//! Properties of the rules that hold across operations.
use vstd::prelude::*;
use crate::ai::{
    beating, bot_choice, cheap_key, cheapest, hard_choice, medium_choice,
    not_of_suit, partner_of, Difficulty,
};
use crate::game::{
    cards_of_suit, first_index, holds_suit, hokm_choices, plays, suit_is, swap_removed, GameView,
};
use crate::deal::{dealt_hand, first_ace, lemma_shuffled_deck_has_ace, predraw_ace, predraw_chooser, shuffled_deck};
use crate::rules::{best_play, wins_over};
use crate::table::{every_seat_has_trump, suit_count};
use crate::sorting::{color_rank, order_key, sorted_by, suit_rank, CardOrder, HandSortMode};
use crate::types::{
    next_seat, other_team, rank_num, team_index, team_of, Action, Card, Event, Phase, PlayerId,
    Rank, Suit,
};

verus! {

/// A play action is listed exactly for the cards listed.
pub proof fn lemma_plays_contains(cs: Seq<Card>, a: Action)
    ensures
        plays(cs).contains(a) <==> (a matches Action::PlayCard { card } && cs.contains(card)),
{
    if plays(cs).contains(a) {
        let i = choose|i: int| 0 <= i < plays(cs).len() && plays(cs)[i] == a;
        assert(cs[i] == a->card);
    }
    if let Action::PlayCard { card } = a {
        if cs.contains(card) {
            let i = choose|i: int| 0 <= i < cs.len() && cs[i] == card;
            assert(plays(cs)[i] == a);
        }
    }
}

/// The cards of suit `s` in a hand are exactly the hand's cards of that suit.
pub proof fn lemma_cards_of_suit_contains(hand: Seq<Card>, s: Suit, c: Card)
    ensures
        cards_of_suit(hand, s).contains(c) <==> (hand.contains(c) && c.suit == s),
{
    broadcast use vstd::seq_lib::group_filter_ensures;

    if cards_of_suit(hand, s).contains(c) {
        hand.lemma_filter_contains_rev(suit_is(s), c);
        let i = choose|i: int|
            0 <= i < cards_of_suit(hand, s).len() && cards_of_suit(hand, s)[i] == c;
        assert(suit_is(s)(cards_of_suit(hand, s)[i]));
    }
    if hand.contains(c) && c.suit == s {
        let i = choose|i: int| 0 <= i < hand.len() && hand[i] == c;
        assert(suit_is(s)(hand[i]));
    }
}

/// An action is among `player`'s legal actions exactly when the rules accept it:
/// the list of legal actions is both sound and complete.
pub proof fn lemma_legal_iff_accepted(v: GameView, player: PlayerId, action: Action)
    requires
        v.wf(),
    ensures
        v.legal_actions(player).contains(action) <==> v.step(player, action) is Ok,
{
    if player != v.turn {
        assert(!v.legal_actions(player).contains(action));
    } else {
        match v.phase {
            Phase::ChoosingHokm { chooser } => {
                if chooser == player {
                    if let Action::ChooseHokm { suit } = action {
                        match suit {
                            Suit::Clubs => assert(hokm_choices()[0] == action),
                            Suit::Diamonds => assert(hokm_choices()[1] == action),
                            Suit::Hearts => assert(hokm_choices()[2] == action),
                            Suit::Spades => assert(hokm_choices()[3] == action),
                        }
                    } else {
                        assert(!hokm_choices().contains(action));
                    }
                } else {
                    assert(!v.legal_actions(player).contains(action));
                }
            },
            Phase::Playing => {
                let hand = v.hand_of(player);
                lemma_plays_contains(v.playable_cards(player), action);
                if let Action::PlayCard { card } = action {
                    if v.current_trick.len() > 0 && holds_suit(hand, v.lead_suit()) {
                        lemma_cards_of_suit_contains(hand, v.lead_suit(), card);
                    }
                }
            },
            _ => {
                assert(!v.legal_actions(player).contains(action));
            },
        }
    }
}

/// While a trick is incomplete, play passes to the next seat.
pub proof fn lemma_turn_rotates(v: GameView, player: PlayerId, card: Card)
    requires
        v.wf(),
        v.step(player, Action::PlayCard { card }) is Ok,
        v.current_trick.len() < 3,
    ensures
        v.step(player, Action::PlayCard { card })->Ok_0.0.turn == next_seat(player),
        v.step(player, Action::PlayCard { card })->Ok_0.0.current_trick == v.current_trick.push(
            (player, card),
        ),
{
}

/// The fourth card closes the trick: its winner's team scores it, and the winner leads
/// the next trick.
pub proof fn lemma_trick_winner_leads(v: GameView, player: PlayerId, card: Card)
    requires
        v.wf(),
        v.step(player, Action::PlayCard { card }) is Ok,
        v.current_trick.len() == 3,
    ensures
        ({
            let (w, evs) = v.step(player, Action::PlayCard { card })->Ok_0;
            let winner = best_play(v.current_trick.push((player, card)), v.hokm->0).0;
            let t = team_index(team_of(winner));
            &&& w.current_trick.len() == 0
            &&& w.turn == winner
            &&& w.tricks_taken[t] == v.tricks_taken[t] + 1
            &&& w.tricks_taken[1 - t] == v.tricks_taken[1 - t]
            &&& evs[1] == Event::TrickEnded { winner }
        }),
{
}

/// Naming hokm starts play, and the seat left of the dealer leads.
pub proof fn lemma_left_of_dealer_leads(v: GameView, player: PlayerId, suit: Suit)
    requires
        v.step(player, Action::ChooseHokm { suit }) is Ok,
    ensures
        ({
            let w = v.step(player, Action::ChooseHokm { suit })->Ok_0.0;
            &&& w.phase == Phase::Playing
            &&& w.hokm == Some(suit)
            &&& w.turn == next_seat(v.dealer)
            &&& w.hands == v.hands
        }),
{
}

/// A match's config never changes, and neither does its dealer within a round.
pub proof fn lemma_config_fixed(v: GameView, player: PlayerId, action: Action)
    requires
        v.step(player, action) is Ok,
    ensures
        v.step(player, action)->Ok_0.0.config == v.config,
        v.step(player, action)->Ok_0.0.dealer == v.dealer,
{
}

/// A round ends when a team takes its seventh trick; it is a kot exactly when the
/// other team took none.
pub proof fn lemma_round_end_and_kot(v: GameView, player: PlayerId, card: Card)
    requires
        v.wf(),
        v.step(player, Action::PlayCard { card }) is Ok,
        v.step(player, Action::PlayCard { card })->Ok_0.0.phase matches Phase::RoundOver { .. },
    ensures
        ({
            let w = v.step(player, Action::PlayCard { card })->Ok_0.0;
            let winner = w.phase->RoundOver_winner;
            let kot = w.phase->RoundOver_kot;
            &&& w.tricks_taken[team_index(winner)] == 7
            &&& kot == (w.tricks_taken[team_index(other_team(winner))] == 0)
            &&& w.rounds_won[team_index(winner)] == v.rounds_won[team_index(winner)] + 1
        }),
{
}

/// No card of a trick takes it from the winning card: the winning play is maximal.
pub proof fn lemma_best_play_unbeaten(trick: Seq<(PlayerId, Card)>, hokm: Suit)
    requires
        trick.len() > 0,
    ensures
        forall|i: int|
            0 <= i < trick.len() ==> !wins_over(
                #[trigger] trick[i].1,
                best_play(trick, hokm).1,
                trick[0].1.suit,
                hokm,
            ),
    decreases trick.len(),
{
    if trick.len() > 1 {
        let prefix = trick.drop_last();
        lemma_best_play_unbeaten(prefix, hokm);
        let lead = trick[0].1.suit;
        let prev = best_play(prefix, hokm);
        let best = best_play(trick, hokm);
        assert forall|i: int| 0 <= i < trick.len() implies !wins_over(
            #[trigger] trick[i].1,
            best.1,
            lead,
            hokm,
        ) by {
            if i < trick.len() - 1 {
                assert(trick[i] == prefix[i]);
                assert(prefix[0] == trick[0]);
                assert(!wins_over(prefix[i].1, prev.1, lead, hokm));
            }
        }
    }
}

/// Seats across the table are partners; the next seat plays for the other team.
pub proof fn lemma_seating(p: PlayerId)
    requires
        p.0 < 4,
    ensures
        team_of(partner_of(p)) == team_of(p),
        team_of(next_seat(p)) == other_team(team_of(p)),
        partner_of(partner_of(p)) == p,
        next_seat(next_seat(next_seat(next_seat(p)))) == p,
{
}

/// `Vec::swap_remove` takes out exactly the entry at `i`.
pub proof fn lemma_swap_removed(s: Seq<Card>, i: int)
    requires
        0 <= i < s.len(),
    ensures
        swap_removed(s, i).len() + 1 == s.len(),
        swap_removed(s, i).to_multiset() == s.to_multiset().remove(s[i]),
{
    broadcast use vstd::seq_lib::group_to_multiset_ensures;
    broadcast use vstd::multiset::group_multiset_axioms;

    let upd = s.update(i, s.last());
    let res = swap_removed(s, i);
    assert(upd.to_multiset() == s.to_multiset().insert(s.last()).remove(s[i]));
    assert(upd =~= res.push(upd.last()));
    assert(upd.last() == s.last());
    assert(upd.to_multiset() == res.to_multiset().insert(s.last()));
    assert(s.to_multiset().count(s[i]) > 0);
    assert forall|x: Card| #[trigger] res.to_multiset().count(x) == s.to_multiset().remove(s[i]).count(x) by {
        assert(res.to_multiset().insert(s.last()).count(x) == s.to_multiset().insert(s.last()).remove(s[i]).count(x));
    }
    assert(res.to_multiset() =~= s.to_multiset().remove(s[i]));
}

/// An accepted play takes exactly that card out of the player's hand and touches no
/// other hand.
pub proof fn lemma_play_moves_card(v: GameView, player: PlayerId, card: Card)
    requires
        v.wf(),
        v.step(player, Action::PlayCard { card }) is Ok,
    ensures
        ({
            let w = v.step(player, Action::PlayCard { card })->Ok_0.0;
            &&& w.hands.len() == 4
            &&& w.hand_of(player).to_multiset() == v.hand_of(player).to_multiset().remove(card)
            &&& w.hand_of(player).len() + 1 == v.hand_of(player).len()
            &&& forall|q: int| 0 <= q < 4 && q != player.0 ==> w.hands[q] == v.hands[q]
        }),
{
    let hand = v.hand_of(player);
    let i = first_index(hand, card);
    let j = choose|j: int| 0 <= j < hand.len() && hand[j] == card;
    lemma_first_occurrence(hand, card, j);
    assert(0 <= i < hand.len() && hand[i] == card);
    lemma_swap_removed(hand, i);
    let placed = v.place_card(player, card);
    let w = v.step(player, Action::PlayCard { card })->Ok_0.0;
    assert(w.hands == placed.hands);
}

proof fn lemma_first_occurrence(s: Seq<Card>, c: Card, j: int)
    requires
        0 <= j < s.len(),
        s[j] == c,
    ensures
        exists|k: int| 0 <= k < s.len() && s[k] == c && (forall|m: int| 0 <= m < k ==> s[m] != c),
    decreases j,
{
    if exists|m: int| 0 <= m < j && s[m] == c {
        let m = choose|m: int| 0 <= m < j && s[m] == c;
        lemma_first_occurrence(s, c, m);
    } else {
        assert(s[j] == c && (forall|m: int| 0 <= m < j ==> s[m] != c));
    }
}

/// A non-empty list has a cheapest card, and it is one of the list's cards.
pub proof fn lemma_cheapest_in_list(cards: Seq<Card>, hokm: Option<Suit>)
    requires
        cards.len() > 0,
    ensures
        cards.contains(cheapest(cards, hokm)),
        forall|i: int| 0 <= i < cards.len() ==> cheap_key(cheapest(cards, hokm), hokm) <= cheap_key(#[trigger] cards[i], hokm),
    decreases cards.len(),
{
    let m = lemma_min_exists(cards, hokm);
    crate::ai::lemma_cheapest(cards, hokm, m);
}

proof fn lemma_min_exists(cards: Seq<Card>, hokm: Option<Suit>) -> (m: Card)
    requires
        cards.len() > 0,
    ensures
        cards.contains(m),
        forall|i: int| 0 <= i < cards.len() ==> cheap_key(m, hokm) <= cheap_key(#[trigger] cards[i], hokm),
    decreases cards.len(),
{
    if cards.len() == 1 {
        assert(cards[0] == cards[0]);
        cards[0]
    } else {
        let rest = cards.drop_last();
        let m0 = lemma_min_exists(rest, hokm);
        let last = cards.last();
        assert forall|i: int| 0 <= i < rest.len() implies rest[i] == cards[i] by {}
        if cheap_key(last, hokm) < cheap_key(m0, hokm) {
            assert(cards[cards.len() - 1] == last);
            last
        } else {
            let k = choose|k: int| 0 <= k < rest.len() && rest[k] == m0;
            assert(cards[k] == m0);
            m0
        }
    }
}

proof fn lemma_filter_within(s: Seq<Card>, pred: spec_fn(Card) -> bool, c: Card)
    requires
        s.filter(pred).contains(c),
    ensures
        s.contains(c),
        pred(c),
{
    broadcast use vstd::seq_lib::group_filter_ensures;

    s.lemma_filter_contains_rev(pred, c);
    let i = choose|i: int| 0 <= i < s.filter(pred).len() && s.filter(pred)[i] == c;
    assert(pred(s.filter(pred)[i]));
}

proof fn lemma_cheapest_of_filter(s: Seq<Card>, pred: spec_fn(Card) -> bool, hokm: Option<Suit>)
    requires
        s.filter(pred).len() > 0,
    ensures
        s.contains(cheapest(s.filter(pred), hokm)),
        pred(cheapest(s.filter(pred), hokm)),
{
    lemma_cheapest_in_list(s.filter(pred), hokm);
    lemma_filter_within(s, pred, cheapest(s.filter(pred), hokm));
}

/// Bots only play legal cards: whatever a bot picks, the rules accept.
pub proof fn lemma_bot_choice_is_legal(v: GameView, bot: PlayerId, difficulty: Difficulty, seed: u64)
    requires
        v.wf(),
        v.hand_of(bot).len() <= usize::MAX,
    ensures
        bot_choice(v, bot, difficulty, seed) matches Some(a) ==> v.legal_actions(bot).contains(a)
            && v.step(bot, a) is Ok,
{
    if let Some(a) = bot_choice(v, bot, difficulty, seed) {
        let legal = v.playable_cards(bot);
        let card = a->card;
        let hokm = v.hokm->0;
        match difficulty {
            Difficulty::Easy => {
                broadcast use vstd::seq_lib::group_filter_ensures;

                assert(legal.len() <= usize::MAX);
                let idx = ((crate::rng::xorshift_step(crate::rng::seed_state(seed)) as usize) % (
                legal.len() as usize)) as int;
                assert(legal[idx] == card);
            },
            Difficulty::Medium => {
                if v.current_trick.len() == 0 {
                    lemma_cheapest_in_list(legal, None);
                } else {
                    let best = best_play(v.current_trick, hokm).1;
                    let pred = beating(best, v.lead_suit(), hokm);
                    if legal.filter(pred).len() > 0 {
                        lemma_cheapest_of_filter(legal, pred, Some(hokm));
                    } else {
                        lemma_cheapest_in_list(legal, Some(hokm));
                    }
                }
            },
            Difficulty::Hard => {
                lemma_cheapest_in_list(legal, Some(hokm));
                if v.current_trick.len() == 0 {
                    if legal.filter(not_of_suit(hokm)).len() > 0 {
                        lemma_cheapest_of_filter(legal, not_of_suit(hokm), Some(hokm));
                    }
                } else {
                    let (winner, best) = best_play(v.current_trick, hokm);
                    let pred = beating(best, v.lead_suit(), hokm);
                    let winning = legal.filter(pred);
                    if winner != partner_of(bot) && winning.len() > 0 {
                        lemma_cheapest_of_filter(legal, pred, Some(hokm));
                        if winning.filter(not_of_suit(hokm)).len() > 0 {
                            lemma_cheapest_of_filter(winning, not_of_suit(hokm), Some(hokm));
                            lemma_filter_within(legal, pred, cheapest(winning.filter(not_of_suit(hokm)), Some(hokm)));
                        }
                    }
                }
            },
        }
        lemma_plays_contains(legal, a);
        lemma_legal_iff_accepted(v, bot, a);
    }
}

/// The Medium bot takes the trick whenever one of its legal cards can.
pub proof fn lemma_medium_wins_when_it_can(v: GameView, legal: Seq<Card>)
    requires
        v.wf(),
        v.phase == Phase::Playing,
        v.current_trick.len() > 0,
        exists|i: int|
            0 <= i < legal.len() && wins_over(
                #[trigger] legal[i],
                best_play(v.current_trick, v.hokm->0).1,
                v.lead_suit(),
                v.hokm->0,
            ),
    ensures
        wins_over(medium_choice(v, legal), best_play(v.current_trick, v.hokm->0).1, v.lead_suit(), v.hokm->0),
{
    broadcast use vstd::seq_lib::group_filter_ensures;

    let hokm = v.hokm->0;
    let best = best_play(v.current_trick, hokm).1;
    let pred = beating(best, v.lead_suit(), hokm);
    let i = choose|i: int| 0 <= i < legal.len() && wins_over(legal[i], best, v.lead_suit(), hokm);
    assert(pred(legal[i]));
    assert(legal.filter(pred).contains(legal[i]));
    lemma_cheapest_of_filter(legal, pred, Some(hokm));
}

/// The Hard bot leads a non-trump card whenever it holds one.
pub proof fn lemma_hard_saves_trump_when_leading(v: GameView, bot: PlayerId, legal: Seq<Card>)
    requires
        v.current_trick.len() == 0,
        exists|i: int| 0 <= i < legal.len() && (#[trigger] legal[i]).suit != v.hokm->0,
    ensures
        hard_choice(v, bot, legal).suit != v.hokm->0,
{
    broadcast use vstd::seq_lib::group_filter_ensures;

    let hokm = v.hokm->0;
    let i = choose|i: int| 0 <= i < legal.len() && legal[i].suit != hokm;
    assert(not_of_suit(hokm)(legal[i]));
    assert(legal.filter(not_of_suit(hokm)).contains(legal[i]));
    lemma_cheapest_of_filter(legal, not_of_suit(hokm), Some(hokm));
}

/// When its partner is winning the trick, the Hard bot does not take the trick from
/// the partner unless every legal card would.
pub proof fn lemma_hard_lets_partner_win(v: GameView, bot: PlayerId, c: Card)
    requires
        v.phase == Phase::Playing,
        v.hokm is Some,
        v.current_trick.len() > 0,
        best_play(v.current_trick, v.hokm->0).0 == partner_of(bot),
        v.playable_cards(bot).contains(c),
        !wins_over(c, best_play(v.current_trick, v.hokm->0).1, v.lead_suit(), v.hokm->0),
    ensures
        !wins_over(
            hard_choice(v, bot, v.playable_cards(bot)),
            best_play(v.current_trick, v.hokm->0).1,
            v.lead_suit(),
            v.hokm->0,
        ),
{
    broadcast use vstd::seq_lib::group_filter_ensures;

    let hokm = v.hokm->0;
    let lead = v.lead_suit();
    let best = best_play(v.current_trick, hokm).1;
    let legal = v.playable_cards(bot);
    let m = cheapest(legal, Some(hokm));
    lemma_cheapest_in_list(legal, Some(hokm));
    assert(hard_choice(v, bot, legal) == m);
    let j = choose|j: int| 0 <= j < legal.len() && legal[j] == c;
    assert(cheap_key(m, Some(hokm)) <= cheap_key(legal[j], Some(hokm)));
    let hand = v.hand_of(bot);
    if holds_suit(hand, lead) {
        assert(legal == cards_of_suit(hand, lead));
        let k = choose|k: int| 0 <= k < legal.len() && legal[k] == m;
        assert(suit_is(lead)(legal[k]));
        assert(suit_is(lead)(legal[j]));
    } else {
        if m.suit != hokm && wins_over(m, best, lead, hokm) {
            let k = choose|k: int| 0 <= k < legal.len() && legal[k] == m;
            assert(hand.contains(m));
            assert(m.suit != lead);
        }
    }
}

/// Each display order tells all cards apart: equal keys mean equal cards.
pub proof fn lemma_order_key_injective(o: CardOrder, a: Card, b: Card)
    requires
        order_key(o, a) == order_key(o, b),
    ensures
        a == b,
{
    assert(suit_rank(a.suit) == suit_rank(b.suit) && rank_num(a.rank) == rank_num(b.rank)) by {
        match o {
            CardOrder::Shown(HandSortMode::Color) => {
                assert(color_rank(a.suit) == color_rank(b.suit));
            },
            _ => {},
        }
    }
}

/// Sorting is determined by the cards alone: two sorted lists of the same cards are equal.
pub proof fn lemma_sorted_unique(a: Seq<Card>, b: Seq<Card>, o: CardOrder)
    requires
        sorted_by(a, o),
        sorted_by(b, o),
        a.to_multiset() == b.to_multiset(),
    ensures
        a == b,
    decreases a.len(),
{
    broadcast use vstd::seq_lib::group_to_multiset_ensures;
    broadcast use vstd::multiset::group_multiset_axioms;

    assert(a.to_multiset().len() == a.len());
    assert(b.to_multiset().len() == b.len());
    assert(a.len() == b.len());
    if a.len() > 0 {
        let la = a.last();
        let lb = b.last();
        // The last card of each list has the largest key among the shared cards.
        assert(a.to_multiset().count(lb) > 0);
        assert(b.to_multiset().count(la) > 0);
        assert(a.contains(lb));
        assert(b.contains(la));
        let i = choose|i: int| 0 <= i < a.len() && a[i] == lb;
        let j = choose|j: int| 0 <= j < b.len() && b[j] == la;
        if i < a.len() - 1 {
            assert(order_key(o, a[i]) <= order_key(o, la));
        }
        if j < b.len() - 1 {
            assert(order_key(o, b[j]) <= order_key(o, lb));
        }
        lemma_order_key_injective(o, la, lb);
        assert(a =~= a.drop_last().push(la));
        assert(b =~= b.drop_last().push(lb));
        assert(a.drop_last().to_multiset() =~= a.to_multiset().remove(la));
        assert(b.drop_last().to_multiset() =~= b.to_multiset().remove(lb));
        lemma_sorted_unique(a.drop_last(), b.drop_last(), o);
    } else {
        assert(a =~= b);
    }
}

/// A refused action can always be tried: the only condition of `apply_action` beyond
/// the state's invariant holds, and its contract then leaves the state unchanged.
pub proof fn lemma_refused_action_fits(v: GameView, player: PlayerId, action: Action)
    requires
        v.step(player, action) is Err,
    ensures
        v.step_fits(player, action),
{
}

/// What every accepted action keeps, whatever the round counters: at most three cards
/// lie in an open trick, Playing has a hokm, config and dealer stay, and the trick and
/// round counters never go down.
pub proof fn lemma_step_monotone(v: GameView, player: PlayerId, action: Action)
    requires
        v.wf(),
        v.step(player, action) is Ok,
    ensures
        ({
            let w = v.step(player, action)->Ok_0.0;
            &&& w.current_trick.len() <= 3
            &&& w.phase == Phase::Playing ==> w.hokm is Some
            &&& w.config == v.config
            &&& w.dealer == v.dealer
            &&& w.tricks_taken.len() == 2 && w.rounds_won.len() == 2
            &&& forall|i: int| 0 <= i < 2 ==> #[trigger] w.tricks_taken[i] >= v.tricks_taken[i]
            &&& forall|i: int| 0 <= i < 2 ==> #[trigger] w.rounds_won[i] >= v.rounds_won[i]
        }),
{
    if let Action::PlayCard { card } = action {
        let placed = v.place_card(player, card);
        assert(placed.current_trick.len() == v.current_trick.len() + 1);
        if placed.current_trick.len() == 4 {
            let winner = best_play(placed.current_trick, v.hokm->0).0;
            let ti = team_index(team_of(winner));
            let tricks = placed.tricks_taken.update(ti, placed.tricks_taken[ti] + 1);
            assert(forall|i: int| 0 <= i < 2 ==> #[trigger] tricks[i] >= v.tricks_taken[i]);
        }
    }
}

/// The pre-draw's first Ace is where the scan stops: an Ace, with no Ace before it.
proof fn lemma_first_ace_found(d: Seq<Card>, i: int)
    requires
        0 <= i <= d.len(),
        forall|j: int| 0 <= j < i ==> d[j].rank != Rank::Ace,
        exists|k: int| i <= k < d.len() && #[trigger] d[k].rank == Rank::Ace,
    ensures
        0 <= first_ace(d) < d.len(),
        d[first_ace(d)].rank == Rank::Ace,
        forall|j: int| 0 <= j < first_ace(d) ==> d[j].rank != Rank::Ace,
    decreases d.len() - i,
{
    if d[i].rank == Rank::Ace {
        assert(0 <= i < d.len() && d[i].rank == Rank::Ace && forall|j: int| 0 <= j < i ==> d[j].rank != Rank::Ace);
    } else {
        lemma_first_ace_found(d, i + 1);
    }
}

/// The first Ace of the pre-draw goes to the chooser again when the same shuffled
/// deck is dealt from seat 0 on (as [`crate::deal::deal_hands`] deals it).
pub proof fn lemma_first_ace_in_chooser_hand(seed: u64)
    ensures
        predraw_ace(seed).rank == Rank::Ace,
        predraw_chooser(seed).0 < 4,
        dealt_hand(seed, PlayerId(3), predraw_chooser(seed).0 as int).contains(predraw_ace(seed)),
{
    lemma_shuffled_deck_has_ace(seed);
    let d = shuffled_deck(seed);
    lemma_first_ace_found(d, 0);
    let k = first_ace(d);
    assert(4 * (k / 4) + k % 4 == k && 0 <= k / 4 < 13) by (nonlinear_arith)
        requires
            0 <= k < 52,
    ;
    let p = k % 4;
    let h = dealt_hand(seed, PlayerId(3), p);
    assert(h[k / 4] == d[k]);
}

/// A match ends only when the winner of the round just ended has reached the target
/// number of round wins; a round that ends short of it (kot or not) leaves the match
/// going on. (A step that ends no round reaches neither phase.)
pub proof fn lemma_match_ends_at_target(v: GameView, player: PlayerId, action: Action)
    requires
        v.wf(),
        v.step(player, action) is Ok,
    ensures
        ({
            let w = v.step(player, action)->Ok_0.0;
            &&& w.phase matches Phase::GameOver { winner } ==> w.rounds_won[team_index(winner)]
                >= w.config.target_round_wins
            &&& w.phase matches Phase::RoundOver { winner, .. } ==> w.rounds_won[team_index(winner)]
                < w.config.target_round_wins
            &&& (w.phase is GameOver || w.phase is RoundOver) ==> w.rounds_won[0] + w.rounds_won[1]
                == v.rounds_won[0] + v.rounds_won[1] + 1
        }),
{
}

/// A hand's count of cards of suit `s` is positive exactly when the hand holds one.
pub proof fn lemma_suit_count_positive(h: Seq<Card>, s: Suit)
    ensures
        suit_count(h, s) > 0 <==> holds_suit(h, s),
    decreases h.len(),
{
    if h.len() > 0 {
        let t = h.drop_last();
        lemma_suit_count_positive(t, s);
        crate::table::lemma_strength_bounded(t, s);
        if h.last().suit == s {
            assert(h[h.len() - 1].suit == s);
        } else if holds_suit(h, s) {
            let i = choose|i: int| 0 <= i < h.len() && #[trigger] h[i].suit == s;
            assert(t[i].suit == s);
        } else if holds_suit(t, s) {
            let i = choose|i: int| 0 <= i < t.len() && #[trigger] t[i].suit == s;
            assert(h[i].suit == s);
        }
    }
}

/// The redeal check after hokm is named passes exactly when each of the four seats
/// holds at least one card of the hokm suit.
pub proof fn lemma_trump_check_all_four_seats(hands: Seq<Seq<Card>>, hokm: Suit)
    ensures
        every_seat_has_trump(hands, hokm) <==> (holds_suit(hands[0], hokm) && holds_suit(hands[1], hokm)
            && holds_suit(hands[2], hokm) && holds_suit(hands[3], hokm)),
{
    lemma_suit_count_positive(hands[0], hokm);
    lemma_suit_count_positive(hands[1], hokm);
    lemma_suit_count_positive(hands[2], hokm);
    lemma_suit_count_positive(hands[3], hokm);
    if holds_suit(hands[0], hokm) && holds_suit(hands[1], hokm) && holds_suit(hands[2], hokm)
        && holds_suit(hands[3], hokm) {
        assert forall|p: int| 0 <= p < 4 implies suit_count(#[trigger] hands[p], hokm) > 0 by {
            if p == 0 {
            } else if p == 1 {
            } else if p == 2 {
            } else {
            }
        }
    }
}

} // verus!
