//! Shared table mechanics: bots playing on their own until a person must act, the
//! facts every table keeps about its game, and the sorted deals of a table.
use vstd::prelude::*;
use crate::ai::{bot_choice, Difficulty};
use crate::deal::dealt_hand;
use crate::game::{lemma_step_keeps_wf, GameView};
use crate::laws::{lemma_play_moves_card, lemma_sorted_unique};
use crate::sorting::{sorted_by, CardOrder};
use crate::table::{deal_seed, every_seat_has_trump, suit_count};
use crate::types::{Action, Card, Phase, PlayerId, Suit};

verus! {

/// Number of cards still in all hands.
pub open spec fn total_cards(v: GameView) -> int {
    (v.hands[0].len() + v.hands[1].len() + v.hands[2].len() + v.hands[3].len()) as int
}

/// Round counters stay below 255 until the match is over.
pub open spec fn rounds_below_limit(v: GameView) -> bool {
    !(v.phase is GameOver) ==> v.rounds_won[0] < 255 && v.rounds_won[1] < 255
}

/// Every hand holds at most a full deal of 13 cards.
pub open spec fn hands_at_most_dealt(v: GameView) -> bool {
    forall|p: int| 0 <= p < 4 ==> (#[trigger] v.hands[p]).len() <= 13
}

/// Seed the bot in seat `p` draws from.
pub open spec fn bot_seed(base: u64, p: PlayerId) -> u64 {
    base.wrapping_add((p.0 * 9999) as u64)
}

/// The state facts every table operation keeps.
pub open spec fn game_ok(v: GameView) -> bool {
    &&& v.wf()
    &&& rounds_below_limit(v)
    &&& hands_at_most_dealt(v)
}

/// An accepted action keeps the table facts; a play takes one card out of the hands.
pub proof fn lemma_table_step(v: GameView, p: PlayerId, a: Action)
    requires
        game_ok(v),
    ensures
        v.step_fits(p, a),
        v.step(p, a) matches Ok((w, _)) ==> {
            &&& game_ok(w)
            &&& w.dealer == v.dealer
            &&& !(w.phase is ChoosingHokm)
            &&& w.hokm == (match a {
                Action::ChooseHokm { suit } => Some(suit),
                Action::PlayCard { .. } => v.hokm,
            })
            &&& a is PlayCard ==> total_cards(w) < total_cards(v)
            &&& a is ChooseHokm ==> w.hands == v.hands
        },
{
    if let Ok((w, _)) = v.step(p, a) {
        if let Action::PlayCard { card } = a {
            let placed = v.place_card(p, card);
            if placed.current_trick.len() == 4 {
                let winner = crate::rules::best_play(placed.current_trick, v.hokm->0).0;
                let ti = crate::types::team_index(crate::types::team_of(winner));
                assert(v.rounds_won[ti] < 255);
            }
            lemma_step_keeps_wf(v, p, a);
            lemma_play_moves_card(v, p, card);
            assert forall|q: int| 0 <= q < 4 implies (#[trigger] w.hands[q]).len() <= 13 by {
                if q != p.0 {
                    assert(w.hands[q] == v.hands[q]);
                }
            }
        } else {
            lemma_step_keeps_wf(v, p, a);
        }
    }
}

/// The hands of deal attempt `attempt` for a table: each sorted, holding the cards
/// that `dealer` deals to that seat.
pub open spec fn is_sorted_deal(hands: Seq<Seq<Card>>, base: u64, dealer: PlayerId, attempt: u32) -> bool {
    &&& hands.len() == 4
    &&& forall|p: int|
        0 <= p < 4 ==> sorted_by(#[trigger] hands[p], CardOrder::Dealt) && hands[p].to_multiset()
            == dealt_hand(deal_seed(base, attempt), dealer, p).to_multiset()
}

/// Every hand of a sorted deal holds thirteen cards.
pub proof fn lemma_sorted_deal_sizes(hands: Seq<Seq<Card>>, base: u64, dealer: PlayerId, attempt: u32)
    requires
        is_sorted_deal(hands, base, dealer, attempt),
    ensures
        forall|p: int| 0 <= p < 4 ==> (#[trigger] hands[p]).len() == 13,
{
    broadcast use vstd::seq_lib::group_to_multiset_ensures;

    assert forall|p: int| 0 <= p < 4 implies (#[trigger] hands[p]).len() == 13 by {
        assert(hands[p].to_multiset().len() == hands[p].len());
        let d = dealt_hand(deal_seed(base, attempt), dealer, p);
        assert(d.to_multiset().len() == d.len());
    }
}

/// One flag per seat, seats 0 to 3.
#[derive(Clone, Copy, Debug, PartialEq, Eq, Structural)]
pub struct SeatFlags {
    pub p0: bool,
    pub p1: bool,
    pub p2: bool,
    pub p3: bool,
}

/// The seats of `hands` that hold no card of `hokm`.
pub open spec fn lacking(hands: Seq<Seq<Card>>, hokm: Suit) -> SeatFlags {
    SeatFlags {
        p0: suit_count(hands[0], hokm) == 0,
        p1: suit_count(hands[1], hokm) == 0,
        p2: suit_count(hands[2], hokm) == 0,
        p3: suit_count(hands[3], hokm) == 0,
    }
}

/// The hands of deal attempt `a` for round seed `seed`, each sorted for display
/// (unique: see [`lemma_sorted_deal_unique`]).
pub open spec fn sorted_deal(seed: u64, dealer: PlayerId, a: u32) -> Seq<Seq<Card>> {
    choose|h: Seq<Seq<Card>>| is_sorted_deal(h, seed, dealer, a)
}

/// Sorted hands are determined by their deal.
pub proof fn lemma_sorted_deal_unique(h: Seq<Seq<Card>>, seed: u64, dealer: PlayerId, a: u32)
    requires
        is_sorted_deal(h, seed, dealer, a),
    ensures
        sorted_deal(seed, dealer, a) == h,
{
    let c = sorted_deal(seed, dealer, a);
    assert(is_sorted_deal(c, seed, dealer, a));
    assert forall|p: int| 0 <= p < 4 implies c[p] == h[p] by {
        lemma_sorted_unique(c[p], h[p], CardOrder::Dealt);
    }
    assert(c =~= h);
}

/// Every seat holds `suit` in deal attempt `a`.
pub open spec fn trumps_ok(seed: u64, dealer: PlayerId, a: u32, suit: Suit) -> bool {
    every_seat_has_trump(sorted_deal(seed, dealer, a), suit)
}

/// A new deal replaces everything a round changes: dealing again, or dealing after
/// hokm was named, is the same as dealing once; a state waiting for its chooser is
/// its own deal.
pub proof fn lemma_next_round_overwrites(v: GameView, d: PlayerId, c: PlayerId, h1: Seq<Seq<Card>>, h2: Seq<Seq<Card>>, s: Suit)
    ensures
        v.next_round(d, c, h1).next_round(d, c, h2) == v.next_round(d, c, h2),
        v.after_hokm(s).next_round(d, c, h2) == v.next_round(d, c, h2),
        (v.wf() && v.phase == (Phase::ChoosingHokm { chooser: c }) && v.dealer == d) ==> v.next_round(d, c, v.hands) == v,
{
    assert(v.next_round(d, c, h1).next_round(d, c, h2) =~= v.next_round(d, c, h2));
    assert(v.after_hokm(s).next_round(d, c, h2) =~= v.next_round(d, c, h2));
    if v.wf() && v.phase == (Phase::ChoosingHokm { chooser: c }) && v.dealer == d {
        assert(v.tricks_taken =~= seq![0int, 0int]);
        assert(v.current_trick =~= Seq::<(PlayerId, Card)>::empty());
        assert(v.next_round(d, c, v.hands) =~= v);
    }
}

/// Every accepted play takes exactly one card out of the hands.
pub proof fn lemma_play_shrinks(v: GameView, p: PlayerId, card: Card)
    requires
        v.wf(),
        v.step(p, Action::PlayCard { card }) is Ok,
    ensures
        total_cards(v.step(p, Action::PlayCard { card })->Ok_0.0) + 1 == total_cards(v),
{
    lemma_play_moves_card(v, p, card);
    let w = v.step(p, Action::PlayCard { card })->Ok_0.0;
    assert(p.0 < 4);
    if p.0 == 0 {
        assert(w.hands[1] == v.hands[1] && w.hands[2] == v.hands[2] && w.hands[3] == v.hands[3]);
    } else if p.0 == 1 {
        assert(w.hands[0] == v.hands[0] && w.hands[2] == v.hands[2] && w.hands[3] == v.hands[3]);
    } else if p.0 == 2 {
        assert(w.hands[0] == v.hands[0] && w.hands[1] == v.hands[1] && w.hands[3] == v.hands[3]);
    } else {
        assert(w.hands[0] == v.hands[0] && w.hands[1] == v.hands[1] && w.hands[2] == v.hands[2]);
    }
}

/// The next bot move from `v`: when the phase is Playing and a bot (not `human`) is
/// to move and has a card, the state after its play and the (seat, card) it played.
#[verifier::opaque]
pub open spec fn bot_move(v: GameView, human: PlayerId, diff: Difficulty, base: u64) -> Option<
    (GameView, (u8, Card)),
> {
    if v.phase != Phase::Playing || v.turn == human {
        None
    } else {
        match bot_choice(v, v.turn, diff, bot_seed(base, v.turn)) {
            Some(Action::PlayCard { card }) => match v.step(v.turn, Action::PlayCard { card }) {
                Ok((w, _)) => Some((w, (v.turn.0, card))),
                Err(_) => None,
            },
            _ => None,
        }
    }
}

/// A bot move takes one card out of the hands.
pub proof fn lemma_bot_move_shrinks(v: GameView, human: PlayerId, diff: Difficulty, base: u64)
    requires
        v.wf(),
    ensures
        bot_move(v, human, diff, base) matches Some((w, _)) ==> total_cards(w) < total_cards(v),
{
    reveal(bot_move);
    if let Some((w, x)) = bot_move(v, human, diff, base) {
        lemma_play_shrinks(v, v.turn, x.1);
    }
}

/// The bots' moves from `v` on, until the round or match is over, it is `human`'s
/// turn, hokm is still to be named, or the bot to move has no card: the state they
/// leave and the cards they play as (seat, card), in order.
pub open spec fn bots_play(v: GameView, human: PlayerId, diff: Difficulty, base: u64) -> (
    GameView,
    Seq<(u8, Card)>,
)
    decreases total_cards(v),
{
    if !v.wf() {
        (v, Seq::empty())
    } else {
        match bot_move(v, human, diff, base) {
            Some((w, x)) => {
                proof {
                    lemma_bot_move_shrinks(v, human, diff, base);
                }
                let r = bots_play(w, human, diff, base);
                (r.0, seq![x] + r.1)
            },
            None => (v, Seq::empty()),
        }
    }
}

/// Where the bots stop, [`bots_play`] leaves the state as it is.
pub proof fn lemma_bots_play_stop(v: GameView, human: PlayerId, diff: Difficulty, base: u64)
    requires
        v.wf(),
        v.phase != Phase::Playing || v.turn == human || bot_choice(v, v.turn, diff, bot_seed(base, v.turn)) is None,
    ensures
        bots_play(v, human, diff, base) == (v, Seq::<(u8, Card)>::empty()),
{
    reveal(bot_move);
}

/// One bot play: [`bots_play`] goes on from the state after it.
#[verifier::rlimit(40)]
pub proof fn lemma_bots_play_next(v: GameView, human: PlayerId, diff: Difficulty, base: u64, card: Card)
    requires
        v.wf(),
        v.phase == Phase::Playing,
        v.turn != human,
        bot_choice(v, v.turn, diff, bot_seed(base, v.turn)) == Some(Action::PlayCard { card }),
        v.step(v.turn, Action::PlayCard { card }) is Ok,
    ensures
        ({
            let w = v.step(v.turn, Action::PlayCard { card })->Ok_0.0;
            &&& bots_play(v, human, diff, base).0 == bots_play(w, human, diff, base).0
            &&& bots_play(v, human, diff, base).1 == seq![(v.turn.0, card)] + bots_play(w, human, diff, base).1
        }),
{
    let w = v.step(v.turn, Action::PlayCard { card })->Ok_0.0;
    assert(bot_move(v, human, diff, base) == Some((w, (v.turn.0, card)))) by {
        reveal(bot_move);
    }
    let r = bots_play(w, human, diff, base);
    assert(bots_play(v, human, diff, base) == (r.0, seq![(v.turn.0, card)] + r.1));
}

/// The bots stopped while one of them was to play (it had no card).
pub open spec fn bot_stuck(z: GameView, human: PlayerId) -> bool {
    z.phase == Phase::Playing && z.turn != human
}

/// Bots that stopped stay stopped: running them again changes nothing, and the
/// table facts still hold where they stopped.
pub proof fn lemma_bots_play_fixpoint(v: GameView, human: PlayerId, diff: Difficulty, base: u64)
    requires
        game_ok(v),
    ensures
        game_ok(bots_play(v, human, diff, base).0),
        bots_play(bots_play(v, human, diff, base).0, human, diff, base) == (
            bots_play(v, human, diff, base).0,
            Seq::<(u8, Card)>::empty(),
        ),
    decreases total_cards(v),
{
    match bot_move(v, human, diff, base) {
        Some((w, x)) => {
            assert(v.step(v.turn, Action::PlayCard { card: x.1 }) matches Ok((w2, _)) && w2 == w) by {
                reveal(bot_move);
            }
            lemma_table_step(v, v.turn, Action::PlayCard { card: x.1 });
            lemma_bot_move_shrinks(v, human, diff, base);
            lemma_bots_play_fixpoint(w, human, diff, base);
        },
        None => {},
    }
}

/// The bots never play from the human's hand.
pub proof fn lemma_bots_keep_human_hand(v: GameView, human: PlayerId, diff: Difficulty, base: u64)
    requires
        game_ok(v),
        human.0 < 4,
    ensures
        bots_play(v, human, diff, base).0.hands[human.0 as int] == v.hands[human.0 as int],
    decreases total_cards(v),
{
    match bot_move(v, human, diff, base) {
        Some((w, x)) => {
            assert(v.step(v.turn, Action::PlayCard { card: x.1 }) matches Ok((w2, _)) && w2 == w
                && v.turn != human) by {
                reveal(bot_move);
            }
            lemma_table_step(v, v.turn, Action::PlayCard { card: x.1 });
            lemma_play_moves_card(v, v.turn, x.1);
            lemma_bot_move_shrinks(v, human, diff, base);
            lemma_bots_keep_human_hand(w, human, diff, base);
        },
        None => {},
    }
}

} // verus!
