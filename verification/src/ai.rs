//! Bots. They see the game only through its public state and the legal actions.
//!
//! - Easy: a pseudo-random legal card (deterministic for a seed).
//! - Medium: the cheapest card that wins the trick so far, else the cheapest card.
//! - Hard: like Medium, but saves trumps and does not overtake a winning partner.
use vstd::prelude::*;
use crate::game::{plays, GameState, GameView};
use crate::rng::{seed_state, xorshift_step, XorShift64};
use crate::rules::{beats, best_play, current_winner, wins_over};
use crate::sorting::{suit_order, suit_rank};
use crate::types::{rank_num, Action, Card, Phase, PlayerId, Suit};

verus! {

/// How a bot picks its card: Easy plays a random legal card, Medium tries to take the
/// trick, Hard also plays around its partner and saves trumps.
#[derive(Clone, Copy, Debug, PartialEq, Eq, Structural)]
pub enum Difficulty {
    Easy,
    Medium,
    Hard,
}

/// How costly it is to give up a card: trumps (when `hokm` is given) cost more than
/// any other card, then lower ranks are cheaper, then suit order breaks ties.
pub open spec fn cheap_key(c: Card, hokm: Option<Suit>) -> int {
    let penalty: int = if hokm is Some && c.suit == hokm->0 {
        1
    } else {
        0
    };
    penalty * 1000 + rank_num(c.rank) * 10 + suit_rank(c.suit)
}

/// The cheapest card of a non-empty list.
pub open spec fn cheapest(cards: Seq<Card>, hokm: Option<Suit>) -> Card {
    choose|c: Card|
        cards.contains(c) && forall|i: int|
            0 <= i < cards.len() ==> cheap_key(c, hokm) <= cheap_key(#[trigger] cards[i], hokm)
}

/// "Takes the trick from `best`".
pub open spec fn beating(best: Card, lead: Suit, hokm: Suit) -> spec_fn(Card) -> bool {
    |c: Card| wins_over(c, best, lead, hokm)
}

/// "Is not of suit `s`".
pub open spec fn not_of_suit(s: Suit) -> spec_fn(Card) -> bool {
    |c: Card| c.suit != s
}

/// The partner of seat `p` sits across the table.
pub open spec fn partner_of(p: PlayerId) -> PlayerId {
    PlayerId(((p.0 + 2) % 4) as u8)
}

/// Easy bot: the legal card at a position drawn from the seed.
pub open spec fn easy_choice(legal: Seq<Card>, seed: u64) -> Card {
    legal[((xorshift_step(seed_state(seed)) as usize) % (legal.len() as usize)) as int]
}

/// Medium bot: lead the cheapest card; otherwise win as cheaply as possible, else
/// throw the cheapest card.
pub open spec fn medium_choice(v: GameView, legal: Seq<Card>) -> Card {
    if v.current_trick.len() == 0 {
        cheapest(legal, None)
    } else {
        let hokm = v.hokm->0;
        let best = best_play(v.current_trick, hokm).1;
        let winning = legal.filter(beating(best, v.lead_suit(), hokm));
        if winning.len() > 0 {
            cheapest(winning, Some(hokm))
        } else {
            cheapest(legal, Some(hokm))
        }
    }
}

/// Hard bot: lead the cheapest non-trump if any; let a winning partner keep the
/// trick; otherwise win cheaply (without trump if possible), else throw cheap.
pub open spec fn hard_choice(v: GameView, bot: PlayerId, legal: Seq<Card>) -> Card {
    let hokm = v.hokm->0;
    if v.current_trick.len() == 0 {
        let non_trump = legal.filter(not_of_suit(hokm));
        if non_trump.len() > 0 {
            cheapest(non_trump, Some(hokm))
        } else {
            cheapest(legal, Some(hokm))
        }
    } else {
        let (winner, best) = best_play(v.current_trick, hokm);
        if winner == partner_of(bot) {
            cheapest(legal, Some(hokm))
        } else {
            let winning = legal.filter(beating(best, v.lead_suit(), hokm));
            if winning.len() > 0 {
                let winning_non_trump = winning.filter(not_of_suit(hokm));
                if winning_non_trump.len() > 0 {
                    cheapest(winning_non_trump, Some(hokm))
                } else {
                    cheapest(winning, Some(hokm))
                }
            } else {
                cheapest(legal, Some(hokm))
            }
        }
    }
}

/// What a bot plays: nothing unless it is the bot's turn in the Playing phase with a
/// legal card; otherwise the card its difficulty picks among the legal ones.
pub open spec fn bot_choice(v: GameView, bot: PlayerId, difficulty: Difficulty, seed: u64) -> Option<
    Action,
> {
    if v.turn != bot || v.phase != Phase::Playing || v.playable_cards(bot).len() == 0 {
        None
    } else {
        let legal = v.playable_cards(bot);
        let card = match difficulty {
            Difficulty::Easy => easy_choice(legal, seed),
            Difficulty::Medium => medium_choice(v, legal),
            Difficulty::Hard => hard_choice(v, bot, legal),
        };
        Some(Action::PlayCard { card })
    }
}

/// The cards named by the play actions of a list, in order.
pub open spec fn played_cards(actions: Seq<Action>) -> Seq<Card>
    decreases actions.len(),
{
    if actions.len() == 0 {
        Seq::empty()
    } else {
        let rest = played_cards(actions.drop_last());
        match actions.last() {
            Action::PlayCard { card } => rest.push(card),
            _ => rest,
        }
    }
}

proof fn lemma_played_cards_of_plays(cs: Seq<Card>)
    ensures
        played_cards(plays(cs)) == cs,
    decreases cs.len(),
{
    if cs.len() > 0 {
        lemma_played_cards_of_plays(cs.drop_last());
        assert(plays(cs).drop_last() =~= plays(cs.drop_last()));
        assert(played_cards(plays(cs)) =~= cs);
    }
}

/// Two cards with the same cost are the same card.
pub proof fn lemma_cheap_key_injective(a: Card, b: Card, hokm: Option<Suit>)
    requires
        cheap_key(a, hokm) == cheap_key(b, hokm),
    ensures
        a == b,
{
    assert(suit_rank(a.suit) == suit_rank(b.suit));
    assert(rank_num(a.rank) == rank_num(b.rank));
}

/// The cheapest card of a non-empty list is in the list and costs no more than any of it;
/// it is the only such card.
pub proof fn lemma_cheapest(cards: Seq<Card>, hokm: Option<Suit>, m: Card)
    requires
        cards.contains(m),
        forall|i: int| 0 <= i < cards.len() ==> cheap_key(m, hokm) <= cheap_key(#[trigger] cards[i], hokm),
    ensures
        cheapest(cards, hokm) == m,
{
    let c = cheapest(cards, hokm);
    let i = choose|i: int| 0 <= i < cards.len() && cards[i] == c;
    let j = choose|j: int| 0 <= j < cards.len() && cards[j] == m;
    assert(cheap_key(c, hokm) <= cheap_key(cards[j], hokm));
    assert(cheap_key(m, hokm) <= cheap_key(cards[i], hokm));
    lemma_cheap_key_injective(c, m, hokm);
}

fn cheap_cost(c: Card, hokm: Option<Suit>) -> (k: u32)
    ensures
        k == cheap_key(c, hokm),
{
    let penalty: u32 = match hokm {
        Some(h) => if c.suit == h {
            1
        } else {
            0
        },
        None => 0,
    };
    penalty * 1000 + c.rank.value() as u32 * 10 + suit_order(c.suit) as u32
}

/// Pick a cheap card, avoiding trump when `hokm` is given.
pub fn cheapest_card(cards: &[Card], hokm: Option<Suit>) -> (r: Card)
    requires
        cards@.len() > 0,
    ensures
        r == cheapest(cards@, hokm),
{
    let n = cards.len();
    let mut best = cards[0];
    let mut best_cost = cheap_cost(best, hokm);
    let mut i: usize = 1;
    while i < n
        invariant
            1 <= i <= n,
            n == cards@.len(),
            cards@.contains(best),
            best_cost == cheap_key(best, hokm),
            forall|j: int| 0 <= j < i ==> best_cost <= cheap_key(#[trigger] cards@[j], hokm),
        decreases n - i,
    {
        let cost = cheap_cost(cards[i], hokm);
        if cost < best_cost {
            best = cards[i];
            best_cost = cost;
        }
        i = i + 1;
    }
    proof {
        lemma_cheapest(cards@, hokm, best);
    }
    best
}

/// The cards of `cards` that take the trick from `best`, in order.
fn winning_cards(cards: &Vec<Card>, best: Card, lead: Suit, hokm: Suit) -> (r: Vec<Card>)
    ensures
        r@ == cards@.filter(beating(best, lead, hokm)),
{
    let n = cards.len();
    let mut r: Vec<Card> = Vec::new();
    let mut i: usize = 0;
    proof {
        reveal(Seq::filter);
        assert(cards@.take(0).filter(beating(best, lead, hokm)) =~= Seq::<Card>::empty());
    }
    while i < n
        invariant
            i <= n,
            n == cards@.len(),
            r@ == cards@.take(i as int).filter(beating(best, lead, hokm)),
        decreases n - i,
    {
        let c = cards[i];
        proof {
            reveal(Seq::filter);
            assert(cards@.take(i + 1).drop_last() =~= cards@.take(i as int));
        }
        if beats(c, best, lead, hokm) {
            r.push(c);
        }
        i = i + 1;
    }
    proof {
        assert(cards@.take(n as int) =~= cards@);
    }
    r
}

/// The cards of `cards` that are not of suit `s`, in order.
fn cards_not_of_suit(cards: &Vec<Card>, s: Suit) -> (r: Vec<Card>)
    ensures
        r@ == cards@.filter(not_of_suit(s)),
{
    let n = cards.len();
    let mut r: Vec<Card> = Vec::new();
    let mut i: usize = 0;
    proof {
        reveal(Seq::filter);
        assert(cards@.take(0).filter(not_of_suit(s)) =~= Seq::<Card>::empty());
    }
    while i < n
        invariant
            i <= n,
            n == cards@.len(),
            r@ == cards@.take(i as int).filter(not_of_suit(s)),
        decreases n - i,
    {
        let c = cards[i];
        proof {
            reveal(Seq::filter);
            assert(cards@.take(i + 1).drop_last() =~= cards@.take(i as int));
        }
        if c.suit != s {
            r.push(c);
        }
        i = i + 1;
    }
    proof {
        assert(cards@.take(n as int) =~= cards@);
    }
    r
}

/// The cards of the play actions in `actions`, in order.
fn cards_of_actions(actions: &Vec<Action>) -> (r: Vec<Card>)
    ensures
        r@ == played_cards(actions@),
{
    let n = actions.len();
    let mut r: Vec<Card> = Vec::new();
    let mut i: usize = 0;
    while i < n
        invariant
            i <= n,
            n == actions@.len(),
            r@ == played_cards(actions@.take(i as int)),
        decreases n - i,
    {
        proof {
            assert(actions@.take(i + 1).drop_last() =~= actions@.take(i as int));
        }
        match actions[i] {
            Action::PlayCard { card } => r.push(card),
            _ => {},
        }
        i = i + 1;
    }
    proof {
        assert(actions@.take(n as int) =~= actions@);
    }
    r
}

/// Pick a bot action at the requested difficulty. Returns `None` if it is not the
/// bot's turn in the Playing phase or no legal card exists.
pub fn choose_action(game: &GameState, bot: PlayerId, difficulty: Difficulty, seed: u64) -> (r:
    Option<Action>)
    requires
        game.wf(),
    ensures
        r == bot_choice(game@, bot, difficulty, seed),
{
    if game.turn != bot {
        return None;
    }
    if game.phase != Phase::Playing {
        return None;
    }
    // Legal cards (legal_actions already enforces following suit).
    let actions = game.legal_actions(bot);
    let legal_cards = cards_of_actions(&actions);
    proof {
        lemma_played_cards_of_plays(game@.playable_cards(bot));
    }
    if legal_cards.len() == 0 {
        return None;
    }
    let card = match difficulty {
        Difficulty::Easy => {
            let mut rng = XorShift64::new(seed);
            let idx = (rng.next_u64() as usize) % legal_cards.len();
            legal_cards[idx]
        },
        Difficulty::Medium => medium_pick(game, bot, &legal_cards),
        Difficulty::Hard => hard_pick(game, bot, &legal_cards),
    };
    Some(Action::PlayCard { card })
}

fn medium_pick(game: &GameState, bot: PlayerId, legal_cards: &Vec<Card>) -> (r: Card)
    requires
        game.wf(),
        game.phase == Phase::Playing,
        legal_cards@.len() > 0,
    ensures
        r == medium_choice(game@, legal_cards@),
{
    // Leading: the cheapest legal card.
    if game.current_trick.is_empty() {
        return cheapest_card(legal_cards.as_slice(), None);
    }
    let hokm = game.hokm.unwrap();
    let lead = game.current_trick[0].1.suit;
    let (_winner, best) = current_winner(game.current_trick.as_slice(), hokm);
    // Legal cards that beat the card winning so far.
    let winning = winning_cards(legal_cards, best, lead, hokm);
    if winning.len() > 0 {
        // Win with the cheapest such card (do not waste big cards).
        return cheapest_card(winning.as_slice(), Some(hokm));
    }
    // Cannot win: throw the cheapest card.
    cheapest_card(legal_cards.as_slice(), Some(hokm))
}

fn hard_pick(game: &GameState, bot: PlayerId, legal_cards: &Vec<Card>) -> (r: Card)
    requires
        game.wf(),
        game.phase == Phase::Playing,
        game.turn == bot,
        legal_cards@.len() > 0,
    ensures
        r == hard_choice(game@, bot, legal_cards@),
{
    let hokm = game.hokm.unwrap();
    let partner = PlayerId((bot.0 + 2) % 4);
    // Leading: a low non-trump if possible (save trump).
    if game.current_trick.is_empty() {
        let non_trump = cards_not_of_suit(legal_cards, hokm);
        if non_trump.len() > 0 {
            return cheapest_card(non_trump.as_slice(), Some(hokm));
        }
        return cheapest_card(legal_cards.as_slice(), Some(hokm));
    }
    let lead = game.current_trick[0].1.suit;
    let (winner, best) = current_winner(game.current_trick.as_slice(), hokm);
    // The partner is winning: do not overtake, throw a cheap card.
    if winner == partner {
        return cheapest_card(legal_cards.as_slice(), Some(hokm));
    }
    // An opponent is winning: try to win cheaply.
    let winning = winning_cards(legal_cards, best, lead, hokm);
    if winning.len() > 0 {
        // Prefer a winning card that is not trump.
        let winning_non_trump = cards_not_of_suit(&winning, hokm);
        if winning_non_trump.len() > 0 {
            return cheapest_card(winning_non_trump.as_slice(), Some(hokm));
        }
        return cheapest_card(winning.as_slice(), Some(hokm));
    }
    // Cannot win: throw cheap.
    cheapest_card(legal_cards.as_slice(), Some(hokm))
}

} // verus!
