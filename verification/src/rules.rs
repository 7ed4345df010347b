//! Who takes a trick: hokm (trump) beats everything else, otherwise only the
//! lead suit competes, and within a category the higher rank wins.
use vstd::prelude::*;
use crate::types::{rank_num, Card, PlayerId, Suit};

verus! {

/// Does `card` take the trick away from the card `best` that currently wins it?
pub open spec fn wins_over(card: Card, best: Card, lead: Suit, hokm: Suit) -> bool {
    let card_trump = card.suit == hokm;
    let best_trump = best.suit == hokm;
    if card_trump != best_trump {
        card_trump
    } else if card_trump {
        rank_num(card.rank) > rank_num(best.rank)
    } else {
        let card_lead = card.suit == lead;
        let best_lead = best.suit == lead;
        if card_lead != best_lead {
            card_lead
        } else {
            card_lead && rank_num(card.rank) > rank_num(best.rank)
        }
    }
}

/// The play that currently wins a non-empty trick: the first card stands
/// until a later card wins over it, and so on in play order.
pub open spec fn best_play(trick: Seq<(PlayerId, Card)>, hokm: Suit) -> (PlayerId, Card)
    decreases trick.len(),
{
    if trick.len() <= 1 {
        trick[0]
    } else {
        let prev = best_play(trick.drop_last(), hokm);
        let last = trick.last();
        if wins_over(last.1, prev.1, trick[0].1.suit, hokm) {
            last
        } else {
            prev
        }
    }
}

/// Whether `a` takes the trick from `b` (the bots' name for [`wins_over`]).
pub fn beats(a: Card, b: Card, lead: Suit, hokm: Suit) -> (r: bool)
    ensures
        r == wins_over(a, b, lead, hokm),
{
    let a_trump = a.suit == hokm;
    let b_trump = b.suit == hokm;
    if a_trump && !b_trump {
        return true;
    }
    if !a_trump && b_trump {
        return false;
    }
    if a_trump && b_trump {
        return a.rank.value() > b.rank.value();
    }
    let a_lead = a.suit == lead;
    let b_lead = b.suit == lead;
    if a_lead && !b_lead {
        true
    } else if !a_lead && b_lead {
        false
    } else if a_lead && b_lead {
        a.rank.value() > b.rank.value()
    } else {
        false
    }
}

/// The winning play of a non-empty trick, seat and card.
pub fn current_winner(trick: &[(PlayerId, Card)], hokm: Suit) -> (r: (PlayerId, Card))
    requires
        trick@.len() > 0,
    ensures
        r == best_play(trick@, hokm),
{
    let lead = trick[0].1.suit;
    let mut best = trick[0];
    let n = trick.len();
    let mut i: usize = 1;
    proof {
        assert(trick@.take(1).drop_last().len() == 0);
    }
    while i < n
        invariant
            1 <= i <= n,
            n == trick@.len(),
            lead == trick@[0].1.suit,
            best == best_play(trick@.take(i as int), hokm),
        decreases n - i,
    {
        let (pid, card) = trick[i];
        proof {
            let pre = trick@.take(i + 1);
            assert(pre.drop_last() =~= trick@.take(i as int));
            assert(pre[0] == trick@[0]);
            assert(pre.last() == trick@[i as int]);
        }
        if beats(card, best.1, lead, hokm) {
            best = (pid, card);
        }
        i = i + 1;
    }
    proof {
        assert(trick@.take(n as int) =~= trick@);
    }
    best
}

/// Determine who won a trick: the lead suit is the first card's suit, hokm beats
/// non-hokm, and ranks decide within the same winning category.
pub fn trick_winner(trick: &[(PlayerId, Card)], hokm: Suit) -> (r: PlayerId)
    requires
        trick@.len() > 0,
    ensures
        r == best_play(trick@, hokm).0,
{
    let best = current_winner(trick, hokm);
    best.0
}

/// The winning play of a trick is one of the trick's plays.
pub proof fn lemma_best_play_in_trick(trick: Seq<(PlayerId, Card)>, hokm: Suit) -> (i: int)
    requires
        trick.len() > 0,
    ensures
        0 <= i < trick.len(),
        trick[i] == best_play(trick, hokm),
    decreases trick.len(),
{
    if trick.len() <= 1 {
        0
    } else {
        let j = lemma_best_play_in_trick(trick.drop_last(), hokm);
        if wins_over(trick.last().1, best_play(trick.drop_last(), hokm).1, trick[0].1.suit, hokm) {
            trick.len() - 1
        } else {
            j
        }
    }
}

} // verus!
