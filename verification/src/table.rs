//! What a table (a client session) decides around the rules engine: the bot's hokm
//! choice, the redeal check, card labels, display sorting and round setup.
use vstd::prelude::*;
use crate::deal::{
    chooser_by_first_ace, deal_hands_with_dealer, dealt_hand, predraw_ace, predraw_chooser, sort_hand,
};
use crate::game::GameState;
use crate::sorting::{sort_cards, sorted_by, CardOrder, HandSortMode};
use crate::types::{Card, GameConfig, PlayerId, Rank, Suit};

verus! {

/// Honor points of a rank when judging a suit as hokm.
pub open spec fn high_score(r: Rank) -> int {
    match r {
        Rank::Ace => 5,
        Rank::King => 4,
        Rank::Queen => 3,
        Rank::Jack => 2,
        Rank::Ten => 1,
        _ => 0,
    }
}

/// Number of cards of suit `s` in `hand`.
pub open spec fn suit_count(hand: Seq<Card>, s: Suit) -> int
    decreases hand.len(),
{
    if hand.len() == 0 {
        0
    } else {
        suit_count(hand.drop_last(), s) + if hand.last().suit == s {
            1int
        } else {
            0int
        }
    }
}

/// Honor points of the cards of suit `s` in `hand`.
pub open spec fn suit_strength(hand: Seq<Card>, s: Suit) -> int
    decreases hand.len(),
{
    if hand.len() == 0 {
        0
    } else {
        suit_strength(hand.drop_last(), s) + if hand.last().suit == s {
            high_score(hand.last().rank)
        } else {
            0
        }
    }
}

/// Suit `a` is a better hokm than `b` for `hand`: more cards, or as many and more honors.
pub open spec fn better_hokm(hand: Seq<Card>, a: Suit, b: Suit) -> bool {
    suit_count(hand, a) > suit_count(hand, b) || (suit_count(hand, a) == suit_count(hand, b)
        && suit_strength(hand, a) > suit_strength(hand, b))
}

/// Order in which suits are considered: Clubs, Diamonds, Hearts, Spades.
pub open spec fn suit_index(s: Suit) -> int {
    match s {
        Suit::Clubs => 0,
        Suit::Diamonds => 1,
        Suit::Hearts => 2,
        Suit::Spades => 3,
    }
}

/// The suit a bot chooser names as hokm for `hand`: no suit is a better hokm, and
/// every suit before it (in suit order) is a worse one.
pub open spec fn bot_hokm(hand: Seq<Card>) -> Suit {
    choose|r: Suit| is_bot_hokm(hand, r)
}

/// No suit is a better hokm than `r`, and every suit before `r` is a worse one.
pub open spec fn is_bot_hokm(hand: Seq<Card>, r: Suit) -> bool {
    (forall|s: Suit| !better_hokm(hand, s, r)) && (forall|s: Suit|
        suit_index(s) < suit_index(r) ==> better_hokm(hand, r, s))
}

/// Only one suit has the two properties of [`bot_hokm`].
pub proof fn lemma_bot_hokm_unique(hand: Seq<Card>, r: Suit)
    requires
        forall|s: Suit| !better_hokm(hand, s, r),
        forall|s: Suit| suit_index(s) < suit_index(r) ==> better_hokm(hand, r, s),
    ensures
        bot_hokm(hand) == r,
{
    assert(is_bot_hokm(hand, r));
    let q = bot_hokm(hand);
    assert(is_bot_hokm(hand, q));
    assert(!better_hokm(hand, q, r));
    if suit_index(q) < suit_index(r) {
        assert(better_hokm(hand, r, q));
    } else if suit_index(r) < suit_index(q) {
        assert(better_hokm(hand, q, r));
        assert(!better_hokm(hand, r, q));
    }
}

/// A hand holds at most as many cards of a suit as it has cards, and each of them is
/// worth at most five honor points.
pub proof fn lemma_strength_bounded(hand: Seq<Card>, s: Suit)
    ensures
        0 <= suit_count(hand, s) <= hand.len(),
        0 <= suit_strength(hand, s) <= 5 * suit_count(hand, s),
    decreases hand.len(),
{
    if hand.len() > 0 {
        lemma_strength_bounded(hand.drop_last(), s);
    }
}

fn honor_points(r: Rank) -> (p: u16)
    ensures
        p == high_score(r),
{
    match r {
        Rank::Ace => 5,
        Rank::King => 4,
        Rank::Queen => 3,
        Rank::Jack => 2,
        Rank::Ten => 1,
        _ => 0,
    }
}

/// A bot chooser's hokm: the suit with the most cards in `hand`, honors breaking ties,
/// then suit order (Clubs first).
pub fn choose_hokm_for_bot(hand: &[Card]) -> (r: Suit)
    requires
        forall|s: Suit| suit_count(hand@, s) <= 255,
    ensures
        forall|s: Suit| !better_hokm(hand@, s, r),
        forall|s: Suit| suit_index(s) < suit_index(r) ==> better_hokm(hand@, r, s),
        r == bot_hokm(hand@),
{
    let suits = [Suit::Clubs, Suit::Diamonds, Suit::Hearts, Suit::Spades];
    let n = hand.len();
    let mut best_suit = Suit::Clubs;
    let mut best_count: u8 = 0;
    let mut best_high: u16 = 0;
    let mut k: usize = 0;
    while k < 4
        invariant
            k <= 4,
            n == hand@.len(),
            forall|s: Suit| suit_count(hand@, s) <= 255,
            suits@ == seq![Suit::Clubs, Suit::Diamonds, Suit::Hearts, Suit::Spades],
            k == 0 ==> best_suit == Suit::Clubs && best_count == 0 && best_high == 0,
            k > 0 ==> best_count == suit_count(hand@, best_suit) && best_high == suit_strength(
                hand@,
                best_suit,
            ),
            k > 0 ==> suit_index(best_suit) < k,
            forall|s: Suit| suit_index(s) < k ==> !better_hokm(hand@, s, best_suit),
            forall|s: Suit|
                suit_index(s) < suit_index(best_suit) ==> better_hokm(hand@, best_suit, s),
        decreases 4 - k,
    {
        let s = suits[k];
        assert(suit_index(s) == k);
        let mut count: u8 = 0;
        let mut high: u16 = 0;
        let mut i: usize = 0;
        while i < n
            invariant
                i <= n,
                n == hand@.len(),
                suit_count(hand@, s) <= 255,
                count == suit_count(hand@.take(i as int), s),
                high == suit_strength(hand@.take(i as int), s),
            decreases n - i,
        {
            proof {
                assert(hand@.take(i + 1).drop_last() =~= hand@.take(i as int));
                lemma_strength_bounded(hand@.take(i + 1), s);
                lemma_count_prefix(hand@, s, i + 1);
            }
            let c = hand[i];
            if c.suit == s {
                count = count + 1;
                high = high + honor_points(c.rank);
            }
            i = i + 1;
        }
        proof {
            assert(hand@.take(n as int) =~= hand@);
        }
        let ghost old_best = best_suit;
        if (count > best_count) || (count == best_count && high > best_high) {
            best_suit = s;
            best_count = count;
            best_high = high;
        }
        proof {
            lemma_strength_bounded(hand@, s);
            assert forall|t: Suit| suit_index(t) < k + 1 implies !better_hokm(hand@, t, best_suit) by {
                if suit_index(t) < k {
                    assert(!better_hokm(hand@, t, old_best));
                }
            }
            assert forall|t: Suit| suit_index(t) < suit_index(best_suit) implies better_hokm(
                hand@,
                best_suit,
                t,
            ) by {
                if best_suit != old_best && suit_index(t) < k {
                    assert(!better_hokm(hand@, t, old_best));
                    if suit_index(t) < suit_index(old_best) {
                        assert(better_hokm(hand@, old_best, t));
                    }
                }
            }
        }
        k = k + 1;
    }
    proof {
        lemma_bot_hokm_unique(hand@, best_suit);
    }
    best_suit
}

proof fn lemma_count_prefix(hand: Seq<Card>, s: Suit, i: int)
    requires
        0 <= i <= hand.len(),
    ensures
        suit_count(hand.take(i), s) <= suit_count(hand, s),
    decreases hand.len(),
{
    if i < hand.len() {
        assert(hand.drop_last().take(i) =~= hand.take(i));
        lemma_count_prefix(hand.drop_last(), s, i);
    } else {
        assert(hand.take(i) =~= hand);
    }
}

/// Number of hokm cards in each seat's hand, kept in a `u8` counter (truncated as by `as u8`).
pub fn trump_count_per_player(hands: &[Vec<Card>; 4], hokm: Suit) -> (counts: [u8; 4])
    ensures
        forall|p: int| 0 <= p < 4 ==> #[trigger] counts@[p] == (suit_count(hands@[p]@, hokm) as u8),
{
    let mut counts = [0u8; 4];
    let mut p: usize = 0;
    while p < 4
        invariant
            p <= 4,
            counts@.len() == 4,
            forall|q: int| 0 <= q < p ==> #[trigger] counts@[q] == (suit_count(hands@[q]@, hokm) as u8),
        decreases 4 - p,
    {
        let hand = &hands[p];
        let n = hand.len();
        let mut c: usize = 0;
        let mut i: usize = 0;
        while i < n
            invariant
                i <= n,
                n == hand@.len(),
                c == suit_count(hand@.take(i as int), hokm),
                c <= i,
            decreases n - i,
        {
            proof {
                assert(hand@.take(i + 1).drop_last() =~= hand@.take(i as int));
            }
            if hand[i].suit == hokm {
                c = c + 1;
            }
            i = i + 1;
        }
        proof {
            assert(hand@.take(n as int) =~= hand@);
        }
        counts[p] = c as u8;
        p = p + 1;
    }
    counts
}

/// Does every seat hold at least one hokm card? (Otherwise the round is redealt.)
pub open spec fn every_seat_has_trump(hands: Seq<Seq<Card>>, hokm: Suit) -> bool {
    forall|p: int| 0 <= p < 4 ==> suit_count(#[trigger] hands[p], hokm) > 0
}

/// Label of a rank: "2" to "10", then "J", "Q", "K", "A".
pub open spec fn rank_label(r: Rank) -> Seq<char> {
    match r {
        Rank::Two => seq!['2'],
        Rank::Three => seq!['3'],
        Rank::Four => seq!['4'],
        Rank::Five => seq!['5'],
        Rank::Six => seq!['6'],
        Rank::Seven => seq!['7'],
        Rank::Eight => seq!['8'],
        Rank::Nine => seq!['9'],
        Rank::Ten => seq!['1', '0'],
        Rank::Jack => seq!['J'],
        Rank::Queen => seq!['Q'],
        Rank::King => seq!['K'],
        Rank::Ace => seq!['A'],
    }
}

/// Letter of a suit: C, D, H, S.
pub open spec fn suit_letter(s: Suit) -> char {
    match s {
        Suit::Clubs => 'C',
        Suit::Diamonds => 'D',
        Suit::Hearts => 'H',
        Suit::Spades => 'S',
    }
}

/// Card-suit symbol of a suit.
pub open spec fn suit_symbol(s: Suit) -> char {
    match s {
        Suit::Clubs => '\u{2663}',
        Suit::Diamonds => '\u{2666}',
        Suit::Hearts => '\u{2665}',
        Suit::Spades => '\u{2660}',
    }
}

/// Compact text of a card with a suit letter, such as "AS", "10H", "4C".
pub open spec fn card_text(c: Card) -> Seq<char> {
    rank_label(c.rank).push(suit_letter(c.suit))
}

/// Compact text of a card with a suit symbol.
pub open spec fn card_symbol_text(c: Card) -> Seq<char> {
    rank_label(c.rank).push(suit_symbol(c.suit))
}

fn rank_string(r: Rank) -> (s: String)
    ensures
        s@ == rank_label(r),
{
    let s = match r {
        Rank::Two => String::from_str("2"),
        Rank::Three => String::from_str("3"),
        Rank::Four => String::from_str("4"),
        Rank::Five => String::from_str("5"),
        Rank::Six => String::from_str("6"),
        Rank::Seven => String::from_str("7"),
        Rank::Eight => String::from_str("8"),
        Rank::Nine => String::from_str("9"),
        Rank::Ten => String::from_str("10"),
        Rank::Jack => String::from_str("J"),
        Rank::Queen => String::from_str("Q"),
        Rank::King => String::from_str("K"),
        Rank::Ace => String::from_str("A"),
    };
    proof {
        reveal_strlit("2");
        reveal_strlit("3");
        reveal_strlit("4");
        reveal_strlit("5");
        reveal_strlit("6");
        reveal_strlit("7");
        reveal_strlit("8");
        reveal_strlit("9");
        reveal_strlit("10");
        reveal_strlit("J");
        reveal_strlit("Q");
        reveal_strlit("K");
        reveal_strlit("A");
    }
    s
}

/// Compact card text with a suit letter: "AS", "10H", "4C".
pub fn card_to_string(card: Card) -> (s: String)
    ensures
        s@ == card_text(card),
{
    let mut s = rank_string(card.rank);
    match card.suit {
        Suit::Clubs => {
            s.append("C");
            proof {
                reveal_strlit("C");
            }
        },
        Suit::Diamonds => {
            s.append("D");
            proof {
                reveal_strlit("D");
            }
        },
        Suit::Hearts => {
            s.append("H");
            proof {
                reveal_strlit("H");
            }
        },
        Suit::Spades => {
            s.append("S");
            proof {
                reveal_strlit("S");
            }
        },
    }
    proof {
        assert(s@ =~= card_text(card));
    }
    s
}

/// Compact card text with a suit symbol, such as "A\u{2660}".
pub fn card_short(card: Card) -> (s: String)
    ensures
        s@ == card_symbol_text(card),
{
    let mut s = rank_string(card.rank);
    match card.suit {
        Suit::Clubs => {
            s.append("\u{2663}");
            proof {
                reveal_strlit("\u{2663}");
            }
        },
        Suit::Diamonds => {
            s.append("\u{2666}");
            proof {
                reveal_strlit("\u{2666}");
            }
        },
        Suit::Hearts => {
            s.append("\u{2665}");
            proof {
                reveal_strlit("\u{2665}");
            }
        },
        Suit::Spades => {
            s.append("\u{2660}");
            proof {
                reveal_strlit("\u{2660}");
            }
        },
    }
    proof {
        assert(s@ =~= card_symbol_text(card));
    }
    s
}

/// Sort a hand for display only (it keeps the same cards).
pub fn sort_for_display(cards: &mut Vec<Card>, mode: HandSortMode)
    ensures
        sorted_by(final(cards)@, CardOrder::Shown(mode)),
        final(cards)@.to_multiset() == old(cards)@.to_multiset(),
        final(cards)@.len() == old(cards)@.len(),
{
    sort_cards(cards.as_mut_slice(), CardOrder::Shown(mode));
}

/// The card seat `pid` has put into the current trick, if any.
pub fn card_in_trick(game: &GameState, pid: u8) -> (r: Option<Card>)
    ensures
        match r {
            Some(c) => exists|i: int|
                0 <= i < game.current_trick@.len() && game.current_trick@[i] == (PlayerId(pid), c)
                    && forall|j: int| 0 <= j < i ==> (#[trigger] game.current_trick@[j]).0.0 != pid,
            None => forall|i: int|
                0 <= i < game.current_trick@.len() ==> (#[trigger] game.current_trick@[i]).0.0 != pid,
        },
{
    let n = game.current_trick.len();
    let mut i: usize = 0;
    while i < n
        invariant
            i <= n,
            n == game.current_trick@.len(),
            forall|j: int| 0 <= j < i ==> (#[trigger] game.current_trick@[j]).0.0 != pid,
        decreases n - i,
    {
        let (p, c) = game.current_trick[i];
        if p.0 == pid {
            return Some(c);
        }
        i = i + 1;
    }
    None
}

/// Seed of the deal for a round: the round seed plus one plus the redeal attempt.
pub open spec fn deal_seed(seed: u64, attempt: u32) -> u64 {
    seed.wrapping_add((1 + attempt) as u64)
}

/// The hands of a round, each sorted for the player: attempt `attempt` of the deal
/// for `seed`, dealt by `dealer`.
pub fn deal_sorted_for_ui(seed: u64, dealer: PlayerId, attempt: u32) -> (hands: [Vec<Card>; 4])
    requires
        dealer.0 < 255,
    ensures
        forall|p: int|
            0 <= p < 4 ==> sorted_by(#[trigger] hands@[p]@, CardOrder::Dealt) && hands@[p]@.to_multiset()
                == dealt_hand(deal_seed(seed, attempt), dealer, p).to_multiset(),
{
    let deal_seed = seed.wrapping_add(1 + attempt as u64);
    let mut hands = deal_hands_with_dealer(deal_seed, dealer);
    let mut p: usize = 0;
    while p < 4
        invariant
            p <= 4,
            forall|q: int| 0 <= q < 4 ==> (#[trigger] hands@[q])@.to_multiset() == dealt_hand(
                deal_seed,
                dealer,
                q,
            ).to_multiset(),
            forall|q: int| 0 <= q < p ==> sorted_by(#[trigger] hands@[q]@, CardOrder::Dealt),
        decreases 4 - p,
    {
        sort_hand(&mut hands[p]);
        p = p + 1;
    }
    hands
}

/// A placeholder state before any match starts: no cards, seat 0 deals and chooses.
pub fn dummy_game_state() -> (g: GameState)
    ensures
        g.wf(),
        g@ == crate::game::GameView::fresh(
            PlayerId(0),
            PlayerId(0),
            seq![Seq::<Card>::empty(), Seq::<Card>::empty(), Seq::<Card>::empty(), Seq::<Card>::empty()],
            GameConfig { target_round_wins: 7 },
        ),
{
    let config = GameConfig { target_round_wins: 7 };
    let g = GameState::new_round_with_hands_config(
        PlayerId(0),
        PlayerId(0),
        [Vec::new(), Vec::new(), Vec::new(), Vec::new()],
        config,
    );
    proof {
        assert(g@.hands =~= seq![Seq::<Card>::empty(), Seq::<Card>::empty(), Seq::<Card>::empty(), Seq::<Card>::empty()]);
    }
    g
}

/// The digit of a seat.
pub open spec fn seat_digit(p: PlayerId) -> char {
    if p.0 == 0 {
        '0'
    } else if p.0 == 1 {
        '1'
    } else if p.0 == 2 {
        '2'
    } else {
        '3'
    }
}

/// Log line of the pre-draw: "Pre-draw: P<c> got <ace> -> chooser=P<c>".
pub open spec fn predraw_log(c: PlayerId, ace: Card) -> Seq<char> {
    seq!['P', 'r', 'e', '-', 'd', 'r', 'a', 'w', ':', ' ', 'P', seat_digit(c), ' ', 'g', 'o', 't', ' ']
        + card_symbol_text(ace) + seq![
        ' ',
        '-',
        '>',
        ' ',
        'c',
        'h',
        'o',
        'o',
        's',
        'e',
        'r',
        '=',
        'P',
        seat_digit(c),
    ]
}

/// Log line naming the dealer: "Dealer=P<d>".
pub open spec fn dealer_log(d: PlayerId) -> Seq<char> {
    seq!['D', 'e', 'a', 'l', 'e', 'r', '=', 'P', seat_digit(d)]
}

fn seat_string(p: PlayerId) -> (s: String)
    requires
        p.0 < 4,
    ensures
        s@ == seq![seat_digit(p)],
{
    let s = if p.0 == 0 {
        String::from_str("0")
    } else if p.0 == 1 {
        String::from_str("1")
    } else if p.0 == 2 {
        String::from_str("2")
    } else {
        String::from_str("3")
    };
    proof {
        reveal_strlit("0");
        reveal_strlit("1");
        reveal_strlit("2");
        reveal_strlit("3");
    }
    s
}

/// Set up a round from its seed: the pre-draw names the chooser, the dealer sits
/// right before it, the deal (attempt `deal_attempt`) starts left of the dealer.
/// Returns chooser, dealer, the hands sorted for display, the chooser's first five
/// cards in deal order, and the setup log lines.
pub fn setup_round(seed: u64, deal_attempt: u32) -> (r: (
    PlayerId,
    PlayerId,
    [Vec<Card>; 4],
    Vec<Card>,
    Vec<String>,
))
    ensures
        r.0 == predraw_chooser(seed),
        r.0.0 < 4,
        r.1 == PlayerId(((r.0.0 + 3) % 4) as u8),
        forall|p: int|
            0 <= p < 4 ==> sorted_by(#[trigger] r.2@[p]@, CardOrder::Dealt) && r.2@[p]@.to_multiset()
                == dealt_hand(deal_seed(seed, deal_attempt), r.1, p).to_multiset(),
        r.3@ == dealt_hand(deal_seed(seed, deal_attempt), r.1, r.0.0 as int).take(5),
        r.4@.len() == 2,
        r.4@[0]@ == predraw_log(r.0, predraw_ace(seed)),
        r.4@[1]@ == dealer_log(r.1),
{
    let (chooser, ace) = chooser_by_first_ace(seed);
    let dealer = PlayerId((chooser.0 + 3) % 4);
    let mut line = String::from_str("Pre-draw: P");
    line.append(seat_string(chooser).as_str());
    line.append(" got ");
    line.append(card_short(ace).as_str());
    line.append(" -> chooser=P");
    line.append(seat_string(chooser).as_str());
    let mut dealer_line = String::from_str("Dealer=P");
    dealer_line.append(seat_string(dealer).as_str());
    proof {
        reveal_strlit("Pre-draw: P");
        reveal_strlit(" got ");
        reveal_strlit(" -> chooser=P");
        reveal_strlit("Dealer=P");
        assert(line@ =~= predraw_log(chooser, ace));
        assert(dealer_line@ =~= dealer_log(dealer));
    }
    let mut logs: Vec<String> = Vec::new();
    logs.push(line);
    logs.push(dealer_line);
    let mut hands = deal_hands_with_dealer(seed.wrapping_add(1 + deal_attempt as u64), dealer);
    let ghost dealt = hands@;
    let ci = chooser.idx();
    let mut first5: Vec<Card> = Vec::new();
    let mut i: usize = 0;
    while i < 5
        invariant
            i <= 5,
            hands@ == dealt,
            ci == chooser.0,
            ci < 4,
            dealt[ci as int]@.len() == 13,
            first5@ == dealt[ci as int]@.take(i as int),
        decreases 5 - i,
    {
        first5.push(hands[ci][i]);
        i = i + 1;
        proof {
            assert(first5@ =~= dealt[ci as int]@.take(i as int));
        }
    }
    let mut p: usize = 0;
    while p < 4
        invariant
            p <= 4,
            forall|q: int| 0 <= q < 4 ==> (#[trigger] hands@[q])@.to_multiset() == dealt[q]@.to_multiset(),
            forall|q: int| 0 <= q < p ==> sorted_by(#[trigger] hands@[q]@, CardOrder::Dealt),
        decreases 4 - p,
    {
        sort_hand(&mut hands[p]);
        p = p + 1;
    }
    (chooser, dealer, hands, first5, logs)
}

/// Text of a play in the trick: "P<seat>: <card>".
pub open spec fn play_text(p: PlayerId, card: Seq<char>) -> Seq<char> {
    seq!['P', seat_digit(p), ':', ' '] + card
}

/// Text of the plays of a trick, in play order; `symbols` chooses suit symbols over
/// suit letters.
pub open spec fn plays_text(trick: Seq<(PlayerId, Card)>, symbols: bool) -> Seq<Seq<char>> {
    trick.map_values(|x: (PlayerId, Card)| play_text(x.0, if symbols {
        card_symbol_text(x.1)
    } else {
        card_text(x.1)
    }))
}

/// The window's text of the current trick: a heading, then "(empty)" or one line per
/// play, in play order (cards with suit symbols).
pub open spec fn gui_trick_text(trick: Seq<(PlayerId, Card)>) -> Seq<Seq<char>> {
    seq!["Current Trick"@] + if trick.len() == 0 {
        seq!["(empty)"@]
    } else {
        plays_text(trick, true)
    }
}

/// The terminal's text of the current trick: "Trick: (empty)", or "Trick:" and one
/// line per play, in play order (cards with suit letters).
pub open spec fn tui_trick_text(trick: Seq<(PlayerId, Card)>) -> Seq<Seq<char>> {
    if trick.len() == 0 {
        seq!["Trick: (empty)"@]
    } else {
        seq!["Trick:"@] + plays_text(trick, false)
    }
}

/// Line of one play: "P<seat>: " followed by `card`.
fn play_string(p: PlayerId, card: String) -> (s: String)
    requires
        p.0 < 4,
    ensures
        s@ == play_text(p, card@),
{
    let mut s = String::from_str("P");
    s.append(seat_string(p).as_str());
    s.append(": ");
    s.append(card.as_str());
    proof {
        reveal_strlit("P");
        reveal_strlit(": ");
        assert(s@ =~= play_text(p, card@));
    }
    s
}

/// Append the lines of the current trick's plays (see [`plays_text`]).
fn push_plays(lines: &mut Vec<String>, game: &GameState, symbols: bool)
    requires
        game.wf(),
    ensures
        final(lines)@.map_values(|s: String| s@) == old(lines)@.map_values(|s: String| s@) + plays_text(
            game.current_trick@,
            symbols,
        ),
{
    let n = game.current_trick.len();
    let mut i: usize = 0;
    while i < n
        invariant
            i <= n,
            n == game.current_trick@.len(),
            game.wf(),
            lines@.map_values(|s: String| s@) == old(lines)@.map_values(|s: String| s@) + plays_text(
                game.current_trick@.take(i as int),
                symbols,
            ),
        decreases n - i,
    {
        let (p, c) = game.current_trick[i];
        proof {
            assert(game@.current_trick[i as int] == (p, c));
        }
        let text = if symbols {
            card_short(c)
        } else {
            card_to_string(c)
        };
        let ghost before = lines@;
        let line = play_string(p, text);
        lines.push(line);
        proof {
            let t0 = game.current_trick@.take(i as int);
            let t1 = game.current_trick@.take(i + 1);
            assert(t1 =~= t0.push((p, c)));
            assert(plays_text(t1, symbols) =~= plays_text(t0, symbols).push(line@));
            assert(lines@.map_values(|s: String| s@) =~= before.map_values(|s: String| s@).push(line@));
        }
        i = i + 1;
        proof {
            assert(lines@.map_values(|s: String| s@) =~= old(lines)@.map_values(|s: String| s@) + plays_text(
                game.current_trick@.take(i as int),
                symbols,
            ));
        }
    }
    proof {
        assert(game.current_trick@.take(n as int) =~= game.current_trick@);
    }
}

/// The window's lines for the current trick (see [`gui_trick_text`]).
pub fn trick_lines(game: &GameState) -> (lines: Vec<String>)
    requires
        game.wf(),
    ensures
        lines@.map_values(|s: String| s@) == gui_trick_text(game.current_trick@),
{
    let mut lines: Vec<String> = Vec::new();
    lines.push(String::from_str("Current Trick"));
    proof {
        reveal_strlit("Current Trick");
        reveal_strlit("(empty)");
    }
    if game.current_trick.len() == 0 {
        lines.push(String::from_str("(empty)"));
        proof {
            assert(lines@.map_values(|s: String| s@) =~= gui_trick_text(game.current_trick@));
        }
        return lines;
    }
    push_plays(&mut lines, game, true);
    proof {
        assert(lines@.map_values(|s: String| s@) =~= gui_trick_text(game.current_trick@));
    }
    lines
}

/// The terminal's lines for the current trick (see [`tui_trick_text`]).
pub fn trick_center_lines(game: &GameState) -> (lines: Vec<String>)
    requires
        game.wf(),
    ensures
        lines@.map_values(|s: String| s@) == tui_trick_text(game.current_trick@),
{
    let mut lines: Vec<String> = Vec::new();
    proof {
        reveal_strlit("Trick: (empty)");
        reveal_strlit("Trick:");
    }
    if game.current_trick.len() == 0 {
        lines.push(String::from_str("Trick: (empty)"));
        proof {
            assert(lines@.map_values(|s: String| s@) =~= tui_trick_text(game.current_trick@));
        }
        return lines;
    }
    lines.push(String::from_str("Trick:"));
    push_plays(&mut lines, game, false);
    proof {
        assert(lines@.map_values(|s: String| s@) =~= tui_trick_text(game.current_trick@));
    }
    lines
}

/// Text of what a seat has put into the trick: "Played: <card>", or a dash when
/// nothing (the window writes an em dash and suit symbols, the terminal a hyphen and
/// suit letters).
pub open spec fn played_text(card: Option<Card>, symbols: bool) -> Seq<char> {
    match card {
        Some(c) => "Played: "@ + if symbols {
            card_symbol_text(c)
        } else {
            card_text(c)
        },
        None => if symbols {
            "Played: \u{2014}"@
        } else {
            "Played: -"@
        },
    }
}

/// The "Played" line of a seat's panel (see [`played_text`]).
pub fn played_line(card: Option<Card>, symbols: bool) -> (s: String)
    ensures
        s@ == played_text(card, symbols),
{
    proof {
        reveal_strlit("Played: ");
        reveal_strlit("Played: \u{2014}");
        reveal_strlit("Played: -");
    }
    match card {
        Some(c) => {
            let mut s = String::from_str("Played: ");
            if symbols {
                s.append(card_short(c).as_str());
            } else {
                s.append(card_to_string(c).as_str());
            }
            s
        },
        None => if symbols {
            String::from_str("Played: \u{2014}")
        } else {
            String::from_str("Played: -")
        },
    }
}

} // verus!
