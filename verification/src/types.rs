//! The vocabulary of the game: seats, teams, cards, phases, actions, events and errors.
use vstd::prelude::*;

verus! {

/// A seat at the table: 0, 1, 2 or 3. Teams are fixed: seats 0 and 2 against seats 1 and 3.
#[derive(Clone, Copy, Debug, PartialEq, Eq, Hash, Structural)]
pub struct PlayerId(pub u8);

/// Seat that plays after `p` (clockwise).
pub open spec fn next_seat(p: PlayerId) -> PlayerId {
    PlayerId(((p.0 + 1) % 4) as u8)
}

/// Team of seat `p`: even seats are team A, odd seats team B.
pub open spec fn team_of(p: PlayerId) -> Team {
    if p.0 % 2 == 0 {
        Team::A
    } else {
        Team::B
    }
}

/// Index of a team in the two-entry score arrays.
pub open spec fn team_index(t: Team) -> int {
    match t {
        Team::A => 0,
        Team::B => 1,
    }
}

/// The team opposing `t`.
pub open spec fn other_team(t: Team) -> Team {
    match t {
        Team::A => Team::B,
        Team::B => Team::A,
    }
}

impl PlayerId {
    /// Seat number as an index into per-seat arrays.
    pub fn idx(self) -> (r: usize)
        ensures
            r == self.0,
    {
        self.0 as usize
    }

    /// The team this seat plays for.
    pub fn team(self) -> (t: Team)
        ensures
            t == team_of(self),
    {
        if self.0 % 2 == 0 {
            Team::A
        } else {
            Team::B
        }
    }

    /// The seat to the left (the next one to play).
    pub fn next(self) -> (n: PlayerId)
        requires
            self.0 < 255,
        ensures
            n == next_seat(self),
    {
        PlayerId((self.0 + 1) % 4)
    }
}

/// The two teams: A (seats 0 and 2) and B (seats 1 and 3).
#[derive(Clone, Copy, Debug, PartialEq, Eq, Hash, Structural)]
pub enum Team {
    A,
    B,
}

impl Team {
    /// 0 for team A, 1 for team B.
    pub fn idx(self) -> (r: usize)
        ensures
            r == team_index(self),
    {
        match self {
            Team::A => 0,
            Team::B => 1,
        }
    }

    /// The opposing team.
    pub fn other(self) -> (r: Team)
        ensures
            r == other_team(self),
    {
        match self {
            Team::A => Team::B,
            Team::B => Team::A,
        }
    }
}

/// The four suits.
#[derive(Clone, Copy, Debug, PartialEq, Eq, Hash, Structural)]
pub enum Suit {
    Clubs,
    Diamonds,
    Hearts,
    Spades,
}

/// Rank of a card, from Two (value 2) up to Ace (value 14).
#[derive(Clone, Copy, Debug, PartialEq, Eq, Hash, PartialOrd, Ord, Structural)]
pub enum Rank {
    Two,
    Three,
    Four,
    Five,
    Six,
    Seven,
    Eight,
    Nine,
    Ten,
    Jack,
    Queen,
    King,
    Ace,
}

/// Numeric value of a rank: Two is 2, ..., Ten is 10, Jack 11, Queen 12, King 13, Ace 14.
pub open spec fn rank_num(r: Rank) -> u8 {
    match r {
        Rank::Two => 2,
        Rank::Three => 3,
        Rank::Four => 4,
        Rank::Five => 5,
        Rank::Six => 6,
        Rank::Seven => 7,
        Rank::Eight => 8,
        Rank::Nine => 9,
        Rank::Ten => 10,
        Rank::Jack => 11,
        Rank::Queen => 12,
        Rank::King => 13,
        Rank::Ace => 14,
    }
}

impl Rank {
    /// The numeric value of the rank (2 to 14).
    pub fn value(self) -> (v: u8)
        ensures
            v == rank_num(self),
            2 <= v <= 14,
    {
        match self {
            Rank::Two => 2,
            Rank::Three => 3,
            Rank::Four => 4,
            Rank::Five => 5,
            Rank::Six => 6,
            Rank::Seven => 7,
            Rank::Eight => 8,
            Rank::Nine => 9,
            Rank::Ten => 10,
            Rank::Jack => 11,
            Rank::Queen => 12,
            Rank::King => 13,
            Rank::Ace => 14,
        }
    }
}

/// A playing card.
#[derive(Clone, Copy, Debug, PartialEq, Eq, Hash, Structural)]
pub struct Card {
    pub suit: Suit,
    pub rank: Rank,
}

/// Tunable knobs of a match.
#[derive(Clone, Copy, Debug)]
pub struct GameConfig {
    /// How many round wins are needed to win the whole match (classic Hokm: 7).
    pub target_round_wins: u8,
}

impl Default for GameConfig {
    fn default() -> (c: Self)
        ensures
            c.target_round_wins == 7,
    {
        GameConfig { target_round_wins: 7 }
    }
}

/// Where a match stands.
#[derive(Clone, Copy, Debug, PartialEq, Eq, Structural)]
pub enum Phase {
    ChoosingHokm { chooser: PlayerId },
    Playing,
    /// A team reached seven tricks; `kot` means the losing team took none.
    RoundOver { winner: Team, kot: bool },
    GameOver { winner: Team },
}

/// What a player can do: name hokm, or play a card.
#[derive(Clone, Copy, Debug, PartialEq, Eq, Structural)]
pub enum Action {
    ChooseHokm { suit: Suit },
    PlayCard { card: Card },
}

/// What an accepted action caused, reported in order.
#[derive(Clone, Copy, Debug, PartialEq, Eq, Structural)]
pub enum Event {
    HokmChosen { suit: Suit },
    CardPlayed { player: PlayerId, card: Card },
    TrickEnded { winner: PlayerId },
    /// `kot`: the losing team took no trick in the round.
    RoundEnded { winner: Team, kot: bool },
    GameEnded { winner: Team },
}

/// Why an action is refused.
#[derive(Clone, Copy, Debug, PartialEq, Eq, Structural)]
pub enum Error {
    NotPlayersTurn,
    WrongPhase,
    CardNotInHand,
    MustFollowSuit { required: Suit },
    HokmAlreadyChosen,
}

/// Name of a suit as written in messages.
pub open spec fn suit_name(s: Suit) -> Seq<char> {
    match s {
        Suit::Clubs => seq!['C', 'l', 'u', 'b', 's'],
        Suit::Diamonds => seq!['D', 'i', 'a', 'm', 'o', 'n', 'd', 's'],
        Suit::Hearts => seq!['H', 'e', 'a', 'r', 't', 's'],
        Suit::Spades => seq!['S', 'p', 'a', 'd', 'e', 's'],
    }
}

/// The human-readable text of an error.
pub open spec fn error_text(e: Error) -> Seq<char> {
    match e {
        Error::NotPlayersTurn => seq!['n', 'o', 't', ' ', 'y', 'o', 'u', 'r', ' ', 't', 'u', 'r', 'n'],
        Error::WrongPhase => seq![
            'w', 'r', 'o', 'n', 'g', ' ', 'p', 'h', 'a', 's', 'e', ' ', 'f', 'o', 'r', ' ', 't',
            'h', 'i', 's', ' ', 'a', 'c', 't', 'i', 'o', 'n',
        ],
        Error::CardNotInHand => seq![
            't', 'h', 'a', 't', ' ', 'c', 'a', 'r', 'd', ' ', 'i', 's', ' ', 'n', 'o', 't', ' ',
            'i', 'n', ' ', 'y', 'o', 'u', 'r', ' ', 'h', 'a', 'n', 'd',
        ],
        Error::MustFollowSuit { required } => seq![
            'm', 'u', 's', 't', ' ', 'f', 'o', 'l', 'l', 'o', 'w', ' ', 's', 'u', 'i', 't', ':',
            ' ',
        ] + suit_name(required),
        Error::HokmAlreadyChosen => seq![
            'h', 'o', 'k', 'm', ' ', 'a', 'l', 'r', 'e', 'a', 'd', 'y', ' ', 'c', 'h', 'o', 's',
            'e', 'n',
        ],
    }
}

/// Text of a suit's name.
pub fn suit_name_string(s: Suit) -> (r: String)
    ensures
        r@ == suit_name(s),
{
    match s {
        Suit::Clubs => {
            let r = String::from_str("Clubs");
            proof {
                reveal_strlit("Clubs");
            }
            r
        },
        Suit::Diamonds => {
            let r = String::from_str("Diamonds");
            proof {
                reveal_strlit("Diamonds");
            }
            r
        },
        Suit::Hearts => {
            let r = String::from_str("Hearts");
            proof {
                reveal_strlit("Hearts");
            }
            r
        },
        Suit::Spades => {
            let r = String::from_str("Spades");
            proof {
                reveal_strlit("Spades");
            }
            r
        },
    }
}

impl Error {
    /// The message shown to a player for this error.
    pub fn message(&self) -> (r: String)
        ensures
            r@ == error_text(*self),
    {
        match self {
            Error::NotPlayersTurn => {
                let r = String::from_str("not your turn");
                proof {
                    reveal_strlit("not your turn");
                }
                r
            },
            Error::WrongPhase => {
                let r = String::from_str("wrong phase for this action");
                proof {
                    reveal_strlit("wrong phase for this action");
                }
                r
            },
            Error::CardNotInHand => {
                let r = String::from_str("that card is not in your hand");
                proof {
                    reveal_strlit("that card is not in your hand");
                }
                r
            },
            Error::MustFollowSuit { required } => {
                let mut r = String::from_str("must follow suit: ");
                proof {
                    reveal_strlit("must follow suit: ");
                }
                let name = suit_name_string(*required);
                r.append(name.as_str());
                r
            },
            Error::HokmAlreadyChosen => {
                let r = String::from_str("hokm already chosen");
                proof {
                    reveal_strlit("hokm already chosen");
                }
                r
            },
        }
    }
}

} // verus!
