//! Rules engine, dealing, bots and table helpers for the Hokm card game.
pub mod types;
pub mod rng;
pub mod rules;
pub mod game;
pub mod laws;
pub mod deal;
pub mod sorting;
pub mod ai;
pub mod table;
pub mod card;
pub mod autoplay;
pub mod session;
pub mod gui;

pub use ai::{choose_action, Difficulty};
pub use deal::{
    build_deck, chooser_by_first_ace, deal_hands, deal_hands_with_dealer, shuffle_in_place,
    sort_hand,
};
pub use game::GameState;
pub use types::{Action, Card, Error, Event, GameConfig, Phase, PlayerId, Rank, Suit, Team};
