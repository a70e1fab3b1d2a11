//! Rules engine for a two-player KeyForge-style card game: cards and their
//! damage/armor arithmetic, key forging, player zones and the battleline,
//! turn actions (play, reap, fight, end turn), the filtered per-player view,
//! and the dispatch of client requests.

pub mod victory;
pub mod card;
pub mod zones;
pub mod model;
pub mod cards;
pub mod deck;
pub mod deck_store;
pub mod game;
pub mod protocol;
pub mod view;
pub mod server;
pub mod vault;
pub mod laws;
pub mod conservation;
pub mod action_laws;
pub mod fight_laws;
pub mod client;
