//! Game rules, exercise generation and multiplayer world logic for a
//! math-tables game, with contracts checked by Verus.

pub mod text;
pub mod mode;
pub mod difficulty;
pub mod character_state;
pub mod protocol;
pub mod exercise;
pub mod session;
pub mod classic;
pub mod play;
pub mod world;
pub mod network;
pub mod leaderboard;
pub mod notification;
pub mod roster;
pub mod name_entry;
pub mod quality;
pub mod effects;
