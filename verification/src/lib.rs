//! Verified core of the bidrum rhythm game: janggu controller state, chart
//! timing, note judgement, and the decisions of the game's screens.
pub mod constants;
pub mod controller;
pub mod controller_wrapper;
pub mod fraction;
pub mod janggu;
pub mod song;
pub mod game_player;
pub mod hat;
pub mod recorder;
pub mod screen;
