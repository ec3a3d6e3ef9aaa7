//! Playing a chart: janggu input over time, note judgement and its result.
pub mod chart_player;
pub mod effect_sound;
pub mod game_result;
pub mod input_effect;
pub mod janggu_state_with_tick;
pub mod note_order;
pub mod timing_judge;
