//! Judgement windows, combo and health rules of the game.
use vstd::prelude::*;

verus! {

// Judgement windows in milliseconds: 10 means -10ms ~ +10ms.
pub const OVERCHAOS_TIMING: i64 = 10;
pub const PERFECT_TIMING: i64 = 40;
pub const GREAT_TIMING: i64 = 70;
pub const GOOD_TIMING: i64 = 200;
pub const BAD_TIMING: i64 = 600;
pub const HAT_TIMING: i64 = 1500;

// Combo added by each accuracy; 0 resets the combo.
pub const OVERCHAOS_COMBO: u64 = 1;
pub const PERFECT_COMBO: u64 = 1;
pub const GREAT_COMBO: u64 = 1;
pub const GOOD_COMBO: u64 = 1;
pub const BAD_COMBO: u64 = 0;
pub const MISS_COMBO: u64 = 0;

// Health: the starting (and maximal) health and what each accuracy adds.
pub const DEFAULT_HEALTH: u64 = 1000;
pub const OVERCHAOS_HEALTH: i64 = 50;
pub const PERFECT_HEALTH: i64 = 50;
pub const GREAT_HEALTH: i64 = 10;
pub const GOOD_HEALTH: i64 = 0;
pub const BAD_HEALTH: i64 = -20;
pub const MISS_HEALTH: i64 = -50;

/// Score of a note hit within the overchaos window.
pub const MAX_NOTE_SCORE: u64 = 1000;
/// Score of a hat note that the player spins for. This library sets it to
/// the score of a note hit at its exact timing.
pub const HAT_SCORE: u64 = 1000;

// Speed of the notes on screen, in multiples of the chart's bpm.
pub const DEFAULT_BPM: u32 = 4;

// Time in milliseconds during which the last accuracy stays on screen.
pub const ACCURACY_DISPLAY_DURATION: u32 = 800;

// Songs that one paid game plays.
pub const STAGES_PER_GAME: u32 = 3;

// Seconds that the tutorial question waits for an answer.
pub const TUTORIAL_TIMEOUT_SECS: u64 = 10;

} // verus!
