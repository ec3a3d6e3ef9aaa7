//! The result of playing a chart.
use vstd::prelude::*;

verus! {

/// Judgement counts, combo, score and health at the end of (or during) a play.
#[derive(Debug, Clone, Copy, PartialEq, Eq, Structural)]
pub struct GameResult {
    pub overchaos_count: u64,
    pub perfect_count: u64,
    pub great_count: u64,
    pub good_count: u64,
    pub bad_count: u64,
    pub miss_count: u64,
    pub combo: u64,
    pub max_combo: u64,
    pub score: u64,
    pub health: i64,
    pub max_health: u64,
}

impl GameResult {
    /// The number of judged notes, whatever their accuracy.
    pub open spec fn judged_count(self) -> int {
        self.overchaos_count + self.perfect_count + self.great_count + self.good_count
            + self.bad_count + self.miss_count
    }

    pub fn total_judged_note_count(&self) -> (r: u64)
        requires
            self.judged_count() <= u64::MAX,
        ensures
            r == self.judged_count(),
    {
        self.overchaos_count + self.perfect_count + self.great_count + self.good_count
            + self.bad_count + self.miss_count
    }
}

} // verus!
