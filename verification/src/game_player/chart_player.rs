//! Playing one chart: judging the input at each frame, remembering which
//! notes were judged, and which accuracy the screen shows.
use vstd::prelude::*;
use crate::constants::ACCURACY_DISPLAY_DURATION;
use crate::game_player::game_result::GameResult;
use crate::game_player::janggu_state_with_tick::JangguStateWithTick;
use crate::game_player::timing_judge::{
    badness, chart_judgeable, judged, keydowns_fit, scan, scan_results, started_from, JudgeResult, NoteAccuracy, TimingJudge,
};
use crate::song::GameChart;

verus! {

/// The worst accuracy among the judgements (the last of the worst ones).
pub open spec fn worst_accuracy(results: Seq<JudgeResult>) -> NoteAccuracy
    decreases results.len(),
{
    if results.len() <= 1 {
        results[0].accuracy
    } else {
        let w = worst_accuracy(results.drop_last());
        if badness(results.last().accuracy) >= badness(w) {
            results.last().accuracy
        } else {
            w
        }
    }
}

/// The worst accuracy is at least as bad as every judgement's accuracy, and
/// it is the accuracy of one of the judgements.
pub proof fn lemma_worst_accuracy(results: Seq<JudgeResult>)
    requires
        results.len() > 0,
    ensures
        forall|k: int| 0 <= k < results.len() ==> badness(worst_accuracy(results)) >= badness(
            #[trigger] results[k].accuracy,
        ),
        exists|k: int| 0 <= k < results.len() && (#[trigger] results[k]).accuracy == worst_accuracy(results),
    decreases results.len(),
{
    if results.len() > 1 {
        let init = results.drop_last();
        lemma_worst_accuracy(init);
        assert forall|k: int| 0 <= k < results.len() implies badness(worst_accuracy(results)) >= badness(
            #[trigger] results[k].accuracy,
        ) by {
            if k < results.len() - 1 {
                assert(results[k] == init[k]);
            }
        }
        if badness(results.last().accuracy) >= badness(worst_accuracy(init)) {
            assert(results[results.len() - 1].accuracy == worst_accuracy(results));
        } else {
            let k = choose|k: int| 0 <= k < init.len() && (#[trigger] init[k]).accuracy == worst_accuracy(init);
            assert(results[k] == init[k]);
        }
    } else {
        assert(results[0].accuracy == worst_accuracy(results));
    }
}

/// A judged note, with the time of its judgement.
#[derive(Debug, Clone, Copy, PartialEq, Eq, Structural)]
pub struct ProcessedNote {
    pub processed_note_id: u64,
    pub processed_at_tick: i128,
    pub accuracy: NoteAccuracy,
}

/// The judgements as judged notes at `tick`.
pub open spec fn processed_at(results: Seq<JudgeResult>, tick: i128) -> Seq<ProcessedNote> {
    results.map_values(
        |r: JudgeResult| ProcessedNote { processed_note_id: r.note_id, processed_at_tick: tick, accuracy: r.accuracy },
    )
}

/// The accuracy that the screen shows, the combo beside it, and how long
/// ago (in milliseconds) the judgement was.
#[derive(Debug, Clone, Copy, PartialEq, Eq, Structural)]
pub struct ShownAccuracy {
    pub accuracy: NoteAccuracy,
    pub combo: u64,
    pub elapsed: u128,
}

pub open spec fn abs_diff(a: int, b: int) -> int {
    if a >= b { a - b } else { b - a }
}

/// The distance between two ticks, which may be far apart.
fn tick_distance(a: i128, b: i128) -> (r: u128)
    ensures
        r == abs_diff(a as int, b as int),
{
    let (hi, lo) = if a >= b { (a, b) } else { (b, a) };
    if lo >= 0 || hi < 0 {
        (hi - lo) as u128
    } else {
        // hi >= 0 > lo: count both halves apart
        (hi as u128) + ((-(lo + 1)) as u128) + 1
    }
}

/// Plays a chart: a timing judge, the notes judged so far, and the latest
/// accuracy with the tick of its judgement.
pub struct ChartPlayer {
    timing_judge: TimingJudge,
    processed_notes: Vec<ProcessedNote>,
    accuracy: Option<(NoteAccuracy, i128)>,
}

impl ChartPlayer {
    pub closed spec fn judge_state(&self) -> TimingJudge {
        self.timing_judge
    }

    pub closed spec fn processed(&self) -> Seq<ProcessedNote> {
        self.processed_notes@
    }

    pub closed spec fn latest_accuracy(&self) -> Option<(NoteAccuracy, i128)> {
        self.accuracy
    }

    pub open spec fn wf(&self) -> bool {
        self.judge_state().wf()
    }

    /// Starts the chart: nothing judged and no accuracy to show.
    pub fn new(chart: &GameChart) -> (r: ChartPlayer)
        requires
            chart_judgeable(*chart),
        ensures
            r.wf(),
            started_from(r.judge_state(), *chart),
            r.processed().len() == 0,
            r.latest_accuracy() is None,
    {
        ChartPlayer { timing_judge: TimingJudge::new(chart), processed_notes: Vec::new(), accuracy: None }
    }

    /// Tells whether `judge` can take this janggu state now.
    pub fn keydowns_fit(&self, janggu: &JangguStateWithTick) -> (r: bool)
        ensures
            r == keydowns_fit(self.judge_state(), *janggu),
    {
        self.timing_judge.keydowns_fit(janggu)
    }

    /// Judges the input at `tick` (a tick of the song, not before its
    /// start): the judged notes are remembered with the tick, and when any
    /// note was judged, the worst of their accuracies becomes the accuracy
    /// to show.
    pub fn judge(&mut self, janggu: &JangguStateWithTick, spinning: bool, tick: i128)
        requires
            old(self).wf(),
            0 <= tick <= i64::MAX,
            keydowns_fit(old(self).judge_state(), *janggu),
        ensures
            final(self).wf(),
            ({
                let results = scan_results(scan(old(self).judge_state().pending(), *janggu, tick as int, false, false));
                &&& judged(old(self).judge_state(), final(self).judge_state(), *janggu, spinning, tick as int, results)
                &&& final(self).processed() == old(self).processed() + processed_at(results, tick)
                &&& final(self).latest_accuracy() == (if results.len() > 0 {
                    Some((worst_accuracy(results), tick))
                } else {
                    old(self).latest_accuracy()
                })
                // the accuracy shown is the worst of the new judgements
                &&& results.len() > 0 ==> (final(self).latest_accuracy() matches Some((a, t)) && t == tick
                    && (forall|k: int| 0 <= k < results.len() ==> badness(a) >= badness(#[trigger] results[k].accuracy))
                    && (exists|k: int| 0 <= k < results.len() && (#[trigger] results[k]).accuracy == a))
            }),
    {
        let new_accuracies = self.timing_judge.judge(janggu, spinning, tick as u64);
        if new_accuracies.len() > 0 {
            let mut worst = new_accuracies[0].accuracy;
            let mut i: usize = 1;
            while i < new_accuracies.len()
                invariant
                    1 <= i <= new_accuracies.len(),
                    worst == worst_accuracy(new_accuracies@.take(i as int)),
                decreases new_accuracies.len() - i,
            {
                let a = new_accuracies[i].accuracy;
                proof {
                    let t = new_accuracies@.take(i + 1);
                    assert(t.drop_last() =~= new_accuracies@.take(i as int));
                    assert(t.last() == new_accuracies@[i as int]);
                }
                if accuracy_badness(a) >= accuracy_badness(worst) {
                    worst = a;
                }
                i = i + 1;
            }
            proof {
                assert(new_accuracies@.take(new_accuracies.len() as int) =~= new_accuracies@);
            }
            self.accuracy = Some((worst, tick));
        }
        let ghost before = self.processed_notes@;
        let ghost judge_after = self.timing_judge;
        let ghost accuracy_after = self.accuracy;
        let mut j: usize = 0;
        while j < new_accuracies.len()
            invariant
                j <= new_accuracies.len(),
                self.timing_judge == judge_after,
                self.accuracy == accuracy_after,
                self.processed_notes@ == before + processed_at(new_accuracies@.take(j as int), tick),
            decreases new_accuracies.len() - j,
        {
            let result = new_accuracies[j];
            self.processed_notes.push(
                ProcessedNote { processed_note_id: result.note_id, processed_at_tick: tick, accuracy: result.accuracy },
            );
            proof {
                assert(processed_at(new_accuracies@.take(j + 1), tick) =~= processed_at(
                    new_accuracies@.take(j as int),
                    tick,
                ).push(self.processed_notes@.last()));
            }
            j = j + 1;
        }
        proof {
            assert(new_accuracies@.take(new_accuracies.len() as int) =~= new_accuracies@);
            if new_accuracies.len() > 0 {
                lemma_worst_accuracy(new_accuracies@);
            }
        }
    }

    /// Whether a note has been judged.
    pub fn is_processed(&self, note_id: u64) -> (r: bool)
        ensures
            r == exists|k: int| 0 <= k < self.processed().len() && (#[trigger] self.processed()[k]).processed_note_id == note_id,
    {
        let mut i: usize = 0;
        while i < self.processed_notes.len()
            invariant
                i <= self.processed_notes.len(),
                forall|k: int| 0 <= k < i ==> (#[trigger] self.processed_notes@[k]).processed_note_id != note_id,
            decreases self.processed_notes.len() - i,
        {
            if self.processed_notes[i].processed_note_id == note_id {
                return true;
            }
            i = i + 1;
        }
        false
    }

    /// The accuracy to show at `tick`: the latest one while its judgement
    /// is at most the display duration away, with the current combo; after
    /// that it is dropped.
    pub fn shown_accuracy(&mut self, tick: i128) -> (r: Option<ShownAccuracy>)
        ensures
            final(self).judge_state() == old(self).judge_state(),
            final(self).processed() == old(self).processed(),
            final(self).wf() == old(self).wf(),
            match old(self).latest_accuracy() {
                None => r is None && final(self).latest_accuracy() is None,
                Some((a, t)) => if abs_diff(t as int, tick as int) > ACCURACY_DISPLAY_DURATION {
                    r is None && final(self).latest_accuracy() is None
                } else {
                    r == Some(
                        ShownAccuracy {
                            accuracy: a,
                            combo: old(self).judge_state().result().combo,
                            elapsed: abs_diff(t as int, tick as int) as u128,
                        },
                    ) && final(self).latest_accuracy() == old(self).latest_accuracy()
                },
            },
    {
        match self.accuracy {
            None => None,
            Some((a, t)) => {
                let elapsed = tick_distance(t, tick);
                if elapsed > ACCURACY_DISPLAY_DURATION as u128 {
                    self.accuracy = None;
                    None
                } else {
                    Some(ShownAccuracy { accuracy: a, combo: self.timing_judge.get_game_result().combo, elapsed })
                }
            },
        }
    }

    pub fn game_result(&self) -> (r: GameResult)
        ensures
            r == self.judge_state().result(),
    {
        self.timing_judge.get_game_result()
    }
}

/// How bad an accuracy is, as `badness` says.
fn accuracy_badness(a: NoteAccuracy) -> (r: u8)
    ensures
        r == badness(a),
{
    match a {
        NoteAccuracy::Overchaos => 0,
        NoteAccuracy::Perfect => 1,
        NoteAccuracy::Great => 2,
        NoteAccuracy::Good => 3,
        NoteAccuracy::Bad => 4,
        NoteAccuracy::Miss => 5,
    }
}

} // verus!
