//! Judgement of the janggu notes of a chart: accuracy, score, combo and
//! health.
pub mod hat_timing_judge;

use vstd::prelude::*;
use crate::constants::{
    BAD_COMBO, BAD_HEALTH, BAD_TIMING, DEFAULT_HEALTH, GOOD_COMBO, GOOD_HEALTH, GOOD_TIMING,
    GREAT_COMBO, GREAT_HEALTH, GREAT_TIMING, HAT_SCORE, MAX_NOTE_SCORE, MISS_COMBO, MISS_HEALTH,
    OVERCHAOS_COMBO, OVERCHAOS_HEALTH, OVERCHAOS_TIMING, PERFECT_COMBO, PERFECT_HEALTH,
    PERFECT_TIMING,
};
use crate::game_player::game_result::GameResult;
use crate::game_player::janggu_state_with_tick::JangguStateWithTick;
use crate::game_player::note_order::{
    count_id, count_in, ids_within, is_stable_order, lemma_remove_ids_contained,
    ids_distinct, lemma_count_id_at_most_one, lemma_count_id_positive, lemma_count_in_add, lemma_count_in_places, lemma_counts_distinct, lemma_remove_ids_count, note_ids_distinct, lemma_remove_ids_len, lemma_remove_ids_sorted, order_before,
    remove_ids, remove_with_ids, sorted_by_timing, stable_order_by_timing, HasNoteId,
};
use crate::janggu::{JangguFace, JangguStick};
use crate::song::{GameChart, GameNote};
use self::hat_timing_judge::{hat_ids, hat_scan, permuted, HatJudgeResult, HatTimingJudge, PendingHat};

verus! {

/// Accuracy of a judged note, from the highest to a miss.
#[derive(Debug, Clone, Copy, PartialEq, Eq, Structural)]
pub enum NoteAccuracy {
    /// 1st (the highest accuracy)
    Overchaos,
    /// 2nd
    Perfect,
    /// 3rd
    Great,
    /// 4th
    Good,
    /// 5th (the lowest accuracy)
    Bad,
    /// miss
    Miss,
}


/// The judgement of one note.
#[derive(Debug, Clone, Copy, PartialEq, Eq, Structural)]
pub struct JudgeResult {
    pub accuracy: NoteAccuracy,
    pub note_id: u64,
}

/// A janggu note waiting for judgement, with its timing in milliseconds.
#[derive(Debug, Clone, Copy, PartialEq, Eq, Structural)]
pub struct PendingNote {
    pub id: u64,
    pub stick: JangguStick,
    pub face: JangguFace,
    pub timing: u64,
}

impl HasNoteId for PendingNote {
    open spec fn spec_note_id(&self) -> u64 {
        self.id
    }

    open spec fn spec_timing(&self) -> u64 {
        self.timing
    }

    fn note_id(&self) -> (r: u64) {
        self.id
    }
}

/// The accuracy of a hit `difference_abs` milliseconds away from the note.
pub open spec fn accuracy_of(difference_abs: int) -> NoteAccuracy {
    if difference_abs <= OVERCHAOS_TIMING {
        NoteAccuracy::Overchaos
    } else if difference_abs <= PERFECT_TIMING {
        NoteAccuracy::Perfect
    } else if difference_abs <= GREAT_TIMING {
        NoteAccuracy::Great
    } else if difference_abs <= GOOD_TIMING {
        NoteAccuracy::Good
    } else if difference_abs <= BAD_TIMING {
        NoteAccuracy::Bad
    } else {
        NoteAccuracy::Miss
    }
}

pub fn note_accuracy_from_time_difference(difference_abs: i64) -> (r: NoteAccuracy)
    ensures
        r == accuracy_of(difference_abs as int),
{
    if difference_abs <= OVERCHAOS_TIMING {
        NoteAccuracy::Overchaos
    } else if difference_abs <= PERFECT_TIMING {
        NoteAccuracy::Perfect
    } else if difference_abs <= GREAT_TIMING {
        NoteAccuracy::Great
    } else if difference_abs <= GOOD_TIMING {
        NoteAccuracy::Good
    } else if difference_abs <= BAD_TIMING {
        NoteAccuracy::Bad
    } else {
        NoteAccuracy::Miss
    }
}

/// The score of a hit `difference_abs` milliseconds away from the note:
/// 1000 within the overchaos window, 0 from the bad window on, linear in
/// between, rounded down:
/// `(|BAD - clamp(difference_abs, OVERCHAOS, BAD)| / (BAD - OVERCHAOS)) * 1000`.
pub open spec fn hit_score(difference_abs: int) -> int {
    let c = if difference_abs < OVERCHAOS_TIMING {
        OVERCHAOS_TIMING as int
    } else if difference_abs > BAD_TIMING {
        BAD_TIMING as int
    } else {
        difference_abs
    };
    (BAD_TIMING - c) * (MAX_NOTE_SCORE as int) / ((BAD_TIMING - OVERCHAOS_TIMING) as int)
}

fn score_from_time_difference(difference_abs: i64) -> (r: u64)
    ensures
        r == hit_score(difference_abs as int),
        r <= MAX_NOTE_SCORE,
{
    let clamped = if difference_abs < OVERCHAOS_TIMING {
        OVERCHAOS_TIMING
    } else if difference_abs > BAD_TIMING {
        BAD_TIMING
    } else {
        difference_abs
    };
    let numer = ((BAD_TIMING - clamped) as u64) * MAX_NOTE_SCORE;
    assert(numer / 590 <= 1000) by (nonlinear_arith)
        requires
            numer <= 590000,
    ;
    numer / ((BAD_TIMING - OVERCHAOS_TIMING) as u64)
}

/// The time of a keydown as the judgement reads it: the `i128` tick taken
/// as a `u64` and then as an `i64`, wrapping as `as` does.
pub open spec fn hit_time(keydown_timing: i128) -> int {
    ((keydown_timing as u64) as i64) as int
}

/// The difference between the keydown time and a note's timing fits an
/// `i64` and can be negated.
pub open spec fn hit_difference_ok(keydown_timing: i128, timing: u64) -> bool {
    i64::MIN < hit_time(keydown_timing) - timing <= i64::MAX
}

pub open spec fn abs_int(x: int) -> int {
    if x < 0 { -x } else { x }
}

/// The stick has already hit a note in this scan.
pub open spec fn stick_done(stick: JangguStick, left_done: bool, right_done: bool) -> bool {
    match stick {
        JangguStick::Gungchae => left_done,
        JangguStick::Yeolchae => right_done,
    }
}

/// The judgements of one call with their scores, scanning the waiting notes
/// in order until both sticks have hit a note: a note whose window has
/// passed is missed; a note whose window has not begun is skipped; a note
/// in its window is hit if its stick started touching the note's face just
/// now and has not hit a note in this scan yet, with the accuracy and score
/// of the distance between the keydown time and the note's timing.
pub open spec fn scan(
    notes: Seq<PendingNote>,
    keydown: JangguStateWithTick,
    tick: int,
    left_done: bool,
    right_done: bool,
) -> Seq<(JudgeResult, int)>
    decreases notes.len(),
{
    if notes.len() == 0 || (left_done && right_done) {
        seq![]
    } else {
        let n = notes[0];
        let rest = notes.drop_first();
        let difference = tick - n.timing;
        if difference > BAD_TIMING {
            seq![(JudgeResult { accuracy: NoteAccuracy::Miss, note_id: n.id }, 0int)] + scan(
                rest,
                keydown,
                tick,
                left_done,
                right_done,
            )
        } else if difference < -BAD_TIMING {
            scan(rest, keydown, tick, left_done, right_done)
        } else {
            let stick = keydown.stick(n.stick);
            if stick.is_keydown_now && stick.face == Some(n.face) && !stick_done(n.stick, left_done, right_done) {
                let d = abs_int(hit_time(stick.keydown_timing) - n.timing);
                seq![(JudgeResult { accuracy: accuracy_of(d), note_id: n.id }, hit_score(d))] + scan(
                    rest,
                    keydown,
                    tick,
                    left_done || n.stick == JangguStick::Gungchae,
                    right_done || n.stick == JangguStick::Yeolchae,
                )
            } else {
                scan(rest, keydown, tick, left_done, right_done)
            }
        }
    }
}

pub open spec fn scan_results(items: Seq<(JudgeResult, int)>) -> Seq<JudgeResult> {
    items.map_values(|p: (JudgeResult, int)| p.0)
}

pub open spec fn scan_score(items: Seq<(JudgeResult, int)>) -> int
    decreases items.len(),
{
    if items.len() == 0 {
        0
    } else {
        items[0].1 + scan_score(items.drop_first())
    }
}

pub open spec fn result_ids(results: Seq<JudgeResult>) -> Seq<u64> {
    results.map_values(|r: JudgeResult| r.note_id)
}

/// Number of hat notes that were hit (not missed).
pub open spec fn hat_hits(results: Seq<HatJudgeResult>) -> nat
    decreases results.len(),
{
    if results.len() == 0 {
        0
    } else {
        (if results[0].accuracy != NoteAccuracy::Miss { 1nat } else { 0nat }) + hat_hits(results.drop_first())
    }
}

pub open spec fn combo_gain(a: NoteAccuracy) -> u64 {
    match a {
        NoteAccuracy::Overchaos => OVERCHAOS_COMBO,
        NoteAccuracy::Perfect => PERFECT_COMBO,
        NoteAccuracy::Great => GREAT_COMBO,
        NoteAccuracy::Good => GOOD_COMBO,
        NoteAccuracy::Bad => BAD_COMBO,
        NoteAccuracy::Miss => MISS_COMBO,
    }
}

pub open spec fn health_gain(a: NoteAccuracy) -> i64 {
    match a {
        NoteAccuracy::Overchaos => OVERCHAOS_HEALTH,
        NoteAccuracy::Perfect => PERFECT_HEALTH,
        NoteAccuracy::Great => GREAT_HEALTH,
        NoteAccuracy::Good => GOOD_HEALTH,
        NoteAccuracy::Bad => BAD_HEALTH,
        NoteAccuracy::Miss => MISS_HEALTH,
    }
}

pub open spec fn clamp_health(h: int, max_health: int) -> int {
    if h < 0 {
        0
    } else if h > max_health {
        max_health
    } else {
        h
    }
}

/// The result after one more judged note: its count goes up; a combo gain
/// of 0 ends the combo (keeping the longer of it and the maximal combo),
/// any other gain extends it; health moves by the accuracy's gain, kept
/// between 0 and the maximum, and stays 0 once it has reached 0.
pub open spec fn apply_accuracy(r: GameResult, a: NoteAccuracy) -> GameResult {
    GameResult {
        overchaos_count: if a == NoteAccuracy::Overchaos { (r.overchaos_count + 1) as u64 } else { r.overchaos_count },
        perfect_count: if a == NoteAccuracy::Perfect { (r.perfect_count + 1) as u64 } else { r.perfect_count },
        great_count: if a == NoteAccuracy::Great { (r.great_count + 1) as u64 } else { r.great_count },
        good_count: if a == NoteAccuracy::Good { (r.good_count + 1) as u64 } else { r.good_count },
        bad_count: if a == NoteAccuracy::Bad { (r.bad_count + 1) as u64 } else { r.bad_count },
        miss_count: if a == NoteAccuracy::Miss { (r.miss_count + 1) as u64 } else { r.miss_count },
        combo: if combo_gain(a) == 0 { 0 } else { (r.combo + combo_gain(a)) as u64 },
        max_combo: if combo_gain(a) == 0 && r.combo > r.max_combo { r.combo } else { r.max_combo },
        health: if r.health == 0 {
            0
        } else {
            clamp_health(r.health + health_gain(a), r.max_health as int) as i64
        },
        ..r
    }
}

/// The result after judging `results` in order.
pub open spec fn apply_all(r: GameResult, results: Seq<JudgeResult>) -> GameResult
    decreases results.len(),
{
    if results.len() == 0 {
        r
    } else {
        apply_all(apply_accuracy(r, results[0].accuracy), results.drop_first())
    }
}

fn apply_accuracy_to(r: &mut GameResult, accuracy: NoteAccuracy)
    requires
        old(r).judged_count() < u64::MAX,
        old(r).combo <= old(r).judged_count(),
        old(r).max_combo <= old(r).judged_count(),
        old(r).max_health == DEFAULT_HEALTH,
        0 <= old(r).health <= old(r).max_health,
    ensures
        *final(r) == apply_accuracy(*old(r), accuracy),
{
    let is_health_zero = r.health == 0;
    match accuracy {
        NoteAccuracy::Overchaos => {
            if OVERCHAOS_COMBO == 0 {
                if r.combo > r.max_combo { r.max_combo = r.combo; }
                r.combo = 0;
            } else {
                r.combo = r.combo + OVERCHAOS_COMBO;
            }
            r.health = r.health + OVERCHAOS_HEALTH;
            r.overchaos_count = r.overchaos_count + 1;
        },
        NoteAccuracy::Perfect => {
            if PERFECT_COMBO == 0 {
                if r.combo > r.max_combo { r.max_combo = r.combo; }
                r.combo = 0;
            } else {
                r.combo = r.combo + PERFECT_COMBO;
            }
            r.health = r.health + PERFECT_HEALTH;
            r.perfect_count = r.perfect_count + 1;
        },
        NoteAccuracy::Great => {
            if GREAT_COMBO == 0 {
                if r.combo > r.max_combo { r.max_combo = r.combo; }
                r.combo = 0;
            } else {
                r.combo = r.combo + GREAT_COMBO;
            }
            r.health = r.health + GREAT_HEALTH;
            r.great_count = r.great_count + 1;
        },
        NoteAccuracy::Good => {
            if GOOD_COMBO == 0 {
                if r.combo > r.max_combo { r.max_combo = r.combo; }
                r.combo = 0;
            } else {
                r.combo = r.combo + GOOD_COMBO;
            }
            r.health = r.health + GOOD_HEALTH;
            r.good_count = r.good_count + 1;
        },
        NoteAccuracy::Bad => {
            if BAD_COMBO == 0 {
                if r.combo > r.max_combo { r.max_combo = r.combo; }
                r.combo = 0;
            } else {
                r.combo = r.combo + BAD_COMBO;
            }
            r.health = r.health + BAD_HEALTH;
            r.bad_count = r.bad_count + 1;
        },
        NoteAccuracy::Miss => {
            if MISS_COMBO == 0 {
                if r.combo > r.max_combo { r.max_combo = r.combo; }
                r.combo = 0;
            } else {
                r.combo = r.combo + MISS_COMBO;
            }
            r.health = r.health + MISS_HEALTH;
            r.miss_count = r.miss_count + 1;
        },
    }
    // an emptied health bar stays empty; otherwise health stays in range
    if is_health_zero {
        r.health = 0;
    } else if r.health < 0 {
        r.health = 0;
    } else if r.health > r.max_health as i64 {
        r.health = r.max_health as i64;
    }
}


/// A chart note as it waits for judgement.
pub open spec fn pending_of(n: GameNote, bpm: u32, delay: u64) -> PendingNote {
    PendingNote { id: n.id, stick: n.stick, face: n.face, timing: n.timing(bpm, delay) as u64 }
}

/// The janggu notes of a chart, left face then right face, with timings.
pub open spec fn chart_notes(chart: GameChart) -> Seq<PendingNote> {
    (chart.left_face@ + chart.right_face@).map_values(|n: GameNote| pending_of(n, chart.bpm, chart.delay))
}

/// Every note of the chart can be timed, and its timing fits an `i64`.
pub open spec fn chart_timings_ok(chart: GameChart) -> bool {
    &&& forall|k: int| 0 <= k < (chart.left_face@ + chart.right_face@).len() ==>
        (#[trigger] (chart.left_face@ + chart.right_face@)[k]).timing_ok(chart.bpm, chart.delay)
            && (chart.left_face@ + chart.right_face@)[k].timing(chart.bpm, chart.delay) <= i64::MAX
    &&& forall|k: int| 0 <= k < chart.hats@.len() ==> (#[trigger] chart.hats@[k]).timing_ok(chart.bpm, chart.delay)
        && chart.hats@[k].timing(chart.bpm, chart.delay) <= i64::MAX
}

/// The result before any judgement: nothing counted, full health.
pub open spec fn initial_result() -> GameResult {
    GameResult {
        overchaos_count: 0,
        perfect_count: 0,
        great_count: 0,
        good_count: 0,
        bad_count: 0,
        miss_count: 0,
        combo: 0,
        max_combo: 0,
        score: 0,
        health: DEFAULT_HEALTH as i64,
        max_health: DEFAULT_HEALTH,
    }
}

proof fn lemma_scan_score_push(items: Seq<(JudgeResult, int)>, x: (JudgeResult, int))
    ensures
        scan_score(items.push(x)) == scan_score(items) + x.1,
    decreases items.len(),
{
    if items.len() > 0 {
        assert(items.push(x).drop_first() =~= items.drop_first().push(x));
        assert(items.push(x)[0] == items[0]);
        lemma_scan_score_push(items.drop_first(), x);
        assert(scan_score(items.push(x)) == items.push(x)[0].1 + scan_score(items.push(x).drop_first()));
        assert(scan_score(items) == items[0].1 + scan_score(items.drop_first()));
    } else {
        assert(items.push(x).drop_first() =~= Seq::<(JudgeResult, int)>::empty());
        assert(items.push(x)[0] == x);
        assert(scan_score(items.push(x)) == items.push(x)[0].1 + scan_score(items.push(x).drop_first()));
    }
}

proof fn lemma_hat_hits_push(results: Seq<HatJudgeResult>, x: HatJudgeResult)
    ensures
        hat_hits(results.push(x)) == hat_hits(results) + (if x.accuracy != NoteAccuracy::Miss { 1nat } else { 0nat }),
    decreases results.len(),
{
    if results.len() > 0 {
        assert(results.push(x).drop_first() =~= results.drop_first().push(x));
        assert(results.push(x)[0] == results[0]);
        lemma_hat_hits_push(results.drop_first(), x);
        assert(hat_hits(results.push(x)) == (if results.push(x)[0].accuracy != NoteAccuracy::Miss { 1nat } else {
            0nat
        }) + hat_hits(results.push(x).drop_first()));
        assert(hat_hits(results) == (if results[0].accuracy != NoteAccuracy::Miss { 1nat } else { 0nat })
            + hat_hits(results.drop_first()));
    } else {
        assert(results.push(x).drop_first() =~= Seq::<HatJudgeResult>::empty());
        assert(results.push(x)[0] == x);
        assert(hat_hits(results.push(x)) == (if results.push(x)[0].accuracy != NoteAccuracy::Miss { 1nat } else {
            0nat
        }) + hat_hits(results.push(x).drop_first()));
    }
}

proof fn lemma_scan_ids_within(
    notes: Seq<PendingNote>,
    keydown: JangguStateWithTick,
    tick: int,
    left_done: bool,
    right_done: bool,
)
    ensures
        ids_within(result_ids(scan_results(scan(notes, keydown, tick, left_done, right_done))), notes),
    decreases notes.len(),
{
    let r = scan(notes, keydown, tick, left_done, right_done);
    if notes.len() == 0 || (left_done && right_done) {
        assert forall|id: u64| #[trigger] count_in(result_ids(scan_results(r)), id) <= count_id(notes, id) by {
            assert(result_ids(scan_results(r)) =~= Seq::<u64>::empty());
        }
    } else {
        let n = notes[0];
        let rest = notes.drop_first();
        let stick = keydown.stick(n.stick);
        let hit = stick.is_keydown_now && stick.face == Some(n.face) && !stick_done(n.stick, left_done, right_done);
        let (l2, r2) = if tick - n.timing <= BAD_TIMING && tick - n.timing >= -BAD_TIMING && hit {
            (left_done || n.stick == JangguStick::Gungchae, right_done || n.stick == JangguStick::Yeolchae)
        } else {
            (left_done, right_done)
        };
        lemma_scan_ids_within(rest, keydown, tick, l2, r2);
        let rr = scan(rest, keydown, tick, l2, r2);
        assert forall|id: u64| #[trigger] count_in(result_ids(scan_results(r)), id) <= count_id(notes, id) by {
            assert(count_id(notes, id) == (if n.id == id { 1nat } else { 0nat }) + count_id(rest, id));
            let ids = result_ids(scan_results(r));
            let ids2 = result_ids(scan_results(rr));
            if r.len() == rr.len() + 1 {
                assert(ids.drop_first() =~= ids2);
                assert(ids[0] == n.id);
                assert(count_in(ids, id) == (if n.id == id { 1nat } else { 0nat }) + count_in(ids2, id));
            } else {
                assert(ids =~= ids2);
            }
        }
    }
}

/// A judgement reports only notes that were waiting, each at most as many
/// times as it waited.
pub proof fn lemma_judged_notes_were_waiting(notes: Seq<PendingNote>, keydown: JangguStateWithTick, tick: int)
    ensures
        ids_within(result_ids(scan_results(scan(notes, keydown, tick, false, false))), notes),
{
    lemma_scan_ids_within(notes, keydown, tick, false, false);
}

/// The ids of the notes that a run of judgements named, in order.
pub open spec fn judged_ids(rounds: Seq<Seq<JudgeResult>>) -> Seq<u64>
    decreases rounds.len(),
{
    if rounds.len() == 0 {
        Seq::empty()
    } else {
        judged_ids(rounds.drop_last()) + result_ids(rounds.last())
    }
}

/// Over any run of judgements `js[0] -> js[1] -> ...`, a note is judged at
/// most as many times as it waited at the start (so at most once where the
/// chart's ids are distinct) and never again once judged; the judged notes
/// are exactly those that left the queue; and the judged count grows by the
/// number of judgements, so it never exceeds the chart's notes.
pub proof fn lemma_each_note_judged_once(
    js: Seq<TimingJudge>,
    rounds: Seq<Seq<JudgeResult>>,
    keydowns: Seq<JangguStateWithTick>,
    spinnings: Seq<bool>,
    ticks: Seq<int>,
)
    requires
        js.len() == rounds.len() + 1,
        keydowns.len() == rounds.len(),
        spinnings.len() == rounds.len(),
        ticks.len() == rounds.len(),
        forall|i: int| 0 <= i < rounds.len() ==> #[trigger] judged(js[i], js[i + 1], keydowns[i], spinnings[i], ticks[i], rounds[i]),
    ensures
        forall|x: u64| #[trigger] count_in(judged_ids(rounds), x) + count_id(js.last().pending(), x) == count_id(js[0].pending(), x),
        forall|x: u64| #[trigger] count_in(judged_ids(rounds), x) <= count_id(js[0].pending(), x),
        judged_ids(rounds).len() + js.last().pending().len() == js[0].pending().len(),
        js.last().result().judged_count() == js[0].result().judged_count() + judged_ids(rounds).len(),
        js.last().chart_note_count() == js[0].chart_note_count(),
    decreases rounds.len(),
{
    if rounds.len() > 0 {
        let n = rounds.len() - 1;
        let js2 = js.drop_last();
        let rounds2 = rounds.drop_last();
        assert forall|i: int| 0 <= i < rounds2.len() implies #[trigger] judged(js2[i], js2[i + 1], keydowns.drop_last()[i], spinnings.drop_last()[i], ticks.drop_last()[i], rounds2[i]) by {
            assert(judged(js[i], js[i + 1], keydowns[i], spinnings[i], ticks[i], rounds[i]));
        }
        lemma_each_note_judged_once(js2, rounds2, keydowns.drop_last(), spinnings.drop_last(), ticks.drop_last());
        assert(judged(js[n], js[n + 1], keydowns[n], spinnings[n], ticks[n], rounds[n]));
        let before = js[n];
        let ids = result_ids(rounds[n]);
        lemma_judged_notes_were_waiting(before.pending(), keydowns[n], ticks[n]);
        lemma_remove_ids_count(before.pending(), ids);
        lemma_remove_ids_len(before.pending(), ids);
        assert(js2.last() == before);
        assert forall|x: u64| #[trigger] count_in(judged_ids(rounds), x) + count_id(js.last().pending(), x) == count_id(js[0].pending(), x) by {
            lemma_count_in_add(judged_ids(rounds2), ids, x);
            assert(count_in(judged_ids(rounds2), x) + count_id(before.pending(), x) == count_id(js[0].pending(), x));
        }
    }
}

/// The ids of the janggu notes of a chart, left face then right face.
pub open spec fn chart_note_ids(chart: GameChart) -> Seq<u64> {
    (chart.left_face@ + chart.right_face@).map_values(|n: GameNote| n.id)
}

/// `x` is the id of a janggu note of the chart.
pub open spec fn is_chart_note_id(chart: GameChart, x: u64) -> bool {
    exists|c: int| 0 <= c < chart_note_ids(chart).len() && chart_note_ids(chart)[c] == x
}

proof fn lemma_started_ids_distinct(j: TimingJudge, chart: GameChart)
    requires
        started_from(j, chart),
        ids_distinct(chart_note_ids(chart)),
    ensures
        note_ids_distinct(j.pending()),
        j.pending().len() == chart.left_face.len() + chart.right_face.len(),
        forall|k: int| 0 <= k < j.pending().len() ==> is_chart_note_id(chart, (#[trigger] j.pending()[k]).id),
{
    let src = chart_notes(chart);
    let ids = chart_note_ids(chart);
    let perm = choose|perm: Seq<usize>|
        is_stable_order(src.map_values(|n: PendingNote| n.timing), perm) && permuted(src, perm, j.pending());
    let p = j.pending();
    assert forall|a: int, b: int| 0 <= a < b < p.len() implies #[trigger] p[a].spec_note_id() != #[trigger] p[b].spec_note_id() by {
        let pa = perm[a] as int;
        let pb = perm[b] as int;
        assert(p[a] == src[pa] && p[b] == src[pb]);
        assert(src[pa].id == ids[pa] && src[pb].id == ids[pb]);
        if pa < pb {
            assert(ids[pa] != ids[pb]);
        } else {
            assert(ids[pb] != ids[pa]);
        }
    }
    assert forall|k: int| 0 <= k < p.len() implies is_chart_note_id(chart, (#[trigger] p[k]).id) by {
        let pk = perm[k] as int;
        assert(p[k] == src[pk]);
        assert(src[pk].id == ids[pk]);
        assert(0 <= pk < chart_note_ids(chart).len() && chart_note_ids(chart)[pk] == p[k].id);
    }
}

/// A play from the start of a chart whose notes have distinct ids: over any
/// run of judgements the judged note ids are pairwise distinct (no note is
/// judged twice), each is the id of a note of the chart, and the judged
/// count equals the number of judgements returned, at most the chart's
/// notes.
pub proof fn lemma_play_judges_each_note_once(
    chart: GameChart,
    js: Seq<TimingJudge>,
    rounds: Seq<Seq<JudgeResult>>,
    keydowns: Seq<JangguStateWithTick>,
    spinnings: Seq<bool>,
    ticks: Seq<int>,
)
    requires
        started_from(js[0], chart),
        ids_distinct(chart_note_ids(chart)),
        js.len() == rounds.len() + 1,
        keydowns.len() == rounds.len(),
        spinnings.len() == rounds.len(),
        ticks.len() == rounds.len(),
        forall|i: int| 0 <= i < rounds.len() ==> #[trigger] judged(js[i], js[i + 1], keydowns[i], spinnings[i], ticks[i], rounds[i]),
    ensures
        ids_distinct(judged_ids(rounds)),
        forall|a: int| 0 <= a < judged_ids(rounds).len() ==> is_chart_note_id(chart, #[trigger] judged_ids(rounds)[a]),
        js.last().result().judged_count() == judged_ids(rounds).len(),
        judged_ids(rounds).len() <= chart.left_face.len() + chart.right_face.len(),
{
    lemma_started_ids_distinct(js[0], chart);
    lemma_each_note_judged_once(js, rounds, keydowns, spinnings, ticks);
    let ids = judged_ids(rounds);
    let p0 = js[0].pending();
    assert forall|x: u64| #[trigger] count_in(ids, x) <= 1 by {
        lemma_count_id_at_most_one(p0, x);
    }
    lemma_counts_distinct(ids);
    assert forall|a: int| 0 <= a < ids.len() implies is_chart_note_id(chart, #[trigger] ids[a]) by {
        lemma_count_in_places(ids, a, a);
        lemma_count_id_positive(p0, ids[a]);
        let k = choose|k: int| 0 <= k < p0.len() && (#[trigger] p0[k]).spec_note_id() == ids[a];
        assert(p0[k].id == ids[a]);
        assert(is_chart_note_id(chart, p0[k].id));
    }
}

/// The combo rules of a judgement: an overchaos, perfect, great or good
/// hit adds one to the combo; only a bad or a miss ends it, setting it to 0
/// and keeping the longer of it and the maximal combo. Exactly the count of
/// the judgement's accuracy goes up by one.
pub proof fn lemma_combo_rules(r: GameResult, a: NoteAccuracy)
    requires
        r.combo < u64::MAX,
        r.judged_count() < u64::MAX,
    ensures
        (a == NoteAccuracy::Overchaos || a == NoteAccuracy::Perfect || a == NoteAccuracy::Great || a
            == NoteAccuracy::Good) ==> apply_accuracy(r, a).combo == r.combo + 1 && apply_accuracy(r, a).max_combo
            == r.max_combo,
        (a == NoteAccuracy::Bad || a == NoteAccuracy::Miss) ==> apply_accuracy(r, a).combo == 0
            && apply_accuracy(r, a).max_combo == (if r.combo > r.max_combo { r.combo } else { r.max_combo }),
        apply_accuracy(r, a).judged_count() == r.judged_count() + 1,
        apply_accuracy(r, a).overchaos_count == r.overchaos_count + (if a == NoteAccuracy::Overchaos { 1int } else { 0 }),
        apply_accuracy(r, a).perfect_count == r.perfect_count + (if a == NoteAccuracy::Perfect { 1int } else { 0 }),
        apply_accuracy(r, a).great_count == r.great_count + (if a == NoteAccuracy::Great { 1int } else { 0 }),
        apply_accuracy(r, a).good_count == r.good_count + (if a == NoteAccuracy::Good { 1int } else { 0 }),
        apply_accuracy(r, a).bad_count == r.bad_count + (if a == NoteAccuracy::Bad { 1int } else { 0 }),
        apply_accuracy(r, a).miss_count == r.miss_count + (if a == NoteAccuracy::Miss { 1int } else { 0 }),
        apply_accuracy(r, a).score == r.score,
{
}

/// Over the judgements of a call: when none of them is a bad or a miss,
/// the combo grows by their number; when the last one is a bad or a miss,
/// the combo is 0 afterwards.
pub proof fn lemma_combo_over_judgements(r: GameResult, results: Seq<JudgeResult>)
    requires
        r.combo + results.len() <= u64::MAX,
        r.judged_count() + results.len() <= u64::MAX,
    ensures
        (forall|k: int| 0 <= k < results.len() ==> (#[trigger] results[k]).accuracy != NoteAccuracy::Bad
            && results[k].accuracy != NoteAccuracy::Miss) ==> apply_all(r, results).combo == r.combo + results.len(),
        results.len() > 0 && (results.last().accuracy == NoteAccuracy::Bad || results.last().accuracy
            == NoteAccuracy::Miss) ==> apply_all(r, results).combo == 0,
        apply_all(r, results).judged_count() == r.judged_count() + results.len(),
    decreases results.len(),
{
    if results.len() > 0 {
        let r1 = apply_accuracy(r, results[0].accuracy);
        lemma_combo_rules(r, results[0].accuracy);
        let rest = results.drop_first();
        assert(r1.combo <= r.combo + 1);
        lemma_combo_over_judgements(r1, rest);
        if forall|k: int| 0 <= k < results.len() ==> (#[trigger] results[k]).accuracy != NoteAccuracy::Bad
            && results[k].accuracy != NoteAccuracy::Miss {
            assert(results[0].accuracy != NoteAccuracy::Bad && results[0].accuracy != NoteAccuracy::Miss);
            assert forall|k: int| 0 <= k < rest.len() implies (#[trigger] rest[k]).accuracy != NoteAccuracy::Bad
                && rest[k].accuracy != NoteAccuracy::Miss by {
                assert(rest[k] == results[k + 1]);
            }
        }
        if rest.len() > 0 {
            assert(rest.last() == results.last());
        }
    }
}

/// How bad an accuracy is: 0 for overchaos up to 5 for a miss.
pub open spec fn badness(a: NoteAccuracy) -> nat {
    match a {
        NoteAccuracy::Overchaos => 0,
        NoteAccuracy::Perfect => 1,
        NoteAccuracy::Great => 2,
        NoteAccuracy::Good => 3,
        NoteAccuracy::Bad => 4,
        NoteAccuracy::Miss => 5,
    }
}

/// A hit farther from its note never gets a better accuracy, and a hit
/// more than the bad window away is a miss.
pub proof fn lemma_accuracy_monotone(d1: int, d2: int)
    requires
        0 <= d1 <= d2,
    ensures
        badness(accuracy_of(d1)) <= badness(accuracy_of(d2)),
        d2 > BAD_TIMING ==> accuracy_of(d2) == NoteAccuracy::Miss,
        d1 <= BAD_TIMING ==> accuracy_of(d1) != NoteAccuracy::Miss,
{
}

/// The score of a hit: the full score within the overchaos window, nothing
/// from the edge of the bad window on, and never more for a hit farther
/// from its note.
pub proof fn lemma_hit_score_shape(d1: int, d2: int)
    requires
        0 <= d1 <= d2,
    ensures
        0 <= hit_score(d2) <= hit_score(d1) <= MAX_NOTE_SCORE,
        d1 <= OVERCHAOS_TIMING ==> hit_score(d1) == MAX_NOTE_SCORE,
        d2 >= BAD_TIMING ==> hit_score(d2) == 0,
{
    let c1 = if d1 < OVERCHAOS_TIMING { OVERCHAOS_TIMING as int } else if d1 > BAD_TIMING { BAD_TIMING as int } else { d1 };
    let c2 = if d2 < OVERCHAOS_TIMING { OVERCHAOS_TIMING as int } else if d2 > BAD_TIMING { BAD_TIMING as int } else { d2 };
    assert(c1 <= c2);
    vstd::arithmetic::div_mod::lemma_div_is_ordered((600 - c2) * 1000, (600 - c1) * 1000, 590);
    vstd::arithmetic::div_mod::lemma_div_is_ordered((600 - c1) * 1000, 590000, 590);
    vstd::arithmetic::div_mod::lemma_div_is_ordered(0, (600 - c2) * 1000, 590);
}

/// Counting judgements (their counts, the combo and the health) never
/// changes the score: the combo does not affect it.
pub proof fn lemma_judgements_keep_score(r: GameResult, results: Seq<JudgeResult>)
    ensures
        apply_all(r, results).score == r.score,
    decreases results.len(),
{
    if results.len() > 0 {
        lemma_judgements_keep_score(apply_accuracy(r, results[0].accuracy), results.drop_first());
    }
}

proof fn lemma_apply_all_keeps(r: GameResult, results: Seq<JudgeResult>)
    requires
        r.max_health == DEFAULT_HEALTH,
        0 <= r.health <= r.max_health,
    ensures
        apply_all(r, results).max_health == r.max_health,
        apply_all(r, results).score == r.score,
        0 <= apply_all(r, results).health <= r.max_health,
        r.health == 0 ==> apply_all(r, results).health == 0,
    decreases results.len(),
{
    if results.len() > 0 {
        lemma_apply_all_keeps(apply_accuracy(r, results[0].accuracy), results.drop_first());
    }
}

/// The judge as a chart starts it: nothing judged, full health, and the
/// notes of the chart waiting in timing order (chart order, left face
/// before right face, among equal timings), hat notes likewise.
pub open spec fn started_from(j: TimingJudge, chart: GameChart) -> bool {
    &&& j.result() == initial_result()
    &&& j.chart_note_count() == chart.left_face.len() + chart.right_face.len()
    &&& sorted_by_timing(j.pending())
    &&& sorted_by_timing(j.pending_hats())
    &&& exists|perm: Seq<usize>|
        is_stable_order(chart_notes(chart).map_values(|n: PendingNote| n.timing), perm)
            && permuted(chart_notes(chart), perm, j.pending())
    &&& exists|perm: Seq<usize>|
        is_stable_order(hat_timing_judge::chart_hats(chart).map_values(|h: PendingHat| h.timing), perm)
            && permuted(hat_timing_judge::chart_hats(chart), perm, j.pending_hats())
}

/// Every waiting note can be compared with the keydown time of its stick
/// without overflow.
pub open spec fn keydowns_fit(j: TimingJudge, keydown: JangguStateWithTick) -> bool {
    forall|k: int| 0 <= k < j.pending().len() ==> hit_difference_ok(
        keydown.stick((#[trigger] j.pending()[k]).stick).keydown_timing,
        j.pending()[k].timing,
    )
}

/// One judgement at `tick` took the judge from `before` to `after` and
/// returned `results`: the hat notes first (each hit adds the hat score),
/// then the janggu notes as `scan` says (each hit adds its score); the
/// judged notes leave the queues and each judgement updates counts, combo
/// and health in order.
pub open spec fn judged(
    before: TimingJudge,
    after: TimingJudge,
    keydown: JangguStateWithTick,
    spinning: bool,
    tick: int,
    results: Seq<JudgeResult>,
) -> bool {
    let hats = hat_scan(before.pending_hats(), spinning, tick);
    let scanned = scan(before.pending(), keydown, tick, false, false);
    &&& results == scan_results(scanned)
    &&& after.pending_hats() == remove_ids(before.pending_hats(), hat_ids(hats))
    &&& after.result() == apply_all(
        GameResult {
            score: (before.result().score + (HAT_SCORE as int) * hat_hits(hats) + scan_score(scanned)) as u64,
            ..before.result()
        },
        results,
    )
    &&& after.pending() == remove_ids(before.pending(), result_ids(results))
    &&& after.chart_note_count() == before.chart_note_count()
    &&& after.result().judged_count() == before.result().judged_count() + results.len()
    &&& sorted_by_timing(after.pending())
    &&& sorted_by_timing(after.pending_hats())
}

/// What judging a chart needs: every note can be timed, its timing fits an
/// `i64`, and the scores of all notes add up within a `u64`.
pub open spec fn chart_judgeable(chart: GameChart) -> bool {
    &&& chart_timings_ok(chart)
    &&& (MAX_NOTE_SCORE as int) * (chart.left_face.len() + chart.right_face.len()) + (HAT_SCORE as int)
        * chart.hats.len() <= u64::MAX
    &&& chart.left_face.len() + chart.right_face.len() <= usize::MAX
}

/// Tells whether a chart can be judged.
pub fn chart_can_be_judged(chart: &GameChart) -> (r: bool)
    ensures
        r == chart_judgeable(*chart),
{
    let n_left = chart.left_face.len();
    let n_right = chart.right_face.len();
    let n_hats = chart.hats.len();
    if (n_left as u128) + (n_right as u128) > usize::MAX as u128 {
        return false;
    }
    if (MAX_NOTE_SCORE as u128) * ((n_left as u128) + (n_right as u128)) + (HAT_SCORE as u128) * (n_hats as u128)
        > u64::MAX as u128 {
        return false;
    }
    let ghost all = chart.left_face@ + chart.right_face@;
    let n_all = n_left + n_right;
    let mut i: usize = 0;
    while i < n_all
        invariant
            n_left == chart.left_face.len(),
            n_all == chart.left_face.len() + chart.right_face.len(),
            all == chart.left_face@ + chart.right_face@,
            i <= n_all,
            forall|k: int| 0 <= k < i ==> (#[trigger] all[k]).timing_ok(chart.bpm, chart.delay)
                && all[k].timing(chart.bpm, chart.delay) <= i64::MAX,
        decreases n_all - i,
    {
        let note = if i < n_left { &chart.left_face[i] } else { &chart.right_face[i - n_left] };
        assert(*note == all[i as int]);
        if !note.timing_fits(chart.bpm, chart.delay) {
            return false;
        }
        if note.timing_in_ms(chart.bpm, chart.delay) > i64::MAX as u64 {
            return false;
        }
        i = i + 1;
    }
    let mut j: usize = 0;
    while j < n_hats
        invariant
            n_hats == chart.hats.len(),
            j <= n_hats,
            forall|k: int| 0 <= k < j ==> (#[trigger] chart.hats@[k]).timing_ok(chart.bpm, chart.delay)
                && chart.hats@[k].timing(chart.bpm, chart.delay) <= i64::MAX,
        decreases n_hats - j,
    {
        let hat = &chart.hats[j];
        if !hat.timing_fits(chart.bpm, chart.delay) {
            return false;
        }
        if hat.timing_in_ms(chart.bpm, chart.delay) > i64::MAX as u64 {
            return false;
        }
        j = j + 1;
    }
    true
}

/// Judges the notes of a chart against the janggu input and keeps the
/// result of the play.
pub struct TimingJudge {
    notes: Vec<PendingNote>,
    hat_judge: HatTimingJudge,
    result: GameResult,
    note_total: Ghost<nat>,
    hat_total: Ghost<nat>,
}

impl TimingJudge {
    /// The janggu notes waiting for judgement, in judgement order.
    pub closed spec fn pending(&self) -> Seq<PendingNote> {
        self.notes@
    }

    /// The hat notes waiting for judgement, in judgement order.
    pub closed spec fn pending_hats(&self) -> Seq<PendingHat> {
        self.hat_judge.pending()
    }

    /// The number of janggu notes of the chart that the judge started from.
    pub closed spec fn chart_note_count(&self) -> nat {
        self.note_total@
    }

    /// The result of the play so far.
    pub closed spec fn result(&self) -> GameResult {
        self.result
    }

    pub closed spec fn wf(&self) -> bool {
        let r = self.result;
        &&& forall|k: int| 0 <= k < self.notes@.len() ==> (#[trigger] self.notes@[k]).timing <= i64::MAX
        &&& sorted_by_timing(self.notes@)
        &&& self.hat_judge.wf()
        &&& r.max_health == DEFAULT_HEALTH
        &&& 0 <= r.health <= r.max_health
        &&& r.judged_count() + self.notes@.len() == self.note_total@
        &&& self.hat_judge.pending().len() <= self.hat_total@
        &&& r.score <= (MAX_NOTE_SCORE as int) * r.judged_count() + (HAT_SCORE as int) * (self.hat_total@ - self.hat_judge.pending().len())
        &&& (MAX_NOTE_SCORE as int) * self.note_total@ + (HAT_SCORE as int) * self.hat_total@ <= u64::MAX
        &&& r.combo <= r.judged_count()
        &&& r.max_combo <= r.judged_count()
    }

    /// Takes the notes of the chart, ordered by timing (chart order, left
    /// face before right face, among equal timings), with nothing judged
    /// yet and full health.
    pub fn new(chart: &GameChart) -> (r: TimingJudge)
        requires
            chart_judgeable(*chart),
        ensures
            r.wf(),
            started_from(r, *chart),
    {
        let ghost src = chart_notes(*chart);
        let ghost all = chart.left_face@ + chart.right_face@;
        let mut flat: Vec<PendingNote> = Vec::new();
        let mut timings: Vec<u64> = Vec::new();
        let n_left = chart.left_face.len();
        let n_all = n_left + chart.right_face.len();
        let mut i: usize = 0;
        while i < n_all
            invariant
                n_left == chart.left_face.len(),
                n_all == chart.left_face.len() + chart.right_face.len(),
                all == chart.left_face@ + chart.right_face@,
                i <= n_all,
                src == chart_notes(*chart),
                flat@ == src.take(i as int),
                timings@ == src.take(i as int).map_values(|n: PendingNote| n.timing),
                chart_timings_ok(*chart),
            decreases n_all - i,
        {
            let note = if i < n_left { &chart.left_face[i] } else { &chart.right_face[i - n_left] };
            assert(*note == all[i as int]);
            let timing = note.timing_in_ms(chart.bpm, chart.delay);
            let p = PendingNote { id: note.id, stick: note.stick, face: note.face, timing: timing };
            flat.push(p);
            timings.push(timing);
            proof {
                assert(src[i as int] == p);
                assert(src.take(i + 1) =~= src.take(i as int).push(p));
                assert(src.take(i + 1).map_values(|n: PendingNote| n.timing) =~= src.take(i as int).map_values(
                    |n: PendingNote| n.timing,
                ).push(timing));
            }
            i = i + 1;
        }
        proof {
            assert(src.take(src.len() as int) =~= src);
        }
        let perm = stable_order_by_timing(&timings);
        let mut notes: Vec<PendingNote> = Vec::new();
        let mut k: usize = 0;
        while k < perm.len()
            invariant
                k <= perm.len(),
                is_stable_order(timings@, perm@),
                flat@ == src,
                src == chart_notes(*chart),
                all == chart.left_face@ + chart.right_face@,
                timings@ == src.map_values(|n: PendingNote| n.timing),
                notes.len() == k,
                forall|j: int| 0 <= j < k ==> notes@[j] == src[#[trigger] perm@[j] as int],
                chart_timings_ok(*chart),
            decreases perm.len() - k,
        {
            let idx = perm[k];
            proof {
                assert(src[idx as int] == pending_of(all[idx as int], chart.bpm, chart.delay));
            }
            notes.push(flat[idx]);
            k = k + 1;
        }
        let hat_judge = HatTimingJudge::new(chart);
        let r = TimingJudge {
            notes,
            hat_judge,
            result: GameResult {
                overchaos_count: 0,
                perfect_count: 0,
                great_count: 0,
                good_count: 0,
                bad_count: 0,
                miss_count: 0,
                combo: 0,
                max_combo: 0,
                score: 0,
                health: DEFAULT_HEALTH as i64,
                max_health: DEFAULT_HEALTH,
            },
            note_total: Ghost(n_all as nat),
            hat_total: Ghost(chart.hats@.len()),
        };
        proof {
            let hsrc = hat_timing_judge::chart_hats(*chart);
            let hp = choose|hp: Seq<usize>|
                is_stable_order(hsrc.map_values(|h: PendingHat| h.timing), hp)
                    && permuted(hsrc, hp, r.hat_judge.pending());
            assert(permuted(hsrc, hp, r.pending_hats()));
            assert(permuted(src, perm@, r.pending()));
            assert forall|a: int, b: int| 0 <= a < b < r.notes@.len() implies #[trigger] r.notes@[a].spec_timing()
                <= #[trigger] r.notes@[b].spec_timing() by {
                assert(order_before(timings@, perm@[a] as int, perm@[b] as int));
                assert(r.notes@[a] == src[perm@[a] as int]);
                assert(r.notes@[b] == src[perm@[b] as int]);
            }
            assert forall|j: int| 0 <= j < r.notes@.len() implies (#[trigger] r.notes@[j]).timing <= i64::MAX by {
                let idx = perm@[j] as int;
                assert(r.notes@[j] == src[idx]);
                assert(all[idx].timing(chart.bpm, chart.delay) <= i64::MAX);
            }
        }
        r
    }

    /// Judges the notes at time `tick_in_milliseconds`: first the hat notes
    /// (each hit adds the hat score), then the janggu notes as `scan` says
    /// (each hit adds its score). The judged notes leave the queue; each
    /// judgement updates counts, combo and health in order. Returns the
    /// judgements of the janggu notes.
    pub fn judge(
        &mut self,
        keydown: &JangguStateWithTick,
        spinning: bool,
        tick_in_milliseconds: u64,
    ) -> (r: Vec<JudgeResult>)
        requires
            old(self).wf(),
            tick_in_milliseconds <= i64::MAX,
            keydowns_fit(*old(self), *keydown),
        ensures
            final(self).wf(),
            judged(*old(self), *final(self), *keydown, spinning, tick_in_milliseconds as int, r@),
            // each judged note leaves the queue
            final(self).pending().len() == old(self).pending().len() - r@.len(),
            final(self).result().judged_count() == old(self).result().judged_count() + r@.len(),
            final(self).result().score >= old(self).result().score,
            0 <= final(self).result().health <= final(self).result().max_health,
            old(self).result().health == 0 ==> final(self).result().health == 0,
    {
        let ghost old_result = self.result;
        let ghost hats0 = self.hat_judge.pending();
        let ghost notes0 = self.notes@;
        let tick = tick_in_milliseconds;

        // hat notes first
        let hat_results = self.hat_judge.judge(spinning, tick);
        let mut score = self.result.score;
        let mut j: usize = 0;
        while j < hat_results.len()
            invariant
                j <= hat_results.len(),
                hat_results@.len() <= hats0.len(),
                score == old_result.score + (HAT_SCORE as int) * hat_hits(hat_results@.take(j as int)),
                hat_hits(hat_results@.take(j as int)) <= j,
                old_result.score <= (MAX_NOTE_SCORE as int) * old_result.judged_count() + (HAT_SCORE as int) * (
                    self.hat_total@ - hats0.len()),
                (MAX_NOTE_SCORE as int) * self.note_total@ + (HAT_SCORE as int) * self.hat_total@ <= u64::MAX,
                old_result.judged_count() + notes0.len() == self.note_total@,
                hats0.len() <= self.hat_total@,
            decreases hat_results.len() - j,
        {
            proof {
                assert(hat_results@.take(j + 1) =~= hat_results@.take(j as int).push(hat_results@[j as int]));
                lemma_hat_hits_push(hat_results@.take(j as int), hat_results@[j as int]);
            }
            if hat_results[j].accuracy != NoteAccuracy::Miss {
                score = score + HAT_SCORE;
            }
            j = j + 1;
        }
        proof {
            assert(hat_results@.take(hat_results.len() as int) =~= hat_results@);
        }
        let ghost base = score as int;

        // janggu notes
        let ghost scan0 = scan(notes0, *keydown, tick as int, false, false);
        let ghost mut items: Seq<(JudgeResult, int)> = seq![];
        let mut judged: Vec<JudgeResult> = Vec::new();
        let mut left_done = false;
        let mut right_done = false;
        let mut i: usize = 0;
        proof {
            assert(notes0.skip(0) =~= notes0);
            assert(scan_results(items) =~= judged@);
            assert forall|k: int| 0 <= k < notes0.len() implies hit_difference_ok(
                keydown.stick((#[trigger] notes0[k]).stick).keydown_timing,
                notes0[k].timing,
            ) by {
                assert(notes0[k] == old(self).pending()[k]);
            }
        }
        while i < self.notes.len() && !(left_done && right_done)
            invariant
                self.notes@ == notes0,
                i <= notes0.len(),
                tick <= i64::MAX,
                forall|k: int| 0 <= k < notes0.len() ==> (#[trigger] notes0[k]).timing <= i64::MAX,
                forall|k: int| 0 <= k < notes0.len() ==> hit_difference_ok(
                    keydown.stick((#[trigger] notes0[k]).stick).keydown_timing,
                    notes0[k].timing,
                ),
                judged@ == scan_results(items),
                items + scan(notes0.skip(i as int), *keydown, tick as int, left_done, right_done) == scan0,
                score == base + scan_score(items),
                items.len() <= i,
                0 <= scan_score(items) <= (MAX_NOTE_SCORE as int) * items.len(),
                base + (MAX_NOTE_SCORE as int) * notes0.len() <= u64::MAX,
            decreases notes0.len() - i,
        {
            let n = self.notes[i];
            let ghost rest = notes0.skip(i as int);
            proof {
                assert(rest[0] == n);
                assert(rest.drop_first() =~= notes0.skip(i + 1));
            }
            let precise_timing = n.timing;
            let difference = tick as i64 - precise_timing as i64;
            if difference > BAD_TIMING {
                // the note's window has passed
                let x = JudgeResult { accuracy: NoteAccuracy::Miss, note_id: n.id };
                judged.push(x);
                proof {
                    lemma_scan_score_push(items, (x, 0int));
                    items = items.push((x, 0int));
                    assert(scan_results(items) =~= judged@);
                    assert(items + scan(notes0.skip(i + 1), *keydown, tick as int, left_done, right_done) =~= scan0);
                }
            } else if difference < -BAD_TIMING {
                // the note's window has not begun
            } else {
                let stick = keydown.get_by_stick(n.stick);
                let processed = match n.stick {
                    JangguStick::Gungchae => left_done,
                    JangguStick::Yeolchae => right_done,
                };
                if stick.is_keydown_now && stick.face == Some(n.face) && !processed {
                    match n.stick {
                        JangguStick::Gungchae => {
                            left_done = true;
                        },
                        JangguStick::Yeolchae => {
                            right_done = true;
                        },
                    }
                    let hit_timing = stick.keydown_timing as u64;
                    let d = hit_timing as i64 - precise_timing as i64;
                    let difference_abs = if d < 0 { -d } else { d };
                    let gained = score_from_time_difference(difference_abs);
                    score = score + gained;
                    let x = JudgeResult {
                        accuracy: note_accuracy_from_time_difference(difference_abs),
                        note_id: n.id,
                    };
                    judged.push(x);
                    proof {
                        lemma_scan_score_push(items, (x, gained as int));
                        items = items.push((x, gained as int));
                        assert(scan_results(items) =~= judged@);
                        assert(items + scan(notes0.skip(i + 1), *keydown, tick as int, left_done, right_done)
                            =~= scan0);
                    }
                }
            }
            i = i + 1;
        }
        proof {
            if left_done && right_done {
            } else {
                assert(notes0.skip(i as int) =~= Seq::<PendingNote>::empty());
            }
            assert(items =~= scan0);
            lemma_scan_ids_within(notes0, *keydown, tick as int, false, false);
            lemma_remove_ids_len(notes0, result_ids(judged@));
        }
        self.result.score = score;
        let ghost r1 = self.result;

        // counts, combo and health, in judgement order
        let mut k: usize = 0;
        proof {
            assert(judged@.skip(0) =~= judged@);
        }
        while k < judged.len()
            invariant
                k <= judged.len(),
                judged@.len() <= notes0.len(),
                old_result.judged_count() + notes0.len() == self.note_total@,
                (MAX_NOTE_SCORE as int) * self.note_total@ + (HAT_SCORE as int) * self.hat_total@ <= u64::MAX,
                apply_all(self.result, judged@.skip(k as int)) == apply_all(r1, judged@),
                self.result.judged_count() == old_result.judged_count() + k,
                self.result.combo <= self.result.judged_count(),
                self.result.max_combo <= self.result.judged_count(),
                self.result.max_health == DEFAULT_HEALTH,
                0 <= self.result.health <= self.result.max_health,
                self.result.score == r1.score,
                old_result.health == 0 ==> self.result.health == 0,
                r1.health == old_result.health,
                self.notes@ == notes0,
                self.hat_judge.pending() == remove_ids(hats0, hat_ids(hat_results@)),
                self.hat_judge.pending().len() == hats0.len() - hat_results@.len(),
                self.hat_judge.wf(),
                self.note_total == old(self).note_total,
                self.hat_total == old(self).hat_total,
            decreases judged.len() - k,
        {
            let ghost before = self.result;
            apply_accuracy_to(&mut self.result, judged[k].accuracy);
            proof {
                assert(judged@.skip(k as int)[0] == judged@[k as int]);
                assert(judged@.skip(k as int).drop_first() =~= judged@.skip(k + 1));
            }
            k = k + 1;
        }
        proof {
            assert(judged@.skip(judged.len() as int) =~= Seq::<JudgeResult>::empty());
        }

        // judged notes leave the queue
        let mut ids: Vec<u64> = Vec::new();
        let mut m: usize = 0;
        while m < judged.len()
            invariant
                m <= judged.len(),
                ids@ == result_ids(judged@).take(m as int),
            decreases judged.len() - m,
        {
            ids.push(judged[m].note_id);
            proof {
                assert(result_ids(judged@).take(m + 1) =~= result_ids(judged@).take(m as int).push(
                    judged@[m as int].note_id,
                ));
            }
            m = m + 1;
        }
        proof {
            assert(result_ids(judged@).take(judged.len() as int) =~= result_ids(judged@));
            lemma_remove_ids_contained(notes0, result_ids(judged@));
            lemma_remove_ids_sorted(notes0, result_ids(judged@));
        }
        remove_with_ids(&mut self.notes, &ids);
        proof {
            assert forall|q: int| 0 <= q < self.notes@.len() implies (#[trigger] self.notes@[q]).timing <= i64::MAX by {
                assert(notes0.contains(self.notes@[q]));
            }
        }
        judged
    }

    /// What every judgement keeps: health between 0 and its maximum of
    /// 1000, a combo and maximal combo of at most the judged notes, and no
    /// more judged notes than the chart has.
    pub proof fn lemma_result_bounds(&self)
        requires
            self.wf(),
        ensures
            self.result().judged_count() + self.pending().len() == self.chart_note_count(),
            self.chart_note_count() <= u64::MAX,
            sorted_by_timing(self.pending()),
            sorted_by_timing(self.pending_hats()),
            self.result().max_health == DEFAULT_HEALTH,
            0 <= self.result().health <= self.result().max_health,
            self.result().combo <= self.result().judged_count(),
            self.result().max_combo <= self.result().judged_count(),
    {
        self.hat_judge.lemma_sorted();
    }

    /// Tells whether every waiting note can be compared with the keydown
    /// time of its stick without overflow, as `judge` needs.
    pub fn keydowns_fit(&self, keydown: &JangguStateWithTick) -> (r: bool)
        ensures
            r == keydowns_fit(*self, *keydown),
    {
        let mut i: usize = 0;
        while i < self.notes.len()
            invariant
                i <= self.notes.len(),
                forall|k: int| 0 <= k < i ==> hit_difference_ok(
                    keydown.stick((#[trigger] self.notes@[k]).stick).keydown_timing,
                    self.notes@[k].timing,
                ),
            decreases self.notes.len() - i,
        {
            let note = self.notes[i];
            let keydown_timing = keydown.get_by_stick(note.stick).keydown_timing;
            let hit: i128 = ((keydown_timing as u64) as i64) as i128;
            let difference: i128 = hit - note.timing as i128;
            if !(difference > i64::MIN as i128 && difference <= i64::MAX as i128) {
                return false;
            }
            i = i + 1;
        }
        true
    }

    /// The result of the play so far.
    pub fn get_game_result(&self) -> (r: GameResult)
        ensures
            r == self.result(),
    {
        self.result
    }
}

} // verus!
