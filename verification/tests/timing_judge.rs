use bidrum::game_player::game_result::GameResult;
use bidrum::game_player::janggu_state_with_tick::JangguStateWithTick;
use bidrum::game_player::timing_judge::hat_timing_judge::HatTimingJudge;
use bidrum::game_player::timing_judge::{
    chart_can_be_judged, note_accuracy_from_time_difference, JudgeResult, NoteAccuracy, TimingJudge,
};
use bidrum::janggu::{JangguFace, JangguInputState, JangguStick};
use bidrum::song::{GameChart, GameHatNote, GameNote};

fn note(stick: JangguStick, beat_index: u64) -> GameNote {
    GameNote { stick, beat_index, tick_nomiator: 0, tick_denomiator: 0, id: 0, face: JangguFace::Gungpyeon }
}

fn chart(bpm: u32, left: Vec<GameNote>, right: Vec<GameNote>, hats: Vec<GameHatNote>) -> GameChart {
    let mut c = GameChart { artist: String::from("tester"), delay: 0, bpm, left_face: left, right_face: right, hats };
    c.assign_note_ids();
    c
}

/// The janggu state after the sticks touch these faces at `time`.
fn touch(gungchae: Option<JangguFace>, yeolchae: Option<JangguFace>, time: i128) -> JangguStateWithTick {
    let mut j = JangguStateWithTick::new();
    j.update(JangguInputState { gungchae, yeolchae }, time);
    j
}

fn no_touch() -> JangguStateWithTick {
    JangguStateWithTick::new()
}

#[test]
fn accuracy_windows() {
    assert_eq!(note_accuracy_from_time_difference(0), NoteAccuracy::Overchaos);
    assert_eq!(note_accuracy_from_time_difference(10), NoteAccuracy::Overchaos);
    assert_eq!(note_accuracy_from_time_difference(11), NoteAccuracy::Perfect);
    assert_eq!(note_accuracy_from_time_difference(40), NoteAccuracy::Perfect);
    assert_eq!(note_accuracy_from_time_difference(41), NoteAccuracy::Great);
    assert_eq!(note_accuracy_from_time_difference(70), NoteAccuracy::Great);
    assert_eq!(note_accuracy_from_time_difference(71), NoteAccuracy::Good);
    assert_eq!(note_accuracy_from_time_difference(200), NoteAccuracy::Good);
    assert_eq!(note_accuracy_from_time_difference(201), NoteAccuracy::Bad);
    assert_eq!(note_accuracy_from_time_difference(600), NoteAccuracy::Bad);
    assert_eq!(note_accuracy_from_time_difference(601), NoteAccuracy::Miss);
}

#[test]
fn exact_hit_is_overchaos() {
    // beat 1 at 120 bpm: 500 ms
    let c = chart(120, vec![note(JangguStick::Gungchae, 1)], vec![], vec![]);
    assert!(chart_can_be_judged(&c));
    let mut judge = TimingJudge::new(&c);
    let j = touch(Some(JangguFace::Gungpyeon), None, 505);
    assert!(judge.keydowns_fit(&j));
    let r = judge.judge(&j, false, 505);
    assert_eq!(r, vec![JudgeResult { accuracy: NoteAccuracy::Overchaos, note_id: 0 }]);
    let g = judge.get_game_result();
    assert_eq!(g.overchaos_count, 1);
    assert_eq!(g.combo, 1);
    assert_eq!(g.score, 1000);
    assert_eq!(g.health, 1000);
    assert_eq!(g.max_health, 1000);
    assert_eq!(g.total_judged_note_count(), 1);
    // the note is gone: nothing more to judge
    assert!(judge.judge(&j, false, 3000).is_empty());
}

#[test]
fn wrong_face_or_stick_does_not_hit() {
    let c = chart(120, vec![note(JangguStick::Gungchae, 1)], vec![], vec![]);
    let mut judge = TimingJudge::new(&c);
    // right face
    assert!(judge.judge(&touch(Some(JangguFace::Yeolpyeon), None, 500), false, 500).is_empty());
    // other stick
    assert!(judge.judge(&touch(None, Some(JangguFace::Gungpyeon), 500), false, 500).is_empty());
    // the stick rests on the face: no new keydown
    let mut j = touch(Some(JangguFace::Gungpyeon), None, 400);
    j.update(JangguInputState { gungchae: Some(JangguFace::Gungpyeon), yeolchae: None }, 500);
    assert!(judge.judge(&j, false, 500).is_empty());
    assert_eq!(judge.get_game_result().total_judged_note_count(), 0);
}

#[test]
fn late_note_is_missed() {
    let c = chart(120, vec![note(JangguStick::Gungchae, 1)], vec![], vec![]);
    let mut judge = TimingJudge::new(&c);
    assert!(judge.judge(&no_touch(), false, 1100).is_empty());
    let r = judge.judge(&no_touch(), false, 1101);
    assert_eq!(r, vec![JudgeResult { accuracy: NoteAccuracy::Miss, note_id: 0 }]);
    let g = judge.get_game_result();
    assert_eq!(g.miss_count, 1);
    assert_eq!(g.combo, 0);
    assert_eq!(g.health, 950);
    assert_eq!(g.score, 0);
}

#[test]
fn score_by_distance() {
    let c = chart(120, vec![note(JangguStick::Gungchae, 2)], vec![], vec![]);
    // 150 ms late: good, (600 - 150) * 1000 / 590 = 762
    let mut judge = TimingJudge::new(&c);
    let r = judge.judge(&touch(Some(JangguFace::Gungpyeon), None, 1150), false, 1150);
    assert_eq!(r[0].accuracy, NoteAccuracy::Good);
    assert_eq!(judge.get_game_result().score, 762);
    // 30 ms early: perfect, (600 - 30) * 1000 / 590 = 966
    let mut judge = TimingJudge::new(&c);
    let r = judge.judge(&touch(Some(JangguFace::Gungpyeon), None, 970), false, 970);
    assert_eq!(r[0].accuracy, NoteAccuracy::Perfect);
    assert_eq!(judge.get_game_result().score, 966);
    assert_eq!(judge.get_game_result().health, 1000);
}

#[test]
fn score_matches_the_documented_formula() {
    // score = (|BAD - clamp(d, OVERCHAOS, BAD)| / (BAD - OVERCHAOS)) * 1000, as a float cut to an integer
    let c = chart(120, vec![note(JangguStick::Gungchae, 2)], vec![], vec![]);
    for d in 0..=600i64 {
        for sign in [-1i64, 1] {
            let t = 1000 + sign * d;
            let mut judge = TimingJudge::new(&c);
            let r = judge.judge(&touch(Some(JangguFace::Gungpyeon), None, t as i128), false, t as u64);
            assert_eq!(r.len(), 1);
            assert_eq!(r[0].accuracy, note_accuracy_from_time_difference(d));
            let clamped = d.clamp(10, 600) as f64;
            let expected = ((f64::abs(600.0 - clamped) / 590.0) * 1000.0) as u64;
            assert_eq!(judge.get_game_result().score, expected, "distance {}", d);
        }
    }
}

#[test]
fn one_hit_per_stick_per_judgement() {
    // two left-face notes of the left stick at the same time, one of the right stick
    let c = chart(
        120,
        vec![note(JangguStick::Gungchae, 1), note(JangguStick::Gungchae, 1), note(JangguStick::Yeolchae, 1)],
        vec![],
        vec![],
    );
    let mut judge = TimingJudge::new(&c);
    let j = touch(Some(JangguFace::Gungpyeon), Some(JangguFace::Gungpyeon), 500);
    let r = judge.judge(&j, false, 500);
    assert_eq!(
        r,
        vec![
            JudgeResult { accuracy: NoteAccuracy::Overchaos, note_id: 0 },
            JudgeResult { accuracy: NoteAccuracy::Overchaos, note_id: 2 },
        ]
    );
    assert_eq!(judge.get_game_result().combo, 2);
    assert_eq!(judge.get_game_result().score, 2000);
}

#[test]
fn notes_are_judged_in_timing_order() {
    // the right face's note comes first in time
    let c = chart(60, vec![note(JangguStick::Gungchae, 3)], vec![note(JangguStick::Gungchae, 1)], vec![]);
    let mut judge = TimingJudge::new(&c);
    let r = judge.judge(&no_touch(), false, 10_000);
    assert_eq!(
        r,
        vec![
            JudgeResult { accuracy: NoteAccuracy::Miss, note_id: 1 },
            JudgeResult { accuracy: NoteAccuracy::Miss, note_id: 0 },
        ]
    );
}

#[test]
fn empty_health_stays_empty() {
    // 20 notes at 1 s .. 20 s, then one at 30 s
    let mut left: Vec<GameNote> = (1..=20).map(|b| note(JangguStick::Gungchae, b)).collect();
    left.push(note(JangguStick::Gungchae, 30));
    let c = chart(60, left, vec![], vec![]);
    let mut judge = TimingJudge::new(&c);
    let r = judge.judge(&no_touch(), false, 25_000);
    assert_eq!(r.len(), 20);
    let g = judge.get_game_result();
    assert_eq!(g.health, 0);
    assert_eq!(g.miss_count, 20);
    let r = judge.judge(&touch(Some(JangguFace::Gungpyeon), None, 30_000), false, 30_000);
    assert_eq!(r[0].accuracy, NoteAccuracy::Overchaos);
    let g = judge.get_game_result();
    assert_eq!(g.health, 0);
    assert_eq!(g.score, 1000);
    assert_eq!(g.combo, 1);
}

#[test]
fn bad_breaks_the_combo() {
    let c = chart(60, vec![note(JangguStick::Gungchae, 1), note(JangguStick::Gungchae, 2), note(JangguStick::Gungchae, 3)], vec![], vec![]);
    let mut judge = TimingJudge::new(&c);
    judge.judge(&touch(Some(JangguFace::Gungpyeon), None, 1000), false, 1000);
    judge.judge(&touch(Some(JangguFace::Gungpyeon), None, 2000), false, 2000);
    assert_eq!(judge.get_game_result().combo, 2);
    // 300 ms late: bad
    let r = judge.judge(&touch(Some(JangguFace::Gungpyeon), None, 3300), false, 3300);
    assert_eq!(r[0].accuracy, NoteAccuracy::Bad);
    let g = judge.get_game_result();
    assert_eq!(g.combo, 0);
    assert_eq!(g.max_combo, 2);
    assert_eq!(g.bad_count, 1);
    assert_eq!(g.health, 980);
}

#[test]
fn spinning_hits_hat_notes() {
    let hat = GameHatNote { beat_index: 2, tick_nomiator: 0, tick_denomiator: 0, id: 7 };
    let c = chart(120, vec![], vec![], vec![hat]);
    let mut judge = TimingJudge::new(&c);
    // 0 ms is inside the hat window (1000 ms +- 1500 ms), but nobody spins
    assert!(judge.judge(&no_touch(), false, 0).is_empty());
    assert_eq!(judge.get_game_result().score, 0);
    assert!(judge.judge(&no_touch(), true, 900).is_empty());
    assert_eq!(judge.get_game_result().score, 1000);
    // the hat note is used up
    judge.judge(&no_touch(), true, 1000);
    assert_eq!(judge.get_game_result().score, 1000);
}

#[test]
fn hat_judge_alone() {
    let hats = vec![
        GameHatNote { beat_index: 10, tick_nomiator: 0, tick_denomiator: 0, id: 1 },
        GameHatNote { beat_index: 2, tick_nomiator: 0, tick_denomiator: 0, id: 2 },
    ];
    let c = chart(60, vec![], vec![], hats);
    let mut judge = HatTimingJudge::new(&c);
    // at 3 s the hat at 2 s is inside its window, the one at 10 s is not yet
    let r = judge.judge(false, 3000);
    assert!(r.is_empty());
    // 1501 ms after it, the hat at 2 s is missed
    let r = judge.judge(false, 3501);
    assert_eq!(r.len(), 1);
    assert_eq!(r[0].note_id, 2);
    assert_eq!(r[0].accuracy, NoteAccuracy::Miss);
    let r = judge.judge(true, 9000);
    assert_eq!(r.len(), 1);
    assert_eq!(r[0].note_id, 1);
    assert_eq!(r[0].accuracy, NoteAccuracy::Perfect);
}

#[test]
fn unjudgeable_charts_are_told() {
    let c = chart(0, vec![note(JangguStick::Gungchae, 1)], vec![], vec![]);
    assert!(!chart_can_be_judged(&c));
    let c = chart(1, vec![note(JangguStick::Gungchae, 1 << 50)], vec![], vec![]);
    assert!(!chart_can_be_judged(&c));
    let c = chart(120, vec![], vec![], vec![]);
    assert!(chart_can_be_judged(&c));
}

#[test]
fn keydowns_out_of_range_are_told() {
    let c = chart(120, vec![note(JangguStick::Gungchae, 1)], vec![], vec![]);
    let judge = TimingJudge::new(&c);
    assert!(judge.keydowns_fit(&touch(Some(JangguFace::Gungpyeon), None, -300)));
    assert!(!judge.keydowns_fit(&touch(Some(JangguFace::Gungpyeon), None, i64::MIN as i128)));
}

#[test]
fn total_judged_count_sums_all_counts() {
    let g = GameResult {
        overchaos_count: 1,
        perfect_count: 2,
        great_count: 3,
        good_count: 4,
        bad_count: 5,
        miss_count: 6,
        combo: 0,
        max_combo: 0,
        score: 0,
        health: 0,
        max_health: 1000,
    };
    assert_eq!(g.total_judged_note_count(), 21);
}

#[test]
fn combo_does_not_change_the_score() {
    let notes = || vec![note(JangguStick::Gungchae, 1), note(JangguStick::Gungchae, 2), note(JangguStick::Gungchae, 3)];
    // with a combo of 2
    let mut with_combo = TimingJudge::new(&chart(60, notes(), vec![], vec![]));
    with_combo.judge(&touch(Some(JangguFace::Gungpyeon), None, 1000), false, 1000);
    with_combo.judge(&touch(Some(JangguFace::Gungpyeon), None, 2000), false, 2000);
    let before = with_combo.get_game_result().score;
    with_combo.judge(&touch(Some(JangguFace::Gungpyeon), None, 3150), false, 3150);
    let gained_with_combo = with_combo.get_game_result().score - before;
    // without a combo: the first two notes are missed
    let mut without_combo = TimingJudge::new(&chart(60, notes(), vec![], vec![]));
    without_combo.judge(&no_touch(), false, 2700);
    assert_eq!(without_combo.get_game_result().combo, 0);
    let before = without_combo.get_game_result().score;
    without_combo.judge(&touch(Some(JangguFace::Gungpyeon), None, 3150), false, 3150);
    let gained_without_combo = without_combo.get_game_result().score - before;
    assert_eq!(gained_with_combo, 762);
    assert_eq!(gained_without_combo, 762);
}

#[test]
fn each_note_is_judged_once_over_a_play() {
    let c = chart(60, vec![note(JangguStick::Gungchae, 1), note(JangguStick::Gungchae, 2)], vec![note(JangguStick::Yeolchae, 2)], vec![]);
    let mut judge = TimingJudge::new(&c);
    let mut all: Vec<u64> = vec![];
    for t in [500u64, 1000, 1500, 2000, 2600, 2700, 4000, 9000] {
        let j = touch(Some(JangguFace::Gungpyeon), Some(JangguFace::Yeolpyeon), t as i128);
        for r in judge.judge(&j, false, t) {
            all.push(r.note_id);
        }
    }
    let mut sorted = all.clone();
    sorted.sort();
    sorted.dedup();
    assert_eq!(sorted.len(), all.len());
    assert_eq!(sorted, vec![0, 1, 2]);
    assert_eq!(judge.get_game_result().total_judged_note_count(), 3);
}
