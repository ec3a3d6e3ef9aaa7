use bidrum::game_player::chart_player::{ChartPlayer, ShownAccuracy};
use bidrum::game_player::janggu_state_with_tick::JangguStateWithTick;
use bidrum::game_player::timing_judge::NoteAccuracy;
use bidrum::janggu::{JangguFace, JangguInputState, JangguStick};
use bidrum::song::{GameChart, GameNote};

fn note(stick: JangguStick, beat_index: u64) -> GameNote {
    GameNote { stick, beat_index, tick_nomiator: 0, tick_denomiator: 0, id: 0, face: JangguFace::Gungpyeon }
}

fn chart(left: Vec<GameNote>, right: Vec<GameNote>) -> GameChart {
    // 60 bpm: beat n is at n seconds
    let mut c = GameChart { artist: String::from("tester"), delay: 0, bpm: 60, left_face: left, right_face: right, hats: vec![] };
    c.assign_note_ids();
    c
}

fn touch(gungchae: Option<JangguFace>, yeolchae: Option<JangguFace>, time: i128) -> JangguStateWithTick {
    let mut j = JangguStateWithTick::new();
    j.update(JangguInputState { gungchae, yeolchae }, time);
    j
}

#[test]
fn shows_the_worst_new_accuracy() {
    // a perfect hit with the left stick and a great one with the right stick
    let c = chart(vec![note(JangguStick::Gungchae, 1)], vec![note(JangguStick::Yeolchae, 1)]);
    let mut player = ChartPlayer::new(&c);
    assert_eq!(player.shown_accuracy(0), None);
    let mut j = JangguStateWithTick::new();
    j.update(JangguInputState { gungchae: Some(JangguFace::Gungpyeon), yeolchae: None }, 970);
    j.update(JangguInputState { gungchae: Some(JangguFace::Gungpyeon), yeolchae: Some(JangguFace::Yeolpyeon) }, 1050);
    // the left stick still rests on its face: only the right stick hits now
    player.judge(&j, false, 1050);
    assert!(player.is_processed(1));
    assert!(!player.is_processed(0));
    assert_eq!(
        player.shown_accuracy(1100),
        Some(ShownAccuracy { accuracy: NoteAccuracy::Great, combo: 1, elapsed: 50 })
    );
    let j = touch(Some(JangguFace::Gungpyeon), None, 1010);
    player.judge(&j, false, 1010);
    assert!(player.is_processed(0));
    assert_eq!(
        player.shown_accuracy(1010),
        Some(ShownAccuracy { accuracy: NoteAccuracy::Overchaos, combo: 2, elapsed: 0 })
    );
}

#[test]
fn worst_of_several_judgements() {
    let c = chart(vec![note(JangguStick::Gungchae, 1), note(JangguStick::Gungchae, 3)], vec![note(JangguStick::Yeolchae, 3)]);
    let mut player = ChartPlayer::new(&c);
    // at 3 s the note at 1 s is missed and the right stick hits the right face exactly
    let j = touch(None, Some(JangguFace::Yeolpyeon), 3000);
    player.judge(&j, false, 3000);
    assert_eq!(player.shown_accuracy(3000).map(|s| s.accuracy), Some(NoteAccuracy::Miss));
    assert!(player.is_processed(0));
    assert!(player.is_processed(2));
    assert!(!player.is_processed(1));
    let g = player.game_result();
    assert_eq!(g.miss_count, 1);
    assert_eq!(g.overchaos_count, 1);
}

#[test]
fn accuracy_disappears_after_display_duration() {
    let c = chart(vec![note(JangguStick::Gungchae, 1)], vec![]);
    let mut player = ChartPlayer::new(&c);
    let j = touch(Some(JangguFace::Gungpyeon), None, 1000);
    player.judge(&j, false, 1000);
    assert_eq!(
        player.shown_accuracy(1800),
        Some(ShownAccuracy { accuracy: NoteAccuracy::Overchaos, combo: 1, elapsed: 800 })
    );
    assert_eq!(
        player.shown_accuracy(200),
        Some(ShownAccuracy { accuracy: NoteAccuracy::Overchaos, combo: 1, elapsed: 800 })
    );
    assert_eq!(player.shown_accuracy(1801), None);
    // once dropped, it stays dropped
    assert_eq!(player.shown_accuracy(1000), None);
    // far-apart ticks do not overflow
    let mut player = ChartPlayer::new(&c);
    player.judge(&j, false, 1000);
    assert_eq!(player.shown_accuracy(i128::MIN), None);
}

#[test]
fn judging_nothing_keeps_the_accuracy() {
    let c = chart(vec![note(JangguStick::Gungchae, 1), note(JangguStick::Gungchae, 5)], vec![]);
    let mut player = ChartPlayer::new(&c);
    player.judge(&touch(Some(JangguFace::Gungpyeon), None, 1040), false, 1040);
    player.judge(&JangguStateWithTick::new(), false, 1200);
    assert_eq!(player.shown_accuracy(1200).map(|s| s.accuracy), Some(NoteAccuracy::Perfect));
    assert!(player.keydowns_fit(&JangguStateWithTick::new()));
}
