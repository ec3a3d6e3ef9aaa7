use bidrum::game_player::janggu_state_with_tick::JangguStateWithTick;
use bidrum::janggu::{JangguFace, JangguInputState, JangguStick};
use bidrum::recorder::{delay_stats, janggu_face_to_one_letter_str, measured_delay, ChartRecording, DelayStats};

fn touch(gungchae: Option<JangguFace>, yeolchae: Option<JangguFace>, time: i128) -> JangguStateWithTick {
    let mut j = JangguStateWithTick::new();
    j.update(JangguInputState { gungchae, yeolchae }, time);
    j
}

#[test]
fn face_letters() {
    assert_eq!(janggu_face_to_one_letter_str(Some(&JangguFace::Gungpyeon)), "L");
    assert_eq!(janggu_face_to_one_letter_str(Some(&JangguFace::Yeolpyeon)), "R");
    assert_eq!(janggu_face_to_one_letter_str(None), "_");
}

#[test]
fn recorded_hits_become_sorted_notes() {
    let mut rec = ChartRecording::new();
    // right stick on the left face in split 5, left stick on the left face in split 5 and 2
    rec.record(5, &touch(None, Some(JangguFace::Gungpyeon), 0));
    rec.record(5, &touch(Some(JangguFace::Gungpyeon), None, 0));
    rec.record(2, &touch(Some(JangguFace::Gungpyeon), None, 0));
    // left stick on the right face in split 7, then again in split 7 on the left face
    rec.record(7, &touch(Some(JangguFace::Yeolpyeon), None, 0));
    rec.record(7, &touch(Some(JangguFace::Gungpyeon), None, 0));
    // a stick resting on a face records nothing
    let mut resting = touch(None, Some(JangguFace::Yeolpyeon), 0);
    resting.update(JangguInputState { gungchae: None, yeolchae: Some(JangguFace::Yeolpyeon) }, 1);
    rec.record(9, &resting);

    let left = rec.face_notes(JangguFace::Gungpyeon, 4);
    let got: Vec<(JangguStick, u64, i64, i64)> =
        left.iter().map(|n| (n.stick, n.beat_index, n.tick_nomiator, n.tick_denomiator)).collect();
    assert_eq!(
        got,
        vec![
            (JangguStick::Gungchae, 0, 2, 4),
            (JangguStick::Gungchae, 1, 1, 4),
            (JangguStick::Yeolchae, 1, 1, 4),
            (JangguStick::Gungchae, 1, 3, 4),
        ]
    );
    let right = rec.face_notes(JangguFace::Yeolpyeon, 4);
    assert!(right.is_empty());
}

#[test]
fn right_face_hits() {
    let mut rec = ChartRecording::new();
    rec.record(12, &touch(Some(JangguFace::Yeolpyeon), Some(JangguFace::Yeolpyeon), 0));
    rec.record(3, &touch(None, Some(JangguFace::Yeolpyeon), 0));
    let right = rec.face_notes(JangguFace::Yeolpyeon, 8);
    let got: Vec<(JangguStick, u64, i64)> = right.iter().map(|n| (n.stick, n.beat_index, n.tick_nomiator)).collect();
    assert_eq!(got, vec![(JangguStick::Yeolchae, 0, 3), (JangguStick::Gungchae, 1, 4), (JangguStick::Yeolchae, 1, 4)]);
}

#[test]
fn delay_measurement() {
    assert_eq!(measured_delay(true, 1200, 1000), Some(200));
    assert_eq!(measured_delay(true, 999, 1000), None);
    assert_eq!(measured_delay(false, 1200, 1000), None);
    assert_eq!(measured_delay(true, 1000, 1000), Some(0));
    assert_eq!(delay_stats(&vec![]), None);
    assert_eq!(delay_stats(&vec![120, 80, 95]), Some(DelayStats { min: 80, max: 120, average: 98 }));
    assert_eq!(delay_stats(&vec![7]), Some(DelayStats { min: 7, max: 7, average: 7 }));
}
