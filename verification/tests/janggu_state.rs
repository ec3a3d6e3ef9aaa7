use bidrum::game_player::input_effect::InputEffect;
use bidrum::game_player::janggu_state_with_tick::JangguStateWithTick;
use bidrum::janggu::{JangguFace, JangguInputState, JangguStick};

fn input(gungchae: Option<JangguFace>, yeolchae: Option<JangguFace>) -> JangguInputState {
    JangguInputState { gungchae, yeolchae }
}

#[test]
fn keydown_only_when_touching_a_new_face() {
    let mut j = JangguStateWithTick::new();
    j.update(input(Some(JangguFace::Gungpyeon), None), 100);
    assert!(j.gungchae.is_keydown_now);
    assert_eq!(j.gungchae.keydown_timing, 100);
    assert!(!j.yeolchae.is_keydown_now);
    j.update(input(Some(JangguFace::Gungpyeon), None), 150);
    assert!(!j.gungchae.is_keydown_now);
    assert_eq!(j.gungchae.keydown_timing, 100);
    // moving straight to the other face is a new keydown
    j.update(input(Some(JangguFace::Yeolpyeon), None), 200);
    assert!(j.gungchae.is_keydown_now);
    assert_eq!(j.gungchae.keydown_timing, 200);
    // lifting the stick records the time, no keydown
    j.update(input(None, None), 260);
    assert!(!j.gungchae.is_keydown_now);
    assert_eq!(j.gungchae.face, None);
    assert_eq!(j.gungchae.keydown_timing, 260);
    assert_eq!(j.get_by_stick(JangguStick::Gungchae), j.gungchae);
    assert_eq!(j.get_by_stick(JangguStick::Yeolchae), j.yeolchae);
}

#[test]
fn input_effect_tracks_faces() {
    let mut effect = InputEffect::new();
    let mut j = JangguStateWithTick::new();
    j.update(input(Some(JangguFace::Gungpyeon), Some(JangguFace::Yeolpyeon)), 100);
    effect.update(&j, 120);
    assert_eq!(effect.base_tick, 120);
    assert!(effect.left_face.pressed);
    assert_eq!(effect.left_face.keydown_timing, Some(100));
    assert!(effect.right_face.pressed);
    assert_eq!(effect.right_face.keydown_timing, Some(100));
    j.update(input(None, Some(JangguFace::Gungpyeon)), 300);
    effect.update(&j, 310);
    assert!(effect.left_face.pressed);
    assert_eq!(effect.left_face.keydown_timing, Some(300));
    assert!(!effect.right_face.pressed);
    assert_eq!(effect.right_face.keydown_timing, Some(100));
}
