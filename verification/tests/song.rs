use bidrum::song::{
    beat, level_of_file_name, note_timing_fits, timing_in_ms, GameChart, GameHatNote, GameNote, LevelFileName,
};
use bidrum::janggu::{JangguFace, JangguStick};

fn note(stick: JangguStick, beat_index: u64, tick_nomiator: i64, tick_denomiator: i64) -> GameNote {
    GameNote { stick, beat_index, tick_nomiator, tick_denomiator, id: 0, face: JangguFace::Gungpyeon }
}

#[test]
fn beat_is_reduced() {
    let b = beat(1, 2, 4);
    assert_eq!((b.numer, b.denom), (3, 2));
    let b = beat(2, 0, 0);
    assert_eq!((b.numer, b.denom), (2, 1));
    let b = beat(0, 1, -2);
    assert_eq!((b.numer, b.denom), (-1, 2));
    let b = beat(3, 6, 3);
    assert_eq!((b.numer, b.denom), (5, 1));
    let b = note(JangguStick::Gungchae, 4, 1, 3).beat();
    assert_eq!((b.numer, b.denom), (13, 3));
}

#[test]
fn timing_of_beats() {
    // a beat and a half at 120 bpm
    assert_eq!(note(JangguStick::Gungchae, 1, 1, 2).timing_in_ms(120, 0), 750);
    // two beats and a quarter at 100 bpm, 50 ms late
    assert_eq!(note(JangguStick::Yeolchae, 2, 1, 4).timing_in_ms(100, 50), 1400);
    // no fraction
    assert_eq!(note(JangguStick::Gungchae, 3, 7, 0).timing_in_ms(60, 0), 3000);
    // truncated toward zero: 1/3 beat at 70 bpm is 285.7 ms
    assert_eq!(note(JangguStick::Gungchae, 0, 1, 3).timing_in_ms(70, 0), 285);
    assert_eq!(timing_in_ms(beat(1, 1, 2), 120, 10), 760);
    let hat = GameHatNote { beat_index: 4, tick_nomiator: 0, tick_denomiator: 0, id: 9 };
    assert_eq!(hat.timing_in_ms(120, 100), 2100);
}

#[test]
fn negative_timing_wraps_like_a_cast() {
    // beat index u64::MAX is read as -1: -500 ms, taken as a u64
    let n = note(JangguStick::Gungchae, u64::MAX, 0, 0);
    assert!(n.timing_fits(120, 0));
    assert_eq!(n.timing_in_ms(120, 0), (-500i64) as u64);
    assert!(!n.timing_fits(120, 1000));
}

#[test]
fn timing_fits_rejects_overflow() {
    assert!(note(JangguStick::Gungchae, 1, 1, 2).timing_fits(120, 0));
    assert!(!note(JangguStick::Gungchae, 1, 1, 2).timing_fits(0, 0));
    assert!(!note(JangguStick::Gungchae, 1, i64::MIN, -1).timing_fits(120, 0));
    // -2^63 / -2 is 2^62: the position fits, its timing does not
    assert!(!note(JangguStick::Gungchae, 1, i64::MIN, -2).timing_fits(120, 0));
    // a quarter beat before the start wraps around, and no delay fits after it
    assert!(note_timing_fits(0, -1, 4, 60, 0));
    assert!(!note_timing_fits(0, -1, 4, 60, 1000));
    assert!(!note(JangguStick::Gungchae, i64::MAX as u64, 1, 2).timing_fits(120, 0));
    assert!(!note(JangguStick::Gungchae, 1 << 50, 0, 0).timing_fits(1, 0));
    assert!(note(JangguStick::Gungchae, 1 << 20, 0, 0).timing_fits(1, 0));
    assert!(note(JangguStick::Gungchae, 0, 0, 0).timing_fits(120, u64::MAX));
    assert!(!note(JangguStick::Gungchae, 1, 0, 0).timing_fits(120, u64::MAX));
}

#[test]
fn note_ids_follow_chart_order() {
    let mut chart = GameChart {
        artist: String::from("artist"),
        delay: 0,
        bpm: 120,
        left_face: vec![note(JangguStick::Gungchae, 1, 0, 0), note(JangguStick::Yeolchae, 2, 0, 0)],
        right_face: vec![note(JangguStick::Gungchae, 1, 0, 0), note(JangguStick::Gungchae, 3, 0, 0), note(JangguStick::Yeolchae, 5, 1, 2)],
        hats: vec![],
    };
    chart.assign_note_ids();
    let left: Vec<(u64, JangguFace)> = chart.left_face.iter().map(|n| (n.id, n.face)).collect();
    let right: Vec<(u64, JangguFace)> = chart.right_face.iter().map(|n| (n.id, n.face)).collect();
    assert_eq!(left, vec![(0, JangguFace::Gungpyeon), (1, JangguFace::Gungpyeon)]);
    assert_eq!(right, vec![(2, JangguFace::Yeolpyeon), (3, JangguFace::Yeolpyeon), (4, JangguFace::Yeolpyeon)]);
    assert_eq!(chart.right_face[2].stick, JangguStick::Yeolchae);
    assert_eq!(chart.right_face[2].beat_index, 5);
}

#[test]
fn level_file_names() {
    assert_eq!(level_of_file_name(b"12.json"), LevelFileName::Level(12));
    assert_eq!(level_of_file_name(b"0.json"), LevelFileName::Level(0));
    assert_eq!(level_of_file_name(b"007.json"), LevelFileName::Level(7));
    assert_eq!(level_of_file_name(b"4294967295.json"), LevelFileName::Level(u32::MAX));
    assert_eq!(level_of_file_name(b"4294967296.json"), LevelFileName::LevelOutOfRange);
    assert_eq!(level_of_file_name(b"99999999999999999999999.json"), LevelFileName::LevelOutOfRange);
    assert_eq!(level_of_file_name(b".json"), LevelFileName::NotALevel);
    assert_eq!(level_of_file_name(b"a.json"), LevelFileName::NotALevel);
    assert_eq!(level_of_file_name(b"1a.json"), LevelFileName::NotALevel);
    assert_eq!(level_of_file_name(b"-1.json"), LevelFileName::NotALevel);
    assert_eq!(level_of_file_name(b"12.json.bak"), LevelFileName::NotALevel);
    assert_eq!(level_of_file_name(b"12.JSON"), LevelFileName::NotALevel);
    assert_eq!(level_of_file_name(b"info.json"), LevelFileName::NotALevel);
    assert_eq!(level_of_file_name(b"12json"), LevelFileName::NotALevel);
    assert_eq!(level_of_file_name(b""), LevelFileName::NotALevel);
}
