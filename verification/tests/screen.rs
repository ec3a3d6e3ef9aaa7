use bidrum::game_player::effect_sound::ComboSoundState;
use bidrum::game_player::janggu_state_with_tick::JangguStateWithTick;
use bidrum::controller_wrapper::ControllerWrapper;
use bidrum::janggu::{JangguFace, JangguInputState};
use bidrum::screen::{
    another_stage, credit_display, fit_into_number_range, song_over, start_game_if_paid, tutorial_dialog_step,
    tutorial_seconds_left, tutorial_answer, wants_tutorial, CreditDisplay, DialogButton,
    InitGameOptions, MovingDirection, SongSelection,
};

#[test]
fn number_range_counts_around() {
    assert_eq!(fit_into_number_range(0, 5), 0);
    assert_eq!(fit_into_number_range(7, 5), 2);
    assert_eq!(fit_into_number_range(-1, 5), 4);
    assert_eq!(fit_into_number_range(-5, 5), 0);
    assert_eq!(fit_into_number_range(-6, 5), 4);
    assert_eq!(fit_into_number_range(i32::MIN, 3), 1);
    assert_eq!(fit_into_number_range(i32::MAX, 1), 0);
    // the bound is taken as an i32
    assert_eq!(fit_into_number_range(7, (1usize << 32) + 5), 2);
    // a bound that is negative as an i32 still works for a position that is not negative
    assert_eq!(fit_into_number_range(7, (1usize << 32) - 3), 1);
    assert_eq!(fit_into_number_range(0, (1usize << 32) - 3), 0);
    assert_eq!(fit_into_number_range(5, usize::MAX), 0);
}

#[test]
fn credit_line() {
    assert_eq!(credit_display(3, 0), CreditDisplay::FreePlay);
    assert_eq!(credit_display(3, 1), CreditDisplay::Credits(3));
    assert_eq!(credit_display(5, 2), CreditDisplay::PartialCredits { credits: 2, coins: 1, price: 2 });
    assert_eq!(credit_display(0, 3), CreditDisplay::PartialCredits { credits: 0, coins: 0, price: 3 });
}

#[test]
fn window_size_falls_back_to_display() {
    let options = InitGameOptions { width: Some(800), height: None, fullscreen: false, vsync: true, price: 2 };
    assert_eq!(options.window_size(1920, 1080), (800, 1080));
    let options = InitGameOptions { width: None, height: None, fullscreen: true, vsync: false, price: 0 };
    assert_eq!(options.window_size(1920, 1080), (1920, 1080));
}

#[test]
fn song_menu_moves_around() {
    let mut menu = SongSelection::new(3);
    assert!(menu.can_confirm());
    // moving left selects the next song once the items have moved 100
    menu.press(MovingDirection::Left, 1000);
    assert!(!menu.can_confirm());
    // a second key press during the move changes nothing
    menu.press(MovingDirection::Right, 1010);
    assert_eq!(menu.step(1050, 100), -50);
    assert_eq!(menu.step(1100, 100), -100);
    assert_eq!(menu.selected, 0);
    assert_eq!(menu.step(1101, 100), 0);
    assert_eq!(menu.selected, 1);
    assert!(menu.can_confirm());
    menu.press(MovingDirection::Left, 2000);
    menu.step(2200, 100);
    menu.press(MovingDirection::Left, 3000);
    menu.step(3200, 100);
    assert_eq!(menu.selected, 0);
    // moving right goes back around
    menu.press(MovingDirection::Right, 4000);
    assert_eq!(menu.step(4030, 100), 30);
    menu.step(4200, 100);
    assert_eq!(menu.selected, 2);
    assert_eq!(menu.step(5000, 100), 0);
    assert_eq!(menu.item_at(-1), 2);
    assert_eq!(menu.item_at(4), 1);
}

#[test]
fn tutorial_question() {
    let mut j = JangguStateWithTick::new();
    assert_eq!(tutorial_answer(&j), None);
    j.update(JangguInputState { gungchae: None, yeolchae: Some(JangguFace::Gungpyeon) }, 10);
    assert_eq!(tutorial_answer(&j), Some(DialogButton::Yes));
    j.update(JangguInputState { gungchae: Some(JangguFace::Yeolpyeon), yeolchae: Some(JangguFace::Gungpyeon) }, 20);
    assert_eq!(tutorial_answer(&j), Some(DialogButton::No));
    j.update(JangguInputState { gungchae: Some(JangguFace::Yeolpyeon), yeolchae: Some(JangguFace::Gungpyeon) }, 30);
    assert_eq!(tutorial_answer(&j), None);
    assert!(wants_tutorial(Some(DialogButton::Yes)));
    assert!(!wants_tutorial(Some(DialogButton::No)));
    assert!(wants_tutorial(None));
}

#[test]
fn combo_sound_plays_once_per_ten() {
    let mut s = ComboSoundState::new();
    assert!(!s.should_play(0));
    assert!(!s.should_play(9));
    assert!(s.should_play(10));
    assert!(!s.should_play(10));
    assert!(!s.should_play(11));
    assert!(s.should_play(20));
    assert!(!s.should_play(20));
    assert!(!s.should_play(0));
    assert!(s.should_play(20));
}

#[test]
fn title_starts_only_when_paid() {
    let mut c = ControllerWrapper::new();
    c.publish(1, JangguInputState { gungchae: None, yeolchae: None });
    assert!(!start_game_if_paid(&mut c, 2));
    assert_eq!(c.take_coins_to_consume(), 0);
    c.publish(3, JangguInputState { gungchae: None, yeolchae: None });
    assert!(start_game_if_paid(&mut c, 2));
    assert_eq!(c.take_coins_to_consume(), 2);
    assert!(start_game_if_paid(&mut c, 0));
    assert_eq!(c.take_coins_to_consume(), 0);
}

#[test]
fn tutorial_dialog_frames() {
    let idle = JangguStateWithTick::new();
    assert_eq!(tutorial_dialog_step(false, 3, &idle), None);
    assert_eq!(tutorial_dialog_step(true, 3, &idle), Some(false));
    assert_eq!(tutorial_dialog_step(false, 10, &idle), None);
    assert_eq!(tutorial_dialog_step(false, 11, &idle), Some(true));
    let mut j = JangguStateWithTick::new();
    j.update(JangguInputState { gungchae: Some(JangguFace::Yeolpyeon), yeolchae: None }, 5);
    assert_eq!(tutorial_dialog_step(false, 4, &j), Some(false));
    assert_eq!(tutorial_dialog_step(true, 4, &j), Some(false));
    let mut j = JangguStateWithTick::new();
    j.update(JangguInputState { gungchae: None, yeolchae: Some(JangguFace::Gungpyeon) }, 5);
    assert_eq!(tutorial_dialog_step(false, 4, &j), Some(true));
    assert_eq!(tutorial_seconds_left(0), 10);
    assert_eq!(tutorial_seconds_left(7), 3);
    assert_eq!(tutorial_seconds_left(12), 0);
}

#[test]
fn stages_and_song_end() {
    assert!(another_stage(0));
    assert!(another_stage(2));
    assert!(!another_stage(3));
    assert!(song_over(true, -100, true));
    assert!(!song_over(false, -100, false));
    assert!(!song_over(false, 0, false));
    assert!(song_over(false, 1, false));
    assert!(!song_over(false, 1, true));
}
