use bidrum::controller::keyboard::{KeyboardCoinDevice, KeyboardJangguDevice};
use bidrum::controller::serial::{self, SerialCoinDevice};
use bidrum::controller::{wrapping_add_coins, wrapping_sub_coins, CoinInputDevice, JangguDevice};
use bidrum::controller_wrapper::ControllerWrapper;
use bidrum::janggu::{JangguFace, JangguInputState};

#[test]
fn keyboard_coin_counts_keydowns() {
    let mut coins = KeyboardCoinDevice::new();
    assert_eq!(coins.get_unconsumed_coins(), 0);
    coins.read_coin_key(true);
    coins.read_coin_key(true);
    coins.read_coin_key(true);
    assert_eq!(coins.get_unconsumed_coins(), 1);
    coins.read_coin_key(false);
    coins.read_coin_key(true);
    assert_eq!(coins.get_unconsumed_coins(), 2);
    coins.consume_coins(2);
    assert_eq!(coins.get_unconsumed_coins(), 0);
}

#[test]
fn serial_coin_counts_rising_bits() {
    let mut coins = SerialCoinDevice::new();
    coins.read_bits(0);
    coins.read_bits(16);
    coins.read_bits(16 | 1);
    assert_eq!(coins.get_unconsumed_coins(), 1);
    coins.read_bits(1);
    coins.read_bits(16);
    assert_eq!(coins.get_unconsumed_coins(), 2);
    coins.consume_coins(1);
    assert_eq!(coins.get_unconsumed_coins(), 1);
}

#[test]
fn consuming_more_coins_than_inserted_wraps() {
    let mut coins = KeyboardCoinDevice::new();
    coins.consume_coins(1);
    assert_eq!(coins.get_unconsumed_coins(), u32::MAX);
    coins.read_coin_key(true);
    assert_eq!(coins.get_unconsumed_coins(), 0);
    assert_eq!(wrapping_add_coins(u32::MAX, 2), 1);
    assert_eq!(wrapping_sub_coins(1, 3), u32::MAX - 1);
}

#[test]
fn serial_devices_share_one_byte() {
    let (mut janggu, mut coins) = serial::new();
    assert_eq!(janggu.read_janggu_input_state(), JangguInputState { gungchae: None, yeolchae: None });
    assert_eq!(coins.get_unconsumed_coins(), 0);
    let byte = 16 | 2 | 4;
    janggu.read_bits(byte);
    coins.read_bits(byte);
    assert_eq!(
        janggu.read_janggu_input_state(),
        JangguInputState { gungchae: Some(JangguFace::Yeolpyeon), yeolchae: Some(JangguFace::Gungpyeon) }
    );
    assert_eq!(coins.get_unconsumed_coins(), 1);
}

#[test]
fn keyboard_janggu_reads_keys() {
    let mut janggu = KeyboardJangguDevice::new();
    assert_eq!(janggu.read_janggu_input_state(), JangguInputState { gungchae: None, yeolchae: None });
    janggu.read_keys(false, true, true, false);
    assert_eq!(
        janggu.read_janggu_input_state(),
        JangguInputState { gungchae: Some(JangguFace::Yeolpyeon), yeolchae: Some(JangguFace::Gungpyeon) }
    );
    janggu.read_keys(true, true, false, true);
    assert_eq!(
        janggu.read_janggu_input_state(),
        JangguInputState { gungchae: Some(JangguFace::Gungpyeon), yeolchae: Some(JangguFace::Yeolpyeon) }
    );
}

#[test]
fn wrapper_reads_what_was_published() {
    let mut wrapper = ControllerWrapper::new();
    assert_eq!(wrapper.get_coins(), 0);
    assert_eq!(wrapper.read_janggu_state(), JangguInputState { gungchae: None, yeolchae: None });
    let state = JangguInputState { gungchae: Some(JangguFace::Gungpyeon), yeolchae: None };
    wrapper.publish(7, state);
    assert_eq!(wrapper.get_coins(), 7);
    assert_eq!(wrapper.read_janggu_state(), state);
}

#[test]
fn wrapper_collects_coins_to_consume() {
    let mut wrapper = ControllerWrapper::new();
    wrapper.consume_coins(2);
    wrapper.consume_coins(3);
    assert_eq!(wrapper.take_coins_to_consume(), 5);
    assert_eq!(wrapper.take_coins_to_consume(), 0);
    wrapper.consume_coins(u32::MAX);
    wrapper.consume_coins(2);
    assert_eq!(wrapper.take_coins_to_consume(), 1);
}

#[test]
fn wrapper_and_device_loop_together() {
    let mut wrapper = ControllerWrapper::new();
    let mut device = KeyboardCoinDevice::new();
    device.read_coin_key(true);
    device.read_coin_key(false);
    device.read_coin_key(true);
    wrapper.publish(device.get_unconsumed_coins(), JangguInputState { gungchae: None, yeolchae: None });
    assert_eq!(wrapper.get_coins(), 2);
    wrapper.consume_coins(2);
    let n = wrapper.take_coins_to_consume();
    device.consume_coins(n);
    wrapper.publish(device.get_unconsumed_coins(), JangguInputState { gungchae: None, yeolchae: None });
    assert_eq!(wrapper.get_coins(), 0);
}

#[test]
fn serial_coins_count_rising_edges_over_polls() {
    let bytes = [0u8, 16, 16, 17, 0, 16, 0, 0, 31, 16, 2, 16];
    let mut coins = SerialCoinDevice::new();
    let mut edges = 0;
    let mut previous = false;
    for b in bytes {
        coins.read_bits(b);
        let current = b & 16 != 0;
        if current && !previous {
            edges += 1;
        }
        previous = current;
    }
    assert_eq!(edges, 4);
    assert_eq!(coins.get_unconsumed_coins(), 4);
}

#[test]
fn consume_requests_reach_the_device_once() {
    let mut wrapper = ControllerWrapper::new();
    let mut device = KeyboardCoinDevice::new();
    for _ in 0..5 {
        device.read_coin_key(true);
        device.read_coin_key(false);
    }
    wrapper.publish(device.get_unconsumed_coins(), JangguInputState { gungchae: None, yeolchae: None });
    wrapper.consume_coins(2);
    wrapper.consume_coins(1);
    assert_eq!(wrapper.get_coins(), 5);
    let n = wrapper.take_coins_to_consume();
    device.consume_coins(n);
    let n = wrapper.take_coins_to_consume();
    device.consume_coins(n);
    wrapper.publish(device.get_unconsumed_coins(), JangguInputState { gungchae: None, yeolchae: None });
    assert_eq!(wrapper.get_coins(), 2);
}
