//! Janggu and coin input from the keyboard: D/F for the left stick on the
//! left/right face, J/K for the right stick on the left/right face, C for a
//! coin.
use vstd::prelude::*;
use crate::controller::{coin_step, coins_minus, wrapping_add_coins, wrapping_sub_coins, CoinInputDevice, JangguDevice};
use crate::janggu::{decode_bits, decode_janggu_bits, JangguInputState};

verus! {

/// Coin input from the C key.
pub struct KeyboardCoinDevice {
    pub unconsumed_coins: u32,
    /// Whether the C key was down at the previous reading.
    pub pressed: bool,
}

impl KeyboardCoinDevice {
    pub fn new() -> (r: KeyboardCoinDevice)
        ensures
            r.unconsumed_coins == 0,
            !r.pressed,
    {
        KeyboardCoinDevice { unconsumed_coins: 0, pressed: false }
    }

    /// Reads the C key: pressing it down inserts one coin.
    pub fn read_coin_key(&mut self, new_pressed: bool)
        ensures
            final(self).unconsumed_coins == coin_step(old(self).unconsumed_coins, old(self).pressed, new_pressed),
            final(self).pressed == new_pressed,
    {
        if new_pressed && !self.pressed {
            // one coin on keydown
            self.unconsumed_coins = wrapping_add_coins(self.unconsumed_coins, 1);
        }
        self.pressed = new_pressed;
    }
}

impl CoinInputDevice for KeyboardCoinDevice {
    fn get_unconsumed_coins(&self) -> (r: u32)
        ensures
            r == self.unconsumed_coins,
    {
        self.unconsumed_coins
    }

    fn consume_coins(&mut self, coins: u32)
        ensures
            final(self).unconsumed_coins == coins_minus(old(self).unconsumed_coins, coins),
            final(self).pressed == old(self).pressed,
    {
        self.unconsumed_coins = wrapping_sub_coins(self.unconsumed_coins, coins);
    }
}

/// Janggu input from the keyboard, kept as the controller byte.
pub struct KeyboardJangguDevice {
    pub state: u8,
}

/// The controller byte of the keys that are down: D (or else F) for the left
/// stick, J (or else K) for the right stick.
pub open spec fn keys_to_bits(d: bool, f: bool, j: bool, k: bool) -> u8 {
    (if d { 1u8 } else if f { 2u8 } else { 0u8 }) | (if j { 4u8 } else if k { 8u8 } else { 0u8 })
}

pub fn keyboard_to_bits(d: bool, f: bool, j: bool, k: bool) -> (r: u8)
    ensures
        r == keys_to_bits(d, f, j, k),
{
    let mut bits: u8 = 0;
    if d {
        bits = bits | 1;
    } else if f {
        bits = bits | 2;
    }
    if j {
        bits = bits | 4;
    } else if k {
        bits = bits | 8;
    }
    assert(0u8 | 1u8 == 1u8 && 0u8 | 2u8 == 2u8) by (bit_vector);
    assert(forall|x: u8| #![auto] x | 0u8 == x) by (bit_vector);
    assert(forall|x: u8| #![auto] 0u8 | x == x) by (bit_vector);
    bits
}

pub fn bits_to_janggu_input_state(bits: u8) -> (r: JangguInputState)
    ensures
        r == decode_janggu_bits(bits),
{
    decode_bits(bits)
}

impl KeyboardJangguDevice {
    pub fn new() -> (r: KeyboardJangguDevice)
        ensures
            r.state == 0,
    {
        KeyboardJangguDevice { state: 0 }
    }

    /// Reads which of the keys D, F, J, K are down.
    pub fn read_keys(&mut self, d: bool, f: bool, j: bool, k: bool)
        ensures
            final(self).state == keys_to_bits(d, f, j, k),
    {
        self.state = keyboard_to_bits(d, f, j, k);
    }
}

impl JangguDevice for KeyboardJangguDevice {
    fn read_janggu_input_state(&self) -> (r: JangguInputState)
        ensures
            r == decode_janggu_bits(self.state),
    {
        bits_to_janggu_input_state(self.state)
    }
}

} // verus!
