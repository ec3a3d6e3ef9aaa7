//! Janggu and coin input from the bytes that the janggu controller sends
//! over its serial port.
use vstd::prelude::*;
use crate::controller::{coin_step, coins_after, coins_minus, lemma_coins_count_rising_edges, rising_edges, wrapping_add_coins, wrapping_sub_coins, CoinInputDevice, JangguDevice};
use crate::janggu::{decode_bits, decode_janggu_bits, JangguInputState};

verus! {

/// The coin bit (16) of a controller byte.
pub fn has_coin_bit(bits: u8) -> (r: bool)
    ensures
        r == (bits & 16 != 0),
{
    bits & 16 != 0
}

pub fn parse_janggu_bits(bits: u8) -> (r: JangguInputState)
    ensures
        r == decode_janggu_bits(bits),
{
    decode_bits(bits)
}

/// Coin input from the controller's coin bit.
pub struct SerialCoinDevice {
    pub unconsumed_coins: u32,
    /// The coin bit at the previous reading.
    pub previous: bool,
}

impl SerialCoinDevice {
    pub fn new() -> (r: SerialCoinDevice)
        ensures
            r.unconsumed_coins == 0,
            !r.previous,
    {
        SerialCoinDevice { unconsumed_coins: 0, previous: false }
    }

    /// Reads a controller byte: a rising coin bit inserts one coin.
    pub fn read_bits(&mut self, bits: u8)
        ensures
            final(self).unconsumed_coins == coin_step(old(self).unconsumed_coins, old(self).previous, bits & 16 != 0),
            final(self).previous == (bits & 16 != 0),
    {
        let current = has_coin_bit(bits);
        if !self.previous && current {
            self.unconsumed_coins = wrapping_add_coins(self.unconsumed_coins, 1);
        }
        self.previous = current;
    }
}

impl CoinInputDevice for SerialCoinDevice {
    fn get_unconsumed_coins(&self) -> (r: u32)
        ensures
            r == self.unconsumed_coins,
    {
        self.unconsumed_coins
    }

    fn consume_coins(&mut self, coins: u32)
        ensures
            final(self).unconsumed_coins == coins_minus(old(self).unconsumed_coins, coins),
            final(self).previous == old(self).previous,
    {
        self.unconsumed_coins = wrapping_sub_coins(self.unconsumed_coins, coins);
    }
}

/// Janggu input from the controller, kept as the last byte read.
pub struct SerialJangguDevice {
    pub bits: u8,
}

impl SerialJangguDevice {
    pub fn new() -> (r: SerialJangguDevice)
        ensures
            r.bits == 0,
    {
        SerialJangguDevice { bits: 0 }
    }

    /// Reads a controller byte.
    pub fn read_bits(&mut self, bits: u8)
        ensures
            final(self).bits == bits,
    {
        self.bits = bits;
    }
}

impl JangguDevice for SerialJangguDevice {
    fn read_janggu_input_state(&self) -> (r: JangguInputState)
        ensures
            r == decode_janggu_bits(self.bits),
    {
        parse_janggu_bits(self.bits)
    }
}

/// The janggu device and the coin device of one controller, before any
/// byte is read.
pub fn new() -> (r: (SerialJangguDevice, SerialCoinDevice))
    ensures
        r.0.bits == 0,
        r.1.unconsumed_coins == 0,
        !r.1.previous,
{
    (SerialJangguDevice::new(), SerialCoinDevice::new())
}

/// The coin signal of each controller byte: bit 16.
pub open spec fn coin_bits(bytes: Seq<u8>) -> Seq<bool> {
    bytes.map_values(|b: u8| b & 16 != 0)
}

/// A coin device that reads controller bytes one after another from its
/// start (`read_bits` takes one `coin_step` each) counts one coin per rising
/// edge of bit 16, and none while the bit stays set.
pub proof fn lemma_serial_coins_count_rising_bit(bytes: Seq<u8>)
    ensures
        coins_after(0, false, coin_bits(bytes)) == (rising_edges(false, coin_bits(bytes)) % 0x1_0000_0000) as u32,
{
    lemma_coins_count_rising_edges(0, false, coin_bits(bytes));
}

} // verus!
