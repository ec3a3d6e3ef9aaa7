//! Controllers of the game: the janggu (sticks on faces) and the coin/bill
//! acceptor, read from the keyboard or from the serial port of the janggu
//! controller.
pub mod keyboard;
pub mod serial;

use vstd::prelude::*;
use crate::janggu::JangguInputState;

verus! {

/// Bidrum janggu controller.
pub trait JangguDevice {
    /// Reads janggu controller input state.
    fn read_janggu_input_state(&self) -> JangguInputState;
}

/// Bidrum coin/bill acceptor.
pub trait CoinInputDevice {
    /// Reads unconsumed coin count.
    fn get_unconsumed_coins(&self) -> u32;

    fn consume_coins(&mut self, coins: u32);
}

/// The coin count after one more inserted coin (wrapping at `u32::MAX`, as
/// the atomic counter of the device does).
pub open spec fn coins_plus(coins: u32, n: u32) -> u32 {
    ((coins as int + n as int) % 0x1_0000_0000) as u32
}

/// The coin count after consuming `n` coins (wrapping below 0).
pub open spec fn coins_minus(coins: u32, n: u32) -> u32 {
    ((coins as int - n as int + 0x1_0000_0000) % 0x1_0000_0000) as u32
}

pub fn wrapping_add_coins(coins: u32, n: u32) -> (r: u32)
    ensures
        r == coins_plus(coins, n),
{
    coins.wrapping_add(n)
}

pub fn wrapping_sub_coins(coins: u32, n: u32) -> (r: u32)
    ensures
        r == coins_minus(coins, n),
{
    coins.wrapping_sub(n)
}

/// A coin is counted when the coin signal rises: it is on now and was off
/// at the previous reading.
pub open spec fn coin_step(coins: u32, previous: bool, current: bool) -> u32 {
    if current && !previous {
        coins_plus(coins, 1)
    } else {
        coins
    }
}

/// Holding the coin signal on counts one coin, however often it is read.
pub proof fn lemma_held_signal_counts_once(coins: u32, previous: bool)
    ensures
        coin_step(coin_step(coins, previous, true), true, true) == coin_step(coins, previous, true),
{
}

/// Consuming coins undoes inserting them.
pub proof fn lemma_consume_undoes_insert(coins: u32, n: u32)
    ensures
        coins_minus(coins_plus(coins, n), n) == coins,
{
    let s = coins as int + n as int;
    if s >= 0x1_0000_0000 {
        assert(coins_plus(coins, n) == s - 0x1_0000_0000);
    } else {
        assert(coins_plus(coins, n) == s);
    }
}

/// The number of times a coin signal rises in a run of readings, the signal
/// having been `previous` before them.
pub open spec fn rising_edges(previous: bool, signals: Seq<bool>) -> nat
    decreases signals.len(),
{
    if signals.len() == 0 {
        0
    } else {
        (if signals[0] && !previous { 1nat } else { 0nat }) + rising_edges(signals[0], signals.drop_first())
    }
}

/// The coin count after a run of readings of the coin signal.
pub open spec fn coins_after(coins: u32, previous: bool, signals: Seq<bool>) -> u32
    decreases signals.len(),
{
    if signals.len() == 0 {
        coins
    } else {
        coins_after(coin_step(coins, previous, signals[0]), signals[0], signals.drop_first())
    }
}

/// Over any run of readings, the coin count goes up by the number of times
/// the signal rose (wrapping at `u32::MAX` as the counter does), and by
/// nothing while the signal stays on.
pub proof fn lemma_coins_count_rising_edges(coins: u32, previous: bool, signals: Seq<bool>)
    ensures
        coins_after(coins, previous, signals) == ((coins as int + rising_edges(previous, signals)) % 0x1_0000_0000) as u32,
    decreases signals.len(),
{
    if signals.len() > 0 {
        let c1 = coin_step(coins, previous, signals[0]);
        let e0: int = if signals[0] && !previous { 1 } else { 0 };
        lemma_coins_count_rising_edges(c1, signals[0], signals.drop_first());
        let rest = rising_edges(signals[0], signals.drop_first()) as int;
        assert(c1 as int == (coins as int + e0) % 0x1_0000_0000);
        vstd::arithmetic::div_mod::lemma_add_mod_noop(coins as int + e0, rest, 0x1_0000_0000);
        vstd::arithmetic::div_mod::lemma_mod_twice(coins as int + e0, 0x1_0000_0000);
        vstd::arithmetic::div_mod::lemma_small_mod(rest as nat % 0x1_0000_0000, 0x1_0000_0000);
        vstd::arithmetic::div_mod::lemma_add_mod_noop(c1 as int, rest, 0x1_0000_0000);
    } else {
        vstd::arithmetic::div_mod::lemma_small_mod(coins as nat, 0x1_0000_0000);
    }
}

} // verus!
