//! The game's view of the controllers: the latest janggu byte, the coin
//! count, and the coins that the game wants consumed.
use vstd::prelude::*;
use crate::controller::{coins_minus, coins_plus, wrapping_add_coins};
use crate::janggu::{
    decode_bits, decode_janggu_bits, encode_janggu_state, face_bits, lemma_decode_encode, JangguFace,
    JangguInputState,
};

verus! {

pub fn janggu_state_to_u8(state: JangguInputState) -> (r: u8)
    ensures
        r == encode_janggu_state(state),
{
    let mut result: u8 = 0;
    let left: u8 = match state.gungchae {
        Some(JangguFace::Gungpyeon) => 1,
        Some(JangguFace::Yeolpyeon) => 2,
        _ => 0,
    };
    let right: u8 = match state.yeolchae {
        Some(JangguFace::Gungpyeon) => 4,
        Some(JangguFace::Yeolpyeon) => 8,
        _ => 0,
    };
    result = result | left;
    result = result | right;
    assert(forall|x: u8| #![auto] 0u8 | x == x) by (bit_vector);
    assert(left == face_bits(state.gungchae, 1, 2));
    assert(right == face_bits(state.yeolchae, 4, 8));
    result
}

pub fn u8_to_janggu_state(bits: u8) -> (r: JangguInputState)
    ensures
        r == decode_janggu_bits(bits),
{
    decode_bits(bits)
}

/// The controller state shared between the game and the device loop.
pub struct ControllerWrapper {
    pub janggu_state: u8,
    pub coins: u32,
    pub coins_to_consume: u32,
}

impl ControllerWrapper {
    /// Nothing read yet: no stick on a face, no coin, nothing to consume.
    pub fn new() -> (r: ControllerWrapper)
        ensures
            r.janggu_state == 0,
            r.coins == 0,
            r.coins_to_consume == 0,
    {
        ControllerWrapper { janggu_state: 0, coins: 0, coins_to_consume: 0 }
    }

    pub fn read_janggu_state(&self) -> (r: JangguInputState)
        ensures
            r == decode_janggu_bits(self.janggu_state),
    {
        u8_to_janggu_state(self.janggu_state)
    }

    pub fn get_coins(&self) -> (r: u32)
        ensures
            r == self.coins,
    {
        self.coins
    }

    /// Asks the device loop to consume coins (adding up, wrapping as the
    /// atomic counter does).
    pub fn consume_coins(&mut self, coins: u32)
        ensures
            final(self).coins_to_consume == coins_plus(old(self).coins_to_consume, coins),
            final(self).coins == old(self).coins,
            final(self).janggu_state == old(self).janggu_state,
    {
        self.coins_to_consume = wrapping_add_coins(self.coins_to_consume, coins);
    }

    /// For the device loop: takes the coins to consume, leaving none.
    pub fn take_coins_to_consume(&mut self) -> (r: u32)
        ensures
            r == old(self).coins_to_consume,
            final(self).coins_to_consume == 0,
            final(self).coins == old(self).coins,
            final(self).janggu_state == old(self).janggu_state,
    {
        let consume = self.coins_to_consume;
        self.coins_to_consume = 0;
        consume
    }

    /// For the device loop: publishes the devices' coin count and janggu
    /// state.
    pub fn publish(&mut self, coins: u32, state: JangguInputState)
        ensures
            final(self).coins == coins,
            final(self).janggu_state == encode_janggu_state(state),
            final(self).coins_to_consume == old(self).coins_to_consume,
    {
        self.coins = coins;
        self.janggu_state = janggu_state_to_u8(state);
    }
}

/// The game reads back exactly the janggu state that the device loop
/// published.
pub proof fn lemma_read_gives_published(state: JangguInputState)
    ensures
        decode_janggu_bits(encode_janggu_state(state)) == state,
{
    lemma_decode_encode(state);
}

proof fn lemma_mod_shift(a: int, b: int)
    ensures
        (a % 0x1_0000_0000 + b) % 0x1_0000_0000 == (a + b) % 0x1_0000_0000,
{
    vstd::arithmetic::div_mod::lemma_add_mod_noop(a, b, 0x1_0000_0000);
    vstd::arithmetic::div_mod::lemma_add_mod_noop(a % 0x1_0000_0000, b, 0x1_0000_0000);
    vstd::arithmetic::div_mod::lemma_mod_twice(a, 0x1_0000_0000);
}

/// Requests to consume coins add up while they wait, and the device loop
/// hands them to the coin device at once: consuming the pending amount of
/// two requests consumes both, one after the other; with nothing pending
/// before and enough coins in, exactly `c1 + c2` coins are gone.
pub proof fn lemma_consume_handoff(unconsumed: u32, pending: u32, c1: u32, c2: u32)
    ensures
        coins_minus(unconsumed, coins_plus(coins_plus(pending, c1), c2)) == coins_minus(
            coins_minus(coins_minus(unconsumed, pending), c1),
            c2,
        ),
        pending == 0 && c1 + c2 <= unconsumed ==> coins_minus(
            unconsumed,
            coins_plus(coins_plus(pending, c1), c2),
        ) == unconsumed - c1 - c2,
{
    let m: int = 0x1_0000_0000;
    let u = unconsumed as int;
    let p = pending as int;
    let a = c1 as int;
    let b = c2 as int;
    // the left side
    let s1 = (p + a) % m;
    let s2 = (s1 + b) % m;
    lemma_mod_shift(p + a, b);
    assert(s2 == (p + a + b) % m);
    assert((u - s2 + m) % m == (u - (p + a + b)) % m) by {
        vstd::arithmetic::div_mod::lemma_fundamental_div_mod(p + a + b, m);
        let q = (p + a + b) / m;
        assert(u - s2 + m == (u - (p + a + b) + m) + m * q) by (nonlinear_arith)
            requires
                p + a + b == m * q + s2,
        ;
        vstd::arithmetic::div_mod::lemma_mod_multiples_vanish(q, u - (p + a + b) + m, m);
        vstd::arithmetic::div_mod::lemma_mod_multiples_vanish(1, u - (p + a + b), m);
    }
    // the right side
    let t1 = (u - p + m) % m;
    let t2 = (t1 - a + m) % m;
    let t3 = (t2 - b + m) % m;
    lemma_mod_shift(u - p + m, -a + m);
    lemma_mod_shift(u - p + m - a + m, -b + m);
    assert(t3 == (u - p + m - a + m - b + m) % m);
    assert(u - p + m - a + m - b + m == (u - (p + a + b)) + m * 3);
    vstd::arithmetic::div_mod::lemma_mod_multiples_vanish(3, u - (p + a + b), m);
    if pending == 0 && c1 + c2 <= unconsumed {
        vstd::arithmetic::div_mod::lemma_small_mod((u - a - b) as nat, m as nat);
    }
}

} // verus!
