//! Songs, charts and notes, and the timing of a note in a chart.
use vstd::prelude::*;
use crate::fraction::{
    add_fits, add_ok, add_terms, add_terms_exec, lemma_add_terms_value, lemma_mul_terms_value,
    lemma_reduce_value, lemma_same_value_trans, lemma_trunc_value, mul_fits, mul_ok, mul_terms,
    new_fits, ratio_add, ratio_mul, ratio_new, ratio_new_ok, reduce, reduce_exec, same_value,
    trunc_div, trunc_div_exec, gcd, Fraction,
};
use crate::janggu::{JangguFace, JangguStick};

verus! {

#[derive(Debug, Clone, Copy, PartialEq, Eq, Structural)]
pub enum GameSongCategory {
    Kpop,
    TraditionalKpop,
    Jpop,
    Varierty,
}

/// A song of the song directory, with the paths of its files.
#[derive(Debug, Clone)]
pub struct GameSong {
    /// The song's directory.
    pub path: String,
    pub title: String,
    pub artist: String,
    pub category: GameSongCategory,
    pub audio_filename: String,
    pub video_filename: String,
    pub cover_image_filename: String,
    pub levels: Vec<u32>,
}

/// A note that a stick has to hit on a face, at a position given in beats:
/// `beat_index + tick_nomiator / tick_denomiator` (no fraction when the
/// denominator is 0).
#[derive(Debug, Clone, Copy, PartialEq, Eq, Structural)]
pub struct GameNote {
    pub stick: JangguStick,
    pub beat_index: u64,
    pub tick_nomiator: i64,
    pub tick_denomiator: i64,
    pub id: u64,
    pub face: JangguFace,
}

/// A note for the hat: the player has to spin around at its position.
#[derive(Debug, Clone, Copy, PartialEq, Eq, Structural)]
pub struct GameHatNote {
    pub beat_index: u64,
    pub tick_nomiator: i64,
    pub tick_denomiator: i64,
    pub id: u64,
}

/// A chart of one level of a song: tempo, delay of the first beat in
/// milliseconds and the notes of each face and of the hat.
#[derive(Debug, Clone)]
pub struct GameChart {
    pub artist: String,
    pub delay: u64,
    pub bpm: u32,
    pub left_face: Vec<GameNote>,
    pub right_face: Vec<GameNote>,
    pub hats: Vec<GameHatNote>,
}

/// The exact position in beats, as an unreduced fraction.
pub open spec fn beat_value(beat_index: int, tick_nomiator: int, tick_denomiator: int) -> (int, int) {
    if tick_denomiator == 0 {
        (beat_index, 1)
    } else {
        (beat_index * tick_denomiator + tick_nomiator, tick_denomiator)
    }
}

/// The fractional part as `Rational64` holds it.
pub open spec fn tick_part(tick_nomiator: int, tick_denomiator: int) -> (int, int) {
    if tick_denomiator == 0 {
        (0, 1)
    } else {
        reduce(tick_nomiator, tick_denomiator)
    }
}

/// The position in beats as `Rational64` computes it.
pub open spec fn beat_reduced(beat_index: int, tick_nomiator: int, tick_denomiator: int) -> (int, int) {
    let t = add_terms(reduce(beat_index, 1), tick_part(tick_nomiator, tick_denomiator));
    reduce(t.0, t.1)
}

/// Computing the position in beats overflows no `i64`.
pub open spec fn beat_ok(beat_index: int, tick_nomiator: int, tick_denomiator: int) -> bool {
    &&& (tick_denomiator != 0 ==> ratio_new_ok(tick_nomiator, tick_denomiator))
    &&& add_ok(reduce(beat_index, 1), tick_part(tick_nomiator, tick_denomiator))
}

/// The timing in milliseconds of a position in beats: the position times
/// 60000 / bpm, truncated toward zero and taken as a `u64` (wrapping),
/// plus the delay.
pub open spec fn timing_value(beat: (int, int), bpm: int, delay: int) -> int {
    (trunc_div(beat.0 * 60000, beat.1 * bpm) as u64) + delay
}

/// Computing the timing overflows nothing: the tempo is positive, the
/// product in `Rational64` fits and adding the delay fits in a `u64`.
pub open spec fn timing_ok(beat: (int, int), bpm: int, delay: int) -> bool {
    &&& bpm > 0
    &&& mul_ok(beat, reduce(60000, bpm))
    &&& timing_value(beat, bpm, delay) <= u64::MAX
}

proof fn lemma_beat_value(beat_index: int, tick_nomiator: int, tick_denomiator: int)
    requires
        beat_ok(beat_index, tick_nomiator, tick_denomiator),
    ensures
        beat_reduced(beat_index, tick_nomiator, tick_denomiator).1 > 0,
        same_value(
            beat_reduced(beat_index, tick_nomiator, tick_denomiator),
            beat_value(beat_index, tick_nomiator, tick_denomiator),
        ),
{
    let a = reduce(beat_index, 1);
    let b = tick_part(tick_nomiator, tick_denomiator);
    let v = beat_value(beat_index, tick_nomiator, tick_denomiator);
    lemma_reduce_value(beat_index, 1);
    if tick_denomiator != 0 {
        lemma_reduce_value(tick_nomiator, tick_denomiator);
    }
    assert(b.0 * v.1 == v.0 * b.1 - beat_index * v.1 * b.1) by (nonlinear_arith)
        requires
            tick_denomiator == 0 ==> b == (0int, 1int) && v == (beat_index, 1int),
            tick_denomiator != 0 ==> b.0 * tick_denomiator == tick_nomiator * b.1 && v == (
                beat_index * tick_denomiator + tick_nomiator,
                tick_denomiator,
            ),
    ;
    lemma_add_terms_value(a, b);
    let t = add_terms(a, b);
    let s = (a.0 * b.1 + b.0 * a.1, a.1 * b.1);
    lemma_reduce_value(t.0, t.1);
    let r = reduce(t.0, t.1);
    assert(r.0 * t.1 == t.0 * r.1);
    let (a0, a1, b0, b1, v0, v1) = (a.0, a.1, b.0, b.1, v.0, v.1);
    assert(a0 == beat_index * a1);
    assert(a0 * b1 * v1 == beat_index * a1 * b1 * v1) by (nonlinear_arith)
        requires
            a0 == beat_index * a1,
    ;
    assert(b0 * a1 * v1 == a1 * (v0 * b1 - beat_index * v1 * b1)) by (nonlinear_arith)
        requires
            b0 * v1 == v0 * b1 - beat_index * v1 * b1,
    ;
    assert((a0 * b1 + b0 * a1) * v1 == a0 * b1 * v1 + b0 * a1 * v1) by (nonlinear_arith);
    assert(a1 * (v0 * b1 - beat_index * v1 * b1) == a1 * v0 * b1 - a1 * beat_index * v1 * b1)
        by (nonlinear_arith);
    assert(beat_index * a1 * b1 * v1 == a1 * beat_index * v1 * b1) by (nonlinear_arith);
    assert(a1 * v0 * b1 == v0 * (a1 * b1)) by (nonlinear_arith);
    assert((a0 * b1 + b0 * a1) * v1 == v0 * (a1 * b1));
    assert(same_value(s, v));
    assert(s.1 != 0) by (nonlinear_arith)
        requires
            s.1 == a.1 * b.1,
            a.1 > 0,
            b.1 > 0,
    ;
    lemma_same_value_trans(r, t, s);
    lemma_same_value_trans(r, s, v);
}

/// The position in beats of a note.
pub fn beat(beat_index: i64, tick_nomiator: i64, tick_denomiator: i64) -> (r: Fraction)
    requires
        beat_ok(beat_index as int, tick_nomiator as int, tick_denomiator as int),
    ensures
        r.pair() == beat_reduced(beat_index as int, tick_nomiator as int, tick_denomiator as int),
        r.denom > 0,
        same_value(r.pair(), beat_value(beat_index as int, tick_nomiator as int, tick_denomiator as int)),
{
    proof {
        lemma_beat_value(beat_index as int, tick_nomiator as int, tick_denomiator as int);
    }
    let whole = ratio_new(beat_index, 1);
    let tick = if tick_denomiator == 0 {
        ratio_new(0, 1)
    } else {
        ratio_new(tick_nomiator, tick_denomiator)
    };
    proof {
        reveal_with_fuel(gcd, 2);
    }
    let sum = ratio_add(whole, tick);
    Fraction { numer: sum.0, denom: sum.1 }
}

/// The timing in milliseconds of a position in beats, at a tempo and with
/// a delay of the first beat.
pub fn timing_in_ms(beat: Fraction, track_bpm: u32, track_delay: u64) -> (r: u64)
    requires
        beat.denom > 0,
        timing_ok(beat.pair(), track_bpm as int, track_delay as int),
    ensures
        r == timing_value(beat.pair(), track_bpm as int, track_delay as int),
{
    let per_beat = ratio_new(60000, track_bpm as i64);
    let timing = ratio_mul((beat.numer, beat.denom), per_beat);
    proof {
        let b = beat.pair();
        let m = reduce(60000, track_bpm as int);
        lemma_reduce_value(60000, track_bpm as int);
        lemma_mul_terms_value(b, m);
        let t = mul_terms(b, m);
        lemma_reduce_value(t.0, t.1);
        let p = (b.0 * m.0, b.1 * m.1);
        let e = (b.0 * 60000, b.1 * track_bpm);
        assert(same_value(p, e)) by (nonlinear_arith)
            requires
                m.0 * track_bpm == 60000 * m.1,
                p == (b.0 * m.0, b.1 * m.1),
                e == (b.0 * 60000, b.1 * track_bpm),
        ;
        assert(p.1 != 0 && e.1 != 0) by (nonlinear_arith)
            requires
                p == (b.0 * m.0, b.1 * m.1),
                e == (b.0 * 60000, b.1 * track_bpm),
                b.1 > 0,
                m.1 > 0,
                track_bpm > 0,
        ;
        let r = (timing.0 as int, timing.1 as int);
        lemma_same_value_trans(r, t, p);
        lemma_same_value_trans(r, p, e);
        lemma_trunc_value(r.0, r.1, e.0, e.1);
    }
    let whole_ms = timing.0 / timing.1;
    (whole_ms as u64) + track_delay
}


/// The timing of a position depends only on the position's value, not on
/// how the fraction is written.
pub proof fn lemma_timing_value_invariant(b: (int, int), v: (int, int), bpm: int, delay: int)
    requires
        b.1 > 0,
        v.1 != 0,
        bpm > 0,
        same_value(b, v),
    ensures
        timing_value(b, bpm, delay) == timing_value(v, bpm, delay),
{
    assert((b.0 * 60000) * (v.1 * bpm) == (v.0 * 60000) * (b.1 * bpm)) by (nonlinear_arith)
        requires
            b.0 * v.1 == v.0 * b.1,
    ;
    assert(b.1 * bpm > 0 && v.1 * bpm != 0) by (nonlinear_arith)
        requires
            b.1 > 0,
            v.1 != 0,
            bpm > 0,
    ;
    lemma_trunc_value(b.0 * 60000, b.1 * bpm, v.0 * 60000, v.1 * bpm);
}

/// The exact position in beats of a note with these fields; the beat index
/// is read as an `i64`, wrapping as `as` does.
pub open spec fn note_beat(beat_index: u64, tick_nomiator: i64, tick_denomiator: i64) -> (int, int) {
    beat_value((beat_index as i64) as int, tick_nomiator as int, tick_denomiator as int)
}

/// The note's position and timing can be computed without overflow.
pub open spec fn note_timing_ok(
    beat_index: u64,
    tick_nomiator: i64,
    tick_denomiator: i64,
    bpm: u32,
    delay: u64,
) -> bool {
    let bi = (beat_index as i64) as int;
    &&& beat_ok(bi, tick_nomiator as int, tick_denomiator as int)
    &&& timing_ok(beat_reduced(bi, tick_nomiator as int, tick_denomiator as int), bpm as int, delay as int)
}

/// The timing in milliseconds of a note with these fields.
pub open spec fn note_timing(
    beat_index: u64,
    tick_nomiator: i64,
    tick_denomiator: i64,
    bpm: u32,
    delay: u64,
) -> int {
    timing_value(note_beat(beat_index, tick_nomiator, tick_denomiator), bpm as int, delay as int)
}

fn note_timing_in_ms(
    beat_index: u64,
    tick_nomiator: i64,
    tick_denomiator: i64,
    track_bpm: u32,
    track_delay: u64,
) -> (r: u64)
    requires
        note_timing_ok(beat_index, tick_nomiator, tick_denomiator, track_bpm, track_delay),
    ensures
        r == note_timing(beat_index, tick_nomiator, tick_denomiator, track_bpm, track_delay),
{
    let b = beat(beat_index as i64, tick_nomiator, tick_denomiator);
    let r = timing_in_ms(b, track_bpm, track_delay);
    proof {
        let v = note_beat(beat_index, tick_nomiator, tick_denomiator);
        lemma_timing_value_invariant(b.pair(), v, track_bpm as int, track_delay as int);
    }
    r
}

/// Tells whether a note's position and timing can be computed without
/// overflow, as timing it needs.
pub fn note_timing_fits(beat_index: u64, tick_nomiator: i64, tick_denomiator: i64, bpm: u32, delay: u64) -> (r: bool)
    ensures
        r == note_timing_ok(beat_index, tick_nomiator, tick_denomiator, bpm, delay),
{
    let bi = beat_index as i64;
    if tick_denomiator != 0 && !new_fits(tick_nomiator, tick_denomiator) {
        return false;
    }
    let whole = reduce_exec(bi as i128, 1);
    let tick = if tick_denomiator == 0 {
        (0i128, 1i128)
    } else {
        reduce_exec(tick_nomiator as i128, tick_denomiator as i128)
    };
    if !add_fits(whole, tick) {
        return false;
    }
    let sum = add_terms_exec(whole, tick);
    let b = reduce_exec(sum.0, sum.1);
    if bpm == 0 {
        return false;
    }
    let per_beat = reduce_exec(60000, bpm as i128);
    if !mul_fits(b, per_beat) {
        return false;
    }
    proof {
        lemma_reduce_value(sum.0 as int, sum.1 as int);
    }
    assert(0 < b.1 * bpm <= 0x8000_0000_0000_0000 * 0xffff_ffff) by (nonlinear_arith)
        requires
            0 < b.1 <= 0x8000_0000_0000_0000,
            0 < bpm <= 0xffff_ffff,
    ;
    let numer: i128 = b.0 * 60000;
    let denom: i128 = b.1 * (bpm as i128);
    assert(denom > 0) by (nonlinear_arith)
        requires
            denom == b.1 * bpm,
            b.1 > 0,
            bpm > 0,
    ;
    let whole_ms: i128 = trunc_div_exec(numer, denom);
    let truncated: u64 = #[verifier::truncate] (whole_ms as u64);
    (truncated as u128) + (delay as u128) <= 0xffff_ffff_ffff_ffff
}

impl GameNote {
    pub open spec fn timing_ok(self, bpm: u32, delay: u64) -> bool {
        note_timing_ok(self.beat_index, self.tick_nomiator, self.tick_denomiator, bpm, delay)
    }

    /// Tells whether the note can be timed in a chart with this tempo and
    /// delay.
    pub fn timing_fits(&self, track_bpm: u32, track_delay: u64) -> (r: bool)
        ensures
            r == self.timing_ok(track_bpm, track_delay),
    {
        note_timing_fits(self.beat_index, self.tick_nomiator, self.tick_denomiator, track_bpm, track_delay)
    }

    pub open spec fn timing(self, bpm: u32, delay: u64) -> int {
        note_timing(self.beat_index, self.tick_nomiator, self.tick_denomiator, bpm, delay)
    }

    /// The position of the note in beats.
    pub fn beat(&self) -> (r: Fraction)
        requires
            beat_ok((self.beat_index as i64) as int, self.tick_nomiator as int, self.tick_denomiator as int),
        ensures
            r.pair() == beat_reduced((self.beat_index as i64) as int, self.tick_nomiator as int, self.tick_denomiator as int),
            r.denom > 0,
            same_value(r.pair(), note_beat(self.beat_index, self.tick_nomiator, self.tick_denomiator)),
    {
        beat(self.beat_index as i64, self.tick_nomiator, self.tick_denomiator)
    }

    /// The timing of the note in milliseconds, in a chart with this tempo
    /// and delay.
    pub fn timing_in_ms(&self, track_bpm: u32, track_delay: u64) -> (r: u64)
        requires
            self.timing_ok(track_bpm, track_delay),
        ensures
            r == self.timing(track_bpm, track_delay),
    {
        note_timing_in_ms(self.beat_index, self.tick_nomiator, self.tick_denomiator, track_bpm, track_delay)
    }
}

impl GameHatNote {
    pub open spec fn timing_ok(self, bpm: u32, delay: u64) -> bool {
        note_timing_ok(self.beat_index, self.tick_nomiator, self.tick_denomiator, bpm, delay)
    }

    /// Tells whether the hat note can be timed in a chart with this tempo
    /// and delay.
    pub fn timing_fits(&self, track_bpm: u32, track_delay: u64) -> (r: bool)
        ensures
            r == self.timing_ok(track_bpm, track_delay),
    {
        note_timing_fits(self.beat_index, self.tick_nomiator, self.tick_denomiator, track_bpm, track_delay)
    }

    pub open spec fn timing(self, bpm: u32, delay: u64) -> int {
        note_timing(self.beat_index, self.tick_nomiator, self.tick_denomiator, bpm, delay)
    }

    /// The position of the hat note in beats.
    pub fn beat(&self) -> (r: Fraction)
        requires
            beat_ok((self.beat_index as i64) as int, self.tick_nomiator as int, self.tick_denomiator as int),
        ensures
            r.pair() == beat_reduced((self.beat_index as i64) as int, self.tick_nomiator as int, self.tick_denomiator as int),
            r.denom > 0,
            same_value(r.pair(), note_beat(self.beat_index, self.tick_nomiator, self.tick_denomiator)),
    {
        beat(self.beat_index as i64, self.tick_nomiator, self.tick_denomiator)
    }

    /// The timing of the hat note in milliseconds.
    pub fn timing_in_ms(&self, track_bpm: u32, track_delay: u64) -> (r: u64)
        requires
            self.timing_ok(track_bpm, track_delay),
        ensures
            r == self.timing(track_bpm, track_delay),
    {
        note_timing_in_ms(self.beat_index, self.tick_nomiator, self.tick_denomiator, track_bpm, track_delay)
    }
}


impl GameChart {
    /// Gives the notes their faces and ids, as loading a chart does: the
    /// left face's notes get ids 0, 1, ... in order, the right face's notes
    /// continue the numbering.
    pub fn assign_note_ids(&mut self)
        requires
            old(self).left_face.len() + old(self).right_face.len() <= u64::MAX,
        ensures
            final(self).artist == old(self).artist,
            final(self).delay == old(self).delay,
            final(self).bpm == old(self).bpm,
            final(self).hats == old(self).hats,
            final(self).left_face@.len() == old(self).left_face@.len(),
            final(self).right_face@.len() == old(self).right_face@.len(),
            forall|i: int| 0 <= i < final(self).left_face@.len() ==> #[trigger] final(self).left_face@[i] == (GameNote {
                face: JangguFace::Gungpyeon,
                id: i as u64,
                ..old(self).left_face@[i]
            }),
            forall|i: int| 0 <= i < final(self).right_face@.len() ==> #[trigger] final(self).right_face@[i] == (GameNote {
                face: JangguFace::Yeolpyeon,
                id: (old(self).left_face@.len() + i) as u64,
                ..old(self).right_face@[i]
            }),
    {
        let mut note_index: u64 = 0;
        let mut i: usize = 0;
        while i < self.left_face.len()
            invariant
                i <= self.left_face.len(),
                self.left_face.len() == old(self).left_face.len(),
                self.right_face == old(self).right_face,
                self.artist == old(self).artist,
                self.delay == old(self).delay,
                self.bpm == old(self).bpm,
                self.hats == old(self).hats,
                note_index == i,
                old(self).left_face.len() + old(self).right_face.len() <= u64::MAX,
                forall|k: int| 0 <= k < i ==> #[trigger] self.left_face@[k] == (GameNote {
                    face: JangguFace::Gungpyeon,
                    id: k as u64,
                    ..old(self).left_face@[k]
                }),
                forall|k: int| i <= k < self.left_face@.len() ==> #[trigger] self.left_face@[k] == old(self).left_face@[k],
            decreases self.left_face.len() - i,
        {
            let mut note = self.left_face[i];
            note.face = JangguFace::Gungpyeon;
            note.id = note_index;
            self.left_face.set(i, note);
            note_index = note_index + 1;
            i = i + 1;
        }
        let mut j: usize = 0;
        while j < self.right_face.len()
            invariant
                j <= self.right_face.len(),
                self.right_face.len() == old(self).right_face.len(),
                self.left_face.len() == old(self).left_face.len(),
                self.artist == old(self).artist,
                self.delay == old(self).delay,
                self.bpm == old(self).bpm,
                self.hats == old(self).hats,
                note_index == old(self).left_face.len() + j,
                old(self).left_face.len() + old(self).right_face.len() <= u64::MAX,
                forall|k: int| 0 <= k < self.left_face@.len() ==> #[trigger] self.left_face@[k] == (GameNote {
                    face: JangguFace::Gungpyeon,
                    id: k as u64,
                    ..old(self).left_face@[k]
                }),
                forall|k: int| 0 <= k < j ==> #[trigger] self.right_face@[k] == (GameNote {
                    face: JangguFace::Yeolpyeon,
                    id: (old(self).left_face@.len() + k) as u64,
                    ..old(self).right_face@[k]
                }),
                forall|k: int| j <= k < self.right_face@.len() ==> #[trigger] self.right_face@[k] == old(self).right_face@[k],
            decreases self.right_face.len() - j,
        {
            let mut note = self.right_face[j];
            note.face = JangguFace::Yeolpyeon;
            note.id = note_index;
            self.right_face.set(j, note);
            note_index = note_index + 1;
            j = j + 1;
        }
    }
}

/// What a directory entry's name says about a chart level: chart files
/// are named `<level>.json`, the level in decimal digits.
#[derive(Debug, Clone, Copy, PartialEq, Eq, Structural)]
pub enum LevelFileName {
    /// The name is not `<digits>.json`.
    NotALevel,
    /// The name is `<digits>.json` and the digits give this level.
    Level(u32),
    /// The name is `<digits>.json` but the level does not fit a `u32`.
    LevelOutOfRange,
}

pub open spec fn is_digit(c: u8) -> bool {
    48 <= c <= 57
}

/// The decimal number that the digits spell.
pub open spec fn decimal_value(digits: Seq<u8>) -> nat
    decreases digits.len(),
{
    if digits.len() == 0 {
        0
    } else {
        decimal_value(digits.drop_last()) * 10 + (digits.last() - 48) as nat
    }
}

/// The bytes of ".json".
pub open spec fn json_suffix() -> Seq<u8> {
    seq![46u8, 106u8, 115u8, 111u8, 110u8]
}

/// The name matches `^([0-9]+)\.json$`.
pub open spec fn is_level_file_name(name: Seq<u8>) -> bool {
    &&& name.len() > 5
    &&& name.subrange(name.len() - 5, name.len() as int) == json_suffix()
    &&& forall|k: int| 0 <= k < name.len() - 5 ==> is_digit(#[trigger] name[k])
}

/// The level that a level file's name gives.
pub open spec fn level_of(name: Seq<u8>) -> nat {
    decimal_value(name.take(name.len() - 5))
}

proof fn lemma_decimal_value_grows(digits: Seq<u8>, k: int)
    requires
        0 <= k <= digits.len(),
        forall|i: int| 0 <= i < digits.len() ==> is_digit(#[trigger] digits[i]),
    ensures
        decimal_value(digits.take(k)) <= decimal_value(digits),
    decreases digits.len() - k,
{
    if k < digits.len() {
        lemma_decimal_value_grows(digits, k + 1);
        assert(digits.take(k + 1).drop_last() =~= digits.take(k));
    } else {
        assert(digits.take(k) =~= digits);
    }
}

/// Reads a directory entry's name (as UTF-8 bytes) as a chart file name.
pub fn level_of_file_name(name: &[u8]) -> (r: LevelFileName)
    ensures
        r == (if !is_level_file_name(name@) {
            LevelFileName::NotALevel
        } else if level_of(name@) <= u32::MAX {
            LevelFileName::Level(level_of(name@) as u32)
        } else {
            LevelFileName::LevelOutOfRange
        }),
{
    let n = name.len();
    if n <= 5 {
        return LevelFileName::NotALevel;
    }
    let digits_end = n - 5;
    if !(name[digits_end] == 46 && name[digits_end + 1] == 106 && name[digits_end + 2] == 115
        && name[digits_end + 3] == 111 && name[digits_end + 4] == 110) {
        proof {
            if is_level_file_name(name@) {
                let t = name@.subrange(n - 5, n as int);
                assert(t[0] == name@[n - 5] && t[1] == name@[n - 4] && t[2] == name@[n - 3]);
                assert(t[3] == name@[n - 2] && t[4] == name@[n - 1]);
            }
        }
        return LevelFileName::NotALevel;
    }
    proof {
        assert(name@.subrange(n - 5, n as int) =~= json_suffix());
    }
    let mut i: usize = 0;
    while i < digits_end
        invariant
            n == name@.len(),
            digits_end == n - 5,
            i <= digits_end,
            name@.subrange(n - 5, n as int) == json_suffix(),
            forall|k: int| 0 <= k < i ==> is_digit(#[trigger] name@[k]),
        decreases digits_end - i,
    {
        if !(48 <= name[i] && name[i] <= 57) {
            return LevelFileName::NotALevel;
        }
        i = i + 1;
    }
    let ghost digits = name@.take(digits_end as int);
    let mut value: u64 = 0;
    let mut k: usize = 0;
    while k < digits_end
        invariant
            n == name@.len(),
            digits_end == n - 5,
            digits == name@.take(digits_end as int),
            k <= digits_end,
            name@.subrange(n - 5, n as int) == json_suffix(),
            forall|q: int| 0 <= q < digits_end ==> is_digit(#[trigger] name@[q]),
            value == decimal_value(digits.take(k as int)),
            value <= u32::MAX,
        decreases digits_end - k,
    {
        let d = (name[k] - 48) as u64;
        proof {
            assert(digits.take(k + 1).drop_last() =~= digits.take(k as int));
            assert(digits.take(k + 1).last() == name@[k as int]);
        }
        value = value * 10 + d;
        if value > 0xffff_ffff {
            proof {
                assert forall|q: int| 0 <= q < digits.len() implies is_digit(#[trigger] digits[q]) by {
                    assert(digits[q] == name@[q]);
                }
                lemma_decimal_value_grows(digits, k + 1);
                assert(is_level_file_name(name@));
            }
            return LevelFileName::LevelOutOfRange;
        }
        k = k + 1;
    }
    proof {
        assert(digits.take(digits_end as int) =~= digits);
    }
    LevelFileName::Level(value as u32)
}

} // verus!
