//! The pressed state of each janggu face, for the input effect of the play
//! screen.
use vstd::prelude::*;
use crate::janggu::JangguFace;
use crate::game_player::janggu_state_with_tick::{JangguStateWithTick, JangguStickStateWithTick};

verus! {

/// Pressed state of one face and the latest keydown timing seen on it.
#[derive(Debug, Clone, Copy, PartialEq, Eq, Structural)]
pub struct InputEffectItem {
    pub pressed: bool,
    pub keydown_timing: Option<i128>,
}

#[derive(Debug, Clone, Copy, PartialEq, Eq, Structural)]
pub struct InputEffect {
    pub left_face: InputEffectItem,
    pub right_face: InputEffectItem,
    pub base_tick: i128,
}

pub open spec fn max_i128(a: i128, b: i128) -> i128 {
    if a >= b { a } else { b }
}

/// The keydown timing of a face after seeing a stick: if the stick touches
/// the face, the later of the previous timing and the stick's timing.
pub open spec fn merge_keydown(prev: Option<i128>, stick: JangguStickStateWithTick, face: JangguFace) -> Option<i128> {
    if stick.face == Some(face) {
        Some(
            match prev {
                Some(p) => max_i128(p, stick.keydown_timing),
                None => stick.keydown_timing,
            },
        )
    } else {
        prev
    }
}

/// The state of a face after seeing both sticks: pressed if a stick touches
/// it, keydown timing merged from the left stick, then the right stick.
pub open spec fn face_after(prev: InputEffectItem, janggu: JangguStateWithTick, face: JangguFace) -> InputEffectItem {
    InputEffectItem {
        pressed: janggu.gungchae.face == Some(face) || janggu.yeolchae.face == Some(face),
        keydown_timing: merge_keydown(
            merge_keydown(prev.keydown_timing, janggu.gungchae, face),
            janggu.yeolchae,
            face,
        ),
    }
}

fn merge_stick(item: &mut InputEffectItem, stick: JangguStickStateWithTick, face: JangguFace)
    ensures
        final(item).keydown_timing == merge_keydown(old(item).keydown_timing, stick, face),
        final(item).pressed == (old(item).pressed || stick.face == Some(face)),
{
    if stick.face == Some(face) {
        item.pressed = true;
        item.keydown_timing = Some(
            if let Some(prev) = item.keydown_timing {
                if prev >= stick.keydown_timing {
                    prev
                } else {
                    stick.keydown_timing
                }
            } else {
                stick.keydown_timing
            },
        );
    }
}

impl InputEffect {
    /// No face pressed, no keydown seen.
    pub fn new() -> (r: InputEffect)
        ensures
            r.base_tick == 0,
            r.left_face == (InputEffectItem { pressed: false, keydown_timing: None }),
            r.right_face == r.left_face,
    {
        InputEffect {
            base_tick: 0,
            left_face: InputEffectItem { pressed: false, keydown_timing: None },
            right_face: InputEffectItem { pressed: false, keydown_timing: None },
        }
    }

    pub fn update(&mut self, janggu: &JangguStateWithTick, tick_now: i128)
        ensures
            final(self).base_tick == tick_now,
            final(self).left_face == face_after(old(self).left_face, *janggu, JangguFace::Gungpyeon),
            final(self).right_face == face_after(old(self).right_face, *janggu, JangguFace::Yeolpyeon),
            // a face shows pressed while a stick rests on it, not only at the keydown
            final(self).left_face.pressed == (janggu.gungchae.face == Some(JangguFace::Gungpyeon)
                || janggu.yeolchae.face == Some(JangguFace::Gungpyeon)),
            final(self).right_face.pressed == (janggu.gungchae.face == Some(JangguFace::Yeolpyeon)
                || janggu.yeolchae.face == Some(JangguFace::Yeolpyeon)),
    {
        self.base_tick = tick_now;

        self.left_face.pressed = false;
        merge_stick(&mut self.left_face, janggu.gungchae, JangguFace::Gungpyeon);
        merge_stick(&mut self.left_face, janggu.yeolchae, JangguFace::Gungpyeon);

        self.right_face.pressed = false;
        merge_stick(&mut self.right_face, janggu.gungchae, JangguFace::Yeolpyeon);
        merge_stick(&mut self.right_face, janggu.yeolchae, JangguFace::Yeolpyeon);
    }
}

/// What a face shows after seeing both sticks: pressed exactly while a
/// stick touches it (whether or not the touch began just now); its keydown
/// timing then is the latest of its previous one and the keydown timings of
/// the sticks touching it, and stays as it was when no stick touches it.
pub proof fn lemma_face_follows_touching_sticks(prev: InputEffectItem, janggu: JangguStateWithTick, face: JangguFace)
    ensures
        ({
            let g = janggu.gungchae;
            let y = janggu.yeolchae;
            let after = face_after(prev, janggu, face);
            &&& after.pressed == (g.face == Some(face) || y.face == Some(face))
            &&& !(g.face == Some(face) || y.face == Some(face)) ==> after.keydown_timing == prev.keydown_timing
            &&& (g.face == Some(face) || y.face == Some(face)) ==> (after.keydown_timing matches Some(t) && {
                &&& g.face == Some(face) ==> t >= g.keydown_timing
                &&& y.face == Some(face) ==> t >= y.keydown_timing
                &&& (prev.keydown_timing matches Some(p) ==> t >= p)
                &&& ((g.face == Some(face) && t == g.keydown_timing) || (y.face == Some(face) && t == y.keydown_timing)
                    || prev.keydown_timing == Some(t))
            })
        }),
{
}

/// The keydown timing of a face never moves back in time.
pub proof fn lemma_keydown_timing_monotone(prev: InputEffectItem, janggu: JangguStateWithTick, face: JangguFace)
    ensures
        prev.keydown_timing is Some ==> face_after(prev, janggu, face).keydown_timing is Some
            && face_after(prev, janggu, face).keydown_timing->0 >= prev.keydown_timing->0,
{
}

} // verus!
