//! Janggu input over time: when each stick started touching a face and
//! whether that happened just now.
use vstd::prelude::*;
use crate::janggu::{JangguFace, JangguInputState, JangguStick};

verus! {

/// State of one stick.
#[derive(Debug, Clone, Copy, PartialEq, Eq, Structural)]
pub struct JangguStickStateWithTick {
    /// Timing when the stick started to touch the face (or left it).
    pub keydown_timing: i128,
    /// Face the stick is touching; `None` if it touches nothing.
    pub face: Option<JangguFace>,
    /// Whether the stick started touching the face at the latest update.
    pub is_keydown_now: bool,
}

/// Keyup, keypress and keydown of both sticks of the janggu.
#[derive(Debug, Clone, Copy, PartialEq, Eq, Structural)]
pub struct JangguStateWithTick {
    pub gungchae: JangguStickStateWithTick,
    pub yeolchae: JangguStickStateWithTick,
}

/// The state of a stick after reading `input` at `time`: an unchanged face
/// is no new keydown; leaving the face records the time and no keydown;
/// touching a (new) face records the time and the face and is a keydown.
pub open spec fn stick_after(prev: JangguStickStateWithTick, input: Option<JangguFace>, time: i128) -> JangguStickStateWithTick {
    if input == prev.face {
        JangguStickStateWithTick { is_keydown_now: false, ..prev }
    } else if input is None {
        JangguStickStateWithTick { keydown_timing: time, face: None, is_keydown_now: false }
    } else {
        JangguStickStateWithTick { keydown_timing: time, face: input, is_keydown_now: true }
    }
}

impl JangguStickStateWithTick {
    fn empty() -> (r: JangguStickStateWithTick)
        ensures
            r == (JangguStickStateWithTick { keydown_timing: 0, face: None, is_keydown_now: false }),
    {
        JangguStickStateWithTick { keydown_timing: 0, face: None, is_keydown_now: false }
    }

    fn toggle_keydown(self, keydown_value: bool) -> (r: JangguStickStateWithTick)
        ensures
            r == (JangguStickStateWithTick { is_keydown_now: keydown_value, ..self }),
    {
        JangguStickStateWithTick {
            keydown_timing: self.keydown_timing,
            face: self.face,
            is_keydown_now: keydown_value,
        }
    }

    fn change_keydown_timing_and_face(self, timing: i128, face: Option<JangguFace>) -> (r: JangguStickStateWithTick)
        ensures
            r == (JangguStickStateWithTick { keydown_timing: timing, face: face, ..self }),
    {
        JangguStickStateWithTick {
            keydown_timing: timing,
            face: face,
            is_keydown_now: self.is_keydown_now,
        }
    }

    fn after_input(self, input: Option<JangguFace>, time: i128) -> (r: JangguStickStateWithTick)
        ensures
            r == stick_after(self, input, time),
    {
        if input == self.face {
            self.toggle_keydown(false)
        } else if input.is_none() {
            // taking the stick off the janggu is no hit
            self.toggle_keydown(false).change_keydown_timing_and_face(time, None)
        } else {
            self.toggle_keydown(true).change_keydown_timing_and_face(time, input)
        }
    }
}

impl JangguStateWithTick {
    pub open spec fn stick(self, stick: JangguStick) -> JangguStickStateWithTick {
        match stick {
            JangguStick::Gungchae => self.gungchae,
            JangguStick::Yeolchae => self.yeolchae,
        }
    }

    /// Both sticks touch nothing; no keydown.
    pub fn new() -> (r: JangguStateWithTick)
        ensures
            r.gungchae == (JangguStickStateWithTick { keydown_timing: 0, face: None, is_keydown_now: false }),
            r.yeolchae == r.gungchae,
    {
        JangguStateWithTick {
            gungchae: JangguStickStateWithTick::empty(),
            yeolchae: JangguStickStateWithTick::empty(),
        }
    }

    pub fn get_by_stick(&self, stick: JangguStick) -> (r: JangguStickStateWithTick)
        ensures
            r == self.stick(stick),
    {
        match stick {
            JangguStick::Gungchae => self.gungchae,
            JangguStick::Yeolchae => self.yeolchae,
        }
    }

    /// Reads the input state of the controller at `time`.
    pub fn update(&mut self, state: JangguInputState, time: i128)
        ensures
            final(self).gungchae == stick_after(old(self).gungchae, state.gungchae, time),
            final(self).yeolchae == stick_after(old(self).yeolchae, state.yeolchae, time),
    {
        self.gungchae = self.gungchae.after_input(state.gungchae, time);
        self.yeolchae = self.yeolchae.after_input(state.yeolchae, time);
    }
}

/// After an update, each stick touches the face that the input names, and a
/// keydown is reported exactly when the stick now touches a face it was not
/// touching before.
pub proof fn lemma_update_reports_new_touches(prev: JangguStickStateWithTick, input: Option<JangguFace>, time: i128)
    ensures
        stick_after(prev, input, time).face == input,
        stick_after(prev, input, time).is_keydown_now <==> (input is Some && input != prev.face),
        (input != prev.face) ==> stick_after(prev, input, time).keydown_timing == time,
        (input == prev.face) ==> stick_after(prev, input, time).keydown_timing == prev.keydown_timing,
{
}

/// Holding a stick on a face reports the keydown once: reading the same
/// input again reports no keydown and keeps the keydown timing.
pub proof fn lemma_holding_is_no_new_keydown(
    prev: JangguStickStateWithTick,
    input: Option<JangguFace>,
    t1: i128,
    t2: i128,
)
    ensures
        !stick_after(stick_after(prev, input, t1), input, t2).is_keydown_now,
        stick_after(stick_after(prev, input, t1), input, t2).keydown_timing
            == stick_after(prev, input, t1).keydown_timing,
        stick_after(stick_after(prev, input, t1), input, t2).face == input,
{
}

} // verus!
