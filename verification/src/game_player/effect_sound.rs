//! When the combo sound plays: once each time the combo reaches a multiple
//! of ten.
use vstd::prelude::*;

verus! {

/// The combo is a positive multiple of ten.
pub open spec fn combo_milestone(combo: u64) -> bool {
    combo > 0 && combo % 10 == 0
}

/// The combo sound plays at this combo, given whether it has played.
pub open spec fn combo_sound_due(played: bool, combo: u64) -> bool {
    combo_milestone(combo) && !played
}

/// Whether the sound counts as played after looking at this combo.
pub open spec fn played_after(played: bool, combo: u64) -> bool {
    combo_milestone(combo)
}

/// Whether the combo sound has played for the current multiple of ten.
pub struct ComboSoundState {
    pub combo_sound_played: bool,
}

impl ComboSoundState {
    pub fn new() -> (r: ComboSoundState)
        ensures
            !r.combo_sound_played,
    {
        ComboSoundState { combo_sound_played: false }
    }

    /// Looks at the combo after a judgement and says whether the combo
    /// sound plays now: it plays when the combo is a positive multiple of
    /// ten and has not played since the combo last left such a value.
    pub fn should_play(&mut self, combo: u64) -> (r: bool)
        ensures
            r == combo_sound_due(old(self).combo_sound_played, combo),
            final(self).combo_sound_played == played_after(old(self).combo_sound_played, combo),
            r ==> combo > 0 && combo % 10 == 0,
            (combo > 0 && combo % 10 == 0 && !old(self).combo_sound_played) ==> r,
            final(self).combo_sound_played == (combo > 0 && combo % 10 == 0),
    {
        if combo > 0 && combo % 10 == 0 {
            if !self.combo_sound_played {
                self.combo_sound_played = true;
                true
            } else {
                false
            }
        } else {
            self.combo_sound_played = false;
            false
        }
    }
}

/// The sound plays at most once while the combo stays at one multiple of
/// ten, and plays again once the combo has left it and reaches one anew.
pub proof fn lemma_combo_sound_once(played: bool, combo: u64, other: u64, next: u64)
    requires
        !combo_milestone(other),
        combo_milestone(next),
    ensures
        !(combo_sound_due(played, combo) && combo_sound_due(played_after(played, combo), combo)),
        combo_sound_due(played_after(played_after(played, combo), other), next),
{
}

/// The combo sound is due exactly at a positive multiple of ten that has
/// not sounded yet: never at any other combo, and the state left behind
/// records whether the combo stands at a positive multiple of ten.
pub proof fn lemma_combo_sound_at_tens(played: bool, combo: u64)
    ensures
        combo_sound_due(played, combo) ==> combo > 0 && combo % 10 == 0,
        combo % 10 != 0 ==> !combo_sound_due(played, combo),
        combo == 0 ==> !combo_sound_due(played, combo),
        (combo > 0 && combo % 10 == 0 && !played) ==> combo_sound_due(played, combo),
        played_after(played, combo) == (combo > 0 && combo % 10 == 0),
{
}

} // verus!
