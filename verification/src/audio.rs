//! Sound effects tied to animation frames, and menu click sounds.

use std::collections::HashMap;

use vstd::prelude::*;

use crate::animation::Animation;
use crate::random::pick_one;
use crate::text::str_equal;

verus! {

/// The sound effects of one clip, by frame index.
pub struct AnimationAudioPlayback<H> {
    /// The clip the effects belong to.
    pub animation_name: String,
    /// The effects, by the sprite-sheet index of the frame each plays on.
    pub effects: HashMap<usize, H>,
    /// The frame index whose effect was played last.
    pub last_played: Option<usize>,
}

/// What the effect player does this frame.
#[derive(Debug, PartialEq, Eq, Structural, Clone, Copy)]
pub enum AudioStep {
    /// The clip changed: the effects are done with.
    Remove,
    /// Play the effect of this frame index.
    Play(usize),
    /// Nothing to play.
    Nothing,
}

/// What the effect player does for `animation`, and the frame index it then remembers as
/// played last.
pub open spec fn spec_audio_step<H>(p: AnimationAudioPlayback<H>, animation: Animation) -> (AudioStep, Option<usize>) {
    if !(animation.current_animation matches Some(n) && n@ == p.animation_name@) {
        (AudioStep::Remove, p.last_played)
    } else {
        match animation.spec_current_index() {
            Some(i) => if p.effects@.contains_key(i as usize) && p.last_played.unwrap_or(usize::MAX) != i {
                (AudioStep::Play(i as usize), Some(i as usize))
            } else {
                (AudioStep::Nothing, p.last_played)
            },
            None => (AudioStep::Nothing, p.last_played),
        }
    }
}

impl<H> AnimationAudioPlayback<H> {
    /// Effects for the clip `animation_name`, none played yet.
    pub fn new(animation_name: String, effects: HashMap<usize, H>) -> (p: Self)
        ensures
            p.animation_name == animation_name,
            p.effects@ == effects@,
            p.last_played is None,
    {
        AnimationAudioPlayback { animation_name, effects, last_played: None }
    }

    /// Decides which effect plays for the current frame of `animation`: none once another
    /// clip plays (the effects are then removed), and each frame's effect once per visit of
    /// that frame.
    pub fn step(&mut self, animation: &Animation) -> (s: AudioStep)
        requires
            animation.index_fits(),
        ensures
            final(self).animation_name == old(self).animation_name,
            final(self).effects@ == old(self).effects@,
            (s, final(self).last_played) == spec_audio_step(*old(self), *animation),
    {
        if !animation.is_playing(self.animation_name.as_str()) {
            return AudioStep::Remove;
        }
        match animation.get_current_index() {
            Some(i) => {
                let has_effect = self.effects.contains_key(&i);
                let last = match self.last_played {
                    Some(l) => l,
                    None => usize::MAX,
                };
                if has_effect && last != i {
                    self.last_played = Some(i);
                    AudioStep::Play(i)
                } else {
                    AudioStep::Nothing
                }
            },
            None => AudioStep::Nothing,
        }
    }
}

/// The sound a clicked menu button makes: the play button's sound for "Start Game", one of
/// the button sounds at random for any other labelled button, and none for an unlabelled
/// one. There must be a button sound to pick from.
pub fn menu_click_sound<'a, H>(label: Option<&str>, play_button_sound: &'a H, button_sounds: &'a Vec<H>) -> (res: Option<&'a H>)
    requires
        label matches Some(l) && l@ != "Start Game"@ ==> button_sounds@.len() > 0,
    ensures
        label is None ==> res is None,
        label matches Some(l) && l@ == "Start Game"@ ==> res == Some(play_button_sound),
        label matches Some(l) && l@ != "Start Game"@ ==> (res matches Some(h) && button_sounds@.contains(*h)),
{
    match label {
        Some(l) => {
            if str_equal(l, "Start Game") {
                Some(play_button_sound)
            } else {
                Some(pick_one(button_sounds))
            }
        },
        None => None,
    }
}


/// The player remembers a frame only by playing its effect: a step that plays nothing
/// leaves the remembered frame as it was, and one that plays plays the effect of the
/// current frame, one not remembered, and remembers that frame. The effect of the current
/// frame of the effects' clip plays unless that frame is the one remembered; once another
/// clip plays the effects are removed.
pub proof fn lemma_audio_step_laws<H>(p: AnimationAudioPlayback<H>, animation: Animation)
    requires
        animation.index_fits(),
    ensures
        ({
            let (step, last) = spec_audio_step(p, animation);
            let own_clip = animation.current_animation matches Some(n) && n@ == p.animation_name@;
            &&& !(step is Play) ==> last == p.last_played
            &&& step matches AudioStep::Play(f) ==> {
                &&& last == Some(f)
                &&& p.last_played != Some(f)
                &&& own_clip
                &&& animation.spec_current_index() == Some(f as int)
                &&& p.effects@.contains_key(f)
            }
            &&& (step == AudioStep::Remove <==> !own_clip)
            &&& match animation.spec_current_index() {
                Some(i) => own_clip && 0 <= i < usize::MAX && p.effects@.contains_key(i as usize)
                    && p.last_played != Some(i as usize) ==> step == AudioStep::Play(i as usize),
                None => own_clip ==> step == AudioStep::Nothing,
            }
        }),
{
}

/// Stepping twice on the same frame of the same animation never plays twice: whatever the
/// first step did, the second plays nothing.
pub proof fn lemma_no_second_play_on_a_frame<H>(p: AnimationAudioPlayback<H>, animation: Animation)
    requires
        animation.index_fits(),
    ensures
        ({
            let (step, last) = spec_audio_step(p, animation);
            let (again, last_again) = spec_audio_step(AnimationAudioPlayback { last_played: last, ..p }, animation);
            &&& step is Play ==> again == AudioStep::Nothing && last_again == last
            &&& !(step is Play) ==> again == step && last_again == last
        }),
{
}

/// An effect plays once per visit of its frame: asked again on the same frame, the player
/// plays nothing.
pub proof fn lemma_effect_plays_once<H>(p: AnimationAudioPlayback<H>, animation: Animation)
    requires
        animation.index_fits(),
    ensures
        ({
            let (step, last) = spec_audio_step(p, animation);
            let again = spec_audio_step(AnimationAudioPlayback { last_played: last, ..p }, animation).0;
            step is Play ==> again == AudioStep::Nothing
        }),
{
}

} // verus!
