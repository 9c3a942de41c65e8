//! The coarse fighter state used by the older movement systems.

use vstd::prelude::*;

use crate::animation::Animation;
use crate::text::str_equal;

verus! {

/// A fighter's coarse state.
#[derive(Debug, PartialEq, Eq, Structural, Hash, Clone, Copy)]
pub enum State {
    Idle,
    Running,
    Attacking,
    KnockedLeft,
    KnockedRight,
    Waiting,
    Dying,
}

/// The state that a configuration name stands for, if any.
pub open spec fn state_named(name: Seq<char>) -> Option<State> {
    if name == "idle"@ {
        Some(State::Idle)
    } else if name == "running"@ {
        Some(State::Running)
    } else if name == "attacking"@ {
        Some(State::Attacking)
    } else if name == "knocked_left"@ {
        Some(State::KnockedLeft)
    } else if name == "knocked_right"@ {
        Some(State::KnockedRight)
    } else if name == "waiting"@ {
        Some(State::Waiting)
    } else if name == "dying"@ {
        Some(State::Dying)
    } else {
        None
    }
}

impl State {
    /// Replaces the state.
    pub fn set(&mut self, state: State)
        ensures
            *final(self) == state,
    {
        *self = state;
    }

    /// Parses a state from its configuration name; any other name is refused with the
    /// error "invalid value".
    pub fn try_from(value: String) -> (res: Result<State, &'static str>)
        ensures
            match res {
                Ok(s) => state_named(value@) == Some(s),
                Err(e) => state_named(value@) is None && e@ == "invalid value"@,
            },
    {
        let v = value.as_str();
        if str_equal(v, "idle") {
            Ok(State::Idle)
        } else if str_equal(v, "running") {
            Ok(State::Running)
        } else if str_equal(v, "attacking") {
            Ok(State::Attacking)
        } else if str_equal(v, "knocked_left") {
            Ok(State::KnockedLeft)
        } else if str_equal(v, "knocked_right") {
            Ok(State::KnockedRight)
        } else if str_equal(v, "waiting") {
            Ok(State::Waiting)
        } else if str_equal(v, "dying") {
            Ok(State::Dying)
        } else {
            Err("invalid value")
        }
    }

}

impl Default for State {
    /// A fighter starts idle.
    fn default() -> (s: State)
        ensures
            s == State::Idle,
    {
        State::Idle
    }
}


/// The state after the animation check: a fighter whose clip plays once and has been
/// played goes back to idle, unless it is dying.
pub open spec fn spec_return_to_idle(state: State, repeating: bool, finished: bool) -> State {
    if !repeating && finished && state != State::Dying {
        State::Idle
    } else {
        state
    }
}

impl State {
    /// Whether a fighter in this state takes movement input.
    pub fn can_move(&self) -> (res: bool)
        ensures
            res == (*self == State::Idle || *self == State::Running),
    {
        match self {
            State::Idle | State::Running => true,
            _ => false,
        }
    }

    /// The state of a fighter that moved (running) or did not (idle) this frame.
    pub fn from_movement(moved: bool) -> (s: State)
        ensures
            s == if moved { State::Running } else { State::Idle },
    {
        if moved {
            State::Running
        } else {
            State::Idle
        }
    }
}

/// Sends a fighter back to idle once its one-shot clip has been played, unless it is dying.
pub fn return_to_idle(state: &mut State, animation: &Animation)
    ensures
        *final(state) == spec_return_to_idle(*old(state), animation.spec_is_repeating(), animation.played_once),
{
    if !animation.is_repeating() && animation.is_finished() && *state != State::Dying {
        state.set(State::Idle);
    }
}

/// Returning to idle leaves a fighter idle or as it was, and never revives a dying one.
pub proof fn lemma_return_to_idle_laws(state: State, repeating: bool, finished: bool)
    ensures
        spec_return_to_idle(state, repeating, finished) == State::Idle
            || spec_return_to_idle(state, repeating, finished) == state,
        state == State::Dying ==> spec_return_to_idle(state, repeating, finished) == State::Dying,
        repeating ==> spec_return_to_idle(state, repeating, finished) == state,
{
}

} // verus!
