//! Key binding states as the input handler tracks them from frame to frame.
use vstd::prelude::*;

verus! {

/// State of a bound key.
#[derive(Debug, Clone, Copy, PartialEq, Eq, Structural, Default)]
pub enum KeyState {
    #[default]
    Unpressed,
    JustPressed,
    Held,
}

impl KeyState {
    /// Whether the key is down (pressed this frame or held).
    pub fn is_pressed(&self) -> (r: bool)
        ensures
            r == (*self == KeyState::JustPressed || *self == KeyState::Held),
    {
        *self == KeyState::JustPressed || *self == KeyState::Held
    }

    /// Whether the key went down this frame.
    pub fn is_just_pressed(&self) -> (r: bool)
        ensures
            r == (*self == KeyState::JustPressed),
    {
        *self == KeyState::JustPressed
    }

    /// The state after a key event: a press turns an unpressed key into
    /// just-pressed and any pressed key into held; a release always unpresses.
    pub fn update_state(&self, pressed: bool) -> (r: KeyState)
        ensures
            !pressed ==> r == KeyState::Unpressed,
            pressed && *self == KeyState::Unpressed ==> r == KeyState::JustPressed,
            pressed && *self != KeyState::Unpressed ==> r == KeyState::Held,
    {
        match self {
            KeyState::Unpressed => if pressed { KeyState::JustPressed } else { KeyState::Unpressed },
            KeyState::JustPressed => if pressed { KeyState::Held } else { KeyState::Unpressed },
            KeyState::Held => if pressed { KeyState::Held } else { KeyState::Unpressed },
        }
    }
}

} // verus!
