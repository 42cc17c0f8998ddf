//! The state of an on-screen button.
use vstd::prelude::*;
use crate::input_system::InputSystem;

verus! {

/// What the pointer does to a button.
#[derive(Clone, Copy, Debug, PartialEq, Eq, Structural)]
pub enum ButtonState {
    /// Clicked: the button was released over it this frame.
    Pressed,
    /// The pointer is over it.
    Hovered,
    Inactive,
}

impl ButtonState {
    /// The state of a button, given whether the pointer is over it: pressed
    /// when the button is released over it, hovered otherwise, inactive when
    /// the pointer is elsewhere.
    pub fn from_pointer(hovered: bool, input: &InputSystem) -> (r: ButtonState)
        ensures
            r == (if !hovered {
                ButtonState::Inactive
            } else if !input.now() && input.before() {
                ButtonState::Pressed
            } else {
                ButtonState::Hovered
            }),
    {
        if hovered {
            if input.just_released_lmb() {
                ButtonState::Pressed
            } else {
                ButtonState::Hovered
            }
        } else {
            ButtonState::Inactive
        }
    }
}

} // verus!
