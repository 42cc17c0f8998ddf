//! Edge detection for the left mouse button, frame by frame.
use vstd::prelude::*;

verus! {

/// Whether the left mouse button was held down this frame and the frame before.
pub struct InputSystem {
    clicked_this_frame: bool,
    clicked_last_frame: bool,
}

impl InputSystem {
    pub closed spec fn now(&self) -> bool {
        self.clicked_this_frame
    }

    pub closed spec fn before(&self) -> bool {
        self.clicked_last_frame
    }

    /// An input system that has seen no click.
    pub fn new() -> (r: InputSystem)
        ensures
            !r.now(),
            !r.before(),
    {
        InputSystem { clicked_this_frame: false, clicked_last_frame: false }
    }

    /// Starts a new frame in which the button is held down exactly when
    /// `pressed` (it is pressed and the window has the focus).
    pub fn update(&mut self, pressed: bool)
        ensures
            final(self).now() == pressed,
            final(self).before() == old(self).now(),
    {
        self.clicked_last_frame = self.clicked_this_frame;
        self.clicked_this_frame = pressed;
    }

    /// The button went down this frame.
    pub fn just_pressed_lmb(&self) -> (r: bool)
        ensures
            r == (self.now() && !self.before()),
    {
        self.clicked_this_frame && !self.clicked_last_frame
    }

    /// The button is held down.
    pub fn is_pressing_lmb(&self) -> (r: bool)
        ensures
            r == self.now(),
    {
        self.clicked_this_frame
    }

    /// The button went up this frame.
    pub fn just_released_lmb(&self) -> (r: bool)
        ensures
            r == (!self.now() && self.before()),
    {
        !self.clicked_this_frame && self.clicked_last_frame
    }
}

} // verus!
