//! Which way the keys say the camera should move.

use vstd::prelude::*;

verus! {

/// A key as far as the camera cares.
#[derive(Clone, Copy, Debug, PartialEq, Eq, Structural)]
pub enum Key {
    W,
    S,
    A,
    D,
    Other,
}

/// The directions in which the camera is being pushed.
#[derive(Clone, Copy, Debug, PartialEq, Eq, Structural)]
pub struct Controls {
    pub forward_enable: bool,
    pub backward_enable: bool,
    pub left_enable: bool,
    pub right_enable: bool,
}

impl Controls {
    /// The controls after `key` went down (`pressed`) or up: W, S, A and D
    /// switch forward, backward, left and right; no other key does anything.
    pub open spec fn after_key(self, key: Key, pressed: bool) -> Controls {
        match key {
            Key::W => Controls { forward_enable: pressed, ..self },
            Key::S => Controls { backward_enable: pressed, ..self },
            Key::A => Controls { left_enable: pressed, ..self },
            Key::D => Controls { right_enable: pressed, ..self },
            Key::Other => self,
        }
    }

    /// No key is down.
    pub fn new() -> (c: Controls)
        ensures
            c == (Controls {
                forward_enable: false,
                backward_enable: false,
                left_enable: false,
                right_enable: false,
            }),
    {
        Controls {
            forward_enable: false,
            backward_enable: false,
            left_enable: false,
            right_enable: false,
        }
    }

    /// Takes note of a key that went down or up.
    pub fn process_input(&mut self, key: Key, pressed: bool)
        ensures
            *final(self) == old(self).after_key(key, pressed),
    {
        match key {
            Key::W => {
                self.forward_enable = pressed;
            },
            Key::S => {
                self.backward_enable = pressed;
            },
            Key::A => {
                self.left_enable = pressed;
            },
            Key::D => {
                self.right_enable = pressed;
            },
            Key::Other => {},
        }
    }
}

} // verus!
