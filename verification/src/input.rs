use vstd::prelude::*;

verus! {

use crate::event::BusEvent;

/// Opaque key transitions from the input device; the core carries the codes
/// without interpreting them.
#[derive(Clone, Copy, Debug)]
pub enum InputEvent {
    KeyDown(u32),
    KeyUp(u32),
}

impl BusEvent for InputEvent {
    fn dup(&self) -> (r: InputEvent)
        ensures
            r == *self,
    {
        *self
    }
}

/// The module that exposes the input channel to other entities: consumers
/// discover it under its alias and subscribe to key events through the
/// scene's input channel.
#[derive(Clone, Copy, Debug)]
pub struct InputManager;

} // verus!
