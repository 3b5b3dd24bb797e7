//! What is pressed and clicked.

use vstd::prelude::*;

verus! {

/// A key.
#[derive(Clone, Copy, Debug, PartialEq, Eq, Structural)]
pub enum Key {
    Up,
    Down,
    Left,
    Right,
    Enter,
    Esc,
    Tab,
    Backspace,
    Delete,
    Char(char),
    Other,
}

/// The keys that are held down while another is pressed.
#[derive(Clone, Copy, Debug, PartialEq, Eq, Structural)]
pub struct Held {
    pub control: bool,
    pub command: bool,
    pub shift: bool,
}

} // verus!
