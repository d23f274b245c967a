//! What the screens of the program decide: which card is shown, what a key
//! does, and when a session ends. Drawing is done elsewhere.

use vstd::prelude::*;

pub mod audit;
pub mod formatting;
pub mod revise;

verus! {

/// A key that was pressed.
#[derive(Debug, Clone, Copy, PartialEq, Eq, Structural)]
pub enum Key {
    Char(char),
    Left,
    Right,
    /// Any other key.
    Other,
}

} // verus!
