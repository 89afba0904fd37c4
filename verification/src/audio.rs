//! Audible alert patterns.
//!
//! The engine only decides what should sound; the host makes the
//! noise.

use vstd::prelude::*;

verus! {

/// Beep pattern of an audible alert.
#[derive(Debug, Clone, Copy, PartialEq, Eq, Structural)]
pub enum AlertSound {
    /// One beep for a regular alert.
    Single,
    /// Two beeps for high priority.
    Double,
    /// Three beeps for a critical alert.
    Triple,
}

impl AlertSound {
    /// How many beeps the pattern plays.
    pub fn beep_count(self) -> (r: u8)
        ensures
            self == AlertSound::Single ==> r == 1,
            self == AlertSound::Double ==> r == 2,
            self == AlertSound::Triple ==> r == 3,
    {
        match self {
            AlertSound::Single => 1,
            AlertSound::Double => 2,
            AlertSound::Triple => 3,
        }
    }
}

} // verus!
