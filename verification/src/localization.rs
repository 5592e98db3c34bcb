//! The words that the countdown display uses in one language.

use vstd::prelude::*;

verus! {

/// Display strings of one language.
#[derive(Clone, Copy, Debug)]
pub struct Strings {
    /// Shown when the reset time has come.
    pub now: &'static str,
    pub day_suffix: &'static str,
    pub hour_suffix: &'static str,
    pub minute_suffix: &'static str,
    pub second_suffix: &'static str,
}

} // verus!
