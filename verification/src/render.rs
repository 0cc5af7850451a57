//! The interface of clock renderers.

use vstd::prelude::*;
use crate::clock::ClockTime;

verus! {

/// Something that draws a clock face showing a time in a given area.
pub trait ClockRenderer {
    type Output;

    fn render(&self, time: ClockTime, width: u16, height: u16, show_seconds: bool) -> Self::Output;
}

} // verus!
