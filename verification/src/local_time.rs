//! The wall clock as the system tells it.

use vstd::prelude::*;

verus! {

/// A local date and time.
#[derive(Clone, Copy)]
pub struct LocalTime {
    pub year: u16,
    pub month: u16,
    pub day: u16,
    pub hour: u16,
    pub minute: u16,
    pub second: u16,
    pub millis: u16,
}

} // verus!
