//! The two primitive time values: an instant (`Epoch`) and a signed span
//! (`Duration`), both counted in whole nanoseconds.
//!
//! An instant is a totally ordered point in time, held as the signed number of
//! nanoseconds from a fixed reference instant. A duration is a signed span of
//! time in the same unit. The view of either value is that nanosecond count as
//! a mathematical integer.

use vstd::prelude::*;

verus! {

/// A point in time, counted in whole nanoseconds from a fixed reference
/// instant. Instants before the reference carry a negative count.
#[derive(Clone, Copy, Debug, PartialEq, Eq, Structural)]
pub struct Epoch {
    /// Nanoseconds from the reference instant.
    pub nanos: i64,
}

impl View for Epoch {
    type V = int;

    open spec fn view(&self) -> int {
        self.nanos as int
    }
}

impl Epoch {
    /// Builds the instant that lies `nanos` nanoseconds from the reference
    /// instant.
    pub fn from_nanoseconds(nanos: i64) -> (r: Epoch)
        ensures
            r@ == nanos as int,
    {
        Epoch { nanos }
    }

    /// The signed nanosecond count of this instant.
    pub fn to_nanoseconds(&self) -> (r: i64)
        ensures
            r as int == self@,
    {
        self.nanos
    }
}

/// A signed span of time, counted in whole nanoseconds.
#[derive(Clone, Copy, Debug, PartialEq, Eq, Structural)]
pub struct Duration {
    /// Length of the span in nanoseconds; negative spans point backward.
    pub nanos: i64,
}

impl View for Duration {
    type V = int;

    open spec fn view(&self) -> int {
        self.nanos as int
    }
}

impl Duration {
    /// Builds the span of `nanos` nanoseconds.
    pub fn from_nanoseconds(nanos: i64) -> (r: Duration)
        ensures
            r@ == nanos as int,
    {
        Duration { nanos }
    }

    /// The signed nanosecond count of this span.
    pub fn to_nanoseconds(&self) -> (r: i64)
        ensures
            r as int == self@,
    {
        self.nanos
    }
}

} // verus!
