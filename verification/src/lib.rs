//! Evenly spaced sequences of time instants.
//!
//! The crate provides [`TimeSeries`], a cursor that walks a time range from a
//! `start` instant toward an `end` instant in fixed [`Duration`] steps, either
//! end-exclusive or end-inclusive, and that can report how many instants the
//! walk yields without enumerating them.

mod epoch;
mod timeseries;

pub use crate::epoch::Duration;
pub use crate::epoch::Epoch;
pub use crate::timeseries::TimeSeries;
pub use crate::timeseries::ceil_div;
pub use crate::timeseries::clamp_count;
pub use crate::timeseries::enum_count;
pub use crate::timeseries::grid;
pub use crate::timeseries::in_bound;
pub use crate::timeseries::lemma_consecutive_difference;
pub use crate::timeseries::lemma_element_bounds;
pub use crate::timeseries::lemma_exclusive_below_end;
pub use crate::timeseries::lemma_first_element_is_start;
pub use crate::timeseries::lemma_inclusive_reaches_end;
pub use crate::timeseries::lemma_len_agreement_inclusive;
pub use crate::timeseries::lemma_len_exact_multiple;
pub use crate::timeseries::lemma_len_exclusive_relation;
pub use crate::timeseries::produced_seq;
pub use crate::timeseries::reported_len;
