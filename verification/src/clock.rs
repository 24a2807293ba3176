//! The monotonic clock, by which a tick measures how long it took.
//!
//! A reading of the clock is opaque to the verifier, and nothing is claimed
//! of how two readings differ: the time a tick takes is observed, it decides
//! nothing.

use vstd::prelude::*;

verus! {

/// `std::time::Instant`: a reading of the monotonic clock. The verifier sees
/// nothing inside it.
#[verifier::external_type_specification]
#[verifier::external_body]
pub struct ExInstant(std::time::Instant);

/// `Instant::now` reads the clock. No claim is made of the reading.
pub assume_specification[ std::time::Instant::now ]() -> (now: std::time::Instant)
;

/// `Instant::saturating_duration_since` gives the time from `earlier` to
/// `this`, or zero where `earlier` is the later of the two. No claim is made
/// of the length.
pub assume_specification[ std::time::Instant::saturating_duration_since ](
    this: &std::time::Instant,
    earlier: std::time::Instant,
) -> (elapsed: std::time::Duration)
;

} // verus!
