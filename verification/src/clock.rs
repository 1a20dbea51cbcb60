//! The clock by which a run is timed.

use std::time::{Duration, Instant};
use vstd::prelude::*;

verus! {

/// `std::time::Instant`, a reading of the monotonic clock. Its contents are
/// not modelled.
#[verifier::external_type_specification]
#[verifier::external_body]
pub struct ExInstant(Instant);

/// `Instant::now` reads the clock. The reading depends on when the call is
/// made, so nothing is claimed of it.
pub assume_specification[ Instant::now ]() -> (now: Instant)
;

/// `Instant::elapsed` gives the time that has passed since a reading. It
/// depends on when the call is made, so nothing is claimed of it.
pub assume_specification[ Instant::elapsed ](start: &Instant) -> (elapsed: Duration)
;

} // verus!
