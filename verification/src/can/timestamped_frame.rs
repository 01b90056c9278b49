//! A frame paired with the time it was seen.

use vstd::prelude::*;

verus! {

/// A frame with a timestamp, for logging.
#[derive(Debug, Clone)]
pub struct TimestampedFrame<F> {
    /// Timestamp in microseconds since start of logging
    pub timestamp_us: u64,
    /// The frame
    pub frame: F,
}

impl<F> TimestampedFrame<F> {
    /// Create a new timestamped frame.
    pub fn new(timestamp_us: u64, frame: F) -> (r: Self)
        ensures
            r.timestamp_us == timestamp_us,
            r.frame == frame,
    {
        Self { timestamp_us, frame }
    }
}

} // verus!
