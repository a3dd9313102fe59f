//! The observation window: a `[start, end)` pair of timestamps plus a
//! minimum-age threshold, supplied once per run and immutable afterwards.
//!
//! Timestamps are whole seconds since the Unix epoch; the threshold is a
//! non-negative number of seconds.

use vstd::prelude::*;

verus! {

/// Rejected window parameters.
#[derive(Clone, Copy, Debug, PartialEq, Eq, Structural)]
pub enum WindowError {
    /// `end` was not strictly after `start`.
    EndNotAfterStart,
    /// The minimum-age threshold was negative.
    NegativeThreshold,
}

/// The time range and minimum age that govern which lifetimes are reported.
#[derive(Clone, Copy, Debug)]
pub struct ObservationWindow {
    pub start_secs: i64,
    pub end_secs: i64,
    pub min_age_secs: i64,
}

impl ObservationWindow {
    /// A window is only meaningful when `end` is strictly after `start` and
    /// the minimum-age threshold is non-negative.
    pub open spec fn wf(self) -> bool {
        &&& self.start_secs < self.end_secs
        &&& 0 <= self.min_age_secs
    }

    /// Build a window, rejecting `end <= start` and a negative threshold.
    pub fn new(start_secs: i64, end_secs: i64, min_age_secs: i64) -> (r: Result<
        ObservationWindow,
        WindowError,
    >)
        ensures
            r is Ok <==> (start_secs < end_secs && 0 <= min_age_secs),
            r matches Ok(w) ==> w.wf() && w.start_secs == start_secs && w.end_secs == end_secs
                && w.min_age_secs == min_age_secs,
            r matches Err(e) ==> (e == WindowError::EndNotAfterStart <==> end_secs <= start_secs),
    {
        if end_secs <= start_secs {
            Err(WindowError::EndNotAfterStart)
        } else if min_age_secs < 0 {
            Err(WindowError::NegativeThreshold)
        } else {
            Ok(ObservationWindow { start_secs, end_secs, min_age_secs })
        }
    }
}

} // verus!
