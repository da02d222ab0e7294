//! The persisted timer record and its basic classification.

use vstd::prelude::*;

verus! {

/// The single persisted entity of the tracker.
///
/// `total_spent` holds the seconds accumulated across all completed
/// sessions, `current_start` the timestamp (seconds since the epoch) at
/// which the currently running segment began — absent when no segment is
/// running — and `paused_elapsed` the seconds already accumulated for the
/// in-progress session while it was paused.
#[derive(Clone, Copy, Debug, PartialEq, Eq)]
pub struct TimerData {
    pub total_spent: u64,
    pub current_start: Option<u64>,
    pub paused_elapsed: u64,
}

/// The fresh record used when nothing was persisted yet, or when the
/// persisted contents fail to parse.
pub open spec fn initial() -> TimerData {
    (TimerData { total_spent: 0, current_start: None, paused_elapsed: 0 })
}

/// A session is in progress iff a segment is running or paused time has
/// accumulated for it.
pub open spec fn in_progress(s: TimerData) -> bool {
    s.current_start is Some || s.paused_elapsed > 0
}

impl TimerData {
    /// The fresh record: nothing spent, nothing running, nothing paused.
    pub fn new() -> (r: Self)
        ensures
            r == initial(),
    {
        Self { total_spent: 0, current_start: None, paused_elapsed: 0 }
    }
}

} // verus!
