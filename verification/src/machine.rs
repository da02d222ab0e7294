//! The session state machine: one command applied to one record at one
//! timestamp yields the next record and the outcome to report.

use vstd::prelude::*;

use crate::state::in_progress;
use crate::state::TimerData;

verus! {

/// The five commands of the tracker, and the catch-all for anything else.
#[derive(Clone, Copy, Debug, PartialEq, Eq)]
pub enum Cmd {
    Start,
    Break,
    Back,
    Stop,
    Spent,
    Invalid,
}

/// What a command application reports back to the user.
#[derive(Clone, Copy, Debug, PartialEq, Eq)]
pub enum Outcome {
    /// A segment began running.
    Started,
    /// `start` while a session was already in progress.
    AlreadyInProgress,
    /// The running segment was paused; `session` is the session's
    /// accumulated time so far.
    Paused { session: u64 },
    /// `break` or `stop` with nothing to pause or stop.
    NotRunning,
    /// A paused session began running again.
    Resumed,
    /// `back` while a segment was already running.
    AlreadyRunning,
    /// `back` with no paused session to resume.
    NothingToResume,
    /// The session ended; `session` is its total time.
    Stopped { session: u64 },
    /// The accumulated total across all completed sessions.
    Spent { total: u64 },
    /// An unrecognized command.
    Invalid,
}

/// Seconds from `start` to `now`, saturating at zero when the clock reads
/// earlier than the recorded start.
pub open spec fn elapsed_since(start: u64, now: u64) -> nat {
    if now >= start {
        (now - start) as nat
    } else {
        0
    }
}

/// The in-progress session's duration if it were stopped at `now`.
pub open spec fn session_time(s: TimerData, now: u64) -> nat {
    match s.current_start {
        Some(start) => (elapsed_since(start, now) + s.paused_elapsed) as nat,
        None => s.paused_elapsed as nat,
    }
}

/// The accumulated seconds stay within `u64` when `cmd` is applied to `s`
/// at `now`. On a real clock this holds for hundreds of billions of years.
pub open spec fn fits(s: TimerData, cmd: Cmd, now: u64) -> bool {
    match cmd {
        Cmd::Break => match s.current_start {
            Some(start) => s.paused_elapsed + elapsed_since(start, now) <= u64::MAX,
            None => true,
        },
        Cmd::Stop => s.total_spent + session_time(s, now) <= u64::MAX,
        _ => true,
    }
}

/// The transition relation: next record and outcome for one command.
pub open spec fn spec_transition(s: TimerData, cmd: Cmd, now: u64) -> (TimerData, Outcome) {
    match cmd {
        Cmd::Start => if in_progress(s) {
            (s, Outcome::AlreadyInProgress)
        } else {
            (
                (TimerData {
                    total_spent: s.total_spent,
                    current_start: Some(now),
                    paused_elapsed: s.paused_elapsed,
                }),
                Outcome::Started,
            )
        },
        Cmd::Break => match s.current_start {
            Some(start) => (
                (TimerData {
                    total_spent: s.total_spent,
                    current_start: None,
                    paused_elapsed: (s.paused_elapsed + elapsed_since(start, now)) as u64,
                }),
                (Outcome::Paused {
                    session: (s.paused_elapsed + elapsed_since(start, now)) as u64,
                }),
            ),
            None => (s, Outcome::NotRunning),
        },
        Cmd::Back => if s.current_start is None && s.paused_elapsed > 0 {
            (
                (TimerData {
                    total_spent: s.total_spent,
                    current_start: Some(now),
                    paused_elapsed: s.paused_elapsed,
                }),
                Outcome::Resumed,
            )
        } else if s.current_start is Some {
            (s, Outcome::AlreadyRunning)
        } else {
            (s, Outcome::NothingToResume)
        },
        Cmd::Stop => if session_time(s, now) > 0 {
            (
                (TimerData {
                    total_spent: (s.total_spent + session_time(s, now)) as u64,
                    current_start: None,
                    paused_elapsed: 0,
                }),
                (Outcome::Stopped { session: session_time(s, now) as u64 }),
            )
        } else {
            (s, Outcome::NotRunning)
        },
        Cmd::Spent => (s, (Outcome::Spent { total: s.total_spent })),
        Cmd::Invalid => (s, Outcome::Invalid),
    }
}

/// Applies one command to the record at timestamp `now`.
pub fn transition(s: &TimerData, cmd: Cmd, now: u64) -> (r: (TimerData, Outcome))
    requires
        fits(*s, cmd, now),
    ensures
        r == spec_transition(*s, cmd, now),
{
    match cmd {
        Cmd::Start => {
            if s.current_start.is_some() || s.paused_elapsed > 0 {
                (*s, Outcome::AlreadyInProgress)
            } else {
                (
                    TimerData {
                        total_spent: s.total_spent,
                        current_start: Some(now),
                        paused_elapsed: s.paused_elapsed,
                    },
                    Outcome::Started,
                )
            }
        },
        Cmd::Break => {
            match s.current_start {
                Some(start) => {
                    let elapsed = if now >= start {
                        now - start
                    } else {
                        0
                    };
                    let paused = s.paused_elapsed + elapsed;
                    (
                        TimerData {
                            total_spent: s.total_spent,
                            current_start: None,
                            paused_elapsed: paused,
                        },
                        Outcome::Paused { session: paused },
                    )
                },
                None => (*s, Outcome::NotRunning),
            }
        },
        Cmd::Back => {
            if s.current_start.is_none() && s.paused_elapsed > 0 {
                (
                    TimerData {
                        total_spent: s.total_spent,
                        current_start: Some(now),
                        paused_elapsed: s.paused_elapsed,
                    },
                    Outcome::Resumed,
                )
            } else if s.current_start.is_some() {
                (*s, Outcome::AlreadyRunning)
            } else {
                (*s, Outcome::NothingToResume)
            }
        },
        Cmd::Stop => {
            let session = match s.current_start {
                Some(start) => {
                    let elapsed = if now >= start {
                        now - start
                    } else {
                        0
                    };
                    elapsed + s.paused_elapsed
                },
                None => s.paused_elapsed,
            };
            if session > 0 {
                (
                    TimerData {
                        total_spent: s.total_spent + session,
                        current_start: None,
                        paused_elapsed: 0,
                    },
                    Outcome::Stopped { session },
                )
            } else {
                (*s, Outcome::NotRunning)
            }
        },
        Cmd::Spent => (*s, Outcome::Spent { total: s.total_spent }),
        Cmd::Invalid => (*s, Outcome::Invalid),
    }
}

/// Reading the total is idempotent: `spent` leaves the record as it was,
/// however often it is applied.
pub proof fn lemma_spent_idempotent(s: TimerData, now1: u64, now2: u64)
    ensures
        spec_transition(s, Cmd::Spent, now1).0 == s,
        spec_transition(spec_transition(s, Cmd::Spent, now1).0, Cmd::Spent, now2).0 == s,
{
}

/// `start` while a session is in progress changes nothing in the record.
pub proof fn lemma_start_in_progress_noop(s: TimerData, now: u64)
    requires
        in_progress(s),
    ensures
        spec_transition(s, Cmd::Start, now).0 == s,
{
}

/// The accumulated total never decreases, and it grows exactly when a stop
/// completes with positive session time — which also clears the running
/// start and the paused seconds together.
pub proof fn lemma_total_monotone(s: TimerData, cmd: Cmd, now: u64)
    requires
        fits(s, cmd, now),
    ensures
        spec_transition(s, cmd, now).0.total_spent >= s.total_spent,
        spec_transition(s, cmd, now).0.total_spent > s.total_spent ==> cmd is Stop
            && session_time(s, now) > 0 && spec_transition(s, cmd, now).0.current_start is None
            && spec_transition(s, cmd, now).0.paused_elapsed == 0,
{
}

/// `break` followed at the same instant by `back` keeps the paused time the
/// break banked and runs again from `now`, with the total untouched. This
/// asks for a session that has accumulated some time: a session started at
/// `now` with nothing banked pauses to zero, and `back` then has nothing to
/// resume.
pub proof fn lemma_break_then_back(s: TimerData, now: u64)
    requires
        s.current_start is Some,
        fits(s, Cmd::Break, now),
        s.paused_elapsed + elapsed_since(s.current_start->Some_0, now) > 0,
    ensures
        (spec_transition(spec_transition(s, Cmd::Break, now).0, Cmd::Back, now).0 == (TimerData {
            total_spent: s.total_spent,
            current_start: Some(now),
            paused_elapsed: spec_transition(s, Cmd::Break, now).0.paused_elapsed,
        })),
{
}

} // verus!
